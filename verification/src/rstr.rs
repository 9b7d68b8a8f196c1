use vstd::prelude::*;
use vstd::string::*;

verus! {

/// Byte `j` of a buffer holding `s`: the bytes after the content are the
/// zero terminator and zero padding.
pub open spec fn byte_at(s: Seq<u8>, j: int) -> u8 {
    if 0 <= j < s.len() {
        s[j]
    } else {
        0
    }
}

/// The four-byte character cell that starts at byte `i` is NUL.
pub open spec fn nul_at(s: Seq<u8>, i: int) -> bool {
    &&& byte_at(s, i) == 0
    &&& byte_at(s, i + 1) == 0
    &&& byte_at(s, i + 2) == 0
    &&& byte_at(s, i + 3) == 0
}

/// The first NUL cell at or after `i`.
pub open spec fn nul_from(s: Seq<u8>, i: int) -> int
    decreases s.len() - i,
{
    if i >= s.len() || nul_at(s, i) {
        i
    } else {
        nul_from(s, i + 1)
    }
}

/// Where a reader that stops at the first NUL cell stops.
pub open spec fn text_len(s: Seq<u8>) -> int {
    nul_from(s, 0)
}

/// What a reader that stops at the first NUL cell reads.
pub open spec fn text(s: Seq<u8>) -> Seq<u8> {
    s.take(text_len(s))
}

/// At most the first `n` bytes of `x`.
pub open spec fn clip(x: Seq<u8>, n: nat) -> Seq<u8> {
    if x.len() <= n {
        x
    } else {
        x.take(n as int)
    }
}

/// The pieces of `t` between occurrences of `d`: one more piece than
/// there are delimiters, empty pieces included.
pub open spec fn fields(t: Seq<u8>, d: u8) -> Seq<Seq<u8>>
    decreases t.len(),
{
    if t.len() == 0 {
        seq![Seq::<u8>::empty()]
    } else {
        let f = fields(t.drop_last(), d);
        if t.last() == d {
            f.push(Seq::<u8>::empty())
        } else {
            f.update(f.len() - 1, f.last().push(t.last()))
        }
    }
}

/// Keeps the bytes that are not `d`.
pub open spec fn not_delim(d: u8) -> spec_fn(u8) -> bool {
    |b: u8| b != d
}

/// The bytes that follow the first piece, delimiters dropped.
pub open spec fn tail_bytes(t: Seq<u8>, d: u8) -> Seq<u8> {
    t.skip(fields(t, d)[0].len() as int).filter(not_delim(d))
}

/// A reader that compares `o` with the buffer byte by byte finds every
/// byte equal and a NUL cell right after `o`.
pub open spec fn str_matches(s: Seq<u8>, o: Seq<u8>) -> bool {
    &&& forall|j: int| 0 <= j < o.len() ==> o[j] == byte_at(s, j)
    &&& nul_at(s, o.len() as int)
}

/// The four-byte character cell at `i` holds exactly the character `c`
/// (little-endian: `c`, then three zero bytes).
pub open spec fn cell_holds(s: Seq<u8>, i: int, c: u8) -> bool {
    &&& byte_at(s, i) == c
    &&& byte_at(s, i + 1) == 0
    &&& byte_at(s, i + 2) == 0
    &&& byte_at(s, i + 3) == 0
}

/// The character code a reader of four-byte cells gets at byte `i`:
/// the four bytes from `i`, little-endian.
pub open spec fn cell_at(s: Seq<u8>, i: int) -> u32 {
    (byte_at(s, i) + 256 * byte_at(s, i + 1) + 65536 * byte_at(s, i + 2) + 16777216 * byte_at(
        s,
        i + 3,
    )) as u32
}

/// The character codes a reader that steps one byte at a time through the
/// text reads: one four-byte cell from each byte of the text.
pub open spec fn cells(s: Seq<u8>) -> Seq<u32> {
    Seq::new(text_len(s) as nat, |i: int| cell_at(s, i))
}

/// The byte a character stands for in a byte buffer: its low eight bits.
pub open spec fn low_byte(c: char) -> u8 {
    #[verifier::truncate] (c as u8)
}

/// The capacity of the strings that argument lookup and splitting build.
pub open spec fn arg_capacity() -> nat {
    256
}

/// Argument `k` of `s` (pieces split by `d`) is there: either a delimiter
/// closes it, or it is the last piece and the text stops before the buffer end.
pub open spec fn arg_exists(s: Seq<u8>, cap: nat, d: u8, k: nat) -> bool {
    let f = fields(text(s), d);
    ||| k + 1 < f.len()
    ||| (k + 1 == f.len() && !(text_len(s) == cap && cap > 0))
}

/// The lookup of argument `k` runs off the end of a full buffer.
pub open spec fn arg_overruns(s: Seq<u8>, cap: nat, d: u8, k: nat) -> bool {
    let f = fields(text(s), d);
    &&& k + 1 >= f.len()
    &&& text_len(s) == cap
    &&& cap > 0
}

/// The content of argument `k`, cut to the capacity of the result.
pub open spec fn arg_value(s: Seq<u8>, d: u8, k: nat) -> Seq<u8> {
    clip(fields(text(s), d)[k as int], arg_capacity())
}

/// The pieces joined back together, the delimiter between each two.
pub open spec fn join(f: Seq<Seq<u8>>, d: u8) -> Seq<u8>
    decreases f.len(),
{
    if f.len() == 0 {
        Seq::empty()
    } else if f.len() == 1 {
        f[0]
    } else {
        join(f.drop_last(), d) + seq![d] + f.last()
    }
}

/// Splitting at a delimiter loses nothing: joining the pieces with the
/// delimiter gives the text back.
pub proof fn law_fields_join(t: Seq<u8>, d: u8)
    ensures
        join(fields(t, d), d) == t,
    decreases t.len(),
{
    if t.len() == 0 {
        assert(join(fields(t, d), d) =~= t);
    } else {
        let u = t.drop_last();
        let c = t.last();
        let g = fields(u, d);
        law_fields_join(u, d);
        lemma_fields_nonempty(u, d);
        if c == d {
            let f = g.push(Seq::<u8>::empty());
            assert(f.drop_last() =~= g);
            assert(join(f, d) =~= join(g, d) + seq![d] + Seq::<u8>::empty());
            assert(t =~= u.push(d));
        } else {
            let f = g.update(g.len() - 1, g.last().push(c));
            if g.len() == 1 {
                assert(t =~= u.push(c));
            } else {
                assert(f.drop_last() =~= g.drop_last());
                assert(join(f, d) =~= (join(g.drop_last(), d) + seq![d] + g.last()).push(c));
                assert(t =~= u.push(c));
            }
        }
    }
}

/// A text without the delimiter is a single piece: the whole text.
pub proof fn law_fields_without_delimiter(t: Seq<u8>, d: u8)
    requires
        !t.contains(d),
    ensures
        fields(t, d) == seq![t],
    decreases t.len(),
{
    if t.len() == 0 {
        assert(t =~= Seq::<u8>::empty());
        assert(fields(t, d) =~= seq![t]);
    } else {
        let u = t.drop_last();
        assert(!u.contains(d)) by {
            if u.contains(d) {
                let i = choose|i: int| 0 <= i < u.len() && u[i] == d;
                assert(t[i] == d);
            }
        }
        assert(t.last() != d) by {
            assert(t[t.len() - 1] == t.last());
        }
        law_fields_without_delimiter(u, d);
        assert(fields(t, d) =~= seq![u.push(t.last())]);
        assert(u.push(t.last()) =~= t);
    }
}

/// A content without zero bytes is read whole.
pub proof fn law_text_of_nul_free(s: Seq<u8>)
    requires
        forall|j: int| 0 <= j < s.len() ==> s[j] != 0,
    ensures
        text(s) == s,
{
    lemma_text_len(s);
    if text_len(s) < s.len() {
        assert(byte_at(s, text_len(s)) != 0);
    }
    assert(s.take(s.len() as int) =~= s);
}

/// For a string without zero bytes, comparing a buffer with it is asking
/// whether the buffer's text is that string.
pub proof fn law_str_matches_is_text_equality(s: Seq<u8>, o: Seq<u8>)
    requires
        forall|j: int| 0 <= j < o.len() ==> o[j] != 0,
    ensures
        str_matches(s, o) <==> text(s) == o,
{
    lemma_text_len(s);
    if str_matches(s, o) {
        assert forall|j: int| 0 <= j < o.len() implies !nul_at(s, j) by {
            assert(byte_at(s, j) == o[j]);
        }
        if o.len() > 0 {
            assert(byte_at(s, o.len() - 1) != 0);
        }
        assert(text_len(s) == o.len());
        assert(text(s) =~= o);
    }
    if text(s) == o {
        assert forall|j: int| 0 <= j < o.len() implies o[j] == byte_at(s, j) by {
            assert(text(s)[j] == s[j]);
        }
    }
}

/// No piece holds the delimiter: with the joining law, this pins the
/// pieces down.
pub proof fn law_fields_have_no_delimiter(t: Seq<u8>, d: u8)
    ensures
        forall|i: int| 0 <= i < fields(t, d).len() ==> !(#[trigger] fields(t, d)[i]).contains(d),
    decreases t.len(),
{
    if t.len() > 0 {
        let u = t.drop_last();
        let c = t.last();
        let g = fields(u, d);
        law_fields_have_no_delimiter(u, d);
        lemma_fields_nonempty(u, d);
        assert forall|i: int| 0 <= i < fields(t, d).len() implies !(#[trigger] fields(t, d)[i]).contains(
            d,
        ) by {
            if c == d {
                if i < g.len() {
                    assert(fields(t, d)[i] == g[i]);
                } else {
                    assert(fields(t, d)[i] =~= Seq::<u8>::empty());
                }
            } else if i < g.len() - 1 {
                assert(fields(t, d)[i] == g[i]);
            } else {
                let p = g.last().push(c);
                assert(fields(t, d)[i] == p);
                if p.contains(d) {
                    let k = choose|k: int| 0 <= k < p.len() && p[k] == d;
                    assert(k < g.last().len());
                    assert(g[g.len() - 1][k] == d);
                }
            }
        }
    }
}

/// With room left in the buffer, argument `k` is there exactly when the text
/// has more than `k` pieces; in a full buffer the last piece is never found.
pub proof fn law_arg_exists_by_pieces(s: Seq<u8>, cap: nat, d: u8, k: nat)
    ensures
        text_len(s) < cap ==> (arg_exists(s, cap, d, k) <==> k < fields(text(s), d).len()),
        text_len(s) == cap && cap > 0 ==> (arg_exists(s, cap, d, k) <==> k + 1 < fields(text(s), d).len()),
        text_len(s) == cap && cap > 0 && !arg_exists(s, cap, d, k) ==> arg_overruns(s, cap, d, k),
{
}

/// An argument lookup never both finds its argument and overruns.
pub proof fn law_arg_found_or_overrun(s: Seq<u8>, cap: nat, d: u8, k: nat)
    ensures
        !(arg_exists(s, cap, d, k) && arg_overruns(s, cap, d, k)),
{
}

/// The pieces run together, nothing between them.
pub open spec fn flatten(f: Seq<Seq<u8>>) -> Seq<u8>
    decreases f.len(),
{
    if f.len() == 0 {
        Seq::empty()
    } else {
        flatten(f.drop_last()) + f.last()
    }
}

proof fn lemma_first_field(t: Seq<u8>, d: u8)
    ensures
        fields(t, d)[0].len() <= t.len(),
        fields(t, d)[0] == t.take(fields(t, d)[0].len() as int),
        fields(t, d).len() == 1 ==> fields(t, d)[0] == t,
    decreases t.len(),
{
    if t.len() == 0 {
        assert(t.take(0) =~= t);
    } else {
        let u = t.drop_last();
        lemma_first_field(u, d);
        lemma_fields_nonempty(u, d);
        if fields(u, d).len() == 1 && t.last() != d {
            assert(t =~= u.push(t.last()));
            assert(t.take(t.len() as int) =~= t);
        } else {
            assert(u.take(fields(u, d)[0].len() as int) =~= t.take(fields(u, d)[0].len() as int));
        }
    }
}

/// The second part of a split is every piece after the first, run
/// together: the text loses only its delimiters.
pub proof fn law_split_tail_is_later_pieces(t: Seq<u8>, d: u8)
    ensures
        tail_bytes(t, d) == flatten(fields(t, d).drop_first()),
    decreases t.len(),
{
    reveal_with_fuel(Seq::filter, 1);
    lemma_first_field(t, d);
    if t.len() == 0 {
        assert(t.skip(fields(t, d)[0].len() as int) =~= Seq::<u8>::empty());
        assert(fields(t, d).drop_first() =~= Seq::<Seq<u8>>::empty());
    } else {
        let u = t.drop_last();
        let c = t.last();
        let g = fields(u, d);
        lemma_fields_nonempty(u, d);
        lemma_first_field(u, d);
        if g.len() == 1 {
            if c == d {
                let p = g[0].len() as int;
                assert(fields(t, d)[0] == g[0]);
                assert(g[0] == u);
                assert(t.skip(p) =~= seq![d]);
                seq![d].drop_last().lemma_filter_push(d, not_delim(d));
                assert(seq![d].drop_last() =~= Seq::<u8>::empty());
                assert(Seq::<u8>::empty().push(d) =~= seq![d]);
                assert(fields(t, d).drop_first() =~= seq![Seq::<u8>::empty()]);
                assert(flatten(seq![Seq::<u8>::empty()]) =~= flatten(
                    seq![Seq::<u8>::empty()].drop_last(),
                ) + Seq::<u8>::empty());
                assert(seq![Seq::<u8>::empty()].drop_last() =~= Seq::<Seq<u8>>::empty());
            } else {
                assert(fields(t, d).len() == 1);
                assert(t.skip(t.len() as int) =~= Seq::<u8>::empty());
                assert(fields(t, d).drop_first() =~= Seq::<Seq<u8>>::empty());
            }
        } else {
            law_split_tail_is_later_pieces(u, d);
            let p = g[0].len() as int;
            assert(fields(t, d)[0] == g[0]);
            assert(t.skip(p) =~= u.skip(p).push(c));
            u.skip(p).lemma_filter_push(c, not_delim(d));
            let h = g.drop_first();
            if c == d {
                assert(fields(t, d).drop_first() =~= h.push(Seq::<u8>::empty()));
                assert(h.push(Seq::<u8>::empty()).drop_last() =~= h);
                assert(flatten(h.push(Seq::<u8>::empty())) =~= flatten(h));
            } else {
                let h2 = h.update(h.len() - 1, h.last().push(c));
                assert(fields(t, d).drop_first() =~= h2);
                assert(h2.drop_last() =~= h.drop_last());
                assert(flatten(h) == flatten(h.drop_last()) + h.last());
                assert(flatten(h2) =~= flatten(h).push(c));
            }
        }
    }
}

proof fn lemma_nul_from(s: Seq<u8>, i: int)
    requires
        0 <= i <= s.len(),
    ensures
        i <= nul_from(s, i) <= s.len(),
        nul_at(s, nul_from(s, i)),
        forall|j: int| i <= j < nul_from(s, i) ==> !nul_at(s, j),
    decreases s.len() - i,
{
    if i < s.len() && !nul_at(s, i) {
        lemma_nul_from(s, i + 1);
    }
}

/// The text ends at a NUL cell inside the buffer, and no NUL cell comes before it.
pub proof fn lemma_text_len(s: Seq<u8>)
    ensures
        0 <= text_len(s) <= s.len(),
        nul_at(s, text_len(s)),
        forall|j: int| 0 <= j < text_len(s) ==> !nul_at(s, j),
        text(s).len() == text_len(s),
{
    lemma_nul_from(s, 0);
}

pub proof fn lemma_fields_nonempty(t: Seq<u8>, d: u8)
    ensures
        fields(t, d).len() >= 1,
    decreases t.len(),
{
    if t.len() > 0 {
        lemma_fields_nonempty(t.drop_last(), d);
    }
}

/// The pieces of a prefix that a delimiter closes are pieces of the whole.
pub proof fn lemma_fields_prefix(t: Seq<u8>, d: u8, m: int)
    requires
        0 <= m <= t.len(),
    ensures
        fields(t.take(m), d).len() <= fields(t, d).len(),
        forall|j: int|
            0 <= j < fields(t.take(m), d).len() - 1 ==> fields(t, d)[j] == fields(t.take(m), d)[j],
    decreases t.len(),
{
    if m == t.len() {
        assert(t.take(m) =~= t);
    } else {
        lemma_fields_prefix(t.drop_last(), d, m);
        assert(t.drop_last().take(m) =~= t.take(m));
        lemma_fields_nonempty(t.drop_last(), d);
    }
}

/// One more byte of the prefix either opens a new piece or extends the last one.
proof fn lemma_fields_step(s: Seq<u8>, d: u8, i: int)
    requires
        0 <= i < s.len(),
    ensures
        fields(s.take(i + 1), d) == (if s[i] == d {
            fields(s.take(i), d).push(Seq::<u8>::empty())
        } else {
            fields(s.take(i), d).update(
                fields(s.take(i), d).len() - 1,
                fields(s.take(i), d).last().push(s[i]),
            )
        }),
{
    assert(s.take(i + 1).drop_last() =~= s.take(i));
    assert(s.take(i + 1).last() == s[i]);
}

proof fn lemma_clip_push(x: Seq<u8>, b: u8, n: nat)
    ensures
        clip(x.push(b), n) == (if x.len() < n {
            clip(x, n).push(b)
        } else {
            clip(x, n)
        }),
{
    if x.len() >= n {
        assert(x.push(b).take(n as int) =~= x.take(n as int));
        if x.len() == n {
            assert(x.take(n as int) =~= x);
        }
    }
}

/// A bounded byte string. Its content sits in a buffer of `max_length`
/// bytes followed by a zero terminator; a reader that walks past the content
/// sees zero bytes.
#[allow(non_camel_case_types)]
pub struct rstr {
    bytes: Vec<u8>,
    max_length: usize,
}

/// The outcome of an argument lookup.
pub enum ArgScan {
    /// The argument, copied out.
    Found(rstr),
    /// There are fewer arguments.
    Missing,
    /// The lookup reached the end of a full buffer without finding the end of the text.
    Overrun,
}

impl View for rstr {
    type V = Seq<u8>;

    /// The content of the string, terminator excluded.
    closed spec fn view(&self) -> Seq<u8> {
        self.bytes@
    }
}

impl rstr {
    /// The number of content bytes the buffer holds at most.
    pub closed spec fn capacity(&self) -> nat {
        self.max_length as nat
    }

    /// The content never outgrows the buffer.
    pub closed spec fn wf(&self) -> bool {
        self.bytes@.len() <= self.max_length
    }

    /// An empty string in a buffer of `size` bytes.
    pub fn new(size: usize) -> (s: rstr)
        ensures
            s.wf(),
            s@ == Seq::<u8>::empty(),
            s.capacity() == size,
    {
        rstr { bytes: Vec::new(), max_length: size }
    }

    /// Appends `x` unless the buffer is full; says whether it did.
    pub fn add_char(&mut self, x: u8) -> (added: bool)
        requires
            old(self).wf(),
        ensures
            final(self).wf(),
            final(self).capacity() == old(self).capacity(),
            added == (old(self)@.len() < old(self).capacity()),
            added ==> final(self)@ == old(self)@.push(x),
            !added ==> final(self)@ == old(self)@,
    {
        if self.bytes.len() == self.max_length {
            return false;
        }
        self.bytes.push(x);
        true
    }

    /// Drops the last byte unless the string is empty; says whether it did.
    pub fn remove_char(&mut self) -> (removed: bool)
        requires
            old(self).wf(),
        ensures
            final(self).wf(),
            final(self).capacity() == old(self).capacity(),
            removed == (old(self)@.len() > 0),
            removed ==> final(self)@ == old(self)@.drop_last(),
            !removed ==> final(self)@ == old(self)@,
    {
        if self.bytes.len() == 0 {
            return false;
        }
        self.bytes.pop();
        true
    }


    /// Byte `j` of the buffer, reading past the content as the terminator does.
    fn byte(&self, j: usize) -> (b: u8)
        ensures
            b == byte_at(self@, j as int),
    {
        if j < self.bytes.len() {
            self.bytes[j]
        } else {
            0
        }
    }

    /// Whether the four-byte character cell at `i` is NUL.
    fn nul_cell(&self, i: usize) -> (r: bool)
        requires
            i <= self@.len(),
        ensures
            r == nul_at(self@, i as int),
    {
        let rest = self.bytes.len() - i;
        let b0 = if 0 < rest { self.bytes[i] } else { 0 };
        let b1 = if 1 < rest { self.bytes[i + 1] } else { 0 };
        let b2 = if 2 < rest { self.bytes[i + 2] } else { 0 };
        let b3 = if 3 < rest { self.bytes[i + 3] } else { 0 };
        b0 == 0 && b1 == 0 && b2 == 0 && b3 == 0
    }

    /// Whether the two strings have the same content.
    pub fn eq(&self, other: &rstr) -> (same: bool)
        ensures
            same == (self@ == other@),
    {
        if self.bytes.len() != other.bytes.len() {
            return false;
        }
        let n = self.bytes.len();
        let mut x: usize = 0;
        while x < n
            invariant
                n == self@.len(),
                n == other@.len(),
                x <= n,
                forall|j: int| 0 <= j < x ==> self@[j] == other@[j],
            decreases n - x,
        {
            if self.bytes[x] != other.bytes[x] {
                return false;
            }
            x += 1;
        }
        assert(self@ =~= other@);
        true
    }

    /// Whether `other` matches the buffer byte for byte and a NUL cell
    /// follows right after it.
    pub fn streq(&self, other: &str) -> (same: bool)
        ensures
            same == str_matches(self@, other.spec_bytes()),
    {
        let ob = other.as_bytes();
        let n = ob.len();
        let mut j: usize = 0;
        while j < n
            invariant
                ob@ == other.spec_bytes(),
                n == ob@.len(),
                j <= n,
                forall|m: int| 0 <= m < j ==> ob@[m] == byte_at(self@, m),
            decreases n - j,
        {
            if ob[j] != self.byte(j) {
                return false;
            }
            j += 1;
        }
        if n > self.bytes.len() {
            // every cell past the content reads as NUL
            return true;
        }
        self.nul_cell(n)
    }


    /// Replaces the content with the bytes of `value`, as many as fit.
    pub fn set_string(&mut self, value: &str) -> (done: bool)
        requires
            old(self).wf(),
        ensures
            final(self).wf(),
            final(self).capacity() == old(self).capacity(),
            final(self)@ == clip(value.spec_bytes(), old(self).capacity()),
            done,
    {
        self.flush();
        let vb = value.as_bytes();
        let n = vb.len();
        let mut i: usize = 0;
        assert(vb@.take(0) =~= Seq::<u8>::empty());
        while i < n
            invariant
                self.wf(),
                self.capacity() == old(self).capacity(),
                vb@ == value.spec_bytes(),
                n == vb@.len(),
                i <= n,
                self@ == clip(vb@.take(i as int), self.capacity()),
            decreases n - i,
        {
            proof {
                assert(vb@.take(i + 1) =~= vb@.take(i as int).push(vb@[i as int]));
                lemma_clip_push(vb@.take(i as int), vb@[i as int], self.capacity());
            }
            self.add_char(vb[i]);
            i += 1;
        }
        assert(vb@.take(n as int) =~= vb@);
        true
    }

    /// Looks up argument `k`: the `k`-th piece of the text between
    /// occurrences of the byte `delim as u8`, copied into a new string of
    /// capacity 256. A lookup that reaches the end of a full buffer overruns.
    pub fn scan_arg(&self, delim: char, k: usize) -> (res: ArgScan)
        requires
            self.wf(),
        ensures
            res matches ArgScan::Found(x) ==> {
                &&& arg_exists(self@, self.capacity(), low_byte(delim), k as nat)
                &&& x.wf()
                &&& x.capacity() == arg_capacity()
                &&& x@ == arg_value(self@, low_byte(delim), k as nat)
            },
            res is Missing ==> !arg_exists(self@, self.capacity(), low_byte(delim), k as nat)
                && !arg_overruns(self@, self.capacity(), low_byte(delim), k as nat),
            res is Overrun ==> arg_overruns(self@, self.capacity(), low_byte(delim), k as nat),
    {
        let d = #[verifier::truncate] (delim as u8);
        let ghost k0 = k as int;
        let ghost sv = self@;
        let mut remaining = k;
        let mut ind: usize = 0;
        let mut found = remaining == 0;
        let mut s = rstr::new(256);
        proof {
            lemma_text_len(sv);
            assert(sv.take(0) =~= Seq::<u8>::empty());
            assert(fields(sv.take(0), d) == seq![Seq::<u8>::empty()]);
        }
        loop
            invariant
                self.wf(),
                sv == self@,
                k0 == k as int,
                d == low_byte(delim),
                0 <= text_len(sv) <= sv.len(),
                nul_at(sv, text_len(sv)),
                forall|j: int| 0 <= j < text_len(sv) ==> !nul_at(sv, j),
                ind <= text_len(sv),
                ind == 0 || ind < self.capacity(),
                fields(sv.take(ind as int), d).len() >= 1,
                fields(sv.take(ind as int), d).len() - 1 <= k0,
                remaining == k0 - (fields(sv.take(ind as int), d).len() - 1),
                found == (remaining == 0),
                s.wf(),
                s.capacity() == arg_capacity(),
                found ==> s@ == clip(fields(sv.take(ind as int), d).last(), arg_capacity()),
                !found ==> s@ == Seq::<u8>::empty(),
            decreases sv.len() - ind,
        {
            let ghost f = fields(sv.take(ind as int), d);
            if self.nul_cell(ind) {
                proof {
                    assert(ind == text_len(sv));
                }
                if found {
                    return ArgScan::Found(s);
                } else {
                    return ArgScan::Missing;
                }
            }
            let b = self.bytes[ind];
            proof {
                lemma_fields_step(sv, d, ind as int);
                lemma_text_len(sv);
                lemma_fields_prefix(text(sv), d, ind + 1);
                assert(text(sv).take(ind + 1) =~= sv.take(ind + 1));
            }
            if b == d {
                if found {
                    return ArgScan::Found(s);
                }
                remaining = remaining - 1;
            }
            if found {
                proof {
                    lemma_clip_push(f.last(), b, arg_capacity());
                }
                s.add_char(b);
            }
            found = remaining == 0;
            ind += 1;
            if ind == self.max_length {
                proof {
                    assert(text(sv).take(ind as int) =~= text(sv));
                }
                return ArgScan::Overrun;
            }
        }
    }

    /// Argument `k` as the shell sees it: nothing where it is missing or
    /// where the lookup overruns the buffer.
    pub fn get_arg_n(&self, delim: char, k: usize) -> (res: Option<rstr>)
        requires
            self.wf(),
        ensures
            res is Some <==> arg_exists(self@, self.capacity(), low_byte(delim), k as nat),
            res matches Some(x) ==> x.wf() && x.capacity() == arg_capacity() && x@ == arg_value(
                self@,
                low_byte(delim),
                k as nat,
            ),
    {
        match self.scan_arg(delim, k) {
            ArgScan::Found(x) => Some(x),
            _ => None,
        }
    }


    /// Splits the text at the first occurrence of the byte `delim as u8`:
    /// the bytes before it, and the bytes after it with every further
    /// delimiter dropped; each copied into a new string of capacity 256.
    pub fn split(&self, delim: char) -> (parts: (rstr, rstr))
        requires
            self.wf(),
        ensures
            parts.0.wf(),
            parts.1.wf(),
            parts.0.capacity() == arg_capacity(),
            parts.1.capacity() == arg_capacity(),
            parts.0@ == clip(fields(text(self@), low_byte(delim))[0], arg_capacity()),
            parts.1@ == clip(tail_bytes(text(self@), low_byte(delim)), arg_capacity()),
    {
        let d = #[verifier::truncate] (delim as u8);
        let ghost sv = self@;
        let mut i: usize = 0;
        let mut beg = rstr::new(256);
        let mut end = rstr::new(256);
        let mut found = false;
        proof {
            lemma_text_len(sv);
            assert(sv.take(0) =~= Seq::<u8>::empty());
            assert(fields(sv.take(0), d) == seq![Seq::<u8>::empty()]);
            assert(sv.take(0).skip(0) =~= Seq::<u8>::empty());
            reveal_with_fuel(Seq::filter, 1);
        }
        loop
            invariant
                self.wf(),
                sv == self@,
                d == low_byte(delim),
                0 <= text_len(sv) <= sv.len(),
                nul_at(sv, text_len(sv)),
                forall|j: int| 0 <= j < text_len(sv) ==> !nul_at(sv, j),
                i <= text_len(sv),
                fields(sv.take(i as int), d).len() >= 1,
                found == (fields(sv.take(i as int), d).len() > 1),
                fields(sv.take(i as int), d)[0] == sv.take(fields(sv.take(i as int), d)[0].len() as int),
                fields(sv.take(i as int), d)[0].len() <= i,
                !found ==> fields(sv.take(i as int), d)[0].len() == i,
                beg.wf(),
                end.wf(),
                beg.capacity() == arg_capacity(),
                end.capacity() == arg_capacity(),
                beg@ == clip(fields(sv.take(i as int), d)[0], arg_capacity()),
                end@ == clip(
                    sv.take(i as int).skip(fields(sv.take(i as int), d)[0].len() as int).filter(
                        not_delim(d),
                    ),
                    arg_capacity(),
                ),
            decreases sv.len() - i,
        {
            let ghost f = fields(sv.take(i as int), d);
            let ghost p = f[0].len() as int;
            if self.nul_cell(i) {
                proof {
                    assert(i == text_len(sv));
                    assert(text(sv) == sv.take(i as int));
                }
                return (beg, end);
            }
            let b = self.bytes[i];
            proof {
                lemma_fields_step(sv, d, i as int);
                assert(sv.take(i + 1).skip(p) =~= sv.take(i as int).skip(p).push(b));
                sv.take(i as int).skip(p).lemma_filter_push(b, not_delim(d));
                if !found && b != d {
                    assert(sv.take(i + 1).skip(i + 1) =~= Seq::<u8>::empty());
                    assert(sv.take(i as int).skip(i as int) =~= Seq::<u8>::empty());
                    assert(f[0].push(b) =~= sv.take(i + 1));
                }
            }
            if b == d {
                found = true;
            } else if !found {
                proof {
                    lemma_clip_push(f[0], b, arg_capacity());
                }
                beg.add_char(b);
            } else {
                proof {
                    lemma_clip_push(sv.take(i as int).skip(p).filter(not_delim(d)), b, arg_capacity());
                }
                end.add_char(b);
            }
            i += 1;
        }
    }


    /// The bytes a reader that stops at the first NUL cell reads.
    pub fn text_bytes(&self) -> (t: Vec<u8>)
        requires
            self.wf(),
        ensures
            t@ == text(self@),
    {
        let mut t: Vec<u8> = Vec::new();
        let mut i: usize = 0;
        let n = self.bytes.len();
        proof {
            lemma_text_len(self@);
        }
        loop
            invariant
                n == self@.len(),
                0 <= text_len(self@) <= self@.len(),
                nul_at(self@, text_len(self@)),
                forall|j: int| 0 <= j < text_len(self@) ==> !nul_at(self@, j),
                i <= text_len(self@),
                t@ == self@.take(i as int),
            decreases self@.len() - i,
        {
            if self.nul_cell(i) {
                assert(t@ =~= text(self@));
                return t;
            }
            assert(self@.take(i + 1) =~= self@.take(i as int).push(self@[i as int]));
            t.push(self.bytes[i]);
            i += 1;
        }
    }

    /// Whether the character cell at the start of the buffer holds exactly `c`.
    pub fn first_cell_is(&self, c: u8) -> (holds: bool)
        ensures
            holds == cell_holds(self@, 0, c),
    {
        self.byte(0) == c && self.byte(1) == 0 && self.byte(2) == 0 && self.byte(3) == 0
    }


    /// A copy of the content.
    pub fn to_vec(&self) -> (v: Vec<u8>)
        ensures
            v@ == self@,
    {
        let mut v: Vec<u8> = Vec::new();
        let n = self.bytes.len();
        let mut i: usize = 0;
        while i < n
            invariant
                n == self@.len(),
                i <= n,
                v@ == self@.take(i as int),
            decreases n - i,
        {
            assert(self@.take(i + 1) =~= self@.take(i as int).push(self@[i as int]));
            v.push(self.bytes[i]);
            i += 1;
        }
        assert(self@.take(n as int) =~= self@);
        v
    }

    /// The number of content bytes the buffer holds at most.
    pub fn max_length(&self) -> (m: usize)
        ensures
            m == self.capacity(),
    {
        self.max_length
    }


    /// The character codes of the text, one four-byte cell per text byte.
    pub fn text_cells(&self) -> (c: Vec<u32>)
        requires
            self.wf(),
        ensures
            c@ == cells(self@),
    {
        let mut c: Vec<u32> = Vec::new();
        let mut i: usize = 0;
        let n = self.bytes.len();
        proof {
            lemma_text_len(self@);
        }
        loop
            invariant
                n == self@.len(),
                0 <= text_len(self@) <= self@.len(),
                nul_at(self@, text_len(self@)),
                forall|j: int| 0 <= j < text_len(self@) ==> !nul_at(self@, j),
                i <= text_len(self@),
                c@.len() == i,
                forall|j: int| 0 <= j < i ==> c@[j] == cell_at(self@, j),
            decreases self@.len() - i,
        {
            if self.nul_cell(i) {
                assert(c@ =~= cells(self@));
                return c;
            }
            let rest = n - i;
            let b0 = self.bytes[i] as u32;
            let b1 = if 1 < rest { self.bytes[i + 1] as u32 } else { 0 };
            let b2 = if 2 < rest { self.bytes[i + 2] as u32 } else { 0 };
            let b3 = if 3 < rest { self.bytes[i + 3] as u32 } else { 0 };
            c.push(b0 + 256 * b1 + 65536 * b2 + 16777216 * b3);
            i += 1;
        }
    }

    /// The number of content bytes.
    pub fn len(&self) -> (n: usize)
        ensures
            n == self@.len(),
    {
        self.bytes.len()
    }

    /// Empties the string.
    pub fn flush(&mut self)
        requires
            old(self).wf(),
        ensures
            final(self).wf(),
            final(self).capacity() == old(self).capacity(),
            final(self)@ == Seq::<u8>::empty(),
    {
        self.bytes.clear();
    }
}

} // verus!
