use vstd::prelude::*;
use vstd::string::*;
use crate::action::{
    emit, one_byte, say, say_and_draw, say_both, uart, views, Action, ActionView, LINE_END,
};
use crate::console::{fits_on_row, Geometry};
use crate::fs::{file_node, FileTree, DIR};
use crate::rstr::{
    arg_exists, arg_overruns, arg_value, cell_holds, cells, law_str_matches_is_text_equality,
    low_byte, str_matches, text, rstr, ArgScan,
};

verus! {

/// The start-up banner the shell writes to the serial line.
pub const BANNER: &'static str = "\n                                                               \
\n                                                               \
\n                       7=..~$=..:7                             \
\n                  +$: =$$$+$$$?$$$+ ,7?                        \
\n                  $$$$$$$$$$$$$$$$$$Z$$                        \
\n              7$$$$$$$$$$$$. .Z$$$$$Z$$$$$$                    \
\n           ~..7$$Z$$$$$7+7$+.?Z7=7$$Z$$Z$$$..:                 \
\n          ~$$$$$$$$7:     :ZZZ,     :7ZZZZ$$$$=                \
\n           Z$$$$$?                    .+ZZZZ$$                 \
\n       +$ZZ$$$Z7                         7ZZZ$Z$$I.            \
\n        $$$$ZZZZZZZZZZZZZZZZZZZZZZZZI,    ,ZZZ$$Z              \
\n      :+$$$$ZZZZZZZZZZZZZZZZZZZZZZZZZZZ=    $ZZ$$+~,           \
\n     ?$Z$$$$ZZZZZZZZZZZZZZZZZZZZZZZZZZZZI   7ZZZ$ZZI           \
\n      =Z$$+7Z$$7ZZZZZZZZ$$$$$$$ZZZZZZZZZZ  ~Z$?$ZZ?            \
\n    :$Z$Z...$Z  $ZZZZZZZ~       ~ZZZZZZZZ,.ZZ...Z$Z$~          \
\n    7ZZZZZI$ZZ  $ZZZZZZZ~       =ZZZZZZZ7..ZZ$?$ZZZZ$          \
\n      ZZZZ$:    $ZZZZZZZZZZZZZZZZZZZZZZ=     ~$ZZZ$:           \
\n    7Z$ZZ$,     $ZZZZZZZZZZZZZZZZZZZZ7         ZZZ$Z$          \
\n   =ZZZZZZ,     $ZZZZZZZZZZZZZZZZZZZZZZ,       ZZZ$ZZ+         \
\n     ,ZZZZ,     $ZZZZZZZ:     =ZZZZZZZZZ     ZZZZZ$:           \
\n    =$ZZZZ+     ZZZZZZZZ~       ZZZZZZZZ~   =ZZZZZZZI          \
\n    $ZZ$ZZZ$$Z$$ZZZZZZZZZ$$$$   IZZZZZZZZZ$ZZZZZZZZZ$          \
\n      :ZZZZZZZZZZZZZZZZZZZZZZ   ~ZZZZZZZZZZZZZZZZZ~            \
\n     ,Z$$ZZZZZZZZZZZZZZZZZZZZ    ZZZZZZZZZZZZZZZZZZ~           \
\n     =$ZZZZZZZZZZZZZZZZZZZZZZ     $ZZZZZZZZZZZZZZZ$+           \
\n        IZZZZZ:.                        . ,ZZZZZ$              \
\n       ~$ZZZZZZZZZZZ                 ZZZZ$ZZZZZZZ+             \
\n           Z$ZZZ. ,Z~               =Z:.,ZZZ$Z                 \
\n          ,ZZZZZ..~Z$.             .7Z:..ZZZZZ:                \
\n          ~7+:$ZZZZZZZZI=:.   .,=IZZZZZZZ$Z:=7=                \
\n              $$ZZZZZZZZZZZZZZZZZZZZZZ$ZZZZ                    \
\n              ==..$ZZZ$ZZZZZZZZZZZ$ZZZZ .~+                    \
\n                  I$?.?ZZZ$ZZZ$ZZZI =$7                        \
\n                       $7..I$7..I$,                            \
\n\
\n _                     _     _                         _  \
\n| |                   (_)   | |                       | | \
\n| | ____ ___  ____     _____| |_____  ____ ____  _____| | \
\n| |/ ___) _ \\|  _ \\   |  _   _) ___ |/ ___)  _ \\| ___ | | \
\n| | |  | |_| | | | |  | |  \\ \\| ____| |   | | | | ____| | \
\n|_|_|  \\____/|_| |_|  |_|   \\_\\_____)_|   |_| |_|_____)__)\n\n";

/// The prompt the shell shows before each command line.
pub const PROMPT: &'static str = "\nsgash> ";

/// What the shell answers to an empty command line.
pub const NO_ARGS: &'static str = "\nNo Args";

/// What an argument lookup reports when it overruns a full buffer.
pub const RENT_TOO_HIGH: &'static str = "The Rent is too damn high\n";

// What the commands write and draw.
pub const ECHO_MSG: &'static str = "\necho echo echo echo echo...\n";
pub const LIST_ALL: &'static str = "\nList All";
pub const LIST_LONG: &'static str = "\nList Long";
pub const LISTING: &'static str = "\nListing";
pub const MEOW: &'static str = "\nmeow";
pub const CD_SONG: &'static str = "\nSomebody once told me the world is gunna roll me\nI ain't the sharpest tool in the shed.\nShe was looking kinda dumb with her finger and thumb\nin the shape of an L on her forehead...";
pub const REMOVING: &'static str = "\n Removing File";
pub const CREATING: &'static str = "\n Creating Directory";
pub const IN_DIR: &'static str = "\n In Dir: Root";
pub const WRITING: &'static str = "\n Writing ";
pub const QUOTE_MARK: &'static str = "\"";
pub const NOTHING: &'static str = "nothing";
pub const TO_COLON: &'static str = " to: ";
pub const NIL: &'static str = "nil";
pub const MOVING: &'static str = "\n Moving ";
pub const TO: &'static str = " to ";

// The background and foreground colours of schemes 1 to 3.
pub const BG_COLOR1: u32 = 0x00000000;
pub const FG_COLOR1: u32 = 0xffffffff;
pub const BG_COLOR2: u32 = 0xffffffff;
pub const FG_COLOR2: u32 = 0x00000000;
pub const BG_COLOR3: u32 = 0x6B6BFF00;
pub const FG_COLOR3: u32 = 0x00000000;

/// The colour scheme the platform boots with.
pub const START_SCHEME: u32 = 1;

/// The capacity of the command line buffer and of the root's name.
pub const LINE_CAPACITY: usize = 256;

/// The key that runs the command line.
pub const KEY_ENTER: u8 = 13;

/// The key that erases the last typed character.
pub const KEY_DELETE: u8 = 127;

/// The byte that moves a serial terminal's cursor back.
pub const BACKSPACE_BYTE: u8 = 8;

/// The byte of a blank.
pub const SPACE_BYTE: u8 = 32;

/// The commands the shell knows.
#[derive(PartialEq, Eq, Structural, Clone, Copy, Debug)]
pub enum Command {
    Echo,
    Ls,
    Cat,
    Cd,
    Rm,
    Mkdir,
    Pwd,
    Wr,
    Mv,
    Setcs,
    Unknown,
}

/// The command a first word names; the words are tried in this order.
pub open spec fn command_of(y: Seq<u8>) -> Command {
    if str_matches(y, "echo".spec_bytes()) {
        Command::Echo
    } else if str_matches(y, "ls".spec_bytes()) {
        Command::Ls
    } else if str_matches(y, "cat".spec_bytes()) {
        Command::Cat
    } else if str_matches(y, "cd".spec_bytes()) {
        Command::Cd
    } else if str_matches(y, "rm".spec_bytes()) {
        Command::Rm
    } else if str_matches(y, "mkdir".spec_bytes()) {
        Command::Mkdir
    } else if str_matches(y, "pwd".spec_bytes()) {
        Command::Pwd
    } else if str_matches(y, "wr".spec_bytes()) {
        Command::Wr
    } else if str_matches(y, "mv".spec_bytes()) {
        Command::Mv
    } else if str_matches(y, "setcs".spec_bytes()) {
        Command::Setcs
    } else {
        Command::Unknown
    }
}

/// The byte of a space.
pub open spec fn space() -> u8 {
    low_byte(' ')
}

/// The byte of a double quote.
pub open spec fn quote() -> u8 {
    low_byte('"')
}

/// Argument `k` of the line `b` in a buffer of capacity `cap`, if there is one.
pub open spec fn arg_of(b: Seq<u8>, cap: nat, d: u8, k: nat) -> Option<Seq<u8>> {
    if arg_exists(b, cap, d, k) {
        Some(arg_value(b, d, k))
    } else {
        None
    }
}

/// What looking up argument `k` writes by the way: a complaint when the
/// lookup overruns the buffer.
pub open spec fn lookup_noise(b: Seq<u8>, cap: nat, d: u8, k: nat) -> Seq<ActionView> {
    if arg_overruns(b, cap, d, k) {
        seq![uart(RENT_TOO_HIGH)]
    } else {
        Seq::empty()
    }
}

/// The colour actions of a scheme: schemes 1 to 3 set colours and fill
/// the screen, others do nothing.
pub open spec fn scheme_actions(scheme: u32) -> Seq<ActionView> {
    if scheme == 1 {
        seq![ActionView::Colors { bg: BG_COLOR1, fg: FG_COLOR1 }]
    } else if scheme == 2 {
        seq![ActionView::Colors { bg: BG_COLOR2, fg: FG_COLOR2 }]
    } else if scheme == 3 {
        seq![ActionView::Colors { bg: BG_COLOR3, fg: FG_COLOR3 }]
    } else {
        Seq::empty()
    }
}

/// The scheme an argument of `setcs` picks: a first character cell that
/// holds exactly '1', '2' or '3'.
pub open spec fn scheme_digit(n: Seq<u8>) -> Option<u32> {
    if cell_holds(n, 0, 49) {
        Some(1)
    } else if cell_holds(n, 0, 50) {
        Some(2)
    } else if cell_holds(n, 0, 51) {
        Some(3)
    } else {
        None
    }
}

/// Write a string argument to the serial line, then draw it.
pub open spec fn show_text(x: Seq<u8>) -> Seq<ActionView> {
    seq![ActionView::UartCells(cells(x)), ActionView::DrawCells(cells(x))]
}

/// Argument `k` written and drawn, or "nil" when it is not there.
pub open spec fn show_arg_or_nil(b: Seq<u8>, cap: nat, k: nat) -> Seq<ActionView> {
    lookup_noise(b, cap, space(), k) + match arg_of(b, cap, space(), k) {
        Some(x) => show_text(x),
        None => say_both(NIL),
    }
}

pub open spec fn echo_actions(b: Seq<u8>, cap: nat) -> Seq<ActionView> {
    say_both(ECHO_MSG) + lookup_noise(b, cap, quote(), 1) + match arg_of(b, cap, quote(), 1) {
        Some(x) => seq![
            ActionView::DrawCells(cells(x)),
            ActionView::UartCells(cells(x)),
            uart(LINE_END),
        ],
        None => Seq::empty(),
    }
}

pub open spec fn ls_actions(b: Seq<u8>, cap: nat) -> Seq<ActionView> {
    lookup_noise(b, cap, space(), 1) + match arg_of(b, cap, space(), 1) {
        Some(x) => (if str_matches(x, "-a".spec_bytes()) {
            say_both(LIST_ALL)
        } else {
            Seq::empty()
        }) + (if str_matches(x, "-l".spec_bytes()) {
            say_both(LIST_LONG)
        } else {
            Seq::empty()
        }),
        None => say_both(LISTING),
    }
}

pub open spec fn wr_actions(b: Seq<u8>, cap: nat) -> Seq<ActionView> {
    say_both(WRITING) + lookup_noise(b, cap, quote(), 1) + match arg_of(b, cap, quote(), 1) {
        Some(x) => say_both(QUOTE_MARK) + show_text(x) + say_both(QUOTE_MARK),
        None => say_both(NOTHING),
    } + say_both(TO_COLON) + show_arg_or_nil(b, cap, 1)
}

pub open spec fn mv_actions(b: Seq<u8>, cap: nat) -> Seq<ActionView> {
    say_both(MOVING) + show_arg_or_nil(b, cap, 1) + say_both(TO) + show_arg_or_nil(b, cap, 2)
}

pub open spec fn setcs_actions(b: Seq<u8>, cap: nat) -> Seq<ActionView> {
    lookup_noise(b, cap, space(), 1) + match arg_of(b, cap, space(), 1) {
        Some(n) => match scheme_digit(n) {
            Some(c) => scheme_actions(c),
            None => Seq::empty(),
        },
        None => Seq::empty(),
    }
}

/// What a command writes and draws, given the whole command line `b`.
pub open spec fn command_actions(b: Seq<u8>, cap: nat, c: Command) -> Seq<ActionView> {
    match c {
        Command::Echo => echo_actions(b, cap),
        Command::Ls => ls_actions(b, cap),
        Command::Cat => say_both(MEOW),
        Command::Cd => say_both(CD_SONG),
        Command::Rm => say_both(REMOVING),
        Command::Mkdir => say_both(CREATING),
        Command::Pwd => say_both(IN_DIR),
        Command::Wr => wr_actions(b, cap),
        Command::Mv => mv_actions(b, cap),
        Command::Setcs => setcs_actions(b, cap),
        Command::Unknown => Seq::empty(),
    }
}

/// What running the command line `b` writes and draws.
pub open spec fn parse_actions(b: Seq<u8>, cap: nat) -> Seq<ActionView> {
    lookup_noise(b, cap, space(), 0) + match arg_of(b, cap, space(), 0) {
        Some(y) => command_actions(b, cap, command_of(y)),
        None => seq![uart(NO_ARGS)],
    }
}

/// The colour scheme after running the command line `b`: `setcs` with a
/// scheme digit switches to it.
pub open spec fn parse_scheme(b: Seq<u8>, cap: nat, old_scheme: u32) -> u32 {
    match arg_of(b, cap, space(), 0) {
        Some(y) => if command_of(y) == Command::Setcs {
            match arg_of(b, cap, space(), 1) {
                Some(n) => match scheme_digit(n) {
                    Some(c) => c,
                    None => old_scheme,
                },
                None => old_scheme,
            }
        } else {
            old_scheme
        },
        None => old_scheme,
    }
}

/// The command line after one key: enter runs and empties it, delete drops
/// the last byte, and any other key is appended when it fits on the screen
/// row (`fits`) and in the buffer.
pub open spec fn line_after_key(b: Seq<u8>, cap: nat, key: u8, fits: bool) -> Seq<u8> {
    if key == KEY_ENTER {
        Seq::empty()
    } else if key == KEY_DELETE {
        if b.len() > 0 {
            b.drop_last()
        } else {
            b
        }
    } else if fits && b.len() < cap {
        b.push(key)
    } else {
        b
    }
}

/// The command line after the keys `keys`, each typed with room on the row.
pub open spec fn line_after_keys(b: Seq<u8>, cap: nat, keys: Seq<u8>) -> Seq<u8>
    decreases keys.len(),
{
    if keys.len() == 0 {
        b
    } else {
        line_after_key(line_after_keys(b, cap, keys.drop_last()), cap, keys.last(), true)
    }
}

/// The line the keys type on an empty line, taken as a stack: enter clears
/// it, delete pops the last byte if there is one, any other key is pushed.
pub open spec fn typed_line(keys: Seq<u8>) -> Seq<u8>
    decreases keys.len(),
{
    if keys.len() == 0 {
        Seq::empty()
    } else {
        let l = typed_line(keys.drop_last());
        let k = keys.last();
        if k == KEY_ENTER {
            Seq::empty()
        } else if k == KEY_DELETE {
            if l.len() > 0 {
                l.drop_last()
            } else {
                l
            }
        } else {
            l.push(k)
        }
    }
}

/// Keys typed on an empty command line, each with room on the screen row,
/// build the line as a stack, as long as the line never outgrows the
/// buffer: a typed key pushes its byte, delete pops, enter clears.
pub proof fn law_keys_build_a_stack(cap: nat, keys: Seq<u8>)
    requires
        forall|i: int| 0 <= i <= keys.len() ==> #[trigger] typed_line(keys.take(i)).len() <= cap,
    ensures
        line_after_keys(Seq::empty(), cap, keys) == typed_line(keys),
    decreases keys.len(),
{
    if keys.len() > 0 {
        let u = keys.drop_last();
        assert forall|i: int| 0 <= i <= u.len() implies #[trigger] typed_line(u.take(i)).len()
            <= cap by {
            assert(u.take(i) =~= keys.take(i));
            assert(typed_line(keys.take(i)).len() <= cap);
        }
        law_keys_build_a_stack(cap, u);
        assert(keys.take(keys.len() as int) =~= keys);
        assert(typed_line(keys.take(keys.len() as int)).len() <= cap);
    }
}

/// The state the shell keeps between keys.
pub struct Shell {
    /// The command line typed so far.
    pub prompt_buffer: rstr,
    /// The colour scheme last asked for.
    pub color_scheme: u32,
    /// The file system.
    pub tree: FileTree,
    /// The root directory.
    pub root: Option<usize>,
    /// The working directory.
    pub cwd: Option<usize>,
}

impl Shell {
    /// The buffer and the tree are well formed.
    pub open spec fn wf(&self) -> bool {
        &&& self.prompt_buffer.wf()
        &&& self.tree.wf()
    }
}

/// Looks up argument `k` of the command line, complaining on an overrun.
fn lookup(line: &rstr, d: char, k: usize, out: &mut Vec<Action>) -> (res: Option<rstr>)
    requires
        line.wf(),
    ensures
        views(final(out)@) == views(old(out)@) + lookup_noise(line@, line.capacity(), low_byte(d), k as nat),
        res is Some <==> arg_of(line@, line.capacity(), low_byte(d), k as nat) is Some,
        res matches Some(x) ==> x.wf() && arg_of(line@, line.capacity(), low_byte(d), k as nat) == Some(x@),
{
    let ghost start = views(out@);
    match line.scan_arg(d, k) {
        ArgScan::Found(x) => {
            assert(start + Seq::<ActionView>::empty() =~= start);
            Some(x)
        },
        ArgScan::Missing => {
            assert(start + Seq::<ActionView>::empty() =~= start);
            None
        },
        ArgScan::Overrun => {
            say(out, RENT_TOO_HIGH);
            assert(start.push(uart(RENT_TOO_HIGH)) =~= start + seq![uart(RENT_TOO_HIGH)]);
            None
        },
    }
}

/// The command a first word names.
pub fn classify(y: &rstr) -> (c: Command)
    ensures
        c == command_of(y@),
{
    if y.streq("echo") {
        Command::Echo
    } else if y.streq("ls") {
        Command::Ls
    } else if y.streq("cat") {
        Command::Cat
    } else if y.streq("cd") {
        Command::Cd
    } else if y.streq("rm") {
        Command::Rm
    } else if y.streq("mkdir") {
        Command::Mkdir
    } else if y.streq("pwd") {
        Command::Pwd
    } else if y.streq("wr") {
        Command::Wr
    } else if y.streq("mv") {
        Command::Mv
    } else if y.streq("setcs") {
        Command::Setcs
    } else {
        Command::Unknown
    }
}


/// Writes argument `x` to the serial line, then draws it.
fn show_arg(x: &rstr, out: &mut Vec<Action>)
    requires
        x.wf(),
    ensures
        views(final(out)@) == views(old(out)@) + show_text(x@),
{
    let ghost start = views(out@);
    emit(out, Action::UartCells(x.text_cells()));
    emit(out, Action::DrawCells(x.text_cells()));
    assert(start.push(ActionView::UartCells(cells(x@))).push(ActionView::DrawCells(cells(x@)))
        =~= start + show_text(x@));
}

/// Argument `k` written and drawn, or "nil".
fn run_arg_or_nil(line: &rstr, k: usize, out: &mut Vec<Action>)
    requires
        line.wf(),
    ensures
        views(final(out)@) == views(old(out)@) + show_arg_or_nil(line@, line.capacity(), k as nat),
{
    let ghost start = views(out@);
    let ghost noise = lookup_noise(line@, line.capacity(), space(), k as nat);
    match lookup(line, ' ', k, out) {
        Some(x) => {
            show_arg(&x, out);
            assert(start + noise + show_text(x@) =~= start + (noise + show_text(x@)));
        },
        None => {
            say_and_draw(out, NIL);
            assert(start + noise + say_both(NIL) =~= start + (noise + say_both(NIL)));
        },
    }
}

fn run_echo(line: &rstr, out: &mut Vec<Action>)
    requires
        line.wf(),
    ensures
        views(final(out)@) == views(old(out)@) + echo_actions(line@, line.capacity()),
{
    let ghost start = views(out@);
    let ghost noise = lookup_noise(line@, line.capacity(), quote(), 1);
    say_and_draw(out, ECHO_MSG);
    match lookup(line, '"', 1, out) {
        Some(x) => {
            let ghost mid = views(out@);
            emit(out, Action::DrawCells(x.text_cells()));
            emit(out, Action::UartCells(x.text_cells()));
            say(out, LINE_END);
            let ghost tail = seq![
                ActionView::DrawCells(cells(x@)),
                ActionView::UartCells(cells(x@)),
                uart(LINE_END),
            ];
            assert(mid.push(ActionView::DrawCells(cells(x@))).push(ActionView::UartCells(cells(x@))).push(
                uart(LINE_END),
            ) =~= mid + tail);
            assert(start + say_both(ECHO_MSG) + noise + tail =~= start + (say_both(ECHO_MSG) + noise
                + tail));
        },
        None => {
            assert(start + say_both(ECHO_MSG) + noise =~= start + (say_both(ECHO_MSG) + noise
                + Seq::<ActionView>::empty()));
        },
    }
}

fn run_ls(line: &rstr, out: &mut Vec<Action>)
    requires
        line.wf(),
    ensures
        views(final(out)@) == views(old(out)@) + ls_actions(line@, line.capacity()),
{
    let ghost start = views(out@);
    let ghost noise = lookup_noise(line@, line.capacity(), space(), 1);
    match lookup(line, ' ', 1, out) {
        Some(x) => {
            let ghost mid = views(out@);
            let ghost a = if str_matches(x@, "-a".spec_bytes()) {
                say_both(LIST_ALL)
            } else {
                Seq::<ActionView>::empty()
            };
            let ghost l = if str_matches(x@, "-l".spec_bytes()) {
                say_both(LIST_LONG)
            } else {
                Seq::<ActionView>::empty()
            };
            if x.streq("-a") {
                say_and_draw(out, LIST_ALL);
            } else {
                assert(mid + a =~= mid);
            }
            let ghost mid2 = views(out@);
            if x.streq("-l") {
                say_and_draw(out, LIST_LONG);
            } else {
                assert(mid2 + l =~= mid2);
            }
            assert(start + noise + a + l =~= start + (noise + (a + l)));
        },
        None => {
            say_and_draw(out, LISTING);
            assert(start + noise + say_both(LISTING) =~= start + (noise + say_both(LISTING)));
        },
    }
}

fn run_wr(line: &rstr, out: &mut Vec<Action>)
    requires
        line.wf(),
    ensures
        views(final(out)@) == views(old(out)@) + wr_actions(line@, line.capacity()),
{
    let ghost start = views(out@);
    let ghost noise = lookup_noise(line@, line.capacity(), quote(), 1);
    say_and_draw(out, WRITING);
    let ghost quoted: Seq<ActionView>;
    match lookup(line, '"', 1, out) {
        Some(x) => {
            say_and_draw(out, QUOTE_MARK);
            show_arg(&x, out);
            say_and_draw(out, QUOTE_MARK);
            proof {
                quoted = say_both(QUOTE_MARK) + show_text(x@) + say_both(QUOTE_MARK);
            }
        },
        None => {
            say_and_draw(out, NOTHING);
            proof {
                quoted = say_both(NOTHING);
            }
        },
    }
    say_and_draw(out, TO_COLON);
    run_arg_or_nil(line, 1, out);
    assert(views(out@) =~= start + wr_actions(line@, line.capacity()));
}

fn run_mv(line: &rstr, out: &mut Vec<Action>)
    requires
        line.wf(),
    ensures
        views(final(out)@) == views(old(out)@) + mv_actions(line@, line.capacity()),
{
    let ghost start = views(out@);
    say_and_draw(out, MOVING);
    run_arg_or_nil(line, 1, out);
    say_and_draw(out, TO);
    run_arg_or_nil(line, 2, out);
    assert(views(out@) =~= start + mv_actions(line@, line.capacity()));
}

impl Shell {
    /// Switches to colour scheme `scheme`; schemes 1 to 3 also set the
    /// colours and fill the screen.
    pub fn set_color_scheme(&mut self, scheme: u32, out: &mut Vec<Action>) -> (done: bool)
        ensures
            final(self).color_scheme == scheme,
            final(self).prompt_buffer == old(self).prompt_buffer,
            final(self).tree == old(self).tree,
            final(self).root == old(self).root,
            final(self).cwd == old(self).cwd,
            views(final(out)@) == views(old(out)@) + scheme_actions(scheme),
            done,
    {
        let ghost start = views(out@);
        self.color_scheme = scheme;
        if scheme == 1 {
            emit(out, Action::Colors { bg: BG_COLOR1, fg: FG_COLOR1 });
        } else if scheme == 2 {
            emit(out, Action::Colors { bg: BG_COLOR2, fg: FG_COLOR2 });
        } else if scheme == 3 {
            emit(out, Action::Colors { bg: BG_COLOR3, fg: FG_COLOR3 });
        }
        assert(views(out@) =~= start + scheme_actions(scheme));
        true
    }

    fn run_setcs(&mut self, out: &mut Vec<Action>)
        requires
            old(self).wf(),
        ensures
            final(self).wf(),
            final(self).prompt_buffer == old(self).prompt_buffer,
            final(self).tree == old(self).tree,
            final(self).root == old(self).root,
            final(self).cwd == old(self).cwd,
            final(self).color_scheme == (match arg_of(
                old(self).prompt_buffer@,
                old(self).prompt_buffer.capacity(),
                space(),
                1,
            ) {
                Some(n) => match scheme_digit(n) {
                    Some(c) => c,
                    None => old(self).color_scheme,
                },
                None => old(self).color_scheme,
            }),
            views(final(out)@) == views(old(out)@) + setcs_actions(
                old(self).prompt_buffer@,
                old(self).prompt_buffer.capacity(),
            ),
    {
        let ghost start = views(out@);
        let ghost b = self.prompt_buffer@;
        let ghost cap = self.prompt_buffer.capacity();
        let ghost noise = lookup_noise(b, cap, space(), 1);
        match lookup(&self.prompt_buffer, ' ', 1, out) {
            Some(n) => {
                if n.first_cell_is(49) {
                    self.set_color_scheme(1, out);
                } else if n.first_cell_is(50) {
                    self.set_color_scheme(2, out);
                } else if n.first_cell_is(51) {
                    self.set_color_scheme(3, out);
                }
                assert(views(out@) =~= start + setcs_actions(b, cap));
            },
            None => {
                assert(views(out@) =~= start + setcs_actions(b, cap));
            },
        }
    }

    /// Runs the command line: writes and draws what the command asks for,
    /// switches colours for `setcs`, and empties the line.
    pub fn parse(&mut self) -> (out: Vec<Action>)
        requires
            old(self).wf(),
        ensures
            final(self).wf(),
            views(out@) == parse_actions(old(self).prompt_buffer@, old(self).prompt_buffer.capacity()),
            final(self).color_scheme == parse_scheme(
                old(self).prompt_buffer@,
                old(self).prompt_buffer.capacity(),
                old(self).color_scheme,
            ),
            final(self).prompt_buffer@ == Seq::<u8>::empty(),
            final(self).prompt_buffer.capacity() == old(self).prompt_buffer.capacity(),
            final(self).tree == old(self).tree,
            final(self).root == old(self).root,
            final(self).cwd == old(self).cwd,
    {
        let mut out: Vec<Action> = Vec::new();
        let ghost b = self.prompt_buffer@;
        let ghost cap = self.prompt_buffer.capacity();
        let ghost noise = lookup_noise(b, cap, space(), 0);
        assert(views(out@) =~= Seq::<ActionView>::empty());
        match lookup(&self.prompt_buffer, ' ', 0, &mut out) {
            Some(y) => {
                let c = classify(&y);
                let ghost mid = views(out@);
                match c {
                    Command::Echo => run_echo(&self.prompt_buffer, &mut out),
                    Command::Ls => run_ls(&self.prompt_buffer, &mut out),
                    Command::Cat => say_and_draw(&mut out, MEOW),
                    Command::Cd => say_and_draw(&mut out, CD_SONG),
                    Command::Rm => say_and_draw(&mut out, REMOVING),
                    Command::Mkdir => say_and_draw(&mut out, CREATING),
                    Command::Pwd => say_and_draw(&mut out, IN_DIR),
                    Command::Wr => run_wr(&self.prompt_buffer, &mut out),
                    Command::Mv => run_mv(&self.prompt_buffer, &mut out),
                    Command::Setcs => self.run_setcs(&mut out),
                    Command::Unknown => {
                        assert(mid + Seq::<ActionView>::empty() =~= mid);
                    },
                }
                assert(views(out@) =~= Seq::<ActionView>::empty() + noise + command_actions(b, cap, c));
            },
            None => {
                say(&mut out, NO_ARGS);
                assert(views(out@) =~= Seq::<ActionView>::empty() + noise + seq![uart(NO_ARGS)]);
            },
        }
        self.prompt_buffer.flush();
        out
    }
}


/// Shows the prompt: on the serial line, then on the screen in palette colours.
pub fn prompt(out: &mut Vec<Action>)
    ensures
        views(final(out)@) == views(old(out)@) + say_both(PROMPT),
{
    say_and_draw(out, PROMPT);
}

/// The shell at start-up, under the colour scheme `scheme` in force (the
/// platform boots with `START_SCHEME`): an empty command line of capacity
/// 256, that scheme kept, and a file system of one empty root directory,
/// which is also the working directory. The actions write the banner, show
/// the prompt and apply the scheme.
pub fn init(scheme: u32) -> (res: (Shell, Vec<Action>))
    ensures
        res.0.wf(),
        res.0.prompt_buffer@ == Seq::<u8>::empty(),
        res.0.prompt_buffer.capacity() == LINE_CAPACITY,
        res.0.color_scheme == scheme,
        res.0.tree@.len() == 1,
        res.0.tree@[0].filename@ == Seq::<u8>::empty(),
        res.0.tree@[0].filename.capacity() == LINE_CAPACITY,
        res.0.tree@[0].contents@ == Seq::<u8>::empty(),
        res.0.tree@[0].contents.capacity() == LINE_CAPACITY,
        res.0.tree@[0].next is None,
        res.0.tree@[0].child is None,
        res.0.tree@[0].num_children == 0,
        res.0.tree@[0].node_type == DIR,
        res.0.root == Some(0usize),
        res.0.cwd == Some(0usize),
        views(res.1@) == seq![uart(BANNER)] + say_both(PROMPT) + scheme_actions(scheme),
{
    let mut out: Vec<Action> = Vec::new();
    let mut tree = FileTree::new();
    let root_dir = file_node {
        filename: rstr::new(LINE_CAPACITY),
        next: None,
        child: None,
        num_children: 0,
        contents: rstr::new(LINE_CAPACITY),
        node_type: DIR,
    };
    let mut shell = Shell {
        prompt_buffer: rstr::new(LINE_CAPACITY),
        color_scheme: scheme,
        tree: FileTree::new(),
        root: None,
        cwd: None,
    };
    assert(views(out@) =~= Seq::<ActionView>::empty());
    say(&mut out, BANNER);
    prompt(&mut out);
    shell.set_color_scheme(scheme, &mut out);
    let root = tree.add_node(root_dir);
    shell.tree = tree;
    shell.root = Some(root);
    shell.cwd = Some(root);
    assert(Seq::<ActionView>::empty().push(uart(BANNER)) =~= seq![uart(BANNER)]);
    (shell, out)
}

/// Handles one key. Enter runs the command line and shows the prompt
/// again; delete erases the last typed character, on the serial line and
/// on the screen; any other key is typed, when the cursor at `cursor_x` is
/// still short of the row's last cell: added to the line if there is room,
/// echoed and drawn.
pub fn parsekey(shell: &mut Shell, x: char, cursor_x: u32, geo: &Geometry) -> (out: Vec<Action>)
    requires
        old(shell).wf(),
    ensures
        final(shell).wf(),
        final(shell).prompt_buffer.capacity() == old(shell).prompt_buffer.capacity(),
        final(shell).tree == old(shell).tree,
        final(shell).root == old(shell).root,
        final(shell).cwd == old(shell).cwd,
        final(shell).prompt_buffer@ == line_after_key(
            old(shell).prompt_buffer@,
            old(shell).prompt_buffer.capacity(),
            low_byte(x),
            cursor_x < vstd::wrapping::u32_specs::wrapping_sub(geo.screen_width, geo.cursor_width),
        ),
        low_byte(x) == KEY_ENTER ==> {
            &&& views(out@) == parse_actions(
                old(shell).prompt_buffer@,
                old(shell).prompt_buffer.capacity(),
            ) + say_both(PROMPT)
            &&& final(shell).prompt_buffer@ == Seq::<u8>::empty()
            &&& final(shell).color_scheme == parse_scheme(
                old(shell).prompt_buffer@,
                old(shell).prompt_buffer.capacity(),
                old(shell).color_scheme,
            )
        },
        low_byte(x) != KEY_ENTER ==> final(shell).color_scheme == old(shell).color_scheme,
        low_byte(x) == KEY_DELETE ==> if old(shell).prompt_buffer@.len() > 0 {
            &&& final(shell).prompt_buffer@ == old(shell).prompt_buffer@.drop_last()
            &&& views(out@) == seq![
                ActionView::Uart(seq![BACKSPACE_BYTE]),
                ActionView::Uart(seq![SPACE_BYTE]),
                ActionView::Uart(seq![BACKSPACE_BYTE]),
                ActionView::Backspace,
            ]
        } else {
            &&& final(shell).prompt_buffer@ == old(shell).prompt_buffer@
            &&& views(out@) == Seq::<ActionView>::empty()
        },
        low_byte(x) != KEY_ENTER && low_byte(x) != KEY_DELETE ==> if cursor_x
            < vstd::wrapping::u32_specs::wrapping_sub(geo.screen_width, geo.cursor_width) {
            &&& final(shell).prompt_buffer@ == (if old(shell).prompt_buffer@.len()
                < old(shell).prompt_buffer.capacity() {
                old(shell).prompt_buffer@.push(low_byte(x))
            } else {
                old(shell).prompt_buffer@
            })
            &&& views(out@) == seq![
                ActionView::Uart(seq![low_byte(x)]),
                ActionView::Draw(seq![low_byte(x)]),
            ]
        } else {
            &&& final(shell).prompt_buffer@ == old(shell).prompt_buffer@
            &&& views(out@) == Seq::<ActionView>::empty()
        },
{
    let key = #[verifier::truncate] (x as u8);
    if key == KEY_ENTER {
        let mut out = shell.parse();
        prompt(&mut out);
        out
    } else if key == KEY_DELETE {
        let mut out: Vec<Action> = Vec::new();
        assert(views(out@) =~= Seq::<ActionView>::empty());
        if shell.prompt_buffer.remove_char() {
            emit(&mut out, Action::Uart(one_byte(BACKSPACE_BYTE)));
            emit(&mut out, Action::Uart(one_byte(SPACE_BYTE)));
            emit(&mut out, Action::Uart(one_byte(BACKSPACE_BYTE)));
            emit(&mut out, Action::Backspace);
            assert(views(out@) =~= seq![
                ActionView::Uart(seq![BACKSPACE_BYTE]),
                ActionView::Uart(seq![SPACE_BYTE]),
                ActionView::Uart(seq![BACKSPACE_BYTE]),
                ActionView::Backspace,
            ]);
        }
        out
    } else {
        let mut out: Vec<Action> = Vec::new();
        assert(views(out@) =~= Seq::<ActionView>::empty());
        if fits_on_row(cursor_x, geo) {
            shell.prompt_buffer.add_char(key);
            emit(&mut out, Action::Uart(one_byte(key)));
            emit(&mut out, Action::Draw(one_byte(key)));
            assert(views(out@) =~= seq![ActionView::Uart(seq![key]), ActionView::Draw(seq![key])]);
        }
        out
    }
}


/// The word that names a command, as bytes; nothing for an unknown one.
pub open spec fn word(c: Command) -> Seq<u8> {
    match c {
        Command::Echo => seq![101u8, 99, 104, 111],
        Command::Ls => seq![108u8, 115],
        Command::Cat => seq![99u8, 97, 116],
        Command::Cd => seq![99u8, 100],
        Command::Rm => seq![114u8, 109],
        Command::Mkdir => seq![109u8, 107, 100, 105, 114],
        Command::Pwd => seq![112u8, 119, 100],
        Command::Wr => seq![119u8, 114],
        Command::Mv => seq![109u8, 118],
        Command::Setcs => seq![115u8, 101, 116, 99, 115],
        Command::Unknown => Seq::empty(),
    }
}

proof fn lemma_ascii_bytes(s: &str)
    requires
        is_ascii(s),
    ensures
        s.spec_bytes() == Seq::new(s@.len(), |i: int| s@[i] as u8),
{
    vstd::string::is_ascii_spec_bytes(s);
}

/// The command words as the shell compares them, byte for byte.
proof fn lemma_word_bytes()
    ensures
        "echo".spec_bytes() == word(Command::Echo),
        "ls".spec_bytes() == word(Command::Ls),
        "cat".spec_bytes() == word(Command::Cat),
        "cd".spec_bytes() == word(Command::Cd),
        "rm".spec_bytes() == word(Command::Rm),
        "mkdir".spec_bytes() == word(Command::Mkdir),
        "pwd".spec_bytes() == word(Command::Pwd),
        "wr".spec_bytes() == word(Command::Wr),
        "mv".spec_bytes() == word(Command::Mv),
        "setcs".spec_bytes() == word(Command::Setcs),
{
    reveal_strlit("echo");
    reveal_strlit("ls");
    reveal_strlit("cat");
    reveal_strlit("cd");
    reveal_strlit("rm");
    reveal_strlit("mkdir");
    reveal_strlit("pwd");
    reveal_strlit("wr");
    reveal_strlit("mv");
    reveal_strlit("setcs");
    lemma_ascii_bytes("echo");
    lemma_ascii_bytes("ls");
    lemma_ascii_bytes("cat");
    lemma_ascii_bytes("cd");
    lemma_ascii_bytes("rm");
    lemma_ascii_bytes("mkdir");
    lemma_ascii_bytes("pwd");
    lemma_ascii_bytes("wr");
    lemma_ascii_bytes("mv");
    lemma_ascii_bytes("setcs");
    assert("echo".spec_bytes() =~= word(Command::Echo));
    assert("ls".spec_bytes() =~= word(Command::Ls));
    assert("cat".spec_bytes() =~= word(Command::Cat));
    assert("cd".spec_bytes() =~= word(Command::Cd));
    assert("rm".spec_bytes() =~= word(Command::Rm));
    assert("mkdir".spec_bytes() =~= word(Command::Mkdir));
    assert("pwd".spec_bytes() =~= word(Command::Pwd));
    assert("wr".spec_bytes() =~= word(Command::Wr));
    assert("mv".spec_bytes() =~= word(Command::Mv));
    assert("setcs".spec_bytes() =~= word(Command::Setcs));
}

/// A first word runs a command exactly when its text is that command's
/// word, and no command when it is none of them.
pub proof fn law_command_is_its_word(y: Seq<u8>)
    ensures
        command_of(y) != Command::Unknown ==> text(y) == word(command_of(y)),
        forall|c: Command| c != Command::Unknown && text(y) == word(c) ==> command_of(y) == c,
{
    lemma_word_bytes();
    law_str_matches_is_text_equality(y, word(Command::Echo));
    law_str_matches_is_text_equality(y, word(Command::Ls));
    law_str_matches_is_text_equality(y, word(Command::Cat));
    law_str_matches_is_text_equality(y, word(Command::Cd));
    law_str_matches_is_text_equality(y, word(Command::Rm));
    law_str_matches_is_text_equality(y, word(Command::Mkdir));
    law_str_matches_is_text_equality(y, word(Command::Pwd));
    law_str_matches_is_text_equality(y, word(Command::Wr));
    law_str_matches_is_text_equality(y, word(Command::Mv));
    law_str_matches_is_text_equality(y, word(Command::Setcs));
}

/// Argument `k` written on the serial line and drawn, cell by cell, or
/// "nil" when the line has no such argument.
pub open spec fn shown_arg(a: Option<Seq<u8>>) -> Seq<ActionView> {
    match a {
        Some(x) => seq![ActionView::UartCells(cells(x)), ActionView::DrawCells(cells(x))],
        None => seq![
            ActionView::Uart(seq![110u8, 105, 108]),
            ActionView::DrawPalette(seq![110u8, 105, 108]),
        ],
    }
}

proof fn lemma_message_bytes()
    ensures
        NIL.spec_bytes() == seq![110u8, 105, 108],
{
    reveal_strlit("nil");
    lemma_ascii_bytes(NIL);
    assert(NIL.spec_bytes() =~= seq![110u8, 105, 108]);
}

/// A first word that is found closes no overrun.
proof fn lemma_first_word_found(b: Seq<u8>, cap: nat, y: Seq<u8>)
    requires
        arg_of(b, cap, space(), 0) == Some(y),
    ensures
        lookup_noise(b, cap, space(), 0) == Seq::<ActionView>::empty(),
{
    crate::rstr::law_arg_found_or_overrun(b, cap, space(), 0);
}

/// `setcs` followed by exactly the digit '1', '2' or '3' switches to scheme
/// 1, 2 or 3 and sets that scheme's colours, and does nothing else.
pub proof fn law_setcs_picks_scheme(b: Seq<u8>, cap: nat, old_scheme: u32, y: Seq<u8>, d: u8)
    requires
        arg_of(b, cap, space(), 0) == Some(y),
        text(y) == word(Command::Setcs),
        arg_of(b, cap, space(), 1) == Some(seq![d]),
        49 <= d <= 51,
    ensures
        parse_scheme(b, cap, old_scheme) == d - 48,
        d == 49 ==> parse_actions(b, cap) == seq![ActionView::Colors { bg: 0x00000000, fg: 0xffffffff }],
        d == 50 ==> parse_actions(b, cap) == seq![ActionView::Colors { bg: 0xffffffff, fg: 0x00000000 }],
        d == 51 ==> parse_actions(b, cap) == seq![ActionView::Colors { bg: 0x6B6BFF00, fg: 0x00000000 }],
{
    law_command_is_its_word(y);
    lemma_first_word_found(b, cap, y);
    crate::rstr::law_arg_found_or_overrun(b, cap, space(), 1);
    assert(lookup_noise(b, cap, space(), 1) == Seq::<ActionView>::empty());
    let n = seq![d];
    assert(crate::rstr::byte_at(n, 0) == d);
    assert(crate::rstr::byte_at(n, 1) == 0);
    assert(crate::rstr::byte_at(n, 2) == 0);
    assert(crate::rstr::byte_at(n, 3) == 0);
    assert(parse_actions(b, cap) =~= Seq::<ActionView>::empty() + (Seq::<ActionView>::empty()
        + scheme_actions((d - 48) as u32)));
}

/// `wr` writes "\n Writing ", then the quoted text between quote marks or
/// "nothing", then " to: ", then argument 1 or "nil": the target depends
/// on argument 1 alone, whether or not there is a quoted text.
pub proof fn law_wr_reports_text_and_target(b: Seq<u8>, cap: nat, y: Seq<u8>)
    requires
        arg_of(b, cap, space(), 0) == Some(y),
        text(y) == word(Command::Wr),
    ensures
        parse_actions(b, cap) == say_both(WRITING) + lookup_noise(b, cap, quote(), 1) + (match arg_of(
            b,
            cap,
            quote(),
            1,
        ) {
            Some(x) => seq![
                uart(QUOTE_MARK),
                ActionView::DrawPalette(QUOTE_MARK.spec_bytes()),
                ActionView::UartCells(cells(x)),
                ActionView::DrawCells(cells(x)),
                uart(QUOTE_MARK),
                ActionView::DrawPalette(QUOTE_MARK.spec_bytes()),
            ],
            None => say_both(NOTHING),
        }) + say_both(TO_COLON) + lookup_noise(b, cap, space(), 1) + shown_arg(
            arg_of(b, cap, space(), 1),
        ),
{
    law_command_is_its_word(y);
    lemma_first_word_found(b, cap, y);
    lemma_message_bytes();
    assert(parse_actions(b, cap) =~= say_both(WRITING) + lookup_noise(b, cap, quote(), 1) + (match arg_of(
        b,
        cap,
        quote(),
        1,
    ) {
        Some(x) => seq![
            uart(QUOTE_MARK),
            ActionView::DrawPalette(QUOTE_MARK.spec_bytes()),
            ActionView::UartCells(cells(x)),
            ActionView::DrawCells(cells(x)),
            uart(QUOTE_MARK),
            ActionView::DrawPalette(QUOTE_MARK.spec_bytes()),
        ],
        None => say_both(NOTHING),
    }) + say_both(TO_COLON) + lookup_noise(b, cap, space(), 1) + shown_arg(
        arg_of(b, cap, space(), 1),
    ));
}

/// `mv` always writes "\n Moving ", argument 1 or "nil", " to ", and
/// argument 2 or "nil", whichever arguments the line has.
pub proof fn law_mv_reports_both_ends(b: Seq<u8>, cap: nat, y: Seq<u8>)
    requires
        arg_of(b, cap, space(), 0) == Some(y),
        text(y) == word(Command::Mv),
    ensures
        parse_actions(b, cap) == say_both(MOVING) + lookup_noise(b, cap, space(), 1) + shown_arg(
            arg_of(b, cap, space(), 1),
        ) + say_both(TO) + lookup_noise(b, cap, space(), 2) + shown_arg(arg_of(b, cap, space(), 2)),
{
    law_command_is_its_word(y);
    lemma_first_word_found(b, cap, y);
    lemma_message_bytes();
    assert(parse_actions(b, cap) =~= say_both(MOVING) + lookup_noise(b, cap, space(), 1) + shown_arg(
        arg_of(b, cap, space(), 1),
    ) + say_both(TO) + lookup_noise(b, cap, space(), 2) + shown_arg(arg_of(b, cap, space(), 2)));
}

/// The fixed answers: `cat`, `cd`, `rm`, `mkdir` and `pwd` each write their
/// message and draw it, whatever else the line holds; a first word that names
/// no command makes the shell write nothing; only `setcs` changes the scheme.
pub proof fn law_fixed_answers(b: Seq<u8>, cap: nat, y: Seq<u8>, old_scheme: u32)
    requires
        arg_of(b, cap, space(), 0) == Some(y),
    ensures
        text(y) == word(Command::Cat) ==> parse_actions(b, cap) == say_both(MEOW),
        text(y) == word(Command::Cd) ==> parse_actions(b, cap) == say_both(CD_SONG),
        text(y) == word(Command::Rm) ==> parse_actions(b, cap) == say_both(REMOVING),
        text(y) == word(Command::Mkdir) ==> parse_actions(b, cap) == say_both(CREATING),
        text(y) == word(Command::Pwd) ==> parse_actions(b, cap) == say_both(IN_DIR),
        (forall|c: Command| c != Command::Unknown ==> text(y) != #[trigger] word(c)) ==> parse_actions(
            b,
            cap,
        ) == Seq::<ActionView>::empty(),
        text(y) != word(Command::Setcs) ==> parse_scheme(b, cap, old_scheme) == old_scheme,
{
    law_command_is_its_word(y);
    lemma_first_word_found(b, cap, y);
    assert(Seq::<ActionView>::empty() + say_both(MEOW) =~= say_both(MEOW));
    assert(Seq::<ActionView>::empty() + say_both(CD_SONG) =~= say_both(CD_SONG));
    assert(Seq::<ActionView>::empty() + say_both(REMOVING) =~= say_both(REMOVING));
    assert(Seq::<ActionView>::empty() + say_both(CREATING) =~= say_both(CREATING));
    assert(Seq::<ActionView>::empty() + say_both(IN_DIR) =~= say_both(IN_DIR));
    assert(Seq::<ActionView>::empty() + Seq::<ActionView>::empty() =~= Seq::<ActionView>::empty());
    if command_of(y) != Command::Unknown {
        assert(text(y) == word(command_of(y)));
    }
}

/// `echo` writes and draws its message, then draws and writes the text
/// between the first pair of double quotes followed by a line end, or
/// nothing more when the line has no quoted text.
pub proof fn law_echo_repeats_quoted_text(b: Seq<u8>, cap: nat, y: Seq<u8>)
    requires
        arg_of(b, cap, space(), 0) == Some(y),
        text(y) == word(Command::Echo),
    ensures
        parse_actions(b, cap) == say_both(ECHO_MSG) + lookup_noise(b, cap, quote(), 1) + (match arg_of(
            b,
            cap,
            quote(),
            1,
        ) {
            Some(x) => seq![
                ActionView::DrawCells(cells(x)),
                ActionView::UartCells(cells(x)),
                ActionView::Uart(seq![10u8]),
            ],
            None => Seq::<ActionView>::empty(),
        }),
{
    law_command_is_its_word(y);
    lemma_first_word_found(b, cap, y);
    reveal_strlit("\n");
    lemma_ascii_bytes(LINE_END);
    assert(LINE_END.spec_bytes() =~= seq![10u8]);
    assert(parse_actions(b, cap) =~= say_both(ECHO_MSG) + lookup_noise(b, cap, quote(), 1) + (match arg_of(
        b,
        cap,
        quote(),
        1,
    ) {
        Some(x) => seq![
            ActionView::DrawCells(cells(x)),
            ActionView::UartCells(cells(x)),
            ActionView::Uart(seq![10u8]),
        ],
        None => Seq::<ActionView>::empty(),
    }));
}

/// `ls` with no argument lists; with argument "-a" or "-l" it announces
/// that listing; with any other argument it writes nothing.
pub proof fn law_ls_reads_its_flag(b: Seq<u8>, cap: nat, y: Seq<u8>)
    requires
        arg_of(b, cap, space(), 0) == Some(y),
        text(y) == word(Command::Ls),
    ensures
        arg_of(b, cap, space(), 1) is None ==> parse_actions(b, cap) == lookup_noise(b, cap, space(), 1)
            + say_both(LISTING),
        arg_of(b, cap, space(), 1) matches Some(x) && text(x) == seq![45u8, 97] ==> parse_actions(b, cap)
            == say_both(LIST_ALL),
        arg_of(b, cap, space(), 1) matches Some(x) && text(x) == seq![45u8, 108] ==> parse_actions(
            b,
            cap,
        ) == say_both(LIST_LONG),
        arg_of(b, cap, space(), 1) matches Some(x) && text(x) != seq![45u8, 97] && text(x) != seq![
            45u8,
            108,
        ] ==> parse_actions(b, cap) == Seq::<ActionView>::empty(),
{
    law_command_is_its_word(y);
    lemma_first_word_found(b, cap, y);
    reveal_strlit("-a");
    reveal_strlit("-l");
    lemma_ascii_bytes("-a");
    lemma_ascii_bytes("-l");
    assert("-a".spec_bytes() =~= seq![45u8, 97]);
    assert("-l".spec_bytes() =~= seq![45u8, 108]);
    if let Some(x) = arg_of(b, cap, space(), 1) {
        crate::rstr::law_arg_found_or_overrun(b, cap, space(), 1);
        law_str_matches_is_text_equality(x, seq![45u8, 97]);
        law_str_matches_is_text_equality(x, seq![45u8, 108]);
        assert(Seq::<ActionView>::empty() + Seq::<ActionView>::empty() =~= Seq::<ActionView>::empty());
        assert(Seq::<ActionView>::empty() + say_both(LIST_ALL) =~= say_both(LIST_ALL));
        assert(say_both(LIST_ALL) + Seq::<ActionView>::empty() =~= say_both(LIST_ALL));
        assert(Seq::<ActionView>::empty() + say_both(LIST_LONG) =~= say_both(LIST_LONG));
    } else {
        assert(Seq::<ActionView>::empty() + (lookup_noise(b, cap, space(), 1) + say_both(LISTING))
            =~= lookup_noise(b, cap, space(), 1) + say_both(LISTING));
    }
}

} // verus!
