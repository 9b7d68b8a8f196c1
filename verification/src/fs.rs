use vstd::prelude::*;
use vstd::string::*;
use crate::action::{emit, say, say_and_draw, say_both, uart, views, Action, ActionView, LINE_END};
use crate::rstr::{cells, rstr};

verus! {

/// What listing an empty directory writes.
pub const EMPTY_DIR: &'static str = "\nEmpty directory\n";

/// What listing shows of node `j`: its name and a line end, on the serial
/// line and then on the screen.
pub open spec fn entry_actions(nodes: Seq<file_node>, j: usize) -> Seq<ActionView> {
    seq![
        ActionView::UartCells(cells(nodes[j as int].filename@)),
        uart(LINE_END),
        ActionView::DrawCells(cells(nodes[j as int].filename@)),
        ActionView::DrawPalette(LINE_END.spec_bytes()),
    ]
}

/// What listing the nodes of `list` shows, in order.
pub open spec fn listing(nodes: Seq<file_node>, list: Seq<usize>) -> Seq<ActionView>
    decreases list.len(),
{
    if list.len() == 0 {
        Seq::empty()
    } else {
        listing(nodes, list.drop_last()) + entry_actions(nodes, list.last())
    }
}

/// The type tag of a plain file.
pub const FILE: usize = 0;

/// The type tag of a directory.
pub const DIR: usize = 1;

/// A file or directory. Its sibling link and its first-child link name
/// other nodes of the same tree by index.
#[allow(non_camel_case_types)]
pub struct file_node {
    pub filename: rstr,
    pub next: Option<usize>,
    pub child: Option<usize>,
    pub num_children: usize,
    pub contents: rstr,
    pub node_type: usize,
}

/// The nodes of a file system, each sibling list running from later
/// nodes to earlier ones.
pub struct FileTree {
    nodes: Vec<file_node>,
}

impl View for FileTree {
    type V = Seq<file_node>;

    closed spec fn view(&self) -> Seq<file_node> {
        self.nodes@
    }
}

/// A sibling link leads to an earlier node, and a child link to some node.
pub open spec fn links_ok(nodes: Seq<file_node>) -> bool {
    &&& forall|i: int|
        #![trigger nodes[i].next]
        0 <= i < nodes.len() && nodes[i].next is Some ==> nodes[i].next->0 < i
    &&& forall|i: int|
        #![trigger nodes[i].child]
        0 <= i < nodes.len() && nodes[i].child is Some ==> nodes[i].child->0 < nodes.len()
}

/// The sibling list that starts at node `j`: `j` itself, then each next sibling in turn.
pub open spec fn chain_at(nodes: Seq<file_node>, j: usize) -> Seq<usize>
    decreases j,
{
    if j >= nodes.len() {
        Seq::empty()
    } else if nodes[j as int].next is Some && nodes[j as int].next->0 < j {
        seq![j] + chain_at(nodes, nodes[j as int].next->0)
    } else {
        seq![j]
    }
}

/// The sibling list that starts at `start`, if there is a start.
pub open spec fn chain(nodes: Seq<file_node>, start: Option<usize>) -> Seq<usize> {
    match start {
        Some(j) => chain_at(nodes, j),
        None => Seq::empty(),
    }
}

/// Some node of `list` is named `name`.
pub open spec fn has_name(nodes: Seq<file_node>, list: Seq<usize>, name: Seq<u8>) -> bool {
    exists|p: int| 0 <= p < list.len() && nodes[list[p] as int].filename@ == name
}

/// How far a walk down a sibling list can still go.
spec fn walk_rank(cur: Option<usize>) -> int {
    match cur {
        Some(j) => j + 1,
        None => 0,
    }
}

proof fn lemma_chain_in_range(nodes: Seq<file_node>, j: usize)
    ensures
        forall|p: int| 0 <= p < chain_at(nodes, j).len() ==> chain_at(nodes, j)[p] < nodes.len(),
    decreases j,
{
    if j < nodes.len() && nodes[j as int].next is Some && nodes[j as int].next->0 < j {
        let n = nodes[j as int].next->0;
        lemma_chain_in_range(nodes, n);
        let rest = chain_at(nodes, n);
        assert forall|p: int| 0 <= p < chain_at(nodes, j).len() implies chain_at(nodes, j)[p]
            < nodes.len() by {
            if p > 0 {
                assert(chain_at(nodes, j)[p] == rest[p - 1]);
            }
        }
    }
}

proof fn lemma_chain_step(nodes: Seq<file_node>, j: usize)
    requires
        links_ok(nodes),
        j < nodes.len(),
    ensures
        chain(nodes, Some(j)) == seq![j] + chain(nodes, nodes[j as int].next),
        nodes[j as int].next is Some ==> nodes[j as int].next->0 < j,
{
    assert(nodes[j as int].next is Some ==> nodes[j as int].next->0 < j);
    if nodes[j as int].next is None {
        assert(seq![j] + Seq::<usize>::empty() =~= seq![j]);
    }
}

/// A directory's listing starts with its first child, so a lookup by that
/// child's name finds the child itself: no later entry can be the answer.
pub proof fn law_first_child_found_first(nodes: Seq<file_node>, dir: int, p: int)
    requires
        links_ok(nodes),
        0 <= dir < nodes.len(),
        nodes[dir].child is Some,
        0 <= p < chain(nodes, nodes[dir].child).len(),
        !has_name(
            nodes,
            chain(nodes, nodes[dir].child).take(p),
            nodes[nodes[dir].child->0 as int].filename@,
        ),
    ensures
        chain(nodes, nodes[dir].child)[0] == nodes[dir].child->0,
        has_name(
            nodes,
            chain(nodes, nodes[dir].child),
            nodes[nodes[dir].child->0 as int].filename@,
        ),
        p == 0,
{
    let f = nodes[dir].child->0;
    lemma_chain_step(nodes, f);
    let c = chain(nodes, nodes[dir].child);
    assert(c[0] == f);
    if p > 0 {
        assert(c.take(p)[0] == f);
        assert(has_name(nodes, c.take(p), nodes[f as int].filename@));
    }
}

/// A listing has one entry of four actions per node of the list, in order:
/// the node's name cell by cell and a line end on the serial line, then the
/// same on the screen.
pub proof fn law_listing_shows_every_node(nodes: Seq<file_node>, list: Seq<usize>)
    ensures
        listing(nodes, list).len() == 4 * list.len(),
        forall|p: int|
            0 <= p < list.len() ==> {
                &&& listing(nodes, list)[4 * p] == ActionView::UartCells(
                    cells(nodes[list[p] as int].filename@),
                )
                &&& listing(nodes, list)[4 * p + 1] == ActionView::Uart(seq![10u8])
                &&& listing(nodes, list)[4 * p + 2] == ActionView::DrawCells(
                    cells(nodes[list[p] as int].filename@),
                )
                &&& listing(nodes, list)[4 * p + 3] == ActionView::DrawPalette(seq![10u8])
            },
    decreases list.len(),
{
    reveal_strlit("\n");
    vstd::string::is_ascii_spec_bytes(LINE_END);
    assert(LINE_END.spec_bytes() =~= seq![10u8]);
    if list.len() > 0 {
        let u = list.drop_last();
        law_listing_shows_every_node(nodes, u);
        let l = listing(nodes, u);
        let e = entry_actions(nodes, list.last());
        assert forall|p: int| 0 <= p < list.len() implies {
            &&& listing(nodes, list)[4 * p] == ActionView::UartCells(
                cells(nodes[list[p] as int].filename@),
            )
            &&& listing(nodes, list)[4 * p + 1] == ActionView::Uart(seq![10u8])
            &&& listing(nodes, list)[4 * p + 2] == ActionView::DrawCells(
                cells(nodes[list[p] as int].filename@),
            )
            &&& listing(nodes, list)[4 * p + 3] == ActionView::DrawPalette(seq![10u8])
        } by {
            if p < u.len() {
                assert(list[p] == u[p]);
            } else {
                assert(p == u.len());
                assert(list[p] == list.last());
            }
        }
    }
}

/// The sibling list from node `j` starts at `j`, goes from each node to its
/// next sibling, and ends at a node without one.
pub proof fn law_chain_follows_links(nodes: Seq<file_node>, j: usize)
    requires
        links_ok(nodes),
        j < nodes.len(),
    ensures
        chain_at(nodes, j).len() >= 1,
        chain_at(nodes, j)[0] == j,
        forall|p: int|
            0 <= p < chain_at(nodes, j).len() - 1 ==> nodes[chain_at(nodes, j)[p] as int].next
                == Some(#[trigger] chain_at(nodes, j)[p + 1]),
        nodes[chain_at(nodes, j).last() as int].next is None,
    decreases j,
{
    if nodes[j as int].next is Some {
        let n = nodes[j as int].next->0;
        assert(n < j);
        law_chain_follows_links(nodes, n);
        let c = chain_at(nodes, j);
        let r = chain_at(nodes, n);
        assert(c == seq![j] + r);
        assert forall|p: int| 0 <= p < c.len() - 1 implies nodes[c[p] as int].next == Some(
            #[trigger] c[p + 1],
        ) by {
            if p > 0 {
                let q = p - 1;
                assert(nodes[r[q] as int].next == Some(r[q + 1]));
                assert(c[p] == r[q]);
                assert(c[p + 1] == r[q + 1]);
            } else {
                assert(c[0] == j);
                assert(c[1] == r[0]);
            }
        }
        assert(c.last() == r.last());
    }
}

impl FileTree {
    /// Every link names a node of the tree, sibling links lead back to
    /// earlier nodes, and every name and content fits its buffer.
    pub closed spec fn wf(&self) -> bool {
        &&& links_ok(self.nodes@)
        &&& forall|i: int|
            #![trigger self.nodes@[i]]
            0 <= i < self.nodes@.len() ==> self.nodes@[i].filename.wf()
                && self.nodes@[i].contents.wf()
    }

    /// A tree without nodes.
    pub fn new() -> (t: FileTree)
        ensures
            t.wf(),
            t@ == Seq::<file_node>::empty(),
    {
        FileTree { nodes: Vec::new() }
    }

    /// The number of nodes.
    pub fn len(&self) -> (n: usize)
        ensures
            n == self@.len(),
    {
        self.nodes.len()
    }

    /// Adds a node whose links name nodes already there; returns its index.
    pub fn add_node(&mut self, node: file_node) -> (j: usize)
        requires
            old(self).wf(),
            node.filename.wf(),
            node.contents.wf(),
            node.next is Some ==> node.next->0 < old(self)@.len(),
            node.child is Some ==> node.child->0 < old(self)@.len(),
        ensures
            final(self).wf(),
            j == old(self)@.len(),
            final(self)@ == old(self)@.push(node),
    {
        let j = self.nodes.len();
        self.nodes.push(node);
        j
    }

    /// The name of node `j`.
    pub fn get_filename(&self, j: usize) -> (name: &rstr)
        requires
            j < self@.len(),
        ensures
            *name == self@[j as int].filename,
    {
        &self.nodes[j].filename
    }

    /// The next sibling of node `j`.
    pub fn get_next(&self, j: usize) -> (next: Option<usize>)
        requires
            j < self@.len(),
        ensures
            next == self@[j as int].next,
    {
        self.nodes[j].next
    }

    /// Whether node `j` has a first child.
    pub fn has_children(&self, j: usize) -> (has: bool)
        requires
            j < self@.len(),
        ensures
            has == (self@[j as int].child is Some),
    {
        match self.nodes[j].child {
            Some(_) => true,
            None => false,
        }
    }

    /// The nodes whose names a listing that starts at node `j` shows, in order.
    pub fn list_nodes(&self, j: usize) -> (list: Vec<usize>)
        requires
            self.wf(),
            j < self@.len(),
        ensures
            list@ == chain(self@, Some(j)),
    {
        let mut list: Vec<usize> = Vec::new();
        let mut cur: Option<usize> = Some(j);
        loop
            invariant
                self.wf(),
                cur is Some ==> cur->0 < self@.len(),
                chain(self@, Some(j)) == list@ + chain(self@, cur),
            decreases walk_rank(cur),
        {
            match cur {
                None => {
                    assert(list@ + Seq::<usize>::empty() =~= list@);
                    return list;
                },
                Some(c) => {
                    proof {
                        lemma_chain_step(self@, c);
                        assert(list@ + (seq![c] + chain(self@, self@[c as int].next)) =~= list@.push(
                            c,
                        ) + chain(self@, self@[c as int].next));
                    }
                    list.push(c);
                    cur = self.nodes[c].next;
                },
            }
        }
    }

    /// The entries of directory `dir` in listing order, or nothing when it is empty.
    pub fn dir_entries(&self, dir: usize) -> (entries: Option<Vec<usize>>)
        requires
            self.wf(),
            dir < self@.len(),
        ensures
            entries is None <==> self@[dir as int].child is None,
            entries matches Some(v) ==> v@ == chain(self@, self@[dir as int].child),
    {
        match self.nodes[dir].child {
            Some(c) => Some(self.list_nodes(c)),
            None => None,
        }
    }

    /// Lists the sibling list that starts at node `j`: each name followed by
    /// a line end, on the serial line and then on the screen.
    pub fn list_list(&self, j: usize) -> (out: Vec<Action>)
        requires
            self.wf(),
            j < self@.len(),
        ensures
            views(out@) == listing(self@, chain(self@, Some(j))),
    {
        let nodes = self.list_nodes(j);
        proof {
            lemma_chain_in_range(self@, j);
        }
        let mut out: Vec<Action> = Vec::new();
        let mut i: usize = 0;
        assert(nodes@.take(0) =~= Seq::<usize>::empty());
        assert(views(out@) =~= Seq::<ActionView>::empty());
        while i < nodes.len()
            invariant
                self.wf(),
                nodes@ == chain(self@, Some(j)),
                forall|p: int| 0 <= p < nodes@.len() ==> nodes@[p] < self@.len(),
                i <= nodes@.len(),
                views(out@) == listing(self@, nodes@.take(i as int)),
            decreases nodes@.len() - i,
        {
            let n = nodes[i];
            let ghost start = views(out@);
            assert(nodes@.take(i + 1).drop_last() =~= nodes@.take(i as int));
            assert(self@[n as int].filename.wf());
            emit(&mut out, Action::UartCells(self.nodes[n].filename.text_cells()));
            say(&mut out, LINE_END);
            emit(&mut out, Action::DrawCells(self.nodes[n].filename.text_cells()));
            emit(&mut out, Action::DrawPalette(LINE_END.as_bytes_vec()));
            assert(views(out@) =~= start + entry_actions(self@, n));
            i += 1;
        }
        assert(nodes@.take(nodes@.len() as int) =~= nodes@);
        out
    }

    /// Lists directory `dir`: its entries, or a note that it is empty.
    pub fn list_dir(&self, dir: usize) -> (out: Vec<Action>)
        requires
            self.wf(),
            dir < self@.len(),
        ensures
            views(out@) == match self@[dir as int].child {
                Some(c) => listing(self@, chain(self@, Some(c))),
                None => say_both(EMPTY_DIR),
            },
    {
        match self.nodes[dir].child {
            Some(c) => self.list_list(c),
            None => {
                let mut out: Vec<Action> = Vec::new();
                assert(views(out@) =~= Seq::<ActionView>::empty());
                say_and_draw(&mut out, EMPTY_DIR);
                assert(views(out@) =~= say_both(EMPTY_DIR));
                out
            },
        }
    }

    /// The first node of the sibling list from `start` named `fname`.
    fn first_named(&self, start: Option<usize>, fname: &rstr) -> (found: Option<usize>)
        requires
            self.wf(),
            start is Some ==> start->0 < self@.len(),
        ensures
            found is None <==> !has_name(self@, chain(self@, start), fname@),
            found matches Some(f) ==> exists|p: int|
                0 <= p < chain(self@, start).len() && chain(self@, start)[p] == f
                    && self@[f as int].filename@ == fname@ && !has_name(
                    self@,
                    chain(self@, start).take(p),
                    fname@,
                ),
    {
        let ghost whole = chain(self@, start);
        let ghost mut seen: Seq<usize> = Seq::empty();
        let mut cur = start;
        loop
            invariant
                self.wf(),
                whole == chain(self@, start),
                cur is Some ==> cur->0 < self@.len(),
                whole == seen + chain(self@, cur),
                !has_name(self@, seen, fname@),
            decreases walk_rank(cur),
        {
            match cur {
                None => {
                    assert(whole =~= seen);
                    return None;
                },
                Some(c) => {
                    proof {
                        lemma_chain_step(self@, c);
                        assert(whole[seen.len() as int] == c);
                        assert(whole.take(seen.len() as int) =~= seen);
                    }
                    if self.nodes[c].filename.eq(fname) {
                        return Some(c);
                    }
                    proof {
                        assert(seen + (seq![c] + chain(self@, self@[c as int].next)) =~= seen.push(c)
                            + chain(self@, self@[c as int].next));
                        seen = seen.push(c);
                    }
                    cur = self.nodes[c].next;
                },
            }
        }
    }

    /// The first entry of directory `dir` named `fname`.
    pub fn get_file(&self, dir: usize, fname: &rstr) -> (found: Option<usize>)
        requires
            self.wf(),
            dir < self@.len(),
        ensures
            found is None <==> !has_name(self@, chain(self@, self@[dir as int].child), fname@),
            found matches Some(f) ==> exists|p: int|
                0 <= p < chain(self@, self@[dir as int].child).len()
                    && chain(self@, self@[dir as int].child)[p] == f
                    && self@[f as int].filename@ == fname@
                    && !has_name(self@, chain(self@, self@[dir as int].child).take(p), fname@),
    {
        self.first_named(self.nodes[dir].child, fname)
    }

    /// Makes node `new_file` the first child of `dir` and counts it, when
    /// `dir` is a directory; a plain file is left as it is. The new child's
    /// own sibling link is not touched.
    pub fn add_child(&mut self, dir: usize, new_file: usize)
        requires
            old(self).wf(),
            dir < old(self)@.len(),
            new_file < old(self)@.len(),
        ensures
            final(self).wf(),
            final(self)@.len() == old(self)@.len(),
            forall|i: int| 0 <= i < old(self)@.len() && i != dir ==> final(self)@[i] == old(self)@[i],
            old(self)@[dir as int].node_type == DIR ==> {
                &&& final(self)@[dir as int].child == Some(new_file)
                &&& final(self)@[dir as int].num_children == vstd::wrapping::usize_specs::wrapping_add(
                    old(self)@[dir as int].num_children,
                    1,
                )
                &&& final(self)@[dir as int].filename == old(self)@[dir as int].filename
                &&& final(self)@[dir as int].contents == old(self)@[dir as int].contents
                &&& final(self)@[dir as int].next == old(self)@[dir as int].next
                &&& final(self)@[dir as int].node_type == old(self)@[dir as int].node_type
            },
            old(self)@[dir as int].node_type != DIR ==> final(self)@ == old(self)@,
    {
        if self.nodes[dir].node_type == DIR {
            let count = self.nodes[dir].num_children.wrapping_add(1);
            self.nodes[dir].child = Some(new_file);
            self.nodes[dir].num_children = count;
        }
    }

    /// Whether a node after node `j` in its sibling list is named `fname`.
    /// The tree is left as it is.
    pub fn remove_in_list(&mut self, j: usize, fname: &rstr) -> (present: bool)
        requires
            old(self).wf(),
            j < old(self)@.len(),
        ensures
            final(self)@ == old(self)@,
            present == has_name(old(self)@, chain(old(self)@, Some(j)).drop_first(), fname@),
    {
        proof {
            lemma_chain_step(self@, j);
            assert((seq![j] + chain(self@, self@[j as int].next)).drop_first() =~= chain(
                self@,
                self@[j as int].next,
            ));
        }
        let next = self.nodes[j].next;
        self.first_named(next, fname).is_some()
    }

    /// Whether an entry of directory `dir` is named `fname`. The tree is
    /// left as it is.
    pub fn remove_child(&mut self, dir: usize, fname: &rstr) -> (present: bool)
        requires
            old(self).wf(),
            dir < old(self)@.len(),
        ensures
            final(self)@ == old(self)@,
            present == has_name(old(self)@, chain(old(self)@, old(self)@[dir as int].child), fname@),
    {
        let child = self.nodes[dir].child;
        self.first_named(child, fname).is_some()
    }
}

} // verus!
