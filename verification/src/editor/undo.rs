//! Undo/redo history kept as a branching tree: undoing and then editing
//! starts a new branch, and the old future stays reachable.
use vstd::prelude::*;
use crate::document::node::NodeModel;
use crate::document::tree::JsonTree;
use crate::ui::tree_view::copy_path;

verus! {

/// The editor state kept at one point of the history: the document and
/// the cursor path.
#[derive(Debug)]
pub struct EditorSnapshot {
    pub tree: JsonTree,
    pub cursor_path: Vec<usize>,
}

/// The model of a snapshot.
pub struct SnapshotModel {
    pub tree: NodeModel,
    pub cursor: Seq<usize>,
}

impl View for EditorSnapshot {
    type V = SnapshotModel;

    open spec fn view(&self) -> SnapshotModel {
        SnapshotModel { tree: self.tree@, cursor: self.cursor_path@ }
    }
}

impl Clone for EditorSnapshot {
    fn clone(&self) -> (res: Self)
        ensures
            res@ == self@,
    {
        EditorSnapshot { tree: self.tree.clone(), cursor_path: copy_path(self.cursor_path.as_slice()) }
    }
}

/// A state in the history, with links to the state it was reached from
/// and the states reached from it, and its position in creation order.
#[derive(Debug)]
pub struct UndoNode {
    pub snapshot: EditorSnapshot,
    pub parent: Option<usize>,
    pub children: Vec<usize>,
    pub seq: u64,
}

impl UndoNode {
    /// A state holding `snapshot`, reached from `parent`, with no
    /// successors yet.
    pub fn new(snapshot: EditorSnapshot, parent: Option<usize>, seq: u64) -> (res: Self)
        ensures
            res.snapshot@ == snapshot@,
            res.parent == parent,
            res.children@ == Seq::<usize>::empty(),
            res.seq == seq,
    {
        Self { snapshot, parent, children: Vec::new(), seq }
    }
}

/// One undo step back from state `i` (staying put at a state with no parent).
pub open spec fn step_back(parents: Seq<Option<usize>>, i: int) -> int {
    if 0 <= i < parents.len() && parents[i] is Some && (parents[i]->0 as int) < i {
        parents[i]->0 as int
    } else {
        i
    }
}

/// The state `k` undo steps back from `i` (or the furthest one reachable).
pub open spec fn ancestor(parents: Seq<Option<usize>>, i: int, k: nat) -> int
    decreases k,
{
    if k == 0 {
        i
    } else {
        step_back(parents, ancestor(parents, i, (k - 1) as nat))
    }
}

/// The parent links after a new state `n` when at most `limit` undo steps
/// are kept: if more lead back from `n`, the state `limit` steps back loses
/// its parent, becoming the oldest state reachable.
pub open spec fn trimmed(parents: Seq<Option<usize>>, n: int, limit: nat) -> Seq<Option<usize>> {
    let a = ancestor(parents, n, limit);
    if 0 <= a < parents.len() && parents[a] is Some {
        parents.update(a, None)
    } else {
        parents
    }
}

/// What recording `s` in the history `before` gives: `s` becomes a new,
/// current state reached from the current one (listed last among its
/// successors); when more than `limit` undo steps would then lead back
/// from it, the state `limit` steps back loses its parent.
pub open spec fn add_checkpoint_effect(before: UndoTree, after: UndoTree, s: SnapshotModel) -> bool {
    let n = before.snapshots().len();
    &&& after.snapshots() == before.snapshots().push(s)
    &&& after.parents() == trimmed(before.parents().push(Some(before.current() as usize)), n as int, before.limit())
    &&& after.children_of(before.current() as int) == before.children_of(before.current() as int).push(n as usize)
    &&& forall|i: int| 0 <= i < n && i != before.current() ==> #[trigger] after.children_of(i) == before.children_of(i)
    &&& after.children_of(n as int) == Seq::<usize>::empty()
    &&& after.all_children() == before.all_children().update(
        before.current() as int,
        before.children_of(before.current() as int).push(n as usize),
    ).push(Seq::empty())
    &&& after.current() == n
    &&& after.limit() == before.limit()
}

/// The history of editor states.
#[derive(Debug)]
pub struct UndoTree {
    nodes: Vec<UndoNode>,
    current: usize,
    limit: usize,
}

impl UndoTree {
    /// The snapshots of the states, in creation order.
    pub closed spec fn snapshots(&self) -> Seq<SnapshotModel> {
        self.nodes@.map_values(|n: UndoNode| n.snapshot@)
    }

    /// The parent links of the states.
    pub closed spec fn parents(&self) -> Seq<Option<usize>> {
        self.nodes@.map_values(|n: UndoNode| n.parent)
    }

    /// The states reached from state `i`, oldest first.
    pub closed spec fn children_of(&self, i: int) -> Seq<usize> {
        self.nodes@[i].children@
    }

    /// The successors of every state.
    pub closed spec fn all_children(&self) -> Seq<Seq<usize>> {
        self.nodes@.map_values(|n: UndoNode| n.children@)
    }

    /// The state the editor is in.
    pub closed spec fn current(&self) -> nat {
        self.current as nat
    }

    /// The most undo steps kept.
    pub closed spec fn limit(&self) -> nat {
        self.limit as nat
    }

    /// The history is consistent: the current state exists, every parent
    /// was created before its child, every listed successor after its
    /// state, and each state's position in creation order is its index.
    pub closed spec fn wf(&self) -> bool {
        &&& self.nodes@.len() > 0
        &&& self.current < self.nodes@.len()
        &&& forall|i: int| 0 <= i < self.nodes@.len() ==> (#[trigger] self.nodes@[i]).seq == i
        &&& forall|i: int| 0 <= i < self.nodes@.len() ==> match (#[trigger] self.nodes@[i]).parent {
            Some(p) => p < i,
            None => true,
        }
        &&& forall|i: int, k: int|
            0 <= i < self.nodes@.len() && 0 <= k < self.nodes@[i].children@.len() ==> i < (
            #[trigger] self.nodes@[i].children@[k]) < self.nodes@.len()
    }

    /// The views of the history agree in length, and `all_children` lists
    /// `children_of` of every state.
    pub proof fn lemma_shapes(&self)
        requires
            self.wf(),
        ensures
            self.all_children().len() == self.snapshots().len(),
            self.parents().len() == self.snapshots().len(),
            self.current() < self.snapshots().len(),
            forall|i: int| 0 <= i < self.snapshots().len() ==> #[trigger] self.all_children()[i] == self.children_of(i),
    {
    }

    /// A history holding only `initial`, keeping at most `limit` undo steps.
    pub fn new(initial: EditorSnapshot, limit: usize) -> (res: Self)
        ensures
            res.wf(),
            res.snapshots() == seq![initial@],
            res.parents() == seq![None::<usize>],
            res.children_of(0) == Seq::<usize>::empty(),
            res.all_children() == seq![Seq::<usize>::empty()],
            res.current() == 0,
            res.limit() == limit,
    {
        let mut nodes: Vec<UndoNode> = Vec::new();
        nodes.push(UndoNode::new(initial, None, 0));
        let res = UndoTree { nodes, current: 0, limit };
        assert(res.snapshots() =~= seq![initial@]);
        assert(res.parents() =~= seq![None::<usize>]);
        assert(res.all_children() =~= seq![Seq::<usize>::empty()]);
        res
    }

    /// Undoes one step: moves to the state the current one was reached
    /// from and gives back its snapshot; `None` at the oldest state.
    pub fn undo(&mut self) -> (res: Option<EditorSnapshot>)
        requires
            old(self).wf(),
        ensures
            final(self).wf(),
            final(self).snapshots() == old(self).snapshots(),
            final(self).parents() == old(self).parents(),
            forall|i: int| #[trigger] final(self).children_of(i) == old(self).children_of(i),
            final(self).all_children() == old(self).all_children(),
            final(self).limit() == old(self).limit(),
            match old(self).parents()[old(self).current() as int] {
                Some(p) => final(self).current() == p && (res matches Some(s) && s@ == old(self).snapshots()[p as int]),
                None => final(self).current() == old(self).current() && res is None,
            },
    {
        let ghost ps = self.parents();
        assert(ps[self.current as int] == self.nodes@[self.current as int].parent);
        match self.nodes[self.current].parent {
            Some(p) => {
                self.current = p;
                assert(self.snapshots()[p as int] == self.nodes@[p as int].snapshot@);
                Some(self.nodes[p].snapshot.clone())
            },
            None => None,
        }
    }

    /// Redoes one step: moves to the newest state reached from the current
    /// one and gives back its snapshot; `None` when there is none.
    pub fn redo(&mut self) -> (res: Option<EditorSnapshot>)
        requires
            old(self).wf(),
        ensures
            final(self).wf(),
            final(self).snapshots() == old(self).snapshots(),
            final(self).parents() == old(self).parents(),
            forall|i: int| #[trigger] final(self).children_of(i) == old(self).children_of(i),
            final(self).all_children() == old(self).all_children(),
            final(self).limit() == old(self).limit(),
            ({
                let cs = old(self).children_of(old(self).current() as int);
                if cs.len() > 0 {
                    final(self).current() == cs.last() && (res matches Some(s) && s@ == old(self).snapshots()[cs.last() as int])
                } else {
                    final(self).current() == old(self).current() && res is None
                }
            }),
    {
        let n = self.nodes[self.current].children.len();
        if n == 0 {
            return None;
        }
        let c = self.nodes[self.current].children[n - 1];
        assert(c == self.children_of(self.current as int)[n - 1]);
        self.current = c;
        assert(self.snapshots()[c as int] == self.nodes@[c as int].snapshot@);
        Some(self.nodes[c].snapshot.clone())
    }

    /// Records `snapshot` as a new state reached from the current one and
    /// makes it current (see `add_checkpoint_effect`); a history already
    /// holding `usize::MAX` states is left as it is.
    pub fn add_checkpoint(&mut self, snapshot: EditorSnapshot)
        requires
            old(self).wf(),
        ensures
            final(self).wf(),
            old(self).snapshots().len() >= usize::MAX ==> final(self).snapshots() == old(self).snapshots()
                && final(self).parents() == old(self).parents() && final(self).all_children() == old(self).all_children()
                && final(self).current() == old(self).current() && final(self).limit() == old(self).limit(),
            old(self).snapshots().len() < usize::MAX ==> add_checkpoint_effect(*old(self), *final(self), snapshot@),
    {
        if self.nodes.len() >= usize::MAX {
            return;
        }
        self.record(snapshot);
    }

    fn record(&mut self, snapshot: EditorSnapshot)
        requires
            old(self).wf(),
            old(self).snapshots().len() < usize::MAX,
        ensures
            final(self).wf(),
            add_checkpoint_effect(*old(self), *final(self), snapshot@),
    {
        let n = self.nodes.len();
        let cur = self.current;
        let ghost old_nodes = self.nodes@;
        let node = UndoNode::new(snapshot, Some(cur), n as u64);
        self.nodes.push(node);
        self.nodes[cur].children.push(n);
        self.current = n;
        let ghost ps = old(self).parents().push(Some(cur));
        assert(self.parents() =~= ps);
        assert(self.snapshots() =~= old(self).snapshots().push(snapshot@));
        let mut a = n;
        let mut k: usize = 0;
        while k < self.limit && self.nodes[a].parent.is_some() && self.nodes[a].parent.unwrap() < a
            invariant
                self.parents() == ps,
                ps.len() == self.nodes@.len(),
                k <= self.limit,
                a < self.nodes@.len(),
                a == ancestor(ps, n as int, k as nat),
            decreases a,
        {
            assert(ps[a as int] == self.nodes@[a as int].parent);
            a = self.nodes[a].parent.unwrap();
            k = k + 1;
        }
        proof {
            assert(ps[a as int] == self.nodes@[a as int].parent);
            lemma_ancestor_settles(ps, n as int, k as nat, self.limit as nat);
        }
        let ghost before_trim = self.nodes@;
        if self.nodes[a].parent.is_some() {
            self.nodes[a].parent = None;
        }
        proof {
            assert(self.parents() =~= trimmed(ps, n as int, self.limit as nat));
            assert forall|i: int| 0 <= i < old_nodes.len() && i != cur implies #[trigger] self.children_of(i) == old(self).children_of(i) by {
                assert(self.nodes@[i].children == old_nodes[i].children);
            }
            assert(self.snapshots() =~= old(self).snapshots().push(snapshot@)) by {
                assert forall|i: int| 0 <= i < self.nodes@.len() implies self.nodes@[i].snapshot == before_trim[i].snapshot by {}
            }
            assert(self.children_of(cur as int) == old(self).children_of(cur as int).push(n));
            assert(self.children_of(n as int) == Seq::<usize>::empty());
            assert(self.all_children() =~= old(self).all_children().update(
                cur as int,
                old(self).children_of(cur as int).push(n),
            ).push(Seq::empty()));
        }
    }
}

/// Once a walk back has stopped (at a state with no parent, or after
/// `limit` steps), more steps lead nowhere else.
proof fn lemma_ancestor_settles(ps: Seq<Option<usize>>, n: int, k: nat, limit: nat)
    requires
        k <= limit,
        k < limit ==> step_back(ps, ancestor(ps, n, k)) == ancestor(ps, n, k),
    ensures
        ancestor(ps, n, limit) == ancestor(ps, n, k),
    decreases limit - k,
{
    if k < limit {
        lemma_ancestor_settles(ps, n, k, (limit - 1) as nat);
    }
}

/// Walking back never reaches a state created later.
proof fn lemma_ancestor_le(ps: Seq<Option<usize>>, i: int, k: nat)
    ensures
        ancestor(ps, i, k) <= i,
        k >= 1 && 0 <= i < ps.len() && ps[i] is Some && (ps[i]->0 as int) < i ==> ancestor(ps, i, k) < i,
    decreases k,
{
    if k > 0 {
        lemma_ancestor_le(ps, i, (k - 1) as nat);
        if k >= 2 {
            lemma_ancestor_le(ps, i, (k - 1) as nat);
        }
    }
}

/// When at least one undo step is kept, a state just recorded can be
/// undone: it still leads back to the state it was recorded from.
pub proof fn law_checkpoint_then_undo(parents: Seq<Option<usize>>, cur: usize, limit: nat)
    requires
        limit >= 1,
        (cur as int) < parents.len(),
    ensures
        trimmed(parents.push(Some(cur)), parents.len() as int, limit)[parents.len() as int] == Some(cur),
{
    let ps = parents.push(Some(cur));
    let n = parents.len() as int;
    lemma_ancestor_le(ps, n, limit);
    assert(ps[n] == Some(cur));
}

} // verus!
