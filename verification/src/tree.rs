//! The history tree: positions connected by moves, with forward and back
//! navigation, sibling variations, and a slot store whose indices stay
//! stable while nodes come and go.

use vstd::prelude::*;
use crate::board::{board_unpick, move_in_bounds, no_picked};
use crate::fen::{Fen, FenS, fen_apply_spec, is_mate_spec};
use crate::moves::Move;

verus! {

/// A store of values addressed by stable integer slots.  Deleting a value
/// frees its slot for reuse; the slots of the other values never change.
#[derive(Debug)]
pub struct IndexedStore<T> {
    store: Vec<Option<T>>,
    insert_idx: Option<usize>,
}

impl<T> View for IndexedStore<T> {
    type V = Seq<Option<T>>;

    closed spec fn view(&self) -> Seq<Option<T>> {
        self.store@
    }
}

/// The lowest free slot at or after `from`, if any.
pub open spec fn first_free_from<T>(s: Seq<Option<T>>, from: int) -> Option<usize>
    decreases s.len() - from,
        when 0 <= from
{
    if from >= s.len() {
        None
    } else if s[from] is None {
        Some(from as usize)
    } else {
        first_free_from(s, from + 1)
    }
}

impl<T> IndexedStore<T> {
    /// The slot the next insertion will fill, when a freed one is waiting.
    pub closed spec fn next_slot(&self) -> Option<usize> {
        self.insert_idx
    }

    /// The remembered free slot really is a free slot.
    pub open spec fn wf(&self) -> bool {
        match self.next_slot() {
            Some(ii) => ii < self@.len() && self@[ii as int] is None,
            None => true,
        }
    }

    pub fn new() -> (s: Self)
        ensures
            s@ =~= Seq::<Option<T>>::empty(),
            s.next_slot() is None,
            s.wf(),
    {
        Self { store: Vec::new(), insert_idx: None }
    }

    /// The value in a filled slot.
    pub fn get(&self, idx: usize) -> (t: &T)
        requires
            idx < self@.len(),
            self@[idx as int] is Some,
        ensures
            self@[idx as int] == Some(*t),
    {
        self.store[idx].as_ref().unwrap()
    }

    /// A mutable borrow of the value in a filled slot.
    pub fn get_mut(&mut self, idx: usize) -> (t: &mut T)
        requires
            idx < old(self)@.len(),
            old(self)@[idx as int] is Some,
        ensures
            old(self)@[idx as int] == Some(*t),
            final(self)@ == old(self)@.update(idx as int, Some(*final(t))),
            final(self).next_slot() == old(self).next_slot(),
    {
        self.store[idx].as_mut().unwrap()
    }

    /// Frees a slot; the lowest freed slot is remembered for reuse.
    pub fn delete(&mut self, idx: usize)
        requires
            idx < old(self)@.len(),
        ensures
            final(self)@ == old(self)@.update(idx as int, None::<T>),
            final(self).next_slot() == match old(self).next_slot() {
                Some(ii) => if ii < idx {
                    Some(ii)
                } else {
                    Some(idx)
                },
                None => Some(idx),
            },
            old(self).wf() ==> final(self).wf(),
    {
        self.store.set(idx, None);
        self.insert_idx = match self.insert_idx {
            Some(ii) => if ii < idx {
                Some(ii)
            } else {
                Some(idx)
            },
            None => Some(idx),
        };
    }

    /// The lowest free slot at or after `from`, if any.
    fn find_free_from(store: &Vec<Option<T>>, from: usize) -> (res: Option<usize>)
        ensures
            res == first_free_from(store@, from as int),
    {
        let mut j: usize = from;
        while j < store.len()
            invariant
                from <= j,
                first_free_from(store@, from as int) == first_free_from(store@, j as int),
            decreases store@.len() - j,
        {
            if store[j].is_none() {
                return Some(j);
            }
            j += 1;
        }
        None
    }

    /// Stores a value, filling the remembered free slot if one is waiting
    /// and growing the store otherwise; returns the slot filled.
    pub fn insert(&mut self, t: T) -> (idx: usize)
        requires
            old(self).wf(),
        ensures
            final(self).wf(),
            match old(self).next_slot() {
                Some(ii) => idx == ii && final(self)@ == old(self)@.update(ii as int, Some(t))
                    && final(self).next_slot() == first_free_from(final(self)@, ii + 1),
                None => idx == old(self)@.len() && final(self)@ == old(self)@.push(Some(t))
                    && final(self).next_slot() is None,
            },
    {
        match self.insert_idx {
            Some(ii) => {
                let n = self.store.len();
                proof {
                    assert(ii < n);
                }
                self.store.set(ii, Some(t));
                self.insert_idx = Self::find_free_from(&self.store, ii + 1);
                proof {
                    lemma_first_free_from_valid(self@, ii + 1);
                }
                ii
            },
            None => {
                self.store.push(Some(t));
                self.insert_idx = None;
                self.store.len() - 1
            },
        }
    }
}

/// One node of the history tree: a position, its check and checkmate
/// flags, its parent slot, the ordered edges to its children (in the
/// order the moves were first tried), and the child most recently
/// visited, which forward navigation prefers.
#[derive(Debug)]
pub struct FenNode {
    pub fen: Fen,
    pub is_check: bool,
    pub is_mate: bool,
    pub parent: Option<usize>,
    pub children: Vec<(Move, usize)>,
    pub next_child: Option<usize>,
}

/// The mathematical content of a node.
#[verifier::ext_equal]
pub struct NodeS {
    pub fen: FenS,
    pub is_check: bool,
    pub is_mate: bool,
    pub parent: Option<int>,
    pub children: Seq<(Move, int)>,
    pub next_child: Option<int>,
}

impl View for FenNode {
    type V = NodeS;

    open spec fn view(&self) -> NodeS {
        NodeS {
            fen: self.fen@,
            is_check: self.is_check,
            is_mate: self.is_mate,
            parent: match self.parent {
                Some(p) => Some(p as int),
                None => None,
            },
            children: self.children@.map_values(|e: (Move, usize)| (e.0, e.1 as int)),
            next_child: match self.next_child {
                Some(c) => Some(c as int),
                None => None,
            },
        }
    }
}

impl FenNode {
    /// The node of the starting position.
    pub fn root(fen: Fen, is_check: bool, is_mate: bool) -> (n: FenNode)
        ensures
            n@ == (NodeS {
                fen: fen@,
                is_check,
                is_mate,
                parent: None,
                children: Seq::<(Move, int)>::empty(),
                next_child: None,
            }),
    {
        let n = FenNode {
            fen,
            parent: None,
            children: Vec::new(),
            is_check,
            is_mate,
            next_child: None,
        };
        proof {
            assert(n@.children =~= Seq::<(Move, int)>::empty());
        }
        n
    }

    /// A node reached by a move from its parent.
    pub fn internal_node(fen: Fen, is_check: bool, is_mate: bool, parent: usize) -> (n: FenNode)
        ensures
            n@ == (NodeS {
                fen: fen@,
                is_check,
                is_mate,
                parent: Some(parent as int),
                children: Seq::<(Move, int)>::empty(),
                next_child: None,
            }),
    {
        let n = FenNode {
            fen,
            parent: Some(parent),
            children: Vec::new(),
            is_check,
            is_mate,
            next_child: None,
        };
        proof {
            assert(n@.children =~= Seq::<(Move, int)>::empty());
        }
        n
    }
}

/// The mathematical content of the history tree: the node slots, the root
/// and the current node.
#[verifier::ext_equal]
pub struct TreeS {
    pub nodes: Seq<Option<NodeS>>,
    pub root: int,
    pub curr: int,
}

/// The node in a slot, for slots known to be filled.
pub open spec fn node_of(t: TreeS, i: int) -> NodeS {
    t.nodes[i].unwrap()
}

/// A slot index that lies in the store and is filled.
pub open spec fn valid_slot(t: TreeS, i: int) -> bool {
    0 <= i < t.nodes.len() && t.nodes[i] is Some
}

/// Whether some edge of the list leads to slot i.
pub open spec fn contains_child(children: Seq<(Move, int)>, i: int) -> bool {
    exists|j: int| 0 <= j < children.len() && (#[trigger] children[j]).1 == i
}

/// A node's references are in order: its parent is a filled slot whose
/// child list leads back to it, and its child edges and remembered next
/// child name filled slots.
pub open spec fn node_ok(t: TreeS, i: int) -> bool {
    let n = node_of(t, i);
    &&& match n.parent {
        Some(p) => valid_slot(t, p) && contains_child(node_of(t, p).children, i),
        None => true,
    }
    &&& forall|j: int| 0 <= j < n.children.len() ==> valid_slot(t, (#[trigger] n.children[j]).1)
    &&& match n.next_child {
        Some(c) => valid_slot(t, c),
        None => true,
    }
}

/// The tree is navigable: root and current node are filled slots and
/// every filled slot's references are in order.
pub open spec fn tree_wf(t: TreeS) -> bool {
    &&& valid_slot(t, t.root)
    &&& valid_slot(t, t.curr)
    &&& forall|i: int|
        0 <= i < t.nodes.len() && #[trigger] t.nodes[i] is Some ==> node_ok(t, i)
}

/// A position with every picked piece of its board set back down.
pub open spec fn fen_unpick(f: FenS) -> FenS {
    FenS { board: board_unpick(f.board), ..f }
}

/// The first edge labelled with an equal move, scanning from index j.
pub open spec fn find_edge_from(children: Seq<(Move, int)>, m: Move, j: int) -> Option<int>
    decreases children.len() - j,
        when 0 <= j
{
    if j >= children.len() {
        None
    } else if children[j].0 == m {
        Some(children[j].1)
    } else {
        find_edge_from(children, m, j + 1)
    }
}

/// The position of slot idx in an edge list, scanning from index j.
pub open spec fn find_child_pos(children: Seq<(Move, int)>, idx: int, j: int) -> Option<int>
    decreases children.len() - j,
        when 0 <= j
{
    if j >= children.len() {
        None
    } else if children[j].1 == idx {
        Some(j)
    } else {
        find_child_pos(children, idx, j + 1)
    }
}

/// The tree after a move is applied at the current node: nothing at a
/// checkmate; along an already-recorded edge with an equal move, only the
/// current pointer moves (no duplicate node); otherwise a new node with
/// the next position is stored in the next free slot, recorded as an edge
/// and as the parent's next child, and becomes current.  Either way the
/// board the move left is set down (no square stays picked).
pub open spec fn tree_apply_spec(t: TreeS, m: Move) -> TreeS {
    let cur = node_of(t, t.curr);
    if cur.is_mate {
        t
    } else {
        match find_edge_from(cur.children, m, 0) {
            Some(idx) => TreeS {
                nodes: t.nodes.update(t.curr, Some(NodeS { fen: fen_unpick(cur.fen), ..cur })),
                root: t.root,
                curr: idx,
            },
            None => {
                let nf = fen_apply_spec(cur.fen, m);
                let slot = t.nodes.len() as int;
                let child = NodeS {
                    fen: nf,
                    is_check: m.check_cnt > 0,
                    is_mate: is_mate_spec(nf),
                    parent: Some(t.curr),
                    children: Seq::<(Move, int)>::empty(),
                    next_child: None,
                };
                let parent2 = NodeS {
                    fen: fen_unpick(cur.fen),
                    children: cur.children.push((m, slot)),
                    next_child: Some(slot),
                    ..cur
                };
                TreeS {
                    nodes: t.nodes.push(Some(child)).update(t.curr, Some(parent2)),
                    root: t.root,
                    curr: slot,
                }
            },
        }
    }
}

/// The tree after one step back: the current pointer moves to its parent;
/// nothing at the root.
pub open spec fn tree_back_spec(t: TreeS) -> TreeS {
    match node_of(t, t.curr).parent {
        Some(p) => TreeS { nodes: t.nodes, root: t.root, curr: p },
        None => t,
    }
}

/// The tree after one step forward: to the most recently visited child
/// when one is remembered, else to the first child; nothing at a leaf.
pub open spec fn tree_forward_spec(t: TreeS) -> TreeS {
    let n = node_of(t, t.curr);
    match n.next_child {
        Some(nc) => TreeS { nodes: t.nodes, root: t.root, curr: nc },
        None => if n.children.len() > 0 {
            TreeS { nodes: t.nodes, root: t.root, curr: n.children[0].1 }
        } else {
            t
        },
    }
}

/// The move that one step forward replays: the edge to the remembered
/// next child when there is one, else the first child's edge; none at a
/// leaf.
pub open spec fn tree_forward_move_spec(t: TreeS) -> Option<Move> {
    let n = node_of(t, t.curr);
    match n.next_child {
        Some(nc) => match find_child_pos(n.children, nc, 0) {
            Some(j) => Some(n.children[j].0),
            None => None,
        },
        None => if n.children.len() > 0 {
            Some(n.children[0].0)
        } else {
            None
        },
    }
}

/// The tree after switching to the next sibling variation; nothing at the
/// last sibling or at the root.
pub open spec fn tree_next_variation_spec(t: TreeS) -> TreeS {
    match node_of(t, t.curr).parent {
        None => t,
        Some(p) => {
            let ch = node_of(t, p).children;
            match find_child_pos(ch, t.curr, 0) {
                Some(pos) => if pos == ch.len() - 1 {
                    t
                } else {
                    TreeS { nodes: t.nodes, root: t.root, curr: ch[pos + 1].1 }
                },
                None => t,
            }
        },
    }
}

/// The tree after switching to the previous sibling variation; nothing at
/// the first sibling or at the root.
pub open spec fn tree_prev_variation_spec(t: TreeS) -> TreeS {
    match node_of(t, t.curr).parent {
        None => t,
        Some(p) => {
            let ch = node_of(t, p).children;
            match find_child_pos(ch, t.curr, 0) {
                Some(pos) => if pos == 0 {
                    t
                } else {
                    TreeS { nodes: t.nodes, root: t.root, curr: ch[pos - 1].1 }
                },
                None => t,
            }
        },
    }
}

/// The history tree: a slot store of nodes, one root, and one current
/// node.
#[derive(Debug)]
pub struct FenTree {
    store: IndexedStore<FenNode>,
    root: usize,
    curr: usize,
}

impl View for FenTree {
    type V = TreeS;

    closed spec fn view(&self) -> TreeS {
        TreeS {
            nodes: self.store@.map_values(
                |on: Option<FenNode>|
                    match on {
                        Some(n) => Some(n@),
                        None => None::<NodeS>,
                    },
            ),
            root: self.root as int,
            curr: self.curr as int,
        }
    }
}

impl FenTree {
    /// The store is sound, holds no freed slot (this tree never deletes),
    /// and the node references are in order.
    pub closed spec fn wf(&self) -> bool {
        &&& self.store.wf()
        &&& self.store.next_slot() is None
        &&& tree_wf(self@)
    }

    /// A tree of one node, the starting position, which is both root and
    /// current.
    pub fn new(fen: Fen, is_check: bool, is_mate: bool) -> (t: FenTree)
        ensures
            t.wf(),
            t@.root == 0,
            t@.curr == 0,
            t@.nodes =~= seq![
                Some(
                    NodeS {
                        fen: fen@,
                        is_check,
                        is_mate,
                        parent: None,
                        children: Seq::<(Move, int)>::empty(),
                        next_child: None,
                    },
                ),
            ],
    {
        let mut store = IndexedStore::<FenNode>::new();
        let root_node = FenNode::root(fen, is_check, is_mate);
        let root = store.insert(root_node);
        let t = FenTree { store, root, curr: root };
        proof {
            assert(t@.nodes =~= seq![
                Some(
                    NodeS {
                        fen: fen@,
                        is_check,
                        is_mate,
                        parent: None,
                        children: Seq::<(Move, int)>::empty(),
                        next_child: None,
                    },
                ),
            ]);
        }
        t
    }

    /// The position of the current node.
    pub fn curr_fen(&self) -> (f: &Fen)
        requires
            self.wf(),
        ensures
            f@ == node_of(self@, self@.curr).fen,
    {
        &self.store.get(self.curr).fen
    }

    /// A mutable borrow of the position of the current node.  The
    /// navigation structure is untouched, whatever the caller writes.
    pub fn curr_fen_mut(&mut self) -> (f: &mut Fen)
        requires
            old(self).wf(),
        ensures
            (*f)@ == node_of(old(self)@, old(self)@.curr).fen,
            final(self)@.root == old(self)@.root,
            final(self)@.curr == old(self)@.curr,
            final(self)@.nodes =~= old(self)@.nodes.update(
                old(self)@.curr,
                Some(
                    NodeS {
                        fen: (*final(f))@,
                        ..node_of(old(self)@, old(self)@.curr)
                    },
                ),
            ),
    {
        &mut self.store.get_mut(self.curr).fen
    }

    /// Whether the current node's position has its side to move in check.
    pub fn curr_is_check(&self) -> (b: bool)
        requires
            self.wf(),
        ensures
            b == node_of(self@, self@.curr).is_check,
    {
        self.store.get(self.curr).is_check
    }

    /// Steps back to the parent of the current node; nothing at the root.
    pub fn unapply_move(&mut self)
        requires
            old(self).wf(),
        ensures
            final(self).wf(),
            final(self)@ == tree_back_spec(old(self)@),
    {
        if let Some(parent) = self.store.get(self.curr).parent {
            self.curr = parent;
        }
    }

    /// Steps forward to the most recently visited child, or failing that
    /// the first child, and returns the move replayed; nothing at a leaf.
    pub fn next_move(&mut self) -> (res: Option<Move>)
        requires
            old(self).wf(),
        ensures
            final(self).wf(),
            final(self)@ == tree_forward_spec(old(self)@),
            res == tree_forward_move_spec(old(self)@),
    {
        proof {
            assert(node_ok(self@, self@.curr));
        }
        let mut res: Option<Move> = None;
        let mut target: Option<usize> = None;
        {
            let curr = self.store.get(self.curr);
            if let Some(nc) = curr.next_child {
                target = Some(nc);
                let mut j: usize = 0;
                let mut pos: Option<usize> = None;
                while j < curr.children.len() && pos.is_none()
                    invariant
                        j <= curr.children@.len(),
                        match pos {
                            None => find_child_pos(curr@.children, nc as int, 0)
                                == find_child_pos(curr@.children, nc as int, j as int),
                            Some(p2) => p2 < curr.children@.len() && find_child_pos(
                                curr@.children,
                                nc as int,
                                0,
                            ) == Some(p2 as int),
                        },
                    decreases curr.children@.len() - j,
                {
                    let (_, idx) = curr.children[j];
                    if idx == nc {
                        pos = Some(j);
                    }
                    j += 1;
                }
                if let Some(p) = pos {
                    let (m0, _) = curr.children[p];
                    res = Some(m0);
                }
            } else if curr.children.len() > 0 {
                let (m0, child) = curr.children[0];
                proof {
                    assert(node_of(old(self)@, old(self)@.curr).children[0].1 == child as int);
                }
                res = Some(m0);
                target = Some(child);
            }
        }
        if let Some(tgt) = target {
            self.curr = tgt;
            proof {
                assert(self@.nodes == old(self)@.nodes);
            }
        }
        res
    }
}

/// An edge that `find_edge_from` returns leads to one of the listed
/// children.
pub proof fn lemma_find_edge_from_is_child(ch: Seq<(Move, int)>, m: Move, j: int)
    requires
        0 <= j,
    ensures
        match find_edge_from(ch, m, j) {
            Some(i) => exists|k: int| j <= k < ch.len() && (#[trigger] ch[k]).1 == i,
            None => true,
        },
    decreases ch.len() - j,
{
    if j < ch.len() && !(ch[j].0 == m) {
        lemma_find_edge_from_is_child(ch, m, j + 1);
    }
}

impl FenTree {
    /// Applies a move at the current node: nothing at a checkmate; along
    /// an already recorded edge with an equal move only the current
    /// pointer moves, re-entering the variation without a duplicate node;
    /// otherwise the next position is computed, stored as a new node,
    /// recorded as an edge and as the parent's next child, and becomes
    /// current.
    #[verifier::rlimit(90)]
    pub fn apply_move(&mut self, mov: Move)
        requires
            old(self).wf(),
            move_in_bounds(mov),
        ensures
            final(self).wf(),
            final(self)@ == tree_apply_spec(old(self)@, mov),
    {
        proof {
            assert(node_ok(self@, self@.curr));
        }
        if self.store.get(self.curr).is_mate {
            return ;
        }
        let mut found: Option<usize> = None;
        {
            let node = self.store.get(self.curr);
            let mut j: usize = 0;
            while j < node.children.len() && found.is_none()
                invariant
                    j <= node.children@.len(),
                    match found {
                        None => find_edge_from(node@.children, mov, 0) == find_edge_from(
                            node@.children,
                            mov,
                            j as int,
                        ),
                        Some(i) => find_edge_from(node@.children, mov, 0) == Some(i as int),
                    },
                decreases node.children@.len() - j,
            {
                let (m, idx) = node.children[j];
                if m == mov {
                    found = Some(idx);
                }
                j += 1;
            }
        }
        let ghost t0 = self@;
        let ghost cur0 = node_of(t0, t0.curr);
        match found {
            Some(idx) => {
                proof {
                    lemma_find_edge_from_is_child(cur0.children, mov, 0);
                }
                let curr_node = self.store.get_mut(self.curr);
                curr_node.fen.board.unpick_pieces();
                self.curr = idx;
                proof {
                    let spec_t = tree_apply_spec(t0, mov);
                    assert(self@.nodes =~~= spec_t.nodes);
                    assert(self@ == spec_t);
                    assert forall|i: int|
                        0 <= i < self@.nodes.len() && #[trigger] self@.nodes[i] is Some implies
                        node_ok(self@, i) by {
                        assert(t0.nodes[i] is Some);
                        assert(node_ok(t0, i));
                        assert(node_of(self@, i).parent == node_of(t0, i).parent);
                        assert(node_of(self@, i).children == node_of(t0, i).children);
                        assert(node_of(self@, i).next_child == node_of(t0, i).next_child);
                    }
                }
            },
            None => {
                let new_fen = self.store.get(self.curr).fen.apply_move(mov);
                let new_is_check = mov.check_cnt > 0;
                let new_is_mate = new_fen.is_mate();
                let new_node = FenNode::internal_node(new_fen, new_is_check, new_is_mate,
                    self.curr);
                let new_curr = self.store.insert(new_node);
                let curr_node = self.store.get_mut(self.curr);
                curr_node.children.push((mov, new_curr));
                curr_node.next_child = Some(new_curr);
                curr_node.fen.board.unpick_pieces();
                self.curr = new_curr;
                proof {
                    let spec_t = tree_apply_spec(t0, mov);
                    assert(self@.nodes =~~= spec_t.nodes);
                    assert(self@ == spec_t);
                    let slot = t0.nodes.len() as int;
                    assert forall|i: int|
                        0 <= i < self@.nodes.len() && #[trigger] self@.nodes[i] is Some implies
                        node_ok(self@, i) by {
                        let pch = node_of(self@, t0.curr).children;
                        assert(pch[pch.len() - 1].1 == slot);
                        if i == slot {
                            assert(contains_child(pch, slot));
                        } else {
                            assert(t0.nodes[i] is Some);
                            assert(node_ok(t0, i));
                            let n0 = node_of(t0, i);
                            if i == t0.curr {
                                assert forall|k: int|
                                    0 <= k < pch.len() implies valid_slot(
                                    self@,
                                    (#[trigger] pch[k]).1,
                                ) by {
                                    if k < pch.len() - 1 {
                                        assert(pch[k] == cur0.children[k]);
                                        assert(valid_slot(t0, pch[k].1));
                                    }
                                }
                                match n0.parent {
                                    Some(p) => {
                                        if p == t0.curr {
                                            let w = choose|k: int|
                                                0 <= k < cur0.children.len() && (
                                                #[trigger] cur0.children[k]).1 == i;
                                            assert(pch[w].1 == i);
                                            assert(contains_child(pch, i));
                                        } else {
                                            assert(node_of(self@, p).children == node_of(
                                                t0,
                                                p,
                                            ).children);
                                        }
                                    },
                                    None => {},
                                }
                            } else {
                                assert(node_of(self@, i).children == n0.children);
                                assert forall|k: int|
                                    0 <= k < n0.children.len() implies valid_slot(
                                    self@,
                                    (#[trigger] n0.children[k]).1,
                                ) by {
                                    assert(valid_slot(t0, n0.children[k].1));
                                }
                                match n0.parent {
                                    Some(p) => {
                                        if p == t0.curr {
                                            let w = choose|k: int|
                                                0 <= k < cur0.children.len() && (
                                                #[trigger] cur0.children[k]).1 == i;
                                            assert(pch[w].1 == i);
                                        } else {
                                            assert(node_of(self@, p).children == node_of(
                                                t0,
                                                p,
                                            ).children);
                                        }
                                    },
                                    None => {},
                                }
                            }
                        }
                    }
                }
            },
        }
    }

    /// Moves to the next sibling variation of the current node; nothing
    /// at the last sibling or at the root.
    pub fn next_variation(&mut self)
        requires
            old(self).wf(),
        ensures
            final(self).wf(),
            final(self)@ == tree_next_variation_spec(old(self)@),
    {
        proof {
            assert(node_ok(self@, self@.curr));
        }
        let parent_idx = match self.store.get(self.curr).parent {
            Some(p) => p,
            None => {
                return ;
            },
        };
        proof {
            assert(node_ok(self@, parent_idx as int));
        }
        let parent = self.store.get(parent_idx);
        let mut j: usize = 0;
        let mut pos: Option<usize> = None;
        while j < parent.children.len() && pos.is_none()
            invariant
                j <= parent.children@.len(),
                match pos {
                    None => find_child_pos(parent@.children, old(self)@.curr, 0) == find_child_pos(
                        parent@.children,
                        old(self)@.curr,
                        j as int,
                    ),
                    Some(p2) => p2 < parent.children@.len() && find_child_pos(
                        parent@.children,
                        old(self)@.curr,
                        0,
                    ) == Some(p2 as int),
                },
                self@ == old(self)@,
            decreases parent.children@.len() - j,
        {
            let (_, idx) = parent.children[j];
            if idx == self.curr {
                pos = Some(j);
            }
            j += 1;
        }
        let cpos = match pos {
            Some(p) => p,
            None => {
                return ;
            },
        };
        if cpos == parent.children.len() - 1 {
            return ;
        }
        let (_, nxt) = parent.children[cpos + 1];
        self.curr = nxt;
        proof {
            assert(self@.nodes == old(self)@.nodes);
            assert(node_of(old(self)@, parent_idx as int).children[cpos + 1].1 == nxt as int);
        }
    }

    /// Moves to the previous sibling variation of the current node;
    /// nothing at the first sibling or at the root.
    pub fn prev_variation(&mut self)
        requires
            old(self).wf(),
        ensures
            final(self).wf(),
            final(self)@ == tree_prev_variation_spec(old(self)@),
    {
        proof {
            assert(node_ok(self@, self@.curr));
        }
        let parent_idx = match self.store.get(self.curr).parent {
            Some(p) => p,
            None => {
                return ;
            },
        };
        proof {
            assert(node_ok(self@, parent_idx as int));
        }
        let parent = self.store.get(parent_idx);
        let mut j: usize = 0;
        let mut pos: Option<usize> = None;
        while j < parent.children.len() && pos.is_none()
            invariant
                j <= parent.children@.len(),
                match pos {
                    None => find_child_pos(parent@.children, old(self)@.curr, 0) == find_child_pos(
                        parent@.children,
                        old(self)@.curr,
                        j as int,
                    ),
                    Some(p2) => p2 < parent.children@.len() && find_child_pos(
                        parent@.children,
                        old(self)@.curr,
                        0,
                    ) == Some(p2 as int),
                },
                self@ == old(self)@,
            decreases parent.children@.len() - j,
        {
            let (_, idx) = parent.children[j];
            if idx == self.curr {
                pos = Some(j);
            }
            j += 1;
        }
        let cpos = match pos {
            Some(p) => p,
            None => {
                return ;
            },
        };
        if cpos == 0 {
            return ;
        }
        let (_, nxt) = parent.children[cpos - 1];
        self.curr = nxt;
        proof {
            assert(self@.nodes == old(self)@.nodes);
            assert(node_of(old(self)@, parent_idx as int).children[cpos - 1].1 == nxt as int);
        }
    }
}

/// Applying a move keeps the tree navigable.
pub proof fn lemma_tree_apply_wf(t: TreeS, m: Move)
    requires
        tree_wf(t),
    ensures
        tree_wf(tree_apply_spec(t, m)),
{
    let cur = node_of(t, t.curr);
    let t2 = tree_apply_spec(t, m);
    if !cur.is_mate {
        match find_edge_from(cur.children, m, 0) {
            Some(idx) => {
                lemma_find_edge_from_is_child(cur.children, m, 0);
                assert(node_ok(t, t.curr));
                assert forall|i: int|
                    0 <= i < t2.nodes.len() && #[trigger] t2.nodes[i] is Some implies node_ok(
                    t2,
                    i,
                ) by {
                    assert(t.nodes[i] is Some);
                    assert(node_ok(t, i));
                    assert(node_of(t2, i).parent == node_of(t, i).parent);
                    assert(node_of(t2, i).children == node_of(t, i).children);
                    assert(node_of(t2, i).next_child == node_of(t, i).next_child);
                }
            },
            None => {
                let slot = t.nodes.len() as int;
                assert forall|i: int|
                    0 <= i < t2.nodes.len() && #[trigger] t2.nodes[i] is Some implies node_ok(
                    t2,
                    i,
                ) by {
                    let pch = node_of(t2, t.curr).children;
                    assert(pch[pch.len() - 1].1 == slot);
                    if i == slot {
                        assert(contains_child(pch, slot));
                    } else {
                        assert(t.nodes[i] is Some);
                        assert(node_ok(t, i));
                        let n0 = node_of(t, i);
                        if i == t.curr {
                            assert forall|k: int|
                                0 <= k < pch.len() implies valid_slot(
                                t2,
                                (#[trigger] pch[k]).1,
                            ) by {
                                if k < pch.len() - 1 {
                                    assert(pch[k] == cur.children[k]);
                                    assert(valid_slot(t, pch[k].1));
                                }
                            }
                            match n0.parent {
                                Some(p) => {
                                    if p == t.curr {
                                        let w = choose|k: int|
                                            0 <= k < cur.children.len() && (
                                            #[trigger] cur.children[k]).1 == i;
                                        assert(pch[w].1 == i);
                                        assert(contains_child(pch, i));
                                    } else {
                                        assert(node_of(t2, p).children == node_of(t, p).children);
                                    }
                                },
                                None => {},
                            }
                        } else {
                            assert(node_of(t2, i).children == n0.children);
                            assert forall|k: int|
                                0 <= k < n0.children.len() implies valid_slot(
                                t2,
                                (#[trigger] n0.children[k]).1,
                            ) by {
                                assert(valid_slot(t, n0.children[k].1));
                            }
                            match n0.parent {
                                Some(p) => {
                                    if p == t.curr {
                                        let w = choose|k: int|
                                            0 <= k < cur.children.len() && (
                                            #[trigger] cur.children[k]).1 == i;
                                        assert(pch[w].1 == i);
                                    } else {
                                        assert(node_of(t2, p).children == node_of(t, p).children);
                                    }
                                },
                                None => {},
                            }
                        }
                    }
                }
            },
        }
    }
}

/// History navigation: applying two moves along new edges from a position
/// whose board has no piece picked up, then stepping back and forward,
/// revisits the same two positions: back shows the position after the
/// first move, and forward returns to the node of the second, restoring
/// the tree exactly as the two moves left it.
pub proof fn lemma_history_back_forward(t0: TreeS, a: Move, b: Move)
    requires
        tree_wf(t0),
        !node_of(t0, t0.curr).is_mate,
        find_edge_from(node_of(t0, t0.curr).children, a, 0) is None,
        !is_mate_spec(fen_apply_spec(node_of(t0, t0.curr).fen, a)),
        no_picked(node_of(t0, t0.curr).fen.board),
        node_of(t0, t0.curr).fen.board.len() == 64,
        move_in_bounds(a),
    ensures
        ({
            let fen0 = node_of(t0, t0.curr).fen;
            let fen1 = fen_apply_spec(fen0, a);
            let t1 = tree_apply_spec(t0, a);
            let t2 = tree_apply_spec(t1, b);
            let t3 = tree_back_spec(t2);
            let t4 = tree_forward_spec(t3);
            &&& node_of(t1, t1.curr).fen == fen1
            &&& node_of(t3, t3.curr).fen == fen1
            &&& t4 == t2
            &&& node_of(t4, t4.curr).fen == fen_apply_spec(fen1, b)
        }),
{
    let fen0 = node_of(t0, t0.curr).fen;
    let fen1 = fen_apply_spec(fen0, a);
    let t1 = tree_apply_spec(t0, a);
    let t2 = tree_apply_spec(t1, b);
    let t3 = tree_back_spec(t2);
    let t4 = tree_forward_spec(t3);
    lemma_tree_apply_wf(t0, a);
    let slot1 = t0.nodes.len() as int;
    assert(t1.curr == slot1);
    assert(node_of(t1, t1.curr).fen == fen1);
    assert(node_of(t1, t1.curr).children =~= Seq::<(Move, int)>::empty());
    assert(find_edge_from(node_of(t1, t1.curr).children, b, 0) is None);
    assert(!node_of(t1, t1.curr).is_mate);
    let slot2 = t1.nodes.len() as int;
    assert(t2.curr == slot2);
    crate::board::lemma_apply_keeps_no_picked(fen0.board, a);
    crate::board::lemma_unpick_identity(fen1.board);
    assert(fen_unpick(fen1) =~~= fen1);
    assert(node_of(t2, slot2).parent == Some(slot1));
    assert(t3.curr == slot1);
    assert(node_of(t3, slot1).fen == fen1);
    assert(node_of(t3, slot1).next_child == Some(slot2));
    assert(t4.curr == slot2);
    assert(t4 =~~= t2);
    assert(node_of(t4, t4.curr).fen == fen_apply_spec(fen1, b));
}

/// A slot that `first_free_from` names lies in the store and is free.
pub proof fn lemma_first_free_from_valid<T>(s: Seq<Option<T>>, from: int)
    requires
        0 <= from,
        s.len() <= usize::MAX,
    ensures
        match first_free_from(s, from) {
            Some(k) => from <= k < s.len() && s[k as int] is None,
            None => true,
        },
    decreases s.len() - from,
{
    if from < s.len() && !(s[from] is None) {
        lemma_first_free_from_valid(s, from + 1);
    }
}

} // verus!
