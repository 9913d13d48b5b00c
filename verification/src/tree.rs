//! The replicated tree that holds the filesystem: moves, the replica, and what
//! can be read from it.
//!
//! Every node of the tree has a parent and some metadata. The tree changes by
//! moves alone. A move carries a Lamport time and the actor that made it;
//! together they are its stamp, and the stamps order all moves.
use crate::actor::{actor_key, key_lt};
use brb::membership::actor::ed25519::Actor;
use brb::BRBDataType;
use brb_dt_tree::BRBTree;
use crdt_tree::{Clock, OpMove};
use vstd::prelude::*;

verus! {

/// A move: `child_id` becomes a child of `parent_id` and gets `metadata`.
pub struct MoveOp {
    pub counter: u64,
    pub actor: Actor,
    pub parent_id: u64,
    pub metadata: Vec<u8>,
    pub child_id: u64,
}

/// A move in plain values, as the messages of the broadcast carry it: the time and the actor
/// of its stamp, the parent, the metadata and the child.
pub type PlainMove = (u64, Actor, u64, Vec<u8>, u64);

/// A node of the tree as it is found under its own id.
pub struct TreeEntry {
    pub parent_id: u64,
    pub metadata: Vec<u8>,
}

/// A node of the tree with its id.
pub struct TreeRow {
    pub id: u64,
    pub parent_id: u64,
    pub metadata: Vec<u8>,
}

/// A Lamport time, and the actor whose clock shows it.
pub struct Time {
    pub actor: Actor,
    pub counter: u64,
}

/// What a move says.
pub struct MoveView {
    pub counter: u64,
    pub actor: Seq<u8>,
    pub parent: u64,
    pub meta: Seq<u8>,
    pub child: u64,
}

/// What a node of the tree holds.
pub struct EntryView {
    pub parent: u64,
    pub meta: Seq<u8>,
}

/// A replica of the tree: whose it is, the time on its clock, and the moves
/// that it has taken in.
#[verifier::ext_equal]
pub struct TreeView {
    pub actor: Seq<u8>,
    pub time: u64,
    pub moves: Set<MoveView>,
}

impl View for MoveOp {
    type V = MoveView;

    open spec fn view(&self) -> MoveView {
        MoveView {
            counter: self.counter,
            actor: actor_key(self.actor),
            parent: self.parent_id,
            meta: self.metadata@,
            child: self.child_id,
        }
    }
}

impl View for TreeEntry {
    type V = EntryView;

    open spec fn view(&self) -> EntryView {
        EntryView { parent: self.parent_id, meta: self.metadata@ }
    }
}

/// The views of a list of moves.
pub open spec fn move_views(ops: Seq<MoveOp>) -> Seq<MoveView> {
    ops.map_values(|op: MoveOp| op@)
}

/// What a move in plain values says.
pub open spec fn plain_view(op: PlainMove) -> MoveView {
    MoveView { counter: op.0, actor: actor_key(op.1), parent: op.2, meta: op.3@, child: op.4 }
}

/// The views of a list of moves in plain values.
pub open spec fn plain_views(ops: Seq<PlainMove>) -> Seq<MoveView> {
    ops.map_values(|op: PlainMove| plain_view(op))
}

/// Moves that all carry the stamp of one actor.
pub open spec fn made_by(ops: Seq<MoveView>, actor: Seq<u8>) -> bool {
    forall|i: int| 0 <= i < ops.len() ==> (#[trigger] ops[i]).actor == actor
}

/// Two moves with the same stamp: the same time on the same actor's clock.
pub open spec fn same_stamp(a: MoveView, b: MoveView) -> bool {
    a.counter == b.counter && a.actor == b.actor
}

/// Each step of `path` leads from a node to its parent.
pub open spec fn climbs(nodes: Map<u64, EntryView>, path: Seq<u64>) -> bool {
    &&& path.len() >= 2
    &&& forall|i: int|
        0 <= i < path.len() - 1 ==> nodes.contains_key(#[trigger] path[i])
            && nodes[path[i]].parent == path[i + 1]
}

/// `ancestor` is reached from `node` by going from parent to parent.
pub open spec fn is_ancestor(nodes: Map<u64, EntryView>, node: u64, ancestor: u64) -> bool {
    exists|path: Seq<u64>| #[trigger]
        climbs(nodes, path) && path[0] == node && path.last() == ancestor
}

/// `child` hangs directly below `parent`.
pub open spec fn is_child(nodes: Map<u64, EntryView>, parent: u64, child: u64) -> bool {
    nodes.contains_key(child) && nodes[child].parent == parent
}

/// A move that would put a node below itself.
pub open spec fn makes_cycle(nodes: Map<u64, EntryView>, op: MoveView) -> bool {
    op.child == op.parent || is_ancestor(nodes, op.parent, op.child)
}

/// What one more move makes of the nodes: the child hangs below its new parent.
/// A move that would put a node below itself is passed over.
pub open spec fn moved(nodes: Map<u64, EntryView>, op: MoveView) -> Map<u64, EntryView> {
    if makes_cycle(nodes, op) {
        nodes
    } else {
        nodes.insert(op.child, EntryView { parent: op.parent, meta: op.meta })
    }
}

/// The replica after a move: its clock has reached the time of the move, and the
/// move is among its moves unless the stamp was taken.
pub open spec fn after_move(tree: TreeView, op: MoveView) -> TreeView {
    TreeView {
        actor: tree.actor,
        time: if tree.time < op.counter {
            op.counter
        } else {
            tree.time
        },
        moves: if exists|o: MoveView| #[trigger] tree.moves.contains(o) && same_stamp(o, op) {
            tree.moves
        } else {
            tree.moves.insert(op)
        },
    }
}

/// The replica after a list of moves, made one after the other.
pub open spec fn after_moves(tree: TreeView, ops: Seq<MoveView>) -> TreeView
    decreases ops.len(),
{
    if ops.len() == 0 {
        tree
    } else {
        after_move(after_moves(tree, ops.drop_last()), ops.last())
    }
}

/// The order of stamps: by time, and at the same time by the actor's key.
pub open spec fn stamp_lt(a: MoveView, b: MoveView) -> bool {
    a.counter < b.counter || (a.counter == b.counter && key_lt(a.actor, b.actor))
}

/// A move with a later stamp than all of these.
pub open spec fn latest(moves: Set<MoveView>, op: MoveView) -> bool {
    forall|o: MoveView| #[trigger] moves.contains(o) ==> stamp_lt(o, op)
}

/// The last of these moves in the order of their stamps.
pub open spec fn is_last(moves: Set<MoveView>, op: MoveView) -> bool {
    moves.contains(op) && latest(moves.remove(op), op)
}

/// The nodes of a tree, by their id, once these moves have been made in the order of
/// their stamps.
pub open spec fn nodes_after(moves: Set<MoveView>) -> Map<u64, EntryView>
    decreases moves.len(),
{
    if moves.finite() && exists|op: MoveView| #[trigger] is_last(moves, op) {
        let op = choose|op: MoveView| #[trigger] is_last(moves, op);
        moved(nodes_after(moves.remove(op)), op)
    } else {
        Map::empty()
    }
}

/// The nodes that a replica shows.
pub open spec fn nodes(tree: TreeView) -> Map<u64, EntryView> {
    nodes_after(tree.moves)
}

/// A list that holds every node, each once.
pub open spec fn lists_nodes(rows: Seq<TreeRow>, nodes: Map<u64, EntryView>) -> bool {
    &&& forall|i: int, j: int|
        0 <= i < j < rows.len() ==> (#[trigger] rows[i]).id != (#[trigger] rows[j]).id
    &&& forall|i: int|
        0 <= i < rows.len() ==> nodes.contains_key((#[trigger] rows[i]).id) && nodes[rows[i].id]
            == (EntryView { parent: rows[i].parent_id, meta: rows[i].metadata@ })
    &&& forall|id: u64| #[trigger]
        nodes.contains_key(id) ==> exists|i: int|
            0 <= i < rows.len() && (#[trigger] rows[i]).id == id
}

/// The time that follows: the clock stops at its last value.
pub open spec fn tick(counter: u64, n: nat) -> u64 {
    if counter + n < u64::MAX {
        (counter + n) as u64
    } else {
        u64::MAX
    }
}

/// No two different moves share a stamp.
pub open spec fn stamps_unique(moves: Set<MoveView>) -> bool {
    forall|a: MoveView, b: MoveView| #[trigger]
        moves.contains(a) && #[trigger] moves.contains(b) && same_stamp(a, b) ==> a == b
}

/// A sound replica: it holds finitely many moves, no two of them with the same stamp,
/// and none of them is later than its clock.
pub open spec fn tree_wf(tree: TreeView) -> bool {
    &&& tree.moves.finite()
    &&& stamps_unique(tree.moves)
    &&& forall|o: MoveView| #[trigger] tree.moves.contains(o) ==> o.counter <= tree.time
}

/// A `BRBTree`. Verus refuses a declaration of the outside type, whose parameters are bound
/// by traits of `crdt_tree`; so the value is held here.
#[verifier::external_body]
#[derive(Debug)]
pub struct FsTree {
    pub(crate) inner: BRBTree<Actor, u64, Vec<u8>>,
}

/// `std`'s formatting error, an opaque value to Verus. The tree refuses a transaction with it.
#[verifier::external_type_specification]
#[verifier::external_body]
pub struct ExFmtError(std::fmt::Error);

/// A `BRBTree` to read from, wherever it is kept.
#[verifier::external_body]
pub struct TreeRef<'a> {
    pub(crate) inner: &'a BRBTree<Actor, u64, Vec<u8>>,
}

/// What a `BRBTree` holds.
pub uninterp spec fn fs_tree(tree: FsTree) -> TreeView;

/// What a `BRBTree` to read from holds.
pub uninterp spec fn tree_ref(tree: TreeRef<'_>) -> TreeView;

/// `BRBTree::new`: a replica of the actor, its clock at zero, without moves.
#[verifier::external_body]
pub(crate) fn fs_tree_new(actor: Actor) -> (r: FsTree)
    ensures
        fs_tree(r) == (TreeView { actor: actor_key(actor), time: 0, moves: Set::empty() }),
{
    FsTree { inner: BRBTree::new(actor) }
}

/// A `BRBTree`, to read from.
#[verifier::external_body]
pub(crate) fn fs_tree_ref<'a>(tree: &'a FsTree) -> (r: TreeRef<'a>)
    ensures
        tree_ref(r) == fs_tree(*tree),
{
    TreeRef { inner: &tree.inner }
}

/// `BRBTree::apply`: the move is taken in as [`after_move`] says.
#[verifier::external_body]
pub(crate) fn fs_tree_apply(tree: &mut FsTree, op: MoveOp)
    ensures
        fs_tree(*final(tree)) == after_move(fs_tree(*old(tree)), op@),
{
    let stamp = Clock::new(op.actor, Some(op.counter));
    tree.inner.apply(OpMove::new(stamp, op.parent_id, op.metadata, op.child_id))
}

/// `BRBTree::validate`: a move is valid where it carries the stamp of the actor that sent it.
#[verifier::external_body]
pub(crate) fn fs_tree_validate(tree: &FsTree, source: &Actor, op: &PlainMove) -> (r: bool)
    ensures
        r == (plain_view(*op).actor == actor_key(*source)),
{
    let stamp = Clock::new(op.1, Some(op.0));
    let op = OpMove::new(stamp, op.2, op.3.clone(), op.4);
    tree.inner.validate(source, &op).is_ok()
}

/// The value of `std::fmt::Error`.
#[verifier::external_body]
pub(crate) fn refusal() -> std::fmt::Error {
    std::fmt::Error
}

/// `BRBTree::opmove`: a move by the replica's actor, stamped with the time that
/// follows the replica's.
#[verifier::external_body]
pub(crate) fn tree_opmove(tree: &TreeRef<'_>, parent_id: u64, meta: Vec<u8>, child_id: u64) -> (r:
    MoveOp)
    ensures
        r@ == (MoveView {
            counter: tick(tree_ref(*tree).time, 1),
            actor: tree_ref(*tree).actor,
            parent: parent_id,
            meta: meta@,
            child: child_id,
        }),
{
    let op = tree.inner.opmove(parent_id, meta, child_id);
    MoveOp {
        counter: op.timestamp().counter(),
        actor: *op.timestamp().actor_id(),
        parent_id: *op.parent_id(),
        metadata: op.metadata().clone(),
        child_id: *op.child_id(),
    }
}

/// `TreeReplica::opmoves`: a move for each triple of parent, metadata and child,
/// stamped with the times that follow the replica's, one after the other.
#[verifier::external_body]
pub(crate) fn tree_opmoves(tree: &TreeRef<'_>, moves: Vec<(u64, Vec<u8>, u64)>) -> (r: Vec<MoveOp>)
    ensures
        r@.len() == moves@.len(),
        forall|i: int|
            0 <= i < r@.len() ==> #[trigger] r@[i]@ == (MoveView {
                counter: tick(tree_ref(*tree).time, (i + 1) as nat),
                actor: tree_ref(*tree).actor,
                parent: moves@[i].0,
                meta: moves@[i].1@,
                child: moves@[i].2,
            }),
{
    let ops = tree.inner.treereplica().opmoves(moves);
    ops.iter().map(
        |op|
            MoveOp {
                counter: op.timestamp().counter(),
                actor: *op.timestamp().actor_id(),
                parent_id: *op.parent_id(),
                metadata: op.metadata().clone(),
                child_id: *op.child_id(),
            },
    ).collect()
}

/// `Tree::find` of the tree that a `BRBTree` shows: the node with this id, where
/// there is one.
#[verifier::external_body]
pub(crate) fn tree_find(tree: &TreeRef<'_>, child_id: u64) -> (r: Option<TreeEntry>)
    ensures
        r is Some <==> nodes_after(tree_ref(*tree).moves).contains_key(child_id),
        r is Some ==> r->0@ == nodes_after(tree_ref(*tree).moves)[child_id],
{
    let node = tree.inner.treestate().tree().find(&child_id);
    node.map(|n| TreeEntry { parent_id: *n.parent_id(), metadata: n.metadata().clone() })
}

/// `Tree::children` of the tree that a `BRBTree` shows: the ids of the nodes below
/// a parent, each once. Their order is that of a hash set, and is left unsaid.
#[verifier::external_body]
pub(crate) fn tree_children(tree: &TreeRef<'_>, parent_id: u64) -> (r: Vec<u64>)
    ensures
        r@.no_duplicates(),
        forall|c: u64| #[trigger]
            r@.contains(c) == is_child(nodes_after(tree_ref(*tree).moves), parent_id, c),
{
    tree.inner.treestate().tree().children(&parent_id)
}

/// `IntoIterator` of the tree that a `BRBTree` shows: every node with its id, each once.
/// Their order is that of a hash map, and is left unsaid.
#[verifier::external_body]
pub(crate) fn tree_rows(tree: &TreeRef<'_>) -> (r: Vec<TreeRow>)
    ensures
        lists_nodes(r@, nodes_after(tree_ref(*tree).moves)),
{
    let rows = tree.inner.treestate().tree().clone().into_iter();
    rows.map(
        |(id, n)|
            TreeRow { id, parent_id: *n.parent_id(), metadata: n.metadata().clone() },
    ).collect()
}

/// `TreeReplica::time`: the replica's actor and the time on its clock.
#[verifier::external_body]
pub(crate) fn tree_time(tree: &TreeRef<'_>) -> (r: Time)
    ensures
        actor_key(r.actor) == tree_ref(*tree).actor,
        r.counter == tree_ref(*tree).time,
{
    let clock = tree.inner.treereplica().time();
    Time { actor: *clock.actor_id(), counter: clock.counter() }
}

impl<'a> TreeRef<'a> {
    /// The node with this id, if there is one.
    pub fn find(&self, child_id: u64) -> (r: Option<TreeEntry>)
        ensures
            r is Some <==> nodes(tree_ref(*self)).contains_key(child_id),
            r is Some ==> r->0@ == nodes(tree_ref(*self))[child_id],
    {
        tree_find(self, child_id)
    }

    /// The ids of the nodes directly below a parent, each once, in no order.
    pub fn children(&self, parent_id: u64) -> (r: Vec<u64>)
        ensures
            r@.no_duplicates(),
            forall|c: u64| #[trigger]
                r@.contains(c) == is_child(nodes(tree_ref(*self)), parent_id, c),
    {
        tree_children(self, parent_id)
    }
}

/// The tree as a type of data for the broadcast. What is agreed on, sent and taken in at one
/// go is a transaction: a list of moves, which are made one after the other.
impl BRBDataType<Actor> for FsTree {
    type Op = Vec<PlainMove>;

    type ValidationError = std::fmt::Error;

    /// An empty replica of an actor.
    fn new(actor: Actor) -> (r: FsTree)
        ensures
            fs_tree(r) == (TreeView { actor: actor_key(actor), time: 0, moves: Set::empty() }),
    {
        fs_tree_new(actor)
    }

    /// A transaction is valid where each of its moves is.
    fn validate(&self, source: &Actor, op: &Vec<PlainMove>) -> (r: Result<(), std::fmt::Error>)
        ensures
            r is Ok <==> made_by(plain_views(op@), actor_key(*source)),
    {
        let mut i: usize = 0;
        while i < op.len()
            invariant
                i <= op@.len(),
                forall|j: int|
                    0 <= j < i ==> (#[trigger] plain_views(op@)[j]).actor == actor_key(*source),
            decreases op.len() - i,
        {
            if !fs_tree_validate(self, source, &op[i]) {
                assert(plain_views(op@)[i as int].actor != actor_key(*source));
                return Err(refusal());
            }
            assert(plain_views(op@)[i as int].actor == actor_key(*source));
            i = i + 1;
        }
        Ok(())
    }

    /// Makes the moves of a transaction, in their order.
    fn apply(&mut self, op: Vec<PlainMove>)
        ensures
            fs_tree(*final(self)) == after_moves(fs_tree(*old(self)), plain_views(op@)),
    {
        let ghost before = fs_tree(*self);
        let ghost views = plain_views(op@);
        let mut i: usize = 0;
        assert(views.take(0).len() == 0);
        while i < op.len()
            invariant
                i <= op@.len(),
                views == plain_views(op@),
                fs_tree(*self) == after_moves(before, views.take(i as int)),
            decreases op.len() - i,
        {
            let metadata = op[i].3.clone();
            assert(metadata@ =~= op@[i as int].3@);
            let next = MoveOp {
                counter: op[i].0,
                actor: op[i].1,
                parent_id: op[i].2,
                metadata,
                child_id: op[i].4,
            };
            fs_tree_apply(self, next);
            proof {
                assert(next@ == views[i as int]);
                assert(views.take(i + 1).drop_last() =~= views.take(i as int));
                assert(views.take(i + 1).last() == views[i as int]);
            }
            i = i + 1;
        }
        assert(views.take(op@.len() as int) =~= views);
    }
}

/// A second copy of a list of moves.
pub fn duplicate_all(ops: &Vec<MoveOp>) -> (r: Vec<MoveOp>)
    ensures
        move_views(r@) == move_views(ops@),
{
    let ghost views = move_views(ops@);
    let mut copy: Vec<MoveOp> = Vec::new();
    let mut i: usize = 0;
    assert(move_views(copy@) =~= views.take(0));
    while i < ops.len()
        invariant
            i <= ops@.len(),
            views == move_views(ops@),
            move_views(copy@) == views.take(i as int),
        decreases ops.len() - i,
    {
        let ghost done = move_views(copy@);
        copy.push(ops[i].duplicate());
        assert(move_views(copy@) =~= done.push(views[i as int]));
        assert(views.take(i + 1) =~= done.push(views[i as int]));
        i = i + 1;
    }
    assert(views.take(ops@.len() as int) =~= views);
    copy
}

impl MoveOp {
    /// A second copy of the same move.
    pub fn duplicate(&self) -> (r: MoveOp)
        ensures
            r@ == self@,
    {
        let metadata = self.metadata.clone();
        assert(metadata@ =~= self.metadata@);
        MoveOp {
            counter: self.counter,
            actor: self.actor,
            parent_id: self.parent_id,
            metadata,
            child_id: self.child_id,
        }
    }
}

} // verus!
