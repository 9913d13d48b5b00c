//! A replica of the tree on its own, without a broadcast.
use crate::actor::actor_key;
use crate::tree::{
    after_move, fs_tree, fs_tree_apply, fs_tree_new, fs_tree_ref, nodes, tick, tree_opmove,
    tree_ref, tree_time, tree_wf, EntryView, FsTree, MoveOp, MoveView, Time, TreeRef, TreeView,
};
use brb::membership::actor::ed25519::Actor;
use vstd::prelude::*;

verus! {

/// A store of the filesystem's tree that is one replica and nothing else.
pub struct FsBrbTreeReplicaStore(pub FsTree);

impl FsBrbTreeReplicaStore {
    /// An empty replica of an actor.
    pub fn new(actor: Actor) -> (r: FsBrbTreeReplicaStore)
        ensures
            fs_tree(r.0) == (TreeView { actor: actor_key(actor), time: 0, moves: Set::empty() }),
            tree_wf(fs_tree(r.0)),
            nodes(fs_tree(r.0)) == Map::<u64, EntryView>::empty(),
    {
        FsBrbTreeReplicaStore(fs_tree_new(actor))
    }

    /// A move that the replica's actor can make, stamped with the next time.
    pub fn opmove(&self, parent_id: u64, meta: Vec<u8>, child_id: u64) -> (r: MoveOp)
        ensures
            r@ == (MoveView {
                counter: tick(fs_tree(self.0).time, 1),
                actor: fs_tree(self.0).actor,
                parent: parent_id,
                meta: meta@,
                child: child_id,
            }),
    {
        let tree = fs_tree_ref(&self.0);
        tree_opmove(&tree, parent_id, meta, child_id)
    }

    /// Makes a move.
    pub fn apply_op(&mut self, op: MoveOp)
        ensures
            fs_tree(final(self).0) == after_move(fs_tree(old(self).0), op@),
    {
        fs_tree_apply(&mut self.0, op);
    }

    /// The tree, to read from.
    pub fn state(&self) -> (r: TreeRef<'_>)
        ensures
            tree_ref(r) == fs_tree(self.0),
    {
        fs_tree_ref(&self.0)
    }

    /// The time on the replica's clock.
    pub fn time(&self) -> (r: Time)
        ensures
            actor_key(r.actor) == fs_tree(self.0).actor,
            r.counter == fs_tree(self.0).time,
    {
        let tree = fs_tree_ref(&self.0);
        tree_time(&tree)
    }

    /// The log of moves is kept whole: nothing changes, and nothing was cut off.
    pub fn truncate_log(&mut self) -> (r: bool)
        ensures
            !r,
            *final(self) == *old(self),
    {
        false
    }
}

} // verus!
