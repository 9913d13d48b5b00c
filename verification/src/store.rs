//! The store behind the mounted filesystem. A change is made on the node's own tree
//! at once, and waits in a queue until the broadcast is free to take it.
//!
//! Moves that are made together are one transaction. It is queued as one, handed to the
//! broadcast as one, and taken in as one by the other nodes.
use crate::agreement::{Brb, FsPacket};
use crate::shared::{ops_applied, ops_executed, source_op_pending, SharedBRB};
use crate::tree::{duplicate_all, move_views, MoveOp, MoveView};
use std::collections::VecDeque;
use vstd::prelude::*;

verus! {

/// The transactions that were made here and have not been handed to the broadcast yet,
/// oldest first.
pub struct FsBrbTreeStore {
    pub pending_ops: VecDeque<Vec<MoveOp>>,
}

/// What the sender of the queued transactions has to do next.
pub enum Step {
    /// A message of this node is in the air: look again later.
    InFlight,
    /// Nothing is queued: look again later.
    Idle,
    /// A transaction was handed to the broadcast: deliver these packets.
    Deliver(Vec<FsPacket>),
}

/// The views of a list of transactions.
pub open spec fn transactions(pending: Seq<Vec<MoveOp>>) -> Seq<Seq<MoveView>> {
    pending.map_values(|ops: Vec<MoveOp>| move_views(ops@))
}

impl View for FsBrbTreeStore {
    type V = Seq<Seq<MoveView>>;

    open spec fn view(&self) -> Seq<Seq<MoveView>> {
        transactions(self.pending_ops@)
    }
}

/// A transaction made: it is made on the node's own tree, and goes to the end of the queue.
pub open spec fn ops_made(
    queue: Seq<Seq<MoveView>>,
    before: Brb,
    ops: Seq<MoveView>,
    queue1: Seq<Seq<MoveView>>,
    after: Brb,
) -> bool {
    &&& ops_applied(before, ops, after)
    &&& queue1 == queue.push(ops)
}

/// A transaction handed on: the oldest of the queue goes to the broadcast, which has no
/// other message of this node in the air.
pub open spec fn ops_handed_on(
    queue: Seq<Seq<MoveView>>,
    before: Brb,
    queue1: Seq<Seq<MoveView>>,
    after: Brb,
    packets: Seq<FsPacket>,
) -> bool {
    &&& !source_op_pending(before)
    &&& queue.len() > 0
    &&& queue1 == queue.drop_first()
    &&& ops_executed(before, queue[0], after, packets)
}

impl FsBrbTreeStore {
    /// A store with nothing queued.
    pub fn new() -> (r: FsBrbTreeStore)
        ensures
            r@ == Seq::<Seq<MoveView>>::empty(),
    {
        let r = FsBrbTreeStore { pending_ops: VecDeque::new() };
        assert(r@ =~= Seq::<Seq<MoveView>>::empty());
        r
    }

    /// Makes a move on the node's own tree, and queues it for the broadcast as a
    /// transaction of its own.
    pub fn apply_op(&mut self, state: &mut SharedBRB, op: MoveOp)
        ensures
            ops_made(old(self)@, old(state).brb, seq![op@], final(self)@, final(state).brb),
    {
        let ops = vec![op];
        assert(move_views(ops@) =~= seq![op@]);
        self.apply_ops(state, ops);
    }

    /// Makes moves on the node's own tree, in their order, and queues them for the broadcast
    /// as one transaction.
    pub fn apply_ops(&mut self, state: &mut SharedBRB, ops: Vec<MoveOp>)
        ensures
            ops_made(
                old(self)@,
                old(state).brb,
                move_views(ops@),
                final(self)@,
                final(state).brb,
            ),
    {
        let ghost queue = self@;
        state.apply_op(duplicate_all(&ops));
        self.pending_ops.push_back(ops);
        assert(self@ =~= queue.push(move_views(ops@)));
    }

    /// Takes the next step in sending the queued transactions. One transaction is handed to
    /// the broadcast at a time, the oldest first, and none while a message of this node is
    /// still in the air.
    pub fn exec_ops_when_ready(&mut self, state: &mut SharedBRB) -> (r: Step)
        ensures
            r is InFlight <==> source_op_pending(old(state).brb),
            r is Idle <==> !source_op_pending(old(state).brb) && old(self)@.len() == 0,
            match r {
                Step::Deliver(packets) => ops_handed_on(
                    old(self)@,
                    old(state).brb,
                    final(self)@,
                    final(state).brb,
                    packets@,
                ),
                _ => final(self)@ == old(self)@ && final(state).brb == old(state).brb,
            },
    {
        let ghost queue = self@;
        if state.has_pending_source_op() {
            return Step::InFlight;
        }
        match self.pending_ops.pop_front() {
            Some(ops) => {
                assert(queue[0] == move_views(ops@));
                assert(self@ =~= queue.drop_first());
                Step::Deliver(state.exec_op(ops))
            },
            None => Step::Idle,
        }
    }
}

} // verus!
