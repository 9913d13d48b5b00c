//! The state of a node that its parts share: the broadcast, and through it the
//! voting group and the tree.
use crate::actor::{actor_key, ascending, keys};
use crate::agreement::{
    apply_outcome, brb_actor, brb_anti_entropy, brb_apply, brb_exec_op, brb_force_join,
    brb_force_leave, brb_handle_packet, brb_kill_peer, brb_new, brb_no_delivery_pending,
    brb_no_proof_pending, brb_peers, brb_request_membership, brb_resend_pending_msgs, brb_tree,
    brb_view, exec_outcome, executed, force_join_outcome, force_leave_outcome, forced_in,
    forced_out, fresh, handle_outcome, has_room_for, join_outcome, leave_outcome, may_propose,
    packet_dest, packet_proof, proposed, resend_outcome, sync_outcome, tree_changed_by, voting, Brb,
    BrbView, FsPacket,
};
use crate::tree::{
    after_moves, is_child, lists_nodes, move_views, nodes, tick, tree_opmove, tree_opmoves,
    tree_rows, tree_time, tree_wf, EntryView, MoveOp, MoveView, Time, TreeEntry, TreeRow,
};
use brb::membership::actor::ed25519::Actor;
use vstd::multiset::Multiset;
use vstd::prelude::*;

verus! {

/// The state that the parts of a node share.
pub struct SharedBRB {
    pub brb: Brb,
}

/// The packets of an outcome; an error gives none.
pub open spec fn packets_of(outcome: Option<Seq<FsPacket>>) -> Seq<FsPacket> {
    match outcome {
        Some(packets) => packets,
        None => Seq::empty(),
    }
}

/// A proposal that an actor joins the group.
pub open spec fn join_requested(
    before: Brb,
    key: Seq<u8>,
    after: Brb,
    packets: Seq<FsPacket>,
) -> bool {
    &&& after == join_outcome(before, key).0
    &&& packets == packets_of(join_outcome(before, key).1)
    &&& proposed(before, after, join_outcome(before, key).1)
    &&& join_outcome(before, key).1 is Some ==> has_room_for(before, key)
    &&& may_propose(before) && has_room_for(before, key) ==> join_outcome(before, key).1 is Some
}

/// A proposal that an actor leaves the group.
pub open spec fn leave_requested(
    before: Brb,
    key: Seq<u8>,
    after: Brb,
    packets: Seq<FsPacket>,
) -> bool {
    &&& after == leave_outcome(before, key).0
    &&& packets == packets_of(leave_outcome(before, key).1)
    &&& proposed(before, after, leave_outcome(before, key).1)
    &&& leave_outcome(before, key).1 is Some ==> voting(before).contains(key)
    &&& may_propose(before) && voting(before).contains(key) ==> leave_outcome(before, key).1 is Some
}

/// A packet taken in.
pub open spec fn packet_handled(
    before: Brb,
    packet: FsPacket,
    after: Brb,
    packets: Seq<FsPacket>,
) -> bool {
    &&& after == handle_outcome(before, packet).0
    &&& packets == packets_of(handle_outcome(before, packet).1)
    &&& tree_changed_by(before, packet_proof(packet), after)
    &&& ops_accepted(before, packet) ==> brb_view(after).tree == after_moves(
        brb_view(before).tree,
        packet_proof(packet)->0,
    )
}

/// The packet proves that the group has agreed on a transaction, and the node accepts the
/// proof.
pub open spec fn ops_accepted(before: Brb, packet: FsPacket) -> bool {
    packet_proof(packet) is Some && handle_outcome(before, packet).1 is Some
}

/// A transaction handed to the broadcast.
pub open spec fn ops_executed(
    before: Brb,
    ops: Seq<MoveView>,
    after: Brb,
    packets: Seq<FsPacket>,
) -> bool {
    &&& after == exec_outcome(before, ops).0
    &&& packets == packets_of(exec_outcome(before, ops).1)
    &&& executed(before, ops, after, exec_outcome(before, ops).1)
}

/// An actor trusted: it is forced into the group.
pub open spec fn peer_trusted(before: Brb, key: Seq<u8>, after: Brb) -> bool {
    &&& after == force_join_outcome(before, key)
    &&& forced_in(before, key, after)
}

/// An actor no longer trusted: it is forced out of the group.
pub open spec fn peer_untrusted(before: Brb, key: Seq<u8>, after: Brb) -> bool {
    &&& after == force_leave_outcome(before, key)
    &&& forced_out(before, key, after)
}

/// The broadcast after a list of moves on its tree, made one after the other.
pub open spec fn after_ops(brb: Brb, ops: Seq<MoveView>) -> Brb
    decreases ops.len(),
{
    if ops.len() == 0 {
        brb
    } else {
        apply_outcome(after_ops(brb, ops.drop_last()), ops.last())
    }
}

/// A transaction made on the node's own tree: its moves are made in their order, and
/// nothing else that the node knows changes.
pub open spec fn ops_applied(before: Brb, ops: Seq<MoveView>, after: Brb) -> bool {
    &&& after == after_ops(before, ops)
    &&& brb_view(after) == (BrbView {
        tree: after_moves(brb_view(before).tree, ops),
        ..brb_view(before)
    })
}

/// A sound node: its replica is sound, and is the replica of the node's own actor.
pub open spec fn node_wf(brb: Brb) -> bool {
    &&& tree_wf(brb_view(brb).tree)
    &&& brb_view(brb).tree.actor == brb_view(brb).actor
}

/// The node has a message of its own in the air: one that waits for a proof of agreement
/// or for confirmation of delivery.
pub open spec fn source_op_pending(brb: Brb) -> bool {
    brb_view(brb).awaiting_delivery != 0 || brb_view(brb).awaiting_proof != 0
}

/// The packets of an outcome, where an error gives none.
pub fn or_no_packets(outcome: Option<Vec<FsPacket>>) -> (r: Vec<FsPacket>)
    ensures
        r@ == packets_of(
            match outcome {
                Some(v) => Some(v@),
                None => None,
            },
        ),
{
    match outcome {
        Some(packets) => packets,
        None => Vec::new(),
    }
}

impl SharedBRB {
    /// The state of a new node, under an identity made by chance.
    pub fn new() -> (r: SharedBRB)
        ensures
            fresh(r.brb),
            node_wf(r.brb),
            nodes(brb_view(r.brb).tree) == Map::<u64, EntryView>::empty(),
    {
        SharedBRB { brb: brb_new() }
    }

    /// The node's own actor.
    pub fn actor(&self) -> (r: Actor)
        ensures
            actor_key(r) == brb_view(self.brb).actor,
    {
        brb_actor(&self.brb)
    }

    /// A move that this node can make, stamped with the next time.
    pub fn opmove(&self, parent_id: u64, meta: Vec<u8>, child_id: u64) -> (r: MoveOp)
        ensures
            r@ == (MoveView {
                counter: tick(brb_view(self.brb).tree.time, 1),
                actor: brb_view(self.brb).tree.actor,
                parent: parent_id,
                meta: meta@,
                child: child_id,
            }),
    {
        let tree = brb_tree(&self.brb);
        tree_opmove(&tree, parent_id, meta, child_id)
    }

    /// Moves that this node can make, one for each triple of parent, metadata and
    /// child, stamped with the times that follow.
    pub fn opmovetx_multi(&self, ops: Vec<(u64, Vec<u8>, u64)>) -> (r: Vec<MoveOp>)
        ensures
            r@.len() == ops@.len(),
            forall|i: int|
                0 <= i < r@.len() ==> #[trigger] r@[i]@ == (MoveView {
                    counter: tick(brb_view(self.brb).tree.time, (i + 1) as nat),
                    actor: brb_view(self.brb).tree.actor,
                    parent: ops@[i].0,
                    meta: ops@[i].1@,
                    child: ops@[i].2,
                }),
    {
        let tree = brb_tree(&self.brb);
        tree_opmoves(&tree, ops)
    }

    /// The members of the voting group, in ascending order; none where they are not known.
    pub fn peers(&self) -> (r: Vec<Actor>)
        ensures
            ascending(keys(r@)),
            keys(r@).to_set() == voting(self.brb),
    {
        match brb_peers(&self.brb) {
            Some(actors) => actors,
            None => {
                let none: Vec<Actor> = Vec::new();
                assert(keys(none@).to_set() =~= Set::<Seq<u8>>::empty());
                none
            },
        }
    }

    /// Counts an actor among the members, without a vote.
    pub fn trust_peer(&mut self, peer: Actor)
        ensures
            peer_trusted(old(self).brb, actor_key(peer), final(self).brb),
    {
        brb_force_join(&mut self.brb, peer);
    }

    /// Counts an actor out of the members, without a vote.
    pub fn untrust_peer(&mut self, peer: Actor)
        ensures
            peer_untrusted(old(self).brb, actor_key(peer), final(self).brb),
    {
        brb_force_leave(&mut self.brb, peer);
    }

    /// Proposes to the group that an actor joins it. Returns the packets to deliver,
    /// none where the proposal cannot be made.
    pub fn request_join(&mut self, actor: Actor) -> (r: Vec<FsPacket>)
        ensures
            join_requested(old(self).brb, actor_key(actor), final(self).brb, r@),
    {
        or_no_packets(brb_request_membership(&mut self.brb, actor))
    }

    /// Proposes to the group that an actor leaves it. Returns the packets to deliver,
    /// none where the proposal cannot be made.
    pub fn request_leave(&mut self, actor: Actor) -> (r: Vec<FsPacket>)
        ensures
            leave_requested(old(self).brb, actor_key(actor), final(self).brb, r@),
    {
        or_no_packets(brb_kill_peer(&mut self.brb, actor))
    }

    /// A packet that asks a peer for what this node has not seen, if one can be made.
    pub fn anti_entropy(&self, peer: Actor) -> (r: Option<FsPacket>)
        ensures
            r == sync_outcome(self.brb, actor_key(peer)),
            r is Some ==> packet_dest(r->0) == actor_key(peer),
    {
        brb_anti_entropy(&self.brb, peer)
    }

    /// Hands a transaction to the broadcast. Returns the packets to deliver, none where the
    /// broadcast refuses.
    pub fn exec_op(&mut self, op: Vec<MoveOp>) -> (r: Vec<FsPacket>)
        ensures
            ops_executed(old(self).brb, move_views(op@), final(self).brb, r@),
    {
        or_no_packets(brb_exec_op(&mut self.brb, op))
    }

    /// Makes a transaction on the node's own tree.
    pub fn apply_op(&mut self, op: Vec<MoveOp>)
        ensures
            ops_applied(old(self).brb, move_views(op@), final(self).brb),
    {
        let ghost before = self.brb;
        let ghost views = move_views(op@);
        assert(views.take(0).len() == 0);
        for next in it: op
            invariant
                it.seq() == op@,
                views == move_views(op@),
                ops_applied(before, views.take(it.index()), self.brb),
        {
            let ghost i = it.index();
            assert(next == op@[i]);
            brb_apply(&mut self.brb, next);
            proof {
                assert(views.take(i + 1).drop_last() =~= views.take(i));
                assert(views.take(i + 1).last() == next@);
            }
        }
        assert(views.take(op@.len() as int) =~= views);
    }

    /// Takes in a packet. Returns the packets to deliver in answer; a packet that the
    /// broadcast refuses is dropped, and has none.
    pub fn apply_packet(&mut self, packet: FsPacket) -> (r: Vec<FsPacket>)
        ensures
            packet_handled(old(self).brb, packet, final(self).brb, r@),
    {
        or_no_packets(brb_handle_packet(&mut self.brb, packet))
    }

    /// The packets that still want an answer; none where the broadcast cannot make them.
    ///
    /// They come in the order in which the broadcast gives them, as [`or_no_packets`] says.
    /// That order is left unsaid: the broadcast keeps them in hash maps.
    pub fn resend_pending_msgs(&self) -> (r: Vec<FsPacket>)
        ensures
            r@.to_multiset() == (match resend_outcome(self.brb) {
                Some(packets) => packets,
                None => Multiset::empty(),
            }),
            !source_op_pending(self.brb) ==> r@.len() == 0,
    {
        let outcome = brb_resend_pending_msgs(&self.brb);
        proof {
            let none = Seq::<FsPacket>::empty();
            none.to_multiset_ensures();
            assert(none.to_multiset() =~= Multiset::empty());
        }
        or_no_packets(outcome)
    }

    /// The node has a message of its own in the air.
    pub fn has_pending_source_op(&self) -> (r: bool)
        ensures
            r == source_op_pending(self.brb),
    {
        !brb_no_delivery_pending(&self.brb) || !brb_no_proof_pending(&self.brb)
    }

    /// The node of the tree with this id, if there is one.
    pub fn find(&self, child_id: u64) -> (r: Option<TreeEntry>)
        ensures
            r is Some <==> nodes(brb_view(self.brb).tree).contains_key(child_id),
            r is Some ==> r->0@ == nodes(brb_view(self.brb).tree)[child_id],
    {
        let tree = brb_tree(&self.brb);
        tree.find(child_id)
    }

    /// The ids of the nodes directly below a parent, each once, in no order.
    pub fn children(&self, parent_id: u64) -> (r: Vec<u64>)
        ensures
            r@.no_duplicates(),
            forall|c: u64| #[trigger]
                r@.contains(c) == is_child(nodes(brb_view(self.brb).tree), parent_id, c),
    {
        let tree = brb_tree(&self.brb);
        tree.children(parent_id)
    }

    /// Every node of the tree, each once, in no order.
    ///
    /// The metadata are the bytes that the tree keeps; what they mean, and so the text of
    /// the tree, is known where they are decoded.
    pub fn read(&self) -> (r: Vec<TreeRow>)
        ensures
            lists_nodes(r@, nodes(brb_view(self.brb).tree)),
    {
        let tree = brb_tree(&self.brb);
        tree_rows(&tree)
    }

    /// The time on the clock of the node's replica.
    pub fn time(&self) -> (r: Time)
        ensures
            actor_key(r.actor) == brb_view(self.brb).tree.actor,
            r.counter == brb_view(self.brb).tree.time,
    {
        let tree = brb_tree(&self.brb);
        tree_time(&tree)
    }

    /// The log of moves is kept whole: there is nothing to report as cut off.
    pub fn truncate_log(&self) -> (r: bool)
        ensures
            !r,
    {
        false
    }
}

} // verus!
