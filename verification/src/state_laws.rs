//! What the calls on a node's state come to, and how they relate to each other.
use crate::actor::{actor_key, key_lt, keys};
use crate::agreement::{
    apply_outcome, brb_view, dests, exec_outcome, force_join_outcome, force_leave_outcome,
    handle_outcome, join_outcome, leave_outcome, packet_dest, packet_proof, resend_outcome,
    sync_outcome, voted_in, voted_out, voting, Brb, BrbView, FsPacket,
};
use crate::node_laws::{trust_adds_the_peer, untrust_removes_the_peer};
use crate::router_laws::{is_member, join_is_owed};
use crate::shared::{after_ops, node_wf, or_no_packets, SharedBRB};
use crate::store::{FsBrbTreeStore, Step};
use crate::tree::{
    after_move, after_moves, duplicate_all, fs_tree, is_child, makes_cycle, move_views, nodes,
    same_stamp, tree_ref, tree_wf, EntryView, MoveOp, MoveView, Time, TreeEntry, TreeRef, TreeRow,
    TreeView,
};
use crate::tree_laws::own_move_is_read_back;
use crate::treestore::FsBrbTreeReplicaStore;
use brb::membership::actor::ed25519::Actor;
use vstd::prelude::*;

verus! {

/// The packets are all that the broadcast gave, in its order; where it refused there are none.
pub open spec fn all_given(outcome: Option<Seq<FsPacket>>, packets: Seq<FsPacket>) -> bool {
    match outcome {
        Some(given) => packets == given,
        None => packets.len() == 0,
    }
}

/// One of the packets goes to the actor.
pub open spec fn one_goes_to(packets: Seq<FsPacket>, key: Seq<u8>) -> bool {
    exists|i: int| 0 <= i < packets.len() && packet_dest(#[trigger] packets[i]) == key
}

/// What the broadcast gives is passed on whole, and a refusal is passed on as no packets.
pub proof fn nothing_given_is_lost(outcome: Option<Vec<FsPacket>>, r: Vec<FsPacket>)
    requires
        call_ensures(or_no_packets, (outcome,), r),
    ensures
        outcome matches Some(given) ==> r@ == given@,
        outcome is None ==> r@.len() == 0,
{
}

/// A new node has made nothing, waits for nothing, has no members in its group, and stamps
/// its moves with its own actor.
pub proof fn new_node_is_blank(r: SharedBRB)
    requires
        call_ensures(SharedBRB::new, (), r),
    ensures
        brb_view(r.brb).generation == 0,
        forall|k: Seq<u8>| !#[trigger] is_member(r.brb, k),
        brb_view(r.brb).members is Some,
        brb_view(r.brb).open_votes == 0,
        brb_view(r.brb).awaiting_proof == 0,
        brb_view(r.brb).awaiting_delivery == 0,
        brb_view(r.brb).tree.time == 0,
        brb_view(r.brb).tree.actor == brb_view(r.brb).actor,
        forall|o: MoveView| !#[trigger] brb_view(r.brb).tree.moves.contains(o),
        forall|id: u64| !#[trigger] nodes(brb_view(r.brb).tree).contains_key(id),
        node_wf(r.brb),
{
}

/// The members are listed each once, in ascending order, and nobody else is.
pub proof fn members_are_listed(state: SharedBRB, r: Vec<Actor>)
    requires
        call_ensures(SharedBRB::peers, (&state,), r),
    ensures
        forall|i: int, j: int|
            0 <= i < j < r@.len() ==> key_lt(
                actor_key(#[trigger] r@[i]),
                actor_key(#[trigger] r@[j]),
            ),
        forall|i: int| 0 <= i < r@.len() ==> is_member(state.brb, actor_key(#[trigger] r@[i])),
        forall|k: Seq<u8>| #[trigger]
            is_member(state.brb, k) ==> exists|i: int|
                0 <= i < r@.len() && actor_key(#[trigger] r@[i]) == k,
{
    assert forall|i: int, j: int| 0 <= i < j < r@.len() implies key_lt(
        actor_key(#[trigger] r@[i]),
        actor_key(#[trigger] r@[j]),
    ) by {
        assert(key_lt(keys(r@)[i], keys(r@)[j]));
    }
    assert forall|i: int| 0 <= i < r@.len() implies is_member(
        state.brb,
        actor_key(#[trigger] r@[i]),
    ) by {
        assert(keys(r@)[i] == actor_key(r@[i]));
        assert(keys(r@).to_set().contains(keys(r@)[i]));
        assert(voting(state.brb).contains(actor_key(r@[i])));
    }
    assert forall|k: Seq<u8>| #[trigger] is_member(state.brb, k) implies exists|i: int|
        0 <= i < r@.len() && actor_key(#[trigger] r@[i]) == k by {
        assert(keys(r@).to_set().contains(k));
        let i = choose|i: int| 0 <= i < keys(r@).len() && keys(r@)[i] == k;
        assert(actor_key(r@[i]) == k);
    }
}

/// Trusting an actor makes it a member, unless the votes of the current generation took it
/// out, and changes nothing else. The others are members as before.
pub proof fn trusted_actor_is_a_member(state: &mut SharedBRB, peer: Actor)
    requires
        call_ensures(SharedBRB::trust_peer, (state, peer), ()),
    ensures
        final(state).brb == force_join_outcome(old(state).brb, actor_key(peer)),
        brb_view(old(state).brb).members is Some ==> (is_member(final(state).brb, actor_key(peer))
            <==> !voted_out(old(state).brb, actor_key(peer))),
        forall|k: Seq<u8>|
            k != actor_key(peer) ==> (#[trigger] is_member(final(state).brb, k) <==> is_member(
                old(state).brb,
                k,
            )),
        brb_view(final(state).brb) == (BrbView {
            members: brb_view(final(state).brb).members,
            ..brb_view(old(state).brb)
        }),
{
    assert forall|k: Seq<u8>| k != actor_key(peer) implies (#[trigger] is_member(
        final(state).brb,
        k,
    ) <==> is_member(old(state).brb, k)) by {
        assert(voting(final(state).brb).contains(k) == voting(old(state).brb).contains(k));
    }
    if brb_view(old(state).brb).members is Some {
        trust_adds_the_peer(old(state).brb, actor_key(peer), final(state).brb);
    }
}

/// An actor that is no longer trusted is no member, unless the votes of the current
/// generation took it in, and nothing else changes. The others are members as before.
pub proof fn untrusted_actor_is_no_member(state: &mut SharedBRB, peer: Actor)
    requires
        call_ensures(SharedBRB::untrust_peer, (state, peer), ()),
    ensures
        final(state).brb == force_leave_outcome(old(state).brb, actor_key(peer)),
        brb_view(old(state).brb).members is Some ==> (is_member(final(state).brb, actor_key(peer))
            <==> voted_in(old(state).brb, actor_key(peer))),
        forall|k: Seq<u8>|
            k != actor_key(peer) ==> (#[trigger] is_member(final(state).brb, k) <==> is_member(
                old(state).brb,
                k,
            )),
        brb_view(final(state).brb) == (BrbView {
            members: brb_view(final(state).brb).members,
            ..brb_view(old(state).brb)
        }),
{
    assert forall|k: Seq<u8>| k != actor_key(peer) implies (#[trigger] is_member(
        final(state).brb,
        k,
    ) <==> is_member(old(state).brb, k)) by {
        assert(voting(final(state).brb).contains(k) == voting(old(state).brb).contains(k));
    }
    if brb_view(old(state).brb).members is Some {
        untrust_removes_the_peer(old(state).brb, actor_key(peer), final(state).brb);
    }
}

/// A request to join is one to the broadcast, for that actor; all its packets are handed out,
/// and where the proposal is owed, there is one for every member.
pub proof fn request_to_join_is_passed_on(state: &mut SharedBRB, actor: Actor, r: Vec<FsPacket>)
    requires
        call_ensures(SharedBRB::request_join, (state, actor), r),
    ensures
        final(state).brb == join_outcome(old(state).brb, actor_key(actor)).0,
        all_given(join_outcome(old(state).brb, actor_key(actor)).1, r@),
        join_is_owed(old(state).brb, actor_key(actor)) ==> forall|k: Seq<u8>| #[trigger]
            is_member(old(state).brb, k) ==> one_goes_to(r@, k),
{
    let before = old(state).brb;
    if join_is_owed(before, actor_key(actor)) {
        lemma_every_member_gets_one(before, r@);
    }
}

proof fn lemma_every_member_gets_one(brb: Brb, packets: Seq<FsPacket>)
    requires
        dests(packets).to_set() == voting(brb),
    ensures
        forall|k: Seq<u8>| #[trigger] is_member(brb, k) ==> one_goes_to(packets, k),
{
    assert forall|k: Seq<u8>| #[trigger] is_member(brb, k) implies one_goes_to(packets, k) by {
        assert(voting(brb).contains(k));
        assert(dests(packets).to_set().contains(k));
        let i = choose|i: int| 0 <= i < dests(packets).len() && dests(packets)[i] == k;
        assert(packet_dest(packets[i]) == k);
    }
}

/// A request to leave is one to the broadcast, for that actor; all its packets are handed
/// out, and where the node votes on a member with no vote under way, there is one for every
/// member.
pub proof fn request_to_leave_is_passed_on(state: &mut SharedBRB, actor: Actor, r: Vec<FsPacket>)
    requires
        call_ensures(SharedBRB::request_leave, (state, actor), r),
    ensures
        final(state).brb == leave_outcome(old(state).brb, actor_key(actor)).0,
        all_given(leave_outcome(old(state).brb, actor_key(actor)).1, r@),
        is_member(old(state).brb, brb_view(old(state).brb).actor) && is_member(
            old(state).brb,
            actor_key(actor),
        ) && brb_view(old(state).brb).open_votes == 0 ==> forall|k: Seq<u8>| #[trigger]
            is_member(old(state).brb, k) ==> one_goes_to(r@, k),
{
    let before = old(state).brb;
    if is_member(before, brb_view(before).actor) && is_member(before, actor_key(actor))
        && brb_view(before).open_votes == 0 {
        lemma_every_member_gets_one(before, r@);
    }
}

/// What asks an actor for what the node has not seen goes to that actor.
pub proof fn question_goes_to_the_actor(state: SharedBRB, peer: Actor, r: Option<FsPacket>)
    requires
        call_ensures(SharedBRB::anti_entropy, (&state, peer), r),
    ensures
        r == sync_outcome(state.brb, actor_key(peer)),
        r matches Some(packet) ==> packet_dest(packet) == actor_key(peer),
{
}

/// A transaction is handed to the broadcast whole, and all packets are handed out: where the
/// broadcast accepts it, every member but the node itself gets one, and the node none.
pub proof fn transaction_reaches_every_member(
    state: &mut SharedBRB,
    op: Vec<MoveOp>,
    r: Vec<FsPacket>,
)
    requires
        call_ensures(SharedBRB::exec_op, (state, op), r),
    ensures
        final(state).brb == exec_outcome(old(state).brb, move_views(op@)).0,
        all_given(exec_outcome(old(state).brb, move_views(op@)).1, r@),
        !one_goes_to(r@, brb_view(old(state).brb).actor),
        exec_outcome(old(state).brb, move_views(op@)).1 is Some ==> forall|k: Seq<u8>| #[trigger]
            is_member(old(state).brb, k) && k != brb_view(old(state).brb).actor ==> one_goes_to(
                r@,
                k,
            ),
{
    lemma_reaches_others(
        old(state).brb,
        exec_outcome(old(state).brb, move_views(op@)).1,
        r@,
    );
}

proof fn lemma_reaches_others(brb: Brb, outcome: Option<Seq<FsPacket>>, packets: Seq<FsPacket>)
    requires
        all_given(outcome, packets),
        outcome is Some ==> !dests(outcome->0).contains(brb_view(brb).actor),
        outcome is Some ==> forall|k: Seq<u8>| #[trigger]
            voting(brb).contains(k) && k != brb_view(brb).actor ==> dests(outcome->0).contains(k),
    ensures
        !one_goes_to(packets, brb_view(brb).actor),
        outcome is Some ==> forall|k: Seq<u8>| #[trigger]
            is_member(brb, k) && k != brb_view(brb).actor ==> one_goes_to(packets, k),
{
    if one_goes_to(packets, brb_view(brb).actor) {
        let i = choose|i: int|
            0 <= i < packets.len() && packet_dest(#[trigger] packets[i]) == brb_view(brb).actor;
        assert(dests(packets)[i] == brb_view(brb).actor);
    }
    if outcome is Some {
        assert forall|k: Seq<u8>| #[trigger]
            is_member(brb, k) && k != brb_view(brb).actor implies one_goes_to(packets, k) by {
            assert(voting(brb).contains(k));
            let i = choose|i: int| 0 <= i < dests(packets).len() && dests(packets)[i] == k;
            assert(packet_dest(packets[i]) == k);
        }
    }
}

/// A packet is given to the broadcast, and all with which the broadcast answers is handed
/// out. An accepted proof of agreement makes its whole transaction on the tree, and a packet
/// without a proof leaves the tree alone.
pub proof fn packet_is_passed_on(state: &mut SharedBRB, packet: FsPacket, r: Vec<FsPacket>)
    requires
        call_ensures(SharedBRB::apply_packet, (state, packet), r),
    ensures
        final(state).brb == handle_outcome(old(state).brb, packet).0,
        all_given(handle_outcome(old(state).brb, packet).1, r@),
        packet_proof(packet) is None ==> brb_view(final(state).brb).tree == brb_view(
            old(state).brb,
        ).tree,
        packet_proof(packet) matches Some(ops) ==> handle_outcome(old(state).brb, packet).1 is Some
            ==> brb_view(final(state).brb).tree == after_moves(brb_view(old(state).brb).tree, ops),
{
}

/// The packets that still want an answer are those that the broadcast gives, each as often as
/// it gives it; there are none while no message of the node is in the air.
pub proof fn pending_packets_are_given(state: SharedBRB, r: Vec<FsPacket>, pending: bool)
    requires
        call_ensures(SharedBRB::resend_pending_msgs, (&state,), r),
        call_ensures(SharedBRB::has_pending_source_op, (&state,), pending),
    ensures
        resend_outcome(state.brb) matches Some(packets) ==> r@.to_multiset() == packets,
        resend_outcome(state.brb) is None ==> r@.len() == 0,
        !pending ==> r@.len() == 0,
        pending <==> brb_view(state.brb).awaiting_proof > 0 || brb_view(
            state.brb,
        ).awaiting_delivery > 0,
{
    r@.to_multiset_ensures();
}

/// Made one by one or as a list, moves come to the same; an empty list changes nothing.
pub proof fn moves_are_made_one_by_one(tree: TreeView, ops: Seq<MoveView>, op: MoveView)
    ensures
        after_moves(tree, Seq::empty()) == tree,
        after_moves(tree, ops.push(op)) == after_move(after_moves(tree, ops), op),
{
    assert(ops.push(op).drop_last() =~= ops);
    assert(ops.push(op).last() == op);
}

/// A move is kept unless its stamp is taken, no other move comes or goes, and the clock shows
/// the later of its time and that of the move.
pub proof fn move_is_kept(tree: TreeView, op: MoveView, o: MoveView)
    ensures
        after_move(tree, op).moves.contains(o) <==> tree.moves.contains(o) || (o == op && forall|
            p: MoveView,
        | #[trigger]
            tree.moves.contains(p) ==> !(p.counter == op.counter && p.actor == op.actor)),
        after_move(tree, op).time >= tree.time,
        after_move(tree, op).time >= op.counter,
        after_move(tree, op).time == tree.time || after_move(tree, op).time == op.counter,
        after_move(tree, op).actor == tree.actor,
{
    if exists|p: MoveView| #[trigger] tree.moves.contains(p) && same_stamp(p, op) {
        let p = choose|p: MoveView| #[trigger] tree.moves.contains(p) && same_stamp(p, op);
        assert(tree.moves.contains(p) && p.counter == op.counter && p.actor == op.actor);
    } else {
        assert forall|p: MoveView| #[trigger] tree.moves.contains(p) implies !(p.counter
            == op.counter && p.actor == op.actor) by {
            assert(!same_stamp(p, op));
        }
    }
}

/// A move says what was asked for, and carries the node's stamp with the next time; the clock
/// stops at its last value.
pub open spec fn says(
    op: MoveOp,
    tree: TreeView,
    steps: int,
    parent: u64,
    meta: Seq<u8>,
    child: u64,
) -> bool {
    &&& op.parent_id == parent
    &&& op.metadata@ == meta
    &&& op.child_id == child
    &&& actor_key(op.actor) == tree.actor
    &&& op.counter == if tree.time + steps <= u64::MAX {
        tree.time + steps
    } else {
        u64::MAX as int
    }
}

/// A move that a node draws up says what was asked for, with the time after the node's.
pub proof fn move_says_what_was_asked(
    state: SharedBRB,
    parent: u64,
    meta: Vec<u8>,
    child: u64,
    r: MoveOp,
)
    requires
        call_ensures(SharedBRB::opmove, (&state, parent, meta, child), r),
    ensures
        says(r, brb_view(state.brb).tree, 1, parent, meta@, child),
{
    assert(r@.meta == r.metadata@);
}

/// Moves that a node draws up together say each what was asked for, with the times after the
/// node's, one after the other.
pub proof fn moves_say_what_was_asked(
    state: SharedBRB,
    ops: Vec<(u64, Vec<u8>, u64)>,
    r: Vec<MoveOp>,
)
    requires
        call_ensures(SharedBRB::opmovetx_multi, (&state, ops), r),
    ensures
        r@.len() == ops@.len(),
        forall|i: int|
            0 <= i < r@.len() ==> says(
                #[trigger] r@[i],
                brb_view(state.brb).tree,
                i + 1,
                ops@[i].0,
                ops@[i].1@,
                ops@[i].2,
            ),
{
    assert forall|i: int| 0 <= i < r@.len() implies says(
        #[trigger] r@[i],
        brb_view(state.brb).tree,
        i + 1,
        ops@[i].0,
        ops@[i].1@,
        ops@[i].2,
    ) by {
        assert(r@[i]@.meta == r@[i].metadata@);
    }
}

/// A list of moves is given to the broadcast's tree one by one; an empty list changes nothing.
pub proof fn moves_are_given_one_by_one(brb: Brb, ops: Seq<MoveView>, op: MoveView)
    ensures
        after_ops(brb, Seq::empty()) == brb,
        after_ops(brb, ops.push(op)) == apply_outcome(after_ops(brb, ops), op),
{
    assert(ops.push(op).drop_last() =~= ops);
    assert(ops.push(op).last() == op);
}

/// What a list of moves says is what its moves say, move for move.
pub proof fn moves_say_what_they_hold(ops: Seq<MoveOp>)
    ensures
        move_views(ops) == Seq::new(
            ops.len(),
            |i: int|
                MoveView {
                    counter: ops[i].counter,
                    actor: actor_key(ops[i].actor),
                    parent: ops[i].parent_id,
                    meta: ops[i].metadata@,
                    child: ops[i].child_id,
                },
        ),
{
}

/// A transaction that is made is made on the tree, move after move, and nothing else that the
/// node knows changes.
pub proof fn transaction_is_made(state: &mut SharedBRB, op: Vec<MoveOp>)
    requires
        call_ensures(SharedBRB::apply_op, (state, op), ()),
    ensures
        final(state).brb == after_ops(old(state).brb, move_views(op@)),
        brb_view(final(state).brb) == (BrbView {
            tree: after_moves(brb_view(old(state).brb).tree, move_views(op@)),
            ..brb_view(old(state).brb)
        }),
{
}

/// What a node makes is what it then finds: a move that it draws up and makes is read back at
/// once, and all other nodes of the tree are found as before. The one exception is a move
/// that would put a node below itself.
pub proof fn made_move_is_found(
    state: &mut SharedBRB,
    parent: u64,
    meta: Vec<u8>,
    child: u64,
    op: MoveOp,
    ops: Vec<MoveOp>,
    id: u64,
    was: Option<TreeEntry>,
    is: Option<TreeEntry>,
)
    requires
        node_wf(old(state).brb),
        brb_view(old(state).brb).tree.time < u64::MAX,
        call_ensures(SharedBRB::opmove, (old(state), parent, meta, child), op),
        ops@ == seq![op],
        call_ensures(SharedBRB::find, (old(state), id), was),
        call_ensures(SharedBRB::apply_op, (state, ops), ()),
        call_ensures(SharedBRB::find, (final(state), id), is),
        !makes_cycle(nodes(brb_view(old(state).brb).tree), op@),
    ensures
        id == child ==> (is matches Some(entry) && entry.parent_id == parent && entry.metadata@
            == meta@),
        id != child ==> (is is Some == was is Some),
        id != child && was is Some ==> is->0.parent_id == was->0.parent_id && is->0.metadata@
            == was->0.metadata@,
{
    let tree = brb_view(old(state).brb).tree;
    own_move_is_read_back(tree, parent, meta@, child);
    assert(move_views(ops@) =~= seq![op@]);
    moves_are_made_one_by_one(tree, Seq::empty(), op@);
    assert(Seq::<MoveView>::empty().push(op@) =~= seq![op@]);
    if let Some(entry) = is {
        assert(entry@.meta == entry.metadata@);
    }
    if let Some(entry) = was {
        assert(entry@.meta == entry.metadata@);
    }
}

/// The ways of reading the tree agree: an id is among the children of a parent if and only if
/// it is found below that parent, and what is listed is what is found, each node once.
pub proof fn readings_agree(
    state: SharedBRB,
    parent: u64,
    id: u64,
    children: Vec<u64>,
    found: Option<TreeEntry>,
    rows: Vec<TreeRow>,
)
    requires
        call_ensures(SharedBRB::children, (&state, parent), children),
        call_ensures(SharedBRB::find, (&state, id), found),
        call_ensures(SharedBRB::read, (&state,), rows),
    ensures
        children@.contains(id) <==> (found matches Some(entry) && entry.parent_id == parent),
        children@.no_duplicates(),
        found is Some <==> exists|i: int| 0 <= i < rows@.len() && (#[trigger] rows@[i]).id == id,
        forall|i: int|
            0 <= i < rows@.len() && (#[trigger] rows@[i]).id == id ==> found is Some
                && found->0.parent_id == rows@[i].parent_id && found->0.metadata@
                == rows@[i].metadata@,
        forall|i: int, j: int|
            0 <= i < j < rows@.len() ==> (#[trigger] rows@[i]).id != (#[trigger] rows@[j]).id,
        found is Some <==> nodes(brb_view(state.brb).tree).contains_key(id),
        found matches Some(entry) ==> nodes(brb_view(state.brb).tree)[id] == (EntryView {
            parent: entry.parent_id,
            meta: entry.metadata@,
        }),
{
    let tree = nodes(brb_view(state.brb).tree);
    assert(children@.contains(id) == is_child(tree, parent, id));
    if let Some(entry) = found {
        assert(entry@.meta == entry.metadata@);
        assert(tree.contains_key(id));
    }
}

/// The clock that is shown is that of the node's replica, and the log is never cut.
pub proof fn clock_is_shown(state: SharedBRB, time: Time, cut: bool)
    requires
        call_ensures(SharedBRB::time, (&state,), time),
        call_ensures(SharedBRB::truncate_log, (&state,), cut),
    ensures
        time.counter == brb_view(state.brb).tree.time,
        actor_key(time.actor) == brb_view(state.brb).tree.actor,
        !cut,
{
}

/// The actor that is shown is the node's own.
pub proof fn own_actor_is_shown(state: SharedBRB, r: Actor)
    requires
        call_ensures(SharedBRB::actor, (&state,), r),
    ensures
        actor_key(r) == brb_view(state.brb).actor,
{
}

/// A transaction as it stands in the queue.
pub open spec fn queued(store: FsBrbTreeStore, i: int) -> Seq<MoveView> {
    move_views(store.pending_ops@[i]@)
}

/// A new store has nothing queued.
pub proof fn new_store_is_empty(r: FsBrbTreeStore)
    requires
        call_ensures(FsBrbTreeStore::new, (), r),
    ensures
        r.pending_ops@.len() == 0,
{
    assert(r@.len() == r.pending_ops@.len());
}

/// Moves made together are made on the node's tree at once and stand last in the queue, as
/// one transaction, whatever their number; what stood in the queue stands there as before.
pub proof fn moves_are_queued_together(
    store: &mut FsBrbTreeStore,
    state: &mut SharedBRB,
    ops: Vec<MoveOp>,
)
    requires
        call_ensures(FsBrbTreeStore::apply_ops, (store, state, ops), ()),
    ensures
        brb_view(final(state).brb) == (BrbView {
            tree: after_moves(brb_view(old(state).brb).tree, move_views(ops@)),
            ..brb_view(old(state).brb)
        }),
        final(store).pending_ops@.len() == old(store).pending_ops@.len() + 1,
        queued(*final(store), old(store).pending_ops@.len() as int) == move_views(ops@),
        forall|i: int|
            0 <= i < old(store).pending_ops@.len() ==> #[trigger] queued(*final(store), i)
                == queued(*old(store), i),
{
    lemma_queue_pushed(*old(store), *final(store), move_views(ops@));
}

proof fn lemma_queue_pushed(before: FsBrbTreeStore, after: FsBrbTreeStore, ops: Seq<MoveView>)
    requires
        after@ == before@.push(ops),
    ensures
        after.pending_ops@.len() == before.pending_ops@.len() + 1,
        queued(after, before.pending_ops@.len() as int) == ops,
        forall|i: int|
            0 <= i < before.pending_ops@.len() ==> #[trigger] queued(after, i) == queued(before, i),
{
    let n = before.pending_ops@.len() as int;
    assert(before@.len() == n);
    assert(after@.len() == after.pending_ops@.len());
    assert(after@[n] == queued(after, n));
    assert forall|i: int| 0 <= i < n implies #[trigger] queued(after, i) == queued(before, i) by {
        assert(after@[i] == queued(after, i));
        assert(before@[i] == queued(before, i));
    }
}

/// A move made alone is made and queued as a transaction of one move.
pub proof fn single_move_is_queued(store: &mut FsBrbTreeStore, state: &mut SharedBRB, op: MoveOp)
    requires
        call_ensures(FsBrbTreeStore::apply_op, (store, state, op), ()),
    ensures
        brb_view(final(state).brb) == (BrbView {
            tree: after_move(brb_view(old(state).brb).tree, op@),
            ..brb_view(old(state).brb)
        }),
        final(store).pending_ops@.len() == old(store).pending_ops@.len() + 1,
        queued(*final(store), old(store).pending_ops@.len() as int) == seq![op@],
        forall|i: int|
            0 <= i < old(store).pending_ops@.len() ==> #[trigger] queued(*final(store), i)
                == queued(*old(store), i),
{
    lemma_queue_pushed(*old(store), *final(store), seq![op@]);
    moves_are_made_one_by_one(brb_view(old(state).brb).tree, Seq::empty(), op@);
    assert(Seq::<MoveView>::empty().push(op@) =~= seq![op@]);
}

/// While a message of the node is in the air, and while nothing is queued, nothing happens.
/// Otherwise the oldest transaction, and it alone, leaves the queue and is handed to the
/// broadcast whole, and all packets of the broadcast are to be delivered: where the broadcast
/// accepts the transaction, there is one for every member but the node itself.
pub proof fn oldest_transaction_is_handed_on(
    store: &mut FsBrbTreeStore,
    state: &mut SharedBRB,
    r: Step,
)
    requires
        call_ensures(FsBrbTreeStore::exec_ops_when_ready, (store, state), r),
    ensures
        ({
            let before = old(state).brb;
            let in_air = brb_view(before).awaiting_proof > 0 || brb_view(before).awaiting_delivery
                > 0;
            let n = old(store).pending_ops@.len();
            &&& r is InFlight <==> in_air
            &&& r is Idle <==> !in_air && n == 0
            &&& r is Deliver <==> !in_air && n > 0
            &&& !(r is Deliver) ==> {
                &&& final(state).brb == before
                &&& final(store).pending_ops@.len() == n
                &&& forall|i: int|
                    0 <= i < n ==> #[trigger] queued(*final(store), i) == queued(*old(store), i)
            }
            &&& r matches Step::Deliver(packets) ==> {
                let outcome = exec_outcome(before, queued(*old(store), 0)).1;
                &&& final(state).brb == exec_outcome(before, queued(*old(store), 0)).0
                &&& all_given(outcome, packets@)
                &&& outcome is Some ==> forall|k: Seq<u8>| #[trigger]
                    is_member(before, k) && k != brb_view(before).actor ==> one_goes_to(
                        packets@,
                        k,
                    )
                &&& final(store).pending_ops@.len() == n - 1
                &&& forall|i: int|
                    0 <= i < n - 1 ==> #[trigger] queued(*final(store), i) == queued(
                        *old(store),
                        i + 1,
                    )
            }
        }),
{
    let before = old(state).brb;
    let n = old(store).pending_ops@.len() as int;
    assert(old(store)@.len() == n);
    assert(final(store)@.len() == final(store).pending_ops@.len());
    assert forall|i: int| 0 <= i < final(store).pending_ops@.len() implies #[trigger] queued(
        *final(store),
        i,
    ) == final(store)@[i] by {}
    assert forall|i: int| 0 <= i < n implies #[trigger] queued(*old(store), i) == old(
        store,
    )@[i] by {}
    if let Step::Deliver(packets) = r {
        assert(old(store)@[0] == queued(*old(store), 0));
        lemma_reaches_others(before, exec_outcome(before, queued(*old(store), 0)).1, packets@);
        assert forall|i: int| 0 <= i < n - 1 implies #[trigger] queued(*final(store), i) == queued(
            *old(store),
            i + 1,
        ) by {
            assert(final(store)@[i] == old(store)@[i + 1]);
            assert(old(store)@[i + 1] == queued(*old(store), i + 1));
        }
    }
}

/// What goes into an empty queue first comes out first: of two transactions, the one that was
/// made first is handed on first, and the other stays.
pub proof fn first_made_is_first_handed_on(
    made: &mut FsBrbTreeStore,
    before: &mut SharedBRB,
    ops: Vec<MoveOp>,
    again: &mut FsBrbTreeStore,
    between: &mut SharedBRB,
    later: Vec<MoveOp>,
    handing: &mut FsBrbTreeStore,
    after: &mut SharedBRB,
    packets: Vec<FsPacket>,
)
    requires
        old(made).pending_ops@.len() == 0,
        call_ensures(FsBrbTreeStore::apply_ops, (made, before, ops), ()),
        *old(again) == *final(made),
        *old(between) == *final(before),
        call_ensures(FsBrbTreeStore::apply_ops, (again, between, later), ()),
        *old(handing) == *final(again),
        *old(after) == *final(between),
        call_ensures(
            FsBrbTreeStore::exec_ops_when_ready,
            (handing, after),
            Step::Deliver(packets),
        ),
    ensures
        final(after).brb == exec_outcome(old(after).brb, move_views(ops@)).0,
        all_given(exec_outcome(old(after).brb, move_views(ops@)).1, packets@),
        final(handing).pending_ops@.len() == 1,
        queued(*final(handing), 0) == move_views(later@),
{
    moves_are_queued_together(made, before, ops);
    moves_are_queued_together(again, between, later);
    oldest_transaction_is_handed_on(handing, after, Step::Deliver(packets));
    assert(queued(*final(again), 0) == queued(*old(again), 0));
    assert(queued(*final(handing), 0) == queued(*old(handing), 0int + 1));
}

/// A copy of a list of moves says what the list says.
pub proof fn copy_says_the_same(ops: Vec<MoveOp>, r: Vec<MoveOp>, op: MoveOp, one: MoveOp)
    requires
        call_ensures(duplicate_all, (&ops,), r),
        call_ensures(MoveOp::duplicate, (&op,), one),
    ensures
        r@.len() == ops@.len(),
        forall|i: int|
            0 <= i < r@.len() ==> (#[trigger] r@[i]).counter == ops@[i].counter && actor_key(
                r@[i].actor,
            ) == actor_key(ops@[i].actor) && r@[i].parent_id == ops@[i].parent_id
                && r@[i].metadata@ == ops@[i].metadata@ && r@[i].child_id == ops@[i].child_id,
        one.counter == op.counter,
        actor_key(one.actor) == actor_key(op.actor),
        one.parent_id == op.parent_id,
        one.metadata@ == op.metadata@,
        one.child_id == op.child_id,
{
    assert(move_views(r@).len() == r@.len());
    assert(move_views(ops@).len() == ops@.len());
    assert forall|i: int| 0 <= i < r@.len() implies (#[trigger] r@[i]).counter == ops@[i].counter
        && actor_key(r@[i].actor) == actor_key(ops@[i].actor) && r@[i].parent_id
        == ops@[i].parent_id && r@[i].metadata@ == ops@[i].metadata@ && r@[i].child_id
        == ops@[i].child_id by {
        assert(move_views(r@)[i] == r@[i]@);
        assert(move_views(ops@)[i] == ops@[i]@);
    }
    assert(one@.meta == op@.meta);
}

/// A replica on its own starts empty, under its actor.
pub proof fn new_replica_is_blank(actor: Actor, r: FsBrbTreeReplicaStore)
    requires
        call_ensures(FsBrbTreeReplicaStore::new, (actor,), r),
    ensures
        fs_tree(r.0).actor == actor_key(actor),
        fs_tree(r.0).time == 0,
        forall|o: MoveView| !#[trigger] fs_tree(r.0).moves.contains(o),
        forall|id: u64| !#[trigger] nodes(fs_tree(r.0)).contains_key(id),
        tree_wf(fs_tree(r.0)),
{
}

/// What a replica on its own makes is what it then finds, and its clock moves on by one; the
/// one exception is a move that would put a node below itself.
pub proof fn replica_finds_what_it_makes(
    store: &mut FsBrbTreeReplicaStore,
    parent: u64,
    meta: Vec<u8>,
    child: u64,
    op: MoveOp,
    tree: TreeRef<'_>,
    found: Option<TreeEntry>,
    time: Time,
)
    requires
        tree_wf(fs_tree(old(store).0)),
        fs_tree(old(store).0).time < u64::MAX,
        call_ensures(FsBrbTreeReplicaStore::opmove, (old(store), parent, meta, child), op),
        call_ensures(FsBrbTreeReplicaStore::apply_op, (store, op), ()),
        call_ensures(FsBrbTreeReplicaStore::state, (final(store),), tree),
        call_ensures(TreeRef::find, (&tree, child), found),
        call_ensures(FsBrbTreeReplicaStore::time, (final(store),), time),
        !makes_cycle(nodes(fs_tree(old(store).0)), op@),
    ensures
        says(op, fs_tree(old(store).0), 1, parent, meta@, child),
        found matches Some(entry) && entry.parent_id == parent && entry.metadata@ == meta@,
        time.counter == fs_tree(old(store).0).time + 1,
        actor_key(time.actor) == fs_tree(old(store).0).actor,
{
    own_move_is_read_back(fs_tree(old(store).0), parent, meta@, child);
    assert(op@.meta == op.metadata@);
    assert(found->0@.meta == found->0.metadata@);
}

/// A replica on its own takes in every move, from whomever, and shows its tree as it is;
/// asked to cut its log it does nothing.
pub proof fn replica_takes_in_every_move(
    store: &mut FsBrbTreeReplicaStore,
    op: MoveOp,
    tree: TreeRef<'_>,
    kept: &mut FsBrbTreeReplicaStore,
    cut: bool,
)
    requires
        call_ensures(FsBrbTreeReplicaStore::apply_op, (store, op), ()),
        call_ensures(FsBrbTreeReplicaStore::state, (final(store),), tree),
        call_ensures(FsBrbTreeReplicaStore::truncate_log, (kept,), cut),
    ensures
        fs_tree(final(store).0) == after_move(fs_tree(old(store).0), op@),
        tree_ref(tree) == fs_tree(final(store).0),
        *final(kept) == *old(kept),
        !cut,
{
}

/// A reading of a tree finds and lists the same: an id is among the children of a parent if
/// and only if it is found below that parent.
pub proof fn tree_readings_agree(
    tree: TreeRef<'_>,
    parent: u64,
    id: u64,
    children: Vec<u64>,
    found: Option<TreeEntry>,
)
    requires
        call_ensures(TreeRef::children, (&tree, parent), children),
        call_ensures(TreeRef::find, (&tree, id), found),
    ensures
        children@.contains(id) <==> (found matches Some(entry) && entry.parent_id == parent),
        children@.no_duplicates(),
        found is Some <==> nodes(tree_ref(tree)).contains_key(id),
        found matches Some(entry) ==> nodes(tree_ref(tree))[id] == (EntryView {
            parent: entry.parent_id,
            meta: entry.metadata@,
        }),
{
    assert(children@.contains(id) == is_child(nodes(tree_ref(tree)), parent, id));
    if let Some(entry) = found {
        assert(entry@.meta == entry.metadata@);
    }
}

} // verus!
