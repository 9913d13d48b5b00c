//! What holds of a node, whatever commands its router is given.
use crate::actor::text_of_key;
use crate::agreement::{
    brb_view, dests, fresh, has_room_for, join_outcome, may_propose, packet_dest, packet_proof,
    voted_in, voted_out, voting, Brb, BrbView, FsPacket,
};
use crate::command::{ActionView, CmdView, MsgView};
use crate::roster::{addr_of, addr_of_known, matching, peer_keys, PeerView};
use crate::router::{
    complaint, deliveries, follows, introductions, resolved, sponsors, stepped, wire_addr,
    with_peer, RouterView,
};
use crate::shared::{
    join_requested, leave_requested, node_wf, ops_accepted, ops_applied, ops_executed,
    packet_handled, packets_of, peer_trusted, peer_untrusted, source_op_pending,
};
use crate::store::{ops_handed_on, ops_made};
use crate::tree::{
    after_moves, latest, makes_cycle, nodes, same_stamp, stamps_unique, EntryView, MoveView,
    TreeView,
};
use crate::tree_laws::{
    latest_move_comes_on_top, lists_of_moves_add_up, replica_stays_sound, replicas_agree,
};
use vstd::prelude::*;

verus! {

/// No two entries of the roster are for the same actor.
pub open spec fn roster_wf(r: RouterView) -> bool {
    peer_keys(r.peers).no_duplicates()
}

/// No known peer shows itself with the same text.
pub open spec fn text_is_new(r: RouterView, key: Seq<u8>) -> bool {
    forall|i: int|
        0 <= i < r.peers.len() ==> text_of_key((#[trigger] r.peers[i]).actor) != text_of_key(key)
}

/// No message goes to the outer address of the node itself.
pub open spec fn no_hairpin(r: RouterView, actions: Seq<ActionView>) -> bool {
    forall|i: int|
        0 <= i < actions.len() ==> match #[trigger] actions[i] {
            ActionView::Send(_, addr) => addr != r.addr || r.local_addr == r.addr,
            _ => true,
        }
}

/// The roster only grows: no command takes a peer out of it or changes the place of
/// one, and the node's own addresses stay.
pub proof fn roster_only_grows(
    r: RouterView,
    before: Brb,
    cmd: CmdView,
    r1: RouterView,
    after: Brb,
    actions: Seq<ActionView>,
)
    requires
        stepped(r, before, cmd, r1, after, actions),
    ensures
        r.peers.is_prefix_of(r1.peers),
        r1.peers.len() <= r.peers.len() + 1,
        r1.addr == r.addr,
        r1.local_addr == r.local_addr,
        r1.auto_join == r.auto_join,
{
    assert(r.peers.is_prefix_of(r.peers));
    if let CmdView::AddPeer(key, addr) = cmd {
        assert(r.peers.is_prefix_of(with_peer(r, key, addr).peers));
    }
}

/// The address of a known peer never changes.
pub proof fn first_address_stays(
    r: RouterView,
    before: Brb,
    cmd: CmdView,
    r1: RouterView,
    after: Brb,
    actions: Seq<ActionView>,
    key: Seq<u8>,
)
    requires
        stepped(r, before, cmd, r1, after, actions),
        addr_of(r.peers, key) is Some,
    ensures
        addr_of(r1.peers, key) == addr_of(r.peers, key),
{
    if let CmdView::AddPeer(k, a) = cmd {
        lemma_addr_of_push(r.peers, PeerView { actor: k, addr: a }, key);
    }
}

proof fn lemma_addr_of_push(peers: Seq<PeerView>, peer: PeerView, key: Seq<u8>)
    ensures
        addr_of(peers.push(peer), key) == (if addr_of(peers, key) is Some {
            addr_of(peers, key)
        } else if peer.actor == key {
            Some(peer.addr)
        } else {
            None
        }),
    decreases peers.len(),
{
    reveal_with_fuel(addr_of, 2);
    if peers.len() > 0 {
        lemma_addr_of_push(peers.drop_first(), peer, key);
        assert(peers.push(peer)[0] == peers[0]);
        assert(peers.push(peer).drop_first() =~= peers.drop_first().push(peer));
    }
}

/// No actor is ever noted down twice.
pub proof fn no_peer_twice(
    r: RouterView,
    before: Brb,
    cmd: CmdView,
    r1: RouterView,
    after: Brb,
    actions: Seq<ActionView>,
)
    requires
        stepped(r, before, cmd, r1, after, actions),
        roster_wf(r),
    ensures
        roster_wf(r1),
{
    if let CmdView::AddPeer(key, addr) = cmd {
        if addr_of(r.peers, key) is None {
            addr_of_known(r.peers, key);
            let old_keys = peer_keys(r.peers);
            assert(peer_keys(r1.peers) =~= old_keys.push(key));
            assert forall|i: int, j: int|
                0 <= i < old_keys.len() + 1 && 0 <= j < old_keys.len() + 1 && i
                    != j implies old_keys.push(key)[i] != old_keys.push(key)[j] by {
                if i < old_keys.len() {
                    assert(old_keys.contains(old_keys[i]));
                }
                if j < old_keys.len() {
                    assert(old_keys.contains(old_keys[j]));
                }
            }
        }
    }
}

/// A peer that has been added is known, and adding it again, under whatever address,
/// changes nothing and does nothing.
pub proof fn adding_twice_is_adding_once(
    r: RouterView,
    before: Brb,
    key: Seq<u8>,
    addr: Seq<char>,
    r1: RouterView,
    between: Brb,
    actions1: Seq<ActionView>,
    other_addr: Seq<char>,
    r2: RouterView,
    after: Brb,
    actions2: Seq<ActionView>,
)
    requires
        stepped(r, before, CmdView::AddPeer(key, addr), r1, between, actions1),
        stepped(r1, between, CmdView::AddPeer(key, other_addr), r2, after, actions2),
    ensures
        addr_of(r1.peers, key) is Some,
        r2 == r1,
        after == between,
        actions2.len() == 0,
{
    lemma_addr_of_push(r.peers, PeerView { actor: key, addr }, key);
}

/// The node reaches itself by its local address alone.
pub proof fn own_outer_address_is_not_used(
    r: RouterView,
    before: Brb,
    cmd: CmdView,
    r1: RouterView,
    after: Brb,
    actions: Seq<ActionView>,
)
    requires
        stepped(r, before, cmd, r1, after, actions),
    ensures
        no_hairpin(r, actions),
{
    if let CmdView::AddPeer(key, addr) = cmd {
        if addr_of(r.peers, key) is None {
            let n = r.peers.len() as int;
            let tail = actions.skip(n);
            assert(no_hairpin(r, introductions(r, addr)));
            assert(no_hairpin(r, tail));
            lemma_no_hairpin_joined(r, introductions(r, addr), tail);
            assert(actions =~= actions.take(n) + tail);
        }
    } else {
        match cmd {
            CmdView::AntiEntropy(id) => lemma_complaint_sends_nothing(r, id),
            CmdView::RequestJoin(id) => lemma_complaint_sends_nothing(r, id),
            CmdView::RequestLeave(id) => lemma_complaint_sends_nothing(r, id),
            CmdView::Trust(id) => lemma_complaint_sends_nothing(r, id),
            CmdView::Untrust(id) => lemma_complaint_sends_nothing(r, id),
            _ => {},
        }
    }
}

proof fn lemma_complaint_sends_nothing(r: RouterView, id: Seq<char>)
    ensures
        forall|i: int|
            0 <= i < complaint(r, id).len() ==> #[trigger] complaint(r, id)[i] is Print,
{
}

proof fn lemma_no_hairpin_joined(r: RouterView, a: Seq<ActionView>, b: Seq<ActionView>)
    requires
        no_hairpin(r, a),
        no_hairpin(r, b),
    ensures
        no_hairpin(r, a + b),
{
    assert forall|i: int| 0 <= i < (a + b).len() implies match #[trigger] (a + b)[i] {
        ActionView::Send(_, addr) => addr != r.addr || r.local_addr == r.addr,
        _ => true,
    } by {
        if i < a.len() {
            assert((a + b)[i] == a[i]);
        } else {
            assert((a + b)[i] == b[i - a.len()]);
        }
    }
}

/// Packets handed to the router give one action each, in their order.
pub proof fn one_action_for_each_packet(r: RouterView, packets: Seq<FsPacket>, i: int)
    requires
        0 <= i < packets.len(),
    ensures
        deliveries(r, packets).len() == packets.len(),
        deliveries(r, packets)[i] == (match addr_of(r.peers, packet_dest(packets[i])) {
            Some(addr) => ActionView::Send(MsgView::Packet(packets[i]), wire_addr(r, addr)),
            None => ActionView::Undeliverable(packets[i]),
        }),
{
}

/// Nothing ever waits to be acknowledged, so there is nothing to deliver once more.
pub proof fn nothing_to_retry(
    r: RouterView,
    before: Brb,
    cmd: CmdView,
    r1: RouterView,
    after: Brb,
    actions: Seq<ActionView>,
)
    requires
        stepped(r, before, cmd, r1, after, actions),
        r.unacked.len() == 0,
    ensures
        r1.unacked.len() == 0,
        cmd is Retry ==> actions.len() == 0,
{
}

/// A node keeps its identity and stays sound, whatever command it is given. Only a packet
/// can change the tree, and only trust, the loss of trust, a new peer or a packet can
/// change the voting group.
pub proof fn commands_keep_the_node_sound(
    r: RouterView,
    before: Brb,
    cmd: CmdView,
    r1: RouterView,
    after: Brb,
    actions: Seq<ActionView>,
)
    requires
        stepped(r, before, cmd, r1, after, actions),
    ensures
        brb_view(after).actor == brb_view(before).actor,
        node_wf(before) ==> node_wf(after),
        !(cmd is Apply) ==> brb_view(after).tree == brb_view(before).tree,
        !(cmd is Apply || cmd is Trust || cmd is Untrust || cmd is AddPeer) ==> brb_view(
            after,
        ).members == brb_view(before).members,
        !(cmd is Apply) ==> brb_view(after).generation == brb_view(before).generation,
{
    if let CmdView::Apply(packet) = cmd {
        if node_wf(before) && brb_view(after).tree != brb_view(before).tree {
            replica_stays_sound(brb_view(before).tree, packet_proof(packet)->0);
        }
    }
}

/// A transaction that a node makes on its own tree keeps the node sound.
pub proof fn own_changes_keep_the_node_sound(before: Brb, ops: Seq<MoveView>, after: Brb)
    requires
        node_wf(before),
        ops_applied(before, ops, after),
    ensures
        node_wf(after),
{
    replica_stays_sound(brb_view(before).tree, ops);
}

/// A change on which the group has agreed appears, as a whole, on every node that accepts the
/// proof: of each of its moves the node holds the move, or one that took the same stamp
/// before, and it shows the tree that its moves give. Where the last move is later than all
/// others, its child is found below the new parent, with the new metadata, unless that
/// would put the child below itself.
pub proof fn agreed_change_appears(
    before: Brb,
    packet: FsPacket,
    after: Brb,
    packets: Seq<FsPacket>,
)
    requires
        node_wf(before),
        packet_handled(before, packet, after, packets),
        ops_accepted(before, packet),
    ensures
        ({
            let ops = packet_proof(packet)->0;
            let tree = brb_view(after).tree;
            &&& node_wf(after)
            &&& brb_view(before).tree.moves.subset_of(tree.moves)
            &&& forall|i: int|
                0 <= i < ops.len() ==> stamp_taken(tree.moves, #[trigger] ops[i])
            &&& ops.len() > 0 ==> {
                let between = after_moves(brb_view(before).tree, ops.drop_last());
                latest(between.moves, ops.last()) && !makes_cycle(nodes(between), ops.last()) ==> {
                    &&& nodes(tree).contains_key(ops.last().child)
                    &&& nodes(tree)[ops.last().child] == (EntryView {
                        parent: ops.last().parent,
                        meta: ops.last().meta,
                    })
                }
            }
        }),
{
    let ops = packet_proof(packet)->0;
    let tree = brb_view(before).tree;
    replica_stays_sound(tree, ops);
    lemma_stamps_are_taken(tree, ops);
    if ops.len() > 0 {
        let between = after_moves(tree, ops.drop_last());
        replica_stays_sound(tree, ops.drop_last());
        if latest(between.moves, ops.last()) {
            latest_move_comes_on_top(between, ops.last());
        }
    }
}

/// A move with this stamp is among the moves.
pub open spec fn stamp_taken(moves: Set<MoveView>, op: MoveView) -> bool {
    exists|o: MoveView| #[trigger] moves.contains(o) && same_stamp(o, op)
}

proof fn lemma_stamps_are_taken(tree: TreeView, ops: Seq<MoveView>)
    ensures
        tree.moves.subset_of(after_moves(tree, ops).moves),
        forall|i: int|
            0 <= i < ops.len() ==> stamp_taken(after_moves(tree, ops).moves, #[trigger] ops[i]),
    decreases ops.len(),
{
    if ops.len() > 0 {
        let first = ops.drop_last();
        let between = after_moves(tree, first);
        let after = after_moves(tree, ops);
        lemma_stamps_are_taken(tree, first);
        assert(between.moves.subset_of(after.moves));
        assert forall|i: int| 0 <= i < ops.len() implies stamp_taken(
            after.moves,
            #[trigger] ops[i],
        ) by {
            if i < first.len() {
                assert(first[i] == ops[i]);
                assert(stamp_taken(between.moves, first[i]));
                let o = choose|o: MoveView| #[trigger]
                    between.moves.contains(o) && same_stamp(o, ops[i]);
                assert(after.moves.contains(o));
            } else if stamp_taken(between.moves, ops.last()) {
                let o = choose|o: MoveView| #[trigger]
                    between.moves.contains(o) && same_stamp(o, ops.last());
                assert(after.moves.contains(o));
            } else {
                assert(after.moves.contains(ops.last()) && same_stamp(ops.last(), ops.last()));
            }
        }
    }
}

/// The ways in which a node takes in a transaction: it makes the moves on its own tree, it
/// accepts a proof that the group has agreed on them, or the group agrees as soon as the
/// node hands them to the broadcast. Whatever else a node does leaves the tree alone, and
/// takes in no moves.
pub open spec fn takes_in(before: Brb, ops: Seq<MoveView>, after: Brb) -> bool {
    ||| ops_applied(before, ops, after)
    ||| exists|packet: FsPacket, packets: Seq<FsPacket>| #[trigger]
        packet_handled(before, packet, after, packets) && ops_accepted(before, packet)
            && packet_proof(packet)->0 == ops
    ||| exists|packets: Seq<FsPacket>| #[trigger]
        ops_executed(before, ops, after, packets) && brb_view(after).tree == after_moves(
            brb_view(before).tree,
            ops,
        )
    ||| ops.len() == 0 && brb_view(after).tree == brb_view(before).tree
}

/// The states through which a node goes, and for each step between two of them the moves that
/// the node takes in.
pub open spec fn is_history(states: Seq<Brb>, steps: Seq<Seq<MoveView>>) -> bool {
    &&& states.len() == steps.len() + 1
    &&& forall|i: int|
        0 <= i < steps.len() ==> takes_in(states[i], #[trigger] steps[i], states[i + 1])
}

/// The moves that a node holds at first, and those that it takes in on the way.
pub open spec fn all_taken(states: Seq<Brb>, steps: Seq<Seq<MoveView>>) -> Set<MoveView> {
    brb_view(states[0]).tree.moves.union(steps.flatten().to_set())
}

/// Two nodes that have taken in the same moves show the same tree, whichever of the moves
/// each of them made itself, and in whatever order the others reached it.
pub proof fn nodes_agree(
    states_a: Seq<Brb>,
    steps_a: Seq<Seq<MoveView>>,
    states_b: Seq<Brb>,
    steps_b: Seq<Seq<MoveView>>,
)
    requires
        is_history(states_a, steps_a),
        is_history(states_b, steps_b),
        all_taken(states_a, steps_a) == all_taken(states_b, steps_b),
        stamps_unique(all_taken(states_a, steps_a)),
    ensures
        nodes(brb_view(states_a.last()).tree) == nodes(brb_view(states_b.last()).tree),
{
    lemma_history_adds_up(states_a, steps_a);
    lemma_history_adds_up(states_b, steps_b);
    replicas_agree(
        brb_view(states_a[0]).tree,
        steps_a.flatten(),
        brb_view(states_b[0]).tree,
        steps_b.flatten(),
    );
}

proof fn lemma_history_adds_up(states: Seq<Brb>, steps: Seq<Seq<MoveView>>)
    requires
        is_history(states, steps),
    ensures
        brb_view(states.last()).tree == after_moves(brb_view(states[0]).tree, steps.flatten()),
    decreases steps.len(),
{
    if steps.len() > 0 {
        let n = steps.len() - 1;
        let states1 = states.drop_last();
        let steps1 = steps.drop_last();
        assert forall|i: int| 0 <= i < steps1.len() implies takes_in(
            states1[i],
            #[trigger] steps1[i],
            states1[i + 1],
        ) by {
            assert(steps1[i] == steps[i]);
        }
        lemma_history_adds_up(states1, steps1);
        assert(steps =~= steps1.push(steps[n]));
        lemma_flatten_push(steps1, steps[n]);
        let start = brb_view(states[0]).tree;
        lists_of_moves_add_up(start, steps1.flatten(), steps[n]);
        assert(takes_in(states[n], steps[n], states[n + 1]));
    }
}

proof fn lemma_flatten_push(steps: Seq<Seq<MoveView>>, ops: Seq<MoveView>)
    ensures
        steps.push(ops).flatten() == steps.flatten() + ops,
    decreases steps.len(),
{
    reveal_with_fuel(Seq::<_>::flatten, 2);
    if steps.len() == 0 {
        assert(steps.push(ops).drop_first() =~= Seq::<Seq<MoveView>>::empty());
        assert(steps.push(ops).flatten() =~= steps.flatten() + ops);
    } else {
        lemma_flatten_push(steps.drop_first(), ops);
        assert(steps.push(ops).drop_first() =~= steps.drop_first().push(ops));
        assert(steps.push(ops).flatten() =~= steps.flatten() + ops);
    }
}

/// A node that founds a group: it notes itself down, trusts itself, and is then the one
/// member of its group. Nothing is sent and nothing is printed.
pub proof fn genesis_founds_a_group_of_one(
    r: RouterView,
    before: Brb,
    addr: Seq<char>,
    r1: RouterView,
    between: Brb,
    actions1: Seq<ActionView>,
    r2: RouterView,
    after: Brb,
    actions2: Seq<ActionView>,
)
    requires
        fresh(before),
        r.peers.len() == 0,
        stepped(r, before, CmdView::AddPeer(brb_view(before).actor, addr), r1, between, actions1),
        stepped(r1, between, CmdView::Trust("me"@), r2, after, actions2),
    ensures
        voting(after) == set![brb_view(before).actor],
        r2.peers == seq![PeerView { actor: brb_view(before).actor, addr }],
        actions1.len() == 0,
        actions2.len() == 0,
{
    let me = brb_view(before).actor;
    assert(addr_of(r.peers, me) is None);
    assert(actions1.skip(0) =~= actions1);
    assert(between == before);
    assert forall|k: Seq<u8>| voting(after).contains(k) == set![me].contains(k) by {
        if k != me {
            assert(voting(after).contains(k) == voting(between).contains(k));
        }
    }
    assert(voting(after) =~= set![me]);
    assert(r2.peers =~= seq![PeerView { actor: me, addr }]);
}

/// The text of a new peer means that peer, where no other peer shows itself so.
pub proof fn new_peer_is_meant(r: RouterView, key: Seq<u8>, addr: Seq<char>, me: Seq<u8>)
    requires
        text_is_new(r, key),
    ensures
        resolved(with_peer(r, key, addr), me, text_of_key(key)) == Some(key),
        complaint(with_peer(r, key, addr), text_of_key(key)).len() == 0,
{
    reveal_strlit("me");
    let id = text_of_key(key);
    let pred = |k: Seq<u8>| id.is_prefix_of(text_of_key(k));
    let old_keys = peer_keys(r.peers);
    let new_peers = with_peer(r, key, addr).peers;
    assert(peer_keys(new_peers) =~= old_keys.push(key));
    assert forall|i: int| 0 <= i < old_keys.len() implies !pred(#[trigger] old_keys[i]) by {
        assert(text_of_key(r.peers[i].actor) != id);
        lemma_same_length_prefix(id, text_of_key(old_keys[i]));
    }
    old_keys.lemma_all_neg_filter_empty(pred);
    lemma_same_length_prefix(id, id);
    assert(pred(key));
    old_keys.lemma_filter_push(key, pred);
    assert(matching(new_peers, id) =~= seq![key]);
    assert(id.len() != "me"@.len());
}

proof fn lemma_same_length_prefix(a: Seq<char>, b: Seq<char>)
    requires
        a.len() == b.len(),
    ensures
        a.is_prefix_of(b) == (a == b),
{
    assert(b.subrange(0, a.len() as int) =~= b);
}

/// A node without a group that meets a new peer trusts that peer, and asks it two seconds
/// later for what it has not seen. The peer is then the one member of its group, unless
/// the votes of the current generation took the peer out.
pub proof fn client_follows_its_peer(
    r: RouterView,
    before: Brb,
    key: Seq<u8>,
    addr: Seq<char>,
    r1: RouterView,
    after: Brb,
    actions: Seq<ActionView>,
)
    requires
        stepped(r, before, CmdView::AddPeer(key, addr), r1, after, actions),
        addr_of(r.peers, key) is None,
        follows(r, before, key),
    ensures
        peer_trusted(before, key, after),
        brb_view(before).members is Some && !voted_out(before, key) ==> voting(after) == set![key],
        brb_view(before).generation == 0 ==> voting(after) == set![key],
        actions == introductions(r, addr) + seq![
            ActionView::Wait(2),
            ActionView::Then(CmdView::CatchUp(key)),
        ],
{
    let n = r.peers.len() as int;
    assert(actions =~= actions.take(n) + actions.skip(n));
    if brb_view(before).members is Some && !voted_out(before, key) {
        trust_adds_the_peer(before, key, after);
        assert(voting(after) =~= set![key]);
    }
}

/// A node that votes sponsors a new peer that does not: it proposes the peer to its group.
/// Every packet of the proposal goes to a member, and the group stays as it is until
/// it has voted. Where no vote is under way and the group has room, the proposal does
/// go out, to every member.
pub proof fn member_sponsors_a_new_peer(
    r: RouterView,
    before: Brb,
    key: Seq<u8>,
    addr: Seq<char>,
    r1: RouterView,
    after: Brb,
    actions: Seq<ActionView>,
)
    requires
        stepped(r, before, CmdView::AddPeer(key, addr), r1, after, actions),
        addr_of(r.peers, key) is None,
        sponsors(r, before, key),
    ensures
        ({
            let packets = packets_of(join_outcome(before, key).1);
            &&& join_requested(before, key, after, packets)
            &&& actions == introductions(r, addr) + deliveries(r1, packets)
            &&& forall|i: int|
                0 <= i < packets.len() ==> voting(before).contains(
                    packet_dest(#[trigger] packets[i]),
                )
            &&& may_propose(before) && has_room_for(before, key) ==> dests(packets).to_set()
                == voting(before)
        }),
        voting(after) == voting(before),
{
    let n = r.peers.len() as int;
    assert(actions =~= actions.take(n) + actions.skip(n));
    lemma_goes_to_members(before, join_outcome(before, key).1);
}

proof fn lemma_goes_to_members(brb: Brb, outcome: Option<Seq<FsPacket>>)
    requires
        outcome is Some ==> dests(outcome->0).to_set() == voting(brb),
    ensures
        forall|i: int|
            0 <= i < packets_of(outcome).len() ==> voting(brb).contains(
                packet_dest(#[trigger] packets_of(outcome)[i]),
            ),
{
    assert forall|i: int| 0 <= i < packets_of(outcome).len() implies voting(brb).contains(
        packet_dest(#[trigger] packets_of(outcome)[i]),
    ) by {
        assert(dests(outcome->0)[i] == packet_dest(outcome->0[i]));
        assert(dests(outcome->0).to_set().contains(dests(outcome->0)[i]));
    }
}

/// A node that neither votes nor is free to follow, and a node that meets a member,
/// leaves the group alone.
pub proof fn others_leave_the_group_alone(
    r: RouterView,
    before: Brb,
    key: Seq<u8>,
    addr: Seq<char>,
    r1: RouterView,
    after: Brb,
    actions: Seq<ActionView>,
)
    requires
        stepped(r, before, CmdView::AddPeer(key, addr), r1, after, actions),
        addr_of(r.peers, key) is None,
        !sponsors(r, before, key),
        !follows(r, before, key),
    ensures
        after == before,
        actions == introductions(r, addr),
{
    let n = r.peers.len() as int;
    assert(actions =~= actions.take(n) + actions.skip(n));
}

/// A node that does not vote cannot change the group by a proposal: nothing is sent.
pub proof fn only_members_propose(before: Brb, key: Seq<u8>, after: Brb, packets: Seq<FsPacket>)
    requires
        !voting(before).contains(brb_view(before).actor),
        join_requested(before, key, after, packets) || leave_requested(
            before,
            key,
            after,
            packets,
        ),
    ensures
        packets.len() == 0,
{
}

/// Trusting an actor adds it to the members, and changes nothing else that the node knows.
/// The one exception is an actor that the votes of the current generation took out: it
/// stays out.
pub proof fn trust_adds_the_peer(before: Brb, key: Seq<u8>, after: Brb)
    requires
        peer_trusted(before, key, after),
        brb_view(before).members is Some,
    ensures
        voting(after) == (if voted_out(before, key) {
            voting(before)
        } else {
            voting(before).insert(key)
        }),
        brb_view(after) == (BrbView { members: Some(voting(after)), ..brb_view(before) }),
{
    if voted_out(before, key) {
        assert(voting(after) =~= voting(before));
    } else {
        assert(voting(after) =~= voting(before).insert(key));
    }
}

/// Trusting an actor no longer removes it from the members, and changes nothing else that
/// the node knows. The one exception is an actor that the votes of the current generation
/// took in: it stays.
pub proof fn untrust_removes_the_peer(before: Brb, key: Seq<u8>, after: Brb)
    requires
        peer_untrusted(before, key, after),
        brb_view(before).members is Some,
    ensures
        voting(after) == (if voted_in(before, key) {
            voting(before)
        } else {
            voting(before).remove(key)
        }),
        brb_view(after) == (BrbView { members: Some(voting(after)), ..brb_view(before) }),
{
    if voted_in(before, key) {
        assert(voting(after) =~= voting(before));
    } else {
        assert(voting(after) =~= voting(before).remove(key));
    }
}

/// In the first generation no votes stand against trust: an actor that is trusted is a
/// member, one that is no longer trusted is none, and both leave the node in its first
/// generation. A new node is in its first generation.
pub proof fn first_generation_goes_by_trust(before: Brb, key: Seq<u8>, after: Brb)
    requires
        brb_view(before).generation == 0,
        peer_trusted(before, key, after) || peer_untrusted(before, key, after),
    ensures
        peer_trusted(before, key, after) ==> voting(after) == voting(before).insert(key),
        peer_untrusted(before, key, after) ==> voting(after) == voting(before).remove(key),
        brb_view(after).generation == 0,
        brb_view(after).actor == brb_view(before).actor,
        brb_view(after).tree == brb_view(before).tree,
        forall|brb: Brb| #[trigger] fresh(brb) ==> brb_view(brb).generation == 0,
{
    if peer_trusted(before, key, after) {
        trust_adds_the_peer(before, key, after);
    }
    if peer_untrusted(before, key, after) {
        untrust_removes_the_peer(before, key, after);
    }
}

/// Trusting an actor a second time changes nothing that the node knows.
pub proof fn trusting_twice_is_trusting_once(before: Brb, key: Seq<u8>, between: Brb, after: Brb)
    requires
        peer_trusted(before, key, between),
        peer_trusted(between, key, after),
    ensures
        brb_view(after) == brb_view(between),
{
    if brb_view(before).members is Some {
        trust_adds_the_peer(before, key, between);
        trust_adds_the_peer(between, key, after);
        assert(voting(after) =~= voting(between));
    }
}

/// In the first generation trust is taken back without a trace: an actor that is trusted
/// and then no longer trusted is no member, and the others are as they were. Where the
/// actor was no member before, the group is as it was.
pub proof fn untrust_undoes_trust(before: Brb, key: Seq<u8>, between: Brb, after: Brb)
    requires
        brb_view(before).generation == 0,
        peer_trusted(before, key, between),
        peer_untrusted(between, key, after),
    ensures
        voting(after) == voting(before).remove(key),
        !voting(before).contains(key) ==> brb_view(after) == brb_view(before),
{
    trust_adds_the_peer(before, key, between);
    untrust_removes_the_peer(between, key, after);
    assert(voting(after) =~= voting(before).remove(key));
    if !voting(before).contains(key) {
        assert(voting(after) =~= voting(before));
    }
}

/// A text that means an actor is `me`, or the start of the text of a known peer and
/// of no other entry of the roster.
pub proof fn resolved_actor_is_known(r: RouterView, me: Seq<u8>, id: Seq<char>)
    requires
        resolved(r, me, id) is Some,
        id != "me"@,
    ensures
        ({
            let key = resolved(r, me, id)->0;
            &&& peer_keys(r.peers).contains(key)
            &&& id.is_prefix_of(text_of_key(key))
        }),
{
    let pred = |k: Seq<u8>| id.is_prefix_of(text_of_key(k));
    let all = peer_keys(r.peers);
    all.lemma_filter_contains_rev(pred, matching(r.peers, id)[0]);
    all.lemma_filter_pred(pred, 0);
}

/// What has been handed to the broadcast, followed by what is queued, is what was made
/// on the node's tree: the same transactions, in the order in which they were made.
pub open spec fn accounted(
    handed: Seq<Seq<MoveView>>,
    queue: Seq<Seq<MoveView>>,
    made: Seq<Seq<MoveView>>,
) -> bool {
    handed + queue == made
}

/// No transaction is lost, doubled, torn or overtaken on its way into the queue.
pub proof fn made_changes_are_accounted_for(
    handed: Seq<Seq<MoveView>>,
    made: Seq<Seq<MoveView>>,
    queue: Seq<Seq<MoveView>>,
    before: Brb,
    ops: Seq<MoveView>,
    queue1: Seq<Seq<MoveView>>,
    after: Brb,
)
    requires
        accounted(handed, queue, made),
        ops_made(queue, before, ops, queue1, after),
    ensures
        accounted(handed, queue1, made.push(ops)),
{
    assert(handed + queue1 =~= made.push(ops));
}

/// No transaction is lost, doubled, torn or overtaken on its way from the queue to the
/// broadcast, and none sets out while another message of the node is in the air.
pub proof fn handed_changes_are_accounted_for(
    handed: Seq<Seq<MoveView>>,
    made: Seq<Seq<MoveView>>,
    queue: Seq<Seq<MoveView>>,
    before: Brb,
    queue1: Seq<Seq<MoveView>>,
    after: Brb,
    packets: Seq<FsPacket>,
)
    requires
        accounted(handed, queue, made),
        ops_handed_on(queue, before, queue1, after, packets),
    ensures
        accounted(handed.push(queue[0]), queue1, made),
        handed.len() < made.len(),
        queue[0] == made[handed.len() as int],
        !source_op_pending(before),
{
    assert(handed.push(queue[0]) + queue1 =~= handed + queue);
    assert((handed + queue)[handed.len() as int] == queue[0]);
}

/// Handing a transaction on leaves the voting group as it is, sends nothing to the node
/// itself, and keeps the node sound.
pub proof fn handing_on_keeps_the_group(
    before: Brb,
    ops: Seq<MoveView>,
    after: Brb,
    packets: Seq<FsPacket>,
)
    requires
        ops_executed(before, ops, after, packets),
    ensures
        voting(after) == voting(before),
        brb_view(after).actor == brb_view(before).actor,
        node_wf(before) ==> node_wf(after),
        forall|i: int|
            0 <= i < packets.len() ==> packet_dest(#[trigger] packets[i]) != brb_view(before).actor,
{
    if node_wf(before) && brb_view(after).tree != brb_view(before).tree {
        replica_stays_sound(brb_view(before).tree, ops);
    }
    assert forall|i: int| 0 <= i < packets.len() implies packet_dest(#[trigger] packets[i])
        != brb_view(before).actor by {
        assert(dests(packets)[i] == packet_dest(packets[i]));
    }
}

} // verus!
