//! How the nodes agree: the Byzantine reliable broadcast that a node runs, and the
//! packets that it hands out and takes in.
//!
//! The nodes agree on transactions, lists of moves of the tree. The broadcast checks them
//! and makes them by `validate` and `apply` of [`FsTree`].
use crate::actor::{actor_key, ascending, keys};
use crate::tree::{
    after_move, after_moves, move_views, tree_ref, FsTree, MoveOp, MoveView, PlainMove, TreeRef,
    TreeView,
};
use brb::membership::actor::ed25519::{Actor, Sig, SigningActor};
use brb::{BRBDataType, DeterministicBRB};
use crdt_tree::{Clock, OpMove};
use vstd::multiset::Multiset;
use vstd::prelude::*;

verus! {

/// The broadcast over the tree of the filesystem. Verus refuses a declaration of the
/// outside type, whose parameters are bound by traits of `brb`; so the value is held here.
#[verifier::external_body]
pub struct Brb {
    inner: DeterministicBRB<Actor, SigningActor, Sig, FsTree>,
}

/// A packet of the broadcast. Verus refuses a declaration of the outside type for the
/// same reason; so the value is held here.
#[verifier::external_body]
#[derive(Debug)]
pub struct FsPacket {
    pub inner: brb::Packet<Actor, Sig, Vec<PlainMove>>,
}

/// What a node knows of the broadcast: who it is, the generation of the voting group, what
/// the votes of that generation decided, its members and the votes on the next generation
/// that are in, how many of its messages wait for a proof of agreement and how many for
/// confirmation of delivery, and its replica of the tree.
///
/// The generation counts, from zero, the times that the group has agreed on a change.
/// `decided` holds the actors on whom the votes of the current generation decided: `true`
/// for one that they took in, `false` for one that they took out. `members` is `None` where
/// the history of votes does not give the members.
pub struct BrbView {
    pub actor: Seq<u8>,
    pub generation: u64,
    pub decided: Map<Seq<u8>, bool>,
    pub members: Option<Set<Seq<u8>>>,
    pub open_votes: nat,
    pub awaiting_proof: nat,
    pub awaiting_delivery: nat,
    pub tree: TreeView,
}

/// What the broadcast holds.
pub uninterp spec fn brb_view(brb: Brb) -> BrbView;

/// The key of the actor to which a packet goes.
pub uninterp spec fn packet_dest(packet: FsPacket) -> Seq<u8>;

/// The transaction on which a packet proves that the group has agreed, if it holds such a
/// proof.
pub uninterp spec fn packet_proof(packet: FsPacket) -> Option<Seq<MoveView>>;

/// The broadcast after `DeterministicBRB::force_join` with an actor of this key.
pub uninterp spec fn force_join_outcome(brb: Brb, key: Seq<u8>) -> Brb;

/// The broadcast after `DeterministicBRB::force_leave` with an actor of this key.
pub uninterp spec fn force_leave_outcome(brb: Brb, key: Seq<u8>) -> Brb;

/// What `DeterministicBRB::request_membership` leaves and returns; `None` stands for its error.
pub uninterp spec fn join_outcome(brb: Brb, key: Seq<u8>) -> (Brb, Option<Seq<FsPacket>>);

/// What `DeterministicBRB::kill_peer` leaves and returns; `None` stands for its error.
pub uninterp spec fn leave_outcome(brb: Brb, key: Seq<u8>) -> (Brb, Option<Seq<FsPacket>>);

/// What `DeterministicBRB::anti_entropy` returns; `None` stands for its error.
pub uninterp spec fn sync_outcome(brb: Brb, key: Seq<u8>) -> Option<FsPacket>;

/// What `DeterministicBRB::exec_op` leaves and returns; `None` stands for its error.
pub uninterp spec fn exec_outcome(brb: Brb, ops: Seq<MoveView>) -> (Brb, Option<Seq<FsPacket>>);

/// What `DeterministicBRB::handle_packet` leaves and returns; `None` stands for its error.
pub uninterp spec fn handle_outcome(brb: Brb, packet: FsPacket) -> (Brb, Option<Seq<FsPacket>>);

/// The packets that `DeterministicBRB::resend_pending_msgs` returns, in no order;
/// `None` stands for its error.
pub uninterp spec fn resend_outcome(brb: Brb) -> Option<Multiset<FsPacket>>;

/// The broadcast after `BRBTree::apply` on its tree.
pub uninterp spec fn apply_outcome(brb: Brb, op: MoveView) -> Brb;

/// The keys to which a list of packets goes.
pub open spec fn dests(packets: Seq<FsPacket>) -> Seq<Seq<u8>> {
    packets.map_values(|p: FsPacket| packet_dest(p))
}

/// The members of the voting group, as far as they are known.
pub open spec fn voting(brb: Brb) -> Set<Seq<u8>> {
    match brb_view(brb).members {
        Some(members) => members,
        None => Set::empty(),
    }
}

/// A broadcast that has just been made: the group has no members yet, nothing
/// waits, and the tree is the empty replica of the node's own actor.
pub open spec fn fresh(brb: Brb) -> bool {
    brb_view(brb) == (BrbView {
        actor: brb_view(brb).actor,
        generation: 0,
        decided: Map::empty(),
        members: Some(Set::empty()),
        open_votes: 0,
        awaiting_proof: 0,
        awaiting_delivery: 0,
        tree: TreeView { actor: brb_view(brb).actor, time: 0, moves: Set::empty() },
    })
}

/// A list of members, in ascending order, or `None` where they are not known.
pub open spec fn lists_members(list: Option<Seq<Actor>>, brb: Brb) -> bool {
    match list {
        Some(actors) => {
            &&& ascending(keys(actors))
            &&& brb_view(brb).members == Some(keys(actors).to_set())
        },
        None => brb_view(brb).members is None,
    }
}

/// The votes of the current generation took the actor into the group.
pub open spec fn voted_in(brb: Brb, key: Seq<u8>) -> bool {
    brb_view(brb).decided.contains_key(key) && brb_view(brb).decided[key]
}

/// The votes of the current generation took the actor out of the group.
pub open spec fn voted_out(brb: Brb, key: Seq<u8>) -> bool {
    brb_view(brb).decided.contains_key(key) && !brb_view(brb).decided[key]
}

/// What changes where one actor is forced into the group or out of it: the members
/// alone, and of these no other actor. In the first generation there are no votes, and
/// the members are always known.
pub open spec fn only_member_changed(before: Brb, key: Seq<u8>, after: Brb) -> bool {
    &&& brb_view(after) == (BrbView { members: brb_view(after).members, ..brb_view(before) })
    &&& brb_view(after).members is Some == brb_view(before).members is Some
    &&& brb_view(before).generation == 0 ==> brb_view(before).members is Some
        && brb_view(before).decided == Map::<Seq<u8>, bool>::empty()
    &&& forall|k: Seq<u8>|
        k != key ==> #[trigger] voting(after).contains(k) == voting(before).contains(k)
}

/// Forcing an actor in. Nobody leaves, and the actor is a member from now on, unless the
/// votes of the current generation took it out.
pub open spec fn forced_in(before: Brb, key: Seq<u8>, after: Brb) -> bool {
    &&& only_member_changed(before, key, after)
    &&& voting(before).contains(key) ==> voting(after).contains(key)
    &&& brb_view(after).members is Some ==> voting(after).contains(key) == !voted_out(before, key)
}

/// Forcing an actor out. Nobody joins, and the actor is no member from now on, unless the
/// votes of the current generation took it in.
pub open spec fn forced_out(before: Brb, key: Seq<u8>, after: Brb) -> bool {
    &&& only_member_changed(before, key, after)
    &&& !voting(before).contains(key) ==> !voting(after).contains(key)
    &&& brb_view(after).members is Some ==> voting(after).contains(key) == voted_in(before, key)
}

/// A proposal to change the group changes nothing that [`BrbView`] shows but the votes that
/// are in. It is made by a member alone, and goes to every member.
pub open spec fn proposed(before: Brb, after: Brb, packets: Option<Seq<FsPacket>>) -> bool {
    &&& brb_view(after) == (BrbView { open_votes: brb_view(after).open_votes, ..brb_view(before) })
    &&& packets is Some ==> {
        &&& voting(before).contains(brb_view(before).actor)
        &&& ascending(dests(packets->0))
        &&& dests(packets->0).to_set() == voting(before)
        &&& brb_view(after).open_votes > 0
    }
}

/// The node votes, and no vote is under way.
pub open spec fn may_propose(brb: Brb) -> bool {
    voting(brb).contains(brb_view(brb).actor) && brb_view(brb).open_votes == 0
}

/// The group can take in an actor: it is no member yet, and there are fewer than seven.
pub open spec fn has_room_for(brb: Brb, key: Seq<u8>) -> bool {
    !voting(brb).contains(key) && voting(brb).len() < 7
}

/// A message of the broadcast touches neither the identity nor, in the tree, more than
/// the transaction at hand, which is made whole or not at all.
pub open spec fn tree_changed_by(before: Brb, ops: Option<Seq<MoveView>>, after: Brb) -> bool {
    &&& brb_view(after).actor == brb_view(before).actor
    &&& brb_view(after).tree == brb_view(before).tree || (ops is Some && brb_view(after).tree
        == after_moves(brb_view(before).tree, ops->0))
}

/// A transaction handed to the broadcast leaves the group as it is. None of the packets goes
/// to the node itself, and every other member is sent one.
pub open spec fn executed(
    before: Brb,
    ops: Seq<MoveView>,
    after: Brb,
    packets: Option<Seq<FsPacket>>,
) -> bool {
    &&& tree_changed_by(before, Some(ops), after)
    &&& brb_view(after).generation == brb_view(before).generation
    &&& brb_view(after).members == brb_view(before).members
    &&& packets is Some ==> !dests(packets->0).contains(brb_view(before).actor)
    &&& packets is Some ==> forall|k: Seq<u8>| #[trigger]
        voting(before).contains(k) && k != brb_view(before).actor ==> dests(packets->0).contains(k)
}

/// A move made on the tree alone: it is taken in as [`after_move`] says, and the rest
/// of what [`BrbView`] shows stays.
pub open spec fn tree_applied(before: Brb, op: MoveView, after: Brb) -> bool {
    brb_view(after) == (BrbView {
        tree: after_move(brb_view(before).tree, op),
        ..brb_view(before)
    })
}

/// The contents of a list that may be missing.
pub open spec fn seq_of<T>(list: Option<Vec<T>>) -> Option<Seq<T>> {
    match list {
        Some(v) => Some(v@),
        None => None,
    }
}

/// `DeterministicBRB::new`: a broadcast under a key pair made by chance.
#[verifier::external_body]
pub(crate) fn brb_new() -> (r: Brb)
    ensures
        fresh(r),
{
    Brb { inner: DeterministicBRB::new() }
}

/// `DeterministicBRB::actor`: the node's own actor.
#[verifier::external_body]
pub(crate) fn brb_actor(brb: &Brb) -> (r: Actor)
    ensures
        actor_key(r) == brb_view(*brb).actor,
{
    brb.inner.actor()
}

/// The tree of a `DeterministicBRB`, to read from.
#[verifier::external_body]
pub(crate) fn brb_tree<'a>(brb: &'a Brb) -> (r: TreeRef<'a>)
    ensures
        tree_ref(r) == brb_view(*brb).tree,
{
    TreeRef { inner: &brb.inner.dt.inner }
}

/// `DeterministicBRB::peers`: the members of the current generation, in ascending order.
#[verifier::external_body]
pub(crate) fn brb_peers(brb: &Brb) -> (r: Option<Vec<Actor>>)
    ensures
        lists_members(seq_of(r), *brb),
{
    brb.inner.peers().ok().map(|set| set.into_iter().collect())
}

/// `DeterministicBRB::force_join`, as [`forced_in`] says.
#[verifier::external_body]
pub(crate) fn brb_force_join(brb: &mut Brb, peer: Actor)
    ensures
        *final(brb) == force_join_outcome(*old(brb), actor_key(peer)),
        forced_in(*old(brb), actor_key(peer), *final(brb)),
{
    brb.inner.force_join(peer)
}

/// `DeterministicBRB::force_leave`, as [`forced_out`] says.
#[verifier::external_body]
pub(crate) fn brb_force_leave(brb: &mut Brb, peer: Actor)
    ensures
        *final(brb) == force_leave_outcome(*old(brb), actor_key(peer)),
        forced_out(*old(brb), actor_key(peer), *final(brb)),
{
    brb.inner.force_leave(peer)
}

/// `DeterministicBRB::request_membership`: the vote that proposes the actor, for every
/// member. It is an error where the node is no member, and where the group has no room for
/// the actor. Where no vote is under way, nothing else is an error.
#[verifier::external_body]
pub(crate) fn brb_request_membership(brb: &mut Brb, actor: Actor) -> (r: Option<Vec<FsPacket>>)
    ensures
        (*final(brb), seq_of(r)) == join_outcome(*old(brb), actor_key(actor)),
        proposed(*old(brb), *final(brb), seq_of(r)),
        r is Some ==> has_room_for(*old(brb), actor_key(actor)),
        may_propose(*old(brb)) && has_room_for(*old(brb), actor_key(actor)) ==> r is Some,
{
    let packets = brb.inner.request_membership(actor).ok()?;
    Some(packets.into_iter().map(|inner| FsPacket { inner }).collect())
}

/// `DeterministicBRB::kill_peer`: the vote that proposes that the actor leaves, for every
/// member. It is an error where the node is no member, and where the actor is none. Where
/// no vote is under way, nothing else is an error.
#[verifier::external_body]
pub(crate) fn brb_kill_peer(brb: &mut Brb, actor: Actor) -> (r: Option<Vec<FsPacket>>)
    ensures
        (*final(brb), seq_of(r)) == leave_outcome(*old(brb), actor_key(actor)),
        proposed(*old(brb), *final(brb), seq_of(r)),
        r is Some ==> voting(*old(brb)).contains(actor_key(actor)),
        may_propose(*old(brb)) && voting(*old(brb)).contains(actor_key(actor)) ==> r is Some,
{
    let packets = brb.inner.kill_peer(actor).ok()?;
    Some(packets.into_iter().map(|inner| FsPacket { inner }).collect())
}

/// `DeterministicBRB::anti_entropy`: a packet to the peer that asks for what the
/// node has not seen.
#[verifier::external_body]
pub(crate) fn brb_anti_entropy(brb: &Brb, peer: Actor) -> (r: Option<FsPacket>)
    ensures
        r == sync_outcome(*brb, actor_key(peer)),
        r is Some ==> packet_dest(r->0) == actor_key(peer),
{
    brb.inner.anti_entropy(peer).ok().map(|inner| FsPacket { inner })
}

/// `DeterministicBRB::exec_op` with a whole transaction, as [`executed`] says. Where the
/// group agrees at once, the broadcast makes the transaction by `apply` of [`FsTree`], whose
/// contract is proved.
#[verifier::external_body]
pub(crate) fn brb_exec_op(brb: &mut Brb, ops: Vec<MoveOp>) -> (r: Option<Vec<FsPacket>>)
    ensures
        (*final(brb), seq_of(r)) == exec_outcome(*old(brb), move_views(ops@)),
        executed(*old(brb), move_views(ops@), *final(brb), seq_of(r)),
{
    let plain = |op: MoveOp| (op.counter, op.actor, op.parent_id, op.metadata, op.child_id);
    let packets = brb.inner.exec_op(ops.into_iter().map(plain).collect()).ok()?;
    Some(packets.into_iter().map(|inner| FsPacket { inner }).collect())
}

/// `DeterministicBRB::handle_packet`: a proof of agreement that is accepted makes its
/// transaction on the tree, by `apply` of [`FsTree`], whose contract is proved, and nothing
/// else touches the tree. What else the packet does to the broadcast is left to the name.
#[verifier::external_body]
pub(crate) fn brb_handle_packet(brb: &mut Brb, packet: FsPacket) -> (r: Option<Vec<FsPacket>>)
    ensures
        (*final(brb), seq_of(r)) == handle_outcome(*old(brb), packet),
        tree_changed_by(*old(brb), packet_proof(packet), *final(brb)),
        r is Some && packet_proof(packet) is Some ==> brb_view(*final(brb)).tree == after_moves(
            brb_view(*old(brb)).tree,
            packet_proof(packet)->0,
        ),
{
    let packets = brb.inner.handle_packet(packet.inner).ok()?;
    Some(packets.into_iter().map(|inner| FsPacket { inner }).collect())
}

/// `DeterministicBRB::resend_pending_msgs`: the packets that still want an answer, none
/// where nothing waits. Their order is that of a hash map, and is left unsaid.
#[verifier::external_body]
pub(crate) fn brb_resend_pending_msgs(brb: &Brb) -> (r: Option<Vec<FsPacket>>)
    ensures
        r is Some == resend_outcome(*brb) is Some,
        r is Some ==> resend_outcome(*brb) == Some(r->0@.to_multiset()),
        brb_view(*brb).awaiting_proof == 0 && brb_view(*brb).awaiting_delivery == 0 ==> r is Some
            && r->0@.len() == 0,
{
    let packets = brb.inner.resend_pending_msgs().ok()?;
    Some(packets.into_iter().map(|inner| FsPacket { inner }).collect())
}

/// `HashMap::is_empty` of the messages that wait for a proof of agreement.
#[verifier::external_body]
pub(crate) fn brb_no_proof_pending(brb: &Brb) -> (r: bool)
    ensures
        r == (brb_view(*brb).awaiting_proof == 0),
{
    brb.inner.pending_proof.is_empty()
}

/// `HashMap::is_empty` of the messages that wait for confirmation of delivery.
#[verifier::external_body]
pub(crate) fn brb_no_delivery_pending(brb: &Brb) -> (r: bool)
    ensures
        r == (brb_view(*brb).awaiting_delivery == 0),
{
    brb.inner.pending_delivery.is_empty()
}

/// `BRBTree::apply` on the tree of a `DeterministicBRB`, as [`tree_applied`] says.
#[verifier::external_body]
pub(crate) fn brb_apply(brb: &mut Brb, op: MoveOp)
    ensures
        *final(brb) == apply_outcome(*old(brb), op@),
        tree_applied(*old(brb), op@, *final(brb)),
{
    let stamp = Clock::new(op.actor, Some(op.counter));
    brb.inner.dt.inner.apply(OpMove::new(stamp, op.parent_id, op.metadata, op.child_id))
}

/// The destination of a packet.
#[verifier::external_body]
pub(crate) fn packet_to(packet: &FsPacket) -> (r: Actor)
    ensures
        actor_key(r) == packet_dest(*packet),
{
    packet.inner.dest
}

} // verus!
