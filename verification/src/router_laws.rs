//! What each command to the router comes to, told by what is in the roster, what the
//! broadcast does, and what is then sent and printed.
use crate::actor::{actor_key, key_lt, text_of_key};
use crate::agreement::{
    brb_view, dests, force_join_outcome, force_leave_outcome, handle_outcome, join_outcome,
    leave_outcome, packet_dest, sync_outcome, voting, Brb, FsPacket,
};
use crate::command::{action_views, Action, NetworkMsg, RouterCmd};
use crate::roster::{addr_of, lists, matching, peer_keys, peer_line, peer_views, sorted, Peer};
use crate::router::{
    all_keys, asks, catch_up_actions, complaint, deliveries, delivery, resolved, Router,
};
use crate::shared::SharedBRB;
use brb::membership::actor::ed25519::Actor;
use vstd::prelude::*;

verus! {

/// The entry of the roster under which an actor was first noted down.
pub open spec fn entry_of(peers: Seq<Peer>, key: Seq<u8>, i: int) -> bool {
    &&& 0 <= i < peers.len()
    &&& actor_key(peers[i].actor) == key
    &&& forall|j: int| 0 <= j < i ==> actor_key((#[trigger] peers[j]).actor) != key
}

/// No entry of the roster is for this actor.
pub open spec fn is_unknown(peers: Seq<Peer>, key: Seq<u8>) -> bool {
    forall|i: int| 0 <= i < peers.len() ==> actor_key((#[trigger] peers[i]).actor) != key
}

/// What is meant for the node at `dest` is sent to `wire`: to the local address where `dest`
/// is the node's own outer address, and otherwise to `dest`.
pub open spec fn reaches(router: Router, dest: Seq<char>, wire: Seq<char>) -> bool {
    wire == if dest == router.addr@ {
        router.local_addr@
    } else {
        dest
    }
}

/// A packet is sent to the address of the peer for which it is meant; where there is no
/// such peer, that is reported.
pub open spec fn goes_out(router: Router, packet: FsPacket, action: Action) -> bool {
    match action {
        Action::Send(NetworkMsg::Packet(p), wire) => {
            &&& p == packet
            &&& exists|i: int| #[trigger]
                entry_of(router.peers@, packet_dest(packet), i) && reaches(
                    router,
                    router.peers@[i].addr@,
                    wire@,
                )
        },
        Action::Undeliverable(p) => p == packet && is_unknown(
            router.peers@,
            packet_dest(packet),
        ),
        _ => false,
    }
}

/// Every packet goes out, in its order, and nothing else is done.
pub open spec fn all_go_out(router: Router, packets: Seq<FsPacket>, actions: Seq<Action>) -> bool {
    &&& actions.len() == packets.len()
    &&& forall|i: int|
        0 <= i < packets.len() ==> goes_out(router, packets[i], #[trigger] actions[i])
}

/// All packets that the broadcast gave go out; where it refused there are none.
pub open spec fn outcome_goes_out(
    router: Router,
    outcome: Option<Seq<FsPacket>>,
    actions: Seq<Action>,
) -> bool {
    match outcome {
        Some(packets) => all_go_out(router, packets, actions),
        None => actions.len() == 0,
    }
}

/// The text of a peer starts like this.
pub open spec fn starts(id: Seq<char>, peer: Peer) -> bool {
    id.is_prefix_of(text_of_key(actor_key(peer.actor)))
}

/// The text of this peer starts like this, and that of no other entry does.
pub open spec fn only_start(peers: Seq<Peer>, id: Seq<char>, i: int) -> bool {
    &&& 0 <= i < peers.len()
    &&& starts(id, peers[i])
    &&& forall|j: int| 0 <= j < peers.len() && j != i ==> !starts(id, #[trigger] peers[j])
}

/// A text means an actor: `me` means the node itself, any other text the one peer whose text
/// starts like it.
pub open spec fn means(router: Router, me: Seq<u8>, id: Seq<char>, key: Seq<u8>) -> bool {
    if id == "me"@ {
        key == me
    } else {
        exists|i: int| #[trigger]
            only_start(router.peers@, id, i) && key == actor_key(router.peers@[i].actor)
    }
}

/// The text that a command gives for an actor.
pub open spec fn asked(cmd: RouterCmd) -> Option<Seq<char>> {
    match cmd {
        RouterCmd::AntiEntropy(id) => Some(id@),
        RouterCmd::RequestJoin(id) => Some(id@),
        RouterCmd::RequestLeave(id) => Some(id@),
        RouterCmd::Trust(id) => Some(id@),
        RouterCmd::Untrust(id) => Some(id@),
        _ => None,
    }
}

pub(crate) proof fn lemma_addr_of_entry(peers: Seq<Peer>, key: Seq<u8>)
    ensures
        match addr_of(peer_views(peers), key) {
            Some(addr) => exists|i: int| #[trigger]
                entry_of(peers, key, i) && peers[i].addr@ == addr,
            None => is_unknown(peers, key),
        },
    decreases peers.len(),
{
    let views = peer_views(peers);
    if peers.len() > 0 {
        let rest = peers.drop_first();
        lemma_addr_of_entry(rest, key);
        assert(views.drop_first() =~= peer_views(rest));
        assert(views[0] == peers[0]@);
        if actor_key(peers[0].actor) == key {
            assert(entry_of(peers, key, 0));
        } else {
            match addr_of(peer_views(rest), key) {
                Some(addr) => {
                    let i = choose|i: int| #[trigger]
                        entry_of(rest, key, i) && rest[i].addr@ == addr;
                    assert forall|j: int| 0 <= j < i + 1 implies actor_key(
                        (#[trigger] peers[j]).actor,
                    ) != key by {
                        if j > 0 {
                            assert(rest[j - 1] == peers[j]);
                        }
                    }
                    assert(entry_of(peers, key, i + 1));
                },
                None => {
                    assert forall|j: int| 0 <= j < peers.len() implies actor_key(
                        (#[trigger] peers[j]).actor,
                    ) != key by {
                        if j > 0 {
                            assert(rest[j - 1] == peers[j]);
                        }
                    }
                },
            }
        }
    }
}

proof fn lemma_goes_out(router: Router, packet: FsPacket, action: Action)
    requires
        action@ == delivery(router@, packet),
    ensures
        goes_out(router, packet, action),
{
    lemma_addr_of_entry(router.peers@, packet_dest(packet));
}

proof fn lemma_all_go_out(router: Router, packets: Seq<FsPacket>, actions: Seq<Action>)
    requires
        action_views(actions) == deliveries(router@, packets),
    ensures
        all_go_out(router, packets, actions),
{
    assert(action_views(actions).len() == actions.len());
    assert forall|i: int| 0 <= i < packets.len() implies goes_out(
        router,
        packets[i],
        #[trigger] actions[i],
    ) by {
        assert(action_views(actions)[i] == actions[i]@);
        assert(deliveries(router@, packets)[i] == delivery(router@, packets[i]));
        lemma_goes_out(router, packets[i], actions[i]);
    }
}

/// Where the elements that a filter keeps stood before.
pub(crate) proof fn lemma_filter_places<A>(s: Seq<A>, pred: spec_fn(A) -> bool) -> (places: Seq<
    int,
>)
    ensures
        places.len() == s.filter(pred).len(),
        forall|k: int|
            0 <= k < places.len() ==> 0 <= #[trigger] places[k] < s.len() && pred(s[places[k]])
                && s.filter(pred)[k] == s[places[k]],
        forall|k: int, l: int|
            0 <= k < l < places.len() ==> #[trigger] places[k] < #[trigger] places[l],
        forall|i: int| 0 <= i < s.len() && pred(#[trigger] s[i]) ==> places.contains(i),
    decreases s.len(),
{
    reveal(Seq::filter);
    if s.len() == 0 {
        Seq::empty()
    } else {
        let first = s.drop_last();
        let n = s.len() - 1;
        let some = lemma_filter_places(first, pred);
        if pred(s.last()) {
            let places = some.push(n);
            assert forall|i: int| 0 <= i < s.len() && pred(#[trigger] s[i]) implies places.contains(
                i,
            ) by {
                if i < n {
                    assert(first[i] == s[i]);
                    assert(some.contains(i));
                    let k = choose|k: int| 0 <= k < some.len() && some[k] == i;
                    assert(places[k] == i);
                } else {
                    assert(places[places.len() - 1] == i);
                }
            }
            places
        } else {
            assert forall|i: int| 0 <= i < s.len() && pred(#[trigger] s[i]) implies some.contains(
                i,
            ) by {
                assert(first[i] == s[i]);
            }
            some
        }
    }
}

/// The places in the roster of the peers whose text starts like `id`.
proof fn lemma_matching_places(router: Router, id: Seq<char>) -> (places: Seq<int>)
    ensures
        places.len() == matching(router@.peers, id).len(),
        forall|k: int|
            0 <= k < places.len() ==> 0 <= #[trigger] places[k] < router.peers@.len() && starts(
                id,
                router.peers@[places[k]],
            ) && matching(router@.peers, id)[k] == actor_key(router.peers@[places[k]].actor),
        forall|k: int, l: int|
            0 <= k < l < places.len() ==> #[trigger] places[k] < #[trigger] places[l],
        forall|i: int|
            0 <= i < router.peers@.len() && starts(id, #[trigger] router.peers@[i])
                ==> places.contains(i),
{
    let all = peer_keys(router@.peers);
    let pred = |key: Seq<u8>| id.is_prefix_of(text_of_key(key));
    let places = lemma_filter_places(all, pred);
    assert forall|i: int|
        0 <= i < router.peers@.len() && starts(
            id,
            #[trigger] router.peers@[i],
        ) implies places.contains(i) by {
        assert(all[i] == actor_key(router.peers@[i].actor));
        assert(pred(all[i]));
    }
    assert forall|k: int| 0 <= k < places.len() implies 0 <= #[trigger] places[k]
        < router.peers@.len() && starts(id, router.peers@[places[k]]) && matching(
        router@.peers,
        id,
    )[k] == actor_key(router.peers@[places[k]].actor) by {
        assert(all[places[k]] == actor_key(router.peers@[places[k]].actor));
    }
    places
}

proof fn lemma_meant(router: Router, me: Seq<u8>, id: Seq<char>, key: Seq<u8>)
    requires
        means(router, me, id, key),
    ensures
        resolved(router@, me, id) == Some(key),
        complaint(router@, id).len() == 0,
{
    if id != "me"@ {
        let i = choose|i: int| #[trigger]
            only_start(router.peers@, id, i) && key == actor_key(router.peers@[i].actor);
        let places = lemma_matching_places(router, id);
        assert(places.contains(i));
        if places.len() > 1 {
            assert(places[0] < places[1]);
            assert(starts(id, router.peers@[places[0]]) && starts(id, router.peers@[places[1]]));
        }
        assert(starts(id, router.peers@[places[0]]));
        assert(places[0] == i);
    }
}

/// `join` proposes the actor that is meant, and no other: what the broadcast then holds is
/// what a request for that actor leaves, and all packets of the request go out. Where the
/// node votes, no vote is under way, the actor is no member and there are fewer than seven, a
/// packet goes to every member.
pub proof fn join_proposes_the_actor(
    router: &mut Router,
    state: &mut SharedBRB,
    id: String,
    key: Seq<u8>,
    r: Vec<Action>,
)
    requires
        call_ensures(Router::apply, (router, state, RouterCmd::RequestJoin(id)), r),
        means(*old(router), brb_view(old(state).brb).actor, id@, key),
    ensures
        final(state).brb == join_outcome(old(state).brb, key).0,
        outcome_goes_out(*old(router), join_outcome(old(state).brb, key).1, r@),
        join_is_owed(old(state).brb, key) ==> goes_to_every_member(
            old(state).brb,
            join_outcome(old(state).brb, key).1,
        ),
        *final(router) == *old(router),
{
    let before = old(state).brb;
    lemma_meant(*old(router), brb_view(before).actor, id@, key);
    if let Some(packets) = join_outcome(before, key).1 {
        lemma_all_go_out(*old(router), packets, r@);
        lemma_every_member(before, packets);
    } else {
        assert(action_views(r@).len() == r@.len());
    }
}

/// The group owes a node that its proposal of an actor goes out: the node votes, no vote is
/// under way, the actor is no member, and there are fewer than seven.
pub open spec fn join_is_owed(brb: Brb, key: Seq<u8>) -> bool {
    match brb_view(brb).members {
        Some(members) => {
            &&& members.contains(brb_view(brb).actor)
            &&& !members.contains(key)
            &&& members.len() < 7
            &&& brb_view(brb).open_votes == 0
        },
        None => false,
    }
}

/// There are packets, and one of them goes to every member.
pub open spec fn goes_to_every_member(brb: Brb, outcome: Option<Seq<FsPacket>>) -> bool {
    &&& brb_view(brb).members is Some
    &&& outcome is Some
    &&& forall|k: Seq<u8>| #[trigger]
        brb_view(brb).members->0.contains(k) ==> exists|i: int|
            0 <= i < outcome->0.len() && packet_dest(#[trigger] outcome->0[i]) == k
}

proof fn lemma_every_member(brb: Brb, packets: Seq<FsPacket>)
    requires
        brb_view(brb).members is Some ==> dests(packets).to_set() == brb_view(brb).members->0,
    ensures
        brb_view(brb).members is Some ==> goes_to_every_member(brb, Some(packets)),
{
    let outcome = Some(packets);
    if brb_view(brb).members is Some {
        assert forall|k: Seq<u8>| #[trigger]
            brb_view(brb).members->0.contains(k) implies exists|i: int|
            0 <= i < outcome->0.len() && packet_dest(#[trigger] outcome->0[i]) == k by {
            assert(dests(packets).to_set().contains(k));
            let i = choose|i: int| 0 <= i < dests(packets).len() && dests(packets)[i] == k;
            assert(packet_dest(outcome->0[i]) == k);
        }
        assert(goes_to_every_member(brb, outcome));
    }
}

/// `leave` proposes that the actor that is meant leaves, and no other: what the broadcast
/// then holds is what that request leaves, and all its packets go out. Where the node votes,
/// no vote is under way and the actor is a member, a packet goes to every member.
pub proof fn leave_proposes_the_actor(
    router: &mut Router,
    state: &mut SharedBRB,
    id: String,
    key: Seq<u8>,
    r: Vec<Action>,
)
    requires
        call_ensures(Router::apply, (router, state, RouterCmd::RequestLeave(id)), r),
        means(*old(router), brb_view(old(state).brb).actor, id@, key),
    ensures
        final(state).brb == leave_outcome(old(state).brb, key).0,
        outcome_goes_out(*old(router), leave_outcome(old(state).brb, key).1, r@),
        brb_view(old(state).brb).members matches Some(members) ==> members.contains(
            brb_view(old(state).brb).actor,
        ) && members.contains(key) && brb_view(old(state).brb).open_votes == 0
            ==> goes_to_every_member(old(state).brb, leave_outcome(old(state).brb, key).1),
        *final(router) == *old(router),
{
    let before = old(state).brb;
    lemma_meant(*old(router), brb_view(before).actor, id@, key);
    if let Some(packets) = leave_outcome(before, key).1 {
        lemma_all_go_out(*old(router), packets, r@);
        lemma_every_member(before, packets);
    } else {
        assert(action_views(r@).len() == r@.len());
    }
}

/// `trust` forces the actor that is meant into the group, whoever it is and whoever is in the
/// group, and does nothing else.
pub proof fn trust_forces_the_actor_in(
    router: &mut Router,
    state: &mut SharedBRB,
    id: String,
    key: Seq<u8>,
    r: Vec<Action>,
)
    requires
        call_ensures(Router::apply, (router, state, RouterCmd::Trust(id)), r),
        means(*old(router), brb_view(old(state).brb).actor, id@, key),
    ensures
        final(state).brb == force_join_outcome(old(state).brb, key),
        r@.len() == 0,
        *final(router) == *old(router),
{
    lemma_meant(*old(router), brb_view(old(state).brb).actor, id@, key);
    assert(action_views(r@).len() == r@.len());
}

/// `untrust` forces the actor that is meant out of the group, whoever it is and whoever is in
/// the group, and does nothing else.
pub proof fn untrust_forces_the_actor_out(
    router: &mut Router,
    state: &mut SharedBRB,
    id: String,
    key: Seq<u8>,
    r: Vec<Action>,
)
    requires
        call_ensures(Router::apply, (router, state, RouterCmd::Untrust(id)), r),
        means(*old(router), brb_view(old(state).brb).actor, id@, key),
    ensures
        final(state).brb == force_leave_outcome(old(state).brb, key),
        r@.len() == 0,
        *final(router) == *old(router),
{
    lemma_meant(*old(router), brb_view(old(state).brb).actor, id@, key);
    assert(action_views(r@).len() == r@.len());
}

/// The one packet that asks an actor for what the node has not seen goes to that actor,
/// at the address that the roster has for it; where the broadcast gives no packet, nothing
/// is done.
pub open spec fn asks_actor(router: Router, brb: Brb, key: Seq<u8>, actions: Seq<Action>) -> bool {
    match sync_outcome(brb, key) {
        Some(packet) => {
            &&& actions.len() == 1
            &&& packet_dest(packet) == key
            &&& goes_out(router, packet, actions[0])
        },
        None => actions.len() == 0,
    }
}

/// `anti_entropy` asks the actor that is meant, whoever is in the voting group, and changes
/// nothing.
pub proof fn anti_entropy_asks_the_actor(
    router: &mut Router,
    state: &mut SharedBRB,
    id: String,
    key: Seq<u8>,
    r: Vec<Action>,
)
    requires
        call_ensures(Router::apply, (router, state, RouterCmd::AntiEntropy(id)), r),
        means(*old(router), brb_view(old(state).brb).actor, id@, key),
    ensures
        asks_actor(*old(router), old(state).brb, key, r@),
        final(state).brb == old(state).brb,
        *final(router) == *old(router),
{
    lemma_meant(*old(router), brb_view(old(state).brb).actor, id@, key);
    lemma_asks_actor(*old(router), old(state).brb, key, r@);
}

proof fn lemma_asks_actor(router: Router, brb: Brb, key: Seq<u8>, actions: Seq<Action>)
    requires
        action_views(actions) == catch_up_actions(router@, brb, key),
        asks(brb, key),
    ensures
        asks_actor(router, brb, key, actions),
{
    assert(action_views(actions).len() == actions.len());
    if let Some(packet) = sync_outcome(brb, key) {
        assert(action_views(actions)[0] == actions[0]@);
        lemma_goes_out(router, packet, actions[0]);
    }
}

/// Catching up with an actor asks that actor, and changes nothing.
pub proof fn catch_up_asks_the_actor(
    router: &mut Router,
    state: &mut SharedBRB,
    actor: Actor,
    r: Vec<Action>,
)
    requires
        call_ensures(Router::apply, (router, state, RouterCmd::CatchUp(actor)), r),
    ensures
        asks_actor(*old(router), old(state).brb, actor_key(actor), r@),
        final(state).brb == old(state).brb,
        *final(router) == *old(router),
{
    lemma_asks_actor(*old(router), old(state).brb, actor_key(actor), r@);
}

/// A text that means nobody changes nothing, and one line says so.
pub proof fn unknown_text_is_reported(
    router: &mut Router,
    state: &mut SharedBRB,
    cmd: RouterCmd,
    r: Vec<Action>,
)
    requires
        call_ensures(Router::apply, (router, state, cmd), r),
        asked(cmd) matches Some(id) && id != "me"@ && forall|i: int|
            0 <= i < old(router).peers@.len() ==> !starts(id, #[trigger] old(router).peers@[i]),
    ensures
        r@.len() == 1,
        r@[0] matches Action::Print(line) && line@ == "No actors with that actor id"@,
        final(state).brb == old(state).brb,
        *final(router) == *old(router),
{
    let id = asked(cmd)->0;
    let places = lemma_matching_places(*old(router), id);
    if places.len() > 0 {
        assert(starts(id, old(router).peers@[places[0]]));
    }
    assert(action_views(r@).len() == r@.len());
    assert(action_views(r@)[0] == r@[0]@);
}

/// A text that means several peers changes nothing; a line says so, and one line follows for
/// each of these peers, in the order of the roster.
pub proof fn ambiguous_text_is_reported(
    router: &mut Router,
    state: &mut SharedBRB,
    cmd: RouterCmd,
    r: Vec<Action>,
    a: int,
    b: int,
) -> (places: Seq<int>)
    requires
        call_ensures(Router::apply, (router, state, cmd), r),
        asked(cmd) matches Some(id) && id != "me"@ && 0 <= a < b < old(router).peers@.len()
            && starts(id, old(router).peers@[a]) && starts(id, old(router).peers@[b]),
    ensures
        final(state).brb == old(state).brb,
        *final(router) == *old(router),
        r@.len() == places.len() + 1,
        r@[0] matches Action::Print(line) && line@
            == "Ambiguous actor id, more than one actor matches:"@,
        forall|k: int|
            0 <= k < places.len() ==> {
                &&& 0 <= #[trigger] places[k] < old(router).peers@.len()
                &&& starts(asked(cmd)->0, old(router).peers@[places[k]])
                &&& r@[k + 1] matches Action::Print(line) && line@ == text_of_key(
                    actor_key(old(router).peers@[places[k]].actor),
                )
            },
        forall|k: int, l: int|
            0 <= k < l < places.len() ==> #[trigger] places[k] < #[trigger] places[l],
        forall|i: int|
            0 <= i < old(router).peers@.len() && starts(
                asked(cmd)->0,
                #[trigger] old(router).peers@[i],
            ) ==> places.contains(i),
{
    let id = asked(cmd)->0;
    let places = lemma_matching_places(*old(router), id);
    assert(places.contains(a) && places.contains(b));
    assert(places.len() >= 2) by {
        let k = choose|k: int| 0 <= k < places.len() && places[k] == a;
        let l = choose|l: int| 0 <= l < places.len() && places[l] == b;
    }
    assert(action_views(r@).len() == r@.len());
    assert(action_views(r@)[0] == r@[0]@);
    assert forall|k: int| 0 <= k < places.len() implies {
        &&& 0 <= #[trigger] places[k] < old(router).peers@.len()
        &&& starts(id, old(router).peers@[places[k]])
        &&& r@[k + 1] matches Action::Print(line) && line@ == text_of_key(
            actor_key(old(router).peers@[places[k]].actor),
        )
    } by {
        assert(action_views(r@)[k + 1] == r@[k + 1]@);
    }
    places
}

/// `peers` prints one line for every actor that is a member or is in the roster, in ascending
/// order of the keys. A line shows the text of the actor, the address that the roster has for
/// it, the mark of a member if and only if it is one, and the mark of the node itself if and
/// only if it is that. Nothing changes.
pub proof fn peers_are_listed(
    router: &mut Router,
    state: &mut SharedBRB,
    r: Vec<Action>,
) -> (ids: Seq<Seq<u8>>)
    requires
        call_ensures(Router::apply, (router, state, RouterCmd::ListPeers), r),
    ensures
        final(state).brb == old(state).brb,
        *final(router) == *old(router),
        r@.len() == ids.len(),
        forall|i: int, j: int|
            0 <= i < j < ids.len() ==> key_lt(#[trigger] ids[i], #[trigger] ids[j]),
        forall|k: Seq<u8>| #[trigger]
            ids.contains(k) <==> is_member(old(state).brb, k) || !is_unknown(
                old(router).peers@,
                k,
            ),
        forall|i: int|
            0 <= i < ids.len() ==> prints_actor(
                *old(router),
                old(state).brb,
                #[trigger] ids[i],
                r@[i],
            ),
{
    let before = old(state).brb;
    let peers = old(router).peers@;
    let views = old(router)@;
    let set = all_keys(views, before);
    let ids = sorted(set);
    assert(lists(ids, set));
    assert forall|k: Seq<u8>| #[trigger] ids.contains(k) <==> is_member(before, k) || !is_unknown(
        peers,
        k,
    ) by {
        assert(ids.to_set().contains(k) == ids.contains(k));
        let known = peer_keys(views.peers);
        assert(known.to_set().contains(k) == known.contains(k));
        if known.contains(k) {
            let i = choose|i: int| 0 <= i < known.len() && known[i] == k;
            assert(actor_key(peers[i].actor) == k);
        }
        if !is_unknown(peers, k) {
            let i = choose|i: int|
                0 <= i < peers.len() && actor_key((#[trigger] peers[i]).actor) == k;
            assert(known[i] == k);
        }
    }
    assert(action_views(r@).len() == r@.len());
    assert forall|i: int| 0 <= i < ids.len() implies prints_actor(
        *old(router),
        before,
        #[trigger] ids[i],
        r@[i],
    ) by {
        assert(action_views(r@)[i] == r@[i]@);
        lemma_addr_of_entry(peers, ids[i]);
        let line = r@[i]@->Print_0;
        assert(line == peer_line(
            ids[i],
            addr_of(views.peers, ids[i]),
            voting(before).contains(ids[i]),
            ids[i] == brb_view(before).actor,
        ));
        match addr_of(views.peers, ids[i]) {
            Some(addr) => {
                let e = choose|e: int| #[trigger]
                    entry_of(peers, ids[i], e) && peers[e].addr@ == addr;
                assert(line =~= line_of(before, ids[i], peers[e].addr@));
            },
            None => {
                assert(line =~= line_of(before, ids[i], "<unknown>"@));
            },
        }
    }
    ids
}

/// An actor is a member, as far as the members are known.
pub open spec fn is_member(brb: Brb, key: Seq<u8>) -> bool {
    brb_view(brb).members matches Some(members) && members.contains(key)
}

/// The text of an actor, an address, and the marks that are due.
pub open spec fn line_of(brb: Brb, key: Seq<u8>, addr: Seq<char>) -> Seq<char> {
    text_of_key(key) + "@"@ + addr + (if is_member(brb, key) {
        "\t(voting)"@
    } else {
        Seq::empty()
    }) + (if key == brb_view(brb).actor {
        "\t(self)"@
    } else {
        Seq::empty()
    })
}

/// A line shows an actor: with its address where the roster has one, and otherwise with a
/// word that says that there is none.
pub open spec fn shows_actor(router: Router, brb: Brb, key: Seq<u8>, line: Seq<char>) -> bool {
    if is_unknown(router.peers@, key) {
        line == line_of(brb, key, "<unknown>"@)
    } else {
        exists|i: int| #[trigger]
            entry_of(router.peers@, key, i) && line == line_of(brb, key, router.peers@[i].addr@)
    }
}

/// An action prints the line that shows an actor.
pub open spec fn prints_actor(router: Router, brb: Brb, key: Seq<u8>, action: Action) -> bool {
    action matches Action::Print(line) && shows_actor(router, brb, key, line@)
}

/// `peer` tells the node at an address of this node, under its outer address, and changes
/// nothing.
pub proof fn hello_names_the_node(
    router: &mut Router,
    state: &mut SharedBRB,
    addr: String,
    r: Vec<Action>,
)
    requires
        call_ensures(Router::apply, (router, state, RouterCmd::SayHello(addr)), r),
    ensures
        r@.len() == 1,
        r@[0] matches Action::Send(NetworkMsg::Peer(actor, own), wire) && actor_key(actor)
            == brb_view(old(state).brb).actor && own@ == old(router).addr@ && reaches(
            *old(router),
            addr@,
            wire@,
        ),
        final(state).brb == old(state).brb,
        *final(router) == *old(router),
{
    assert(action_views(r@).len() == r@.len());
    assert(action_views(r@)[0] == r@[0]@);
}

/// A packet to deliver goes out, and nothing changes.
pub proof fn packet_is_delivered(
    router: &mut Router,
    state: &mut SharedBRB,
    packet: FsPacket,
    r: Vec<Action>,
)
    requires
        call_ensures(Router::apply, (router, state, RouterCmd::Deliver(packet)), r),
    ensures
        r@.len() == 1,
        goes_out(*old(router), packet, r@[0]),
        final(state).brb == old(state).brb,
        *final(router) == *old(router),
{
    assert(action_views(r@).len() == r@.len());
    assert(action_views(r@)[0] == r@[0]@);
    lemma_goes_out(*old(router), packet, r@[0]);
}

/// A packet from another node is given to the broadcast, and everything with which the
/// broadcast answers goes out.
pub proof fn packet_is_answered(
    router: &mut Router,
    state: &mut SharedBRB,
    packet: FsPacket,
    r: Vec<Action>,
)
    requires
        call_ensures(Router::apply, (router, state, RouterCmd::Apply(packet)), r),
    ensures
        final(state).brb == handle_outcome(old(state).brb, packet).0,
        outcome_goes_out(*old(router), handle_outcome(old(state).brb, packet).1, r@),
        *final(router) == *old(router),
{
    if let Some(packets) = handle_outcome(old(state).brb, packet).1 {
        lemma_all_go_out(*old(router), packets, r@);
    } else {
        assert(action_views(r@).len() == r@.len());
    }
}

/// `retry` sends every packet that was not acknowledged once more, in their order, and then
/// none is left; nothing else changes.
pub proof fn unacknowledged_packets_go_out_again(
    router: &mut Router,
    state: &mut SharedBRB,
    r: Vec<Action>,
)
    requires
        call_ensures(Router::apply, (router, state, RouterCmd::Retry), r),
    ensures
        all_go_out(*old(router), old(router).unacked_packets@, r@),
        final(router).unacked_packets@.len() == 0,
        same_roster(*old(router), *final(router)),
        final(state).brb == old(state).brb,
{
    lemma_all_go_out(*old(router), old(router).unacked_packets@, r@);
    assert(final(router)@.unacked.len() == 0);
    lemma_same_roster(*old(router), *final(router));
}

/// The addresses, the entries and the ways of the router are the same.
pub open spec fn same_roster(before: Router, after: Router) -> bool {
    &&& after.addr@ == before.addr@
    &&& after.local_addr@ == before.local_addr@
    &&& after.auto_join == before.auto_join
    &&& after.peers@.len() == before.peers@.len()
    &&& forall|i: int|
        0 <= i < before.peers@.len() ==> same_entry(before.peers@[i], #[trigger] after.peers@[i])
}

/// Two entries for the same actor at the same address.
pub open spec fn same_entry(a: Peer, b: Peer) -> bool {
    actor_key(a.actor) == actor_key(b.actor) && a.addr@ == b.addr@
}

proof fn lemma_same_roster(before: Router, after: Router)
    requires
        after@.addr == before@.addr,
        after@.local_addr == before@.local_addr,
        after@.auto_join == before@.auto_join,
        after@.peers == before@.peers,
    ensures
        same_roster(before, after),
{
    assert(before@.peers.len() == before.peers@.len());
    assert(after@.peers.len() == after.peers@.len());
    assert forall|i: int| 0 <= i < before.peers@.len() implies same_entry(
        before.peers@[i],
        #[trigger] after.peers@[i],
    ) by {
        assert(before@.peers[i] == before.peers@[i]@);
        assert(after@.peers[i] == after.peers@[i]@);
    }
}

/// `dbg` has the router logged, and changes nothing.
pub proof fn router_is_dumped(router: &mut Router, state: &mut SharedBRB, r: Vec<Action>)
    requires
        call_ensures(Router::apply, (router, state, RouterCmd::Debug), r),
    ensures
        r@.len() == 1,
        r@[0] is Dump,
        final(state).brb == old(state).brb,
        *final(router) == *old(router),
{
    assert(action_views(r@).len() == r@.len());
    assert(action_views(r@)[0] == r@[0]@);
}

/// A peer that is known already, under whatever address, is passed over.
pub proof fn known_peer_is_passed_over(
    router: &mut Router,
    state: &mut SharedBRB,
    actor: Actor,
    addr: String,
    r: Vec<Action>,
)
    requires
        call_ensures(Router::apply, (router, state, RouterCmd::AddPeer(actor, addr)), r),
        !is_unknown(old(router).peers@, actor_key(actor)),
    ensures
        r@.len() == 0,
        final(state).brb == old(state).brb,
        same_roster(*old(router), *final(router)),
        final(router).unacked_packets@ == old(router).unacked_packets@,
{
    lemma_addr_of_entry(old(router).peers@, actor_key(actor));
    assert(action_views(r@).len() == r@.len());
    assert(final(router)@.unacked == old(router)@.unacked);
    lemma_same_roster(*old(router), *final(router));
}

/// A new peer is told of every peer in the roster, in its order, and then stands last in
/// the roster, under the address that it gave; the rest of the router stays.
pub proof fn new_peer_is_introduced(
    router: &mut Router,
    state: &mut SharedBRB,
    actor: Actor,
    addr: String,
    r: Vec<Action>,
)
    requires
        call_ensures(Router::apply, (router, state, RouterCmd::AddPeer(actor, addr)), r),
        is_unknown(old(router).peers@, actor_key(actor)),
    ensures
        r@.len() >= old(router).peers@.len(),
        forall|i: int|
            0 <= i < old(router).peers@.len() ==> tells_of(
                *old(router),
                old(router).peers@[i],
                addr@,
                #[trigger] r@[i],
            ),
        final(router).peers@.len() == old(router).peers@.len() + 1,
        forall|i: int|
            0 <= i < old(router).peers@.len() ==> same_entry(
                old(router).peers@[i],
                #[trigger] final(router).peers@[i],
            ),
        actor_key(final(router).peers@.last().actor) == actor_key(actor),
        final(router).peers@.last().addr@ == addr@,
        final(router).addr@ == old(router).addr@,
        final(router).local_addr@ == old(router).local_addr@,
        final(router).auto_join == old(router).auto_join,
        final(router).unacked_packets@ == old(router).unacked_packets@,
{
    let peers = old(router).peers@;
    let n = peers.len() as int;
    lemma_addr_of_entry(peers, actor_key(actor));
    assert(action_views(r@).len() == r@.len());
    assert(old(router)@.peers.len() == n);
    assert forall|i: int| 0 <= i < n implies tells_of(
        *old(router),
        peers[i],
        addr@,
        #[trigger] r@[i],
    ) by {
        assert(action_views(r@)[i] == r@[i]@);
        assert(action_views(r@).take(n)[i] == action_views(r@)[i]);
        assert(old(router)@.peers[i] == peers[i]@);
    }
    let after = final(router)@.peers;
    assert(after.len() == final(router).peers@.len());
    assert(after[n] == final(router).peers@[n]@);
    assert forall|i: int| 0 <= i < n implies same_entry(
        peers[i],
        #[trigger] final(router).peers@[i],
    ) by {
        assert(after[i] == final(router).peers@[i]@);
        assert(after[i] == old(router)@.peers[i]);
        assert(old(router)@.peers[i] == peers[i]@);
    }
    assert(final(router)@.unacked == old(router)@.unacked);
}

/// An action tells the node at an address of a peer.
pub open spec fn tells_of(router: Router, peer: Peer, dest: Seq<char>, action: Action) -> bool {
    action matches Action::Send(NetworkMsg::Peer(actor, addr), wire) && actor_key(actor)
        == actor_key(peer.actor) && addr@ == peer.addr@ && reaches(router, dest, wire@)
}

/// Whatever the size of its group, a node that votes sponsors a new peer that does not: it
/// asks the broadcast to propose the peer, and all packets of the proposal go out, after the
/// introductions. Where no vote is under way and there are fewer than seven members, a
/// packet goes to every member.
pub proof fn voter_sponsors_the_newcomer(
    router: &mut Router,
    state: &mut SharedBRB,
    actor: Actor,
    addr: String,
    r: Vec<Action>,
)
    requires
        call_ensures(Router::apply, (router, state, RouterCmd::AddPeer(actor, addr)), r),
        is_unknown(old(router).peers@, actor_key(actor)),
        old(router).auto_join,
        actor_key(actor) != brb_view(old(state).brb).actor,
        is_member(old(state).brb, brb_view(old(state).brb).actor),
        !is_member(old(state).brb, actor_key(actor)),
    ensures
        final(state).brb == join_outcome(old(state).brb, actor_key(actor)).0,
        r@.len() >= old(router).peers@.len(),
        outcome_goes_out(
            *final(router),
            join_outcome(old(state).brb, actor_key(actor)).1,
            r@.skip(old(router).peers@.len() as int),
        ),
        join_is_owed(old(state).brb, actor_key(actor)) ==> goes_to_every_member(
            old(state).brb,
            join_outcome(old(state).brb, actor_key(actor)).1,
        ),
{
    let before = old(state).brb;
    let key = actor_key(actor);
    let n = old(router).peers@.len() as int;
    lemma_addr_of_entry(old(router).peers@, key);
    assert(action_views(r@).len() == r@.len());
    assert(old(router)@.peers.len() == n);
    assert(action_views(r@).skip(n) =~= action_views(r@.skip(n)));
    if let Some(packets) = join_outcome(before, key).1 {
        lemma_all_go_out(*final(router), packets, r@.skip(n));
        lemma_every_member(before, packets);
    } else {
        assert(action_views(r@.skip(n)).len() == r@.skip(n).len());
    }
}

/// A node without a group follows a new peer: it forces the peer into its group, and after
/// the introductions two seconds pass before it catches up with that peer.
pub proof fn groupless_node_follows_the_newcomer(
    router: &mut Router,
    state: &mut SharedBRB,
    actor: Actor,
    addr: String,
    r: Vec<Action>,
)
    requires
        call_ensures(Router::apply, (router, state, RouterCmd::AddPeer(actor, addr)), r),
        is_unknown(old(router).peers@, actor_key(actor)),
        old(router).auto_join,
        actor_key(actor) != brb_view(old(state).brb).actor,
        forall|k: Seq<u8>| !#[trigger] is_member(old(state).brb, k),
    ensures
        final(state).brb == force_join_outcome(old(state).brb, actor_key(actor)),
        r@.len() == old(router).peers@.len() + 2,
        r@[r@.len() - 2] matches Action::Wait(seconds) && seconds == 2,
        r@[r@.len() - 1] matches Action::Then(RouterCmd::CatchUp(whom)) && actor_key(whom)
            == actor_key(actor),
{
    let before = old(state).brb;
    let n = old(router).peers@.len() as int;
    lemma_addr_of_entry(old(router).peers@, actor_key(actor));
    assert forall|k: Seq<u8>| !#[trigger] voting(before).contains(k) by {
        assert(!is_member(before, k));
    }
    assert(voting(before) =~= Set::<Seq<u8>>::empty());
    let views = action_views(r@);
    assert(views.len() == r@.len());
    assert(old(router)@.peers.len() == n);
    assert(views.skip(n).len() == 2);
    assert(views.skip(n)[0] == views[n]);
    assert(views.skip(n)[1] == views[n + 1]);
    assert(views[n] == r@[n]@);
    assert(views[n + 1] == r@[n + 1]@);
}

/// In all other cases the newcomer is introduced and nothing more: where the router does not
/// see to the group by itself, where the newcomer is the node itself or a member, and where
/// there is a group to which the node does not belong.
pub proof fn newcomer_is_else_left_alone(
    router: &mut Router,
    state: &mut SharedBRB,
    actor: Actor,
    addr: String,
    r: Vec<Action>,
    someone: Seq<u8>,
)
    requires
        call_ensures(Router::apply, (router, state, RouterCmd::AddPeer(actor, addr)), r),
        is_unknown(old(router).peers@, actor_key(actor)),
        ({
            let before = old(state).brb;
            ||| !old(router).auto_join
            ||| actor_key(actor) == brb_view(before).actor
            ||| is_member(before, actor_key(actor))
            ||| is_member(before, someone) && !is_member(before, brb_view(before).actor)
        }),
    ensures
        final(state).brb == old(state).brb,
        r@.len() == old(router).peers@.len(),
{
    let n = old(router).peers@.len() as int;
    lemma_addr_of_entry(old(router).peers@, actor_key(actor));
    assert(action_views(r@).len() == r@.len());
    assert(old(router)@.peers.len() == n);
    assert(action_views(r@).skip(n).len() == r@.len() - n);
    assert(voting(old(state).brb).contains(someone) == is_member(old(state).brb, someone));
    assert(voting(old(state).brb).contains(actor_key(actor)) == is_member(
        old(state).brb,
        actor_key(actor),
    ));
}

/// A new router knows nobody, has nothing to send again, and sees to the group by itself.
pub proof fn new_router_knows_nobody(addr: String, local_addr: String, r: Router)
    requires
        call_ensures(Router::new, (addr, local_addr), r),
    ensures
        r.addr@ == addr@,
        r.local_addr@ == local_addr@,
        r.peers@.len() == 0,
        r.unacked_packets@.len() == 0,
        r.auto_join,
{
    assert(r@.peers.len() == r.peers@.len());
    assert(r@.unacked.len() == r.unacked_packets@.len());
}

} // verus!
