//! The router of a node: it keeps the addresses of the peers, and turns every command
//! into changes of the node's state and a list of actions.
use crate::actor::{actor_key, actor_text, keys, same_actor, text_of_key};
use crate::agreement::{
    brb_view, handle_outcome, join_outcome, leave_outcome, packet_dest, packet_to, sync_outcome,
    voting, Brb, FsPacket,
};
use crate::command::{action_views, Action, ActionView, CmdView, MsgView, NetworkMsg, RouterCmd};
use crate::roster::{
    addr_of, contains_actor, find_addr, find_matching, identities, lists, matching, peer_keys,
    peer_line, peer_views, show_peer, sorted, Peer, PeerView,
};
use crate::shared::{
    join_requested, leave_requested, packet_handled, packets_of, peer_trusted, peer_untrusted,
    SharedBRB,
};
use brb::membership::actor::ed25519::Actor;
use std::collections::VecDeque;
use vstd::prelude::*;

verus! {

/// The router. It knows the address under which other nodes reach this one and the
/// address under which this node reaches itself.
pub struct Router {
    pub addr: String,
    pub local_addr: String,
    pub peers: Vec<Peer>,
    pub unacked_packets: VecDeque<FsPacket>,
    /// The router itself takes the steps to found a voting group or to join one.
    pub auto_join: bool,
}

/// What a router knows.
pub struct RouterView {
    pub addr: Seq<char>,
    pub local_addr: Seq<char>,
    pub peers: Seq<PeerView>,
    pub unacked: Seq<FsPacket>,
    pub auto_join: bool,
}

impl View for Router {
    type V = RouterView;

    open spec fn view(&self) -> RouterView {
        RouterView {
            addr: self.addr@,
            local_addr: self.local_addr@,
            peers: peer_views(self.peers@),
            unacked: self.unacked_packets@,
            auto_join: self.auto_join,
        }
    }
}

/// The address to which a message for `dest` is sent. The node does not go through its
/// outer address to reach itself.
pub open spec fn wire_addr(r: RouterView, dest: Seq<char>) -> Seq<char> {
    if dest == r.addr {
        r.local_addr
    } else {
        dest
    }
}

/// A message sent to the node that listens at `dest`.
pub open spec fn sent(r: RouterView, msg: MsgView, dest: Seq<char>) -> ActionView {
    ActionView::Send(msg, wire_addr(r, dest))
}

/// A packet sent to the peer for which it is meant.
pub open spec fn delivery(r: RouterView, packet: FsPacket) -> ActionView {
    match addr_of(r.peers, packet_dest(packet)) {
        Some(addr) => sent(r, MsgView::Packet(packet), addr),
        None => ActionView::Undeliverable(packet),
    }
}

/// Packets sent to the peers for which they are meant, in their order.
pub open spec fn deliveries(r: RouterView, packets: Seq<FsPacket>) -> Seq<ActionView> {
    packets.map_values(|p: FsPacket| delivery(r, p))
}

/// The actor that is meant by a piece of text: `me`, or the start of the text of
/// exactly one peer.
pub open spec fn resolved(r: RouterView, me: Seq<u8>, id: Seq<char>) -> Option<Seq<u8>> {
    if id == "me"@ {
        Some(me)
    } else if matching(r.peers, id).len() == 1 {
        Some(matching(r.peers, id)[0])
    } else {
        None
    }
}

/// What is printed where a piece of text does not mean one actor.
pub open spec fn complaint(r: RouterView, id: Seq<char>) -> Seq<ActionView> {
    let found = matching(r.peers, id);
    if id == "me"@ || found.len() == 1 {
        Seq::empty()
    } else if found.len() == 0 {
        seq![ActionView::Print("No actors with that actor id"@)]
    } else {
        seq![ActionView::Print("Ambiguous actor id, more than one actor matches:"@)]
            + found.map_values(|key: Seq<u8>| ActionView::Print(text_of_key(key)))
    }
}

/// The keys of all members of the voting group and of all peers.
pub open spec fn all_keys(r: RouterView, brb: Brb) -> Set<Seq<u8>> {
    voting(brb).union(peer_keys(r.peers).to_set())
}

/// The lines that show the members of the voting group and the peers, in ascending
/// order of their keys.
pub open spec fn peer_list(r: RouterView, brb: Brb) -> Seq<ActionView> {
    sorted(all_keys(r, brb)).map_values(
        |key: Seq<u8>|
            ActionView::Print(
                peer_line(
                    key,
                    addr_of(r.peers, key),
                    voting(brb).contains(key),
                    key == brb_view(brb).actor,
                ),
            ),
    )
}

/// The messages that tell a node of all peers.
pub open spec fn introductions(r: RouterView, dest: Seq<char>) -> Seq<ActionView> {
    r.peers.map_values(|p: PeerView| sent(r, MsgView::Peer(p.actor, p.addr), dest))
}

/// An actor trusted, if the text means one.
pub open spec fn trust_step(r: RouterView, before: Brb, id: Seq<char>, after: Brb) -> bool {
    match resolved(r, brb_view(before).actor, id) {
        Some(key) => peer_trusted(before, key, after),
        None => after == before,
    }
}

/// An actor no longer trusted, if the text means one.
pub open spec fn untrust_step(r: RouterView, before: Brb, id: Seq<char>, after: Brb) -> bool {
    match resolved(r, brb_view(before).actor, id) {
        Some(key) => peer_untrusted(before, key, after),
        None => after == before,
    }
}

/// A proposal that an actor joins the group, with its packets sent to the members.
pub open spec fn joining(
    r: RouterView,
    before: Brb,
    key: Seq<u8>,
    after: Brb,
    actions: Seq<ActionView>,
) -> bool {
    let packets = packets_of(join_outcome(before, key).1);
    join_requested(before, key, after, packets) && actions == deliveries(r, packets)
}

/// A proposal that an actor joins the group, if the text means one.
pub open spec fn join_step(
    r: RouterView,
    before: Brb,
    id: Seq<char>,
    after: Brb,
    actions: Seq<ActionView>,
) -> bool {
    match resolved(r, brb_view(before).actor, id) {
        Some(key) => joining(r, before, key, after, actions),
        None => after == before && actions == complaint(r, id),
    }
}

/// A proposal that an actor leaves the group, if the text means one.
pub open spec fn leave_step(
    r: RouterView,
    before: Brb,
    id: Seq<char>,
    after: Brb,
    actions: Seq<ActionView>,
) -> bool {
    match resolved(r, brb_view(before).actor, id) {
        Some(key) => {
            let packets = packets_of(leave_outcome(before, key).1);
            leave_requested(before, key, after, packets) && actions == deliveries(r, packets)
        },
        None => after == before && actions == complaint(r, id),
    }
}

/// The packet that is to catch up with an actor goes to that actor.
pub open spec fn asks(brb: Brb, key: Seq<u8>) -> bool {
    sync_outcome(brb, key) matches Some(packet) ==> packet_dest(packet) == key
}

/// What is done to catch up with an actor.
pub open spec fn catch_up_actions(r: RouterView, brb: Brb, key: Seq<u8>) -> Seq<ActionView> {
    match sync_outcome(brb, key) {
        Some(packet) => seq![delivery(r, packet)],
        None => Seq::empty(),
    }
}

/// What is done to catch up with an actor, if the text means one.
pub open spec fn sync_actions(r: RouterView, brb: Brb, id: Seq<char>) -> Seq<ActionView> {
    match resolved(r, brb_view(brb).actor, id) {
        Some(key) => catch_up_actions(r, brb, key),
        None => complaint(r, id),
    }
}

/// A node that votes sponsors a peer that does not.
pub open spec fn sponsors(r: RouterView, brb: Brb, key: Seq<u8>) -> bool {
    &&& r.auto_join
    &&& key != brb_view(brb).actor
    &&& voting(brb).contains(brb_view(brb).actor)
    &&& !voting(brb).contains(key)
}

/// A node without a group trusts the peer, so as to join its group.
pub open spec fn follows(r: RouterView, brb: Brb, key: Seq<u8>) -> bool {
    &&& r.auto_join
    &&& key != brb_view(brb).actor
    &&& voting(brb) == Set::<Seq<u8>>::empty()
}

/// What is done about the voting group when a new peer has been noted down.
pub open spec fn group_step(
    r: RouterView,
    before: Brb,
    key: Seq<u8>,
    after: Brb,
    actions: Seq<ActionView>,
) -> bool {
    if sponsors(r, before, key) {
        joining(r, before, key, after, actions)
    } else if follows(r, before, key) {
        &&& peer_trusted(before, key, after)
        &&& actions == seq![ActionView::Wait(2), ActionView::Then(CmdView::CatchUp(key))]
    } else {
        after == before && actions == Seq::<ActionView>::empty()
    }
}

/// The router once it has noted down a peer.
pub open spec fn with_peer(r: RouterView, key: Seq<u8>, addr: Seq<char>) -> RouterView {
    RouterView { peers: r.peers.push(PeerView { actor: key, addr }), ..r }
}

/// A peer added. One that is known already is passed over. A new one is told of all
/// other peers and noted down; then the voting group is seen to.
pub open spec fn add_peer_step(
    r: RouterView,
    before: Brb,
    key: Seq<u8>,
    addr: Seq<char>,
    r1: RouterView,
    after: Brb,
    actions: Seq<ActionView>,
) -> bool {
    if addr_of(r.peers, key) is Some {
        r1 == r && after == before && actions == Seq::<ActionView>::empty()
    } else {
        let n = r.peers.len() as int;
        &&& r1 == with_peer(r, key, addr)
        &&& actions.len() >= n
        &&& actions.take(n) == introductions(r, addr)
        &&& group_step(r1, before, key, after, actions.skip(n))
    }
}

/// A command: how the router and the broadcast change, and what is to be done.
pub open spec fn stepped(
    r: RouterView,
    before: Brb,
    cmd: CmdView,
    r1: RouterView,
    after: Brb,
    actions: Seq<ActionView>,
) -> bool {
    match cmd {
        CmdView::Retry => {
            &&& r1 == (RouterView { unacked: Seq::empty(), ..r })
            &&& after == before
            &&& actions == deliveries(r, r.unacked)
        },
        CmdView::Debug => r1 == r && after == before && actions == seq![ActionView::Dump],
        CmdView::AntiEntropy(id) => {
            &&& r1 == r
            &&& after == before
            &&& actions == sync_actions(r, before, id)
            &&& resolved(r, brb_view(before).actor, id) matches Some(key) ==> asks(before, key)
        },
        CmdView::CatchUp(key) => {
            &&& r1 == r
            &&& after == before
            &&& actions == catch_up_actions(r, before, key)
            &&& asks(before, key)
        },
        CmdView::ListPeers => {
            &&& r1 == r
            &&& after == before
            &&& actions == peer_list(r, before)
            &&& lists(sorted(all_keys(r, before)), all_keys(r, before))
        },
        CmdView::RequestJoin(id) => r1 == r && join_step(r, before, id, after, actions),
        CmdView::RequestLeave(id) => r1 == r && leave_step(r, before, id, after, actions),
        CmdView::Trust(id) => r1 == r && trust_step(r, before, id, after) && actions == complaint(
            r,
            id,
        ),
        CmdView::Untrust(id) => r1 == r && untrust_step(r, before, id, after) && actions
            == complaint(r, id),
        CmdView::SayHello(addr) => r1 == r && after == before && actions == seq![
            sent(r, MsgView::Peer(brb_view(before).actor, r.addr), addr),
        ],
        CmdView::AddPeer(key, addr) => add_peer_step(r, before, key, addr, r1, after, actions),
        CmdView::Deliver(packet) => r1 == r && after == before && actions == seq![
            delivery(r, packet),
        ],
        CmdView::Apply(packet) => {
            let packets = packets_of(handle_outcome(before, packet).1);
            &&& r1 == r
            &&& packet_handled(before, packet, after, packets)
            &&& actions == deliveries(r, packets)
        },
    }
}

impl Router {
    /// A router that knows no peers yet.
    pub fn new(addr: String, local_addr: String) -> (r: Router)
        ensures
            r@ == (RouterView {
                addr: addr@,
                local_addr: local_addr@,
                peers: Seq::empty(),
                unacked: Seq::empty(),
                auto_join: true,
            }),
    {
        let r = Router {
            addr,
            local_addr,
            peers: Vec::new(),
            unacked_packets: VecDeque::new(),
            auto_join: true,
        };
        assert(r@.peers =~= Seq::empty());
        assert(r@.unacked =~= Seq::empty());
        r
    }

    /// A message to the node that listens at `dest`.
    pub fn deliver_network_msg(&self, msg: NetworkMsg, dest: &String) -> (r: Action)
        ensures
            r@ == sent(self@, msg@, dest@),
    {
        let addr = if *dest == self.addr {
            self.local_addr.clone()
        } else {
            dest.clone()
        };
        Action::Send(msg, addr)
    }

    /// A packet to the peer for which it is meant.
    pub fn deliver_packet(&self, packet: FsPacket) -> (r: Action)
        ensures
            r@ == delivery(self@, packet),
    {
        let dest = packet_to(&packet);
        match find_addr(&self.peers, &dest) {
            Some(addr) => self.deliver_network_msg(NetworkMsg::Packet(packet), &addr),
            None => Action::Undeliverable(packet),
        }
    }

    /// Packets to the peers for which they are meant.
    pub fn deliver_packets(&self, packets: Vec<FsPacket>) -> (r: Vec<Action>)
        ensures
            action_views(r@) == deliveries(self@, packets@),
    {
        let mut actions: Vec<Action> = Vec::new();
        assert(action_views(actions@) =~= deliveries(self@, packets@.take(0)));
        for packet in it: packets
            invariant
                it.seq() == packets@,
                action_views(actions@) == deliveries(self@, packets@.take(it.index())),
        {
            let ghost done = packets@.take(it.index());
            assert(packet == packets@[it.index()]);
            actions.push(self.deliver_packet(packet));
            assert(packets@.take(it.index() + 1) =~= done.push(packet));
            assert(action_views(actions@) =~= deliveries(self@, done).push(
                delivery(self@, packet),
            ));
            assert(action_views(actions@) =~= deliveries(self@, packets@.take(it.index() + 1)));
        }
        assert(packets@.take(packets@.len() as int) =~= packets@);
        actions
    }

    /// The actor that is meant by a piece of text, and what to print where it does not
    /// mean one actor.
    pub fn resolve_actor(&self, state: &SharedBRB, actor_id: &String) -> (r: (
        Option<Actor>,
        Vec<Action>,
    ))
        ensures
            match r.0 {
                Some(actor) => resolved(self@, brb_view(state.brb).actor, actor_id@) == Some(
                    actor_key(actor),
                ),
                None => resolved(self@, brb_view(state.brb).actor, actor_id@) is None,
            },
            action_views(r.1@) == complaint(self@, actor_id@),
    {
        let mut actions: Vec<Action> = Vec::new();
        assert(action_views(actions@) =~= Seq::<ActionView>::empty());
        if *actor_id == "me".to_owned() {
            return (Some(state.actor()), actions);
        }
        let found = find_matching(&self.peers, actor_id);
        let ghost texts = matching(self@.peers, actor_id@);
        assert(texts.len() == found@.len());
        if found.len() > 1 {
            actions.push(
                Action::Print("Ambiguous actor id, more than one actor matches:".to_owned()),
            );
            let ghost head = seq![
                ActionView::Print("Ambiguous actor id, more than one actor matches:"@),
            ];
            let ghost shown = texts.map_values(|key: Seq<u8>| ActionView::Print(text_of_key(key)));
            let mut i: usize = 0;
            assert(action_views(actions@) =~= head + shown.take(0));
            while i < found.len()
                invariant
                    i <= found@.len(),
                    texts == keys(found@),
                    shown == texts.map_values(|key: Seq<u8>| ActionView::Print(text_of_key(key))),
                    action_views(actions@) == head + shown.take(i as int),
                decreases found.len() - i,
            {
                let ghost done = action_views(actions@);
                actions.push(Action::Print(actor_text(&found[i])));
                assert(action_views(actions@) =~= done.push(shown[i as int]));
                assert(head + shown.take(i + 1) =~= done.push(shown[i as int]));
                i = i + 1;
            }
            assert(shown.take(found@.len() as int) =~= shown);
            (None, actions)
        } else if found.len() == 0 {
            actions.push(Action::Print("No actors with that actor id".to_owned()));
            assert(action_views(actions@) =~= complaint(self@, actor_id@));
            (None, actions)
        } else {
            assert(keys(found@)[0] == actor_key(found@[0]));
            (Some(found[0]), actions)
        }
    }

    /// Asks an actor for what this node has not seen.
    pub fn catch_up(&self, state: &SharedBRB, actor: Actor) -> (r: Vec<Action>)
        ensures
            action_views(r@) == catch_up_actions(self@, state.brb, actor_key(actor)),
            asks(state.brb, actor_key(actor)),
    {
        let mut actions: Vec<Action> = Vec::new();
        if let Some(packet) = state.anti_entropy(actor) {
            actions.push(self.deliver_packet(packet));
        }
        assert(action_views(actions@) =~= catch_up_actions(self@, state.brb, actor_key(actor)));
        actions
    }

    /// Asks the actor that is meant for what this node has not seen.
    pub fn anti_entropy(&self, state: &SharedBRB, actor_id: &String) -> (r: Vec<Action>)
        ensures
            action_views(r@) == sync_actions(self@, state.brb, actor_id@),
            resolved(self@, brb_view(state.brb).actor, actor_id@) matches Some(key) ==> asks(
                state.brb,
                key,
            ),
    {
        let (found, actions) = self.resolve_actor(state, actor_id);
        match found {
            Some(actor) => self.catch_up(state, actor),
            None => actions,
        }
    }

    /// Proposes to the group that an actor joins it.
    pub fn propose(&self, state: &mut SharedBRB, actor: Actor) -> (r: Vec<Action>)
        ensures
            joining(self@, old(state).brb, actor_key(actor), final(state).brb, action_views(r@)),
    {
        self.deliver_packets(state.request_join(actor))
    }

    /// Proposes to the group that the actor that is meant joins it.
    pub fn request_join(&self, state: &mut SharedBRB, actor_id: &String) -> (r: Vec<Action>)
        ensures
            join_step(self@, old(state).brb, actor_id@, final(state).brb, action_views(r@)),
    {
        let (found, actions) = self.resolve_actor(state, actor_id);
        match found {
            Some(actor) => self.propose(state, actor),
            None => actions,
        }
    }

    /// Proposes to the group that the actor that is meant leaves it.
    pub fn request_leave(&self, state: &mut SharedBRB, actor_id: &String) -> (r: Vec<Action>)
        ensures
            leave_step(self@, old(state).brb, actor_id@, final(state).brb, action_views(r@)),
    {
        let (found, actions) = self.resolve_actor(state, actor_id);
        match found {
            Some(actor) => self.deliver_packets(state.request_leave(actor)),
            None => actions,
        }
    }

    /// Trusts the actor that is meant.
    pub fn trust(&self, state: &mut SharedBRB, actor_id: &String) -> (r: Vec<Action>)
        ensures
            trust_step(self@, old(state).brb, actor_id@, final(state).brb),
            action_views(r@) == complaint(self@, actor_id@),
    {
        let (found, actions) = self.resolve_actor(state, actor_id);
        if let Some(actor) = found {
            state.trust_peer(actor);
        }
        actions
    }

    /// Trusts the actor that is meant no longer.
    pub fn untrust(&self, state: &mut SharedBRB, actor_id: &String) -> (r: Vec<Action>)
        ensures
            untrust_step(self@, old(state).brb, actor_id@, final(state).brb),
            action_views(r@) == complaint(self@, actor_id@),
    {
        let (found, actions) = self.resolve_actor(state, actor_id);
        if let Some(actor) = found {
            state.untrust_peer(actor);
        }
        actions
    }

    /// Delivers once more the packets that were not acknowledged.
    pub fn retry(&mut self) -> (r: Vec<Action>)
        ensures
            final(self)@ == (RouterView { unacked: Seq::empty(), ..old(self)@ }),
            action_views(r@) == deliveries(old(self)@, old(self)@.unacked),
    {
        let ghost before = self@;
        let mut actions: Vec<Action> = Vec::new();
        let ghost mut done = Seq::<FsPacket>::empty();
        assert(before.unacked =~= done + self.unacked_packets@);
        assert(action_views(actions@) =~= deliveries(before, done));
        while self.unacked_packets.len() > 0
            invariant
                before.unacked == done + self.unacked_packets@,
                self@ == (RouterView { unacked: self.unacked_packets@, ..before }),
                action_views(actions@) == deliveries(before, done),
            decreases self.unacked_packets@.len(),
        {
            if let Some(packet) = self.unacked_packets.pop_front() {
                actions.push(self.deliver_packet(packet));
                proof {
                    assert(delivery(self@, packet) == delivery(before, packet));
                    assert(action_views(actions@) =~= deliveries(before, done).push(
                        delivery(before, packet),
                    ));
                    assert(action_views(actions@) =~= deliveries(before, done.push(packet)));
                    assert(before.unacked =~= done.push(packet) + self.unacked_packets@);
                    done = done.push(packet);
                }
            }
        }
        proof {
            assert(self.unacked_packets@ =~= Seq::empty());
            assert(done =~= before.unacked);
        }
        actions
    }

    /// Lists the members of the voting group and the peers, one line for each.
    pub fn list_peers(&self, state: &SharedBRB) -> (r: Vec<Action>)
        ensures
            action_views(r@) == peer_list(self@, state.brb),
            lists(sorted(all_keys(self@, state.brb)), all_keys(self@, state.brb)),
    {
        let voters = state.peers();
        let own = state.actor();
        let ids = identities(&voters, &self.peers);
        let ghost all = sorted(all_keys(self@, state.brb));
        let ghost lines = peer_list(self@, state.brb);
        let mut actions: Vec<Action> = Vec::new();
        let mut i: usize = 0;
        assert(action_views(actions@) =~= lines.take(0));
        while i < ids.len()
            invariant
                i <= ids@.len(),
                keys(voters@).to_set() == voting(state.brb),
                actor_key(own) == brb_view(state.brb).actor,
                all == sorted(all_keys(self@, state.brb)),
                keys(ids@) == all,
                lines == peer_list(self@, state.brb),
                action_views(actions@) == lines.take(i as int),
            decreases ids.len() - i,
        {
            let id = ids[i];
            let addr = find_addr(&self.peers, &id);
            let votes = contains_actor(&voters, &id);
            let line = show_peer(&id, addr, votes, same_actor(&id, &own));
            proof {
                assert(keys(ids@)[i as int] == actor_key(id));
                assert(votes == voting(state.brb).contains(actor_key(id)));
                assert(lines[i as int] == ActionView::Print(line@));
                assert(lines.take(i + 1) =~= lines.take(i as int).push(lines[i as int]));
            }
            let ghost done = action_views(actions@);
            actions.push(Action::Print(line));
            assert(action_views(actions@) =~= done.push(ActionView::Print(line@)));
            i = i + 1;
        }
        assert(keys(ids@).len() == lines.len());
        assert(lines.take(ids@.len() as int) =~= lines);
        actions
    }

    /// Tells another node where this one is.
    pub fn say_hello(&self, state: &SharedBRB, addr: &String) -> (r: Action)
        ensures
            r@ == sent(self@, MsgView::Peer(brb_view(state.brb).actor, self@.addr), addr@),
    {
        self.deliver_network_msg(NetworkMsg::Peer(state.actor(), self.addr.clone()), addr)
    }

    /// Tells the node at an address of all peers.
    pub fn introduce_peers(&self, dest: &String) -> (r: Vec<Action>)
        ensures
            action_views(r@) == introductions(self@, dest@),
    {
        let mut actions: Vec<Action> = Vec::new();
        let ghost all = introductions(self@, dest@);
        let mut i: usize = 0;
        assert(action_views(actions@) =~= all.take(0));
        while i < self.peers.len()
            invariant
                i <= self.peers@.len(),
                all == introductions(self@, dest@),
                action_views(actions@) == all.take(i as int),
            decreases self.peers.len() - i,
        {
            let ghost done = action_views(actions@);
            let msg = NetworkMsg::Peer(self.peers[i].actor, self.peers[i].addr.clone());
            actions.push(self.deliver_network_msg(msg, dest));
            proof {
                assert(self@.peers[i as int] == self.peers@[i as int]@);
                assert(action_views(actions@) =~= done.push(all[i as int]));
                assert(all.take(i + 1) =~= all.take(i as int).push(all[i as int]));
            }
            i = i + 1;
        }
        assert(all.take(self.peers@.len() as int) =~= all);
        actions
    }

    /// Sees to the voting group when a new peer has been noted down. A node that votes
    /// sponsors the peer; a node without a group trusts it, and soon catches up with it.
    pub fn join_group(&self, state: &mut SharedBRB, actor: &Actor) -> (r: Vec<Action>)
        ensures
            group_step(
                self@,
                old(state).brb,
                actor_key(*actor),
                final(state).brb,
                action_views(r@),
            ),
    {
        let own = state.actor();
        let nothing: Vec<Action> = Vec::new();
        assert(action_views(nothing@) =~= Seq::<ActionView>::empty());
        if !self.auto_join || same_actor(actor, &own) {
            return nothing;
        }
        let voters = state.peers();
        assert(keys(voters@).to_set().contains(actor_key(own)) == keys(voters@).contains(
            actor_key(own),
        ));
        assert(keys(voters@).to_set().contains(actor_key(*actor)) == keys(voters@).contains(
            actor_key(*actor),
        ));
        if contains_actor(&voters, &own) && !contains_actor(&voters, actor) {
            return self.propose(state, *actor);
        }
        if voters.len() == 0 {
            assert(voting(state.brb) =~= Set::<Seq<u8>>::empty());
            state.trust_peer(*actor);
            let mut actions: Vec<Action> = Vec::new();
            actions.push(Action::Wait(2));
            actions.push(Action::Then(RouterCmd::CatchUp(*actor)));
            assert(action_views(actions@) =~= seq![
                ActionView::Wait(2),
                ActionView::Then(CmdView::CatchUp(actor_key(*actor))),
            ]);
            return actions;
        }
        assert(voting(state.brb).contains(keys(voters@)[0]));
        nothing
    }

    /// Adds a peer.
    pub fn add_peer(
        &mut self,
        state: &mut SharedBRB,
        actor: Actor,
        addr: String,
    ) -> (r: Vec<Action>)
        ensures
            add_peer_step(
                old(self)@,
                old(state).brb,
                actor_key(actor),
                addr@,
                final(self)@,
                final(state).brb,
                action_views(r@),
            ),
    {
        let ghost before = self@;
        if find_addr(&self.peers, &actor).is_some() {
            let nothing: Vec<Action> = Vec::new();
            assert(action_views(nothing@) =~= Seq::<ActionView>::empty());
            return nothing;
        }
        let mut actions = self.introduce_peers(&addr);
        let ghost told = action_views(actions@);
        let ghost text = addr@;
        self.peers.push(Peer { actor, addr });
        assert(self@.peers =~= with_peer(before, actor_key(actor), text).peers);
        let mut more = self.join_group(state, &actor);
        let ghost group = action_views(more@);
        actions.append(&mut more);
        proof {
            assert(action_views(actions@) =~= told + group);
            assert((told + group).take(told.len() as int) =~= told);
            assert((told + group).skip(told.len() as int) =~= group);
        }
        actions
    }

    /// Carries out a command.
    pub fn apply(&mut self, state: &mut SharedBRB, cmd: RouterCmd) -> (r: Vec<Action>)
        ensures
            stepped(
                old(self)@,
                old(state).brb,
                cmd@,
                final(self)@,
                final(state).brb,
                action_views(r@),
            ),
            !(cmd is Retry || cmd is AddPeer) ==> *final(self) == *old(self),
    {
        let mut one: Vec<Action> = Vec::new();
        match cmd {
            RouterCmd::Retry => self.retry(),
            RouterCmd::Debug => {
                one.push(Action::Dump);
                assert(action_views(one@) =~= seq![ActionView::Dump]);
                one
            },
            RouterCmd::AntiEntropy(actor_id) => self.anti_entropy(state, &actor_id),
            RouterCmd::CatchUp(actor) => self.catch_up(state, actor),
            RouterCmd::ListPeers => self.list_peers(state),
            RouterCmd::RequestJoin(actor_id) => self.request_join(state, &actor_id),
            RouterCmd::RequestLeave(actor_id) => self.request_leave(state, &actor_id),
            RouterCmd::Trust(actor_id) => self.trust(state, &actor_id),
            RouterCmd::Untrust(actor_id) => self.untrust(state, &actor_id),
            RouterCmd::SayHello(addr) => {
                let hello = self.say_hello(state, &addr);
                one.push(hello);
                assert(action_views(one@) =~= seq![hello@]);
                one
            },
            RouterCmd::AddPeer(actor, addr) => self.add_peer(state, actor, addr),
            RouterCmd::Deliver(packet) => {
                let action = self.deliver_packet(packet);
                one.push(action);
                assert(action_views(one@) =~= seq![action@]);
                one
            },
            RouterCmd::Apply(packet) => {
                let packets = state.apply_packet(packet);
                self.deliver_packets(packets)
            },
        }
    }
}

} // verus!
