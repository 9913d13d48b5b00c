use brb::membership::actor::ed25519::Actor;
use brb::membership::{Ballot, Reconfig};
use brb::Payload;
use brb_node_snfs::agreement::FsPacket;
use brb_node_snfs::command::{Action, NetworkMsg, RouterCmd};
use brb_node_snfs::roster::{
    contains_actor, find_addr, find_matching, has_prefix, identities, show_peer, Peer,
};
use brb_node_snfs::router::Router;
use brb_node_snfs::shared::{or_no_packets, SharedBRB};

fn text(actor: &Actor) -> String {
    let bytes = actor.0.to_bytes();
    format!("i:{:02x}{:02x}{:02x}", bytes[0], bytes[1], bytes[2])
}

/// Actors in ascending order of their keys, no two of them with the same text.
fn actors(n: usize) -> Vec<Actor> {
    let mut list: Vec<Actor> = Vec::new();
    while list.len() < n {
        let actor = Actor::default();
        if list.iter().all(|a| text(a) != text(&actor)) {
            list.push(actor);
        }
    }
    list.sort_by_key(|a| a.0.to_bytes());
    list
}

/// Another actor that shows itself with the same text.
fn twin(actor: &Actor) -> Actor {
    let mut bytes = actor.0.to_bytes().to_vec();
    loop {
        bytes[10] = bytes[10].wrapping_add(1);
        let encoded = bincode::serialize(&bytes).unwrap();
        if let Ok(other) = bincode::deserialize::<Actor>(&encoded) {
            assert!(other != *actor);
            assert_eq!(text(&other), text(actor));
            return other;
        }
    }
}

/// The actor whose entry into the group a packet proposes.
fn proposed_in(action: &Action) -> Actor {
    match action {
        Action::Send(NetworkMsg::Packet(packet), _) => match &packet.inner.payload {
            Payload::Membership(vote) => match &vote.ballot {
                Ballot::Propose(Reconfig::Join(actor)) => *actor,
                _ => panic!("expected a proposal to join"),
            },
            _ => panic!("expected a vote"),
        },
        _ => panic!("expected a packet"),
    }
}

fn node() -> (SharedBRB, Router) {
    (SharedBRB::new(), Router::new("10.0.0.1:12000".to_string(), "192.168.0.1:12000".to_string()))
}

fn printed(actions: &[Action]) -> Vec<String> {
    actions
        .iter()
        .map(|a| match a {
            Action::Print(line) => line.clone(),
            _ => panic!("expected a line to print"),
        })
        .collect()
}

fn told_of(action: &Action) -> (Actor, String, String) {
    match action {
        Action::Send(NetworkMsg::Peer(actor, addr), dest) => (*actor, addr.clone(), dest.clone()),
        _ => panic!("expected an introduction"),
    }
}

fn again(packet: &FsPacket) -> FsPacket {
    FsPacket { inner: packet.inner.clone() }
}

#[test]
fn texts_are_matched_from_their_start() {
    let s = |t: &str| t.to_string();
    assert!(has_prefix(&s("i:54"), &s("i:54")));
    assert!(has_prefix(&s("i:541914"), &s("i:54")));
    assert!(has_prefix(&s("i:541914"), &s("")));
    assert!(!has_prefix(&s("i:541914"), &s("i:64")));
    assert!(!has_prefix(&s("i:54"), &s("i:541914")));
    assert!(!has_prefix(&s("i:541914"), &s("54")));
}

#[test]
fn peers_are_found_by_actor_and_by_text() {
    let ids = actors(3);
    let peers = vec![
        Peer { actor: ids[1], addr: "b".to_string() },
        Peer { actor: ids[0], addr: "a".to_string() },
    ];
    assert_eq!(find_addr(&peers, &ids[0]), Some("a".to_string()));
    assert_eq!(find_addr(&peers, &ids[1]), Some("b".to_string()));
    assert_eq!(find_addr(&peers, &ids[2]), None);
    assert_eq!(find_matching(&peers, &text(&ids[0])), vec![ids[0]]);
    assert_eq!(find_matching(&peers, &"i:".to_string()), vec![ids[1], ids[0]]);
    assert!(find_matching(&peers, &text(&ids[2])).is_empty());
}

#[test]
fn identities_are_sorted_and_come_once() {
    let ids = actors(4);
    let voting = vec![ids[1], ids[3]];
    let peers = vec![
        Peer { actor: ids[2], addr: "c".to_string() },
        Peer { actor: ids[1], addr: "b".to_string() },
        Peer { actor: ids[0], addr: "a".to_string() },
    ];
    assert_eq!(identities(&voting, &peers), ids);
    assert!(identities(&vec![], &vec![]).is_empty());
    assert!(contains_actor(&voting, &ids[3]));
    assert!(!contains_actor(&voting, &ids[0]));
}

#[test]
fn line_of_a_peer() {
    let actor = Actor::default();
    let addr = Some("168.235.79.83:12000".to_string());
    let head = format!("{}@168.235.79.83:12000", text(&actor));
    assert_eq!(show_peer(&actor, addr.clone(), true, true), format!("{}\t(voting)\t(self)", head));
    assert_eq!(show_peer(&actor, addr.clone(), true, false), format!("{}\t(voting)", head));
    assert_eq!(show_peer(&actor, addr.clone(), false, true), format!("{}\t(self)", head));
    assert_eq!(show_peer(&actor, addr, false, false), head);
    let unknown = format!("{}@<unknown>", text(&actor));
    assert_eq!(show_peer(&actor, None, true, false), format!("{}\t(voting)", unknown));
}

#[test]
fn genesis_node_is_the_one_member() {
    let (mut state, mut router) = node();
    let me = state.actor();
    let actions = router.apply(&mut state, RouterCmd::AddPeer(me, "10.0.0.1:12000".to_string()));
    assert!(actions.is_empty());
    assert!(state.peers().is_empty());
    assert!(router.apply(&mut state, RouterCmd::Trust("me".to_string())).is_empty());
    assert_eq!(state.peers(), vec![me]);
    let lines = printed(&router.apply(&mut state, RouterCmd::ListPeers));
    assert_eq!(lines, vec![format!("{}@10.0.0.1:12000\t(voting)\t(self)", text(&me))]);
}

#[test]
fn list_is_sorted_and_marks_members() {
    let (mut state, mut router) = node();
    let ids = actors(3);
    let me = state.actor();
    router.auto_join = false;
    for i in [2, 0] {
        router.apply(&mut state, RouterCmd::AddPeer(ids[i], format!("10.0.1.{}:1", i)));
    }
    state.trust_peer(ids[0]);
    state.trust_peer(ids[1]);
    state.trust_peer(me);
    let mut expected: Vec<(Vec<u8>, String)> = vec![
        (ids[0].0.to_bytes().to_vec(), format!("{}@10.0.1.0:1\t(voting)", text(&ids[0]))),
        (ids[1].0.to_bytes().to_vec(), format!("{}@<unknown>\t(voting)", text(&ids[1]))),
        (ids[2].0.to_bytes().to_vec(), format!("{}@10.0.1.2:1", text(&ids[2]))),
        (me.0.to_bytes().to_vec(), format!("{}@<unknown>\t(voting)\t(self)", text(&me))),
    ];
    expected.sort();
    let lines = printed(&router.apply(&mut state, RouterCmd::ListPeers));
    assert_eq!(lines, expected.into_iter().map(|(_, line)| line).collect::<Vec<String>>());
}

#[test]
fn me_means_the_node_itself() {
    let (state, router) = node();
    let (actor, actions) = router.resolve_actor(&state, &"me".to_string());
    assert_eq!(actor, Some(state.actor()));
    assert!(actions.is_empty());
}

#[test]
fn start_of_a_text_means_the_one_peer() {
    let (mut state, mut router) = node();
    let ids = actors(2);
    router.auto_join = false;
    for id in &ids {
        router.apply(&mut state, RouterCmd::AddPeer(*id, "10.0.0.2:1".to_string()));
    }
    for id in &ids {
        let (actor, actions) = router.resolve_actor(&state, &text(id));
        assert_eq!(actor, Some(*id));
        assert!(actions.is_empty());
    }
}

#[test]
fn unknown_text_means_nobody() {
    let (mut state, mut router) = node();
    let (actor, actions) = router.resolve_actor(&state, &"i:".to_string());
    assert_eq!(actor, None);
    assert_eq!(printed(&actions), vec!["No actors with that actor id"]);
    for cmd in [
        RouterCmd::Trust("x".to_string()),
        RouterCmd::Untrust("x".to_string()),
        RouterCmd::RequestJoin("x".to_string()),
        RouterCmd::RequestLeave("x".to_string()),
        RouterCmd::AntiEntropy("x".to_string()),
    ] {
        let actions = router.apply(&mut state, cmd);
        assert_eq!(printed(&actions), vec!["No actors with that actor id"]);
        assert!(state.peers().is_empty());
    }
}

#[test]
fn ambiguous_text_lists_its_peers() {
    let (mut state, mut router) = node();
    let ids = actors(2);
    router.auto_join = false;
    for id in &ids {
        router.apply(&mut state, RouterCmd::AddPeer(*id, "10.0.0.2:1".to_string()));
    }
    let (actor, actions) = router.resolve_actor(&state, &"i:".to_string());
    assert_eq!(actor, None);
    assert_eq!(
        printed(&actions),
        vec![
            "Ambiguous actor id, more than one actor matches:".to_string(),
            text(&ids[0]),
            text(&ids[1]),
        ]
    );
    let actions = router.apply(&mut state, RouterCmd::Trust("i:".to_string()));
    assert_eq!(printed(&actions).len(), 3);
    assert!(state.peers().is_empty());
}

#[test]
fn own_outer_address_gives_way_to_the_local_one() {
    let (mut state, mut router) = node();
    let me = state.actor();
    let actions = router.apply(&mut state, RouterCmd::SayHello("10.0.0.1:12000".to_string()));
    assert_eq!(actions.len(), 1);
    assert_eq!(
        told_of(&actions[0]),
        (me, "10.0.0.1:12000".to_string(), "192.168.0.1:12000".to_string())
    );
    let actions = router.apply(&mut state, RouterCmd::SayHello("10.0.0.2:12000".to_string()));
    assert_eq!(
        told_of(&actions[0]),
        (me, "10.0.0.1:12000".to_string(), "10.0.0.2:12000".to_string())
    );
}

#[test]
fn packets_go_to_the_address_of_their_peer() {
    let (mut state, mut router) = node();
    let ids = actors(2);
    router.auto_join = false;
    router.apply(&mut state, RouterCmd::AddPeer(ids[0], "10.0.0.2:1".to_string()));
    let packet = state.anti_entropy(ids[0]).unwrap();
    assert_eq!(packet.inner.dest, ids[0]);
    let copy = again(&packet);
    let actions = router.apply(&mut state, RouterCmd::Deliver(packet));
    assert_eq!(actions.len(), 1);
    assert!(matches!(
        &actions[0],
        Action::Send(NetworkMsg::Packet(p), addr) if p.inner == copy.inner && addr == "10.0.0.2:1"
    ));
    let stray = state.anti_entropy(ids[1]).unwrap();
    let copy = again(&stray);
    let actions = router.apply(&mut state, RouterCmd::Deliver(stray));
    assert_eq!(actions.len(), 1);
    assert!(matches!(&actions[0], Action::Undeliverable(p) if p.inner == copy.inner));
}

#[test]
fn new_peer_is_told_of_the_others() {
    let (mut state, mut router) = node();
    let ids = actors(3);
    router.auto_join = false;
    let actions = router.apply(&mut state, RouterCmd::AddPeer(ids[0], "10.0.0.2:1".to_string()));
    assert!(actions.is_empty());
    let actions = router.apply(&mut state, RouterCmd::AddPeer(ids[1], "10.0.0.3:1".to_string()));
    assert_eq!(actions.len(), 1);
    assert_eq!(told_of(&actions[0]), (ids[0], "10.0.0.2:1".to_string(), "10.0.0.3:1".to_string()));
    let actions = router.apply(&mut state, RouterCmd::AddPeer(ids[2], "10.0.0.4:1".to_string()));
    assert_eq!(actions.len(), 2);
    assert_eq!(told_of(&actions[0]), (ids[0], "10.0.0.2:1".to_string(), "10.0.0.4:1".to_string()));
    assert_eq!(told_of(&actions[1]), (ids[1], "10.0.0.3:1".to_string(), "10.0.0.4:1".to_string()));
}

#[test]
fn known_peer_is_not_added_again() {
    let (mut state, mut router) = node();
    let ids = actors(2);
    router.auto_join = false;
    for id in &ids {
        router.apply(&mut state, RouterCmd::AddPeer(*id, "10.0.0.2:1".to_string()));
    }
    let actions = router.apply(&mut state, RouterCmd::AddPeer(ids[0], "10.0.0.9:1".to_string()));
    assert!(actions.is_empty());
    assert_eq!(router.peers.len(), 2);
    assert_eq!(find_addr(&router.peers, &ids[0]), Some("10.0.0.2:1".to_string()));
}

#[test]
fn node_without_a_group_follows_its_peer() {
    let (mut state, mut router) = node();
    let me = state.actor();
    let peer = actors(1)[0];
    router.apply(&mut state, RouterCmd::AddPeer(me, "10.0.0.1:12000".to_string()));
    let actions = router.apply(&mut state, RouterCmd::AddPeer(peer, "10.0.0.2:1".to_string()));
    assert_eq!(actions.len(), 3);
    assert_eq!(
        told_of(&actions[0]),
        (me, "10.0.0.1:12000".to_string(), "10.0.0.2:1".to_string())
    );
    assert!(matches!(&actions[1], Action::Wait(2)));
    assert!(matches!(
        &actions[2],
        Action::Then(RouterCmd::CatchUp(actor)) if *actor == peer
    ));
    assert_eq!(state.peers(), vec![peer]);
    let actions = router.apply(&mut state, RouterCmd::CatchUp(peer));
    assert_eq!(actions.len(), 1);
    assert!(matches!(
        &actions[0],
        Action::Send(NetworkMsg::Packet(p), addr) if p.inner.dest == peer && addr == "10.0.0.2:1"
    ));
}

#[test]
fn peer_is_followed_though_another_has_the_same_text() {
    let (mut state, mut router) = node();
    let known = actors(1)[0];
    let peer = twin(&known);
    router.auto_join = false;
    router.apply(&mut state, RouterCmd::AddPeer(known, "10.0.0.2:1".to_string()));
    router.auto_join = true;
    let actions = router.apply(&mut state, RouterCmd::AddPeer(peer, "10.0.0.3:1".to_string()));
    assert_eq!(actions.len(), 3);
    assert!(matches!(&actions[1], Action::Wait(2)));
    assert!(matches!(
        &actions[2],
        Action::Then(RouterCmd::CatchUp(actor)) if *actor == peer
    ));
    assert_eq!(state.peers(), vec![peer]);
    // At the prompt the text means neither.
    let (found, actions) = router.resolve_actor(&state, &text(&peer));
    assert_eq!(found, None);
    assert_eq!(actions.len(), 3);
}

#[test]
fn peer_is_sponsored_though_another_has_the_same_text() {
    let (mut state, mut router) = node();
    let me = state.actor();
    let known = actors(1)[0];
    let peer = twin(&known);
    router.apply(&mut state, RouterCmd::AddPeer(me, "10.0.0.1:12000".to_string()));
    router.apply(&mut state, RouterCmd::Trust("me".to_string()));
    router.auto_join = false;
    router.apply(&mut state, RouterCmd::AddPeer(known, "10.0.0.2:1".to_string()));
    router.auto_join = true;
    let actions = router.apply(&mut state, RouterCmd::AddPeer(peer, "10.0.0.3:1".to_string()));
    assert_eq!(actions.len(), 3);
    assert_eq!(proposed_in(&actions[2]), peer);
}

#[test]
fn member_sponsors_its_new_peer() {
    let (mut state, mut router) = node();
    let me = state.actor();
    let peer = actors(1)[0];
    router.apply(&mut state, RouterCmd::AddPeer(me, "10.0.0.1:12000".to_string()));
    router.apply(&mut state, RouterCmd::Trust("me".to_string()));
    let actions = router.apply(&mut state, RouterCmd::AddPeer(peer, "10.0.0.2:1".to_string()));
    assert_eq!(actions.len(), 2);
    assert_eq!(
        told_of(&actions[0]),
        (me, "10.0.0.1:12000".to_string(), "10.0.0.2:1".to_string())
    );
    // The proposal goes to the one member, which is the node itself.
    assert!(matches!(
        &actions[1],
        Action::Send(NetworkMsg::Packet(p), addr)
            if p.inner.dest == me && p.inner.source == me && addr == "192.168.0.1:12000"
    ));
    assert_eq!(proposed_in(&actions[1]), peer);
    assert_eq!(state.peers(), vec![me]);
}

#[test]
fn peer_among_the_members_is_left_alone() {
    let (mut state, mut router) = node();
    let peer = actors(1)[0];
    state.trust_peer(peer);
    let actions = router.apply(&mut state, RouterCmd::AddPeer(peer, "10.0.0.2:1".to_string()));
    assert!(actions.is_empty());
    assert_eq!(state.peers(), vec![peer]);
}

#[test]
fn outsider_of_a_group_proposes_nothing() {
    let (mut state, mut router) = node();
    let ids = actors(2);
    state.trust_peer(ids[0]);
    let actions = router.apply(&mut state, RouterCmd::AddPeer(ids[1], "10.0.0.2:1".to_string()));
    assert!(actions.is_empty());
    let actions = router.apply(&mut state, RouterCmd::RequestJoin(text(&ids[1])));
    assert!(actions.is_empty());
    assert_eq!(state.peers(), vec![ids[0]]);
}

#[test]
fn trust_is_taken_back() {
    let (mut state, mut router) = node();
    let ids = actors(2);
    router.auto_join = false;
    for id in &ids {
        router.apply(&mut state, RouterCmd::AddPeer(*id, "10.0.0.2:1".to_string()));
        assert!(router.apply(&mut state, RouterCmd::Trust(text(id))).is_empty());
    }
    assert_eq!(state.peers(), ids);
    state.trust_peer(ids[0]);
    assert_eq!(state.peers(), ids);
    assert!(router.apply(&mut state, RouterCmd::Untrust(text(&ids[0]))).is_empty());
    assert_eq!(state.peers(), vec![ids[1]]);
    state.untrust_peer(ids[1]);
    assert!(state.peers().is_empty());
}

#[test]
fn member_cannot_be_proposed_and_stranger_cannot_leave() {
    let mut state = SharedBRB::new();
    let me = state.actor();
    let other = actors(1)[0];
    state.trust_peer(me);
    assert!(state.request_join(me).is_empty());
    assert!(state.request_leave(other).is_empty());
    let packets = state.request_leave(me);
    assert_eq!(packets.len(), 1);
    assert_eq!(packets[0].inner.dest, me);
}

#[test]
fn full_group_takes_nobody_in() {
    let mut state = SharedBRB::new();
    let me = state.actor();
    let ids = actors(7);
    state.trust_peer(me);
    for id in &ids[..5] {
        state.trust_peer(*id);
    }
    assert_eq!(state.request_join(ids[6]).len(), 6);
    let mut full = SharedBRB::new();
    let me = full.actor();
    full.trust_peer(me);
    for id in &ids[..6] {
        full.trust_peer(*id);
    }
    assert_eq!(full.peers().len(), 7);
    assert!(full.request_join(ids[6]).is_empty());
    let packets = full.request_leave(ids[0]);
    let dests: Vec<Actor> = packets.iter().map(|p| p.inner.dest).collect();
    assert_eq!(dests, full.peers());
}

#[test]
fn refused_packet_has_no_answer() {
    let mut state = SharedBRB::new();
    let mut forged = SharedBRB::new().anti_entropy(state.actor()).unwrap();
    forged.inner.source = Actor::default();
    assert!(state.apply_packet(forged).is_empty());
    assert!(or_no_packets(None).is_empty());
    let packet = SharedBRB::new().anti_entropy(state.actor()).unwrap();
    assert_eq!(or_no_packets(Some(vec![packet])).len(), 1);
}

#[test]
fn anti_entropy_asks_the_peer_that_is_meant() {
    let (mut state, mut router) = node();
    let peer = actors(1)[0];
    router.auto_join = false;
    router.apply(&mut state, RouterCmd::AddPeer(peer, "10.0.0.2:1".to_string()));
    let actions = router.apply(&mut state, RouterCmd::AntiEntropy(text(&peer)));
    assert_eq!(actions.len(), 1);
    assert!(matches!(
        &actions[0],
        Action::Send(NetworkMsg::Packet(p), addr) if p.inner.dest == peer && addr == "10.0.0.2:1"
    ));
}

#[test]
fn unacknowledged_packets_are_delivered_once_more() {
    let (mut state, mut router) = node();
    let ids = actors(2);
    router.auto_join = false;
    router.apply(&mut state, RouterCmd::AddPeer(ids[0], "10.0.0.2:1".to_string()));
    router.unacked_packets.push_back(state.anti_entropy(ids[0]).unwrap());
    router.unacked_packets.push_back(state.anti_entropy(ids[1]).unwrap());
    let actions = router.apply(&mut state, RouterCmd::Retry);
    assert_eq!(actions.len(), 2);
    assert!(matches!(
        &actions[0],
        Action::Send(NetworkMsg::Packet(p), addr) if p.inner.dest == ids[0] && addr == "10.0.0.2:1"
    ));
    assert!(matches!(&actions[1], Action::Undeliverable(p) if p.inner.dest == ids[1]));
    assert!(router.unacked_packets.is_empty());
    assert!(router.apply(&mut state, RouterCmd::Retry).is_empty());
}

#[test]
fn debug_dumps_the_router() {
    let (mut state, mut router) = node();
    let actions = router.apply(&mut state, RouterCmd::Debug);
    assert_eq!(actions.len(), 1);
    assert!(matches!(&actions[0], Action::Dump));
}
