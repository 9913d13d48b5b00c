use brb::membership::actor::ed25519::Actor;
use brb_node_snfs::command::{Action, RouterCmd};
use brb_node_snfs::config::NodeConfig;
use brb_node_snfs::router::Router;
use brb_node_snfs::shared::SharedBRB;
use brb_node_snfs::store::{FsBrbTreeStore, Step};
use std::collections::VecDeque;

struct Node {
    state: SharedBRB,
    router: Router,
    store: FsBrbTreeStore,
    printed: Vec<String>,
}

/// Some nodes, the commands that wait for their routers, and those that wait for a
/// time when nothing else is going on.
struct Network {
    nodes: Vec<Node>,
    now: VecDeque<(usize, RouterCmd)>,
    later: VecDeque<(usize, RouterCmd)>,
}

fn outer(i: usize) -> String {
    format!("10.0.0.{}:12000", i)
}

fn local(i: usize) -> String {
    format!("192.168.0.{}:12000", i)
}

fn text(actor: &Actor) -> String {
    let bytes = actor.0.to_bytes();
    format!("i:{:02x}{:02x}{:02x}", bytes[0], bytes[1], bytes[2])
}

impl Network {
    fn new() -> Network {
        Network { nodes: Vec::new(), now: VecDeque::new(), later: VecDeque::new() }
    }

    /// Starts a node, and lets the network come to rest.
    fn start(&mut self, peer: Option<usize>) {
        let i = self.nodes.len();
        let state = SharedBRB::new();
        let config = NodeConfig { mountpoint_path: Vec::new(), peer_addr: peer.map(outer) };
        for cmd in config.first_cmds(state.actor(), outer(i)) {
            self.now.push_back((i, cmd));
        }
        self.nodes.push(Node {
            state,
            router: Router::new(outer(i), local(i)),
            store: FsBrbTreeStore::new(),
            printed: Vec::new(),
        });
        self.settle();
    }

    fn command(&mut self, i: usize, cmd: RouterCmd) {
        self.now.push_back((i, cmd));
        self.settle();
    }

    fn settle(&mut self) {
        loop {
            while let Some((i, cmd)) = self.now.pop_front() {
                let node = &mut self.nodes[i];
                for action in node.router.apply(&mut node.state, cmd) {
                    match action {
                        Action::Send(msg, addr) => {
                            let n = self.next_node(i, &addr);
                            self.now.push_back((n, msg.into_cmd()));
                        }
                        Action::Then(cmd) => self.later.push_back((i, cmd)),
                        Action::Print(line) => self.nodes[i].printed.push(line),
                        Action::Undeliverable(packet) => panic!("lost: {:?}", packet),
                        Action::Wait(_) | Action::Dump => {}
                    }
                }
            }
            match self.later.pop_front() {
                Some(next) => self.now.push_back(next),
                None => return,
            }
        }
    }

    fn next_node(&self, from: usize, addr: &str) -> usize {
        // Nobody reaches itself through its outer address.
        assert_ne!(addr, outer(from));
        if addr == local(from) {
            return from;
        }
        (0..self.nodes.len()).find(|i| addr == outer(*i)).unwrap()
    }

    /// Makes a move on a node's own tree.
    fn make(&mut self, i: usize, parent: u64, meta: Vec<u8>, child: u64) {
        let node = &mut self.nodes[i];
        let op = node.state.opmove(parent, meta, child);
        node.store.apply_op(&mut node.state, op);
    }

    /// Lets every node hand on one transaction at most. Returns whether any did.
    fn hand_on(&mut self) -> bool {
        let mut any = false;
        for i in 0..self.nodes.len() {
            let node = &mut self.nodes[i];
            match node.store.exec_ops_when_ready(&mut node.state) {
                Step::Deliver(packets) => {
                    any = true;
                    for packet in packets {
                        self.now.push_back((i, RouterCmd::Deliver(packet)));
                    }
                }
                Step::InFlight | Step::Idle => {}
            }
        }
        any
    }

    /// Lets the network come to rest with nothing left to hand on.
    fn finish(&mut self) {
        while self.hand_on() {
            self.settle();
        }
    }

    fn members(&self, i: usize) -> Vec<Actor> {
        self.nodes[i].state.peers()
    }

    fn sorted_actors(&self) -> Vec<Actor> {
        let mut list: Vec<Actor> = self.nodes.iter().map(|n| n.state.actor()).collect();
        list.sort();
        list
    }

    fn entry(&self, i: usize, id: u64) -> Option<(u64, Vec<u8>)> {
        self.nodes[i].state.find(id).map(|e| (e.parent_id, e.metadata))
    }
}

#[test]
fn client_joins_the_group_of_its_peer() {
    let mut net = Network::new();
    net.start(None);
    net.start(Some(0));
    let both = net.sorted_actors();
    for i in 0..2 {
        assert_eq!(net.members(i), both);
        net.command(i, RouterCmd::ListPeers);
        let expected: Vec<String> = both
            .iter()
            .map(|actor| {
                let n = (0..2).find(|n| net.nodes[*n].state.actor() == *actor).unwrap();
                let own = if n == i { "\t(self)" } else { "" };
                format!("{}@{}\t(voting){}", text(actor), outer(n), own)
            })
            .collect();
        assert_eq!(net.nodes[i].printed, expected);
    }
}

#[test]
fn third_node_joins_and_learns_of_all() {
    let mut net = Network::new();
    net.start(None);
    net.start(Some(0));
    net.start(Some(0));
    let all = net.sorted_actors();
    assert_eq!(net.members(0), all);
    assert_eq!(net.members(2), all);
    assert_eq!(net.nodes[2].router.peers.len(), 3);
}

#[test]
fn change_appears_on_both_nodes() {
    let mut net = Network::new();
    net.start(None);
    net.start(Some(0));
    net.make(1, 0, b"bell.txt".to_vec(), 5);
    // It is seen at once where it was made, and elsewhere when the group has agreed.
    assert_eq!(net.entry(1, 5), Some((0, b"bell.txt".to_vec())));
    assert_eq!(net.entry(0, 5), None);
    net.finish();
    for i in 0..2 {
        assert_eq!(net.entry(i, 5), Some((0, b"bell.txt".to_vec())));
        assert_eq!(net.nodes[i].state.children(0), vec![5]);
        assert_eq!(net.nodes[i].state.time().counter, 1);
        assert!(!net.nodes[i].state.has_pending_source_op());
    }
}

#[test]
fn conflict_is_settled_the_same_way_on_both_nodes() {
    let mut net = Network::new();
    net.start(None);
    net.start(Some(0));
    net.make(0, 0, vec![1], 10);
    net.finish();
    net.make(0, 0, vec![2], 10);
    net.make(1, 7, vec![3], 10);
    assert_ne!(net.entry(0, 10), net.entry(1, 10));
    net.finish();
    // Both moves carry the same time: the greater key wins.
    let first_is_greater = net.nodes[0].state.actor() > net.nodes[1].state.actor();
    let winner = if first_is_greater { (0, vec![2]) } else { (7, vec![3]) };
    assert_eq!(net.entry(0, 10), Some(winner.clone()));
    assert_eq!(net.entry(1, 10), Some(winner));
}

#[test]
fn moves_made_together_are_one_transaction() {
    let mut net = Network::new();
    net.start(None);
    net.start(Some(0));
    {
        let node = &mut net.nodes[0];
        assert!(matches!(node.store.exec_ops_when_ready(&mut node.state), Step::Idle));
        let ops = node.state.opmovetx_multi(vec![(0, vec![1], 10), (10, vec![2], 11)]);
        node.store.apply_ops(&mut node.state, ops);
        let op = node.state.opmove(10, vec![3], 12);
        node.store.apply_op(&mut node.state, op);
        assert_eq!(node.store.pending_ops.len(), 2);
        assert_eq!(node.store.pending_ops[0].len(), 2);
        assert_eq!(node.store.pending_ops[0][0].child_id, 10);
        assert_eq!(node.store.pending_ops[0][1].child_id, 11);
        assert_eq!(node.store.pending_ops[1].len(), 1);
        assert_eq!(node.store.pending_ops[1][0].child_id, 12);
        // All of them are seen at once on the node's own tree.
        let mut below = node.state.children(10);
        below.sort();
        assert_eq!(below, vec![11, 12]);
    }
    assert!(net.hand_on());
    {
        // The first transaction is in the air, as a whole: the second has to wait.
        let other = net.nodes[1].state.actor();
        let node = &mut net.nodes[0];
        assert_eq!(node.store.pending_ops.len(), 1);
        assert_eq!(node.store.pending_ops[0][0].child_id, 12);
        assert!(node.state.has_pending_source_op());
        assert!(matches!(node.store.exec_ops_when_ready(&mut node.state), Step::InFlight));
        assert_eq!(node.store.pending_ops.len(), 1);
        let packets = node.state.resend_pending_msgs();
        assert_eq!(packets.len(), 1);
        assert_eq!(packets[0].inner.dest, other);
    }
    assert_eq!(net.entry(1, 10), None);
    net.settle();
    // The other node has taken in both of its moves, and nothing of the second.
    assert_eq!(net.entry(1, 10), Some((0, vec![1])));
    assert_eq!(net.entry(1, 11), Some((10, vec![2])));
    assert_eq!(net.entry(1, 12), None);
    assert!(!net.nodes[0].state.has_pending_source_op());
    assert!(net.nodes[0].state.resend_pending_msgs().is_empty());
    net.finish();
    assert!(net.nodes[0].store.pending_ops.is_empty());
    assert_eq!(net.entry(1, 12), Some((10, vec![3])));
}

#[test]
fn empty_transaction_is_handed_on_like_any_other() {
    let mut net = Network::new();
    net.start(None);
    net.start(Some(0));
    let other = net.nodes[1].state.actor();
    let node = &mut net.nodes[0];
    node.store.apply_ops(&mut node.state, Vec::new());
    assert_eq!(node.store.pending_ops.len(), 1);
    assert!(node.store.pending_ops[0].is_empty());
    match node.store.exec_ops_when_ready(&mut node.state) {
        Step::Deliver(packets) => {
            assert_eq!(packets.len(), 1);
            assert_eq!(packets[0].inner.dest, other);
            for packet in packets {
                net.now.push_back((0, RouterCmd::Deliver(packet)));
            }
        }
        _ => panic!("expected a transaction to be handed on"),
    }
    assert!(net.nodes[0].store.pending_ops.is_empty());
    assert!(net.nodes[0].state.has_pending_source_op());
    net.settle();
    assert!(!net.nodes[0].state.has_pending_source_op());
    assert!(net.nodes[1].state.read().is_empty());
}

#[test]
fn transaction_with_a_foreign_stamp_is_refused() {
    let mut net = Network::new();
    net.start(None);
    net.start(Some(0));
    let mut ops = net.nodes[0].state.opmovetx_multi(vec![(0, vec![1], 10), (0, vec![2], 11)]);
    ops[1].actor = net.nodes[1].state.actor();
    assert!(net.nodes[0].state.exec_op(ops).is_empty());
    net.settle();
    assert_eq!(net.entry(0, 10), None);
    assert_eq!(net.entry(1, 10), None);
}

#[test]
fn votes_stand_above_trust() {
    let mut net = Network::new();
    net.start(None);
    net.start(Some(0));
    let both = net.sorted_actors();
    let voted_in = net.nodes[1].state.actor();
    let stranger = Actor::default();
    let state = &mut net.nodes[0].state;
    // The group has voted the second node in: it stays.
    state.untrust_peer(voted_in);
    assert_eq!(state.peers(), both);
    // Nobody has voted on a stranger.
    state.trust_peer(stranger);
    assert_eq!(state.peers().len(), 3);
    assert!(state.peers().contains(&stranger));
    state.untrust_peer(stranger);
    assert_eq!(state.peers(), both);
}

#[test]
fn actor_that_was_voted_out_stays_out() {
    let mut net = Network::new();
    net.start(None);
    net.start(Some(0));
    let leaver = net.nodes[1].state.actor();
    let stayer = net.nodes[0].state.actor();
    net.command(0, RouterCmd::RequestLeave(text(&leaver)));
    let state = &mut net.nodes[0].state;
    assert_eq!(state.peers(), vec![stayer]);
    state.trust_peer(leaver);
    assert_eq!(state.peers(), vec![stayer]);
}

#[test]
fn lone_member_needs_nobody_to_agree() {
    let mut net = Network::new();
    net.start(None);
    net.make(0, 0, vec![1], 10);
    let node = &mut net.nodes[0];
    match node.store.exec_ops_when_ready(&mut node.state) {
        Step::Deliver(packets) => assert!(packets.is_empty()),
        _ => panic!("expected a transaction to be handed on"),
    }
    assert!(!node.state.has_pending_source_op());
    assert_eq!(net.entry(0, 10), Some((0, vec![1])));
}

#[test]
fn newcomer_catches_up_with_older_changes() {
    let mut net = Network::new();
    net.start(None);
    net.make(0, 0, vec![1], 10);
    net.make(0, 10, vec![2], 11);
    net.finish();
    net.start(Some(0));
    assert_eq!(net.entry(1, 10), Some((0, vec![1])));
    assert_eq!(net.entry(1, 11), Some((10, vec![2])));
}

#[test]
fn member_leaves_when_the_group_agrees() {
    let mut net = Network::new();
    net.start(None);
    net.start(Some(0));
    let leaver = net.nodes[1].state.actor();
    let stayer = net.nodes[0].state.actor();
    net.command(0, RouterCmd::RequestLeave(text(&leaver)));
    assert_eq!(net.members(0), vec![stayer]);
}

#[test]
fn handed_move_leaves_the_group_alone() {
    let mut net = Network::new();
    net.start(None);
    net.start(Some(0));
    let before = net.members(0);
    let me = net.nodes[0].state.actor();
    let op = net.nodes[0].state.opmove(0, vec![1], 10);
    let packets = net.nodes[0].state.exec_op(vec![op]);
    assert_eq!(packets.len(), 1);
    assert!(packets.iter().all(|p| p.inner.dest != me));
    assert_eq!(net.members(0), before);
}
