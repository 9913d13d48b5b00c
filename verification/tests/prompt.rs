use brb::membership::actor::ed25519::Actor;
use brb_node_snfs::command::{NetworkMsg, RouterCmd};
use brb_node_snfs::config::NodeConfig;
use brb_node_snfs::mount::{leftover_files, DirEntry};
use brb_node_snfs::repl::{Repl, Reply};
use brb_node_snfs::shared::SharedBRB;

fn args(words: &[&str]) -> Vec<String> {
    words.iter().map(|w| w.to_string()).collect()
}

fn said(reply: Reply) -> String {
    match reply {
        Reply::Say(text) => text,
        _ => panic!("expected a text"),
    }
}

#[test]
fn peer_says_hello_to_an_address() {
    let reply = Repl::peer(&args(&["10.0.0.1:12000"]), Some("10.0.0.1:12000".to_string()));
    assert!(matches!(reply, Reply::Queue(RouterCmd::SayHello(addr)) if addr == "10.0.0.1:12000"));
    assert!(matches!(Repl::peer(&args(&["nowhere"]), None), Reply::BadAddr));
    assert_eq!(said(Repl::peer(&args(&[]), None)), "help: peer <ip>:<port>");
    let two = args(&["10.0.0.1:12000", "x"]);
    let addr = Some("10.0.0.1:12000".to_string());
    assert_eq!(said(Repl::peer(&two, addr)), "help: peer <ip>:<port>");
}

#[test]
fn peers_takes_no_arguments() {
    assert!(matches!(Repl::peers(&args(&[])), Reply::Queue(RouterCmd::ListPeers)));
    assert_eq!(said(Repl::peers(&args(&["x"]))), "help: peers expects no arguments");
}

#[test]
fn trust_takes_one_actor() {
    let reply = Repl::trust(&args(&["me"]));
    assert!(matches!(reply, Reply::Queue(RouterCmd::Trust(id)) if id == "me"));
    assert_eq!(said(Repl::trust(&args(&[]))), "help: trust id:8sdkgalsd | trust me");
    assert_eq!(said(Repl::trust(&args(&["a", "b"]))), "help: trust id:8sdkgalsd | trust me");
}

#[test]
fn untrust_takes_one_actor() {
    let reply = Repl::untrust(&args(&["i:12"]));
    assert!(matches!(reply, Reply::Queue(RouterCmd::Untrust(id)) if id == "i:12"));
    assert_eq!(said(Repl::untrust(&args(&[]))), "help: untrust id:8f4e");
}

#[test]
fn join_takes_one_actor() {
    let reply = Repl::join(&args(&["i:12"]));
    assert!(matches!(reply, Reply::Queue(RouterCmd::RequestJoin(id)) if id == "i:12"));
    assert_eq!(
        said(Repl::join(&args(&[]))),
        "help: join takes one arguments, the actor to add to the network"
    );
}

#[test]
fn leave_takes_one_actor() {
    let reply = Repl::leave(&args(&["i:12"]));
    assert!(matches!(reply, Reply::Queue(RouterCmd::RequestLeave(id)) if id == "i:12"));
    assert_eq!(
        said(Repl::leave(&args(&[]))),
        "help: leave takes one arguments, the actor to leave the network"
    );
}

#[test]
fn anti_entropy_takes_one_actor() {
    let reply = Repl::anti_entropy(&args(&["i:12"]));
    assert!(matches!(reply, Reply::Queue(RouterCmd::AntiEntropy(id)) if id == "i:12"));
    assert_eq!(
        said(Repl::anti_entropy(&args(&[]))),
        "help: anti_entropy takes one arguments, the actor to request data from"
    );
}

#[test]
fn retry_and_dbg_take_anything() {
    assert!(matches!(Repl::retry(&args(&["x"])), Reply::Queue(RouterCmd::Retry)));
    assert!(matches!(Repl::dbg(&args(&["x", "y"])), Reply::Queue(RouterCmd::Debug)));
}

#[test]
fn read_shows_the_tree() {
    let mut state = SharedBRB::new();
    assert!(matches!(Repl::read(&state, &args(&[])), Reply::Show(rows) if rows.is_empty()));
    let op = state.opmove(1, vec![3], 2);
    state.apply_op(vec![op]);
    match Repl::read(&state, &args(&["x"])) {
        Reply::Show(rows) => {
            assert_eq!(rows.len(), 1);
            assert_eq!(rows[0].id, 2);
            assert_eq!(rows[0].parent_id, 1);
            assert_eq!(rows[0].metadata, vec![3]);
        }
        _ => panic!("expected a tree"),
    }
}

#[test]
fn node_without_a_peer_trusts_itself() {
    let actor = Actor::default();
    let config = NodeConfig { mountpoint_path: b"/tmp/safe".to_vec(), peer_addr: None };
    let cmds = config.first_cmds(actor, "10.0.0.1:12000".to_string());
    assert_eq!(cmds.len(), 2);
    assert!(matches!(
        &cmds[0],
        RouterCmd::AddPeer(a, addr) if *a == actor && addr == "10.0.0.1:12000"
    ));
    assert!(matches!(&cmds[1], RouterCmd::Trust(id) if id == "me"));
}

#[test]
fn node_with_a_peer_says_hello_to_it() {
    let actor = Actor::default();
    let config = NodeConfig {
        mountpoint_path: b"/tmp/safe".to_vec(),
        peer_addr: Some("10.0.0.9:12000".to_string()),
    };
    let cmds = config.first_cmds(actor, "10.0.0.1:12000".to_string());
    assert_eq!(cmds.len(), 2);
    assert!(matches!(
        &cmds[0],
        RouterCmd::AddPeer(a, addr) if *a == actor && addr == "10.0.0.1:12000"
    ));
    assert!(matches!(&cmds[1], RouterCmd::SayHello(addr) if addr == "10.0.0.9:12000"));
}

#[test]
fn messages_become_commands() {
    let actor = Actor::default();
    let cmd = NetworkMsg::Peer(actor, "10.0.0.1:12000".to_string()).into_cmd();
    assert!(matches!(cmd, RouterCmd::AddPeer(a, addr) if a == actor && addr == "10.0.0.1:12000"));
    let packet = SharedBRB::new().anti_entropy(actor).unwrap();
    let inner = packet.inner.clone();
    let cmd = NetworkMsg::Packet(packet).into_cmd();
    assert!(matches!(cmd, RouterCmd::Apply(p) if p.inner == inner));
}

#[test]
fn only_plain_files_are_left_over() {
    let entries = vec![
        Some(DirEntry { name: b"1".to_vec(), is_file: true }),
        Some(DirEntry { name: b"sub".to_vec(), is_file: false }),
        None,
        Some(DirEntry { name: b"2".to_vec(), is_file: true }),
    ];
    assert_eq!(leftover_files(&entries), vec![b"1".to_vec(), b"2".to_vec()]);
    assert!(leftover_files(&vec![None]).is_empty());
    assert!(leftover_files(&vec![]).is_empty());
}
