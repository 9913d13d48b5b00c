//! What a node is started with.
use crate::actor::actor_key;
use crate::command::{CmdView, RouterCmd};
use brb::membership::actor::ed25519::Actor;
use vstd::prelude::*;

verus! {

/// The configuration of a node.
pub struct NodeConfig {
    /// The path of the empty directory on which the filesystem is mounted.
    pub mountpoint_path: Vec<u8>,
    /// The address of a peer. A node with a peer joins the group of that peer; a node
    /// without one founds a group.
    pub peer_addr: Option<String>,
}

impl NodeConfig {
    /// The commands with which the router of a node starts: the node is noted down
    /// among its own peers; then it makes itself known to its peer or, where it has none,
    /// trusts itself.
    pub fn first_cmds(&self, actor: Actor, addr: String) -> (r: Vec<RouterCmd>)
        ensures
            r@.len() == 2,
            r@[0]@ == CmdView::AddPeer(actor_key(actor), addr@),
            r@[1]@ == (match self.peer_addr {
                Some(peer) => CmdView::SayHello(peer@),
                None => CmdView::Trust("me"@),
            }),
    {
        let mut cmds: Vec<RouterCmd> = Vec::new();
        cmds.push(RouterCmd::AddPeer(actor, addr));
        match &self.peer_addr {
            Some(peer) => cmds.push(RouterCmd::SayHello(peer.clone())),
            None => cmds.push(RouterCmd::Trust("me".to_owned())),
        }
        cmds
    }
}

} // verus!
