//! The words that pass between the parts of a node: commands for the router,
//! messages between nodes, and what the router wants done.
//!
//! A network address is a piece of text such as `192.168.0.250:12000`.
use crate::actor::actor_key;
use crate::agreement::FsPacket;
use brb::membership::actor::ed25519::Actor;
use vstd::prelude::*;

verus! {

/// A command for the router.
pub enum RouterCmd {
    Retry,
    Debug,
    AntiEntropy(String),
    /// Ask this actor, and no other, for what this node has not seen.
    CatchUp(Actor),
    ListPeers,
    RequestJoin(String),
    RequestLeave(String),
    Trust(String),
    Untrust(String),
    SayHello(String),
    AddPeer(Actor, String),
    Deliver(FsPacket),
    Apply(FsPacket),
}

/// A message from one node to another.
pub enum NetworkMsg {
    Peer(Actor, String),
    Packet(FsPacket),
}

/// Something that the router wants done. A list of actions is to be done in its order.
pub enum Action {
    /// Send a message to the node that listens at an address.
    Send(NetworkMsg, String),
    /// Warn that a packet goes to an actor whose address is not known.
    Undeliverable(FsPacket),
    /// Print a line.
    Print(String),
    /// Wait for some seconds.
    Wait(u64),
    /// Give the router another command.
    Then(RouterCmd),
    /// Log the state of the router.
    Dump,
}

/// What a command says.
pub enum CmdView {
    Retry,
    Debug,
    AntiEntropy(Seq<char>),
    CatchUp(Seq<u8>),
    ListPeers,
    RequestJoin(Seq<char>),
    RequestLeave(Seq<char>),
    Trust(Seq<char>),
    Untrust(Seq<char>),
    SayHello(Seq<char>),
    AddPeer(Seq<u8>, Seq<char>),
    Deliver(FsPacket),
    Apply(FsPacket),
}

/// What a message says.
pub enum MsgView {
    Peer(Seq<u8>, Seq<char>),
    Packet(FsPacket),
}

/// What an action says.
pub enum ActionView {
    Send(MsgView, Seq<char>),
    Undeliverable(FsPacket),
    Print(Seq<char>),
    Wait(u64),
    Then(CmdView),
    Dump,
}

impl View for RouterCmd {
    type V = CmdView;

    open spec fn view(&self) -> CmdView {
        match *self {
            RouterCmd::Retry => CmdView::Retry,
            RouterCmd::Debug => CmdView::Debug,
            RouterCmd::AntiEntropy(id) => CmdView::AntiEntropy(id@),
            RouterCmd::CatchUp(actor) => CmdView::CatchUp(actor_key(actor)),
            RouterCmd::ListPeers => CmdView::ListPeers,
            RouterCmd::RequestJoin(id) => CmdView::RequestJoin(id@),
            RouterCmd::RequestLeave(id) => CmdView::RequestLeave(id@),
            RouterCmd::Trust(id) => CmdView::Trust(id@),
            RouterCmd::Untrust(id) => CmdView::Untrust(id@),
            RouterCmd::SayHello(addr) => CmdView::SayHello(addr@),
            RouterCmd::AddPeer(actor, addr) => CmdView::AddPeer(actor_key(actor), addr@),
            RouterCmd::Deliver(packet) => CmdView::Deliver(packet),
            RouterCmd::Apply(packet) => CmdView::Apply(packet),
        }
    }
}

impl View for NetworkMsg {
    type V = MsgView;

    open spec fn view(&self) -> MsgView {
        match *self {
            NetworkMsg::Peer(actor, addr) => MsgView::Peer(actor_key(actor), addr@),
            NetworkMsg::Packet(packet) => MsgView::Packet(packet),
        }
    }
}

impl View for Action {
    type V = ActionView;

    open spec fn view(&self) -> ActionView {
        match *self {
            Action::Send(msg, addr) => ActionView::Send(msg@, addr@),
            Action::Undeliverable(packet) => ActionView::Undeliverable(packet),
            Action::Print(line) => ActionView::Print(line@),
            Action::Wait(seconds) => ActionView::Wait(seconds),
            Action::Then(cmd) => ActionView::Then(cmd@),
            Action::Dump => ActionView::Dump,
        }
    }
}

/// The views of a list of actions.
pub open spec fn action_views(actions: Seq<Action>) -> Seq<ActionView> {
    actions.map_values(|a: Action| a@)
}

impl NetworkMsg {
    /// The command that a message from another node gives to the router: a peer is
    /// added, a packet is taken in.
    pub fn into_cmd(self) -> (r: RouterCmd)
        ensures
            r@ == (match self@ {
                MsgView::Peer(key, addr) => CmdView::AddPeer(key, addr),
                MsgView::Packet(packet) => CmdView::Apply(packet),
            }),
    {
        match self {
            NetworkMsg::Peer(actor, addr) => RouterCmd::AddPeer(actor, addr),
            NetworkMsg::Packet(packet) => RouterCmd::Apply(packet),
        }
    }
}

} // verus!
