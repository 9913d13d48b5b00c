//! The commands that a person types at the prompt of a node.
use crate::agreement::brb_view;
use crate::command::{CmdView, RouterCmd};
use crate::shared::SharedBRB;
use crate::tree::{lists_nodes, nodes, TreeRow};
use vstd::prelude::*;

verus! {

/// The prompt.
pub struct Repl;

/// What a typed command comes to.
pub enum Reply {
    /// A command for the router.
    Queue(RouterCmd),
    /// A text to print.
    Say(String),
    /// The nodes of a tree to show.
    Show(Vec<TreeRow>),
    /// The argument should have been a network address, and is none.
    BadAddr,
}

/// What a reply says.
pub enum ReplyView {
    Queue(CmdView),
    Say(Seq<char>),
    Show(Seq<TreeRow>),
    BadAddr,
}

impl View for Reply {
    type V = ReplyView;

    open spec fn view(&self) -> ReplyView {
        match *self {
            Reply::Queue(cmd) => ReplyView::Queue(cmd@),
            Reply::Say(text) => ReplyView::Say(text@),
            Reply::Show(rows) => ReplyView::Show(rows@),
            Reply::BadAddr => ReplyView::BadAddr,
        }
    }
}

impl Repl {
    /// `peer <ip>:<port>`: tells the node at an address of this one. `addr` is what the
    /// one argument reads as, where it reads as an address.
    pub fn peer(args: &[String], addr: Option<String>) -> (r: Reply)
        ensures
            r@ == (if args@.len() == 1 {
                match addr {
                    Some(text) => ReplyView::Queue(CmdView::SayHello(text@)),
                    None => ReplyView::BadAddr,
                }
            } else {
                ReplyView::Say("help: peer <ip>:<port>"@)
            }),
    {
        if args.len() == 1 {
            match addr {
                Some(text) => Reply::Queue(RouterCmd::SayHello(text)),
                None => Reply::BadAddr,
            }
        } else {
            Reply::Say("help: peer <ip>:<port>".to_owned())
        }
    }

    /// `peers`: lists the voting group and the peers.
    pub fn peers(args: &[String]) -> (r: Reply)
        ensures
            r@ == (if args@.len() == 0 {
                ReplyView::Queue(CmdView::ListPeers)
            } else {
                ReplyView::Say("help: peers expects no arguments"@)
            }),
    {
        if args.len() == 0 {
            Reply::Queue(RouterCmd::ListPeers)
        } else {
            Reply::Say("help: peers expects no arguments".to_owned())
        }
    }

    /// `trust <actor>`: counts an actor among the members.
    pub fn trust(args: &[String]) -> (r: Reply)
        ensures
            r@ == (if args@.len() == 1 {
                ReplyView::Queue(CmdView::Trust(args@[0]@))
            } else {
                ReplyView::Say("help: trust id:8sdkgalsd | trust me"@)
            }),
    {
        if args.len() == 1 {
            Reply::Queue(RouterCmd::Trust(args[0].clone()))
        } else {
            Reply::Say("help: trust id:8sdkgalsd | trust me".to_owned())
        }
    }

    /// `untrust <actor>`: counts an actor out of the members.
    pub fn untrust(args: &[String]) -> (r: Reply)
        ensures
            r@ == (if args@.len() == 1 {
                ReplyView::Queue(CmdView::Untrust(args@[0]@))
            } else {
                ReplyView::Say("help: untrust id:8f4e"@)
            }),
    {
        if args.len() == 1 {
            Reply::Queue(RouterCmd::Untrust(args[0].clone()))
        } else {
            Reply::Say("help: untrust id:8f4e".to_owned())
        }
    }

    /// `join <actor>`: proposes that an actor joins the group.
    pub fn join(args: &[String]) -> (r: Reply)
        ensures
            r@ == (if args@.len() == 1 {
                ReplyView::Queue(CmdView::RequestJoin(args@[0]@))
            } else {
                ReplyView::Say("help: join takes one arguments, the actor to add to the network"@)
            }),
    {
        if args.len() == 1 {
            Reply::Queue(RouterCmd::RequestJoin(args[0].clone()))
        } else {
            Reply::Say(
                "help: join takes one arguments, the actor to add to the network".to_owned(),
            )
        }
    }

    /// `leave <actor>`: proposes that an actor leaves the group.
    pub fn leave(args: &[String]) -> (r: Reply)
        ensures
            r@ == (if args@.len() == 1 {
                ReplyView::Queue(CmdView::RequestLeave(args@[0]@))
            } else {
                ReplyView::Say("help: leave takes one arguments, the actor to leave the network"@)
            }),
    {
        if args.len() == 1 {
            Reply::Queue(RouterCmd::RequestLeave(args[0].clone()))
        } else {
            Reply::Say(
                "help: leave takes one arguments, the actor to leave the network".to_owned(),
            )
        }
    }

    /// `anti_entropy <actor>`: asks an actor for what this node has not seen.
    pub fn anti_entropy(args: &[String]) -> (r: Reply)
        ensures
            r@ == (if args@.len() == 1 {
                ReplyView::Queue(CmdView::AntiEntropy(args@[0]@))
            } else {
                ReplyView::Say(
                    "help: anti_entropy takes one arguments, the actor to request data from"@,
                )
            }),
    {
        if args.len() == 1 {
            Reply::Queue(RouterCmd::AntiEntropy(args[0].clone()))
        } else {
            Reply::Say(
                "help: anti_entropy takes one arguments, the actor to request data from".to_owned(),
            )
        }
    }

    /// `retry`: delivers once more what was not acknowledged, whatever the arguments.
    pub fn retry(_args: &[String]) -> (r: Reply)
        ensures
            r@ == ReplyView::Queue(CmdView::Retry),
    {
        Reply::Queue(RouterCmd::Retry)
    }

    /// `read`: shows the tree, whatever the arguments.
    pub fn read(state: &SharedBRB, _args: &[String]) -> (r: Reply)
        ensures
            r@ is Show,
            lists_nodes(r@->Show_0, nodes(brb_view(state.brb).tree)),
    {
        Reply::Show(state.read())
    }

    /// `dbg`: logs the state of the router, whatever the arguments.
    pub fn dbg(_args: &[String]) -> (r: Reply)
        ensures
            r@ == ReplyView::Queue(CmdView::Debug),
    {
        Reply::Queue(RouterCmd::Debug)
    }
}

} // verus!
