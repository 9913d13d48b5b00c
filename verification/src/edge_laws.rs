//! What the small parts around a node come to: the prompt, the start of a node, the roster,
//! the messages, the transactions of the broadcast, and what is left at the mount point.
use crate::actor::{actor_key, key_lt, keys, text_of_key};
use crate::agreement::brb_view;
use crate::command::{NetworkMsg, RouterCmd};
use crate::config::NodeConfig;
use crate::mount::{file_names, leftover_files, DirEntry};
use crate::repl::{Repl, Reply};
use crate::roster::{
    contains_actor, find_addr, find_matching, has_prefix, identities, lists, peer_keys, peer_views,
    show_peer, Peer,
};
use crate::router_laws::{entry_of, is_unknown, lemma_addr_of_entry, lemma_filter_places, starts};
use crate::shared::SharedBRB;
use crate::tree::{made_by, nodes, plain_views, MoveView, PlainMove};
use brb::membership::actor::ed25519::Actor;
use vstd::prelude::*;

verus! {

/// A reply is this text to print.
pub open spec fn says_text(r: Reply, text: Seq<char>) -> bool {
    r matches Reply::Say(said) && said@ == text
}

/// `peer` with one argument greets the node at the address that the argument reads as, and
/// says so where it reads as none; otherwise it explains itself.
pub proof fn peer_greets_an_address(args: &[String], addr: Option<String>, r: Reply)
    requires
        call_ensures(Repl::peer, (args, addr), r),
    ensures
        args@.len() == 1 && addr is Some ==> (r matches Reply::Queue(RouterCmd::SayHello(to))
            && to@ == addr->0@),
        args@.len() == 1 && addr is None ==> r is BadAddr,
        args@.len() != 1 ==> says_text(r, "help: peer <ip>:<port>"@),
{
}

/// `peers` without arguments lists the peers; otherwise it explains itself.
pub proof fn peers_lists(args: &[String], r: Reply)
    requires
        call_ensures(Repl::peers, (args,), r),
    ensures
        args@.len() == 0 ==> r matches Reply::Queue(RouterCmd::ListPeers),
        args@.len() != 0 ==> says_text(r, "help: peers expects no arguments"@),
{
}

/// `trust` with one argument trusts the actor of that text, whatever the text; otherwise it
/// explains itself.
pub proof fn trust_takes_any_text(args: &[String], r: Reply)
    requires
        call_ensures(Repl::trust, (args,), r),
    ensures
        args@.len() == 1 ==> (r matches Reply::Queue(RouterCmd::Trust(id)) && id@ == args@[0]@),
        args@.len() != 1 ==> says_text(r, "help: trust id:8sdkgalsd | trust me"@),
{
}

/// `untrust` with one argument trusts the actor of that text no longer, whatever the text;
/// otherwise it explains itself.
pub proof fn untrust_takes_any_text(args: &[String], r: Reply)
    requires
        call_ensures(Repl::untrust, (args,), r),
    ensures
        args@.len() == 1 ==> (r matches Reply::Queue(RouterCmd::Untrust(id)) && id@ == args@[0]@),
        args@.len() != 1 ==> says_text(r, "help: untrust id:8f4e"@),
{
}

/// `join` with one argument proposes the actor of that text, whatever the text; otherwise it
/// explains itself.
pub proof fn join_takes_any_text(args: &[String], r: Reply)
    requires
        call_ensures(Repl::join, (args,), r),
    ensures
        args@.len() == 1 ==> (r matches Reply::Queue(RouterCmd::RequestJoin(id)) && id@
            == args@[0]@),
        args@.len() != 1 ==> says_text(
            r,
            "help: join takes one arguments, the actor to add to the network"@,
        ),
{
}

/// `leave` with one argument proposes that the actor of that text leaves, whatever the text;
/// otherwise it explains itself.
pub proof fn leave_takes_any_text(args: &[String], r: Reply)
    requires
        call_ensures(Repl::leave, (args,), r),
    ensures
        args@.len() == 1 ==> (r matches Reply::Queue(RouterCmd::RequestLeave(id)) && id@
            == args@[0]@),
        args@.len() != 1 ==> says_text(
            r,
            "help: leave takes one arguments, the actor to leave the network"@,
        ),
{
}

/// `anti_entropy` with one argument asks the actor of that text, whatever the text; otherwise
/// it explains itself.
pub proof fn anti_entropy_takes_any_text(args: &[String], r: Reply)
    requires
        call_ensures(Repl::anti_entropy, (args,), r),
    ensures
        args@.len() == 1 ==> (r matches Reply::Queue(RouterCmd::AntiEntropy(id)) && id@
            == args@[0]@),
        args@.len() != 1 ==> says_text(
            r,
            "help: anti_entropy takes one arguments, the actor to request data from"@,
        ),
{
}

/// `retry` and `dbg` do the same, whatever the arguments.
pub proof fn retry_and_dbg_ignore_arguments(args: &[String], retried: Reply, dumped: Reply)
    requires
        call_ensures(Repl::retry, (args,), retried),
        call_ensures(Repl::dbg, (args,), dumped),
    ensures
        retried matches Reply::Queue(RouterCmd::Retry),
        dumped matches Reply::Queue(RouterCmd::Debug),
{
}

/// `read` shows every node of the tree, each once and as it is, and nothing else, whatever
/// the arguments.
pub proof fn read_shows_every_node(state: SharedBRB, args: &[String], r: Reply, id: u64)
    requires
        call_ensures(Repl::read, (&state, args), r),
    ensures
        r matches Reply::Show(rows) && {
            let tree = nodes(brb_view(state.brb).tree);
            &&& tree.contains_key(id) <==> exists|i: int|
                0 <= i < rows@.len() && (#[trigger] rows@[i]).id == id
            &&& forall|i: int|
                0 <= i < rows@.len() ==> tree[(#[trigger] rows@[i]).id].parent
                    == rows@[i].parent_id && tree[rows@[i].id].meta == rows@[i].metadata@
            &&& forall|i: int, j: int|
                0 <= i < j < rows@.len() ==> (#[trigger] rows@[i]).id != (#[trigger] rows@[j]).id
        },
{
    let rows = r->Show_0;
    assert(r@->Show_0 == rows@);
}

/// A node notes itself down first, under the address at which it listens; then it greets its
/// peer or, where it has none, trusts itself.
pub proof fn node_starts_by_noting_itself(
    config: NodeConfig,
    actor: Actor,
    addr: String,
    r: Vec<RouterCmd>,
)
    requires
        call_ensures(NodeConfig::first_cmds, (&config, actor, addr), r),
    ensures
        r@.len() == 2,
        r@[0] matches RouterCmd::AddPeer(who, at) && actor_key(who) == actor_key(actor) && at@
            == addr@,
        config.peer_addr matches Some(peer) ==> (r@[1] matches RouterCmd::SayHello(to) && to@
            == peer@),
        config.peer_addr is None ==> (r@[1] matches RouterCmd::Trust(id) && id@ == "me"@),
{
}

/// A message of a peer adds that peer at its address, and a packet is taken in as it is.
pub proof fn message_becomes_a_command(msg: NetworkMsg, r: RouterCmd)
    requires
        call_ensures(NetworkMsg::into_cmd, (msg,), r),
    ensures
        msg matches NetworkMsg::Peer(actor, addr) ==> (r matches RouterCmd::AddPeer(who, at)
            && actor_key(who) == actor_key(actor) && at@ == addr@),
        msg matches NetworkMsg::Packet(packet) ==> (r matches RouterCmd::Apply(p) && p == packet),
{
}

/// A text starts with another where the first characters are the same, one by one.
pub proof fn prefix_is_the_same_at_the_start(text: String, prefix: String, r: bool)
    requires
        call_ensures(has_prefix, (&text, &prefix), r),
    ensures
        r <==> prefix@.len() <= text@.len() && forall|i: int|
            0 <= i < prefix@.len() ==> #[trigger] prefix@[i] == text@[i],
{
    if prefix@.len() <= text@.len() && forall|i: int|
        0 <= i < prefix@.len() ==> #[trigger] prefix@[i] == text@[i] {
        assert(prefix@ =~= text@.subrange(0, prefix@.len() as int));
    }
    if r {
        assert forall|i: int| 0 <= i < prefix@.len() implies #[trigger] prefix@[i] == text@[i] by {
            assert(text@.subrange(0, prefix@.len() as int)[i] == text@[i]);
        }
    }
}

/// The address that is found for an actor is that of its first entry, and there is none if
/// and only if there is no entry.
pub proof fn address_of_the_entry_is_found(peers: Vec<Peer>, actor: Actor, r: Option<String>)
    requires
        call_ensures(find_addr, (&peers, &actor), r),
    ensures
        r is None <==> is_unknown(peers@, actor_key(actor)),
        r matches Some(addr) ==> exists|i: int| #[trigger]
            entry_of(peers@, actor_key(actor), i) && addr@ == peers@[i].addr@,
{
    lemma_addr_of_entry(peers@, actor_key(actor));
}

/// The peers whose text starts like `id` are found, all of them and nobody else, in the order
/// of the roster.
pub proof fn all_that_start_alike_are_found(
    peers: Vec<Peer>,
    id: String,
    r: Vec<Actor>,
) -> (places: Seq<int>)
    requires
        call_ensures(find_matching, (&peers, &id), r),
    ensures
        places.len() == r@.len(),
        forall|k: int|
            0 <= k < places.len() ==> 0 <= #[trigger] places[k] < peers@.len() && starts(
                id@,
                peers@[places[k]],
            ) && actor_key(r@[k]) == actor_key(peers@[places[k]].actor),
        forall|k: int, l: int|
            0 <= k < l < places.len() ==> #[trigger] places[k] < #[trigger] places[l],
        forall|i: int|
            0 <= i < peers@.len() && starts(id@, #[trigger] peers@[i]) ==> places.contains(i),
{
    let all = peer_keys(peer_views(peers@));
    let pred = |key: Seq<u8>| id@.is_prefix_of(text_of_key(key));
    let places = lemma_filter_places(all, pred);
    assert(keys(r@).len() == r@.len());
    assert forall|k: int| 0 <= k < places.len() implies 0 <= #[trigger] places[k] < peers@.len()
        && starts(id@, peers@[places[k]]) && actor_key(r@[k]) == actor_key(
        peers@[places[k]].actor,
    ) by {
        assert(all[places[k]] == actor_key(peers@[places[k]].actor));
        assert(keys(r@)[k] == actor_key(r@[k]));
    }
    assert forall|i: int| 0 <= i < peers@.len() && starts(
        id@,
        #[trigger] peers@[i],
    ) implies places.contains(i) by {
        assert(all[i] == actor_key(peers@[i].actor));
        assert(pred(all[i]));
    }
    places
}

/// An actor is in a list of actors.
pub open spec fn is_listed(list: Seq<Actor>, key: Seq<u8>) -> bool {
    exists|i: int| 0 <= i < list.len() && actor_key(#[trigger] list[i]) == key
}

/// An actor is said to be in a list if and only if it is.
pub proof fn listed_actor_is_found(list: Vec<Actor>, actor: Actor, r: bool)
    requires
        call_ensures(contains_actor, (&list, &actor), r),
    ensures
        r <==> is_listed(list@, actor_key(actor)),
{
    if r {
        let i = choose|i: int| 0 <= i < keys(list@).len() && keys(list@)[i] == actor_key(actor);
        assert(actor_key(list@[i]) == actor_key(actor));
    }
    if is_listed(list@, actor_key(actor)) {
        let i = choose|i: int|
            0 <= i < list@.len() && actor_key(#[trigger] list@[i]) == actor_key(actor);
        assert(keys(list@)[i] == actor_key(actor));
    }
}

/// The members and the peers together are listed, each once, in ascending order, and nobody
/// else is.
pub proof fn members_and_peers_are_listed(
    voting: Vec<Actor>,
    peers: Vec<Peer>,
    r: Vec<Actor>,
    key: Seq<u8>,
)
    requires
        call_ensures(identities, (&voting, &peers), r),
    ensures
        forall|i: int, j: int|
            0 <= i < j < r@.len() ==> key_lt(
                actor_key(#[trigger] r@[i]),
                actor_key(#[trigger] r@[j]),
            ),
        is_listed(r@, key) <==> is_listed(voting@, key) || !is_unknown(peers@, key),
{
    let members = keys(voting@);
    let known = peer_keys(peer_views(peers@));
    let all = keys(r@);
    assert(lists(all, members.to_set().union(known.to_set())));
    assert forall|i: int, j: int| 0 <= i < j < r@.len() implies key_lt(
        actor_key(#[trigger] r@[i]),
        actor_key(#[trigger] r@[j]),
    ) by {
        assert(key_lt(all[i], all[j]));
    }
    assert(all.to_set().contains(key) == all.contains(key));
    assert(members.to_set().contains(key) == members.contains(key));
    assert(known.to_set().contains(key) == known.contains(key));
    lemma_listed(r@, key);
    lemma_listed(voting@, key);
    if known.contains(key) {
        let i = choose|i: int| 0 <= i < known.len() && known[i] == key;
        assert(actor_key(peers@[i].actor) == key);
    }
    if !is_unknown(peers@, key) {
        let i = choose|i: int|
            0 <= i < peers@.len() && actor_key((#[trigger] peers@[i]).actor) == key;
        assert(known[i] == key);
    }
}

proof fn lemma_listed(list: Seq<Actor>, key: Seq<u8>)
    ensures
        is_listed(list, key) <==> keys(list).contains(key),
{
    if keys(list).contains(key) {
        let i = choose|i: int| 0 <= i < keys(list).len() && keys(list)[i] == key;
        assert(actor_key(list[i]) == key);
    }
    if is_listed(list, key) {
        let i = choose|i: int| 0 <= i < list.len() && actor_key(#[trigger] list[i]) == key;
        assert(keys(list)[i] == key);
    }
}

/// The line of an actor is its text, its address or a word for none, and each mark if and only
/// if it is due.
pub proof fn line_shows_the_actor(
    actor: Actor,
    addr: Option<String>,
    votes: bool,
    own: bool,
    r: String,
)
    requires
        call_ensures(show_peer, (&actor, addr, votes, own), r),
    ensures
        r@ == text_of_key(actor_key(actor)) + "@"@ + (if addr is Some {
            addr->0@
        } else {
            "<unknown>"@
        }) + (if votes {
            "\t(voting)"@
        } else {
            Seq::empty()
        }) + (if own {
            "\t(self)"@
        } else {
            Seq::empty()
        }),
{
}

/// An entry that could be read, and is a plain file.
pub open spec fn is_plain_file(entry: Option<DirEntry>) -> bool {
    entry matches Some(e) && e.is_file
}

/// Every plain file is to be removed, and nothing else, in the order of the entries.
pub proof fn plain_files_are_removed(
    entries: Vec<Option<DirEntry>>,
    r: Vec<Vec<u8>>,
) -> (places: Seq<int>)
    requires
        call_ensures(leftover_files, (&entries,), r),
    ensures
        places.len() == r@.len(),
        forall|k: int|
            0 <= k < places.len() ==> 0 <= #[trigger] places[k] < entries@.len() && is_plain_file(
                entries@[places[k]],
            ) && r@[k]@ == entries@[places[k]]->0.name@,
        forall|k: int, l: int|
            0 <= k < l < places.len() ==> #[trigger] places[k] < #[trigger] places[l],
        forall|i: int|
            0 <= i < entries@.len() && is_plain_file(#[trigger] entries@[i]) ==> places.contains(i),
{
    let places = lemma_file_places(entries@);
    let names = r@.map_values(|name: Vec<u8>| name@);
    assert(names.len() == r@.len());
    assert forall|k: int| 0 <= k < places.len() implies 0 <= #[trigger] places[k] < entries@.len()
        && is_plain_file(entries@[places[k]]) && r@[k]@ == entries@[places[k]]->0.name@ by {
        assert(names[k] == r@[k]@);
    }
    places
}

proof fn lemma_file_places(entries: Seq<Option<DirEntry>>) -> (places: Seq<int>)
    ensures
        places.len() == file_names(entries).len(),
        forall|k: int|
            0 <= k < places.len() ==> 0 <= #[trigger] places[k] < entries.len() && is_plain_file(
                entries[places[k]],
            ) && file_names(entries)[k] == entries[places[k]]->0.name@,
        forall|k: int, l: int|
            0 <= k < l < places.len() ==> #[trigger] places[k] < #[trigger] places[l],
        forall|i: int|
            0 <= i < entries.len() && is_plain_file(#[trigger] entries[i]) ==> places.contains(i),
    decreases entries.len(),
{
    if entries.len() == 0 {
        Seq::empty()
    } else {
        let first = entries.drop_last();
        let n = entries.len() - 1;
        let some = lemma_file_places(first);
        let places = if is_plain_file(entries.last()) {
            some.push(n)
        } else {
            some
        };
        assert forall|i: int| 0 <= i < entries.len() && is_plain_file(
            #[trigger] entries[i],
        ) implies places.contains(i) by {
            if i < n {
                assert(first[i] == entries[i]);
                assert(some.contains(i));
                let k = choose|k: int| 0 <= k < some.len() && some[k] == i;
                assert(places[k] == i);
            } else {
                assert(places[places.len() - 1] == i);
            }
        }
        places
    }
}

/// A transaction counts as its sender's, and so as valid, if and only if the sender has
/// stamped each of its moves.
pub proof fn foreign_stamp_is_refused(source: Actor, ops: Vec<PlainMove>)
    ensures
        made_by(plain_views(ops@), actor_key(source)) <==> forall|i: int|
            0 <= i < ops@.len() ==> actor_key((#[trigger] ops@[i]).1) == actor_key(source),
{
    let views = plain_views(ops@);
    if made_by(views, actor_key(source)) {
        assert forall|i: int| 0 <= i < ops@.len() implies actor_key((#[trigger] ops@[i]).1)
            == actor_key(source) by {
            assert(views[i].actor == actor_key(source));
        }
    }
}

/// What a transaction in plain values says is what its values say, move for move.
pub proof fn plain_moves_say_what_they_hold(ops: Seq<PlainMove>)
    ensures
        plain_views(ops) == Seq::new(
            ops.len(),
            |i: int|
                MoveView {
                    counter: ops[i].0,
                    actor: actor_key(ops[i].1),
                    parent: ops[i].2,
                    meta: ops[i].3@,
                    child: ops[i].4,
                },
        ),
{
}

} // verus!
