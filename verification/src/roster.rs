//! The peers that a node knows: their actors and addresses, how they are found by
//! a piece of text, and how they are listed.
use crate::actor::{
    actor_before, actor_key, actor_text, ascending, key_lt, key_lt_irreflexive, key_lt_total,
    key_lt_transitive, keys, same_actor, text_of_key,
};
use brb::membership::actor::ed25519::Actor;
use vstd::prelude::*;

verus! {

/// A peer, and the address at which it listens.
pub struct Peer {
    pub actor: Actor,
    pub addr: String,
}

/// What is known of a peer.
pub struct PeerView {
    pub actor: Seq<u8>,
    pub addr: Seq<char>,
}

impl View for Peer {
    type V = PeerView;

    open spec fn view(&self) -> PeerView {
        PeerView { actor: actor_key(self.actor), addr: self.addr@ }
    }
}

/// The views of a list of peers.
pub open spec fn peer_views(peers: Seq<Peer>) -> Seq<PeerView> {
    peers.map_values(|p: Peer| p@)
}

/// The keys of a list of peers.
pub open spec fn peer_keys(peers: Seq<PeerView>) -> Seq<Seq<u8>> {
    peers.map_values(|p: PeerView| p.actor)
}

/// The address of the peer with this key, if there is one.
pub open spec fn addr_of(peers: Seq<PeerView>, key: Seq<u8>) -> Option<Seq<char>>
    decreases peers.len(),
{
    if peers.len() == 0 {
        None
    } else if peers[0].actor == key {
        Some(peers[0].addr)
    } else {
        addr_of(peers.drop_first(), key)
    }
}

/// The keys of the peers whose text starts with `id`.
pub open spec fn matching(peers: Seq<PeerView>, id: Seq<char>) -> Seq<Seq<u8>> {
    peer_keys(peers).filter(|key: Seq<u8>| id.is_prefix_of(text_of_key(key)))
}

/// A list that holds each key of a set once, in ascending order.
pub open spec fn lists(list: Seq<Seq<u8>>, set: Set<Seq<u8>>) -> bool {
    ascending(list) && list.to_set() == set
}

/// The list that holds each key of a set once, in ascending order.
pub open spec fn sorted(set: Set<Seq<u8>>) -> Seq<Seq<u8>> {
    choose|list: Seq<Seq<u8>>| #[trigger] lists(list, set)
}

/// A mark, where it is due.
pub open spec fn mark(due: bool, text: Seq<char>) -> Seq<char> {
    if due {
        text
    } else {
        Seq::empty()
    }
}

/// The line that shows an actor: its text, its address, and whether it votes and
/// whether it is this node.
pub open spec fn peer_line(
    key: Seq<u8>,
    addr: Option<Seq<char>>,
    votes: bool,
    own: bool,
) -> Seq<char> {
    text_of_key(key) + "@"@ + (match addr {
        Some(text) => text,
        None => "<unknown>"@,
    }) + mark(votes, "\t(voting)"@) + mark(own, "\t(self)"@)
}

/// A peer has an address exactly where its key is among the keys.
pub proof fn addr_of_known(peers: Seq<PeerView>, key: Seq<u8>)
    ensures
        addr_of(peers, key) is Some <==> peer_keys(peers).contains(key),
    decreases peers.len(),
{
    if peers.len() > 0 {
        let rest = peers.drop_first();
        addr_of_known(rest, key);
        assert(peer_keys(peers) =~= seq![peers[0].actor] + peer_keys(rest));
        if peer_keys(rest).contains(key) {
            let i = choose|i: int| 0 <= i < peer_keys(rest).len() && peer_keys(rest)[i] == key;
            assert(peer_keys(peers)[i + 1] == key);
        }
        if peer_keys(peers).contains(key) && peers[0].actor != key {
            let i = choose|i: int| 0 <= i < peer_keys(peers).len() && peer_keys(peers)[i] == key;
            assert(peer_keys(rest)[i - 1] == key);
        }
        if peers[0].actor == key {
            assert(peer_keys(peers)[0] == key);
        }
    }
}

/// A set of keys has one ascending list, and no more.
pub proof fn ascending_is_unique(a: Seq<Seq<u8>>, b: Seq<Seq<u8>>)
    requires
        ascending(a),
        ascending(b),
        a.to_set() == b.to_set(),
    ensures
        a == b,
    decreases a.len(),
{
    if a.len() == 0 {
        if b.len() > 0 {
            assert(b.to_set().contains(b[0]));
            assert(a.to_set().contains(b[0]));
        }
        assert(a =~= b);
    } else {
        assert(a.to_set().contains(a.last()));
        assert(b.to_set().contains(a.last()));
        let i = choose|i: int| 0 <= i < b.len() && b[i] == a.last();
        assert(b.to_set().contains(b.last()));
        assert(a.to_set().contains(b.last()));
        let j = choose|j: int| 0 <= j < a.len() && a[j] == b.last();
        // The last of each list is the greatest of its keys.
        if i < b.len() - 1 {
            assert(key_lt(b[i], b[b.len() - 1]));
            if j < a.len() - 1 {
                assert(key_lt(a[j], a[a.len() - 1]));
                key_lt_transitive(a.last(), b.last(), a.last());
            }
            key_lt_irreflexive(a.last());
        }
        assert(a.last() == b.last());
        let a1 = a.drop_last();
        let b1 = b.drop_last();
        assert forall|k: Seq<u8>| a1.to_set().contains(k) == b1.to_set().contains(k) by {
            lemma_drop_last_contains(a, k);
            lemma_drop_last_contains(b, k);
            assert(a.to_set().contains(k) == a.contains(k));
            assert(b.to_set().contains(k) == b.contains(k));
            assert(a1.to_set().contains(k) == a1.contains(k));
            assert(b1.to_set().contains(k) == b1.contains(k));
        }
        assert(a1.to_set() =~= b1.to_set());
        ascending_is_unique(a1, b1);
        assert(a =~= a1.push(a.last()));
        assert(b =~= b1.push(b.last()));
    }
}

proof fn lemma_drop_last_contains(a: Seq<Seq<u8>>, k: Seq<u8>)
    requires
        ascending(a),
        a.len() > 0,
    ensures
        a.drop_last().contains(k) <==> a.contains(k) && k != a.last(),
{
    if a.drop_last().contains(k) {
        let i = choose|i: int| 0 <= i < a.drop_last().len() && a.drop_last()[i] == k;
        assert(a[i] == k);
        assert(key_lt(a[i], a[a.len() - 1]));
        key_lt_irreflexive(k);
    }
    if a.contains(k) && k != a.last() {
        let i = choose|i: int| 0 <= i < a.len() && a[i] == k;
        assert(a.drop_last()[i] == k);
    }
}

/// An ascending list of a set is the list that [`sorted`] gives.
pub proof fn ascending_is_sorted(list: Seq<Seq<u8>>)
    requires
        ascending(list),
    ensures
        sorted(list.to_set()) == list,
{
    assert(lists(list, list.to_set()));
    ascending_is_unique(sorted(list.to_set()), list);
}

/// `text` starts with `prefix`.
pub fn has_prefix(text: &String, prefix: &String) -> (r: bool)
    ensures
        r == prefix@.is_prefix_of(text@),
{
    let t = text.as_str();
    let p = prefix.as_str();
    let n = p.unicode_len();
    if t.unicode_len() < n {
        return false;
    }
    let mut i: usize = 0;
    while i < n
        invariant
            i <= n,
            n == p@.len(),
            n <= t@.len(),
            p@ == prefix@,
            t@ == text@,
            forall|j: int| 0 <= j < i ==> p@[j] == t@[j],
        decreases n - i,
    {
        if p.get_char(i) != t.get_char(i) {
            assert(prefix@[i as int] != text@.subrange(0, n as int)[i as int]);
            return false;
        }
        i = i + 1;
    }
    assert(prefix@ =~= text@.subrange(0, n as int));
    true
}

/// The address of a peer.
pub fn find_addr(peers: &Vec<Peer>, actor: &Actor) -> (r: Option<String>)
    ensures
        match r {
            Some(addr) => addr_of(peer_views(peers@), actor_key(*actor)) == Some(addr@),
            None => addr_of(peer_views(peers@), actor_key(*actor)) is None,
        },
{
    let ghost views = peer_views(peers@);
    let ghost key = actor_key(*actor);
    let mut i: usize = 0;
    assert(views.skip(0) =~= views);
    while i < peers.len()
        invariant
            i <= peers@.len(),
            views == peer_views(peers@),
            key == actor_key(*actor),
            addr_of(views, key) == addr_of(views.skip(i as int), key),
        decreases peers.len() - i,
    {
        assert(views.skip(i as int)[0] == peers@[i as int]@);
        if same_actor(&peers[i].actor, actor) {
            return Some(peers[i].addr.clone());
        }
        assert(views.skip(i as int).drop_first() =~= views.skip(i + 1));
        i = i + 1;
    }
    None
}

/// The peers whose text starts with `id`.
pub fn find_matching(peers: &Vec<Peer>, id: &String) -> (r: Vec<Actor>)
    ensures
        keys(r@) == matching(peer_views(peers@), id@),
{
    let ghost all = peer_keys(peer_views(peers@));
    let ghost pred = |key: Seq<u8>| id@.is_prefix_of(text_of_key(key));
    let mut found: Vec<Actor> = Vec::new();
    let mut i: usize = 0;
    assert(all.take(0).filter(pred) =~= Seq::<Seq<u8>>::empty()) by {
        reveal(Seq::filter);
    }
    assert(keys(found@) =~= Seq::<Seq<u8>>::empty());
    while i < peers.len()
        invariant
            i <= peers@.len(),
            all == peer_keys(peer_views(peers@)),
            pred == (|key: Seq<u8>| id@.is_prefix_of(text_of_key(key))),
            keys(found@) == all.take(i as int).filter(pred),
        decreases peers.len() - i,
    {
        let ghost before = found@;
        let actor = peers[i].actor;
        let text = actor_text(&actor);
        let matches = has_prefix(&text, id);
        if matches {
            found.push(actor);
            assert(keys(found@) =~= keys(before).push(actor_key(actor)));
        }
        proof {
            let next = all.take(i + 1);
            assert(next.drop_last() =~= all.take(i as int));
            assert(next.last() == actor_key(actor));
            assert(pred(next.last()) == matches);
            reveal(Seq::filter);
        }
        i = i + 1;
    }
    assert(all.take(peers@.len() as int) =~= all);
    found
}

/// Puts an actor into an ascending list, unless it is there.
fn insert_sorted(list: &mut Vec<Actor>, actor: Actor)
    requires
        ascending(keys(old(list)@)),
    ensures
        ascending(keys(final(list)@)),
        keys(final(list)@).to_set() == keys(old(list)@).to_set().insert(actor_key(actor)),
{
    let ghost before = keys(list@);
    let ghost key = actor_key(actor);
    let mut i: usize = 0;
    while i < list.len() && actor_before(&list[i], &actor)
        invariant
            i <= list@.len(),
            before == keys(list@),
            key == actor_key(actor),
            forall|j: int| 0 <= j < i ==> key_lt(#[trigger] before[j], key),
        decreases list.len() - i,
    {
        i = i + 1;
    }
    if i < list.len() && same_actor(&list[i], &actor) {
        proof {
            assert(before[i as int] == key);
            assert(before.to_set().insert(key) =~= before.to_set());
        }
        return;
    }
    list.insert(i, actor);
    proof {
        let after = keys(list@);
        assert(after =~= before.insert(i as int, key));
        if i < before.len() {
            key_lt_total(before[i as int], key);
        }
        assert forall|a: int, b: int| 0 <= a < b < after.len() implies key_lt(
            #[trigger] after[a],
            #[trigger] after[b],
        ) by {
            let x = if a < i {
                a
            } else {
                a - 1
            };
            let y = if b < i {
                b
            } else {
                b - 1
            };
            if a == i {
                if y > i {
                    key_lt_transitive(key, before[i as int], before[y]);
                }
            } else if b == i {
                assert(key_lt(before[a], key));
            } else {
                assert(key_lt(before[x], before[y]));
            }
        }
        assert forall|k: Seq<u8>| after.to_set().contains(k) == before.to_set().insert(
            key,
        ).contains(k) by {
            if after.contains(k) {
                let a = choose|a: int| 0 <= a < after.len() && after[a] == k;
                if a < i {
                    assert(before[a] == k);
                } else if a > i {
                    assert(before[a - 1] == k);
                }
            }
            if k == key {
                assert(after[i as int] == k);
            } else if before.contains(k) {
                let a = choose|a: int| 0 <= a < before.len() && before[a] == k;
                if a < i {
                    assert(after[a] == k);
                } else {
                    assert(after[a + 1] == k);
                }
            }
        }
        assert(after.to_set() =~= before.to_set().insert(key));
    }
}

/// The members of the voting group and the peers that are known, each once, in
/// ascending order.
pub fn identities(voting: &Vec<Actor>, peers: &Vec<Peer>) -> (r: Vec<Actor>)
    requires
        ascending(keys(voting@)),
    ensures
        keys(r@) == sorted(keys(voting@).to_set().union(peer_keys(peer_views(peers@)).to_set())),
        lists(keys(r@), keys(voting@).to_set().union(peer_keys(peer_views(peers@)).to_set())),
{
    let ghost members = keys(voting@);
    let ghost others = peer_keys(peer_views(peers@));
    let mut list: Vec<Actor> = Vec::new();
    let mut i: usize = 0;
    while i < voting.len()
        invariant
            i <= voting@.len(),
            list@ == voting@.take(i as int),
        decreases voting.len() - i,
    {
        list.push(voting[i]);
        assert(list@ =~= voting@.take(i + 1));
        i = i + 1;
    }
    assert(list@ =~= voting@);
    let mut i: usize = 0;
    assert(others.take(0).to_set() =~= Set::<Seq<u8>>::empty());
    assert(members.to_set().union(others.take(0).to_set()) =~= members.to_set());
    while i < peers.len()
        invariant
            i <= peers@.len(),
            others == peer_keys(peer_views(peers@)),
            ascending(keys(list@)),
            keys(list@).to_set() == members.to_set().union(others.take(i as int).to_set()),
        decreases peers.len() - i,
    {
        insert_sorted(&mut list, peers[i].actor);
        proof {
            let done = others.take(i as int);
            let next = others.take(i + 1);
            assert(next =~= done.push(others[i as int]));
            assert forall|k: Seq<u8>| next.to_set().contains(k) == done.to_set().insert(
                others[i as int],
            ).contains(k) by {
                if done.contains(k) {
                    let a = choose|a: int| 0 <= a < done.len() && done[a] == k;
                    assert(next[a] == k);
                }
                if k == others[i as int] {
                    assert(next[i as int] == k);
                }
            }
            assert(next.to_set() =~= done.to_set().insert(others[i as int]));
            assert(members.to_set().union(next.to_set()) =~= members.to_set().union(
                done.to_set(),
            ).insert(others[i as int]));
        }
        i = i + 1;
    }
    assert(others.take(peers@.len() as int) =~= others);
    proof {
        ascending_is_sorted(keys(list@));
    }
    list
}

/// An actor is in a list.
pub fn contains_actor(list: &Vec<Actor>, actor: &Actor) -> (r: bool)
    ensures
        r == keys(list@).contains(actor_key(*actor)),
{
    let mut i: usize = 0;
    while i < list.len()
        invariant
            i <= list@.len(),
            forall|j: int| 0 <= j < i ==> keys(list@)[j] != actor_key(*actor),
        decreases list.len() - i,
    {
        if same_actor(&list[i], actor) {
            assert(keys(list@)[i as int] == actor_key(*actor));
            return true;
        }
        i = i + 1;
    }
    false
}

/// The line that shows an actor.
pub fn show_peer(actor: &Actor, addr: Option<String>, votes: bool, own: bool) -> (r: String)
    ensures
        r@ == peer_line(
            actor_key(*actor),
            match addr {
                Some(text) => Some(text@),
                None => None,
            },
            votes,
            own,
        ),
{
    let mut line = actor_text(actor);
    line.append("@");
    match &addr {
        Some(text) => line.append(text.as_str()),
        None => line.append("<unknown>"),
    }
    let ghost named = line@;
    if votes {
        line.append("\t(voting)");
    }
    assert(line@ =~= named + mark(votes, "\t(voting)"@));
    let ghost marked = line@;
    if own {
        line.append("\t(self)");
    }
    assert(line@ =~= marked + mark(own, "\t(self)"@));
    line
}

} // verus!
