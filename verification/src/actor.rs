//! Actors: the identities under which nodes take part in the broadcast.
//!
//! An actor is an ed25519 public key. The library never looks inside one; it
//! compares actors, orders them and shows them, and each of these is a
//! function of the 32 bytes of the key.
use brb::membership::actor::ed25519::Actor;
use vstd::prelude::*;

verus! {

/// `brb_membership`'s actor, an opaque value to Verus.
#[verifier::external_type_specification]
#[verifier::external_body]
pub struct ExActor(Actor);

/// The bytes of an actor's public key.
pub uninterp spec fn actor_key(actor: Actor) -> Seq<u8>;

/// Lexicographic order on byte sequences.
pub open spec fn key_lt(a: Seq<u8>, b: Seq<u8>) -> bool
    decreases a.len(),
{
    if b.len() == 0 {
        false
    } else if a.len() == 0 {
        true
    } else if a[0] != b[0] {
        a[0] < b[0]
    } else {
        key_lt(a.drop_first(), b.drop_first())
    }
}

/// No key comes before itself.
pub proof fn key_lt_irreflexive(a: Seq<u8>)
    ensures
        !key_lt(a, a),
    decreases a.len(),
{
    if a.len() > 0 {
        key_lt_irreflexive(a.drop_first());
    }
}

/// What comes before a key comes before all that follow it.
pub proof fn key_lt_transitive(a: Seq<u8>, b: Seq<u8>, c: Seq<u8>)
    requires
        key_lt(a, b),
        key_lt(b, c),
    ensures
        key_lt(a, c),
    decreases a.len(),
{
    if a.len() > 0 && a[0] == b[0] && b[0] == c[0] {
        key_lt_transitive(a.drop_first(), b.drop_first(), c.drop_first());
    }
}

/// Two different keys are ordered one way or the other.
pub proof fn key_lt_total(a: Seq<u8>, b: Seq<u8>)
    ensures
        a == b || key_lt(a, b) || key_lt(b, a),
    decreases a.len(),
{
    if a.len() == 0 || b.len() == 0 {
        assert(a.len() == 0 && b.len() == 0 ==> a =~= b);
    } else if a[0] == b[0] {
        key_lt_total(a.drop_first(), b.drop_first());
        if a.drop_first() == b.drop_first() {
            assert(a =~= seq![a[0]] + a.drop_first());
            assert(b =~= seq![b[0]] + b.drop_first());
        }
    }
}

/// The keys of a list of actors.
pub open spec fn keys(actors: Seq<Actor>) -> Seq<Seq<u8>> {
    actors.map_values(|a: Actor| actor_key(a))
}

/// A list of keys in ascending order, each once.
pub open spec fn ascending(keys: Seq<Seq<u8>>) -> bool {
    forall|i: int, j: int|
        0 <= i < j < keys.len() ==> key_lt(#[trigger] keys[i], #[trigger] keys[j])
}

/// The lower case hexadecimal digit for a number below sixteen.
pub open spec fn hex_digit(n: int) -> char {
    seq![
        '0',
        '1',
        '2',
        '3',
        '4',
        '5',
        '6',
        '7',
        '8',
        '9',
        'a',
        'b',
        'c',
        'd',
        'e',
        'f',
    ][n]
}

/// How an actor is shown: `i:` and the first three bytes of its key in hexadecimal.
pub open spec fn text_of_key(key: Seq<u8>) -> Seq<char> {
    seq![
        'i',
        ':',
        hex_digit(key[0] as int / 16),
        hex_digit(key[0] as int % 16),
        hex_digit(key[1] as int / 16),
        hex_digit(key[1] as int % 16),
        hex_digit(key[2] as int / 16),
        hex_digit(key[2] as int % 16),
    ]
}

/// `==` of `brb_membership`'s actor: two actors are equal where their keys are.
#[verifier::external_body]
pub(crate) fn same_actor(a: &Actor, b: &Actor) -> (r: bool)
    ensures
        r == (actor_key(*a) == actor_key(*b)),
{
    a == b
}

/// `<` of `brb_membership`'s actor: actors are ordered as the bytes of their keys are.
#[verifier::external_body]
pub(crate) fn actor_before(a: &Actor, b: &Actor) -> (r: bool)
    ensures
        r == key_lt(actor_key(*a), actor_key(*b)),
{
    a < b
}

/// `Debug` of `brb_membership`'s actor, which prints what its `Display` prints:
/// `i:` and the first three bytes of the key in hexadecimal.
#[verifier::external_body]
pub(crate) fn actor_text(actor: &Actor) -> (r: String)
    ensures
        r@ == text_of_key(actor_key(*actor)),
{
    format!("{:?}", actor)
}

} // verus!
