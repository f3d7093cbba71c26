//! Actor identity and the actor entity whose state and sequence counter the
//! journal protects.
use crate::value::{empty_map, empty_map_encoding, value_encoding};
use seq_runtime::TypedValue;
use vstd::prelude::*;

verus! {

/// 16 raised to the power `k`.
pub open spec fn pow16(k: nat) -> nat
    decreases k,
{
    if k == 0 {
        1
    } else {
        16 * pow16((k - 1) as nat)
    }
}

/// The lower-case hexadecimal digit for `d < 16`.
pub open spec fn hex_digit(d: nat) -> char {
    if d < 10 {
        (48 + d) as char
    } else {
        (87 + d) as char
    }
}

/// The `i`-th hexadecimal digit of a 128-bit number, the most significant
/// first.
pub open spec fn nibble(n: u128, i: int) -> nat {
    (n as nat / pow16((31 - i) as nat)) % 16
}

/// The canonical text of a 128-bit identifier: 32 lower-case hexadecimal
/// digits, most significant first, in groups of 8, 4, 4, 4 and 12 joined by
/// hyphens.
pub open spec fn uuid_text(n: u128) -> Seq<char> {
    Seq::new(
        36,
        |j: int|
            if j == 8 || j == 13 || j == 18 || j == 23 {
                '-'
            } else if j < 8 {
                hex_digit(nibble(n, j))
            } else if j < 13 {
                hex_digit(nibble(n, j - 1))
            } else if j < 18 {
                hex_digit(nibble(n, j - 2))
            } else if j < 23 {
                hex_digit(nibble(n, j - 3))
            } else {
                hex_digit(nibble(n, j - 4))
            },
    )
}

/// Relies on `uuid::Uuid::new_v4`: a fresh random identifier, as its 128 bits.
#[verifier::external_body]
fn random_id() -> u128 {
    uuid::Uuid::new_v4().as_u128()
}

/// Relies on `uuid::Uuid`'s hyphenated form: the identifier's canonical text.
#[verifier::external_body]
fn id_text(n: u128) -> (r: String)
    ensures
        r@ == uuid_text(n),
{
    uuid::Uuid::from_u128(n).hyphenated().to_string()
}

/// The identifier of one actor: 128 bits, drawn at random.
#[derive(Clone, Copy, Debug, PartialEq, Eq, Structural, Hash)]
pub struct ActorId(pub u128);

impl ActorId {
    /// A new random identifier.
    pub fn new() -> Self {
        ActorId(random_id())
    }

    /// The identifier with the given 128 bits.
    pub fn from_uuid(bits: u128) -> (r: Self)
        ensures
            r.0 == bits,
    {
        ActorId(bits)
    }

    /// The canonical text of the identifier, under which its files are kept.
    pub fn as_str(&self) -> (r: String)
        ensures
            r@ == uuid_text(self.0),
    {
        id_text(self.0)
    }
}

/// A reference to an actor, by which messages are addressed.
#[derive(Clone, Copy, Debug)]
pub struct ActorRef {
    pub id: ActorId,
}

impl ActorRef {
    pub fn new(id: ActorId) -> (r: Self)
        ensures
            r.id == id,
    {
        ActorRef { id }
    }
}

/// An actor: its identity, its state, the name of its behaviour, and the
/// sequence number that its next event will carry.
pub struct Actor {
    pub id: ActorId,
    pub state: TypedValue,
    pub behavior: String,
    pub sequence: u64,
}

impl Actor {
    /// A new actor with a fresh identifier and an empty map as state.
    pub fn new(behavior: String) -> (r: Self)
        ensures
            r.behavior == behavior,
            r.sequence == 0,
            value_encoding(r.state) == empty_map_encoding(),
    {
        Actor { id: ActorId::new(), state: empty_map(), behavior, sequence: 0 }
    }

    /// An actor with a given identifier, as on recovery.
    pub fn with_id(id: ActorId, behavior: String) -> (r: Self)
        ensures
            r.id == id,
            r.behavior == behavior,
            r.sequence == 0,
            value_encoding(r.state) == empty_map_encoding(),
    {
        Actor { id, state: empty_map(), behavior, sequence: 0 }
    }

    /// Hands out the current sequence number and advances it by one.
    pub fn next_sequence(&mut self) -> (r: u64)
        requires
            old(self).sequence < u64::MAX,
        ensures
            r == old(self).sequence,
            final(self).sequence == old(self).sequence + 1,
            final(self).id == old(self).id,
            final(self).state == old(self).state,
            final(self).behavior == old(self).behavior,
    {
        let seq = self.sequence;
        self.sequence = self.sequence + 1;
        seq
    }
}

} // verus!
