//! The data-only values that events and snapshots carry, and their binary
//! encoding. Both come from the language runtime's serialisation module.
use seq_runtime::TypedValue;
use vstd::prelude::*;

verus! {

#[verifier::external_type_specification]
#[verifier::external_body]
pub struct ExTypedValue(seq_runtime::TypedValue);

#[verifier::external_type_specification]
#[verifier::external_body]
pub struct ExBincodeErrorKind(bincode::ErrorKind);

/// The bytes that bincode's default encoding writes for a value.
pub uninterp spec fn value_encoding(v: TypedValue) -> Seq<u8>;

/// The value that bincode's default decoding reads from bytes, if they hold
/// one.
pub uninterp spec fn value_decoding(b: Seq<u8>) -> Option<TypedValue>;

/// Relies on `bincode::serialize`: with no size limit set, it fails only on a
/// sequence or map whose length is unknown, and a value's `Vec` and
/// `BTreeMap` always give theirs, so it succeeds. The bytes are the value's
/// encoding, and decoding them gives the value back.
#[verifier::external_body]
pub(crate) fn encode_value(v: &TypedValue) -> (r: Result<Vec<u8>, Box<bincode::ErrorKind>>)
    ensures
        r is Ok,
        r matches Ok(b) ==> b@ == value_encoding(*v),
        r matches Ok(b) ==> value_decoding(b@) == Some(*v),
{
    bincode::serialize(v)
}

/// Relies on `bincode::deserialize`: it succeeds exactly on the bytes that
/// hold a value, and returns that value.
#[verifier::external_body]
pub(crate) fn decode_value(b: &[u8]) -> (r: Result<TypedValue, Box<bincode::ErrorKind>>)
    ensures
        match r {
            Ok(v) => value_decoding(b@) == Some(v),
            Err(_) => value_decoding(b@) is None,
        },
{
    bincode::deserialize(b)
}

/// The encoding of an empty map: the index of the `Map` variant (5) as four
/// little-endian bytes, then the map's length 0 as eight.
pub open spec fn empty_map_encoding() -> Seq<u8> {
    seq![5u8, 0, 0, 0, 0, 0, 0, 0, 0, 0, 0, 0]
}

/// Relies on the runtime's `TypedValue::Map` over an empty `BTreeMap`, the
/// state of an actor that has done nothing yet, and on bincode's default
/// encoding of it: a variant as its `u32` index (`Map` is the sixth), a map
/// as its `u64` length and its entries.
#[verifier::external_body]
pub(crate) fn empty_map() -> (r: TypedValue)
    ensures
        value_encoding(r) == empty_map_encoding(),
{
    TypedValue::Map(std::collections::BTreeMap::new())
}

/// The runtime's human-readable rendering of a value.
pub uninterp spec fn value_debug_text(v: TypedValue) -> Seq<char>;

/// Relies on the runtime's `TypedValue::to_debug_string`: its rendering of
/// the value.
#[verifier::external_body]
pub(crate) fn value_debug_string(v: &TypedValue) -> (r: String)
    ensures
        r@ == value_debug_text(*v),
{
    v.to_debug_string()
}

/// The decimal digit for `d < 10`.
pub open spec fn digit_char(d: nat) -> char {
    (48 + d) as char
}

/// The decimal numeral of `n`, without leading zeros.
pub open spec fn decimal(n: nat) -> Seq<char>
    decreases n,
{
    if n < 10 {
        seq![digit_char(n)]
    } else {
        decimal(n / 10).push(digit_char(n % 10))
    }
}

/// Relies on `u64::to_string`: the decimal numeral of the number.
#[verifier::external_body]
pub(crate) fn decimal_string(n: u64) -> (r: String)
    ensures
        r@ == decimal(n as nat),
{
    n.to_string()
}

} // verus!
