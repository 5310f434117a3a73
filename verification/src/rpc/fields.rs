//! Lists and bitfields of the `ssz_types` crate.

use ssz::{Decode, Encode};
use ssz_types::{
    length::Fixed,
    typenum::{UInt, UTerm, B0, B1, U256, U4, U64},
    BitVector, Bitfield, VariableList,
};
use vstd::prelude::*;

verus! {

/// A list of limited length, from the `ssz_types` crate.
#[verifier::external_type_specification]
#[verifier::external_body]
#[verifier::reject_recursive_types(T)]
#[verifier::reject_recursive_types(N)]
pub struct ExVariableList<T, N>(VariableList<T, N>);

/// A sequence of bits, from the `ssz_types` crate.
#[verifier::external_type_specification]
#[verifier::external_body]
#[verifier::reject_recursive_types(T)]
pub struct ExBitfield<T>(Bitfield<T>);

/// What marks a bitfield as one of a fixed length, from the `ssz_types` crate.
#[verifier::external_type_specification]
#[verifier::external_body]
#[verifier::reject_recursive_types(N)]
pub struct ExFixed<N>(Fixed<N>);

/// A number as a type, its lowest bit last, from the `typenum` crate.
#[verifier::external_type_specification]
#[verifier::external_body]
#[verifier::reject_recursive_types(U)]
#[verifier::reject_recursive_types(B)]
pub struct ExUInt<U, B>(UInt<U, B>);

/// What stands before the highest bit of a number as a type.
#[verifier::external_type_specification]
#[verifier::external_body]
pub struct ExUTerm(UTerm);

/// A bit that is clear, as a type.
#[verifier::external_type_specification]
#[verifier::external_body]
pub struct ExB0(B0);

/// A bit that is set, as a type.
#[verifier::external_type_specification]
#[verifier::external_body]
pub struct ExB1(B1);

/// `VariableList::clone` clones the elements one by one. What that gives is up to them,
/// and nothing is said of it here.
pub assume_specification<T, N>[ <VariableList<T, N> as Clone>::clone ](
    list: &VariableList<T, N>,
) -> (copy: VariableList<T, N>)
    where T: Clone, N: Clone
;

/// `Bitfield::clone` copies the bits.
pub assume_specification<T>[ <Bitfield<T> as Clone>::clone ](bitfield: &Bitfield<T>) -> (copy:
    Bitfield<T>)
    where T: Clone
    ensures
        copy == *bitfield,
;

/// The bytes in a list.
pub uninterp spec fn listed_bytes(list: VariableList<u8, U256>) -> Seq<u8>;

/// Calls `VariableList::from_ssz_bytes` for bytes, which accepts up to 256 of
/// them and keeps them as they are.
#[verifier::external_body]
pub(crate) fn list_decode(bytes: &[u8]) -> (result: Result<
    VariableList<u8, U256>,
    ssz::DecodeError,
>)
    ensures
        match result {
            Ok(list) => bytes@.len() <= 256 && listed_bytes(list) == bytes@,
            Err(_) => bytes@.len() > 256,
        },
{
    VariableList::from_ssz_bytes(bytes)
}

/// The eight bytes of a bitfield of 64 bits, with its lowest bit in the lowest bit of
/// the first byte.
pub uninterp spec fn bytes_of_64_bits(bitfield: BitVector<U64>) -> Seq<u8>;

/// Calls `BitVector::default`, in which no bit is set.
#[verifier::external_body]
pub(crate) fn no_bits_of_64() -> (bitfield: BitVector<U64>)
    ensures
        bytes_of_64_bits(bitfield) == Seq::new(8, |i: int| 0u8),
{
    BitVector::default()
}

/// Calls `BitVector::as_ssz_bytes`, which hands out the eight bytes of a bitfield.
#[verifier::external_body]
pub(crate) fn encode_64_bits(bitfield: &BitVector<U64>) -> (bytes: Vec<u8>)
    ensures
        bytes@ == bytes_of_64_bits(*bitfield),
        bytes@.len() == 8,
{
    bitfield.as_ssz_bytes()
}

/// Calls `BitVector::from_ssz_bytes`, which for 64 bits accepts any eight bytes.
#[verifier::external_body]
pub(crate) fn decode_64_bits(bytes: &[u8]) -> (result: Result<BitVector<U64>, ssz::DecodeError>)
    ensures
        match result {
            Ok(bitfield) => bytes@.len() == 8 && bytes_of_64_bits(bitfield) == bytes@,
            Err(_) => bytes@.len() != 8,
        },
{
    BitVector::from_ssz_bytes(bytes)
}

/// The byte of a bitfield of four bits, with its lowest bit in the lowest bit.
pub uninterp spec fn bytes_of_4_bits(bitfield: BitVector<U4>) -> Seq<u8>;

/// Calls `BitVector::default`, in which no bit is set.
#[verifier::external_body]
pub(crate) fn no_bits_of_4() -> (bitfield: BitVector<U4>)
    ensures
        bytes_of_4_bits(bitfield) == seq![0u8],
{
    BitVector::default()
}

/// Calls `BitVector::as_ssz_bytes`, which hands out the one byte of a bitfield. Only
/// its lower half can be in use.
#[verifier::external_body]
pub(crate) fn encode_4_bits(bitfield: &BitVector<U4>) -> (bytes: Vec<u8>)
    ensures
        bytes@ == bytes_of_4_bits(*bitfield),
        bytes@.len() == 1,
        bytes@[0] < 16,
{
    bitfield.as_ssz_bytes()
}

/// Calls `BitVector::from_ssz_bytes`, which for four bits accepts one byte with the
/// upper half clear.
#[verifier::external_body]
pub(crate) fn decode_4_bits(bytes: &[u8]) -> (result: Result<BitVector<U4>, ssz::DecodeError>)
    ensures
        match result {
            Ok(bitfield) => {
                &&& bytes@.len() == 1
                &&& bytes@[0] < 16
                &&& bytes_of_4_bits(bitfield) == bytes@
            },
            Err(_) => bytes@.len() != 1 || bytes@[0] >= 16,
        },
{
    BitVector::from_ssz_bytes(bytes)
}

} // verus!
