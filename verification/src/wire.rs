//! Little-endian integers and the SSZ encoding of `u64`.

use ssz::{Decode, Encode};
use vstd::arithmetic::power::pow;
use vstd::prelude::*;

verus! {

/// The error that the `ssz` crate reports for bytes that it cannot decode.
#[verifier::external_type_specification]
#[verifier::external_body]
pub struct ExDecodeError(ssz::DecodeError);

/// The `width` least significant bytes of `value`, least significant first.
pub open spec fn le_bytes(value: nat, width: nat) -> Seq<u8>
    decreases width,
{
    if width == 0 {
        Seq::empty()
    } else {
        seq![(value % 256) as u8] + le_bytes(value / 256, (width - 1) as nat)
    }
}

/// The number that `bytes` denotes, least significant byte first.
pub open spec fn le_value(bytes: Seq<u8>) -> nat
    decreases bytes.len(),
{
    if bytes.len() == 0 {
        0
    } else {
        bytes[0] as nat + 256 * le_value(bytes.drop_first())
    }
}

/// `le_bytes` yields as many bytes as it was asked for.
pub proof fn lemma_le_bytes_len(value: nat, width: nat)
    ensures
        le_bytes(value, width).len() == width,
    decreases width,
{
    if width > 0 {
        lemma_le_bytes_len(value / 256, (width - 1) as nat);
    }
}

/// Reading back a number that fits into `width` bytes gives that number.
pub proof fn law_le_value_of_le_bytes(value: nat, width: nat)
    requires
        value < pow(256, width),
    ensures
        le_value(le_bytes(value, width)) == value,
    decreases width,
{
    lemma_le_bytes_len(value, width);
    if width == 0 {
        reveal(pow);
    } else {
        let rest = le_bytes(value / 256, (width - 1) as nat);
        assert(pow(256, width) == 256 * pow(256, (width - 1) as nat)) by {
            reveal(pow);
        }
        assert(value / 256 < pow(256, (width - 1) as nat));
        law_le_value_of_le_bytes(value / 256, (width - 1) as nat);
        assert(le_bytes(value, width).drop_first() =~= rest);
    }
}

/// Writing out the number that some bytes denote gives those bytes.
pub proof fn law_le_bytes_of_le_value(bytes: Seq<u8>)
    ensures
        le_bytes(le_value(bytes), bytes.len()) == bytes,
    decreases bytes.len(),
{
    if bytes.len() > 0 {
        let rest = bytes.drop_first();
        law_le_bytes_of_le_value(rest);
        let value = le_value(bytes);
        assert(value % 256 == bytes[0] as nat);
        assert(value / 256 == le_value(rest));
        assert(le_bytes(value, bytes.len()) =~= bytes);
    }
}

/// A digit of a number to the base of 256, where digit zero is the least significant one.
pub open spec fn digit(value: nat, i: nat) -> int {
    (value as int / pow(256, i)) % 256
}

/// Whether the eight bytes from `start` on are the digits of a number, the least significant
/// one first.
pub open spec fn number_at(bytes: Seq<u8>, start: int, value: u64) -> bool {
    forall|i: nat| i < 8 ==> bytes[start + i as int] == #[trigger] digit(value as nat, i)
}

/// Byte `i` of a number that is written out is its digit `i`.
pub proof fn law_le_bytes_are_digits(value: nat, width: nat, i: nat)
    requires
        i < width,
    ensures
        le_bytes(value, width).len() == width,
        le_bytes(value, width)[i as int] == digit(value, i),
    decreases width,
{
    lemma_le_bytes_len(value, width);
    let rest = le_bytes(value / 256, (width - 1) as nat);
    if i == 0 {
        assert(pow(256, 0) == 1) by {
            reveal(pow);
        }
    } else {
        let below = (i - 1) as nat;
        law_le_bytes_are_digits(value / 256, (width - 1) as nat, below);
        assert(le_bytes(value, width)[i as int] == rest[below as int]);
        assert(pow(256, i) == 256 * pow(256, below)) by {
            reveal(pow);
        }
        vstd::arithmetic::power::lemma_pow_positive(256, below);
        vstd::arithmetic::div_mod::lemma_div_denominator(value as int, 256, pow(256, below));
    }
}

/// A number that is written out in eight bytes somewhere is there with its digits.
pub proof fn lemma_number_at(bytes: Seq<u8>, start: int, value: u64)
    requires
        0 <= start,
        start + 8 <= bytes.len(),
        bytes.subrange(start, start + 8) == le_bytes(value as nat, 8),
    ensures
        number_at(bytes, start, value),
{
    assert forall|i: nat| i < 8 implies bytes[start + i as int] == #[trigger] digit(
        value as nat,
        i,
    ) by {
        law_le_bytes_are_digits(value as nat, 8, i);
        assert(bytes[start + i as int] == bytes.subrange(start, start + 8)[i as int]);
    }
}

/// A number that is denoted by some bytes fits into as many.
pub proof fn lemma_le_value_fits(bytes: Seq<u8>)
    ensures
        le_value(bytes) < pow(256, bytes.len()),
    decreases bytes.len(),
{
    reveal(pow);
    if bytes.len() > 0 {
        lemma_le_value_fits(bytes.drop_first());
        assert(pow(256, bytes.len()) == 256 * pow(256, (bytes.len() - 1) as nat));
    }
}

/// Every `u64` fits into eight bytes.
pub proof fn lemma_u64_fits(value: u64)
    ensures
        (value as nat) < pow(256, 8),
{
    reveal_with_fuel(pow, 9);
}

/// Calls `ssz::Encode::as_ssz_bytes` on a `u64`, which writes its eight bytes,
/// least significant first.
#[verifier::external_body]
pub(crate) fn ssz_encode_u64(value: u64) -> (bytes: Vec<u8>)
    ensures
        bytes@ == le_bytes(value as nat, 8),
{
    value.as_ssz_bytes()
}

/// Calls `ssz::Decode::from_ssz_bytes` for `u64`, which accepts exactly eight
/// bytes and reads them least significant first.
#[verifier::external_body]
pub(crate) fn ssz_decode_u64(bytes: &[u8]) -> (result: Result<u64, ssz::DecodeError>)
    ensures
        match result {
            Ok(value) => bytes@.len() == 8 && value as nat == le_value(bytes@),
            Err(_) => bytes@.len() != 8,
        },
{
    u64::from_ssz_bytes(bytes)
}

/// Why some bytes are no SSZ encoding of the value that was asked for.
#[derive(Clone, Copy, Debug, PartialEq, Eq, Structural)]
pub enum SszError {
    /// The encoding has another length.
    InvalidByteLength { len: usize, expected: usize },
    /// A bit is set beyond the end of a bitfield.
    ExcessBits,
}

/// The four bytes of `source` from `start` on.
pub(crate) fn copy_array_4(source: &[u8], start: usize) -> (bytes: [u8; 4])
    requires
        start + 4 <= source@.len(),
    ensures
        bytes@ == source@.subrange(start as int, start + 4),
{
    let bytes: [u8; 4] = [source[start], source[start + 1], source[start + 2], source[start + 3]];
    assert(bytes@ =~= source@.subrange(start as int, start + 4));
    bytes
}

/// The 32 bytes of `source` from `start` on.
pub(crate) fn copy_array_32(source: &[u8], start: usize) -> (bytes: [u8; 32])
    requires
        start + 32 <= source@.len(),
    ensures
        bytes@ == source@.subrange(start as int, start + 32),
{
    let mut bytes: [u8; 32] = [0u8; 32];
    let mut i: usize = 0;
    while i < 32
        invariant
            i <= 32,
            start + 32 <= source.len(),
            forall|j: int| 0 <= j < i ==> bytes@[j] == source@[start + j],
        decreases 32 - i,
    {
        bytes[i] = source[start + i];
        i += 1;
    }
    assert(bytes@ =~= source@.subrange(start as int, start + 32));
    bytes
}

/// Reads the `u64` in the eight bytes from `start` on.
pub(crate) fn decode_u64_at(bytes: &[u8], start: usize) -> (value: u64)
    requires
        start + 8 <= bytes.len(),
    ensures
        value as nat == le_value(bytes@.subrange(start as int, start + 8)),
        le_bytes(value as nat, 8) == bytes@.subrange(start as int, start + 8),
{
    let field = copy_range(bytes, start, start + 8);
    proof {
        law_le_bytes_of_le_value(field@);
    }
    match ssz_decode_u64(field.as_slice()) {
        Ok(value) => value,
        Err(_) => 0,
    }
}

/// Two arrays that hold the same bytes are the same array.
pub proof fn lemma_array_equal<const N: usize>(a: [u8; N], b: [u8; N])
    requires
        a@ == b@,
    ensures
        a == b,
{
    assert forall|i: int| 0 <= i < N implies a[i] == b[i] by {
        assert(a@[i] == b@[i]);
    }
    assert(a =~= b);
}

/// Appends a copy of `source` to `target`.
pub(crate) fn append_bytes(target: &mut Vec<u8>, source: &[u8])
    ensures
        final(target)@ == old(target)@ + source@,
{
    target.extend_from_slice(source);
    assert(target@ =~= old(target)@ + source@);
}

/// The bytes of `source` from `start` up to `end`, without the latter.
pub(crate) fn copy_range(source: &[u8], start: usize, end: usize) -> (bytes: Vec<u8>)
    requires
        start <= end <= source@.len(),
    ensures
        bytes@ == source@.subrange(start as int, end as int),
{
    let mut bytes: Vec<u8> = Vec::new();
    let mut i: usize = start;
    while i < end
        invariant
            start <= i <= end <= source@.len(),
            bytes@ == source@.subrange(start as int, i as int),
        decreases end - i,
    {
        bytes.push(source[i]);
        i += 1;
        assert(bytes@ =~= source@.subrange(start as int, i as int));
    }
    bytes
}

} // verus!
