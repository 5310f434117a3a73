//! Variable-length integers, as the `unsigned-varint` crate writes them.

use crate::buffer::buffered;
use libp2p::bytes::BytesMut;
use tokio_util::codec::{Decoder, Encoder};
use unsigned_varint::codec::Uvi;
use vstd::arithmetic::div_mod::lemma_small_mod;
use vstd::arithmetic::power::pow;
use vstd::prelude::*;

verus! {

/// The codec of the `unsigned-varint` crate. It keeps nothing between calls.
#[verifier::external_type_specification]
#[verifier::external_body]
#[verifier::reject_recursive_types(T)]
pub struct ExUvi<T>(Uvi<T>);

/// The error of reading and writing in the standard library.
#[verifier::external_type_specification]
#[verifier::external_body]
pub struct ExIoError(std::io::Error);

/// The bytes of `value` in groups of seven bits, the lowest group first. Every
/// byte but the last one has its top bit set.
pub open spec fn uvi_bytes(value: nat) -> Seq<u8>
    decreases value,
{
    if value < 128 {
        seq![value as u8]
    } else {
        seq![(value % 128 + 128) as u8] + uvi_bytes(value / 128)
    }
}

/// How many bytes with the top bit set stand at the start of `bytes`.
pub open spec fn uvi_leading(bytes: Seq<u8>) -> nat
    decreases bytes.len(),
{
    if bytes.len() == 0 || bytes[0] < 128 {
        0
    } else {
        1 + uvi_leading(bytes.drop_first())
    }
}

/// The number that groups of seven bits denote, the lowest group first.
pub open spec fn uvi_value(bytes: Seq<u8>) -> nat
    decreases bytes.len(),
{
    if bytes.len() == 0 {
        0
    } else {
        (bytes[0] % 128) as nat + 128 * uvi_value(bytes.drop_first())
    }
}

/// What reading a `usize` from the start of some bytes comes to.
pub enum UviRead {
    /// The bytes end before the number does.
    Incomplete,
    /// The number has more bytes than a `usize` can need.
    TooLong,
    /// The number, and how many bytes it takes up.
    Number { value: nat, used: nat },
}

/// The largest number of bytes with the top bit set that a `usize` may start with.
pub open spec fn uvi_max_leading() -> nat {
    if usize::BITS == 32 {
        4
    } else {
        9
    }
}

/// What reading a `usize` from the start of `bytes` comes to. Bits that do not
/// fit into a `usize` are dropped.
pub open spec fn uvi_read(bytes: Seq<u8>) -> UviRead {
    let leading = uvi_leading(bytes);
    if leading > uvi_max_leading() {
        UviRead::TooLong
    } else if leading == bytes.len() {
        UviRead::Incomplete
    } else {
        UviRead::Number {
            value: uvi_value(bytes.take((leading + 1) as int)) % (usize::MAX as nat + 1),
            used: leading + 1,
        }
    }
}

/// What the bytes of a number look like to a reader, whatever follows them.
proof fn lemma_uvi_bytes(value: nat, rest: Seq<u8>)
    ensures
        uvi_bytes(value).len() >= 1,
        uvi_leading(uvi_bytes(value) + rest) + 1 == uvi_bytes(value).len(),
        uvi_value(uvi_bytes(value)) == value,
    decreases value,
{
    let bytes = uvi_bytes(value);
    if value < 128 {
        assert((bytes + rest)[0] == value as u8);
        assert(bytes.drop_first() =~= Seq::<u8>::empty());
        reveal_with_fuel(uvi_value, 2);
    } else {
        let tail = uvi_bytes(value / 128);
        lemma_uvi_bytes(value / 128, rest);
        assert((bytes + rest).drop_first() =~= tail + rest);
        assert(bytes.drop_first() =~= tail);
        assert((bytes + rest)[0] == (value % 128 + 128) as u8);
        assert(bytes[0] % 128 == value % 128);
    }
}

/// A number below `128^groups` takes at most `groups` bytes.
proof fn lemma_uvi_bytes_len(value: nat, groups: nat)
    requires
        groups >= 1,
        value < pow(128, groups),
    ensures
        1 <= uvi_bytes(value).len() <= groups,
    decreases groups,
{
    assert(pow(128, groups) == 128 * pow(128, (groups - 1) as nat)) by {
        reveal(pow);
    }
    if value >= 128 {
        if groups == 1 {
            reveal(pow);
            assert(false);
        }
        lemma_uvi_bytes_len(value / 128, (groups - 1) as nat);
    }
}

/// Reading the bytes of a `usize`, whatever follows them, gives that number and
/// takes up exactly those bytes.
pub proof fn law_uvi_read_of_uvi_bytes(value: usize, rest: Seq<u8>)
    ensures
        uvi_read(uvi_bytes(value as nat) + rest) == (UviRead::Number {
            value: value as nat,
            used: uvi_bytes(value as nat).len(),
        }),
{
    let bytes = uvi_bytes(value as nat);
    lemma_uvi_bytes(value as nat, rest);
    if usize::BITS == 32 {
        reveal_with_fuel(pow, 6);
        lemma_uvi_bytes_len(value as nat, 5);
    } else {
        reveal_with_fuel(pow, 11);
        lemma_uvi_bytes_len(value as nat, 10);
    }
    assert((bytes + rest).take(bytes.len() as int) =~= bytes);
    lemma_small_mod(value as nat, usize::MAX as nat + 1);
}

/// Calls `Uvi::default`, which makes a codec.
#[verifier::external_body]
pub(crate) fn uvi_codec() -> Uvi<usize> {
    Uvi::default()
}

/// Calls `Encoder::encode` of `Uvi`, which appends the bytes of `value` to the
/// buffer and never fails.
#[verifier::external_body]
pub(crate) fn uvi_encode(
    codec: &mut Uvi<usize>,
    value: usize,
    buffer: &mut BytesMut,
) -> (result: Result<(), std::io::Error>)
    ensures
        result is Ok,
        buffered(*final(buffer)) == buffered(*old(buffer)) + uvi_bytes(value as nat),
{
    codec.encode(value, buffer)
}

/// Calls `Decoder::decode` of `Uvi`, which reads a number from the start of the
/// buffer and takes its bytes out. Where the number is incomplete or too long
/// the buffer keeps its bytes.
#[verifier::external_body]
pub(crate) fn uvi_decode(
    codec: &mut Uvi<usize>,
    buffer: &mut BytesMut,
) -> (result: Result<Option<usize>, std::io::Error>)
    ensures
        match uvi_read(buffered(*old(buffer))) {
            UviRead::Incomplete => {
                &&& result matches Ok(None)
                &&& buffered(*final(buffer)) == buffered(*old(buffer))
            },
            UviRead::TooLong => {
                &&& result is Err
                &&& buffered(*final(buffer)) == buffered(*old(buffer))
            },
            UviRead::Number { value, used } => {
                &&& result matches Ok(Some(number)) && number as nat == value
                &&& buffered(*final(buffer)) == buffered(*old(buffer)).skip(used as int)
            },
        },
{
    codec.decode(buffer)
}

} // verus!
