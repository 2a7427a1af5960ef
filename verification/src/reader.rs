//! The number and length-prefix parsers of the `nom` crate, as the decoders
//! use them.
//!
//! Nothing in this file is proved: each function hands its input to `nom`,
//! and its contract says what `nom` documents for a byte slice.

use nom::multi::length_data;
use nom::number::complete;
use vstd::prelude::*;

verus! {

/// The number that two bytes at `pos` spell in big-endian order.
pub open spec fn u16_at(s: Seq<u8>, pos: int) -> int {
    s[pos] * 256 + s[pos + 1]
}

/// The number that four bytes at `pos` spell in big-endian order.
pub open spec fn u32_at(s: Seq<u8>, pos: int) -> int {
    s[pos] * 16777216 + s[pos + 1] * 65536 + s[pos + 2] * 256 + s[pos + 3]
}

/// `nom::number::complete::be_u8`: the first byte of the input; fails only
/// on an empty input.
#[verifier::external_body]
pub(crate) fn be_u8(input: &[u8]) -> (r: Option<u8>)
    ensures
        r == (if input@.len() >= 1 {
            Some(input@[0])
        } else {
            None
        }),
{
    match complete::be_u8::<&[u8], nom::error::Error<&[u8]>>(input) {
        Ok((_, v)) => Some(v),
        Err(_) => None,
    }
}

/// `nom::number::complete::be_u16`: the first two bytes of the input as a
/// big-endian number; fails only on an input of fewer than two bytes.
#[verifier::external_body]
pub(crate) fn be_u16(input: &[u8]) -> (r: Option<u16>)
    ensures
        r is Some <==> input@.len() >= 2,
        r matches Some(v) ==> v == u16_at(input@, 0),
{
    match complete::be_u16::<&[u8], nom::error::Error<&[u8]>>(input) {
        Ok((_, v)) => Some(v),
        Err(_) => None,
    }
}

/// `nom::number::complete::be_u32`: the first four bytes of the input as a
/// big-endian number; fails only on an input of fewer than four bytes.
#[verifier::external_body]
pub(crate) fn be_u32(input: &[u8]) -> (r: Option<u32>)
    ensures
        r is Some <==> input@.len() >= 4,
        r matches Some(v) ==> v == u32_at(input@, 0),
{
    match complete::be_u32::<&[u8], nom::error::Error<&[u8]>>(input) {
        Ok((_, v)) => Some(v),
        Err(_) => None,
    }
}

/// `nom::multi::length_data` over `be_u16`: reads a big-endian 16-bit length
/// and hands out the bytes that follow it, exactly that many. Fails when the
/// input has fewer than two bytes, or fewer bytes after them than the length
/// says.
#[verifier::external_body]
pub(crate) fn length_data_u16(input: &[u8]) -> (r: Option<&[u8]>)
    ensures
        r is Some <==> (input@.len() >= 2 && input@.len() >= 2 + u16_at(input@, 0)),
        r matches Some(data) ==> data@ == input@.subrange(2, 2 + u16_at(input@, 0)),
{
    match length_data(complete::be_u16::<&[u8], nom::error::Error<&[u8]>>)(input) {
        Ok((_, data)) => Some(data),
        Err(_) => None,
    }
}

} // verus!
