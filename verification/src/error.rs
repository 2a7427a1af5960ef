//! The ways in which decoding, encoding or resolution can fail.

use vstd::prelude::*;

verus! {

/// Why a message could not be decoded, encoded or resolved.
#[derive(Debug, Clone, Copy, PartialEq, Eq, Structural)]
pub enum Error {
    /// The buffer ends before a field that the format demands.
    TruncatedInput,
    /// A label's length byte has the bit pattern `01xxxxxx` or `10xxxxxx`,
    /// or a label to encode is empty or longer than 63 bytes.
    InvalidLabelLength,
    /// A compression pointer targets an offset at or after the end of the message.
    PointerOutOfRange,
    /// A compression pointer does not move strictly backwards from the place
    /// where the previous pointer landed.
    PointerCycle,
    /// A name takes more than 255 bytes on the wire.
    NameTooLong,
    /// An rdata, or a section, too large for its 16-bit length or count.
    PayloadTooLarge,
    /// The upstream resolver gave no usable reply.
    UpstreamResolutionFailed,
}

} // verus!
