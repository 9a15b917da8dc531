use vstd::prelude::*;

verus! {

/// Why a value could not be decoded.
#[derive(Debug, Clone, Copy, PartialEq, Eq, Structural)]
pub enum Asn1Error {
    /// The content octets of an INTEGER are empty.
    MalformedInteger,
    /// The first block is not a universal-class INTEGER.
    UnsupportedEncoding,
    /// A version number other than 0, 1 or 2.
    UnsupportedVersion,
    /// An integer that does not fit in 64 signed bits.
    SerialNumberOutOfRange,
    /// The bytes are not a run of short-form tag-length-value blocks.
    MalformedBlock,
}

} // verus!
