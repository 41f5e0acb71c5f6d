use vstd::prelude::*;

verus! {

/// Every way a patch can fail to parse or to apply.
///
/// `BadMagic`: the stream does not begin with the 8-byte format tag.
/// `InvalidLength`: a signed-magnitude field that must be non-negative
/// has its sign bit set.
/// `IntegerOverflow`: a decoded length does not fit in `usize`.
/// `CorruptBlock`: a compressed block is truncated or fails to decompress.
/// `MalformedControlBlock`: the decompressed control block is not a whole
/// number of 24-byte records.
/// `ShortRead`: the container header is truncated, or a copy instruction
/// reaches outside the original bytes.
/// `StreamExhausted`: the diff or extra stream holds fewer bytes than the
/// instructions demand, or bytes of it are left over when replay ends.
/// `InvalidDigest`: a hex-encoded digest is not 32 hex digits.
#[derive(Clone, Copy, Debug, PartialEq, Eq, Structural)]
pub enum Error {
    BadMagic,
    InvalidLength,
    IntegerOverflow,
    CorruptBlock,
    MalformedControlBlock,
    ShortRead,
    StreamExhausted,
    InvalidDigest,
}

} // verus!
