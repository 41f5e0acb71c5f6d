//! Decompression of the container's three embedded bzip2 blocks.
//!
//! The compressed bytes are handed to the bzip2 crate; everything around
//! the call — slicing the right compressed range out of the container and
//! turning a failure into `CorruptBlock` — is verified.

use vstd::prelude::*;
use vstd::slice::slice_subrange;

use crate::error::Error;

use std::io::Read;

verus! {

/// What bzip2 decompression yields on a compressed byte sequence: the
/// decompressed bytes, or nothing where the sequence is not a well-formed
/// bzip2 stream. The result is a function of the bytes alone.
pub uninterp spec fn bunzip_of(s: Seq<u8>) -> Option<Seq<u8>>;

/// Relies on bzip2's `read::BzDecoder` together with `Read::read_to_end`:
/// decompresses the single bzip2 stream held in `data`, erring where the
/// stream is corrupt or truncated.
#[verifier::external_body]
fn bz_decompress(data: &[u8]) -> (r: Option<Vec<u8>>)
    ensures
        r is Some <==> bunzip_of(data@) is Some,
        r is Some ==> r->Some_0@ == bunzip_of(data@)->Some_0,
{
    let mut out = Vec::new();
    match bzip2::read::BzDecoder::new(data).read_to_end(&mut out) {
        Ok(_) => Some(out),
        Err(_) => None,
    }
}

/// The bytes a bounded block decompresses to: the block is the `len`
/// compressed bytes of `data` at `pos`; a range that overruns `data` counts
/// as truncated input and so as a corrupt block.
pub open spec fn bounded_block_spec(data: Seq<u8>, pos: int, len: int) -> Result<Seq<u8>, Error> {
    if pos + len > data.len() {
        Err(Error::CorruptBlock)
    } else {
        match bunzip_of(data.subrange(pos, pos + len)) {
            Some(b) => Ok(b),
            None => Err(Error::CorruptBlock),
        }
    }
}

/// Bounded decompression: decompresses exactly the `len` compressed bytes
/// of `data` that start at `pos`.
pub fn read_bzip_block(data: &[u8], pos: usize, len: u64) -> (r: Result<Vec<u8>, Error>)
    requires
        pos <= data@.len(),
    ensures
        match r {
            Ok(v) => bounded_block_spec(data@, pos as int, len as int) == Ok::<Seq<u8>, Error>(v@),
            Err(e) => bounded_block_spec(data@, pos as int, len as int) == Err::<Seq<u8>, Error>(e),
        },
{
    let avail = data.len() - pos;
    if len > avail as u64 {
        return Err(Error::CorruptBlock);
    }
    let comp = slice_subrange(data, pos, pos + len as usize);
    match bz_decompress(comp) {
        Some(v) => Ok(v),
        None => Err(Error::CorruptBlock),
    }
}

/// To-end decompression: decompresses the remainder of `data` from `pos`,
/// relying on the stream's own end marker.
pub fn read_bzip_to_end(data: &[u8], pos: usize) -> (r: Result<Vec<u8>, Error>)
    requires
        pos <= data@.len(),
    ensures
        match r {
            Ok(v) => bunzip_of(data@.subrange(pos as int, data@.len() as int)) == Some(v@),
            Err(e) => bunzip_of(data@.subrange(pos as int, data@.len() as int)) is None
                && e == Error::CorruptBlock,
        },
{
    let comp = slice_subrange(data, pos, data.len());
    match bz_decompress(comp) {
        Some(v) => Ok(v),
        None => Err(Error::CorruptBlock),
    }
}

} // verus!
