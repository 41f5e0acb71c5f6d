//! Decoding of the decompressed control block into instruction records.
//!
//! The control block is a sequence of 24-byte records, each three 8-byte
//! signed-magnitude fields: bytes to copy-and-diff, bytes to insert from
//! the extra stream, and a signed cursor seek. Records are decoded in
//! stream order, and that order is the replay order.

use vstd::prelude::*;

use crate::bz::{bounded_block_spec, read_bzip_block};
use crate::codec::{
    le64_value, read_ones_complement_le_i64, read_positive_le_i64, sign_magnitude_val,
};
use crate::error::Error;

verus! {

/// One replay instruction: copy `diff_amount` original bytes (adding as
/// many diff-stream bytes, byte-wise mod 256), insert `extra_amount`
/// extra-stream bytes verbatim, then move the original cursor by `seek`.
#[derive(Clone, Copy, Debug, PartialEq, Eq, Structural)]
pub struct Control {
    pub diff_amount: u64,
    pub extra_amount: u64,
    pub seek: i64,
}

/// The records of a decompressed control block whose length is a whole
/// number of 24-byte records, in stream order. The two lengths of each
/// record must decode non-negative; its seek field is signed.
pub open spec fn decode_records(b: Seq<u8>) -> Result<Seq<Control>, Error>
    decreases b.len(),
{
    if b.len() < 24 {
        Ok(Seq::empty())
    } else {
        let c = le64_value(b.subrange(0, 8));
        if c >= 0x8000_0000_0000_0000 {
            Err(Error::InvalidLength)
        } else {
            let i = le64_value(b.subrange(8, 16));
            if i >= 0x8000_0000_0000_0000 {
                Err(Error::InvalidLength)
            } else {
                let s = sign_magnitude_val(le64_value(b.subrange(16, 24)));
                let rec = Control {
                    diff_amount: c as u64,
                    extra_amount: i as u64,
                    seek: s as i64,
                };
                match decode_records(b.skip(24)) {
                    Ok(rest) => Ok(seq![rec] + rest),
                    Err(e) => Err(e),
                }
            }
        }
    }
}

/// What a decompressed buffer decodes to: its records, unless its length
/// is not a multiple of the record size.
pub open spec fn decode_control(b: Seq<u8>) -> Result<Seq<Control>, Error> {
    if b.len() % 24 != 0 {
        Err(Error::MalformedControlBlock)
    } else {
        decode_records(b)
    }
}

/// What the control block embedded in a container decodes to: the `len`
/// compressed bytes at `pos`, decompressed and decoded.
pub open spec fn control_block_spec(data: Seq<u8>, pos: int, len: int) -> Result<
    Seq<Control>,
    Error,
> {
    match bounded_block_spec(data, pos, len) {
        Ok(b) => decode_control(b),
        Err(e) => Err(e),
    }
}

/// Decodes a decompressed control buffer into its instruction records.
pub fn decode_instructions(block: &[u8]) -> (r: Result<Vec<Control>, Error>)
    ensures
        match r {
            Ok(v) => decode_control(block@) == Ok::<Seq<Control>, Error>(v@) && 24 * v@.len()
                <= usize::MAX,
            Err(e) => decode_control(block@) == Err::<Seq<Control>, Error>(e),
        },
{
    if block.len() % 24 != 0 {
        return Err(Error::MalformedControlBlock);
    }
    let n = block.len() / 24;
    let mut acc: Vec<Control> = Vec::new();
    let mut idx: usize = 0;
    proof {
        assert(block@.skip(0) =~= block@);
    }
    while idx < n
        invariant
            block@.len() % 24 == 0,
            block@.len() <= usize::MAX,
            n == block@.len() / 24,
            24 * n <= block@.len(),
            idx <= n,
            acc@.len() == idx,
            (match decode_records(block@.skip(24 * idx as int)) {
                Ok(rest) => decode_records(block@) == Ok::<Seq<Control>, Error>(acc@ + rest),
                Err(e) => decode_records(block@) == Err::<Seq<Control>, Error>(e),
            }),
        decreases n - idx,
    {
        let off = 24 * idx;
        let ghost t = block@.skip(24 * idx as int);
        proof {
            assert(t.len() == block@.len() - 24 * idx >= 24);
            assert(t.subrange(0, 8) =~= block@.subrange(off as int, off as int + 8));
            assert(t.subrange(8, 16) =~= block@.subrange(off as int + 8, off as int + 16));
            assert(t.subrange(16, 24) =~= block@.subrange(off as int + 16, off as int + 24));
            assert(t.skip(24) =~= block@.skip(24 * (idx as int + 1)));
        }
        let diff_amount = match read_positive_le_i64(block, off) {
            Ok(v) => v,
            Err(e) => {
                return Err(e);
            },
        };
        let extra_amount = match read_positive_le_i64(block, off + 8) {
            Ok(v) => v,
            Err(e) => {
                return Err(e);
            },
        };
        let seek = read_ones_complement_le_i64(block, off + 16);
        let rec = Control { diff_amount, extra_amount, seek };
        let ghost acc0 = acc@;
        acc.push(rec);
        proof {
            let t2 = block@.skip(24 * (idx as int + 1));
            assert(decode_records(t) == (match decode_records(t2) {
                Ok(rest2) => Ok::<Seq<Control>, Error>(seq![rec] + rest2),
                Err(e) => Err::<Seq<Control>, Error>(e),
            }));
            match decode_records(t2) {
                Ok(rest2) => {
                    assert(acc0 + (seq![rec] + rest2) =~= acc@ + rest2);
                },
                Err(e) => {},
            }
        }
        idx = idx + 1;
    }
    proof {
        assert(block@.skip(24 * idx as int).len() == 0);
        assert(acc@ + decode_records(block@.skip(24 * idx as int))->Ok_0 =~= acc@);
    }
    Ok(acc)
}

/// Reads and decodes the control block: bounded decompression of the `len`
/// compressed bytes of `data` at `pos`, then record decoding.
pub fn read_control_block(data: &[u8], pos: usize, len: u64) -> (r: Result<Vec<Control>, Error>)
    requires
        pos <= data@.len(),
    ensures
        match r {
            Ok(v) => control_block_spec(data@, pos as int, len as int) == Ok::<
                Seq<Control>,
                Error,
            >(v@) && 24 * v@.len() <= usize::MAX,
            Err(e) => control_block_spec(data@, pos as int, len as int) == Err::<
                Seq<Control>,
                Error,
            >(e),
        },
{
    let block = match read_bzip_block(data, pos, len) {
        Ok(b) => b,
        Err(e) => {
            return Err(e);
        },
    };
    decode_instructions(block.as_slice())
}

} // verus!
