//! Content-integrity companion: a fixed 16-byte MD5 digest, parsed from
//! its 32-digit hex form, compared against the hash of candidate bytes.

use vstd::prelude::*;

use crate::error::Error;

verus! {

/// The MD5 digest of a byte sequence; a function of the bytes alone.
pub uninterp spec fn md5_of(s: Seq<u8>) -> Seq<u8>;

/// Relies on md-5's `Md5::digest` (the `Digest` trait): hashes `bytes`
/// to its 16-byte MD5 digest.
#[verifier::external_body]
fn md5_digest(bytes: &[u8]) -> (r: Vec<u8>)
    ensures
        r@ == md5_of(bytes@),
        r@.len() == 16,
{
    <md5::Md5 as md5::Digest>::digest(bytes).to_vec()
}

/// An ASCII hex digit: `0-9`, `a-f` or `A-F`.
pub open spec fn is_hex_digit(b: u8) -> bool {
    (48 <= b && b <= 57) || (97 <= b && b <= 102) || (65 <= b && b <= 70)
}

/// The value of an ASCII hex digit.
pub open spec fn hex_digit_val(b: u8) -> int {
    if 48 <= b && b <= 57 {
        b - 48
    } else if 97 <= b && b <= 102 {
        b - 87
    } else if 65 <= b && b <= 70 {
        b - 55
    } else {
        0
    }
}

/// A decodable hex string: an even number of hex digits.
pub open spec fn is_valid_hex(s: Seq<u8>) -> bool {
    s.len() % 2 == 0 && (forall|i: int| 0 <= i < s.len() ==> is_hex_digit(s[i]))
}

/// The bytes a hex string decodes to, each pair high nibble first.
pub open spec fn hex_decoded(s: Seq<u8>) -> Seq<u8> {
    Seq::new(
        (s.len() / 2) as nat,
        |i: int| (16 * hex_digit_val(s[2 * i]) + hex_digit_val(s[2 * i + 1])) as u8,
    )
}

/// Relies on hex's `decode`: accepts exactly an even number of the
/// digits `0-9`, `a-f`, `A-F`, pairing them high nibble first.
#[verifier::external_body]
fn hex_decode(s: &[u8]) -> (r: Option<Vec<u8>>)
    ensures
        r is Some <==> is_valid_hex(s@),
        r is Some ==> r->Some_0@ == hex_decoded(s@),
{
    match hex::decode(s) {
        Ok(v) => Some(v),
        Err(_) => None,
    }
}

/// A fixed 16-byte content digest, constructed from hex and used only to
/// check candidate byte buffers.
#[derive(Clone)]
pub struct Checksum {
    digest: Vec<u8>,
}

impl View for Checksum {
    type V = Seq<u8>;

    closed spec fn view(&self) -> Seq<u8> {
        self.digest@
    }
}

impl Checksum {
    /// A checksum always holds exactly 16 digest bytes.
    pub open spec fn wf(&self) -> bool {
        self@.len() == 16
    }

    /// Parses a digest from its 32-hex-digit form.
    pub fn from_hex(s: &[u8]) -> (r: Result<Checksum, Error>)
        ensures
            match r {
                Ok(c) => is_valid_hex(s@) && s@.len() == 32 && c@ == hex_decoded(s@) && c.wf(),
                Err(e) => (!is_valid_hex(s@) || s@.len() != 32) && e == Error::InvalidDigest,
            },
    {
        let v = match hex_decode(s) {
            Some(v) => v,
            None => {
                return Err(Error::InvalidDigest);
            },
        };
        if v.len() != 16 {
            return Err(Error::InvalidDigest);
        }
        Ok(Checksum { digest: v })
    }

    /// Does `bytes` hash to this digest?
    pub fn validate_bytes(&self, bytes: &[u8]) -> (r: bool)
        requires
            self.wf(),
        ensures
            r == (md5_of(bytes@) == self@),
    {
        let digest = md5_digest(bytes);
        let mut i: usize = 0;
        while i < 16
            invariant
                i <= 16,
                digest@.len() == 16,
                self@.len() == 16,
                digest@ == md5_of(bytes@),
                forall|k: int| 0 <= k < i ==> digest@[k] == self@[k],
            decreases 16 - i,
        {
            if digest[i] != self.digest[i] {
                return false;
            }
            i = i + 1;
        }
        proof {
            assert(digest@ =~= self@);
        }
        true
    }

    /// The raw digest bytes.
    pub fn digest_bytes(&self) -> (r: &Vec<u8>)
        ensures
            r@ == self@,
    {
        &self.digest
    }
}

} // verus!
