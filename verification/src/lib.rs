//! Parser and applier for the bsdiff4 binary patch container: an 8-byte
//! tag, three signed-magnitude lengths, and three bzip2-compressed blocks
//! (control instructions, diff bytes, extra bytes). Applying a parsed patch
//! replays the instructions against a fully addressable original buffer to
//! reconstruct the target bytes. A small companion module checks buffers
//! against an MD5 digest given in hex.

pub mod bz;
pub mod checksum;
pub mod codec;
pub mod control;
pub mod error;
pub mod patch;

pub use checksum::Checksum;
pub use codec::ones_complement_i64;
pub use control::Control;
pub use error::Error;
pub use patch::{copy_exact, Bsdiff4};
