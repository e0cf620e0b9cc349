//! Encoder and decoder for the EPEE Portable Storage binary format: the
//! self-describing, tag-prefixed serialization used by the Monero P2P
//! protocol.
//!
//! A value is a *section*: an ordered mapping from short byte-string keys to
//! typed entries, where an entry is a scalar, a homogeneous array of scalars,
//! or a nested section.  A root section is preceded by a fixed 9-byte
//! signature.  All lengths on the wire are carried by a 2-bit-discriminated
//! variable-length integer.

pub mod byte_counter;
pub mod constants;
pub mod de;
pub mod error;
pub mod laws;
pub mod little_endian;
pub mod section;
pub mod ser;
pub mod varint;
pub mod wire;

pub use de::from_bytes;
pub use error::{Error, ErrorKind};
pub use section::{Section, SectionArray, SectionEntry};
pub use ser::{serialize_into, serialized_size, to_bytes};
pub use varint::VarInt;
