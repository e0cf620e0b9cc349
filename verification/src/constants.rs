//! Wire constants of the portable storage format: the root signature, the
//! scalar type codes, the array flag, and the format limits.

use vstd::prelude::*;

verus! {

/// First half of the root signature, in wire order.
pub const PORTABLE_STORAGE_SIGNATUREA: u32 = 0x01011101;

/// Second half of the root signature, in wire order.
pub const PORTABLE_STORAGE_SIGNATUREB: u32 = 0x01020101;

/// Format version byte that closes the root signature.
pub const PORTABLE_STORAGE_FORMAT_VER: u8 = 0x01;

/// Length in bytes of the root signature.
pub const PORTABLE_STORAGE_SIGNATURE_SIZE: usize = 9;

/// The 9 bytes that every root-level stream must begin with.
pub const PORTABLE_STORAGE_SIGNATURE: [u8; 9] = [
    0x01,
    0x11,
    0x01,
    0x01,
    0x01,
    0x01,
    0x02,
    0x01,
    0x01,
];

/// The root signature as a sequence, for use in contracts.
pub open spec fn spec_signature() -> Seq<u8> {
    seq![0x01u8, 0x11u8, 0x01u8, 0x01u8, 0x01u8, 0x01u8, 0x02u8, 0x01u8, 0x01u8]
}

/// Returns the root signature bytes.
pub fn signature_bytes() -> (r: [u8; 9])
    ensures
        r@ == spec_signature(),
{
    proof {
        assert(PORTABLE_STORAGE_SIGNATURE@ =~= spec_signature());
    }
    PORTABLE_STORAGE_SIGNATURE
}

/// Placeholder code meaning "no scalar type recorded yet".
pub const SERIALIZE_TYPE_UNKNOWN: u8 = 0;

pub const SERIALIZE_TYPE_INT64: u8 = 1;

pub const SERIALIZE_TYPE_INT32: u8 = 2;

pub const SERIALIZE_TYPE_INT16: u8 = 3;

pub const SERIALIZE_TYPE_INT8: u8 = 4;

pub const SERIALIZE_TYPE_UINT64: u8 = 5;

pub const SERIALIZE_TYPE_UINT32: u8 = 6;

pub const SERIALIZE_TYPE_UINT16: u8 = 7;

pub const SERIALIZE_TYPE_UINT8: u8 = 8;

pub const SERIALIZE_TYPE_DOUBLE: u8 = 9;

pub const SERIALIZE_TYPE_STRING: u8 = 10;

pub const SERIALIZE_TYPE_BOOL: u8 = 11;

pub const SERIALIZE_TYPE_OBJECT: u8 = 12;

/// Bit 7 of a tag byte: the entry is an array of the tagged scalar type.
pub const SERIALIZE_FLAG_ARRAY: u8 = 0x80;

/// Largest number of (key, entry) pairs a section may hold.
pub const MAX_NUM_SECTION_FIELDS: usize = 10000;

/// Largest key length the 1-byte key length prefix can carry.
pub const MAX_SECTION_KEY_SIZE: usize = 255;

/// Largest string/blob payload length accepted on either direction.
pub const MAX_STRING_LEN_POSSIBLE: usize = 2000000000;

} // verus!
