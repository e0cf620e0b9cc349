//! The decoder: a pull parser over a byte buffer, proven equal to the
//! specification parser of `wire`.  The format is self-describing: every
//! entry announces its own type in a tag byte.

use vstd::prelude::*;
use crate::constants::signature_bytes;
use crate::error::{Error, ErrorKind};
use crate::little_endian::{le_nat, lemma_le_nat_bound, lemma_pow256_values, read_le};
use crate::section::{bytes_eq, Section, SectionArray, SectionEntry};
use crate::varint::{spec_parse_varint, VarInt};
use crate::wire::{
    spec_parse_array_tail, spec_parse_blob, spec_parse_blobs, spec_parse_bodies, spec_parse_body,
    spec_parse_entry, spec_parse_fixed, spec_parse_key, spec_parse_pairs, spec_parse_root,
};

verus! {

/// The twelve scalar wire types.
#[derive(Debug, Clone, Copy, PartialEq, Eq, Structural)]
pub enum EpeeScalarType {
    Int64,
    Int32,
    Int16,
    Int8,
    UInt64,
    UInt32,
    UInt16,
    UInt8,
    Double,
    Str,
    Bool,
    Object,
}

impl EpeeScalarType {
    /// The wire code of this scalar type.
    pub open spec fn spec_code(self) -> u8 {
        match self {
            EpeeScalarType::Int64 => 1,
            EpeeScalarType::Int32 => 2,
            EpeeScalarType::Int16 => 3,
            EpeeScalarType::Int8 => 4,
            EpeeScalarType::UInt64 => 5,
            EpeeScalarType::UInt32 => 6,
            EpeeScalarType::UInt16 => 7,
            EpeeScalarType::UInt8 => 8,
            EpeeScalarType::Double => 9,
            EpeeScalarType::Str => 10,
            EpeeScalarType::Bool => 11,
            EpeeScalarType::Object => 12,
        }
    }

    /// Reads the scalar type out of a tag byte, ignoring the array flag.
    /// A low-seven-bit value of 0 or above 12 is not a type.
    pub fn from_type_code(type_code: u8) -> (r: Result<Self, Error>)
        ensures
            1 <= type_code % 128 <= 12 ==> (r matches Ok(t) && t.spec_code() == type_code % 128),
            !(1 <= type_code % 128 <= 12) ==> (r matches Err(e) && e.kind == ErrorKind::BadTypeCode),
    {
        let scalar_type_code = type_code % 128;
        if scalar_type_code == 0 || scalar_type_code > 12 {
            return Err(Error::new_no_msg(ErrorKind::BadTypeCode));
        }
        Ok(
            if scalar_type_code == 1 {
                EpeeScalarType::Int64
            } else if scalar_type_code == 2 {
                EpeeScalarType::Int32
            } else if scalar_type_code == 3 {
                EpeeScalarType::Int16
            } else if scalar_type_code == 4 {
                EpeeScalarType::Int8
            } else if scalar_type_code == 5 {
                EpeeScalarType::UInt64
            } else if scalar_type_code == 6 {
                EpeeScalarType::UInt32
            } else if scalar_type_code == 7 {
                EpeeScalarType::UInt16
            } else if scalar_type_code == 8 {
                EpeeScalarType::UInt8
            } else if scalar_type_code == 9 {
                EpeeScalarType::Double
            } else if scalar_type_code == 10 {
                EpeeScalarType::Str
            } else if scalar_type_code == 11 {
                EpeeScalarType::Bool
            } else {
                EpeeScalarType::Object
            },
        )
    }
}

/// A decoded tag byte: the scalar type and the array flag.
#[derive(Debug, Clone, Copy, PartialEq, Eq, Structural)]
pub struct EpeeEntryType {
    pub scalar_type: EpeeScalarType,
    pub is_array: bool,
}

impl EpeeEntryType {
    /// Splits a tag byte into scalar type and array flag.
    pub fn from_type_code(type_code: u8) -> (r: Result<Self, Error>)
        ensures
            1 <= type_code % 128 <= 12 ==> (r matches Ok(t) && t.scalar_type.spec_code()
                == type_code % 128 && t.is_array == (type_code / 128 == 1)),
            !(1 <= type_code % 128 <= 12) ==> (r matches Err(e) && e.kind == ErrorKind::BadTypeCode),
    {
        let scalar = EpeeScalarType::from_type_code(type_code)?;
        let is_array = type_code >= 128;
        Ok(EpeeEntryType { scalar_type: scalar, is_array })
    }
}

/// A pull parser over an in-memory byte stream.
pub struct Deserializer {
    pub input: Vec<u8>,
    pub pos: usize,
}

impl Deserializer {
    /// The parser's position never passes the end of its input.
    pub open spec fn wf(self) -> bool {
        self.pos <= self.input@.len()
    }

    /// Starts a parser at the beginning of a byte stream.
    pub fn from_reader(input: Vec<u8>) -> (r: Self)
        ensures
            r.input@ == input@,
            r.pos == 0,
            r.wf(),
    {
        Deserializer { input, pos: 0 }
    }

    /// How many bytes have been consumed.
    pub fn position(&self) -> (r: usize)
        ensures
            r == self.pos,
    {
        self.pos
    }

    /// Reads `n` raw bytes.
    pub fn read_raw(&mut self, n: usize) -> (r: Result<Vec<u8>, Error>)
        requires
            old(self).wf(),
        ensures
            final(self).wf(),
            final(self).input@ == old(self).input@,
            if old(self).pos + n <= old(self).input@.len() {
                &&& r matches Ok(v) && v@ == old(self).input@.subrange(
                    old(self).pos as int,
                    old(self).pos + n,
                )
                &&& final(self).pos == old(self).pos + n
            } else {
                &&& r matches Err(e) && e.kind == ErrorKind::IOError
                &&& final(self).pos == old(self).pos
            },
    {
        let p = self.pos;
        if n > self.input.len() - p {
            return Err(Error::new_no_msg(ErrorKind::IOError));
        }
        let mut v: Vec<u8> = Vec::new();
        let mut i: usize = 0;
        while i < n
            invariant
                i <= n,
                p + n <= self.input@.len(),
                p + n <= usize::MAX,
                v@.len() == i,
                forall|k: int| 0 <= k < i ==> v@[k] == self.input@[p + k],
                self == old(self),
            decreases n - i,
        {
            v.push(self.input[p + i]);
            i = i + 1;
        }
        self.pos = p + n;
        proof {
            assert(v@ =~= self.input@.subrange(p as int, p + n));
        }
        Ok(v)
    }

    /// Reads one byte.
    pub fn read_single(&mut self) -> (r: Result<u8, Error>)
        requires
            old(self).wf(),
        ensures
            final(self).wf(),
            final(self).input@ == old(self).input@,
            if old(self).pos < old(self).input@.len() {
                &&& r matches Ok(b) && b == old(self).input@[old(self).pos as int]
                &&& final(self).pos == old(self).pos + 1
            } else {
                &&& r matches Err(e) && e.kind == ErrorKind::IOError
                &&& final(self).pos == old(self).pos
            },
    {
        if self.pos >= self.input.len() {
            return Err(Error::new_no_msg(ErrorKind::IOError));
        }
        let b = self.input[self.pos];
        self.pos = self.pos + 1;
        Ok(b)
    }

    /// Reads a fixed little-endian payload of `w` bytes as a raw word.
    fn read_word(&mut self, w: usize) -> (r: Result<u64, Error>)
        requires
            old(self).wf(),
            w <= 8,
        ensures
            final(self).wf(),
            final(self).input@ == old(self).input@,
            if old(self).pos + w <= old(self).input@.len() {
                &&& r matches Ok(x) && x == le_nat(
                    old(self).input@.subrange(old(self).pos as int, old(self).pos + w),
                ) as u64
                &&& final(self).pos == old(self).pos + w
            } else {
                &&& r matches Err(e) && e.kind == ErrorKind::IOError
                &&& final(self).pos == old(self).pos
            },
    {
        let p = self.pos;
        if w > self.input.len() - p {
            return Err(Error::new_no_msg(ErrorKind::IOError));
        }
        let x = read_le(self.input.as_slice(), p, w);
        self.pos = p + w;
        proof {
            lemma_le_nat_bound(self.input@.subrange(p as int, p + w));
            lemma_pow256_values();
        }
        Ok(x)
    }

    /// Reads an unsigned 8-bit payload.
    pub fn parse_u8(&mut self) -> (r: Result<u8, Error>)
        requires
            old(self).wf(),
        ensures
            final(self).wf(),
            final(self).input@ == old(self).input@,
            if old(self).pos + 1 <= old(self).input@.len() {
                &&& r matches Ok(x) && x == le_nat(
                    old(self).input@.subrange(old(self).pos as int, old(self).pos + 1),
                ) as u8
                &&& final(self).pos == old(self).pos + 1
            } else {
                &&& r matches Err(e) && e.kind == ErrorKind::IOError
                &&& final(self).pos == old(self).pos
            },
    {
        let x = self.read_word(1)?;
        proof {
            lemma_le_nat_bound(old(self).input@.subrange(old(self).pos as int, old(self).pos + 1));
            lemma_pow256_values();
        }
        let y: u8 = #[verifier::truncate] (x as u8);
        Ok(y)
    }

    /// Reads an unsigned 16-bit little-endian payload.
    pub fn parse_u16(&mut self) -> (r: Result<u16, Error>)
        requires
            old(self).wf(),
        ensures
            final(self).wf(),
            final(self).input@ == old(self).input@,
            if old(self).pos + 2 <= old(self).input@.len() {
                &&& r matches Ok(x) && x == le_nat(
                    old(self).input@.subrange(old(self).pos as int, old(self).pos + 2),
                ) as u16
                &&& final(self).pos == old(self).pos + 2
            } else {
                &&& r matches Err(e) && e.kind == ErrorKind::IOError
                &&& final(self).pos == old(self).pos
            },
    {
        let x = self.read_word(2)?;
        proof {
            lemma_le_nat_bound(old(self).input@.subrange(old(self).pos as int, old(self).pos + 2));
            lemma_pow256_values();
        }
        let y: u16 = #[verifier::truncate] (x as u16);
        Ok(y)
    }

    /// Reads an unsigned 32-bit little-endian payload.
    pub fn parse_u32(&mut self) -> (r: Result<u32, Error>)
        requires
            old(self).wf(),
        ensures
            final(self).wf(),
            final(self).input@ == old(self).input@,
            if old(self).pos + 4 <= old(self).input@.len() {
                &&& r matches Ok(x) && x == le_nat(
                    old(self).input@.subrange(old(self).pos as int, old(self).pos + 4),
                ) as u32
                &&& final(self).pos == old(self).pos + 4
            } else {
                &&& r matches Err(e) && e.kind == ErrorKind::IOError
                &&& final(self).pos == old(self).pos
            },
    {
        let x = self.read_word(4)?;
        proof {
            lemma_le_nat_bound(old(self).input@.subrange(old(self).pos as int, old(self).pos + 4));
            lemma_pow256_values();
        }
        let y: u32 = #[verifier::truncate] (x as u32);
        Ok(y)
    }

    /// Reads an unsigned 64-bit little-endian payload.
    pub fn parse_u64(&mut self) -> (r: Result<u64, Error>)
        requires
            old(self).wf(),
        ensures
            final(self).wf(),
            final(self).input@ == old(self).input@,
            if old(self).pos + 8 <= old(self).input@.len() {
                &&& r matches Ok(x) && x == le_nat(
                    old(self).input@.subrange(old(self).pos as int, old(self).pos + 8),
                ) as u64
                &&& final(self).pos == old(self).pos + 8
            } else {
                &&& r matches Err(e) && e.kind == ErrorKind::IOError
                &&& final(self).pos == old(self).pos
            },
    {
        self.read_word(8)
    }

    /// Reads a signed 8-bit payload, two's complement.
    pub fn parse_i8(&mut self) -> (r: Result<i8, Error>)
        requires
            old(self).wf(),
        ensures
            final(self).wf(),
            final(self).input@ == old(self).input@,
            if old(self).pos + 1 <= old(self).input@.len() {
                &&& r matches Ok(x) && x == le_nat(
                    old(self).input@.subrange(old(self).pos as int, old(self).pos + 1),
                ) as u8 as i8
                &&& final(self).pos == old(self).pos + 1
            } else {
                &&& r matches Err(e) && e.kind == ErrorKind::IOError
                &&& final(self).pos == old(self).pos
            },
    {
        let x = self.read_word(1)?;
        proof {
            lemma_le_nat_bound(old(self).input@.subrange(old(self).pos as int, old(self).pos + 1));
            lemma_pow256_values();
        }
        let y: u8 = #[verifier::truncate] (x as u8);
        let z: i8 = #[verifier::truncate] (y as i8);
        Ok(z)
    }

    /// Reads a signed 16-bit little-endian payload, two's complement.
    pub fn parse_i16(&mut self) -> (r: Result<i16, Error>)
        requires
            old(self).wf(),
        ensures
            final(self).wf(),
            final(self).input@ == old(self).input@,
            if old(self).pos + 2 <= old(self).input@.len() {
                &&& r matches Ok(x) && x == le_nat(
                    old(self).input@.subrange(old(self).pos as int, old(self).pos + 2),
                ) as u16 as i16
                &&& final(self).pos == old(self).pos + 2
            } else {
                &&& r matches Err(e) && e.kind == ErrorKind::IOError
                &&& final(self).pos == old(self).pos
            },
    {
        let x = self.read_word(2)?;
        proof {
            lemma_le_nat_bound(old(self).input@.subrange(old(self).pos as int, old(self).pos + 2));
            lemma_pow256_values();
        }
        let y: u16 = #[verifier::truncate] (x as u16);
        let z: i16 = #[verifier::truncate] (y as i16);
        Ok(z)
    }

    /// Reads a signed 32-bit little-endian payload, two's complement.
    pub fn parse_i32(&mut self) -> (r: Result<i32, Error>)
        requires
            old(self).wf(),
        ensures
            final(self).wf(),
            final(self).input@ == old(self).input@,
            if old(self).pos + 4 <= old(self).input@.len() {
                &&& r matches Ok(x) && x == le_nat(
                    old(self).input@.subrange(old(self).pos as int, old(self).pos + 4),
                ) as u32 as i32
                &&& final(self).pos == old(self).pos + 4
            } else {
                &&& r matches Err(e) && e.kind == ErrorKind::IOError
                &&& final(self).pos == old(self).pos
            },
    {
        let x = self.read_word(4)?;
        proof {
            lemma_le_nat_bound(old(self).input@.subrange(old(self).pos as int, old(self).pos + 4));
            lemma_pow256_values();
        }
        let y: u32 = #[verifier::truncate] (x as u32);
        let z: i32 = #[verifier::truncate] (y as i32);
        Ok(z)
    }

    /// Reads a signed 64-bit little-endian payload, two's complement.
    pub fn parse_i64(&mut self) -> (r: Result<i64, Error>)
        requires
            old(self).wf(),
        ensures
            final(self).wf(),
            final(self).input@ == old(self).input@,
            if old(self).pos + 8 <= old(self).input@.len() {
                &&& r matches Ok(x) && x == le_nat(
                    old(self).input@.subrange(old(self).pos as int, old(self).pos + 8),
                ) as u64 as i64
                &&& final(self).pos == old(self).pos + 8
            } else {
                &&& r matches Err(e) && e.kind == ErrorKind::IOError
                &&& final(self).pos == old(self).pos
            },
    {
        let x = self.read_word(8)?;
        let z: i64 = #[verifier::truncate] (x as i64);
        Ok(z)
    }

    /// Reads a boolean payload: one byte, nonzero means true.
    pub fn parse_bool(&mut self) -> (r: Result<bool, Error>)
        requires
            old(self).wf(),
        ensures
            final(self).wf(),
            final(self).input@ == old(self).input@,
            if old(self).pos < old(self).input@.len() {
                &&& r matches Ok(x) && x == (old(self).input@[old(self).pos as int] != 0)
                &&& final(self).pos == old(self).pos + 1
            } else {
                &&& r matches Err(e) && e.kind == ErrorKind::IOError
                &&& final(self).pos == old(self).pos
            },
    {
        let b = self.read_single()?;
        Ok(b != 0)
    }

    /// Reads a tag byte and splits it.
    pub fn parse_type_code(&mut self) -> (r: Result<EpeeEntryType, Error>)
        requires
            old(self).wf(),
        ensures
            final(self).wf(),
            final(self).input@ == old(self).input@,
            old(self).pos >= old(self).input@.len() ==> (r matches Err(e) && e.kind
                == ErrorKind::IOError) && final(self).pos == old(self).pos,
            old(self).pos < old(self).input@.len() ==> {
                let tag = old(self).input@[old(self).pos as int];
                &&& final(self).pos == old(self).pos + 1
                &&& (1 <= tag % 128 <= 12) ==> (r matches Ok(t) && t.scalar_type.spec_code()
                    == tag % 128 && t.is_array == (tag / 128 == 1))
                &&& !(1 <= tag % 128 <= 12) ==> (r matches Err(e) && e.kind
                    == ErrorKind::BadTypeCode)
            },
    {
        let tag = self.read_single()?;
        EpeeEntryType::from_type_code(tag)
    }

    /// Reads a section key: one length byte `L >= 1`, then `L` key bytes.
    pub fn parse_string_key(&mut self) -> (r: Result<Vec<u8>, Error>)
        requires
            old(self).wf(),
        ensures
            final(self).wf(),
            final(self).input@ == old(self).input@,
            match spec_parse_key(old(self).input@, old(self).pos as int) {
                Ok((key, j)) => r matches Ok(v) && v@ == key && final(self).pos == j,
                Err(k) => r matches Err(e) && e.kind == k,
            },
            r is Ok ==> final(self).pos > old(self).pos,
            final(self).pos >= old(self).pos,
    {
        let strlen = self.read_single()?;
        if strlen == 0 {
            return Err(Error::new_no_msg(ErrorKind::EmptySectionKey));
        }
        let v = self.read_raw(strlen as usize)?;
        Ok(v)
    }

    /// Reads a string/blob payload: a varint length within the string
    /// limit, then that many bytes.
    pub fn parse_string_value(&mut self) -> (r: Result<Vec<u8>, Error>)
        requires
            old(self).wf(),
        ensures
            final(self).wf(),
            final(self).input@ == old(self).input@,
            match spec_parse_blob(old(self).input@, old(self).pos as int) {
                Ok((s, j)) => r matches Ok(v) && v@ == s && final(self).pos == j,
                Err(k) => r matches Err(e) && e.kind == k,
            },
            r is Ok ==> final(self).pos > old(self).pos,
            final(self).pos >= old(self).pos,
    {
        let varlen = VarInt::from_reader(self.input.as_slice(), &mut self.pos)?;
        let strsize = varlen.value();
        if strsize > 2000000000 {
            return Err(Error::new_no_msg(ErrorKind::StringTooLong));
        }
        let v = self.read_raw(strsize as usize)?;
        Ok(v)
    }

    /// Reads one varint.
    pub fn parse_varint(&mut self) -> (r: Result<VarInt, Error>)
        requires
            old(self).wf(),
        ensures
            final(self).wf(),
            final(self).input@ == old(self).input@,
            final(self).pos >= old(self).pos,
            match spec_parse_varint(old(self).input@, old(self).pos as int) {
                Ok((v, j)) => r matches Ok(vi) && vi.spec_value() == v && final(self).pos == j,
                Err(k) => r matches Err(e) && e.kind == k && final(self).pos == old(self).pos,
            },
    {
        VarInt::from_reader(self.input.as_slice(), &mut self.pos)
    }

    /// Reads 9 bytes and compares them to the root signature.
    pub fn validate_signature(&mut self) -> (r: Result<bool, Error>)
        requires
            old(self).wf(),
        ensures
            final(self).wf(),
            final(self).input@ == old(self).input@,
            if old(self).pos + 9 <= old(self).input@.len() {
                &&& r matches Ok(good) && good == (old(self).input@.subrange(
                    old(self).pos as int,
                    old(self).pos + 9,
                ) == crate::constants::spec_signature())
                &&& final(self).pos == old(self).pos + 9
            } else {
                &&& r matches Err(e) && e.kind == ErrorKind::IOError
                &&& final(self).pos == old(self).pos
            },
    {
        let sigbuf = self.read_raw(9)?;
        let expected = signature_bytes();
        let good = bytes_eq(sigbuf.as_slice(), expected.as_slice());
        Ok(good)
    }
}

/// Payload width of a fixed-width scalar code.
fn width_of_code(code: u8) -> (r: usize)
    requires
        1 <= code <= 12,
        code != 10,
        code != 12,
    ensures
        r == crate::wire::spec_code_width(code),
        1 <= r <= 8,
{
    if code == 1 || code == 5 || code == 9 {
        8
    } else if code == 2 || code == 6 {
        4
    } else if code == 3 || code == 7 {
        2
    } else {
        1
    }
}

/// The scalar entry a raw payload word denotes under a fixed-width code.
fn entry_of_word(code: u8, x: u64) -> (r: SectionEntry)
    requires
        1 <= code <= 12,
        code != 10,
        code != 12,
    ensures
        r@ == crate::wire::spec_scalar_of(code, x),
{
    if code == 1 {
        let z: i64 = #[verifier::truncate] (x as i64);
        SectionEntry::Int64(z)
    } else if code == 2 {
        let y: u32 = #[verifier::truncate] (x as u32);
        let z: i32 = #[verifier::truncate] (y as i32);
        SectionEntry::Int32(z)
    } else if code == 3 {
        let y: u16 = #[verifier::truncate] (x as u16);
        let z: i16 = #[verifier::truncate] (y as i16);
        SectionEntry::Int16(z)
    } else if code == 4 {
        let y: u8 = #[verifier::truncate] (x as u8);
        let z: i8 = #[verifier::truncate] (y as i8);
        SectionEntry::Int8(z)
    } else if code == 5 {
        SectionEntry::UInt64(x)
    } else if code == 6 {
        let y: u32 = #[verifier::truncate] (x as u32);
        SectionEntry::UInt32(y)
    } else if code == 7 {
        let y: u16 = #[verifier::truncate] (x as u16);
        SectionEntry::UInt16(y)
    } else if code == 9 {
        SectionEntry::Double(x)
    } else if code == 11 {
        SectionEntry::Bool(x != 0)
    } else {
        let y: u8 = #[verifier::truncate] (x as u8);
        SectionEntry::UInt8(y)
    }
}

/// Rebuilds signed 64-bit elements from raw payload words.
fn vec_i64_of_words(words: &Vec<u64>) -> (r: Vec<i64>)
    ensures
        r@.len() == words@.len(),
        forall|k: int| 0 <= k < words@.len() ==> r@[k] == words@[k] as i64,
{
    let mut r: Vec<i64> = Vec::new();
    let mut i: usize = 0;
    while i < words.len()
        invariant
            i <= words@.len(),
            r@.len() == i,
            forall|k: int| 0 <= k < i ==> r@[k] == words@[k] as i64,
        decreases words@.len() - i,
    {
        let z: i64 = #[verifier::truncate] (words[i] as i64);
        r.push(z);
        i = i + 1;
    }
    r
}

/// Rebuilds signed 32-bit elements from raw payload words.
fn vec_i32_of_words(words: &Vec<u64>) -> (r: Vec<i32>)
    ensures
        r@.len() == words@.len(),
        forall|k: int| 0 <= k < words@.len() ==> r@[k] == (words@[k] as u32) as i32,
{
    let mut r: Vec<i32> = Vec::new();
    let mut i: usize = 0;
    while i < words.len()
        invariant
            i <= words@.len(),
            r@.len() == i,
            forall|k: int| 0 <= k < i ==> r@[k] == (words@[k] as u32) as i32,
        decreases words@.len() - i,
    {
        let y: u32 = #[verifier::truncate] (words[i] as u32);
        let z: i32 = #[verifier::truncate] (y as i32);
        r.push(z);
        i = i + 1;
    }
    r
}

/// Rebuilds signed 16-bit elements from raw payload words.
fn vec_i16_of_words(words: &Vec<u64>) -> (r: Vec<i16>)
    ensures
        r@.len() == words@.len(),
        forall|k: int| 0 <= k < words@.len() ==> r@[k] == (words@[k] as u16) as i16,
{
    let mut r: Vec<i16> = Vec::new();
    let mut i: usize = 0;
    while i < words.len()
        invariant
            i <= words@.len(),
            r@.len() == i,
            forall|k: int| 0 <= k < i ==> r@[k] == (words@[k] as u16) as i16,
        decreases words@.len() - i,
    {
        let y: u16 = #[verifier::truncate] (words[i] as u16);
        let z: i16 = #[verifier::truncate] (y as i16);
        r.push(z);
        i = i + 1;
    }
    r
}

/// Rebuilds signed 8-bit elements from raw payload words.
fn vec_i8_of_words(words: &Vec<u64>) -> (r: Vec<i8>)
    ensures
        r@.len() == words@.len(),
        forall|k: int| 0 <= k < words@.len() ==> r@[k] == (words@[k] as u8) as i8,
{
    let mut r: Vec<i8> = Vec::new();
    let mut i: usize = 0;
    while i < words.len()
        invariant
            i <= words@.len(),
            r@.len() == i,
            forall|k: int| 0 <= k < i ==> r@[k] == (words@[k] as u8) as i8,
        decreases words@.len() - i,
    {
        let y: u8 = #[verifier::truncate] (words[i] as u8);
        let z: i8 = #[verifier::truncate] (y as i8);
        r.push(z);
        i = i + 1;
    }
    r
}

/// Rebuilds unsigned 32-bit elements from raw payload words.
fn vec_u32_of_words(words: &Vec<u64>) -> (r: Vec<u32>)
    ensures
        r@.len() == words@.len(),
        forall|k: int| 0 <= k < words@.len() ==> r@[k] == words@[k] as u32,
{
    let mut r: Vec<u32> = Vec::new();
    let mut i: usize = 0;
    while i < words.len()
        invariant
            i <= words@.len(),
            r@.len() == i,
            forall|k: int| 0 <= k < i ==> r@[k] == words@[k] as u32,
        decreases words@.len() - i,
    {
        let y: u32 = #[verifier::truncate] (words[i] as u32);
        r.push(y);
        i = i + 1;
    }
    r
}

/// Rebuilds unsigned 16-bit elements from raw payload words.
fn vec_u16_of_words(words: &Vec<u64>) -> (r: Vec<u16>)
    ensures
        r@.len() == words@.len(),
        forall|k: int| 0 <= k < words@.len() ==> r@[k] == words@[k] as u16,
{
    let mut r: Vec<u16> = Vec::new();
    let mut i: usize = 0;
    while i < words.len()
        invariant
            i <= words@.len(),
            r@.len() == i,
            forall|k: int| 0 <= k < i ==> r@[k] == words@[k] as u16,
        decreases words@.len() - i,
    {
        let y: u16 = #[verifier::truncate] (words[i] as u16);
        r.push(y);
        i = i + 1;
    }
    r
}

/// Rebuilds unsigned 8-bit elements from raw payload words.
fn vec_u8_of_words(words: &Vec<u64>) -> (r: Vec<u8>)
    ensures
        r@.len() == words@.len(),
        forall|k: int| 0 <= k < words@.len() ==> r@[k] == words@[k] as u8,
{
    let mut r: Vec<u8> = Vec::new();
    let mut i: usize = 0;
    while i < words.len()
        invariant
            i <= words@.len(),
            r@.len() == i,
            forall|k: int| 0 <= k < i ==> r@[k] == words@[k] as u8,
        decreases words@.len() - i,
    {
        let y: u8 = #[verifier::truncate] (words[i] as u8);
        r.push(y);
        i = i + 1;
    }
    r
}

/// Rebuilds boolean elements from raw payload words: nonzero means true.
fn vec_bool_of_words(words: &Vec<u64>) -> (r: Vec<bool>)
    ensures
        r@.len() == words@.len(),
        forall|k: int| 0 <= k < words@.len() ==> r@[k] == (words@[k] != 0),
{
    let mut r: Vec<bool> = Vec::new();
    let mut i: usize = 0;
    while i < words.len()
        invariant
            i <= words@.len(),
            r@.len() == i,
            forall|k: int| 0 <= k < i ==> r@[k] == (words@[k] != 0),
        decreases words@.len() - i,
    {
        r.push(words[i] != 0);
        i = i + 1;
    }
    r
}

/// The array entry a sequence of raw payload words denotes under a
/// fixed-width code.
fn array_of_words(code: u8, words: Vec<u64>) -> (r: SectionArray)
    requires
        1 <= code <= 12,
        code != 10,
        code != 12,
    ensures
        r@ == crate::wire::spec_array_of(code, words@),
{
    if code == 1 {
        let v = vec_i64_of_words(&words);
        proof {
            assert(v@ =~= words@.map_values(|x: u64| x as i64));
        }
        SectionArray::Int64(v)
    } else if code == 2 {
        let v = vec_i32_of_words(&words);
        proof {
            assert(v@ =~= words@.map_values(|x: u64| (x as u32) as i32));
        }
        SectionArray::Int32(v)
    } else if code == 3 {
        let v = vec_i16_of_words(&words);
        proof {
            assert(v@ =~= words@.map_values(|x: u64| (x as u16) as i16));
        }
        SectionArray::Int16(v)
    } else if code == 4 {
        let v = vec_i8_of_words(&words);
        proof {
            assert(v@ =~= words@.map_values(|x: u64| (x as u8) as i8));
        }
        SectionArray::Int8(v)
    } else if code == 5 {
        SectionArray::UInt64(words)
    } else if code == 6 {
        let v = vec_u32_of_words(&words);
        proof {
            assert(v@ =~= words@.map_values(|x: u64| x as u32));
        }
        SectionArray::UInt32(v)
    } else if code == 7 {
        let v = vec_u16_of_words(&words);
        proof {
            assert(v@ =~= words@.map_values(|x: u64| x as u16));
        }
        SectionArray::UInt16(v)
    } else if code == 9 {
        SectionArray::Double(words)
    } else if code == 11 {
        let v = vec_bool_of_words(&words);
        proof {
            assert(v@ =~= words@.map_values(|x: u64| x != 0));
        }
        SectionArray::Bool(v)
    } else {
        let v = vec_u8_of_words(&words);
        proof {
            assert(v@ =~= words@.map_values(|x: u64| x as u8));
        }
        SectionArray::UInt8(v)
    }
}

impl Deserializer {
    /// Reads `n` back-to-back fixed-width payloads of width `w` as raw
    /// words.
    #[verifier::rlimit(100)]
    #[verifier::spinoff_prover]
    fn parse_fixed_elems(&mut self, n: usize, w: usize) -> (r: Result<Vec<u64>, Error>)
        requires
            old(self).wf(),
            1 <= w <= 8,
        ensures
            final(self).wf(),
            final(self).input@ == old(self).input@,
            final(self).pos >= old(self).pos,
            match spec_parse_fixed(old(self).input@, old(self).pos as int, n as u64, w as nat) {
                Ok((xs, j)) => r matches Ok(v) && v@ == xs && final(self).pos == j,
                Err(k) => r matches Err(e) && e.kind == k,
            },
    {
        let ghost b = self.input@;
        let ghost pos0 = self.pos as int;
        let mut acc: Vec<u64> = Vec::new();
        let mut k: usize = 0;
        proof {
            if let Ok((rest, j)) = spec_parse_fixed(b, pos0, n as u64, w as nat) {
                assert(acc@ + rest =~= rest);
            }
        }
        while k < n
            invariant
                k <= n,
                1 <= w <= 8,
                self.wf(),
                self.input@ == b,
                b == old(self).input@,
                pos0 == old(self).pos,
                self.pos >= pos0,
                acc@.len() == k,
                match spec_parse_fixed(b, self.pos as int, (n - k) as u64, w as nat) {
                    Ok((rest, j)) => spec_parse_fixed(b, pos0, n as u64, w as nat) == Ok::<
                        (Seq<u64>, int),
                        ErrorKind,
                    >((acc@ + rest, j)),
                    Err(k2) => spec_parse_fixed(b, pos0, n as u64, w as nat) == Err::<
                        (Seq<u64>, int),
                        ErrorKind,
                    >(k2),
                },
            decreases n - k,
        {
            let ghost cur = self.pos as int;
            let x = match self.read_word(w) {
                Ok(x) => x,
                Err(e) => {
                    proof {
                        assert(spec_parse_fixed(b, cur, (n - k) as u64, w as nat) == Err::<
                            (Seq<u64>, int),
                            ErrorKind,
                        >(ErrorKind::IOError));
                    }
                    return Err(e);
                },
            };
            let ghost prev = acc@;
            acc.push(x);
            proof {
                if let Ok((rest2, j2)) = spec_parse_fixed(
                    b,
                    cur + w,
                    (n - k - 1) as u64,
                    w as nat,
                ) {
                    assert(spec_parse_fixed(b, cur, (n - k) as u64, w as nat) == Ok::<
                        (Seq<u64>, int),
                        ErrorKind,
                    >((seq![x] + rest2, j2)));
                    assert(prev + (seq![x] + rest2) =~= acc@ + rest2);
                }
            }
            k = k + 1;
        }
        proof {
            if let Ok((rest, j)) = spec_parse_fixed(b, self.pos as int, 0, w as nat) {
                assert(acc@ + rest =~= acc@);
            }
        }
        Ok(acc)
    }

    /// Reads `n` back-to-back string payloads: the body of an array of
    /// blobs.
    #[verifier::rlimit(100)]
    #[verifier::spinoff_prover]
    fn parse_blob_list(&mut self, n: usize) -> (r: Result<Vec<Vec<u8>>, Error>)
        requires
            old(self).wf(),
        ensures
            final(self).wf(),
            final(self).input@ == old(self).input@,
            final(self).pos >= old(self).pos,
            match spec_parse_blobs(old(self).input@, old(self).pos as int, n as u64) {
                Ok((list, j)) => r matches Ok(v) && crate::section::spec_blobs_view(v@) == list
                    && final(self).pos == j,
                Err(k) => r matches Err(e) && e.kind == k,
            },
    {
        let ghost b = self.input@;
        let ghost pos0 = self.pos as int;
        let mut acc: Vec<Vec<u8>> = Vec::new();
        let mut k: usize = 0;
        proof {
            assert(crate::section::spec_blobs_view(acc@) =~= Seq::<Seq<u8>>::empty());
            if let Ok((rest, j)) = spec_parse_blobs(b, pos0, n as u64) {
                assert(crate::section::spec_blobs_view(acc@) + rest =~= rest);
            }
        }
        while k < n
            invariant
                k <= n,
                self.wf(),
                self.input@ == b,
                b == old(self).input@,
                pos0 == old(self).pos,
                self.pos >= pos0,
                crate::section::spec_blobs_view(acc@).len() == k,
                acc@.len() == k,
                match spec_parse_blobs(b, self.pos as int, (n - k) as u64) {
                    Ok((rest, j)) => spec_parse_blobs(b, pos0, n as u64) == Ok::<
                        (Seq<Seq<u8>>, int),
                        ErrorKind,
                    >((crate::section::spec_blobs_view(acc@) + rest, j)),
                    Err(k2) => spec_parse_blobs(b, pos0, n as u64) == Err::<
                        (Seq<Seq<u8>>, int),
                        ErrorKind,
                    >(k2),
                },
            decreases n - k,
        {
            let ghost cur = self.pos as int;
            let s = match self.parse_string_value() {
                Ok(s) => s,
                Err(e) => {
                    proof {
                        assert(spec_parse_blobs(b, cur, (n - k) as u64) == Err::<
                            (Seq<Seq<u8>>, int),
                            ErrorKind,
                        >(e.kind));
                    }
                    return Err(e);
                },
            };
            let ghost prev = crate::section::spec_blobs_view(acc@);
            let ghost sv = s@;
            acc.push(s);
            proof {
                assert(crate::section::spec_blobs_view(acc@) =~= prev.push(sv));
                if let Ok((rest2, j2)) = spec_parse_blobs(b, self.pos as int, (n - k - 1) as u64) {
                    assert(spec_parse_blobs(b, cur, (n - k) as u64) == Ok::<
                        (Seq<Seq<u8>>, int),
                        ErrorKind,
                    >((seq![sv] + rest2, j2)));
                    assert(prev + (seq![sv] + rest2) =~= crate::section::spec_blobs_view(acc@)
                        + rest2);
                }
            }
            k = k + 1;
        }
        proof {
            if let Ok((rest, j)) = spec_parse_blobs(b, self.pos as int, 0) {
                assert(crate::section::spec_blobs_view(acc@) + rest =~= crate::section::spec_blobs_view(acc@));
            }
        }
        Ok(acc)
    }

    /// Reads `n` back-to-back section bodies: the elements of an array of
    /// objects.
    #[verifier::rlimit(100)]
    #[verifier::spinoff_prover]
    fn parse_body_list(&mut self, n: usize) -> (r: Result<Vec<Section>, Error>)
        requires
            old(self).wf(),
        ensures
            final(self).wf(),
            final(self).input@ == old(self).input@,
            final(self).pos >= old(self).pos,
            match spec_parse_bodies(old(self).input@, old(self).pos as int, n as u64) {
                Ok((list, j)) => r matches Ok(v) && crate::section::spec_sections_view(v@) == list
                    && final(self).pos == j,
                Err(k) => r matches Err(e) && e.kind == k,
            },
        decreases self.input@.len() - self.pos, 1int,
    {
        let ghost b = self.input@;
        let ghost pos0 = self.pos as int;
        let mut acc: Vec<Section> = Vec::new();
        let mut k: usize = 0;
        proof {
            crate::section::lemma_sections_view_len(acc@);
            assert(crate::section::spec_sections_view(acc@) =~= Seq::<
                Seq<crate::section::FieldV>,
            >::empty());
            if let Ok((rest, j)) = spec_parse_bodies(b, pos0, n as u64) {
                assert(crate::section::spec_sections_view(acc@) + rest =~= rest);
            }
        }
        while k < n
            invariant
                k <= n,
                self.wf(),
                self.input@ == b,
                b == old(self).input@,
                pos0 == old(self).pos,
                self.pos >= pos0,
                acc@.len() == k,
                crate::section::spec_sections_view(acc@).len() == k,
                match spec_parse_bodies(b, self.pos as int, (n - k) as u64) {
                    Ok((rest, j)) => spec_parse_bodies(b, pos0, n as u64) == Ok::<
                        (Seq<Seq<crate::section::FieldV>>, int),
                        ErrorKind,
                    >((crate::section::spec_sections_view(acc@) + rest, j)),
                    Err(k2) => spec_parse_bodies(b, pos0, n as u64) == Err::<
                        (Seq<Seq<crate::section::FieldV>>, int),
                        ErrorKind,
                    >(k2),
                },
            decreases n - k,
        {
            let ghost cur = self.pos as int;
            let sec = match self.parse_section_body() {
                Ok(sec) => sec,
                Err(e) => {
                    proof {
                        assert(spec_parse_bodies(b, cur, (n - k) as u64) == Err::<
                            (Seq<Seq<crate::section::FieldV>>, int),
                            ErrorKind,
                        >(e.kind));
                    }
                    return Err(e);
                },
            };
            let ghost prev = crate::section::spec_sections_view(acc@);
            let ghost prevacc = acc@;
            let ghost sv = crate::section::spec_section_view(sec);
            acc.push(sec);
            proof {
                crate::section::lemma_sections_view_push(prevacc, sec);
                assert(crate::section::spec_sections_view(acc@) == prev.push(sv));
                if let Ok((rest2, j2)) = spec_parse_bodies(b, self.pos as int, (n - k - 1) as u64) {
                    assert(spec_parse_bodies(b, cur, (n - k) as u64) == Ok::<
                        (Seq<Seq<crate::section::FieldV>>, int),
                        ErrorKind,
                    >((seq![sv] + rest2, j2)));
                    assert(prev + (seq![sv] + rest2) =~= crate::section::spec_sections_view(acc@)
                        + rest2);
                }
            }
            k = k + 1;
        }
        proof {
            if let Ok((rest, j)) = spec_parse_bodies(b, self.pos as int, 0) {
                assert(crate::section::spec_sections_view(acc@) + rest
                    =~= crate::section::spec_sections_view(acc@));
            }
        }
        Ok(acc)
    }

    /// Reads one entry: a tag byte, then the payload it announces.
    #[verifier::rlimit(100)]
    #[verifier::spinoff_prover]
    pub fn parse_entry(&mut self) -> (r: Result<SectionEntry, Error>)
        requires
            old(self).wf(),
        ensures
            final(self).wf(),
            final(self).input@ == old(self).input@,
            final(self).pos >= old(self).pos,
            r is Ok ==> final(self).pos > old(self).pos,
            match spec_parse_entry(old(self).input@, old(self).pos as int) {
                Ok((ev, j)) => r matches Ok(e) && e@ == ev && final(self).pos == j,
                Err(k) => r matches Err(e) && e.kind == k,
            },
        decreases self.input@.len() - self.pos, 2int,
    {
        let ghost b = self.input@;
        let ghost pos0 = self.pos as int;
        let tag = self.read_single()?;
        let code = tag % 128;
        if code == 0 || code > 12 {
            return Err(Error::new_no_msg(ErrorKind::BadTypeCode));
        }
        if tag >= 128 {
            proof {
                assert(tag / 128 == 1) by (nonlinear_arith)
                    requires
                        tag >= 128,
                        tag < 256,
                ;
            }
            let arr = self.parse_array_entry(code)?;
            Ok(SectionEntry::Array(arr))
        } else {
            proof {
                assert(tag / 128 == 0) by (nonlinear_arith)
                    requires
                        tag < 128,
                ;
            }
            if code == 10 {
                let v = self.parse_string_value()?;
                Ok(SectionEntry::Blob(v))
            } else if code == 12 {
                let sec = self.parse_section_body()?;
                Ok(SectionEntry::Object(sec))
            } else {
                let w = width_of_code(code);
                let x = self.read_word(w)?;
                Ok(entry_of_word(code, x))
            }
        }
    }

    /// Reads an array entry's payload: a varint element count within the
    /// limit, then the elements announced by `code`.
    #[verifier::rlimit(100)]
    #[verifier::spinoff_prover]
    fn parse_array_entry(&mut self, code: u8) -> (r: Result<SectionArray, Error>)
        requires
            old(self).wf(),
            1 <= code <= 12,
        ensures
            final(self).wf(),
            final(self).input@ == old(self).input@,
            final(self).pos >= old(self).pos,
            match spec_parse_array_tail(old(self).input@, old(self).pos as int, code) {
                Ok((av, j)) => r matches Ok(arr) && arr@ == av && final(self).pos == j,
                Err(k) => r matches Err(e) && e.kind == k,
            },
        decreases self.input@.len() - self.pos, 3int,
    {
        let m64 = VarInt::from_reader(self.input.as_slice(), &mut self.pos)?;
        let m = m64.value();
        if m > 2000000000 {
            return Err(Error::new_no_msg(ErrorKind::ArrayTooLong));
        }
        if code == 10 {
            let list = self.parse_blob_list(m as usize)?;
            Ok(SectionArray::Blob(list))
        } else if code == 12 {
            let list = self.parse_body_list(m as usize)?;
            Ok(SectionArray::Object(list))
        } else {
            let w = width_of_code(code);
            let words = self.parse_fixed_elems(m as usize, w)?;
            let arr = array_of_words(code, words);
            Ok(arr)
        }
    }

    /// Reads a section body: a varint pair count within the field limit,
    /// then that many (key, entry) pairs.
    #[verifier::rlimit(100)]
    #[verifier::spinoff_prover]
    pub fn parse_section_body(&mut self) -> (r: Result<Section, Error>)
        requires
            old(self).wf(),
        ensures
            final(self).wf(),
            final(self).input@ == old(self).input@,
            final(self).pos >= old(self).pos,
            r is Ok ==> final(self).pos > old(self).pos,
            match spec_parse_body(old(self).input@, old(self).pos as int) {
                Ok((fs, j)) => r matches Ok(sec) && sec@ == fs && final(self).pos == j,
                Err(k) => r matches Err(e) && e.kind == k,
            },
        decreases self.input@.len() - self.pos, 0int,
    {
        let ghost b = self.input@;
        let ghost pos0 = self.pos as int;
        let n64 = VarInt::from_reader(self.input.as_slice(), &mut self.pos)?;
        let n = n64.value();
        if n > 10000 {
            return Err(Error::new_no_msg(ErrorKind::TooManySectionFields));
        }
        let fields = self.parse_pairs(n as usize)?;
        Ok(Section { fields })
    }

    /// Reads `n` (key, entry) pairs.
    #[verifier::rlimit(100)]
    #[verifier::spinoff_prover]
    fn parse_pairs(&mut self, n: usize) -> (r: Result<Vec<(Vec<u8>, SectionEntry)>, Error>)
        requires
            old(self).wf(),
        ensures
            final(self).wf(),
            final(self).input@ == old(self).input@,
            final(self).pos >= old(self).pos,
            match spec_parse_pairs(old(self).input@, old(self).pos as int, n as u64) {
                Ok((fs, j)) => r matches Ok(v) && crate::section::spec_fields_view(v@) == fs
                    && final(self).pos == j,
                Err(k) => r matches Err(e) && e.kind == k,
            },
        decreases self.input@.len() - self.pos, 4int,
    {
        let ghost b = self.input@;
        let ghost pos1 = self.pos as int;
        let mut fields: Vec<(Vec<u8>, SectionEntry)> = Vec::new();
        let mut k: usize = 0;
        proof {
            crate::section::lemma_fields_view_len(fields@);
            assert(crate::section::spec_fields_view(fields@) =~= Seq::<
                crate::section::FieldV,
            >::empty());
            if let Ok((rest, j)) = spec_parse_pairs(b, pos1, n as u64) {
                assert(crate::section::spec_fields_view(fields@) + rest =~= rest);
            }
        }
        while k < n
            invariant
                k <= n,
                self.wf(),
                self.input@ == b,
                b == old(self).input@,
                pos1 == old(self).pos,
                self.pos >= pos1,
                crate::section::spec_fields_view(fields@).len() == k,
                match spec_parse_pairs(b, self.pos as int, (n - k) as u64) {
                    Ok((rest, j)) => spec_parse_pairs(b, pos1, n as u64) == Ok::<
                        (Seq<crate::section::FieldV>, int),
                        ErrorKind,
                    >((crate::section::spec_fields_view(fields@) + rest, j)),
                    Err(k2) => spec_parse_pairs(b, pos1, n as u64) == Err::<
                        (Seq<crate::section::FieldV>, int),
                        ErrorKind,
                    >(k2),
                },
            decreases n - k,
        {
            let ghost cur = self.pos as int;
            let key = match self.parse_string_key() {
                Ok(key) => key,
                Err(e) => {
                    proof {
                        assert(spec_parse_pairs(b, cur, (n - k) as u64) == Err::<
                            (Seq<crate::section::FieldV>, int),
                            ErrorKind,
                        >(e.kind));
                    }
                    return Err(e);
                },
            };
            let ghost kv = key@;
            let ghost j1 = self.pos as int;
            let entry = match self.parse_entry() {
                Ok(entry) => entry,
                Err(e) => {
                    proof {
                        assert(spec_parse_pairs(b, cur, (n - k) as u64) == Err::<
                            (Seq<crate::section::FieldV>, int),
                            ErrorKind,
                        >(e.kind));
                    }
                    return Err(e);
                },
            };
            let ghost ev = entry@;
            let ghost j2 = self.pos as int;
            let ghost prev = crate::section::spec_fields_view(fields@);
            let ghost prevfields = fields@;
            fields.push((key, entry));
            proof {
                crate::section::lemma_fields_view_push(prevfields, (key, entry));
                assert(crate::section::spec_fields_view(fields@) == prev.push(
                    crate::section::FieldV { key: kv, entry: ev },
                ));
                if let Ok((rest2, j3)) = spec_parse_pairs(b, j2, (n - k - 1) as u64) {
                    assert(spec_parse_pairs(b, cur, (n - k) as u64) == Ok::<
                        (Seq<crate::section::FieldV>, int),
                        ErrorKind,
                    >((seq![crate::section::FieldV { key: kv, entry: ev }] + rest2, j3)));
                    assert(prev + (seq![crate::section::FieldV { key: kv, entry: ev }] + rest2)
                        =~= crate::section::spec_fields_view(fields@) + rest2);
                }
            }
            k = k + 1;
        }
        proof {
            if let Ok((rest, j)) = spec_parse_pairs(b, self.pos as int, 0) {
                assert(crate::section::spec_fields_view(fields@) + rest
                    =~= crate::section::spec_fields_view(fields@));
            }
        }
        Ok(fields)
    }

    /// Reads a whole root value: the 9-byte signature verified, then the
    /// root section's body.  Trailing bytes are left unread.
    pub fn read_root(&mut self) -> (r: Result<Section, Error>)
        requires
            old(self).pos == 0,
            old(self).wf(),
        ensures
            final(self).wf(),
            final(self).input@ == old(self).input@,
            match spec_parse_root(old(self).input@) {
                Ok((fs, j)) => r matches Ok(sec) && sec@ == fs && final(self).pos == j,
                Err(k) => r matches Err(e) && e.kind == k,
            },
    {
        let good_signature = self.validate_signature()?;
        if !good_signature {
            return Err(Error::new_no_msg(ErrorKind::ExpectedFormatSignature));
        }
        self.parse_section_body()
    }
}

/// Decodes one root value from the front of `bytes`; trailing bytes are
/// ignored, as a stream may carry more values.
pub fn from_bytes(bytes: &[u8]) -> (r: Result<Section, Error>)
    ensures
        match spec_parse_root(bytes@) {
            Ok((fs, j)) => r matches Ok(sec) && sec@ == fs,
            Err(k) => r matches Err(e) && e.kind == k,
        },
{
    let input = vstd::slice::slice_to_vec(bytes);
    let mut deserializer = Deserializer::from_reader(input);
    deserializer.read_root()
}

} // verus!
