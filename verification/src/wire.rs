//! The wire format as mathematics: one specification function says what
//! bytes a value encodes to (or which error stops the encoder), and one says
//! what value a byte string parses to (or which error stops the decoder).
//! The executable codec is verified against these, and the round-trip laws
//! are proved about them.

use vstd::prelude::*;
use crate::constants::spec_signature;
use crate::error::ErrorKind;
use crate::little_endian::{le_bytes, le_nat};
use crate::section::{ArrayV, EntryV, FieldV};
use crate::varint::{spec_parse_varint, spec_varint_bytes};

verus! {

/// Highest admitted section field count.
pub open spec fn spec_max_fields() -> nat {
    10000
}

/// Highest admitted string/blob length, and highest admitted element count
/// announced by an array.
pub open spec fn spec_max_string_len() -> nat {
    2000000000
}

/// Payload width in bytes of a fixed-width scalar code; 0 for the two
/// variable-width codes (string and object).
pub open spec fn spec_code_width(code: u8) -> nat {
    if code == 1 || code == 5 || code == 9 {
        8
    } else if code == 2 || code == 6 {
        4
    } else if code == 3 || code == 7 {
        2
    } else if code == 4 || code == 8 || code == 11 {
        1
    } else {
        0
    }
}

/// The scalar type code an array entry declares for its elements.
pub open spec fn spec_array_code(a: ArrayV) -> u8 {
    match a {
        ArrayV::Int64(_) => 1,
        ArrayV::Int32(_) => 2,
        ArrayV::Int16(_) => 3,
        ArrayV::Int8(_) => 4,
        ArrayV::UInt64(_) => 5,
        ArrayV::UInt32(_) => 6,
        ArrayV::UInt16(_) => 7,
        ArrayV::UInt8(_) => 8,
        ArrayV::Double(_) => 9,
        ArrayV::Blob(_) => 10,
        ArrayV::Bool(_) => 11,
        ArrayV::Object(_) => 12,
    }
}

/// Number of elements of an array entry.
pub open spec fn spec_array_len(a: ArrayV) -> nat {
    match a {
        ArrayV::Int64(s) => s.len(),
        ArrayV::Int32(s) => s.len(),
        ArrayV::Int16(s) => s.len(),
        ArrayV::Int8(s) => s.len(),
        ArrayV::UInt64(s) => s.len(),
        ArrayV::UInt32(s) => s.len(),
        ArrayV::UInt16(s) => s.len(),
        ArrayV::UInt8(s) => s.len(),
        ArrayV::Double(s) => s.len(),
        ArrayV::Blob(s) => s.len(),
        ArrayV::Bool(s) => s.len(),
        ArrayV::Object(s) => s.len(),
    }
}

/// The elements of a fixed-width array as raw 64-bit payload words.
pub open spec fn spec_array_scalars(a: ArrayV) -> Seq<u64> {
    match a {
        ArrayV::Int64(s) => s.map_values(|x: i64| x as u64),
        ArrayV::Int32(s) => s.map_values(|x: i32| (x as u32) as u64),
        ArrayV::Int16(s) => s.map_values(|x: i16| (x as u16) as u64),
        ArrayV::Int8(s) => s.map_values(|x: i8| (x as u8) as u64),
        ArrayV::UInt64(s) => s,
        ArrayV::UInt32(s) => s.map_values(|x: u32| x as u64),
        ArrayV::UInt16(s) => s.map_values(|x: u16| x as u64),
        ArrayV::UInt8(s) => s.map_values(|x: u8| x as u64),
        ArrayV::Double(s) => s,
        ArrayV::Bool(s) => s.map_values(|x: bool| if x { 1u64 } else { 0u64 }),
        ArrayV::Blob(_) => Seq::empty(),
        ArrayV::Object(_) => Seq::empty(),
    }
}

/// The scalar entry a raw payload word denotes under a fixed-width code.
pub open spec fn spec_scalar_of(code: u8, x: u64) -> EntryV {
    if code == 1 {
        EntryV::Int64(x as i64)
    } else if code == 2 {
        EntryV::Int32((x as u32) as i32)
    } else if code == 3 {
        EntryV::Int16((x as u16) as i16)
    } else if code == 4 {
        EntryV::Int8((x as u8) as i8)
    } else if code == 5 {
        EntryV::UInt64(x)
    } else if code == 6 {
        EntryV::UInt32(x as u32)
    } else if code == 7 {
        EntryV::UInt16(x as u16)
    } else if code == 9 {
        EntryV::Double(x)
    } else if code == 11 {
        EntryV::Bool(x != 0)
    } else {
        EntryV::UInt8(x as u8)
    }
}

/// The array entry a sequence of raw payload words denotes under a
/// fixed-width code.
pub open spec fn spec_array_of(code: u8, xs: Seq<u64>) -> ArrayV {
    if code == 1 {
        ArrayV::Int64(xs.map_values(|x: u64| x as i64))
    } else if code == 2 {
        ArrayV::Int32(xs.map_values(|x: u64| (x as u32) as i32))
    } else if code == 3 {
        ArrayV::Int16(xs.map_values(|x: u64| (x as u16) as i16))
    } else if code == 4 {
        ArrayV::Int8(xs.map_values(|x: u64| (x as u8) as i8))
    } else if code == 5 {
        ArrayV::UInt64(xs)
    } else if code == 6 {
        ArrayV::UInt32(xs.map_values(|x: u64| x as u32))
    } else if code == 7 {
        ArrayV::UInt16(xs.map_values(|x: u64| x as u16))
    } else if code == 9 {
        ArrayV::Double(xs)
    } else if code == 11 {
        ArrayV::Bool(xs.map_values(|x: u64| x != 0))
    } else {
        ArrayV::UInt8(xs.map_values(|x: u64| x as u8))
    }
}

/// Wire bytes of a key: one length byte, then the key itself.  Empty keys
/// and keys over 255 bytes have no representation.
pub open spec fn spec_enc_key(k: Seq<u8>) -> Result<Seq<u8>, ErrorKind> {
    if k.len() == 0 {
        Err(ErrorKind::EmptySectionKey)
    } else if k.len() > 255 {
        Err(ErrorKind::KeyTooLong)
    } else {
        Ok(seq![k.len() as u8] + k)
    }
}

/// Wire bytes of a string/blob payload: a varint length, then the bytes.
pub open spec fn spec_enc_blob(s: Seq<u8>) -> Result<Seq<u8>, ErrorKind> {
    if s.len() > spec_max_string_len() {
        Err(ErrorKind::StringTooLong)
    } else {
        Ok(spec_varint_bytes(s.len() as u64) + s)
    }
}

/// Back-to-back fixed-width payloads, one per element word.
pub open spec fn spec_enc_fixed(xs: Seq<u64>, w: nat) -> Seq<u8>
    decreases xs.len(),
{
    if xs.len() == 0 {
        Seq::empty()
    } else {
        le_bytes(xs[0] as nat, w) + spec_enc_fixed(xs.subrange(1, xs.len() as int), w)
    }
}

/// Back-to-back string payloads, or the first element's error.
pub open spec fn spec_enc_blobs(list: Seq<Seq<u8>>) -> Result<Seq<u8>, ErrorKind>
    decreases list.len(),
{
    if list.len() == 0 {
        Ok(Seq::empty())
    } else {
        match spec_enc_blob(list[0]) {
            Err(k) => Err(k),
            Ok(b0) => match spec_enc_blobs(list.subrange(1, list.len() as int)) {
                Err(k) => Err(k),
                Ok(rest) => Ok(b0 + rest),
            },
        }
    }
}

/// Wire bytes of one entry: its tag byte, then its payload; or the first
/// error the encoder meets walking it.
pub open spec fn spec_enc_entry(e: EntryV) -> Result<Seq<u8>, ErrorKind>
    decreases e, 0int,
{
    match e {
        EntryV::Int64(x) => Ok(seq![1u8] + le_bytes((x as u64) as nat, 8)),
        EntryV::Int32(x) => Ok(seq![2u8] + le_bytes((x as u32) as nat, 4)),
        EntryV::Int16(x) => Ok(seq![3u8] + le_bytes((x as u16) as nat, 2)),
        EntryV::Int8(x) => Ok(seq![4u8] + le_bytes((x as u8) as nat, 1)),
        EntryV::UInt64(x) => Ok(seq![5u8] + le_bytes(x as nat, 8)),
        EntryV::UInt32(x) => Ok(seq![6u8] + le_bytes(x as nat, 4)),
        EntryV::UInt16(x) => Ok(seq![7u8] + le_bytes(x as nat, 2)),
        EntryV::UInt8(x) => Ok(seq![8u8] + le_bytes(x as nat, 1)),
        EntryV::Double(bits) => Ok(seq![9u8] + le_bytes(bits as nat, 8)),
        EntryV::Blob(b) => match spec_enc_blob(b) {
            Ok(p) => Ok(seq![10u8] + p),
            Err(k) => Err(k),
        },
        EntryV::Bool(x) => Ok(seq![11u8, if x { 1u8 } else { 0u8 }]),
        EntryV::Object(fs) => match spec_enc_body(fs) {
            Ok(p) => Ok(seq![12u8] + p),
            Err(k) => Err(k),
        },
        EntryV::Array(a) => spec_enc_array(a),
    }
}

/// Wire bytes of an array entry: the tag with the array flag set, a varint
/// element count, then the element payloads with no per-element tags.
pub open spec fn spec_enc_array(a: ArrayV) -> Result<Seq<u8>, ErrorKind>
    decreases a, 0int,
{
    let n = spec_array_len(a);
    if n > spec_max_fields() {
        Err(ErrorKind::ArrayTooLong)
    } else {
        let head = seq![(spec_array_code(a) + 0x80) as u8] + spec_varint_bytes(n as u64);
        match a {
            ArrayV::Blob(list) => match spec_enc_blobs(list) {
                Ok(p) => Ok(head + p),
                Err(k) => Err(k),
            },
            ArrayV::Object(list) => match spec_enc_bodies(list) {
                Ok(p) => Ok(head + p),
                Err(k) => Err(k),
            },
            _ => Ok(head + spec_enc_fixed(spec_array_scalars(a), spec_code_width(spec_array_code(a)))),
        }
    }
}

/// Back-to-back section bodies (the elements of an array of objects), or
/// the first element's error.
pub open spec fn spec_enc_bodies(list: Seq<Seq<FieldV>>) -> Result<Seq<u8>, ErrorKind>
    decreases list, 0int,
{
    if list.len() == 0 {
        Ok(Seq::empty())
    } else {
        match spec_enc_body(list[0]) {
            Err(k) => Err(k),
            Ok(b0) => match spec_enc_bodies(list.subrange(1, list.len() as int)) {
                Err(k) => Err(k),
                Ok(rest) => Ok(b0 + rest),
            },
        }
    }
}

/// Wire bytes of the pairs of a section, in order; key bytes, then entry
/// bytes; or the first error met.
pub open spec fn spec_enc_fields(fs: Seq<FieldV>) -> Result<Seq<u8>, ErrorKind>
    decreases fs, 0int,
{
    if fs.len() == 0 {
        Ok(Seq::empty())
    } else {
        match spec_enc_key(fs[0].key) {
            Err(k) => Err(k),
            Ok(kb) => match spec_enc_entry(fs[0].entry) {
                Err(k) => Err(k),
                Ok(eb) => match spec_enc_fields(fs.subrange(1, fs.len() as int)) {
                    Err(k) => Err(k),
                    Ok(rest) => Ok(kb + eb + rest),
                },
            },
        }
    }
}

/// Wire bytes of a section body: a varint pair count, then the pairs.
pub open spec fn spec_enc_body(fs: Seq<FieldV>) -> Result<Seq<u8>, ErrorKind>
    decreases fs, 1int,
{
    if fs.len() > spec_max_fields() {
        Err(ErrorKind::TooManySectionFields)
    } else {
        match spec_enc_fields(fs) {
            Err(k) => Err(k),
            Ok(p) => Ok(spec_varint_bytes(fs.len() as u64) + p),
        }
    }
}

/// Wire bytes of a whole stream: the 9-byte signature, then the root
/// section's body.
pub open spec fn spec_enc_root(fs: Seq<FieldV>) -> Result<Seq<u8>, ErrorKind> {
    match spec_enc_body(fs) {
        Err(k) => Err(k),
        Ok(b) => Ok(spec_signature() + b),
    }
}

/// A value is encodable when the encoder reaches its end without an error.
pub open spec fn spec_encodable(fs: Seq<FieldV>) -> bool {
    spec_enc_root(fs) is Ok
}

/// What reading a key at `i` yields: one length byte `L >= 1`, then `L`
/// bytes of key.
pub open spec fn spec_parse_key(b: Seq<u8>, i: int) -> Result<(Seq<u8>, int), ErrorKind> {
    if i < 0 || i >= b.len() {
        Err(ErrorKind::IOError)
    } else if b[i] == 0 {
        Err(ErrorKind::EmptySectionKey)
    } else if i + 1 + b[i] > b.len() {
        Err(ErrorKind::IOError)
    } else {
        Ok((b.subrange(i + 1, i + 1 + b[i]), i + 1 + b[i]))
    }
}

/// What reading a string/blob payload at `i` yields: a varint length
/// checked against the string limit, then that many bytes.
pub open spec fn spec_parse_blob(b: Seq<u8>, i: int) -> Result<(Seq<u8>, int), ErrorKind> {
    match spec_parse_varint(b, i) {
        Err(k) => Err(k),
        Ok((klen, j)) => if klen > spec_max_string_len() {
            Err(ErrorKind::StringTooLong)
        } else if j + klen > b.len() {
            Err(ErrorKind::IOError)
        } else {
            Ok((b.subrange(j, j + klen), j + klen))
        },
    }
}

/// What reading `n` back-to-back string payloads at `i` yields.
pub open spec fn spec_parse_blobs(b: Seq<u8>, i: int, n: u64) -> Result<
    (Seq<Seq<u8>>, int),
    ErrorKind,
>
    decreases n,
{
    if n == 0 {
        Ok((Seq::empty(), i))
    } else {
        match spec_parse_blob(b, i) {
            Err(k) => Err(k),
            Ok((s, j)) => match spec_parse_blobs(b, j, (n - 1) as u64) {
                Err(k) => Err(k),
                Ok((rest, j2)) => Ok((seq![s] + rest, j2)),
            },
        }
    }
}

/// What reading `n` back-to-back fixed-width payloads of width `w` at `i`
/// yields, as raw payload words.
pub open spec fn spec_parse_fixed(b: Seq<u8>, i: int, n: u64, w: nat) -> Result<
    (Seq<u64>, int),
    ErrorKind,
>
    decreases n,
{
    if n == 0 {
        Ok((Seq::empty(), i))
    } else if i < 0 || i + w > b.len() {
        Err(ErrorKind::IOError)
    } else {
        match spec_parse_fixed(b, i + w, (n - 1) as u64, w) {
            Err(k) => Err(k),
            Ok((xs, j)) => Ok((seq![le_nat(b.subrange(i, i + w)) as u64] + xs, j)),
        }
    }
}

/// What reading an array entry's payload at `i` yields, after a tag byte
/// with the array flag announced scalar code `code`: a varint element
/// count, then the elements.
pub open spec fn spec_parse_array_tail(b: Seq<u8>, i: int, code: u8) -> Result<
    (ArrayV, int),
    ErrorKind,
>
    decreases b.len() - i, 3int, 0int,
{
    match spec_parse_varint(b, i) {
        Err(k) => Err(k),
        Ok((m, j)) => if m > spec_max_string_len() {
            Err(ErrorKind::ArrayTooLong)
        } else if code == 10 {
            match spec_parse_blobs(b, j, m) {
                Err(k) => Err(k),
                Ok((list, j2)) => Ok((ArrayV::Blob(list), j2)),
            }
        } else if code == 12 {
            match spec_parse_bodies(b, j, m) {
                Err(k) => Err(k),
                Ok((list, j2)) => Ok((ArrayV::Object(list), j2)),
            }
        } else {
            match spec_parse_fixed(b, j, m, spec_code_width(code)) {
                Err(k) => Err(k),
                Ok((xs, j2)) => Ok((spec_array_of(code, xs), j2)),
            }
        },
    }
}

/// What reading one entry at `i` yields: a tag byte whose low seven bits
/// must be a scalar code in 1..=12, then the announced payload.
pub open spec fn spec_parse_entry(b: Seq<u8>, i: int) -> Result<(EntryV, int), ErrorKind>
    decreases b.len() - i, 0int, 0int,
{
    if i < 0 || i >= b.len() {
        Err(ErrorKind::IOError)
    } else {
        let tag = b[i];
        let code = tag % 128;
        if code == 0 || code > 12 {
            Err(ErrorKind::BadTypeCode)
        } else if tag / 128 == 1 {
            match spec_parse_array_tail(b, i + 1, code) {
                Err(k) => Err(k),
                Ok((av, j2)) => Ok((EntryV::Array(av), j2)),
            }
        } else if code == 10 {
            match spec_parse_blob(b, i + 1) {
                Err(k) => Err(k),
                Ok((s, j)) => Ok((EntryV::Blob(s), j)),
            }
        } else if code == 12 {
            match spec_parse_body(b, i + 1) {
                Err(k) => Err(k),
                Ok((fs, j)) => Ok((EntryV::Object(fs), j)),
            }
        } else {
            let w = spec_code_width(code);
            if i + 1 + w > b.len() {
                Err(ErrorKind::IOError)
            } else {
                Ok(
                    (
                        spec_scalar_of(code, le_nat(b.subrange(i + 1, i + 1 + w)) as u64),
                        i + 1 + w,
                    ),
                )
            }
        }
    }
}

/// What reading `n` (key, entry) pairs at `i` yields.
pub open spec fn spec_parse_pairs(b: Seq<u8>, i: int, n: u64) -> Result<
    (Seq<FieldV>, int),
    ErrorKind,
>
    decreases b.len() - i, 0int, 0int,
{
    if n == 0 {
        Ok((Seq::empty(), i))
    } else {
        match spec_parse_key(b, i) {
            Err(k) => Err(k),
            Ok((key, j1)) => match spec_parse_entry(b, j1) {
                Err(k) => Err(k),
                Ok((ev, j2)) => if !(i < j2 <= b.len()) {
                    Err(ErrorKind::IOError)
                } else {
                    match spec_parse_pairs(b, j2, (n - 1) as u64) {
                        Err(k) => Err(k),
                        Ok((rest, j3)) => Ok((seq![FieldV { key, entry: ev }] + rest, j3)),
                    }
                },
            },
        }
    }
}

/// What reading a section body at `i` yields: a varint pair count checked
/// against the field limit, then that many pairs.
pub open spec fn spec_parse_body(b: Seq<u8>, i: int) -> Result<(Seq<FieldV>, int), ErrorKind>
    decreases b.len() - i, 1int, 0int,
{
    match spec_parse_varint(b, i) {
        Err(k) => Err(k),
        Ok((n, j)) => if n > spec_max_fields() {
            Err(ErrorKind::TooManySectionFields)
        } else {
            spec_parse_pairs(b, j, n)
        },
    }
}

/// What reading `n` back-to-back section bodies at `i` yields (the elements
/// of an array of objects).
pub open spec fn spec_parse_bodies(b: Seq<u8>, i: int, n: u64) -> Result<
    (Seq<Seq<FieldV>>, int),
    ErrorKind,
>
    decreases b.len() - i, 2int, n,
{
    if n == 0 {
        Ok((Seq::empty(), i))
    } else {
        match spec_parse_body(b, i) {
            Err(k) => Err(k),
            Ok((fs, j)) => if !(i < j <= b.len()) {
                Err(ErrorKind::IOError)
            } else {
                match spec_parse_bodies(b, j, (n - 1) as u64) {
                    Err(k) => Err(k),
                    Ok((rest, j2)) => Ok((seq![fs] + rest, j2)),
                }
            },
        }
    }
}

/// What reading a whole stream yields: the 9-byte signature verified, then
/// the root section's body.  Trailing bytes are left unread.
pub open spec fn spec_parse_root(b: Seq<u8>) -> Result<(Seq<FieldV>, int), ErrorKind> {
    if b.len() < 9 {
        Err(ErrorKind::IOError)
    } else if b.subrange(0, 9) != spec_signature() {
        Err(ErrorKind::ExpectedFormatSignature)
    } else {
        spec_parse_body(b, 9)
    }
}

/// The specification encoder never reports the `Custom` kind: blobs fail
/// only with `StringTooLong`.
pub proof fn lemma_enc_blob_no_custom(s: Seq<u8>)
    ensures
        spec_enc_blob(s) matches Err(k) ==> k != ErrorKind::Custom,
{
}

/// The specification encoder never reports the `Custom` kind for blob
/// lists.
pub proof fn lemma_enc_blobs_no_custom(list: Seq<Seq<u8>>)
    ensures
        spec_enc_blobs(list) matches Err(k) ==> k != ErrorKind::Custom,
    decreases list.len(),
{
    if list.len() > 0 {
        lemma_enc_blobs_no_custom(list.subrange(1, list.len() as int));
    }
}

/// The specification encoder never reports the `Custom` kind for entries.
pub proof fn lemma_enc_entry_no_custom(e: EntryV)
    ensures
        spec_enc_entry(e) matches Err(k) ==> k != ErrorKind::Custom,
    decreases e, 0int,
{
    match e {
        EntryV::Object(fs) => {
            lemma_enc_body_no_custom(fs);
        },
        EntryV::Array(a) => {
            lemma_enc_array_no_custom(a);
        },
        _ => {},
    }
}

/// The specification encoder never reports the `Custom` kind for arrays.
pub proof fn lemma_enc_array_no_custom(a: ArrayV)
    ensures
        spec_enc_array(a) matches Err(k) ==> k != ErrorKind::Custom,
    decreases a, 0int,
{
    match a {
        ArrayV::Blob(list) => {
            lemma_enc_blobs_no_custom(list);
        },
        ArrayV::Object(list) => {
            lemma_enc_bodies_no_custom(list);
        },
        _ => {},
    }
}

/// The specification encoder never reports the `Custom` kind for lists of
/// section bodies.
pub proof fn lemma_enc_bodies_no_custom(list: Seq<Seq<FieldV>>)
    ensures
        spec_enc_bodies(list) matches Err(k) ==> k != ErrorKind::Custom,
    decreases list, 0int,
{
    if list.len() > 0 {
        lemma_enc_body_no_custom(list[0]);
        lemma_enc_bodies_no_custom(list.subrange(1, list.len() as int));
    }
}

/// The specification encoder never reports the `Custom` kind for pair
/// sequences.
pub proof fn lemma_enc_fields_no_custom(fs: Seq<FieldV>)
    ensures
        spec_enc_fields(fs) matches Err(k) ==> k != ErrorKind::Custom,
    decreases fs, 0int,
{
    if fs.len() > 0 {
        lemma_enc_entry_no_custom(fs[0].entry);
        lemma_enc_fields_no_custom(fs.subrange(1, fs.len() as int));
    }
}

/// The specification encoder never reports the `Custom` kind for section
/// bodies.
pub proof fn lemma_enc_body_no_custom(fs: Seq<FieldV>)
    ensures
        spec_enc_body(fs) matches Err(k) ==> k != ErrorKind::Custom,
    decreases fs, 1int,
{
    lemma_enc_fields_no_custom(fs);
}

/// Every key in the value has wire-representable length, at every depth:
/// entry level.
pub open spec fn spec_keys_wf_entry(e: EntryV) -> bool
    decreases e, 0int,
{
    match e {
        EntryV::Object(fs) => spec_keys_wf_fields(fs),
        EntryV::Array(ArrayV::Object(list)) => spec_keys_wf_bodies(list),
        _ => true,
    }
}

/// Every key in the value has wire-representable length, at every depth:
/// body-list level.
pub open spec fn spec_keys_wf_bodies(list: Seq<Seq<FieldV>>) -> bool
    decreases list, 1int,
{
    list.len() == 0 || (spec_keys_wf_fields(list[0]) && spec_keys_wf_bodies(
        list.subrange(1, list.len() as int),
    ))
}

/// Every key in the value has wire-representable length, at every depth:
/// pair-sequence level.
pub open spec fn spec_keys_wf_fields(fs: Seq<FieldV>) -> bool
    decreases fs, 1int,
{
    fs.len() == 0 || (1 <= fs[0].key.len() <= 255 && spec_keys_wf_entry(fs[0].entry)
        && spec_keys_wf_fields(fs.subrange(1, fs.len() as int)))
}

} // verus!
