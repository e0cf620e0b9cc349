//! The encoder: walks a dynamic section and emits its wire bytes, proven
//! equal to the specification encoder of `wire`; and a two-pass counting
//! encoder that measures a value without building the stream.

use vstd::prelude::*;
use crate::constants::signature_bytes;
use crate::error::{Error, ErrorKind};
use crate::little_endian::{le_bytes, push_le};
use crate::section::{
    lemma_fields_view_index, lemma_fields_view_len, lemma_sections_view_index,
    lemma_sections_view_len, spec_fields_view, spec_section_view, Section, SectionArray,
    SectionEntry,
};
use crate::varint::{spec_varint_bytes, spec_varint_len, VarInt, MAX_VARINT_VAL};
use crate::wire::{
    spec_array_code, spec_array_len, spec_array_scalars, spec_code_width, spec_enc_array,
    spec_enc_blob, spec_enc_blobs, spec_enc_bodies, spec_enc_body, spec_enc_entry,
    spec_enc_fields, spec_enc_fixed, spec_enc_key, spec_enc_root,
};

verus! {

/// What a write step did: on `Ok` it appended exactly the specified bytes;
/// on `Err` it reported the specified kind.
pub open spec fn spec_wrote(
    res: Result<Seq<u8>, ErrorKind>,
    r: Result<(), Error>,
    old_out: Seq<u8>,
    new_out: Seq<u8>,
) -> bool {
    match res {
        Ok(bs) => r is Ok && new_out == old_out + bs,
        Err(k) => r matches Err(e) && e.kind == k,
    }
}

/// Appends a whole byte slice.
fn push_bytes(out: &mut Vec<u8>, src: &[u8])
    ensures
        final(out)@ == old(out)@ + src@,
{
    let ghost start = out@;
    let mut i: usize = 0;
    proof {
        assert(out@ =~= start + src@.subrange(0, 0));
    }
    while i < src.len()
        invariant
            i <= src@.len(),
            out@ == start + src@.subrange(0, i as int),
        decreases src@.len() - i,
    {
        out.push(src[i]);
        proof {
            assert(src@.subrange(0, i + 1) =~= src@.subrange(0, i as int).push(src@[i as int]));
            assert(out@ =~= start + src@.subrange(0, i + 1));
        }
        i = i + 1;
    }
    proof {
        assert(src@.subrange(0, src@.len() as int) =~= src@);
    }
}

/// Appends the canonical varint of `v`.
fn write_varint(out: &mut Vec<u8>, v: u64)
    requires
        v <= MAX_VARINT_VAL,
    ensures
        final(out)@ == old(out)@ + spec_varint_bytes(v),
{
    match VarInt::try_from_u64(v) {
        Ok(vi) => {
            let _ = vi.to_writer(out);
        },
        Err(_) => vstd::pervasive::unreached(),
    }
}

/// Encoding a word sequence grows at its tail.
proof fn lemma_enc_fixed_push(xs: Seq<u64>, x: u64, w: nat)
    ensures
        spec_enc_fixed(xs.push(x), w) == spec_enc_fixed(xs, w) + le_bytes(x as nat, w),
    decreases xs.len(),
{
    reveal_with_fuel(spec_enc_fixed, 3);
    if xs.len() == 0 {
        assert(xs.push(x).subrange(1, 1) =~= Seq::<u64>::empty());
        assert(xs.push(x)[0] == x);
        assert(spec_enc_fixed(xs.push(x), w) =~= spec_enc_fixed(xs, w) + le_bytes(x as nat, w));
    } else {
        assert(xs.push(x).subrange(1, xs.len() as int + 1) =~= xs.subrange(1, xs.len() as int).push(x));
        lemma_enc_fixed_push(xs.subrange(1, xs.len() as int), x, w);
        assert(spec_enc_fixed(xs.push(x), w) =~= spec_enc_fixed(xs, w) + le_bytes(x as nat, w));
    }
}

/// Appends back-to-back `w`-byte payloads, one per word.
fn push_fixed_words(out: &mut Vec<u8>, xs: &Vec<u64>, w: usize)
    requires
        w <= 8,
    ensures
        final(out)@ == old(out)@ + spec_enc_fixed(xs@, w as nat),
{
    let ghost start = out@;
    let mut i: usize = 0;
    proof {
        assert(xs@.subrange(0, 0) =~= Seq::<u64>::empty());
    }
    while i < xs.len()
        invariant
            i <= xs@.len(),
            w <= 8,
            out@ == start + spec_enc_fixed(xs@.subrange(0, i as int), w as nat),
        decreases xs@.len() - i,
    {
        push_le(out, xs[i], w);
        proof {
            assert(xs@.subrange(0, i + 1) =~= xs@.subrange(0, i as int).push(xs@[i as int]));
            lemma_enc_fixed_push(xs@.subrange(0, i as int), xs@[i as int], w as nat);
            assert(out@ =~= start + spec_enc_fixed(xs@.subrange(0, i + 1), w as nat));
        }
        i = i + 1;
    }
    proof {
        assert(xs@.subrange(0, xs@.len() as int) =~= xs@);
    }
}

/// The payload words of signed 64-bit elements.
fn words_of_i64(v: &Vec<i64>) -> (r: Vec<u64>)
    ensures
        r@.len() == v@.len(),
        forall|k: int| 0 <= k < v@.len() ==> r@[k] == v@[k] as u64,
{
    let mut r: Vec<u64> = Vec::new();
    let mut i: usize = 0;
    while i < v.len()
        invariant
            i <= v@.len(),
            r@.len() == i,
            forall|k: int| 0 <= k < i ==> r@[k] == v@[k] as u64,
        decreases v@.len() - i,
    {
        r.push(v[i] as u64);
        i = i + 1;
    }
    r
}

/// The payload words of signed 32-bit elements.
fn words_of_i32(v: &Vec<i32>) -> (r: Vec<u64>)
    ensures
        r@.len() == v@.len(),
        forall|k: int| 0 <= k < v@.len() ==> r@[k] == (v@[k] as u32) as u64,
{
    let mut r: Vec<u64> = Vec::new();
    let mut i: usize = 0;
    while i < v.len()
        invariant
            i <= v@.len(),
            r@.len() == i,
            forall|k: int| 0 <= k < i ==> r@[k] == (v@[k] as u32) as u64,
        decreases v@.len() - i,
    {
        r.push((v[i] as u32) as u64);
        i = i + 1;
    }
    r
}

/// The payload words of signed 16-bit elements.
fn words_of_i16(v: &Vec<i16>) -> (r: Vec<u64>)
    ensures
        r@.len() == v@.len(),
        forall|k: int| 0 <= k < v@.len() ==> r@[k] == (v@[k] as u16) as u64,
{
    let mut r: Vec<u64> = Vec::new();
    let mut i: usize = 0;
    while i < v.len()
        invariant
            i <= v@.len(),
            r@.len() == i,
            forall|k: int| 0 <= k < i ==> r@[k] == (v@[k] as u16) as u64,
        decreases v@.len() - i,
    {
        r.push((v[i] as u16) as u64);
        i = i + 1;
    }
    r
}

/// The payload words of signed 8-bit elements.
fn words_of_i8(v: &Vec<i8>) -> (r: Vec<u64>)
    ensures
        r@.len() == v@.len(),
        forall|k: int| 0 <= k < v@.len() ==> r@[k] == (v@[k] as u8) as u64,
{
    let mut r: Vec<u64> = Vec::new();
    let mut i: usize = 0;
    while i < v.len()
        invariant
            i <= v@.len(),
            r@.len() == i,
            forall|k: int| 0 <= k < i ==> r@[k] == (v@[k] as u8) as u64,
        decreases v@.len() - i,
    {
        r.push((v[i] as u8) as u64);
        i = i + 1;
    }
    r
}

/// The payload words of unsigned 32-bit elements.
fn words_of_u32(v: &Vec<u32>) -> (r: Vec<u64>)
    ensures
        r@.len() == v@.len(),
        forall|k: int| 0 <= k < v@.len() ==> r@[k] == v@[k] as u64,
{
    let mut r: Vec<u64> = Vec::new();
    let mut i: usize = 0;
    while i < v.len()
        invariant
            i <= v@.len(),
            r@.len() == i,
            forall|k: int| 0 <= k < i ==> r@[k] == v@[k] as u64,
        decreases v@.len() - i,
    {
        r.push(v[i] as u64);
        i = i + 1;
    }
    r
}

/// The payload words of unsigned 16-bit elements.
fn words_of_u16(v: &Vec<u16>) -> (r: Vec<u64>)
    ensures
        r@.len() == v@.len(),
        forall|k: int| 0 <= k < v@.len() ==> r@[k] == v@[k] as u64,
{
    let mut r: Vec<u64> = Vec::new();
    let mut i: usize = 0;
    while i < v.len()
        invariant
            i <= v@.len(),
            r@.len() == i,
            forall|k: int| 0 <= k < i ==> r@[k] == v@[k] as u64,
        decreases v@.len() - i,
    {
        r.push(v[i] as u64);
        i = i + 1;
    }
    r
}

/// The payload words of unsigned 8-bit elements.
fn words_of_u8(v: &Vec<u8>) -> (r: Vec<u64>)
    ensures
        r@.len() == v@.len(),
        forall|k: int| 0 <= k < v@.len() ==> r@[k] == v@[k] as u64,
{
    let mut r: Vec<u64> = Vec::new();
    let mut i: usize = 0;
    while i < v.len()
        invariant
            i <= v@.len(),
            r@.len() == i,
            forall|k: int| 0 <= k < i ==> r@[k] == v@[k] as u64,
        decreases v@.len() - i,
    {
        r.push(v[i] as u64);
        i = i + 1;
    }
    r
}

/// The payload words of boolean elements: one byte, nonzero for true.
fn words_of_bool(v: &Vec<bool>) -> (r: Vec<u64>)
    ensures
        r@.len() == v@.len(),
        forall|k: int| 0 <= k < v@.len() ==> r@[k] == (if v@[k] { 1u64 } else { 0u64 }),
{
    let mut r: Vec<u64> = Vec::new();
    let mut i: usize = 0;
    while i < v.len()
        invariant
            i <= v@.len(),
            r@.len() == i,
            forall|k: int| 0 <= k < i ==> r@[k] == (if v@[k] { 1u64 } else { 0u64 }),
        decreases v@.len() - i,
    {
        r.push(if v[i] { 1u64 } else { 0u64 });
        i = i + 1;
    }
    r
}

/// Writes a string/blob payload: varint length, then the bytes.
fn enc_blob_payload(b: &Vec<u8>, out: &mut Vec<u8>) -> (r: Result<(), Error>)
    ensures
        spec_wrote(spec_enc_blob(b@), r, old(out)@, final(out)@),
{
    if b.len() > 2000000000 {
        return Err(Error::new_no_msg(ErrorKind::StringTooLong));
    }
    write_varint(out, b.len() as u64);
    push_bytes(out, b.as_slice());
    proof {
        assert(final(out)@ =~= old(out)@ + (spec_varint_bytes(b@.len() as u64) + b@));
    }
    Ok(())
}

/// Writes one entry: its tag byte, then its payload.
fn enc_entry(e: &SectionEntry, out: &mut Vec<u8>) -> (r: Result<(), Error>)
    ensures
        spec_wrote(spec_enc_entry(e@), r, old(out)@, final(out)@),
    decreases *e,
{
    let ghost start = out@;
    match e {
        SectionEntry::Int64(x) => {
            out.push(1u8);
            push_le(out, *x as u64, 8);
            proof {
                assert(out@ =~= start + (seq![1u8] + le_bytes((*x as u64) as nat, 8)));
            }
            Ok(())
        },
        SectionEntry::Int32(x) => {
            out.push(2u8);
            push_le(out, (*x as u32) as u64, 4);
            proof {
                assert(out@ =~= start + (seq![2u8] + le_bytes((*x as u32) as nat, 4)));
            }
            Ok(())
        },
        SectionEntry::Int16(x) => {
            out.push(3u8);
            push_le(out, (*x as u16) as u64, 2);
            proof {
                assert(out@ =~= start + (seq![3u8] + le_bytes((*x as u16) as nat, 2)));
            }
            Ok(())
        },
        SectionEntry::Int8(x) => {
            out.push(4u8);
            push_le(out, (*x as u8) as u64, 1);
            proof {
                assert(out@ =~= start + (seq![4u8] + le_bytes((*x as u8) as nat, 1)));
            }
            Ok(())
        },
        SectionEntry::UInt64(x) => {
            out.push(5u8);
            push_le(out, *x, 8);
            proof {
                assert(out@ =~= start + (seq![5u8] + le_bytes(*x as nat, 8)));
            }
            Ok(())
        },
        SectionEntry::UInt32(x) => {
            out.push(6u8);
            push_le(out, *x as u64, 4);
            proof {
                assert(out@ =~= start + (seq![6u8] + le_bytes(*x as nat, 4)));
            }
            Ok(())
        },
        SectionEntry::UInt16(x) => {
            out.push(7u8);
            push_le(out, *x as u64, 2);
            proof {
                assert(out@ =~= start + (seq![7u8] + le_bytes(*x as nat, 2)));
            }
            Ok(())
        },
        SectionEntry::UInt8(x) => {
            out.push(8u8);
            push_le(out, *x as u64, 1);
            proof {
                assert(out@ =~= start + (seq![8u8] + le_bytes(*x as nat, 1)));
            }
            Ok(())
        },
        SectionEntry::Double(bits) => {
            out.push(9u8);
            push_le(out, *bits, 8);
            proof {
                assert(out@ =~= start + (seq![9u8] + le_bytes(*bits as nat, 8)));
            }
            Ok(())
        },
        SectionEntry::Blob(b) => {
            if b.len() > 2000000000 {
                return Err(Error::new_no_msg(ErrorKind::StringTooLong));
            }
            out.push(10u8);
            let r = enc_blob_payload(b, out);
            proof {
                if let Ok(p) = spec_enc_blob(b@) {
                    assert(out@ =~= start + (seq![10u8] + p));
                }
            }
            r
        },
        SectionEntry::Bool(x) => {
            out.push(11u8);
            out.push(if *x { 1u8 } else { 0u8 });
            proof {
                assert(out@ =~= start + seq![11u8, if *x { 1u8 } else { 0u8 }]);
            }
            Ok(())
        },
        SectionEntry::Object(s) => {
            out.push(12u8);
            let r = enc_body(&s.fields, out);
            proof {
                if let Ok(p) = spec_enc_body(spec_section_view(*s)) {
                    assert(out@ =~= start + (seq![12u8] + p));
                }
            }
            r
        },
        SectionEntry::Array(a) => enc_array(a, out),
    }
}

/// Writes a fixed-width array entry: flagged tag, varint count, payloads.
fn enc_fixed_array(tag: u8, words: &Vec<u64>, w: usize, out: &mut Vec<u8>)
    requires
        w <= 8,
        words@.len() <= 10000,
    ensures
        final(out)@ == old(out)@ + (seq![tag] + spec_varint_bytes(words@.len() as u64))
            + spec_enc_fixed(words@, w as nat),
{
    let ghost start = out@;
    out.push(tag);
    write_varint(out, words.len() as u64);
    push_fixed_words(out, words, w);
    proof {
        assert(out@ =~= start + (seq![tag] + spec_varint_bytes(words@.len() as u64))
            + spec_enc_fixed(words@, w as nat));
    }
}

/// Writes an array entry: flagged tag, varint element count, then the
/// element payloads.
fn enc_array(a: &SectionArray, out: &mut Vec<u8>) -> (r: Result<(), Error>)
    ensures
        spec_wrote(spec_enc_array(a@), r, old(out)@, final(out)@),
    decreases *a,
{
    let ghost start = out@;
    match a {
        SectionArray::Blob(list) => {
            proof {
                assert(crate::section::spec_blobs_view(list@).len() == list@.len());
            }
            if list.len() > 10000 {
                return Err(Error::new_no_msg(ErrorKind::ArrayTooLong));
            }
            out.push(0x8Au8);
            write_varint(out, list.len() as u64);
            let r = enc_blob_list(list, out);
            match r {
                Ok(()) => {
                    proof {
                        let p = spec_enc_blobs(crate::section::spec_blobs_view(list@)).unwrap();
                        assert(out@ =~= start + ((seq![0x8Au8] + spec_varint_bytes(
                            list@.len() as u64,
                        )) + p));
                    }
                    Ok(())
                },
                Err(e) => Err(e),
            }
        },
        SectionArray::Object(list) => {
            proof {
                lemma_sections_view_len(list@);
            }
            if list.len() > 10000 {
                return Err(Error::new_no_msg(ErrorKind::ArrayTooLong));
            }
            out.push(0x8Cu8);
            write_varint(out, list.len() as u64);
            let r = enc_body_list(list, out);
            match r {
                Ok(()) => {
                    proof {
                        lemma_sections_view_len(list@);
                        let p = spec_enc_bodies(crate::section::spec_sections_view(list@)).unwrap();
                        assert(out@ =~= start + ((seq![0x8Cu8] + spec_varint_bytes(
                            list@.len() as u64,
                        )) + p));
                    }
                    Ok(())
                },
                Err(e) => Err(e),
            }
        },
        _ => enc_scalar_array(a, out),
    }
}

/// Writes a fixed-width scalar array entry.
#[verifier::rlimit(100)]
#[verifier::spinoff_prover]
fn enc_scalar_array(a: &SectionArray, out: &mut Vec<u8>) -> (r: Result<(), Error>)
    requires
        !(a@ matches crate::section::ArrayV::Blob(_)),
        !(a@ matches crate::section::ArrayV::Object(_)),
    ensures
        spec_wrote(spec_enc_array(a@), r, old(out)@, final(out)@),
{
    let ghost start = out@;
    match a {
        SectionArray::Int64(v) => {
            if v.len() > 10000 {
                return Err(Error::new_no_msg(ErrorKind::ArrayTooLong));
            }
            let words = words_of_i64(v);
            proof {
                assert(words@ =~= spec_array_scalars(a@));
            }
            enc_fixed_array(0x81u8, &words, 8, out);
            proof {
                assert(out@ =~= start + ((seq![0x81u8] + spec_varint_bytes(v@.len() as u64))
                    + spec_enc_fixed(spec_array_scalars(a@), 8)));
            }
            Ok(())
        },
        SectionArray::Int32(v) => {
            if v.len() > 10000 {
                return Err(Error::new_no_msg(ErrorKind::ArrayTooLong));
            }
            let words = words_of_i32(v);
            proof {
                assert(words@ =~= spec_array_scalars(a@));
            }
            enc_fixed_array(0x82u8, &words, 4, out);
            proof {
                assert(out@ =~= start + ((seq![0x82u8] + spec_varint_bytes(v@.len() as u64))
                    + spec_enc_fixed(spec_array_scalars(a@), 4)));
            }
            Ok(())
        },
        SectionArray::Int16(v) => {
            if v.len() > 10000 {
                return Err(Error::new_no_msg(ErrorKind::ArrayTooLong));
            }
            let words = words_of_i16(v);
            proof {
                assert(words@ =~= spec_array_scalars(a@));
            }
            enc_fixed_array(0x83u8, &words, 2, out);
            proof {
                assert(out@ =~= start + ((seq![0x83u8] + spec_varint_bytes(v@.len() as u64))
                    + spec_enc_fixed(spec_array_scalars(a@), 2)));
            }
            Ok(())
        },
        SectionArray::Int8(v) => {
            if v.len() > 10000 {
                return Err(Error::new_no_msg(ErrorKind::ArrayTooLong));
            }
            let words = words_of_i8(v);
            proof {
                assert(words@ =~= spec_array_scalars(a@));
            }
            enc_fixed_array(0x84u8, &words, 1, out);
            proof {
                assert(out@ =~= start + ((seq![0x84u8] + spec_varint_bytes(v@.len() as u64))
                    + spec_enc_fixed(spec_array_scalars(a@), 1)));
            }
            Ok(())
        },
        SectionArray::UInt64(v) => {
            if v.len() > 10000 {
                return Err(Error::new_no_msg(ErrorKind::ArrayTooLong));
            }
            proof {
                assert(v@ =~= spec_array_scalars(a@));
            }
            enc_fixed_array(0x85u8, v, 8, out);
            proof {
                assert(out@ =~= start + ((seq![0x85u8] + spec_varint_bytes(v@.len() as u64))
                    + spec_enc_fixed(spec_array_scalars(a@), 8)));
            }
            Ok(())
        },
        SectionArray::UInt32(v) => {
            if v.len() > 10000 {
                return Err(Error::new_no_msg(ErrorKind::ArrayTooLong));
            }
            let words = words_of_u32(v);
            proof {
                assert(words@ =~= spec_array_scalars(a@));
            }
            enc_fixed_array(0x86u8, &words, 4, out);
            proof {
                assert(out@ =~= start + ((seq![0x86u8] + spec_varint_bytes(v@.len() as u64))
                    + spec_enc_fixed(spec_array_scalars(a@), 4)));
            }
            Ok(())
        },
        SectionArray::UInt16(v) => {
            if v.len() > 10000 {
                return Err(Error::new_no_msg(ErrorKind::ArrayTooLong));
            }
            let words = words_of_u16(v);
            proof {
                assert(words@ =~= spec_array_scalars(a@));
            }
            enc_fixed_array(0x87u8, &words, 2, out);
            proof {
                assert(out@ =~= start + ((seq![0x87u8] + spec_varint_bytes(v@.len() as u64))
                    + spec_enc_fixed(spec_array_scalars(a@), 2)));
            }
            Ok(())
        },
        SectionArray::UInt8(v) => {
            if v.len() > 10000 {
                return Err(Error::new_no_msg(ErrorKind::ArrayTooLong));
            }
            let words = words_of_u8(v);
            proof {
                assert(words@ =~= spec_array_scalars(a@));
            }
            enc_fixed_array(0x88u8, &words, 1, out);
            proof {
                assert(out@ =~= start + ((seq![0x88u8] + spec_varint_bytes(v@.len() as u64))
                    + spec_enc_fixed(spec_array_scalars(a@), 1)));
            }
            Ok(())
        },
        SectionArray::Double(v) => {
            if v.len() > 10000 {
                return Err(Error::new_no_msg(ErrorKind::ArrayTooLong));
            }
            proof {
                assert(v@ =~= spec_array_scalars(a@));
            }
            enc_fixed_array(0x89u8, v, 8, out);
            proof {
                assert(out@ =~= start + ((seq![0x89u8] + spec_varint_bytes(v@.len() as u64))
                    + spec_enc_fixed(spec_array_scalars(a@), 8)));
            }
            Ok(())
        },
        SectionArray::Bool(v) => {
            if v.len() > 10000 {
                return Err(Error::new_no_msg(ErrorKind::ArrayTooLong));
            }
            let words = words_of_bool(v);
            proof {
                assert(words@ =~= spec_array_scalars(a@));
            }
            enc_fixed_array(0x8Bu8, &words, 1, out);
            proof {
                assert(out@ =~= start + ((seq![0x8Bu8] + spec_varint_bytes(v@.len() as u64))
                    + spec_enc_fixed(spec_array_scalars(a@), 1)));
            }
            Ok(())
        },
        SectionArray::Blob(_) => vstd::pervasive::unreached(),
        SectionArray::Object(_) => vstd::pervasive::unreached(),
    }
}

/// Writes back-to-back string payloads: the body of an array of blobs.
fn enc_blob_list(list: &Vec<Vec<u8>>, out: &mut Vec<u8>) -> (r: Result<(), Error>)
    ensures
        spec_wrote(
            spec_enc_blobs(crate::section::spec_blobs_view(list@)),
            r,
            old(out)@,
            final(out)@,
        ),
{
    let ghost start = out@;
    let ghost vl = crate::section::spec_blobs_view(list@);
    let mut i: usize = 0;
    let ghost mut done = Seq::<u8>::empty();
    proof {
        assert(out@ =~= start + done);
        assert(vl.subrange(0, vl.len() as int) =~= vl);
        if let Ok(rest) = spec_enc_blobs(vl) {
            assert(done + rest =~= rest);
        }
    }
    while i < list.len()
        invariant
            i <= list@.len(),
            vl == crate::section::spec_blobs_view(list@),
            vl.len() == list@.len(),
            out@ == start + done,
            match spec_enc_blobs(vl.subrange(i as int, vl.len() as int)) {
                Ok(rest) => spec_enc_blobs(vl) == Ok::<Seq<u8>, ErrorKind>(done + rest),
                Err(k) => spec_enc_blobs(vl) == Err::<Seq<u8>, ErrorKind>(k),
            },
        decreases list@.len() - i,
    {
        let ghost rem = vl.subrange(i as int, vl.len() as int);
        proof {
            assert(rem[0] == vl[i as int]);
            assert(rem.subrange(1, rem.len() as int) =~= vl.subrange(i + 1, vl.len() as int));
        }
        let r = enc_blob_payload(&list[i], out);
        if let Err(e) = r {
            proof {
                assert(spec_enc_blobs(rem) == Err::<Seq<u8>, ErrorKind>(e.kind));
            }
            return Err(e);
        }
        proof {
            let bi = spec_enc_blob(vl[i as int]).unwrap();
            let prev = done;
            done = done + bi;
            assert(out@ =~= start + done);
            if let Ok(rest2) = spec_enc_blobs(vl.subrange(i + 1, vl.len() as int)) {
                assert(spec_enc_blobs(rem) == Ok::<Seq<u8>, ErrorKind>(bi + rest2));
                assert(prev + (bi + rest2) =~= done + rest2);
            }
        }
        i = i + 1;
    }
    proof {
        assert(vl.subrange(vl.len() as int, vl.len() as int) =~= Seq::<Seq<u8>>::empty());
        if let Ok(total) = spec_enc_blobs(vl) {
            assert(done + Seq::<u8>::empty() =~= done);
        }
    }
    Ok(())
}

/// Writes back-to-back section bodies: the elements of an array of objects.
fn enc_body_list(list: &Vec<Section>, out: &mut Vec<u8>) -> (r: Result<(), Error>)
    ensures
        spec_wrote(
            spec_enc_bodies(crate::section::spec_sections_view(list@)),
            r,
            old(out)@,
            final(out)@,
        ),
    decreases *list,
{
    let ghost start = out@;
    let ghost vl = crate::section::spec_sections_view(list@);
    let mut i: usize = 0;
    let ghost mut done = Seq::<u8>::empty();
    proof {
        lemma_sections_view_len(list@);
        assert(out@ =~= start + done);
        assert(vl.subrange(0, vl.len() as int) =~= vl);
        if let Ok(rest) = spec_enc_bodies(vl) {
            assert(done + rest =~= rest);
        }
    }
    while i < list.len()
        invariant
            i <= list@.len(),
            vl == crate::section::spec_sections_view(list@),
            vl.len() == list@.len(),
            out@ == start + done,
            match spec_enc_bodies(vl.subrange(i as int, vl.len() as int)) {
                Ok(rest) => spec_enc_bodies(vl) == Ok::<Seq<u8>, ErrorKind>(done + rest),
                Err(k) => spec_enc_bodies(vl) == Err::<Seq<u8>, ErrorKind>(k),
            },
        decreases list@.len() - i,
    {
        let ghost rem = vl.subrange(i as int, vl.len() as int);
        proof {
            lemma_sections_view_index(list@, i as int);
            assert(rem[0] == vl[i as int]);
            assert(rem.subrange(1, rem.len() as int) =~= vl.subrange(i + 1, vl.len() as int));
            assert(decreases_to!(list@ => list@[i as int]));
            assert(decreases_to!(list@[i as int] => list@[i as int].fields));
        }
        let r = enc_body(&list[i].fields, out);
        if let Err(e) = r {
            proof {
                assert(spec_enc_bodies(rem) == Err::<Seq<u8>, ErrorKind>(e.kind));
            }
            return Err(e);
        }
        proof {
            let bi = spec_enc_body(vl[i as int]).unwrap();
            let prev = done;
            done = done + bi;
            assert(out@ =~= start + done);
            if let Ok(rest2) = spec_enc_bodies(vl.subrange(i + 1, vl.len() as int)) {
                assert(spec_enc_bodies(rem) == Ok::<Seq<u8>, ErrorKind>(bi + rest2));
                assert(prev + (bi + rest2) =~= done + rest2);
            }
        }
        i = i + 1;
    }
    proof {
        assert(vl.subrange(vl.len() as int, vl.len() as int)
            =~= Seq::<Seq<crate::section::FieldV>>::empty());
        if let Ok(total) = spec_enc_bodies(vl) {
            assert(done + Seq::<u8>::empty() =~= done);
        }
    }
    Ok(())
}

/// Writes a section body: a varint pair count, then each key and entry.
fn enc_body(fields: &Vec<(Vec<u8>, SectionEntry)>, out: &mut Vec<u8>) -> (r: Result<(), Error>)
    ensures
        spec_wrote(spec_enc_body(spec_fields_view(fields@)), r, old(out)@, final(out)@),
    decreases *fields,
{
    let ghost vf = spec_fields_view(fields@);
    proof {
        lemma_fields_view_len(fields@);
    }
    let n = fields.len();
    if n > 10000 {
        return Err(Error::new_no_msg(ErrorKind::TooManySectionFields));
    }
    let ghost start = out@;
    write_varint(out, n as u64);
    let ghost vbytes = spec_varint_bytes(n as u64);
    let mut i: usize = 0;
    let ghost mut done = Seq::<u8>::empty();
    proof {
        assert(out@ =~= start + vbytes + done);
        assert(vf.subrange(0, vf.len() as int) =~= vf);
        if let Ok(rest) = spec_enc_fields(vf) {
            assert(done + rest =~= rest);
        }
    }
    while i < n
        invariant
            i <= n,
            n == fields@.len(),
            n <= 10000,
            vf == spec_fields_view(fields@),
            vf.len() == n,
            out@ == start + vbytes + done,
            match spec_enc_fields(vf.subrange(i as int, vf.len() as int)) {
                Ok(rest) => spec_enc_fields(vf) == Ok::<Seq<u8>, ErrorKind>(done + rest),
                Err(k) => spec_enc_fields(vf) == Err::<Seq<u8>, ErrorKind>(k),
            },
        decreases n - i,
    {
        let ghost rem = vf.subrange(i as int, vf.len() as int);
        proof {
            lemma_fields_view_index(fields@, i as int);
            assert(rem[0] == vf[i as int]);
            assert(rem.subrange(1, rem.len() as int) =~= vf.subrange(i + 1, vf.len() as int));
        }
        let klen = fields[i].0.len();
        if klen == 0 {
            return Err(Error::new_no_msg(ErrorKind::EmptySectionKey));
        }
        if klen > 255 {
            return Err(Error::new_no_msg(ErrorKind::KeyTooLong));
        }
        out.push(klen as u8);
        push_bytes(out, fields[i].0.as_slice());
        let ghost kb = spec_enc_key(vf[i as int].key).unwrap();
        proof {
            assert(kb =~= seq![klen as u8] + fields@[i as int].0@);
            assert(out@ =~= start + vbytes + (done + kb));
        }
        let r = enc_entry(&fields[i].1, out);
        if let Err(e) = r {
            return Err(e);
        }
        proof {
            let eb = spec_enc_entry(vf[i as int].entry).unwrap();
            let prev = done;
            done = done + kb + eb;
            assert(out@ =~= start + vbytes + done);
            if let Ok(rest2) = spec_enc_fields(vf.subrange(i + 1, vf.len() as int)) {
                assert(spec_enc_fields(rem) == Ok::<Seq<u8>, ErrorKind>(kb + eb + rest2));
                assert(prev + (kb + eb + rest2) =~= done + rest2);
            }
        }
        i = i + 1;
    }
    proof {
        assert(vf.subrange(vf.len() as int, vf.len() as int)
            =~= Seq::<crate::section::FieldV>::empty());
        let total = spec_enc_fields(vf).unwrap();
        assert(done + Seq::<u8>::empty() =~= done);
        assert(out@ =~= start + (vbytes + total));
    }
    Ok(())
}

/// Encodes a section as a root value into `out`: the 9-byte signature
/// first, then the section body.
pub fn serialize_into(value: &Section, out: &mut Vec<u8>) -> (r: Result<(), Error>)
    ensures
        spec_wrote(spec_enc_root(value@), r, old(out)@, final(out)@),
{
    let ghost start = out@;
    let sig = signature_bytes();
    push_bytes(out, sig.as_slice());
    let r = enc_body(&value.fields, out);
    match r {
        Ok(()) => {
            proof {
                if let Ok(body) = spec_enc_body(value@) {
                    assert(out@ =~= start + (crate::constants::spec_signature() + body));
                }
            }
            Ok(())
        },
        Err(e) => Err(e),
    }
}

/// Encodes a section as a root value into a fresh byte buffer.
pub fn to_bytes(value: &Section) -> (r: Result<Vec<u8>, Error>)
    ensures
        match spec_enc_root(value@) {
            Ok(bs) => r matches Ok(v) && v@ == bs,
            Err(k) => r matches Err(e) && e.kind == k,
        },
{
    let mut out: Vec<u8> = Vec::new();
    match serialize_into(value, &mut out) {
        Ok(()) => {
            proof {
                if let Ok(bs) = spec_enc_root(value@) {
                    assert(Seq::<u8>::empty() + bs =~= bs);
                }
            }
            Ok(out)
        },
        Err(e) => Err(e),
    }
}

/// The shape of the frame a `Serializer` is writing.
#[derive(Debug, Clone, Copy, PartialEq, Eq, Structural)]
pub enum EpeeStorageFormat {
    Section,
    RootSection,
    Array,
    Packed,
    Unstarted,
}

/// One streaming encoder frame: what compound it writes, how many elements
/// were announced, which scalar type its elements must share (for arrays),
/// and whether its prologue went out already.
#[derive(Debug, Clone, Copy, PartialEq, Eq, Structural)]
pub struct Serializer {
    pub storage_format: EpeeStorageFormat,
    pub len: u32,
    pub element_type: u8,
    pub started: bool,
    pub serializing_key: bool,
}

/// A tag byte with the array flag set.
pub open spec fn spec_flagged(code: u8) -> u8 {
    if code >= 128 {
        code
    } else {
        (code + 128) as u8
    }
}

/// The prologue a frame emits when its first element arrives: tag or
/// signature, then the announced length as a varint (except packed frames,
/// which emit nothing).
pub open spec fn spec_start_bytes(s: Serializer, type_code: u8) -> Seq<u8> {
    if s.started {
        Seq::empty()
    } else {
        (match s.storage_format {
            EpeeStorageFormat::Section => seq![12u8],
            EpeeStorageFormat::RootSection => crate::constants::spec_signature(),
            EpeeStorageFormat::Array => seq![spec_flagged(type_code)],
            EpeeStorageFormat::Packed => Seq::empty(),
            EpeeStorageFormat::Unstarted => Seq::empty(),
        }) + (if s.storage_format != EpeeStorageFormat::Packed {
            spec_varint_bytes(s.len as u64)
        } else {
            Seq::empty()
        })
    }
}

/// The frame state after its prologue went out: started, with the first
/// element's scalar type recorded.
pub open spec fn spec_after_start(s: Serializer, type_code: u8) -> Serializer {
    Serializer {
        started: true,
        element_type: if s.started {
            s.element_type
        } else {
            type_code
        },
        ..s
    }
}

/// What one scalar write does to a frame: the prologue if this is the
/// first element, a type check against the frame, the per-element tag in
/// section frames, then the payload.  In an array frame, the first element
/// whose type code differs from the recorded one is refused.
pub open spec fn spec_scalar_write(s: Serializer, type_code: u8, payload: Seq<u8>) -> Result<
    (Serializer, Seq<u8>),
    ErrorKind,
> {
    let s1 = spec_after_start(s, type_code);
    if s1.storage_format == EpeeStorageFormat::Array && type_code != s1.element_type {
        Err(ErrorKind::ArrayMixedTypes)
    } else if s1.serializing_key && type_code != 10 {
        Err(ErrorKind::KeyBadType)
    } else {
        Ok(
            (
                s1,
                spec_start_bytes(s, type_code) + (if (s1.storage_format
                    == EpeeStorageFormat::Section || s1.storage_format
                    == EpeeStorageFormat::RootSection) && type_code != 0 {
                    seq![type_code]
                } else {
                    Seq::empty()
                }) + payload,
            ),
        )
    }
}

/// What a scalar write left behind: on `Ok` the new frame state and
/// exactly the specified bytes; on `Err` the started frame and only its
/// prologue.
pub open spec fn spec_frame_wrote(
    s0: Serializer,
    type_code: u8,
    payload: Seq<u8>,
    s2: Serializer,
    r: Result<(), Error>,
    old_out: Seq<u8>,
    new_out: Seq<u8>,
) -> bool {
    match spec_scalar_write(s0, type_code, payload) {
        Ok((s1, bytes)) => r is Ok && s2 == s1 && new_out == old_out + bytes,
        Err(k) => (r matches Err(e) && e.kind == k) && s2 == spec_after_start(s0, type_code)
            && new_out == old_out + spec_start_bytes(s0, type_code),
    }
}

impl Serializer {
    /// Opens a nested-section frame announcing `len` pairs.
    pub fn new_section(len: u32) -> (r: Result<Self, Error>)
        ensures
            len <= 10000 ==> (r matches Ok(s) && s == (Serializer {
                storage_format: EpeeStorageFormat::Section,
                len,
                element_type: 0u8,
                started: false,
                serializing_key: false,
            })),
            len > 10000 ==> (r matches Err(e) && e.kind == ErrorKind::TooManySectionFields),
    {
        if len <= 10000 {
            Ok(
                Serializer {
                    storage_format: EpeeStorageFormat::Section,
                    len,
                    element_type: 0,
                    started: false,
                    serializing_key: false,
                },
            )
        } else {
            Err(Error::new_no_msg(ErrorKind::TooManySectionFields))
        }
    }

    /// Opens a root-section frame announcing `len` pairs; its prologue is
    /// the 9-byte signature.
    pub fn new_root_section(len: u32) -> (r: Result<Self, Error>)
        ensures
            len <= 10000 ==> (r matches Ok(s) && s == (Serializer {
                storage_format: EpeeStorageFormat::RootSection,
                len,
                element_type: 0u8,
                started: false,
                serializing_key: false,
            })),
            len > 10000 ==> (r matches Err(e) && e.kind == ErrorKind::TooManySectionFields),
    {
        if len <= 10000 {
            Ok(
                Serializer {
                    storage_format: EpeeStorageFormat::RootSection,
                    len,
                    element_type: 0,
                    started: false,
                    serializing_key: false,
                },
            )
        } else {
            Err(Error::new_no_msg(ErrorKind::TooManySectionFields))
        }
    }

    /// Opens an array frame announcing `len` elements.
    pub fn new_array(len: u32) -> (r: Result<Self, Error>)
        ensures
            len <= 10000 ==> (r matches Ok(s) && s == (Serializer {
                storage_format: EpeeStorageFormat::Array,
                len,
                element_type: 0u8,
                started: false,
                serializing_key: false,
            })),
            len > 10000 ==> (r matches Err(e) && e.kind == ErrorKind::TooManySectionFields),
    {
        if len <= 10000 {
            Ok(
                Serializer {
                    storage_format: EpeeStorageFormat::Array,
                    len,
                    element_type: 0,
                    started: false,
                    serializing_key: false,
                },
            )
        } else {
            Err(Error::new_no_msg(ErrorKind::TooManySectionFields))
        }
    }

    /// Opens a packed frame: `len` elements back to back, no tag and no
    /// length prefix; used for fixed-length tuples.
    pub fn new_packed(len: u32) -> (r: Result<Self, Error>)
        ensures
            len <= 10000 ==> (r matches Ok(s) && s == (Serializer {
                storage_format: EpeeStorageFormat::Packed,
                len,
                element_type: 0u8,
                started: false,
                serializing_key: false,
            })),
            len > 10000 ==> (r matches Err(e) && e.kind == ErrorKind::TooManySectionFields),
    {
        if len <= 10000 {
            Ok(
                Serializer {
                    storage_format: EpeeStorageFormat::Packed,
                    len,
                    element_type: 0,
                    started: false,
                    serializing_key: false,
                },
            )
        } else {
            Err(Error::new_no_msg(ErrorKind::TooManySectionFields))
        }
    }

    /// Opens a fresh encoder: an unstarted initial frame.
    pub fn new() -> (r: Self)
        ensures
            r == (Serializer {
                storage_format: EpeeStorageFormat::Unstarted,
                len: 0u32,
                element_type: 0u8,
                started: false,
                serializing_key: false,
            }),
    {
        Serializer::new_unstarted()
    }

    /// Opens the initial frame: the one a fresh stream starts in, before
    /// the root compound announces itself.
    pub fn new_unstarted() -> (r: Self)
        ensures
            r == (Serializer {
                storage_format: EpeeStorageFormat::Unstarted,
                len: 0u32,
                element_type: 0u8,
                started: false,
                serializing_key: false,
            }),
    {
        Serializer {
            storage_format: EpeeStorageFormat::Unstarted,
            len: 0,
            element_type: 0,
            started: false,
            serializing_key: false,
        }
    }

    /// Writes raw bytes through the frame, untouched.
    pub fn write_raw(&mut self, out: &mut Vec<u8>, bytes: &[u8]) -> (r: Result<(), Error>)
        ensures
            r is Ok,
            *final(self) == *old(self),
            final(out)@ == old(out)@ + bytes@,
    {
        push_bytes(out, bytes);
        Ok(())
    }

    /// Writes one tag byte, setting the array flag if asked.
    pub fn write_type_code(&mut self, out: &mut Vec<u8>, type_code: u8, is_array: bool) -> (r:
        Result<(), Error>)
        ensures
            r is Ok,
            *final(self) == *old(self),
            final(out)@ == old(out)@ + seq![if is_array {
                spec_flagged(type_code)
            } else {
                type_code
            }],
    {
        let type_byte = if is_array {
            if type_code >= 128 {
                type_code
            } else {
                type_code + 128
            }
        } else {
            type_code
        };
        out.push(type_byte);
        proof {
            assert(final(out)@ =~= old(out)@ + seq![type_byte]);
        }
        Ok(())
    }

    /// Writes a key string: one length byte, then the bytes.  Keys must be
    /// 1 to 255 bytes long.
    pub fn write_key_string(&mut self, out: &mut Vec<u8>, s: &[u8]) -> (r: Result<(), Error>)
        ensures
            *final(self) == *old(self),
            spec_wrote(spec_enc_key(s@), r, old(out)@, final(out)@),
            r is Err ==> final(out)@ == old(out)@,
    {
        if s.len() == 0 {
            return Err(Error::new_no_msg(ErrorKind::EmptySectionKey));
        }
        if s.len() > 255 {
            return Err(Error::new_no_msg(ErrorKind::KeyTooLong));
        }
        let len_byte = s.len() as u8;
        out.push(len_byte);
        push_bytes(out, s);
        proof {
            assert(final(out)@ =~= old(out)@ + (seq![len_byte] + s@));
        }
        Ok(())
    }

    /// Starts the frame if this is its first element, then checks and, in
    /// section frames, writes the element's tag byte.
    pub fn serialize_start_and_type_code(&mut self, out: &mut Vec<u8>, type_code: u8) -> (r:
        Result<(), Error>)
        ensures
            spec_frame_wrote(
                *old(self),
                type_code,
                Seq::<u8>::empty(),
                *final(self),
                r,
                old(out)@,
                final(out)@,
            ),
    {
        let ghost start = out@;
        if !self.started {
            match self.storage_format {
                EpeeStorageFormat::Section => {
                    out.push(12u8);
                },
                EpeeStorageFormat::RootSection => {
                    let sig = signature_bytes();
                    push_bytes(out, sig.as_slice());
                },
                EpeeStorageFormat::Array => {
                    let type_byte = if type_code >= 128 {
                        type_code
                    } else {
                        type_code + 128
                    };
                    out.push(type_byte);
                },
                EpeeStorageFormat::Packed => {},
                EpeeStorageFormat::Unstarted => {},
            }
            if !matches!(self.storage_format, EpeeStorageFormat::Packed) {
                write_varint(out, self.len as u64);
            }
            self.element_type = type_code;
            self.started = true;
        }
        proof {
            assert(out@ =~= start + spec_start_bytes(*old(self), type_code));
        }
        if matches!(self.storage_format, EpeeStorageFormat::Array) && type_code
            != self.element_type {
            return Err(Error::new_no_msg(ErrorKind::ArrayMixedTypes));
        }
        if self.serializing_key && type_code != 10 {
            return Err(Error::new_no_msg(ErrorKind::KeyBadType));
        }
        if (matches!(self.storage_format, EpeeStorageFormat::Section) || matches!(
            self.storage_format,
            EpeeStorageFormat::RootSection,
        )) && type_code != 0 {
            out.push(type_code);
        }
        proof {
            if let Ok((s1, bytes)) = spec_scalar_write(*old(self), type_code, Seq::<u8>::empty()) {
                assert(out@ =~= start + bytes);
            }
        }
        Ok(())
    }

    /// Writes a boolean element: one byte, 1 for true.
    pub fn serialize_bool(&mut self, out: &mut Vec<u8>, v: bool) -> (r: Result<(), Error>)
        ensures
            spec_frame_wrote(
                *old(self),
                11u8,
                seq![if v { 1u8 } else { 0u8 }],
                *final(self),
                r,
                old(out)@,
                final(out)@,
            ),
    {
        let ghost start = out@;
        let rs = self.serialize_start_and_type_code(out, 11);
        if let Err(e) = rs {
            return Err(e);
        }
        out.push(if v { 1u8 } else { 0u8 });
        proof {
            if let Ok((s1, bytes)) = spec_scalar_write(
                *old(self),
                11u8,
                seq![if v { 1u8 } else { 0u8 }],
            ) {
                assert(out@ =~= start + bytes);
            }
        }
        Ok(())
    }

    /// Writes a signed 8-bit element.
    pub fn serialize_i8(&mut self, out: &mut Vec<u8>, v: i8) -> (r: Result<(), Error>)
        ensures
            spec_frame_wrote(
                *old(self),
                4u8,
                le_bytes((v as u8) as nat, 1),
                *final(self),
                r,
                old(out)@,
                final(out)@,
            ),
    {
        let ghost start = out@;
        let rs = self.serialize_start_and_type_code(out, 4);
        if let Err(e) = rs {
            return Err(e);
        }
        push_le(out, (v as u8) as u64, 1);
        proof {
            if let Ok((s1, bytes)) = spec_scalar_write(*old(self), 4u8, le_bytes((v as u8) as nat, 1)) {
                assert(out@ =~= start + bytes);
            }
        }
        Ok(())
    }

    /// Writes a signed 16-bit element, little-endian.
    pub fn serialize_i16(&mut self, out: &mut Vec<u8>, v: i16) -> (r: Result<(), Error>)
        ensures
            spec_frame_wrote(
                *old(self),
                3u8,
                le_bytes((v as u16) as nat, 2),
                *final(self),
                r,
                old(out)@,
                final(out)@,
            ),
    {
        let ghost start = out@;
        let rs = self.serialize_start_and_type_code(out, 3);
        if let Err(e) = rs {
            return Err(e);
        }
        push_le(out, (v as u16) as u64, 2);
        proof {
            if let Ok((s1, bytes)) = spec_scalar_write(*old(self), 3u8, le_bytes((v as u16) as nat, 2)) {
                assert(out@ =~= start + bytes);
            }
        }
        Ok(())
    }

    /// Writes a signed 32-bit element, little-endian.
    pub fn serialize_i32(&mut self, out: &mut Vec<u8>, v: i32) -> (r: Result<(), Error>)
        ensures
            spec_frame_wrote(
                *old(self),
                2u8,
                le_bytes((v as u32) as nat, 4),
                *final(self),
                r,
                old(out)@,
                final(out)@,
            ),
    {
        let ghost start = out@;
        let rs = self.serialize_start_and_type_code(out, 2);
        if let Err(e) = rs {
            return Err(e);
        }
        push_le(out, (v as u32) as u64, 4);
        proof {
            if let Ok((s1, bytes)) = spec_scalar_write(*old(self), 2u8, le_bytes((v as u32) as nat, 4)) {
                assert(out@ =~= start + bytes);
            }
        }
        Ok(())
    }

    /// Writes a signed 64-bit element, little-endian.
    pub fn serialize_i64(&mut self, out: &mut Vec<u8>, v: i64) -> (r: Result<(), Error>)
        ensures
            spec_frame_wrote(
                *old(self),
                1u8,
                le_bytes((v as u64) as nat, 8),
                *final(self),
                r,
                old(out)@,
                final(out)@,
            ),
    {
        let ghost start = out@;
        let rs = self.serialize_start_and_type_code(out, 1);
        if let Err(e) = rs {
            return Err(e);
        }
        push_le(out, v as u64, 8);
        proof {
            if let Ok((s1, bytes)) = spec_scalar_write(*old(self), 1u8, le_bytes((v as u64) as nat, 8)) {
                assert(out@ =~= start + bytes);
            }
        }
        Ok(())
    }

    /// Writes an unsigned 8-bit element.
    pub fn serialize_u8(&mut self, out: &mut Vec<u8>, v: u8) -> (r: Result<(), Error>)
        ensures
            spec_frame_wrote(
                *old(self),
                8u8,
                le_bytes(v as nat, 1),
                *final(self),
                r,
                old(out)@,
                final(out)@,
            ),
    {
        let ghost start = out@;
        let rs = self.serialize_start_and_type_code(out, 8);
        if let Err(e) = rs {
            return Err(e);
        }
        push_le(out, v as u64, 1);
        proof {
            if let Ok((s1, bytes)) = spec_scalar_write(*old(self), 8u8, le_bytes(v as nat, 1)) {
                assert(out@ =~= start + bytes);
            }
        }
        Ok(())
    }

    /// Writes an unsigned 16-bit element, little-endian.
    pub fn serialize_u16(&mut self, out: &mut Vec<u8>, v: u16) -> (r: Result<(), Error>)
        ensures
            spec_frame_wrote(
                *old(self),
                7u8,
                le_bytes(v as nat, 2),
                *final(self),
                r,
                old(out)@,
                final(out)@,
            ),
    {
        let ghost start = out@;
        let rs = self.serialize_start_and_type_code(out, 7);
        if let Err(e) = rs {
            return Err(e);
        }
        push_le(out, v as u64, 2);
        proof {
            if let Ok((s1, bytes)) = spec_scalar_write(*old(self), 7u8, le_bytes(v as nat, 2)) {
                assert(out@ =~= start + bytes);
            }
        }
        Ok(())
    }

    /// Writes an unsigned 32-bit element, little-endian.
    pub fn serialize_u32(&mut self, out: &mut Vec<u8>, v: u32) -> (r: Result<(), Error>)
        ensures
            spec_frame_wrote(
                *old(self),
                6u8,
                le_bytes(v as nat, 4),
                *final(self),
                r,
                old(out)@,
                final(out)@,
            ),
    {
        let ghost start = out@;
        let rs = self.serialize_start_and_type_code(out, 6);
        if let Err(e) = rs {
            return Err(e);
        }
        push_le(out, v as u64, 4);
        proof {
            if let Ok((s1, bytes)) = spec_scalar_write(*old(self), 6u8, le_bytes(v as nat, 4)) {
                assert(out@ =~= start + bytes);
            }
        }
        Ok(())
    }

    /// Writes an unsigned 64-bit element, little-endian.
    pub fn serialize_u64(&mut self, out: &mut Vec<u8>, v: u64) -> (r: Result<(), Error>)
        ensures
            spec_frame_wrote(
                *old(self),
                5u8,
                le_bytes(v as nat, 8),
                *final(self),
                r,
                old(out)@,
                final(out)@,
            ),
    {
        let ghost start = out@;
        let rs = self.serialize_start_and_type_code(out, 5);
        if let Err(e) = rs {
            return Err(e);
        }
        push_le(out, v, 8);
        proof {
            if let Ok((s1, bytes)) = spec_scalar_write(*old(self), 5u8, le_bytes(v as nat, 8)) {
                assert(out@ =~= start + bytes);
            }
        }
        Ok(())
    }

    /// Writes a double element by its IEEE-754 bit pattern: eight bytes,
    /// little-endian.
    pub fn serialize_double_bits(&mut self, out: &mut Vec<u8>, bits: u64) -> (r: Result<(), Error>)
        ensures
            spec_frame_wrote(
                *old(self),
                9u8,
                le_bytes(bits as nat, 8),
                *final(self),
                r,
                old(out)@,
                final(out)@,
            ),
    {
        let ghost start = out@;
        let rs = self.serialize_start_and_type_code(out, 9);
        if let Err(e) = rs {
            return Err(e);
        }
        push_le(out, bits, 8);
        proof {
            if let Ok((s1, bytes)) = spec_scalar_write(*old(self), 9u8, le_bytes(bits as nat, 8)) {
                assert(out@ =~= start + bytes);
            }
        }
        Ok(())
    }

    /// Writes a character as the uint32 of its Unicode scalar value.
    pub fn serialize_char(&mut self, out: &mut Vec<u8>, v: char) -> (r: Result<(), Error>)
        ensures
            spec_frame_wrote(
                *old(self),
                6u8,
                le_bytes((v as u32) as nat, 4),
                *final(self),
                r,
                old(out)@,
                final(out)@,
            ),
    {
        self.serialize_u32(out, v as u32)
    }

    /// Writes a string/blob element, or, in key position, the pending key.
    pub fn serialize_bytes(&mut self, out: &mut Vec<u8>, v: &[u8]) -> (r: Result<(), Error>)
        ensures
            old(self).serializing_key ==> {
                &&& *final(self) == (Serializer { serializing_key: false, ..*old(self) })
                &&& spec_wrote(spec_enc_key(v@), r, old(out)@, final(out)@)
                &&& (r is Err ==> final(out)@ == old(out)@)
            },
            !old(self).serializing_key ==> if v@.len() > 2000000000 {
                &&& r matches Err(e) && e.kind == ErrorKind::StringTooLong
                &&& *final(self) == *old(self)
                &&& final(out)@ == old(out)@
            } else {
                spec_frame_wrote(
                    *old(self),
                    10u8,
                    spec_enc_blob(v@).unwrap(),
                    *final(self),
                    r,
                    old(out)@,
                    final(out)@,
                )
            },
    {
        if self.serializing_key {
            let res = self.write_key_string(out, v);
            self.serializing_key = false;
            return res;
        }
        if v.len() > 2000000000 {
            return Err(Error::new_no_msg(ErrorKind::StringTooLong));
        }
        let ghost start = out@;
        let rs = self.serialize_start_and_type_code(out, 10);
        if let Err(e) = rs {
            return Err(e);
        }
        write_varint(out, v.len() as u64);
        push_bytes(out, v);
        proof {
            if let Ok((s1, bytes)) = spec_scalar_write(*old(self), 10u8, spec_enc_blob(v@).unwrap()) {
                assert(out@ =~= start + bytes);
            }
        }
        Ok(())
    }

    /// Opens the frame for a sequence element: arrays must not nest, and
    /// the length must be known and within the limit.
    pub fn serialize_seq(&self, len: Option<usize>) -> (r: Result<Serializer, Error>)
        ensures
            self.storage_format == EpeeStorageFormat::Array ==> (r matches Err(e) && e.kind
                == ErrorKind::NestedArrays),
            self.storage_format != EpeeStorageFormat::Array ==> match len {
                None => r matches Err(e) && e.kind == ErrorKind::NoLength,
                Some(l) => if l <= 10000 {
                    r matches Ok(s) && s == (Serializer {
                        storage_format: EpeeStorageFormat::Array,
                        len: l as u32,
                        element_type: 0u8,
                        started: false,
                        serializing_key: false,
                    })
                } else {
                    r matches Err(e) && e.kind == ErrorKind::ArrayTooLong
                },
            },
    {
        if matches!(self.storage_format, EpeeStorageFormat::Array) {
            return Err(Error::new_no_msg(ErrorKind::NestedArrays));
        }
        match len {
            Some(l) => {
                if l <= 10000 {
                    Serializer::new_array(l as u32)
                } else {
                    Err(Error::new_no_msg(ErrorKind::ArrayTooLong))
                }
            },
            None => Err(Error::new_no_msg(ErrorKind::NoLength)),
        }
    }

    /// Opens the frame for a fixed-length tuple: packed, length-checked.
    pub fn serialize_tuple(&self, len: usize) -> (r: Result<Serializer, Error>)
        ensures
            len <= 10000 ==> (r matches Ok(s) && s == (Serializer {
                storage_format: EpeeStorageFormat::Packed,
                len: len as u32,
                element_type: 0u8,
                started: false,
                serializing_key: false,
            })),
            len > 10000 ==> (r matches Err(e) && e.kind == ErrorKind::TupleTooLong),
    {
        if len <= 10000 {
            Serializer::new_packed(len as u32)
        } else {
            Err(Error::new_no_msg(ErrorKind::TupleTooLong))
        }
    }

    /// Opens the frame for a map: the root section if the stream has not
    /// started, a nested section otherwise; the length must be known.
    pub fn serialize_map(&self, len: Option<usize>) -> (r: Result<Serializer, Error>)
        ensures
            match len {
                None => r matches Err(e) && e.kind == ErrorKind::NoLength,
                Some(l) => if l <= 10000 {
                    r matches Ok(s) && s == (Serializer {
                        storage_format: if self.storage_format == EpeeStorageFormat::Unstarted {
                            EpeeStorageFormat::RootSection
                        } else {
                            EpeeStorageFormat::Section
                        },
                        len: l as u32,
                        element_type: 0u8,
                        started: false,
                        serializing_key: false,
                    })
                } else {
                    r matches Err(e) && e.kind == ErrorKind::TooManySectionFields
                },
            },
    {
        match len {
            Some(l) => {
                if l > 10000 {
                    return Err(Error::new_no_msg(ErrorKind::TooManySectionFields));
                }
                if matches!(self.storage_format, EpeeStorageFormat::Unstarted) {
                    Serializer::new_root_section(l as u32)
                } else {
                    Serializer::new_section(l as u32)
                }
            },
            None => Err(Error::new_no_msg(ErrorKind::NoLength)),
        }
    }

    /// Opens the frame for a struct: a section of its field count.
    pub fn serialize_struct(&self, len: usize) -> (r: Result<Serializer, Error>)
        ensures
            len <= 10000 ==> (r matches Ok(s) && s == (Serializer {
                storage_format: if self.storage_format == EpeeStorageFormat::Unstarted {
                    EpeeStorageFormat::RootSection
                } else {
                    EpeeStorageFormat::Section
                },
                len: len as u32,
                element_type: 0u8,
                started: false,
                serializing_key: false,
            })),
            len > 10000 ==> (r matches Err(e) && e.kind == ErrorKind::TooManySectionFields),
    {
        self.serialize_map(Some(len))
    }

    /// Enters map-key position: the next scalar written must be a string,
    /// emitted as a key.
    pub fn serialize_key_start(&mut self, out: &mut Vec<u8>) -> (r: Result<(), Error>)
        ensures
            match spec_scalar_write(*old(self), 0u8, Seq::<u8>::empty()) {
                Ok((s1, bytes)) => r is Ok && *final(self) == (Serializer {
                    serializing_key: true,
                    ..s1
                }) && final(out)@ == old(out)@ + bytes,
                Err(k) => (r matches Err(e) && e.kind == k) && *final(self) == spec_after_start(
                    *old(self),
                    0u8,
                ) && final(out)@ == old(out)@ + spec_start_bytes(*old(self), 0u8),
            },
    {
        let rs = self.serialize_start_and_type_code(out, 0);
        if let Err(e) = rs {
            return Err(e);
        }
        self.serializing_key = true;
        Ok(())
    }
}

/// In a started array frame, a scalar whose type code differs from the
/// frame's recorded element type is refused with `ArrayMixedTypes`, before
/// any of its payload is written.
pub proof fn lemma_array_rejects_mixed(s: Serializer, type_code: u8, payload: Seq<u8>)
    requires
        s.storage_format == EpeeStorageFormat::Array,
        s.started,
        type_code != s.element_type,
    ensures
        spec_scalar_write(s, type_code, payload) == Err::<(Serializer, Seq<u8>), ErrorKind>(
            ErrorKind::ArrayMixedTypes,
        ),
        spec_start_bytes(s, type_code) == Seq::<u8>::empty(),
{
}

/// What a counting step reported: on `Ok` exactly the specified byte
/// count; when the count cannot fit a `usize`, the `Custom` kind; on a
/// specification error, that error's kind.
pub open spec fn spec_counted(res: Result<Seq<u8>, ErrorKind>, r: Result<usize, Error>) -> bool {
    match res {
        Ok(bs) => if bs.len() <= usize::MAX {
            r matches Ok(n) && n == bs.len()
        } else {
            r matches Err(e) && e.kind == ErrorKind::Custom
        },
        Err(k) => r matches Err(e) && e.kind == k,
    }
}

/// How many bytes the canonical varint of `v` occupies.
fn varint_size(v: u64) -> (r: usize)
    ensures
        r == spec_varint_len(v),
        r == spec_varint_bytes(v).len(),
        1 <= r <= 8,
{
    proof {
        crate::varint::lemma_varint_bytes_len(v);
    }
    if v <= 63 {
        1
    } else if v <= 16383 {
        2
    } else if v <= 1073741823 {
        4
    } else {
        8
    }
}

/// Measures a string/blob payload.
fn size_blob(b: &Vec<u8>) -> (r: Result<usize, Error>)
    ensures
        spec_counted(spec_enc_blob(b@), r),
{
    if b.len() > 2000000000 {
        return Err(Error::new_no_msg(ErrorKind::StringTooLong));
    }
    let vs = varint_size(b.len() as u64);
    Ok(vs + b.len())
}

/// Measures one entry: tag byte plus payload.
fn size_entry(e: &SectionEntry) -> (r: Result<usize, Error>)
    ensures
        spec_counted(spec_enc_entry(e@), r),
    decreases *e,
{
    match e {
        SectionEntry::Int64(_) => {
            proof {
                crate::little_endian::lemma_le_bytes_len_auto();
            }
            Ok(9)
        },
        SectionEntry::Int32(_) => {
            proof {
                crate::little_endian::lemma_le_bytes_len_auto();
            }
            Ok(5)
        },
        SectionEntry::Int16(_) => {
            proof {
                crate::little_endian::lemma_le_bytes_len_auto();
            }
            Ok(3)
        },
        SectionEntry::Int8(_) => {
            proof {
                crate::little_endian::lemma_le_bytes_len_auto();
            }
            Ok(2)
        },
        SectionEntry::UInt64(_) => {
            proof {
                crate::little_endian::lemma_le_bytes_len_auto();
            }
            Ok(9)
        },
        SectionEntry::UInt32(_) => {
            proof {
                crate::little_endian::lemma_le_bytes_len_auto();
            }
            Ok(5)
        },
        SectionEntry::UInt16(_) => {
            proof {
                crate::little_endian::lemma_le_bytes_len_auto();
            }
            Ok(3)
        },
        SectionEntry::UInt8(_) => {
            proof {
                crate::little_endian::lemma_le_bytes_len_auto();
            }
            Ok(2)
        },
        SectionEntry::Double(_) => {
            proof {
                crate::little_endian::lemma_le_bytes_len_auto();
            }
            Ok(9)
        },
        SectionEntry::Blob(b) => {
            let n = match size_blob(b) {
                Ok(n) => n,
                Err(e) => {
                    return Err(e);
                },
            };
            if n == usize::MAX {
                return Err(Error::new_no_msg(ErrorKind::Custom));
            }
            Ok(1 + n)
        },
        SectionEntry::Bool(_) => Ok(2),
        SectionEntry::Object(sec) => {
            let n = match size_body(&sec.fields) {
                Ok(n) => n,
                Err(e) => {
                    return Err(e);
                },
            };
            if n == usize::MAX {
                return Err(Error::new_no_msg(ErrorKind::Custom));
            }
            Ok(1 + n)
        },
        SectionEntry::Array(a) => size_array(a),
    }
}

/// Measures an array entry: flagged tag, varint count, element payloads.
#[verifier::rlimit(100)]
#[verifier::spinoff_prover]
fn size_array(a: &SectionArray) -> (r: Result<usize, Error>)
    ensures
        spec_counted(spec_enc_array(a@), r),
    decreases *a,
{
    let n: usize = match a {
        SectionArray::Int64(v) => v.len(),
        SectionArray::Int32(v) => v.len(),
        SectionArray::Int16(v) => v.len(),
        SectionArray::Int8(v) => v.len(),
        SectionArray::UInt64(v) => v.len(),
        SectionArray::UInt32(v) => v.len(),
        SectionArray::UInt16(v) => v.len(),
        SectionArray::UInt8(v) => v.len(),
        SectionArray::Double(v) => v.len(),
        SectionArray::Blob(v) => v.len(),
        SectionArray::Bool(v) => v.len(),
        SectionArray::Object(v) => v.len(),
    };
    proof {
        match a {
            SectionArray::Object(v) => {
                crate::section::lemma_sections_view_len(v@);
            },
            _ => {},
        }
        assert(spec_array_len(a@) == n);
    }
    if n > 10000 {
        return Err(Error::new_no_msg(ErrorKind::ArrayTooLong));
    }
    let vs = varint_size(n as u64);
    match a {
        SectionArray::Blob(list) => {
            let p = match size_blob_list(list) {
                Ok(p) => p,
                Err(e) => {
                    return Err(e);
                },
            };
            if p > usize::MAX - 1 - vs {
                return Err(Error::new_no_msg(ErrorKind::Custom));
            }
            Ok(1 + vs + p)
        },
        SectionArray::Object(list) => {
            let p = match size_body_list(list) {
                Ok(p) => p,
                Err(e) => {
                    return Err(e);
                },
            };
            if p > usize::MAX - 1 - vs {
                return Err(Error::new_no_msg(ErrorKind::Custom));
            }
            Ok(1 + vs + p)
        },
        _ => {
            let w: usize = match a {
                SectionArray::Int64(_) => 8,
                SectionArray::Int32(_) => 4,
                SectionArray::Int16(_) => 2,
                SectionArray::Int8(_) => 1,
                SectionArray::UInt64(_) => 8,
                SectionArray::UInt32(_) => 4,
                SectionArray::UInt16(_) => 2,
                SectionArray::UInt8(_) => 1,
                SectionArray::Double(_) => 8,
                _ => 1,
            };
            proof {
                crate::laws::lemma_enc_fixed_len(
                    spec_array_scalars(a@),
                    spec_code_width(spec_array_code(a@)),
                );
                assert(spec_array_scalars(a@).len() == n);
                assert(spec_code_width(spec_array_code(a@)) == w);
            }
            Ok(1 + vs + n * w)
        },
    }
}

/// Measures back-to-back string payloads.
fn size_blob_list(list: &Vec<Vec<u8>>) -> (r: Result<usize, Error>)
    ensures
        spec_counted(spec_enc_blobs(crate::section::spec_blobs_view(list@)), r),
{
    let ghost vl = crate::section::spec_blobs_view(list@);
    let mut total: usize = 0;
    let mut overflowed: bool = false;
    let mut i: usize = 0;
    proof {
        assert(vl.subrange(0, vl.len() as int) =~= vl);
    }
    while i < list.len()
        invariant
            i <= list@.len(),
            vl == crate::section::spec_blobs_view(list@),
            vl.len() == list@.len(),
            match spec_enc_blobs(vl.subrange(i as int, vl.len() as int)) {
                Ok(rest) => spec_enc_blobs(vl) is Ok && (if overflowed {
                    spec_enc_blobs(vl).unwrap().len() > usize::MAX
                } else {
                    total + rest.len() == spec_enc_blobs(vl).unwrap().len()
                }),
                Err(k) => spec_enc_blobs(vl) == Err::<Seq<u8>, ErrorKind>(k),
            },
        decreases list@.len() - i,
    {
        let ghost rem = vl.subrange(i as int, vl.len() as int);
        proof {
            assert(rem[0] == vl[i as int]);
            assert(rem.subrange(1, rem.len() as int) =~= vl.subrange(i + 1, vl.len() as int));
        }
        let n = match size_blob(&list[i]) {
            Ok(n) => n,
            Err(e) => {
                proof {
                    crate::varint::lemma_varint_bytes_len(vl[i as int].len() as u64);
                    assert(spec_enc_blob(vl[i as int]) == Err::<Seq<u8>, ErrorKind>(e.kind));
                    assert(spec_enc_blobs(rem) == Err::<Seq<u8>, ErrorKind>(e.kind));
                }
                return Err(e);
            },
        };
        if !overflowed {
            if n > usize::MAX - total {
                overflowed = true;
            } else {
                total = total + n;
            }
        }
        i = i + 1;
    }
    proof {
        assert(vl.subrange(vl.len() as int, vl.len() as int) =~= Seq::<Seq<u8>>::empty());
    }
    if overflowed {
        Err(Error::new_no_msg(ErrorKind::Custom))
    } else {
        Ok(total)
    }
}

/// Measures back-to-back section bodies.
fn size_body_list(list: &Vec<Section>) -> (r: Result<usize, Error>)
    ensures
        spec_counted(spec_enc_bodies(crate::section::spec_sections_view(list@)), r),
    decreases *list,
{
    let ghost vl = crate::section::spec_sections_view(list@);
    let mut total: usize = 0;
    let mut overflowed: bool = false;
    let mut i: usize = 0;
    proof {
        lemma_sections_view_len(list@);
        assert(vl.subrange(0, vl.len() as int) =~= vl);
    }
    while i < list.len()
        invariant
            i <= list@.len(),
            vl == crate::section::spec_sections_view(list@),
            vl.len() == list@.len(),
            match spec_enc_bodies(vl.subrange(i as int, vl.len() as int)) {
                Ok(rest) => spec_enc_bodies(vl) is Ok && (if overflowed {
                    spec_enc_bodies(vl).unwrap().len() > usize::MAX
                } else {
                    total + rest.len() == spec_enc_bodies(vl).unwrap().len()
                }),
                Err(k) => spec_enc_bodies(vl) == Err::<Seq<u8>, ErrorKind>(k),
            },
        decreases list@.len() - i,
    {
        let ghost rem = vl.subrange(i as int, vl.len() as int);
        proof {
            lemma_sections_view_index(list@, i as int);
            assert(rem[0] == vl[i as int]);
            assert(rem.subrange(1, rem.len() as int) =~= vl.subrange(i + 1, vl.len() as int));
            assert(decreases_to!(list@ => list@[i as int]));
            assert(decreases_to!(list@[i as int] => list@[i as int].fields));
        }
        let n = match size_body(&list[i].fields) {
            Ok(n) => n,
            Err(e) => {
                if matches!(e.kind, ErrorKind::Custom) {
                    proof {
                        crate::wire::lemma_enc_body_no_custom(vl[i as int]);
                    }
                    overflowed = true;
                    i = i + 1;
                    continue;
                }
                proof {
                    assert(spec_enc_body(vl[i as int]) == Err::<Seq<u8>, ErrorKind>(e.kind));
                    assert(spec_enc_bodies(rem) == Err::<Seq<u8>, ErrorKind>(e.kind));
                }
                return Err(e);
            },
        };
        if !overflowed {
            if n > usize::MAX - total {
                overflowed = true;
            } else {
                total = total + n;
            }
        }
        i = i + 1;
    }
    proof {
        assert(vl.subrange(vl.len() as int, vl.len() as int) =~= Seq::<
            Seq<crate::section::FieldV>,
        >::empty());
    }
    if overflowed {
        Err(Error::new_no_msg(ErrorKind::Custom))
    } else {
        Ok(total)
    }
}

/// Measures a section body: varint count plus each key and entry.
#[verifier::rlimit(100)]
#[verifier::spinoff_prover]
fn size_body(fields: &Vec<(Vec<u8>, SectionEntry)>) -> (r: Result<usize, Error>)
    ensures
        spec_counted(spec_enc_body(spec_fields_view(fields@)), r),
    decreases *fields,
{
    let ghost vf = spec_fields_view(fields@);
    proof {
        lemma_fields_view_len(fields@);
    }
    let n = fields.len();
    if n > 10000 {
        return Err(Error::new_no_msg(ErrorKind::TooManySectionFields));
    }
    let vs = varint_size(n as u64);
    let mut total: usize = vs;
    let mut overflowed: bool = false;
    let mut i: usize = 0;
    proof {
        assert(vf.subrange(0, vf.len() as int) =~= vf);
    }
    while i < n
        invariant
            i <= n,
            n == fields@.len(),
            n <= 10000,
            vf == spec_fields_view(fields@),
            vf.len() == n,
            vs == spec_varint_bytes(n as u64).len(),
            match spec_enc_fields(vf.subrange(i as int, vf.len() as int)) {
                Ok(rest) => spec_enc_fields(vf) is Ok && (if overflowed {
                    vs + spec_enc_fields(vf).unwrap().len() > usize::MAX
                } else {
                    total + rest.len() == vs + spec_enc_fields(vf).unwrap().len()
                }),
                Err(k) => spec_enc_fields(vf) == Err::<Seq<u8>, ErrorKind>(k),
            },
        decreases n - i,
    {
        let ghost rem = vf.subrange(i as int, vf.len() as int);
        proof {
            lemma_fields_view_index(fields@, i as int);
            assert(rem[0] == vf[i as int]);
            assert(rem.subrange(1, rem.len() as int) =~= vf.subrange(i + 1, vf.len() as int));
        }
        let klen = fields[i].0.len();
        if klen == 0 {
            return Err(Error::new_no_msg(ErrorKind::EmptySectionKey));
        }
        if klen > 255 {
            return Err(Error::new_no_msg(ErrorKind::KeyTooLong));
        }
        let es = match size_entry(&fields[i].1) {
            Ok(es) => es,
            Err(e) => {
                if matches!(e.kind, ErrorKind::Custom) {
                    proof {
                        crate::wire::lemma_enc_entry_no_custom(vf[i as int].entry);
                    }
                    overflowed = true;
                    i = i + 1;
                    continue;
                }
                proof {
                    assert(spec_enc_entry(vf[i as int].entry) == Err::<Seq<u8>, ErrorKind>(
                        e.kind,
                    ));
                    assert(spec_enc_fields(rem) == Err::<Seq<u8>, ErrorKind>(e.kind));
                }
                return Err(e);
            },
        };
        if !overflowed {
            if 1 + klen > usize::MAX - total {
                overflowed = true;
            } else {
                total = total + 1 + klen;
                if es > usize::MAX - total {
                    overflowed = true;
                } else {
                    total = total + es;
                }
            }
        }
        i = i + 1;
    }
    proof {
        assert(vf.subrange(vf.len() as int, vf.len() as int)
            =~= Seq::<crate::section::FieldV>::empty());
    }
    if overflowed {
        Err(Error::new_no_msg(ErrorKind::Custom))
    } else {
        Ok(total)
    }
}

/// Computes the byte count a value would encode to, without building the
/// stream: the counting second pass of the two-pass encoder.
pub fn serialized_size(value: &Section) -> (r: Result<usize, Error>)
    ensures
        match spec_enc_root(value@) {
            Ok(bs) => if bs.len() <= usize::MAX {
                r matches Ok(n) && n == bs.len()
            } else {
                r matches Err(e) && e.kind == ErrorKind::Custom
            },
            Err(k) => r matches Err(e) && e.kind == k,
        },
{
    let n = match size_body(&value.fields) {
        Ok(n) => n,
        Err(e) => {
            return Err(e);
        },
    };
    if n > usize::MAX - 9 {
        return Err(Error::new_no_msg(ErrorKind::Custom));
    }
    Ok(9 + n)
}

} // verus!
