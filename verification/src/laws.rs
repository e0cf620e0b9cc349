//! The format's laws, proved once and for all over the wire specification:
//! decoding inverts encoding, every encoded stream opens with the signature,
//! every section and array announces its exact element count, and no valid
//! key has length zero.

use vstd::prelude::*;
use crate::constants::spec_signature;
use crate::error::ErrorKind;
use crate::little_endian::{
    le_bytes, lemma_le_bytes_len, lemma_le_nat_of_le_bytes, lemma_pow256_values, pow256,
};
use crate::section::{ArrayV, EntryV, FieldV};
use crate::varint::{
    lemma_varint_bytes_len, lemma_parse_varint_at, spec_parse_varint,
    spec_varint_bytes, spec_varint_len, spec_varint_mask,
};
use crate::wire::{
    spec_array_code, spec_array_len, spec_array_of, spec_array_scalars, spec_code_width,
    spec_enc_array, spec_enc_blob, spec_enc_blobs, spec_enc_bodies, spec_enc_body, spec_enc_entry,
    spec_enc_fields, spec_enc_fixed, spec_enc_key, spec_enc_root, spec_encodable,
    spec_max_fields, spec_parse_blob, spec_parse_blobs, spec_parse_bodies,
    spec_parse_body, spec_parse_entry, spec_parse_fixed, spec_parse_key, spec_parse_pairs,
    spec_parse_root,
};

verus! {

/// A concatenation sitting inside a buffer splits into its two parts.
proof fn lemma_concat_extract(b: Seq<u8>, i: int, x: Seq<u8>, y: Seq<u8>)
    requires
        0 <= i,
        i + x.len() + y.len() <= b.len(),
        b.subrange(i, i + x.len() + y.len()) == x + y,
    ensures
        b.subrange(i, i + x.len()) == x,
        b.subrange(i + x.len(), i + x.len() + y.len()) == y,
{
    let whole = b.subrange(i, i + x.len() + y.len());
    assert(b.subrange(i, i + x.len()) =~= x) by {
        assert forall|k: int| 0 <= k < x.len() implies b.subrange(i, i + x.len())[k] == x[k] by {
            assert(whole[k] == (x + y)[k]);
        };
    };
    assert(b.subrange(i + x.len(), i + x.len() + y.len()) =~= y) by {
        assert forall|k: int| 0 <= k < y.len() implies b.subrange(
            i + x.len(),
            i + x.len() + y.len(),
        )[k] == y[k] by {
            assert(whole[x.len() + k] == (x + y)[x.len() + k]);
        };
    };
}

/// A varint sitting inside a buffer parses back to its value.
proof fn lemma_rt_varint(b: Seq<u8>, i: int, v: u64)
    requires
        v <= crate::varint::MAX_VARINT_VAL,
        0 <= i,
        i + spec_varint_len(v) <= b.len(),
        b.subrange(i, i + spec_varint_len(v)) == spec_varint_bytes(v),
    ensures
        spec_parse_varint(b, i) == Ok::<(u64, int), ErrorKind>((v, i + spec_varint_len(v))),
{
    lemma_parse_varint_at(b, i, v, spec_varint_mask(v));
}

/// Fixed-width payloads occupy width times count bytes.
pub proof fn lemma_enc_fixed_len(xs: Seq<u64>, w: nat)
    ensures
        spec_enc_fixed(xs, w).len() == w * xs.len(),
    decreases xs.len(),
{
    if xs.len() == 0 {
        assert(w * 0 == 0) by (nonlinear_arith);
    } else {
        let t = xs.subrange(1, xs.len() as int);
        lemma_enc_fixed_len(t, w);
        lemma_le_bytes_len(xs[0] as nat, w);
        assert(w + w * t.len() == w * xs.len()) by (nonlinear_arith)
            requires
                t.len() == xs.len() - 1,
        ;
    }
}

/// Fixed-width payloads sitting inside a buffer parse back to their words.
proof fn lemma_rt_fixed(b: Seq<u8>, i: int, xs: Seq<u64>, w: nat)
    requires
        1 <= w <= 8,
        forall|k: int| 0 <= k < xs.len() ==> xs[k] < pow256(w),
        xs.len() <= 10000,
        0 <= i,
        i + spec_enc_fixed(xs, w).len() <= b.len(),
        b.subrange(i, i + spec_enc_fixed(xs, w).len()) == spec_enc_fixed(xs, w),
    ensures
        spec_parse_fixed(b, i, xs.len() as u64, w) == Ok::<(Seq<u64>, int), ErrorKind>(
            (xs, i + spec_enc_fixed(xs, w).len()),
        ),
    decreases xs.len(),
{
    lemma_enc_fixed_len(xs, w);
    if xs.len() == 0 {
        assert(xs =~= Seq::<u64>::empty());
    } else {
        let t = xs.subrange(1, xs.len() as int);
        let head = le_bytes(xs[0] as nat, w);
        let rest = spec_enc_fixed(t, w);
        lemma_le_bytes_len(xs[0] as nat, w);
        lemma_enc_fixed_len(t, w);
        lemma_concat_extract(b, i, head, rest);
        assert(le_nat_of(b, i, w) == xs[0]) by {
            lemma_le_nat_of_le_bytes(xs[0] as nat, w);
        };
        lemma_rt_fixed(b, i + w, t, w);
        assert(seq![xs[0]] + t =~= xs);
        lemma_pow256_values();
    }
}

/// The word a buffer holds at `i` over `w` bytes; a shorthand for proofs.
spec fn le_nat_of(b: Seq<u8>, i: int, w: nat) -> nat {
    crate::little_endian::le_nat(b.subrange(i, i + w))
}

/// A key sitting inside a buffer parses back to itself.
proof fn lemma_rt_key(b: Seq<u8>, i: int, k: Seq<u8>)
    requires
        spec_enc_key(k) is Ok,
        0 <= i,
        i + spec_enc_key(k).unwrap().len() <= b.len(),
        b.subrange(i, i + spec_enc_key(k).unwrap().len()) == spec_enc_key(k).unwrap(),
    ensures
        spec_parse_key(b, i) == Ok::<(Seq<u8>, int), ErrorKind>(
            (k, i + spec_enc_key(k).unwrap().len()),
        ),
{
    let kb = spec_enc_key(k).unwrap();
    lemma_concat_extract(b, i, seq![k.len() as u8], k);
    assert(b[i] == k.len() as u8) by {
        assert(b.subrange(i, i + 1)[0] == b[i]);
    };
}

/// A string/blob payload sitting inside a buffer parses back to itself.
proof fn lemma_rt_blob(b: Seq<u8>, i: int, s: Seq<u8>)
    requires
        spec_enc_blob(s) is Ok,
        0 <= i,
        i + spec_enc_blob(s).unwrap().len() <= b.len(),
        b.subrange(i, i + spec_enc_blob(s).unwrap().len()) == spec_enc_blob(s).unwrap(),
    ensures
        spec_parse_blob(b, i) == Ok::<(Seq<u8>, int), ErrorKind>(
            (s, i + spec_enc_blob(s).unwrap().len()),
        ),
{
    let vb = spec_varint_bytes(s.len() as u64);
    lemma_varint_bytes_len(s.len() as u64);
    lemma_concat_extract(b, i, vb, s);
    lemma_rt_varint(b, i, s.len() as u64);
}

/// Back-to-back string payloads sitting inside a buffer parse back.
proof fn lemma_rt_blobs(b: Seq<u8>, i: int, list: Seq<Seq<u8>>)
    requires
        spec_enc_blobs(list) is Ok,
        list.len() <= 10000,
        0 <= i,
        i + spec_enc_blobs(list).unwrap().len() <= b.len(),
        b.subrange(i, i + spec_enc_blobs(list).unwrap().len()) == spec_enc_blobs(list).unwrap(),
    ensures
        spec_parse_blobs(b, i, list.len() as u64) == Ok::<(Seq<Seq<u8>>, int), ErrorKind>(
            (list, i + spec_enc_blobs(list).unwrap().len()),
        ),
    decreases list.len(),
{
    if list.len() == 0 {
        assert(list =~= Seq::<Seq<u8>>::empty());
    } else {
        let t = list.subrange(1, list.len() as int);
        let b0 = spec_enc_blob(list[0]).unwrap();
        let rest = spec_enc_blobs(t).unwrap();
        lemma_concat_extract(b, i, b0, rest);
        lemma_rt_blob(b, i, list[0]);
        lemma_rt_blobs(b, i + b0.len(), t);
        assert(seq![list[0]] + t =~= list);
    }
}

/// Words taken from a fixed-width array all fit its payload width, and
/// rebuilding the array from them yields the array itself.
proof fn lemma_array_words(a: ArrayV)
    requires
        !(a matches ArrayV::Blob(_)),
        !(a matches ArrayV::Object(_)),
    ensures
        1 <= spec_code_width(spec_array_code(a)) <= 8,
        spec_array_scalars(a).len() == spec_array_len(a),
        forall|k: int| 0 <= k < spec_array_scalars(a).len() ==> spec_array_scalars(a)[k]
            < pow256(spec_code_width(spec_array_code(a))),
        spec_array_of(spec_array_code(a), spec_array_scalars(a)) == a,
{
    lemma_pow256_values();
    let code = spec_array_code(a);
    let w = spec_code_width(code);
    let xs = spec_array_scalars(a);
    match a {
        ArrayV::Int64(s) => {
            assert forall|k: int| 0 <= k < s.len() implies xs.map_values(|x: u64| x as i64)[k]
                == s[k] by {
                let v = s[k];
                assert(xs[k] == v as u64);
                assert(v as u64 as i64 == v) by (bit_vector);
            };
            assert(xs.map_values(|x: u64| x as i64) =~= s);
        },
        ArrayV::Int32(s) => {
            assert forall|k: int| 0 <= k < s.len() implies xs.map_values(
                |x: u64| (x as u32) as i32,
            )[k] == s[k] by {
                let v = s[k];
                assert(xs[k] == (v as u32) as u64);
                assert(((v as u32) as u64 as u32) as i32 == v) by (bit_vector);
            };
            assert(xs.map_values(|x: u64| (x as u32) as i32) =~= s);
        },
        ArrayV::Int16(s) => {
            assert forall|k: int| 0 <= k < s.len() implies xs.map_values(
                |x: u64| (x as u16) as i16,
            )[k] == s[k] by {
                let v = s[k];
                assert(xs[k] == (v as u16) as u64);
                assert(((v as u16) as u64 as u16) as i16 == v) by (bit_vector);
            };
            assert(xs.map_values(|x: u64| (x as u16) as i16) =~= s);
        },
        ArrayV::Int8(s) => {
            assert forall|k: int| 0 <= k < s.len() implies xs.map_values(
                |x: u64| (x as u8) as i8,
            )[k] == s[k] by {
                let v = s[k];
                assert(xs[k] == (v as u8) as u64);
                assert(((v as u8) as u64 as u8) as i8 == v) by (bit_vector);
            };
            assert(xs.map_values(|x: u64| (x as u8) as i8) =~= s);
        },
        ArrayV::UInt64(s) => {
        },
        ArrayV::UInt32(s) => {
            assert(xs.map_values(|x: u64| x as u32) =~= s);
        },
        ArrayV::UInt16(s) => {
            assert(xs.map_values(|x: u64| x as u16) =~= s);
        },
        ArrayV::UInt8(s) => {
            assert(xs.map_values(|x: u64| x as u8) =~= s);
        },
        ArrayV::Double(s) => {
        },
        ArrayV::Bool(s) => {
            assert(xs.map_values(|x: u64| x != 0) =~= s);
        },
        ArrayV::Blob(_) => {
        },
        ArrayV::Object(_) => {
        },
    }
}

/// An encoded entry sitting inside a buffer parses back to the entry, and
/// the parser stops exactly past it.
#[verifier::rlimit(100)]
#[verifier::spinoff_prover]
pub proof fn lemma_rt_entry(b: Seq<u8>, i: int, e: EntryV)
    requires
        spec_enc_entry(e) is Ok,
        0 <= i,
        i + spec_enc_entry(e).unwrap().len() <= b.len(),
        b.subrange(i, i + spec_enc_entry(e).unwrap().len()) == spec_enc_entry(e).unwrap(),
    ensures
        spec_parse_entry(b, i) == Ok::<(EntryV, int), ErrorKind>(
            (e, i + spec_enc_entry(e).unwrap().len()),
        ),
    decreases e, 0int,
{
    let bs = spec_enc_entry(e).unwrap();
    lemma_pow256_values();
    match e {
        EntryV::Int64(x) => {
            lemma_le_bytes_len((x as u64) as nat, 8);
            lemma_rt_scalar_fixed(b, i, 1, (x as u64), 8);
            assert(x as u64 as i64 == x) by (bit_vector);
        },
        EntryV::Int32(x) => {
            lemma_le_bytes_len((x as u32) as nat, 4);
            lemma_rt_scalar_fixed(b, i, 2, ((x as u32) as u64), 4);
            assert(((x as u32) as u64 as u32) as i32 == x) by (bit_vector);
        },
        EntryV::Int16(x) => {
            lemma_le_bytes_len((x as u16) as nat, 2);
            lemma_rt_scalar_fixed(b, i, 3, ((x as u16) as u64), 2);
            assert(((x as u16) as u64 as u16) as i16 == x) by (bit_vector);
        },
        EntryV::Int8(x) => {
            lemma_le_bytes_len((x as u8) as nat, 1);
            lemma_rt_scalar_fixed(b, i, 4, ((x as u8) as u64), 1);
            assert(((x as u8) as u64 as u8) as i8 == x) by (bit_vector);
        },
        EntryV::UInt64(x) => {
            lemma_le_bytes_len(x as nat, 8);
            lemma_rt_scalar_fixed(b, i, 5, x, 8);
        },
        EntryV::UInt32(x) => {
            lemma_le_bytes_len(x as nat, 4);
            lemma_rt_scalar_fixed(b, i, 6, (x as u64), 4);
        },
        EntryV::UInt16(x) => {
            lemma_le_bytes_len(x as nat, 2);
            lemma_rt_scalar_fixed(b, i, 7, (x as u64), 2);
        },
        EntryV::UInt8(x) => {
            lemma_le_bytes_len(x as nat, 1);
            lemma_rt_scalar_fixed(b, i, 8, (x as u64), 1);
        },
        EntryV::Double(bits) => {
            lemma_le_bytes_len(bits as nat, 8);
            lemma_rt_scalar_fixed(b, i, 9, bits, 8);
        },
        EntryV::Blob(s) => {
            let p = spec_enc_blob(s).unwrap();
            lemma_concat_extract(b, i, seq![10u8], p);
            assert(b[i] == 10u8) by {
                assert(b.subrange(i, i + 1)[0] == b[i]);
            };
            lemma_rt_blob(b, i + 1, s);
        },
        EntryV::Bool(x) => {
            assert(b[i] == 11u8) by {
                assert(b.subrange(i, i + bs.len())[0] == b[i]);
            };
            assert(b[i + 1] == (if x { 1u8 } else { 0u8 })) by {
                assert(b.subrange(i, i + bs.len())[1] == b[i + 1]);
            };
            assert(le_nat_of(b, i + 1, 1) == (if x { 1nat } else { 0nat })) by {
                reveal_with_fuel(crate::little_endian::le_nat, 2);
                assert(b.subrange(i + 1, i + 2)[0] == b[i + 1]);
                assert(b.subrange(i + 1, i + 2).subrange(1, 1) =~= Seq::<u8>::empty());
            };
        },
        EntryV::Object(fs) => {
            let p = spec_enc_body(fs).unwrap();
            lemma_concat_extract(b, i, seq![12u8], p);
            assert(b[i] == 12u8) by {
                assert(b.subrange(i, i + 1)[0] == b[i]);
            };
            lemma_rt_body(b, i + 1, fs);
        },
        EntryV::Array(a) => {
            lemma_rt_array(b, i, a);
        },
    }
}

/// A fixed-width scalar entry's tag and payload parse back.
proof fn lemma_rt_scalar_fixed(b: Seq<u8>, i: int, code: u8, x: u64, w: nat)
    requires
        1 <= code <= 12,
        code != 10,
        code != 12,
        w == spec_code_width(code),
        x < pow256(w),
        0 <= i,
        i + 1 + w <= b.len(),
        b.subrange(i, i + 1 + w) == seq![code] + le_bytes(x as nat, w),
    ensures
        spec_parse_entry(b, i) == Ok::<(EntryV, int), ErrorKind>(
            (crate::wire::spec_scalar_of(code, x), i + 1 + w),
        ),
{
    lemma_le_bytes_len(x as nat, w);
    lemma_concat_extract(b, i, seq![code], le_bytes(x as nat, w));
    assert(b[i] == code) by {
        assert(b.subrange(i, i + 1)[0] == b[i]);
    };
    assert(b[i] % 128 == code);
    assert(b[i] / 128 == 0);
    assert(le_nat_of(b, i + 1, w) == x) by {
        lemma_le_nat_of_le_bytes(x as nat, w);
    };
    lemma_pow256_values();
}

/// An encoded array entry parses back: the tag carries the array flag and
/// the element code, and the payload parses to the same elements.
proof fn lemma_rt_array(b: Seq<u8>, i: int, a: ArrayV)
    requires
        spec_enc_array(a) is Ok,
        0 <= i,
        i + spec_enc_array(a).unwrap().len() <= b.len(),
        b.subrange(i, i + spec_enc_array(a).unwrap().len()) == spec_enc_array(a).unwrap(),
    ensures
        spec_parse_entry(b, i) == Ok::<(EntryV, int), ErrorKind>(
            (EntryV::Array(a), i + spec_enc_array(a).unwrap().len()),
        ),
    decreases a, 0int,
{
    let bs = spec_enc_array(a).unwrap();
    let code = spec_array_code(a);
    let n = spec_array_len(a);
    let tag = (code + 0x80) as u8;
    let vb = spec_varint_bytes(n as u64);
    lemma_varint_bytes_len(n as u64);
    lemma_pow256_values();
    let payload: Seq<u8> = match a {
        ArrayV::Blob(list) => spec_enc_blobs(list).unwrap(),
        ArrayV::Object(list) => spec_enc_bodies(list).unwrap(),
        _ => spec_enc_fixed(spec_array_scalars(a), spec_code_width(code)),
    };
    assert(bs == seq![tag] + (vb + payload)) by {
        assert((seq![tag] + vb) + payload =~= seq![tag] + (vb + payload));
    };
    lemma_concat_extract(b, i, seq![tag], vb + payload);
    lemma_concat_extract(b, i + 1, vb, payload);
    assert(b[i] == tag) by {
        assert(b.subrange(i, i + 1)[0] == b[i]);
    };
    assert(tag % 128 == code && tag / 128 == 1);
    lemma_rt_varint(b, i + 1, n as u64);
    let j = i + 1 + spec_varint_len(n as u64);
    match a {
        ArrayV::Blob(list) => {
            lemma_rt_blobs(b, j, list);
        },
        ArrayV::Object(list) => {
            lemma_rt_bodies(b, j, list);
        },
        _ => {
            lemma_array_words(a);
            lemma_rt_fixed(b, j, spec_array_scalars(a), spec_code_width(code));
        },
    }
}

/// Back-to-back encoded section bodies parse back, element by element.
proof fn lemma_rt_bodies(b: Seq<u8>, i: int, list: Seq<Seq<FieldV>>)
    requires
        spec_enc_bodies(list) is Ok,
        list.len() <= 10000,
        0 <= i,
        i + spec_enc_bodies(list).unwrap().len() <= b.len(),
        b.subrange(i, i + spec_enc_bodies(list).unwrap().len()) == spec_enc_bodies(list).unwrap(),
    ensures
        spec_parse_bodies(b, i, list.len() as u64) == Ok::<(Seq<Seq<FieldV>>, int), ErrorKind>(
            (list, i + spec_enc_bodies(list).unwrap().len()),
        ),
    decreases list, 0int,
{
    if list.len() == 0 {
        assert(list =~= Seq::<Seq<FieldV>>::empty());
    } else {
        let t = list.subrange(1, list.len() as int);
        let b0 = spec_enc_body(list[0]).unwrap();
        let rest = spec_enc_bodies(t).unwrap();
        lemma_concat_extract(b, i, b0, rest);
        lemma_rt_body(b, i, list[0]);
        assert(b0.len() > 0) by {
            lemma_varint_bytes_len(list[0].len() as u64);
        };
        lemma_rt_bodies(b, i + b0.len(), t);
        assert(seq![list[0]] + t =~= list);
    }
}

/// An encoded section body parses back: the varint count equals the number
/// of pairs, and the pairs parse in order.
pub proof fn lemma_rt_body(b: Seq<u8>, i: int, fs: Seq<FieldV>)
    requires
        spec_enc_body(fs) is Ok,
        0 <= i,
        i + spec_enc_body(fs).unwrap().len() <= b.len(),
        b.subrange(i, i + spec_enc_body(fs).unwrap().len()) == spec_enc_body(fs).unwrap(),
    ensures
        spec_parse_body(b, i) == Ok::<(Seq<FieldV>, int), ErrorKind>(
            (fs, i + spec_enc_body(fs).unwrap().len()),
        ),
    decreases fs, 1int,
{
    let vb = spec_varint_bytes(fs.len() as u64);
    let pb = spec_enc_fields(fs).unwrap();
    lemma_varint_bytes_len(fs.len() as u64);
    lemma_concat_extract(b, i, vb, pb);
    lemma_rt_varint(b, i, fs.len() as u64);
    lemma_rt_fields(b, i + vb.len(), fs);
}

/// Encoded pairs parse back, pair by pair.
proof fn lemma_rt_fields(b: Seq<u8>, i: int, fs: Seq<FieldV>)
    requires
        spec_enc_fields(fs) is Ok,
        fs.len() <= 10000,
        0 <= i,
        i + spec_enc_fields(fs).unwrap().len() <= b.len(),
        b.subrange(i, i + spec_enc_fields(fs).unwrap().len()) == spec_enc_fields(fs).unwrap(),
    ensures
        spec_parse_pairs(b, i, fs.len() as u64) == Ok::<(Seq<FieldV>, int), ErrorKind>(
            (fs, i + spec_enc_fields(fs).unwrap().len()),
        ),
    decreases fs, 0int,
{
    if fs.len() == 0 {
        assert(fs =~= Seq::<FieldV>::empty());
    } else {
        let t = fs.subrange(1, fs.len() as int);
        let kb = spec_enc_key(fs[0].key).unwrap();
        let eb = spec_enc_entry(fs[0].entry).unwrap();
        let rest = spec_enc_fields(t).unwrap();
        assert(spec_enc_fields(fs).unwrap() == kb + (eb + rest)) by {
            assert(kb + eb + rest =~= kb + (eb + rest));
        };
        lemma_concat_extract(b, i, kb, eb + rest);
        lemma_concat_extract(b, i + kb.len(), eb, rest);
        lemma_rt_key(b, i, fs[0].key);
        lemma_rt_entry(b, i + kb.len(), fs[0].entry);
        let j2 = i + kb.len() + eb.len();
        lemma_rt_fields(b, j2, t);
        assert(seq![FieldV { key: fs[0].key, entry: fs[0].entry }] + t =~= fs);
    }
}

/// Round trip: decoding an encoded root value yields the value back, with
/// the parser stopped exactly at the stream's end.
pub proof fn lemma_decode_encode_roundtrip(fs: Seq<FieldV>)
    requires
        spec_encodable(fs),
    ensures
        spec_parse_root(spec_enc_root(fs).unwrap()) == Ok::<(Seq<FieldV>, int), ErrorKind>(
            (fs, spec_enc_root(fs).unwrap().len() as int),
        ),
{
    let bs = spec_enc_root(fs).unwrap();
    let body = spec_enc_body(fs).unwrap();
    assert(bs == spec_signature() + body);
    assert(bs.subrange(0, 9) =~= spec_signature());
    assert(bs.subrange(9, bs.len() as int) =~= body);
    lemma_rt_body(bs, 9, fs);
}

/// Every encoded root value begins with the 9-byte signature.
pub proof fn lemma_root_begins_with_signature(fs: Seq<FieldV>)
    requires
        spec_encodable(fs),
    ensures
        spec_enc_root(fs).unwrap().len() >= 9,
        spec_enc_root(fs).unwrap().subrange(0, 9) == spec_signature(),
{
    assert(spec_enc_root(fs).unwrap().subrange(0, 9) =~= spec_signature());
}

/// Every encoded section body begins with a varint equal to the exact
/// number of (key, entry) pairs that follow.
pub proof fn lemma_body_announces_count(fs: Seq<FieldV>)
    requires
        spec_enc_body(fs) is Ok,
    ensures
        fs.len() <= spec_max_fields(),
        spec_parse_varint(spec_enc_body(fs).unwrap(), 0) == Ok::<(u64, int), ErrorKind>(
            (fs.len() as u64, spec_varint_len(fs.len() as u64) as int),
        ),
{
    let bs = spec_enc_body(fs).unwrap();
    let vb = spec_varint_bytes(fs.len() as u64);
    let pb = spec_enc_fields(fs).unwrap();
    lemma_varint_bytes_len(fs.len() as u64);
    assert(bs.subrange(0, bs.len() as int) =~= bs);
    lemma_concat_extract(bs, 0, vb, pb);
    lemma_rt_varint(bs, 0, fs.len() as u64);
}

/// Every encoded array announces one scalar code for all its elements in
/// its tag byte, and its varint equals the exact element count.
pub proof fn lemma_array_announces_count(a: ArrayV)
    requires
        spec_enc_array(a) is Ok,
    ensures
        spec_array_len(a) <= spec_max_fields(),
        spec_enc_array(a).unwrap()[0] % 128 == spec_array_code(a),
        spec_enc_array(a).unwrap()[0] / 128 == 1,
        spec_parse_varint(spec_enc_array(a).unwrap(), 1) == Ok::<(u64, int), ErrorKind>(
            (spec_array_len(a) as u64, 1 + spec_varint_len(spec_array_len(a) as u64) as int),
        ),
{
    let bs = spec_enc_array(a).unwrap();
    let code = spec_array_code(a);
    let n = spec_array_len(a);
    let tag = (code + 0x80) as u8;
    let vb = spec_varint_bytes(n as u64);
    lemma_varint_bytes_len(n as u64);
    let payload: Seq<u8> = match a {
        ArrayV::Blob(list) => spec_enc_blobs(list).unwrap(),
        ArrayV::Object(list) => spec_enc_bodies(list).unwrap(),
        _ => spec_enc_fixed(spec_array_scalars(a), spec_code_width(code)),
    };
    assert(bs == seq![tag] + (vb + payload)) by {
        assert((seq![tag] + vb) + payload =~= seq![tag] + (vb + payload));
    };
    assert(bs.subrange(0, bs.len() as int) =~= bs);
    lemma_concat_extract(bs, 0, seq![tag], vb + payload);
    lemma_concat_extract(bs, 1, vb, payload);
    assert(bs[0] == tag) by {
        assert(bs.subrange(0, 1)[0] == bs[0]);
    };
    lemma_rt_varint(bs, 1, n as u64);
}

/// No key length byte is ever 0 in valid output: a key encodes exactly
/// when its length is 1 to 255, and its first wire byte is that length.
pub proof fn lemma_key_length_byte_nonzero(k: Seq<u8>)
    ensures
        spec_enc_key(k) is Ok <==> 1 <= k.len() <= 255,
        spec_enc_key(k) is Ok ==> spec_enc_key(k).unwrap()[0] == k.len() as u8
            && spec_enc_key(k).unwrap()[0] != 0,
{
    if 1 <= k.len() <= 255 {
        assert(spec_enc_key(k).unwrap()[0] == k.len() as u8);
    }
}

/// In an encodable section, every key has length 1 to 255: no key length
/// byte of 0 is ever written.
pub proof fn lemma_encodable_keys_nonempty(fs: Seq<FieldV>)
    requires
        spec_enc_fields(fs) is Ok,
    ensures
        forall|i: int| 0 <= i < fs.len() ==> 1 <= #[trigger] fs[i].key.len() <= 255,
    decreases fs.len(),
{
    if fs.len() > 0 {
        let t = fs.subrange(1, fs.len() as int);
        lemma_encodable_keys_nonempty(t);
        assert forall|i: int| 0 <= i < fs.len() implies 1 <= #[trigger] fs[i].key.len() <= 255 by {
            if i > 0 {
                assert(t[i - 1] == fs[i]);
            }
        };
    }
}

/// No key length byte is ever 0 in valid output, at any depth: an
/// encodable value has only keys of length 1 to 255, entry by entry.
pub proof fn lemma_rt_entry_keys_wf(e: EntryV)
    requires
        spec_enc_entry(e) is Ok,
    ensures
        crate::wire::spec_keys_wf_entry(e),
    decreases e, 0int,
{
    match e {
        EntryV::Object(fs) => {
            lemma_body_keys_wf(fs);
        },
        EntryV::Array(a) => {
            if let ArrayV::Object(list) = a {
                lemma_bodies_keys_wf(list);
            }
        },
        _ => {},
    }
}

/// No key length byte is ever 0 in valid output, at any depth: the
/// elements of an encodable array of objects have only valid keys.
proof fn lemma_bodies_keys_wf(list: Seq<Seq<FieldV>>)
    requires
        spec_enc_bodies(list) is Ok,
    ensures
        crate::wire::spec_keys_wf_bodies(list),
    decreases list, 1int,
{
    if list.len() > 0 {
        lemma_body_keys_wf(list[0]);
        lemma_bodies_keys_wf(list.subrange(1, list.len() as int));
    }
}

/// No key length byte is ever 0 in valid output, at any depth: an
/// encodable section body has only valid keys.
pub proof fn lemma_body_keys_wf(fs: Seq<FieldV>)
    requires
        spec_enc_body(fs) is Ok,
    ensures
        crate::wire::spec_keys_wf_fields(fs),
    decreases fs, 2int,
{
    lemma_fields_keys_wf(fs);
}

/// No key length byte is ever 0 in valid output, at any depth: an
/// encodable pair sequence has only valid keys.
proof fn lemma_fields_keys_wf(fs: Seq<FieldV>)
    requires
        spec_enc_fields(fs) is Ok,
    ensures
        crate::wire::spec_keys_wf_fields(fs),
    decreases fs, 1int,
{
    if fs.len() > 0 {
        lemma_rt_entry_keys_wf(fs[0].entry);
        lemma_fields_keys_wf(fs.subrange(1, fs.len() as int));
    }
}

} // verus!
