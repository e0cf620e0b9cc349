//! The 2-bit-discriminated variable-length integer that carries every length
//! in the format.  A value in `[0, 2^62 - 1]` is shifted left by two bits,
//! the low two bits hold a size discriminant, and the result is laid down
//! little-endian over 1, 2, 4 or 8 bytes.

use vstd::prelude::*;
use vstd::arithmetic::div_mod::{
    lemma_fundamental_div_mod, lemma_fundamental_div_mod_converse_div, lemma_mod_multiples_vanish,
    lemma_small_mod,
};
use crate::error::{Error, ErrorKind};
use crate::little_endian::{
    le_bytes, le_nat, lemma_le_bytes_len, lemma_le_nat_bound, lemma_le_nat_of_le_bytes,
    lemma_pow256_values, pow256, push_le, read_le,
};

verus! {

/// Largest value representable in a single encoded byte.
pub const MAX_BYTE_VAL: u64 = 63;

/// Largest value representable in two encoded bytes.
pub const MAX_WORD_VAL: u64 = 16383;

/// Largest value representable in four encoded bytes.
pub const MAX_DWORD_VAL: u64 = 1073741823;

/// Largest value representable in eight encoded bytes.
pub const MAX_QWORD_VAL: u64 = 4611686018427387903;

/// Largest value a varint can carry: 2^62 - 1.
pub const MAX_VARINT_VAL: u64 = 4611686018427387903;

/// Number of bytes announced by the discriminant `m`.
pub open spec fn spec_mask_width(m: u8) -> nat {
    if m == 0 {
        1
    } else if m == 1 {
        2
    } else if m == 2 {
        4
    } else {
        8
    }
}

/// Largest value the width announced by `m` can carry.
pub open spec fn spec_mask_max(m: u8) -> u64 {
    if m == 0 {
        MAX_BYTE_VAL
    } else if m == 1 {
        MAX_WORD_VAL
    } else if m == 2 {
        MAX_DWORD_VAL
    } else {
        MAX_QWORD_VAL
    }
}

/// The discriminant the encoder picks for `v`: the least one that fits.
pub open spec fn spec_varint_mask(v: u64) -> u8 {
    if v <= MAX_BYTE_VAL {
        0
    } else if v <= MAX_WORD_VAL {
        1
    } else if v <= MAX_DWORD_VAL {
        2
    } else {
        3
    }
}

/// Number of bytes the canonical encoding of `v` occupies.
pub open spec fn spec_varint_len(v: u64) -> nat {
    spec_mask_width(spec_varint_mask(v))
}

/// The canonical encoding of `v`: `(v << 2) | mask`, little-endian over the
/// announced width.
pub open spec fn spec_varint_bytes(v: u64) -> Seq<u8> {
    le_bytes(4 * (v as nat) + spec_varint_mask(v) as nat, spec_varint_len(v))
}

/// What reading a varint at position `i` of `b` yields: the decoder accepts
/// any discriminant, even a non-minimal one, and fails only when the bytes
/// run out.
pub open spec fn spec_parse_varint(b: Seq<u8>, i: int) -> Result<(u64, int), ErrorKind> {
    if i < 0 || i >= b.len() {
        Err(ErrorKind::IOError)
    } else {
        let w = spec_mask_width(b[i] % 4);
        if i + w > b.len() {
            Err(ErrorKind::IOError)
        } else {
            Ok(((le_nat(b.subrange(i, i + w)) / 4) as u64, i + w))
        }
    }
}

/// A 64-bit unsigned value known to fit in the 62 bits a varint can carry.
#[derive(Debug, Clone, Copy)]
pub struct VarInt {
    value: u64,
}

impl VarInt {
    #[verifier::type_invariant]
    spec fn type_inv(self) -> bool {
        self.value <= MAX_VARINT_VAL
    }

    /// The carried value.
    pub closed spec fn spec_value(self) -> u64 {
        self.value
    }

    /// Returns the carried value.
    pub fn value(&self) -> (r: u64)
        ensures
            r == self.spec_value(),
            r <= MAX_VARINT_VAL,
    {
        proof {
            use_type_invariant(self);
        }
        self.value
    }

    /// Admits a `u64`; values over `MAX_VARINT_VAL` cannot be represented.
    pub fn try_from_u64(value: u64) -> (r: Result<Self, Error>)
        ensures
            value <= MAX_VARINT_VAL ==> (r matches Ok(v) && v.spec_value() == value),
            value > MAX_VARINT_VAL ==> (r matches Err(e) && e.kind == ErrorKind::VarIntTooBig),
    {
        if value <= MAX_VARINT_VAL {
            Ok(Self { value })
        } else {
            Err(Error::new_no_msg(ErrorKind::VarIntTooBig))
        }
    }

    /// Admits a `usize`; values over `MAX_VARINT_VAL` cannot be represented.
    pub fn try_from_usize(value: usize) -> (r: Result<Self, Error>)
        ensures
            value <= MAX_VARINT_VAL ==> (r matches Ok(v) && v.spec_value() == value),
            value > MAX_VARINT_VAL ==> (r matches Err(e) && e.kind == ErrorKind::VarIntTooBig),
    {
        Self::try_from_u64(value as u64)
    }

    /// Every `u32` fits in a varint.
    pub fn from_u32(value: u32) -> (r: Self)
        ensures
            r.spec_value() == value,
    {
        Self { value: value as u64 }
    }

    /// Narrows the carried value to a `usize`.
    pub fn try_to_usize(&self) -> (r: Result<usize, Error>)
        ensures
            self.spec_value() <= usize::MAX ==> (r matches Ok(v) && v == self.spec_value()),
            self.spec_value() > usize::MAX ==> (r matches Err(e) && e.kind == ErrorKind::VarIntTooBig),
    {
        if self.value <= usize::MAX as u64 {
            Ok(self.value as usize)
        } else {
            Err(Error::new_no_msg(ErrorKind::VarIntTooBig))
        }
    }

    /// Appends the canonical encoding of the carried value to `out`.
    pub fn to_writer(&self, out: &mut Vec<u8>) -> (r: Result<(), Error>)
        ensures
            r.is_ok(),
            final(out)@ == old(out)@ + spec_varint_bytes(self.spec_value()),
    {
        proof {
            use_type_invariant(self);
        }
        let (var_mask, byte_size): (u64, usize) = if self.value <= MAX_BYTE_VAL {
            (0, 1)
        } else if self.value <= MAX_WORD_VAL {
            (1, 2)
        } else if self.value <= MAX_DWORD_VAL {
            (2, 4)
        } else {
            (3, 8)
        };
        let encoded: u64 = self.value * 4 + var_mask;
        push_le(out, encoded, byte_size);
        proof {
            assert(encoded as nat == 4 * (self.value as nat) + spec_varint_mask(self.value) as nat);
        }
        Ok(())
    }

    /// Reads one varint from `input` at `*pos`, accepting any discriminant,
    /// and advances `*pos` past it.
    pub fn from_reader(input: &[u8], pos: &mut usize) -> (r: Result<Self, Error>)
        ensures
            match spec_parse_varint(input@, *old(pos) as int) {
                Ok((v, j)) => r matches Ok(vi) && vi.spec_value() == v && *final(pos) == j,
                Err(k) => r matches Err(e) && e.kind == k && *final(pos) == *old(pos),
            },
            *final(pos) >= *old(pos),
    {
        let p = *pos;
        if p >= input.len() {
            return Err(Error::new_no_msg(ErrorKind::IOError));
        }
        let var_mask = input[p] % 4;
        let byte_size: usize = if var_mask == 0 {
            1
        } else if var_mask == 1 {
            2
        } else if var_mask == 2 {
            4
        } else {
            8
        };
        if byte_size > input.len() - p {
            return Err(Error::new_no_msg(ErrorKind::IOError));
        }
        let raw = read_le(input, p, byte_size);
        let value = raw / 4;
        *pos = p + byte_size;
        proof {
            lemma_le_nat_bound(input@.subrange(p as int, (p + byte_size) as int));
            lemma_pow256_values();
            assert(value <= MAX_VARINT_VAL) by {
                vstd::arithmetic::div_mod::lemma_multiply_divide_lt(
                    raw as int,
                    0x4000000000000000,
                    4,
                );
            };
        }
        Ok(Self { value })
    }
}

/// The canonical encoding of `v` occupies `spec_varint_len(v)` bytes.
pub proof fn lemma_varint_bytes_len(v: u64)
    ensures
        spec_varint_bytes(v).len() == spec_varint_len(v),
        1 <= spec_varint_len(v) <= 8,
{
    lemma_le_bytes_len(4 * (v as nat) + spec_varint_mask(v) as nat, spec_varint_len(v));
}

/// Parsing bytes laid down as `(v << 2) | m` over the width announced by any
/// admissible discriminant `m` yields `v` and stops right past them.
pub proof fn lemma_parse_varint_at(b: Seq<u8>, i: int, v: u64, m: u8)
    requires
        0 <= i,
        m <= 3,
        v <= spec_mask_max(m),
        i + spec_mask_width(m) <= b.len(),
        b.subrange(i, i + spec_mask_width(m)) == le_bytes(
            4 * (v as nat) + m as nat,
            spec_mask_width(m),
        ),
    ensures
        spec_parse_varint(b, i) == Ok::<(u64, int), ErrorKind>((v, i + spec_mask_width(m))),
{
    let enc: nat = 4 * (v as nat) + m as nat;
    let w = spec_mask_width(m);
    let sub = b.subrange(i, i + w);
    lemma_pow256_values();
    assert(enc < pow256(w));
    lemma_le_bytes_len(enc, w);
    assert(b[i] == sub[0]);
    assert(sub[0] == (enc % 256) as u8);
    assert(b[i] % 4 == m) by {
        assert(enc % 256 == enc - 256 * (enc / 256)) by {
            lemma_fundamental_div_mod(enc as int, 256);
        };
        assert((enc % 256) % 4 == enc % 4) by {
            lemma_mod_multiples_vanish(-64 * (enc as int / 256), enc as int, 4);
            assert(4 * (-64 * (enc as int / 256)) + enc == enc - 256 * (enc as int / 256));
        };
        assert(enc % 4 == m) by {
            lemma_mod_multiples_vanish(v as int, m as int, 4);
            lemma_small_mod(m as nat, 4);
        };
    };
    assert(le_nat(sub) == enc) by {
        lemma_le_nat_of_le_bytes(enc, w);
    };
    assert(enc / 4 == v as nat) by {
        lemma_fundamental_div_mod_converse_div(enc as int, 4, v as int, m as int);
    };
}

/// Round trip: a varint written at the end of `prefix` is read back as the
/// same value, whatever follows it.
pub proof fn lemma_varint_roundtrip(prefix: Seq<u8>, v: u64, suffix: Seq<u8>)
    requires
        v <= MAX_VARINT_VAL,
    ensures
        spec_parse_varint(prefix + spec_varint_bytes(v) + suffix, prefix.len() as int)
            == Ok::<(u64, int), ErrorKind>((v, prefix.len() + spec_varint_len(v) as int)),
{
    let b = prefix + spec_varint_bytes(v) + suffix;
    let i = prefix.len() as int;
    let m = spec_varint_mask(v);
    lemma_varint_bytes_len(v);
    assert(b.subrange(i, i + spec_mask_width(m)) =~= le_bytes(
        4 * (v as nat) + m as nat,
        spec_mask_width(m),
    ));
    lemma_parse_varint_at(b, i, v, m);
}

/// Canonicalization: the encoder picks the least admissible discriminant,
/// and every admissible discriminant decodes to the same value.
pub proof fn lemma_varint_canonical(v: u64, m: u8)
    requires
        v <= MAX_VARINT_VAL,
    ensures
        v <= spec_mask_max(spec_varint_mask(v)),
        forall|m2: u8| m2 < spec_varint_mask(v) ==> v > spec_mask_max(m2),
        m <= 3 && v <= spec_mask_max(m) ==> spec_parse_varint(
            le_bytes(4 * (v as nat) + m as nat, spec_mask_width(m)),
            0,
        ) == Ok::<(u64, int), ErrorKind>((v, spec_mask_width(m) as int)),
{
    if m <= 3 && v <= spec_mask_max(m) {
        let enc = le_bytes(4 * (v as nat) + m as nat, spec_mask_width(m));
        lemma_le_bytes_len(4 * (v as nat) + m as nat, spec_mask_width(m));
        assert(enc.subrange(0, spec_mask_width(m) as int) =~= enc);
        lemma_parse_varint_at(enc, 0, v, m);
    }
}

} // verus!
