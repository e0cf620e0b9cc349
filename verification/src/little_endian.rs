//! Little-endian byte strings of unsigned integers, the base layer of the
//! wire format: every multi-byte number and every varint is laid down least
//! significant byte first.

use vstd::prelude::*;
use vstd::arithmetic::div_mod::{lemma_div_denominator, lemma_fundamental_div_mod};
use vstd::arithmetic::mul::lemma_mul_inequality;

verus! {

/// 256 raised to the power `n`: the number of byte strings of length `n`.
pub open spec fn pow256(n: nat) -> nat
    decreases n,
{
    if n == 0 {
        1
    } else {
        256 * pow256((n - 1) as nat)
    }
}

/// The low `n` bytes of `x`, least significant first.
pub open spec fn le_bytes(x: nat, n: nat) -> Seq<u8>
    decreases n,
{
    if n == 0 {
        Seq::empty()
    } else {
        seq![(x % 256) as u8] + le_bytes(x / 256, (n - 1) as nat)
    }
}

/// The number a byte string denotes when read least significant byte first.
pub open spec fn le_nat(s: Seq<u8>) -> nat
    decreases s.len(),
{
    if s.len() == 0 {
        0nat
    } else {
        (s[0] + 256 * le_nat(s.subrange(1, s.len() as int))) as nat
    }
}

pub proof fn lemma_pow256_values()
    ensures
        pow256(0) == 1,
        pow256(1) == 0x100,
        pow256(2) == 0x10000,
        pow256(3) == 0x1000000,
        pow256(4) == 0x100000000,
        pow256(5) == 0x10000000000,
        pow256(6) == 0x1000000000000,
        pow256(7) == 0x100000000000000,
        pow256(8) == 0x10000000000000000,
{
    reveal_with_fuel(pow256, 9);
}

pub proof fn lemma_pow256_positive(n: nat)
    ensures
        pow256(n) >= 1,
    decreases n,
{
    if n > 0 {
        lemma_pow256_positive((n - 1) as nat);
    }
}

pub proof fn lemma_le_bytes_len(x: nat, n: nat)
    ensures
        le_bytes(x, n).len() == n,
    decreases n,
{
    if n > 0 {
        lemma_le_bytes_len(x / 256, (n - 1) as nat);
    }
}

/// Every little-endian string has the length that was asked for.
pub proof fn lemma_le_bytes_len_auto()
    ensures
        forall|x: nat, n: nat| (#[trigger] le_bytes(x, n)).len() == n,
{
    assert forall|x: nat, n: nat| (#[trigger] le_bytes(x, n)).len() == n by {
        lemma_le_bytes_len(x, n);
    };
}

/// Reading back the low `n` bytes of `x` yields `x` itself whenever `x`
/// fits in `n` bytes.
pub proof fn lemma_le_nat_of_le_bytes(x: nat, n: nat)
    requires
        x < pow256(n),
    ensures
        le_nat(le_bytes(x, n)) == x,
    decreases n,
{
    if n == 0 {
    } else {
        let q = x / 256;
        let m = (n - 1) as nat;
        assert(x == 256 * q + x % 256) by {
            lemma_fundamental_div_mod(x as int, 256);
        };
        assert(q < pow256(m)) by {
            if q >= pow256(m) {
                assert(256 * q >= 256 * pow256(m)) by {
                    lemma_mul_inequality(pow256(m) as int, q as int, 256);
                };
            }
        };
        lemma_le_nat_of_le_bytes(q, m);
        let s = le_bytes(x, n);
        lemma_le_bytes_len(x, n);
        assert(s.subrange(1, s.len() as int) =~= le_bytes(q, m));
    }
}

/// A byte string of length `n` denotes a number below `pow256(n)`.
pub proof fn lemma_le_nat_bound(s: Seq<u8>)
    ensures
        le_nat(s) < pow256(s.len()),
    decreases s.len(),
{
    if s.len() == 0 {
    } else {
        let t = s.subrange(1, s.len() as int);
        lemma_le_nat_bound(t);
        assert(256 * le_nat(t) + 255 < 256 * pow256(t.len())) by {
            lemma_mul_inequality(le_nat(t) as int + 1, pow256(t.len()) as int, 256);
        };
    }
}

/// The next byte of a little-endian string extends it at the high end.
pub proof fn lemma_le_bytes_snoc(x: nat, n: nat)
    ensures
        le_bytes(x, n + 1) == le_bytes(x, n).push(((x / pow256(n)) % 256) as u8),
    decreases n,
{
    if n == 0 {
        reveal_with_fuel(le_bytes, 3);
        vstd::arithmetic::div_mod::lemma_div_basics(x as int);
        assert(le_bytes(x, 1) =~= le_bytes(x, 0).push((x % 256) as u8));
    } else {
        let q = x / 256;
        lemma_le_bytes_snoc(q, (n - 1) as nat);
        assert(q / pow256((n - 1) as nat) == x / pow256(n)) by {
            lemma_pow256_positive((n - 1) as nat);
            lemma_div_denominator(x as int, 256, pow256((n - 1) as nat) as int);
        };
        assert(le_bytes(x, n + 1) =~= le_bytes(x, n).push(((x / pow256(n)) % 256) as u8));
    }
}

/// Appends the `n`-byte little-endian string of `x` to `out`.
pub fn push_le(out: &mut Vec<u8>, x: u64, n: usize)
    requires
        n <= 8,
    ensures
        final(out)@ == old(out)@ + le_bytes(x as nat, n as nat),
{
    let ghost start = out@;
    let mut cur: u64 = x;
    let mut i: usize = 0;
    proof {
        assert(out@ =~= start + le_bytes(x as nat, 0));
        vstd::arithmetic::div_mod::lemma_div_basics(x as int);
        assert((x as nat) / pow256(0) == x as nat);
    }
    while i < n
        invariant
            i <= n,
            n <= 8,
            out@ == start + le_bytes(x as nat, i as nat),
            cur == (x as nat) / pow256(i as nat),
        decreases n - i,
    {
        let b: u8 = (cur % 256) as u8;
        out.push(b);
        proof {
            lemma_pow256_positive(i as nat);
            assert(cur % 256 == ((x as nat) / pow256(i as nat)) % 256);
            lemma_le_bytes_snoc(x as nat, i as nat);
            lemma_le_bytes_len(x as nat, i as nat);
            assert(out@ =~= start + le_bytes(x as nat, (i + 1) as nat));
            assert((x as nat) / pow256(i as nat) / 256 == (x as nat) / pow256((i + 1) as nat))
                by {
                lemma_pow256_positive(i as nat);
                lemma_div_denominator(x as int, pow256(i as nat) as int, 256);
                assert(pow256(i as nat) * 256 == pow256((i + 1) as nat)) by {
                    lemma_pow256_mul_left(i as nat);
                };
            };
        }
        cur = cur / 256;
        i = i + 1;
    }
    proof {
        assert(out@ =~= start + le_bytes(x as nat, n as nat));
    }
}

proof fn lemma_pow256_mul_left(n: nat)
    ensures
        pow256(n) * 256 == pow256(n + 1),
    decreases n,
{
    if n > 0 {
        lemma_pow256_mul_left((n - 1) as nat);
        assert(pow256(n) * 256 == 256 * (pow256((n - 1) as nat) * 256))
            by (nonlinear_arith)
            requires
                pow256(n) == 256 * pow256((n - 1) as nat),
        ;
    }
}

/// Reads the number denoted by `n` bytes of `b` starting at `start`.
pub fn read_le(b: &[u8], start: usize, n: usize) -> (r: u64)
    requires
        start + n <= b@.len(),
        n <= 8,
    ensures
        r == le_nat(b@.subrange(start as int, (start + n) as int)),
{
    let ghost whole = b@.subrange(start as int, (start + n) as int);
    let blen = b.len();
    let mut acc: u64 = 0;
    let mut j: usize = n;
    proof {
        assert(b@.subrange((start + n) as int, (start + n) as int) =~= Seq::<u8>::empty());
        lemma_pow256_values();
    }
    while j > 0
        invariant
            j <= n,
            n <= 8,
            start + n <= b@.len(),
            b@.len() == blen,
            acc == le_nat(b@.subrange((start + j) as int, (start + n) as int)),
            acc < pow256((n - j) as nat),
        decreases j,
    {
        let ghost pre = b@.subrange((start + j) as int, (start + n) as int);
        j = j - 1;
        let ghost post = b@.subrange((start + j) as int, (start + n) as int);
        proof {
            lemma_pow256_values();
            lemma_pow256_positive((n - j) as nat);
            assert(pow256((n - j - 1) as nat) <= pow256(7)) by {
                lemma_pow256_increases((n - j - 1) as nat, 7);
            };
            assert(256 * acc + 255 < 256 * pow256((n - j - 1) as nat)) by {
                lemma_mul_inequality(acc as int + 1, pow256((n - j - 1) as nat) as int, 256);
            };
            assert(256 * pow256((n - j - 1) as nat) == pow256((n - j) as nat));
            assert(post[0] == b@[(start + j) as int]);
            assert(post.subrange(1, post.len() as int) =~= pre);
        }
        acc = acc * 256 + (b[start + j] as u64);
    }
    proof {
        assert(b@.subrange((start + j) as int, (start + n) as int) =~= whole);
    }
    acc
}

proof fn lemma_pow256_increases(a: nat, b: nat)
    requires
        a <= b,
    ensures
        pow256(a) <= pow256(b),
    decreases b,
{
    if a < b && b > 0 {
        lemma_pow256_increases(a, (b - 1) as nat);
        lemma_pow256_positive((b - 1) as nat);
    }
}

} // verus!
