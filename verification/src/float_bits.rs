//! Binary64 floating-point values held as their IEEE-754 bit patterns:
//! classification, numeric order, and the conversion of integers (round to
//! nearest, ties to even), as an `as` cast performs it.
use vstd::prelude::*;
use vstd::arithmetic::power2::{
    pow2, lemma_pow2_adds, lemma_pow2_pos, lemma_pow2_strictly_increases, lemma_pow2_unfold,
    lemma2_to64, lemma2_to64_rest,
};

verus! {

broadcast use {lemma_pow2_pos, lemma_pow2_adds};

/// 2^52: the weight of the lowest exponent bit.
pub open spec fn two52() -> int {
    0x10_0000_0000_0000
}

/// The sign bit.
pub open spec fn sign_bit() -> int {
    0x8000_0000_0000_0000
}

pub open spec fn exponent_field(bits: u64) -> int {
    (bits as int / two52()) % 0x800
}

pub open spec fn fraction_field(bits: u64) -> int {
    bits as int % two52()
}

pub open spec fn is_nan(bits: u64) -> bool {
    exponent_field(bits) == 0x7FF && fraction_field(bits) != 0
}

pub open spec fn is_finite(bits: u64) -> bool {
    exponent_field(bits) != 0x7FF
}

/// The position of a non-NaN value on the number line: the magnitude bits,
/// negated when the sign bit is set (so that both zeros sit at 0). For
/// values that are not NaN, `<` on doubles is `<` on this key.
pub open spec fn order_key(bits: u64) -> int {
    if bits >= sign_bit() {
        -(bits - sign_bit())
    } else {
        bits as int
    }
}

/// `a < b` on doubles.
pub open spec fn f64_lt(a: u64, b: u64) -> bool {
    !is_nan(a) && !is_nan(b) && order_key(a) < order_key(b)
}

/// Number of binary digits of `n` (0 for 0).
pub open spec fn bit_length(n: nat) -> nat
    decreases n,
{
    if n == 0 {
        0
    } else {
        1 + bit_length(n / 2)
    }
}

/// `n / 2^s` rounded to the nearest integer, ties to the even one.
pub open spec fn round_half_even(n: nat, s: nat) -> nat {
    let p = pow2(s);
    let q = n / p;
    let r = n % p;
    if 2 * r > p || (2 * r == p && q % 2 == 1) {
        q + 1
    } else {
        q
    }
}

/// The bit pattern of the double nearest to `n` (ties to even), for
/// `n < 2^64`: 53 significant bits, the leading one implicit.
pub open spec fn nat_to_f64(n: nat) -> nat {
    if n == 0 {
        0
    } else {
        let e = (bit_length(n) - 1) as nat;
        if e <= 52 {
            ((e + 1023) * pow2(52) + (n * pow2((52 - e) as nat) - pow2(52))) as nat
        } else {
            let m = round_half_even(n, (e - 52) as nat);
            if m == pow2(53) {
                (e + 1024) * pow2(52)
            } else {
                ((e + 1023) * pow2(52) + (m - pow2(52))) as nat
            }
        }
    }
}

/// The bit pattern of `n as f64` for a signed integer.
pub open spec fn int_to_f64(n: int) -> nat {
    if n < 0 {
        (sign_bit() + nat_to_f64((-n) as nat)) as nat
    } else {
        nat_to_f64(n as nat)
    }
}

proof fn lemma_bit_length(n: nat)
    ensures
        n > 0 ==> pow2((bit_length(n) - 1) as nat) <= n < pow2(bit_length(n)),
        n == 0 ==> bit_length(n) == 0,
    decreases n,
{
    if n > 0 {
        lemma_bit_length(n / 2);
        lemma_pow2_unfold(bit_length(n));
        if n / 2 > 0 {
            lemma_pow2_unfold((bit_length(n) - 1) as nat);
        } else {
            lemma2_to64();
        }
    }
}

proof fn lemma_bit_length_bound(n: nat, k: nat)
    requires
        n < pow2(k),
    ensures
        bit_length(n) <= k,
{
    lemma_bit_length(n);
    if bit_length(n) > k {
        if (bit_length(n) - 1) as nat > k {
            lemma_pow2_strictly_increases(k, (bit_length(n) - 1) as nat);
        }
    }
}

/// Computes `2^k` for `k <= 63`.
fn pow2_u64(k: u64) -> (p: u64)
    requires
        k <= 63,
    ensures
        p == pow2(k as nat),
{
    let mut p: u64 = 1;
    let mut i: u64 = 0;
    proof {
        lemma2_to64();
    }
    while i < k
        invariant
            i <= k <= 63,
            p == pow2(i as nat),
        decreases k - i,
    {
        proof {
            lemma_pow2_unfold((i + 1) as nat);
            lemma_pow2_strictly_increases(i as nat, 63);
            lemma2_to64_rest();
        }
        p = p * 2;
        i = i + 1;
    }
    p
}

/// The bits of `n as f64`.
pub fn u64_to_f64_bits(n: u64) -> (r: u64)
    ensures
        r == nat_to_f64(n as nat),
        r < 0x7FF0_0000_0000_0000,
{
    if n == 0 {
        return 0;
    }
    let mut t: u64 = n;
    let mut len: u64 = 0;
    proof {
        lemma2_to64_rest();
        lemma_bit_length_bound(n as nat, 64);
    }
    while t > 0
        invariant
            bit_length(n as nat) == len + bit_length(t as nat),
            bit_length(n as nat) <= 64,
        decreases t,
    {
        t = t / 2;
        len = len + 1;
    }
    let e: u64 = len - 1;
    proof {
        lemma_bit_length(n as nat);
        lemma2_to64();
        lemma2_to64_rest();
    }
    let ghost p52 = pow2(52);
    assert(p52 == 0x10_0000_0000_0000);
    if e <= 52 {
        let pk = pow2_u64(52 - e);
        proof {
            lemma_pow2_adds(e as nat, (52 - e) as nat);
            lemma_pow2_adds((e + 1) as nat, (52 - e) as nat);
            lemma_pow2_unfold(53);
            assert(pow2(e as nat) * pk == p52);
            assert(pow2((e + 1) as nat) * pk == 2 * p52);
            assert(n * pk >= p52 && n * pk < 2 * p52) by (nonlinear_arith)
                requires
                    pow2(e as nat) <= n < pow2((e + 1) as nat),
                    pow2(e as nat) * pk == p52,
                    pow2((e + 1) as nat) * pk == 2 * p52,
                    pk > 0,
            ;
        }
        let mant = n * pk;
        (e + 1023) * 0x10_0000_0000_0000 + (mant - 0x10_0000_0000_0000)
    } else {
        let s: u64 = e - 52;
        let ps = pow2_u64(s);
        let q = n / ps;
        let rem = n % ps;
        proof {
            lemma_pow2_adds(52, s as nat);
            lemma_pow2_adds(53, s as nat);
            lemma_pow2_unfold(53);
            assert(p52 * ps == pow2(e as nat));
            assert(2 * p52 * ps == pow2((e + 1) as nat));
            assert(p52 <= q < 2 * p52) by (nonlinear_arith)
                requires
                    pow2(e as nat) <= n < pow2((e + 1) as nat),
                    p52 * ps == pow2(e as nat),
                    2 * p52 * ps == pow2((e + 1) as nat),
                    ps > 0,
                    q == n / ps,
            ;
            assert(rem < ps);
        }
        let up = 2 * rem > ps || (2 * rem == ps && q % 2 == 1);
        let m: u64 = if up {
            q + 1
        } else {
            q
        };
        assert(m == round_half_even(n as nat, s as nat));
        if m == 0x20_0000_0000_0000 {
            (e + 1024) * 0x10_0000_0000_0000
        } else {
            (e + 1023) * 0x10_0000_0000_0000 + (m - 0x10_0000_0000_0000)
        }
    }
}

/// The bits of `n as f64`.
pub fn i64_to_f64_bits(n: i64) -> (r: u64)
    ensures
        r == int_to_f64(n as int),
{
    if n < 0 {
        let mag: u64 = if n == i64::MIN {
            0x8000_0000_0000_0000
        } else {
            (-n) as u64
        };
        0x8000_0000_0000_0000 + u64_to_f64_bits(mag)
    } else {
        u64_to_f64_bits(n as u64)
    }
}

pub fn is_finite_bits(bits: u64) -> (r: bool)
    ensures
        r == is_finite(bits),
{
    (bits / 0x10_0000_0000_0000) % 0x800 != 0x7FF
}

pub fn is_nan_bits(bits: u64) -> (r: bool)
    ensures
        r == is_nan(bits),
{
    (bits / 0x10_0000_0000_0000) % 0x800 == 0x7FF && bits % 0x10_0000_0000_0000 != 0
}

fn order_key_exec(bits: u64) -> (r: i128)
    ensures
        r == order_key(bits),
{
    if bits >= 0x8000_0000_0000_0000 {
        -((bits - 0x8000_0000_0000_0000) as i128)
    } else {
        bits as i128
    }
}

/// `a < b` on doubles.
pub fn lt_bits(a: u64, b: u64) -> (r: bool)
    ensures
        r == f64_lt(a, b),
{
    !is_nan_bits(a) && !is_nan_bits(b) && order_key_exec(a) < order_key_exec(b)
}

} // verus!
