//! Double-precision numbers as their IEEE-754 bit patterns: equality and
//! ordering as Rust's `f64` comparisons give them, and the rounding of an
//! `i64` to the nearest double that `as f64` performs.
use vstd::prelude::*;

verus! {

/// `2^n`.
pub open spec fn two_pow(n: nat) -> nat
    decreases n,
{
    if n == 0 {
        1
    } else {
        2 * two_pow((n - 1) as nat)
    }
}

/// The largest `e` with `2^e <= m` (0 for `m <= 1`).
pub open spec fn floor_log2(m: nat) -> nat
    decreases m,
{
    if m < 2 {
        0
    } else {
        1 + floor_log2(m / 2)
    }
}

/// The magnitude bits (all but the sign) of a double.
pub open spec fn magnitude(bits: u64) -> int {
    bits as int % 0x8000_0000_0000_0000
}

/// Whether the bits encode a NaN.
pub open spec fn float_is_nan(bits: u64) -> bool {
    magnitude(bits) > 0x7FF0_0000_0000_0000
}

/// A key that orders the non-NaN doubles as their values do: the magnitude
/// bits, negated for a negative sign (so that `-0.0` and `0.0` share key 0).
pub open spec fn float_key(bits: u64) -> int {
    if bits >= 0x8000_0000_0000_0000 {
        -magnitude(bits)
    } else {
        magnitude(bits)
    }
}

/// `a == b` on doubles: neither is NaN and their values agree.
pub open spec fn float_eq(a: u64, b: u64) -> bool {
    !float_is_nan(a) && !float_is_nan(b) && float_key(a) == float_key(b)
}

/// The mantissa of `m >= 1` rounded to 53 significant bits, ties to even,
/// as an integer in `[2^52, 2^53]`, given `e == floor_log2(m)`.
pub open spec fn rounded_mantissa(m: nat, e: nat) -> nat {
    if e <= 52 {
        m * two_pow((52 - e) as nat)
    } else {
        let d = two_pow((e - 52) as nat);
        let q = m / d;
        let r = m % d;
        if r > d / 2 || (r == d / 2 && q % 2 == 1) {
            q + 1
        } else {
            q
        }
    }
}

/// The magnitude bits of the double nearest to `m >= 1`.
pub open spec fn magnitude_of_nat(m: nat) -> int {
    let e = floor_log2(m);
    (e + 1023) * two_pow(52) + rounded_mantissa(m, e) - two_pow(52)
}

/// The ordering key (see `float_key`) of `a as f64`.
pub open spec fn int_float_key(a: i64) -> int {
    if a == 0 {
        0
    } else if a < 0 {
        -magnitude_of_nat((-a) as nat)
    } else {
        magnitude_of_nat(a as nat)
    }
}

pub proof fn lemma_two_pow_pos(n: nat)
    ensures
        two_pow(n) >= 1,
    decreases n,
{
    if n > 0 {
        lemma_two_pow_pos((n - 1) as nat);
    }
}

/// The powers of two that the double layout uses.
pub proof fn lemma_two_pow_values()
    ensures
        two_pow(52) == 0x10_0000_0000_0000,
        two_pow(53) == 0x20_0000_0000_0000,
        two_pow(63) == 0x8000_0000_0000_0000,
        two_pow(64) == 0x1_0000_0000_0000_0000,
{
    reveal_with_fuel(two_pow, 65);
}

/// `floor_log2` brackets `m` between consecutive powers of two.
pub proof fn lemma_floor_log2(m: nat)
    requires
        m >= 1,
    ensures
        two_pow(floor_log2(m)) <= m < two_pow(floor_log2(m) + 1),
    decreases m,
{
    if m >= 2 {
        lemma_floor_log2(m / 2);
    }
}

/// Powers of two grow strictly.
pub proof fn lemma_two_pow_increases(a: nat, b: nat)
    requires
        a < b,
    ensures
        two_pow(a) < two_pow(b),
    decreases b,
{
    lemma_two_pow_pos(a);
    if b > a + 1 {
        lemma_two_pow_increases(a, (b - 1) as nat);
    }
}

/// The exponent that brackets `m` is `floor_log2(m)`.
pub proof fn lemma_floor_log2_unique(m: nat, e: nat)
    requires
        m >= 1,
        two_pow(e) <= m < two_pow(e + 1),
    ensures
        e == floor_log2(m),
{
    lemma_floor_log2(m);
    let f = floor_log2(m);
    if e < f {
        if e + 1 < f {
            lemma_two_pow_increases(e + 1, f);
        }
    } else if f < e {
        if f + 1 < e {
            lemma_two_pow_increases(f + 1, e);
        }
    }
}

/// The key of a double (see `float_key`).
pub fn float_key_of(bits: u64) -> (k: i128)
    ensures
        k == float_key(bits),
{
    let mag = (bits % 0x8000_0000_0000_0000) as i128;
    if bits >= 0x8000_0000_0000_0000 {
        -mag
    } else {
        mag
    }
}

/// Whether the bits encode a NaN.
pub fn is_nan_bits(bits: u64) -> (r: bool)
    ensures
        r == float_is_nan(bits),
{
    bits % 0x8000_0000_0000_0000 > 0x7FF0_0000_0000_0000
}

/// `2^n` for `n <= 64`.
fn two_pow_exec(n: u32) -> (r: u128)
    requires
        n <= 64,
    ensures
        r == two_pow(n as nat),
{
    let mut r: u128 = 1;
    let mut i: u32 = 0;
    while i < n
        invariant
            i <= n <= 64,
            r == two_pow(i as nat),
            r <= 0x1_0000_0000_0000_0000,
        decreases n - i,
    {
        proof {
            lemma_two_pow_pos(i as nat);
            if i + 1 < 64 {
                lemma_two_pow_increases(i as nat + 1, 64);
            }
            lemma_two_pow_values();
        }
        r = r * 2;
        i = i + 1;
    }
    r
}

/// The magnitude bits of the double nearest to `m >= 1`.
fn magnitude_of_u64(m: u64) -> (mag: u128)
    requires
        1 <= m <= 0x8000_0000_0000_0000,
    ensures
        mag == magnitude_of_nat(m as nat),
        mag <= 0x40_0000_0000_0000_0000_0000_0000_0000,
{
    let mut e: u32 = 0;
    let mut p: u64 = 1;
    while p <= m / 2
        invariant
            1 <= p <= m,
            p == two_pow(e as nat),
            e <= 63,
            m <= 0x8000_0000_0000_0000,
        decreases m - p,
    {
        proof {
            if e >= 63 {
                lemma_two_pow_increases(63, e as nat + 1);
                lemma_two_pow_values();
            }
        }
        p = p * 2;
        e = e + 1;
    }
    proof {
        lemma_floor_log2_unique(m as nat, e as nat);
    }
    let base = two_pow_exec(52);
    let mant: u128 = if e <= 52 {
        let f = two_pow_exec(52 - e);
        proof {
            lemma_two_pow_pos((52 - e) as nat);
            lemma_two_pow_increases((52 - e) as nat, 53);
            lemma_two_pow_values();
            assert(m as u128 * f <= 0x8000_0000_0000_0000 * 0x20_0000_0000_0000) by (nonlinear_arith)
                requires
                    m <= 0x8000_0000_0000_0000,
                    f <= 0x20_0000_0000_0000,
            ;
        }
        m as u128 * f
    } else {
        let d = two_pow_exec(e - 52);
        proof {
            lemma_two_pow_pos((e - 52) as nat);
        }
        let q = m as u128 / d;
        let r = m as u128 % d;
        assert(q <= m) by (nonlinear_arith)
            requires
                q == m as u128 / d,
                d >= 1,
        ;
        if r > d / 2 || (r == d / 2 && q % 2 == 1) {
            q + 1
        } else {
            q
        }
    };
    proof {
        lemma_two_pow_values();
        lemma_floor_log2(m as nat);
        if e <= 52 {
            lemma_two_pow_pos((52 - e) as nat);
            assert(mant >= 1) by (nonlinear_arith)
                requires
                    mant == m * two_pow((52 - e) as nat),
                    m >= 1,
                    two_pow((52 - e) as nat) >= 1,
            ;
        }
    }
    (e as u128 + 1023) * base + mant - base
}

/// The ordering key (see `float_key`) of `a as f64`.
pub fn int_as_float_key(a: i64) -> (k: i128)
    ensures
        k == int_float_key(a),
{
    if a == 0 {
        0
    } else if a < 0 {
        let m = (-(a as i128)) as u64;
        -(magnitude_of_u64(m) as i128)
    } else {
        magnitude_of_u64(a as u64) as i128
    }
}

} // verus!
