//! Numbers of the machine, held as the 64 bits of an IEEE 754 double.
//!
//! The machine never adds or divides such a number itself: it compares it,
//! flips its sign, makes one out of a count and takes one for a position in an
//! array. Each of these is a statement about the bits.
use vstd::arithmetic::div_mod::lemma_div_by_multiple;
use vstd::arithmetic::power2::{
    lemma_pow2_adds, lemma_pow2_pos, lemma_pow2_strictly_increases, lemma_pow2_unfold, pow2,
};
use vstd::bits::{lemma_u64_shl_is_mul, lemma_u64_shr_is_div};
use vstd::prelude::*;

verus! {

/// Two to the power 52: what the fraction of a double counts in.
pub const FRACTION: u64 = 0x10_0000_0000_0000;

/// The weight of the sign bit.
pub const SIGN: u64 = 0x8000_0000_0000_0000;

/// The biased exponent of a double.
pub open spec fn exponent(bits: u64) -> int {
    (bits as int / FRACTION as int) % 2048
}

/// The fraction of a double.
pub open spec fn fraction(bits: u64) -> int {
    bits as int % FRACTION as int
}

/// Whether the bits stand for no number.
pub open spec fn is_nan(bits: u64) -> bool {
    exponent(bits) == 2047 && fraction(bits) != 0
}

/// The place of a number among all numbers: the two zeros share theirs.
pub open spec fn order(bits: u64) -> int {
    if bits >= SIGN {
        SIGN - bits
    } else {
        bits as int
    }
}

/// Whether two numbers are equal.
pub open spec fn spec_eq(a: u64, b: u64) -> bool {
    !is_nan(a) && !is_nan(b) && order(a) == order(b)
}

/// Whether `a` is less than `b`.
pub open spec fn spec_lt(a: u64, b: u64) -> bool {
    !is_nan(a) && !is_nan(b) && order(a) < order(b)
}

/// Whether `a` is at most `b`.
pub open spec fn spec_le(a: u64, b: u64) -> bool {
    !is_nan(a) && !is_nan(b) && order(a) <= order(b)
}

/// The number with the other sign.
pub open spec fn spec_neg(bits: u64) -> u64 {
    if bits >= SIGN {
        (bits - SIGN) as u64
    } else {
        (bits + SIGN) as u64
    }
}

/// The whole part of a finite number, its sign left aside.
pub open spec fn whole(bits: u64) -> nat {
    let e = exponent(bits);
    let significand = if e == 0 {
        fraction(bits)
    } else {
        fraction(bits) + FRACTION
    };
    let power = if e == 0 {
        1
    } else {
        e
    };
    if power >= 1075 {
        (significand * pow2((power - 1075) as nat)) as nat
    } else {
        (significand / pow2((1075 - power) as nat) as int) as nat
    }
}

/// The position that a number stands for: its whole part, 0 for what is
/// negative or no number, and the largest position for what is too large.
pub open spec fn spec_to_index(bits: u64) -> usize {
    if bits >= SIGN || is_nan(bits) {
        0
    } else if exponent(bits) == 2047 || whole(bits) > usize::MAX {
        usize::MAX
    } else {
        whole(bits) as usize
    }
}

/// The place of the highest bit that is set.
pub open spec fn top_bit(n: nat) -> nat
    decreases n,
{
    if n < 2 {
        0
    } else {
        1 + top_bit(n / 2)
    }
}

/// `n` counted in units, to the nearest; a tie goes to the even count.
pub open spec fn rounded(n: nat, unit: nat) -> nat {
    let rest = n % unit;
    if 2 * rest > unit || (2 * rest == unit && (n / unit) % 2 == 1) {
        n / unit + 1
    } else {
        n / unit
    }
}

/// The significand of the double next to `n`, the leading one included.
pub open spec fn significand_of(n: nat) -> nat {
    let e = top_bit(n);
    if e <= 52 {
        n * pow2((52 - e) as nat)
    } else {
        rounded(n, pow2((e - 52) as nat))
    }
}

/// The bits of the double next to a count.
pub open spec fn spec_from_count(n: u64) -> u64 {
    if n == 0 {
        0
    } else {
        ((top_bit(n as nat) + 1022) * FRACTION + significand_of(n as nat)) as u64
    }
}

pub proof fn lemma_top_bit(n: nat)
    requires
        0 < n,
    ensures
        pow2(top_bit(n)) <= n,
        n < pow2(top_bit(n) + 1),
    decreases n,
{
    lemma_pow2_unfold(1);
    vstd::arithmetic::power2::lemma2_to64();
    if n >= 2 {
        lemma_top_bit(n / 2);
        lemma_pow2_unfold(top_bit(n));
        lemma_pow2_unfold(top_bit(n) + 1);
    }
}

fn test_nan(bits: u64) -> (nan: bool)
    ensures
        nan == is_nan(bits),
{
    (bits / FRACTION) % 2048 == 2047 && bits % FRACTION != 0
}

fn place(bits: u64) -> (place: i128)
    ensures
        place == order(bits),
{
    if bits >= SIGN {
        SIGN as i128 - bits as i128
    } else {
        bits as i128
    }
}

/// Whether two numbers are equal.
pub fn eq(a: u64, b: u64) -> (equal: bool)
    ensures
        equal == spec_eq(a, b),
{
    !test_nan(a) && !test_nan(b) && place(a) == place(b)
}

/// Whether `a` is less than `b`.
pub fn lt(a: u64, b: u64) -> (less: bool)
    ensures
        less == spec_lt(a, b),
{
    !test_nan(a) && !test_nan(b) && place(a) < place(b)
}

/// Whether `a` is at most `b`.
pub fn le(a: u64, b: u64) -> (less: bool)
    ensures
        less == spec_le(a, b),
{
    !test_nan(a) && !test_nan(b) && place(a) <= place(b)
}

/// The number with the other sign.
pub fn neg(bits: u64) -> (negated: u64)
    ensures
        negated == spec_neg(bits),
{
    if bits >= SIGN {
        bits - SIGN
    } else {
        bits + SIGN
    }
}

/// The position in an array that a number stands for.
pub fn to_index(bits: u64) -> (index: usize)
    ensures
        index == spec_to_index(bits),
{
    if bits >= SIGN || test_nan(bits) {
        return 0;
    }
    let e: u64 = (bits / FRACTION) % 2048;
    if e == 2047 {
        return usize::MAX;
    }
    let f: u64 = bits % FRACTION;
    let significand: u64 = if e == 0 { f } else { f + FRACTION };
    let power: u64 = if e == 0 { 1 } else { e };
    proof {
        vstd::arithmetic::power2::lemma2_to64();
        vstd::arithmetic::power2::lemma2_to64_rest();
        assert(FRACTION == pow2(52));
    }
    if power >= 1075 + 12 {
        proof {
            if power > 1087 {
                lemma_pow2_strictly_increases(12, (power - 1075) as nat);
            }
            let factor = pow2((power - 1075) as nat);
            assert(significand * factor >= FRACTION * pow2(12)) by (nonlinear_arith)
                requires
                    significand >= FRACTION,
                    factor >= pow2(12),
            ;
        }
        return usize::MAX;
    }
    let n: u64 = if power >= 1075 {
        let shift: u64 = power - 1075;
        proof {
            if shift < 11 {
                lemma_pow2_strictly_increases(shift as nat, 11);
            }
            assert(significand * pow2(shift as nat) <= u64::MAX) by (nonlinear_arith)
                requires
                    significand <= 0x1f_ffff_ffff_ffff,
                    pow2(shift as nat) <= 0x800,
            ;
            lemma_u64_shl_is_mul(significand, shift);
        }
        significand << shift
    } else if power > 1075 - 64 {
        let shift: u64 = 1075 - power;
        proof {
            lemma_u64_shr_is_div(significand, shift);
        }
        significand >> shift
    } else {
        proof {
            let d = pow2((1075 - power) as nat) as int;
            if 1075 - power > 64 {
                lemma_pow2_strictly_increases(64, (1075 - power) as nat);
            }
            assert(significand as int / d == 0) by (nonlinear_arith)
                requires
                    0 <= significand < d,
            ;
        }
        0
    };
    assert(n == whole(bits));
    if n > usize::MAX as u64 {
        usize::MAX
    } else {
        n as usize
    }
}

/// The bits of the double next to a count.
pub fn from_count(n: u64) -> (bits: u64)
    ensures
        bits == spec_from_count(n),
{
    if n == 0 {
        return 0;
    }
    let mut rest: u64 = n;
    let mut e: u64 = 0;
    while rest >= 2
        invariant
            0 < rest,
            rest <= n,
            e <= n - rest,
            top_bit(n as nat) == e + top_bit(rest as nat),
        decreases rest,
    {
        rest = rest / 2;
        e = e + 1;
    }
    proof {
        lemma_top_bit(n as nat);
        vstd::arithmetic::power2::lemma2_to64();
        vstd::arithmetic::power2::lemma2_to64_rest();
        if e > 63 {
            lemma_pow2_strictly_increases(63, e as nat);
            if e > 64 {
                lemma_pow2_strictly_increases(64, e as nat);
            }
            assert(false);
        }
    }
    let significand: u64 = if e <= 52 {
        let shift: u64 = 52 - e;
        proof {
            lemma_pow2_adds((e + 1) as nat, shift as nat);
            let factor = pow2(shift as nat);
            assert(n * factor <= pow2((e + 1) as nat) * factor) by (nonlinear_arith)
                requires
                    n <= pow2((e + 1) as nat),
            ;
            lemma_u64_shl_is_mul(n, shift);
        }
        n << shift
    } else {
        let shift: u64 = e - 52;
        proof {
            lemma_pow2_strictly_increases(shift as nat, 12);
            lemma_pow2_pos(shift as nat);
            assert(1 * pow2(shift as nat) == pow2(shift as nat));
            lemma_u64_shl_is_mul(1, shift);
            lemma_pow2_adds(53, shift as nat);
        }
        let unit: u64 = 1u64 << shift;
        let count: u64 = n / unit;
        let left: u64 = n % unit;
        proof {
            assert(count <= 0x20_0000_0000_0000) by (nonlinear_arith)
                requires
                    count == n / unit,
                    unit > 0,
                    n < 0x20_0000_0000_0000 * unit,
            ;
        }
        if 2 * left > unit || (2 * left == unit && count % 2 == 1) {
            count + 1
        } else {
            count
        }
    };
    assert(significand == significand_of(n as nat));
    (e + 1022) * FRACTION + significand
}

/// A position that came from a count of at most two to the power 53 is that
/// count.
pub proof fn law_count_round_trip(n: u64)
    requires
        n <= 0x20_0000_0000_0000,
        n <= usize::MAX,
    ensures
        spec_to_index(spec_from_count(n)) == n,
{
    vstd::arithmetic::power2::lemma2_to64();
    vstd::arithmetic::power2::lemma2_to64_rest();
    if n > 0 {
        lemma_top_bit(n as nat);
        let e = top_bit(n as nat);
        if e > 53 {
            lemma_pow2_strictly_increases(53, e);
        }
        let bits = spec_from_count(n);
        if e <= 52 {
            let unit = pow2((52 - e) as nat);
            lemma_pow2_adds(e, (52 - e) as nat);
            lemma_pow2_adds(e + 1, (52 - e) as nat);
            assert(FRACTION <= n * unit < 2 * FRACTION) by (nonlinear_arith)
                requires
                    pow2(e) <= n < pow2(e + 1),
                    pow2(e) * unit == FRACTION,
                    pow2(e + 1) * unit == 2 * FRACTION,
                    unit > 0,
            ;
            assert(exponent(bits) == e + 1023);
            assert(fraction(bits) == n * unit - FRACTION);
            lemma_div_by_multiple(n as int, unit as int);
            if e == 52 {
                assert(unit == 1);
                let factor = pow2((exponent(bits) - 1075) as nat);
                assert(factor == 1);
                assert((n * unit) * factor == n) by (nonlinear_arith)
                    requires
                        unit == 1,
                        factor == 1,
                ;
                assert(fraction(bits) + FRACTION == n * unit);
            }
            assert(1075 - exponent(bits) == 52 - e);
            assert(whole(bits) == n);
        } else {
            assert(e == 53);
            assert(n == 0x20_0000_0000_0000);
            assert(pow2((e - 52) as nat) == 2);
            assert(significand_of(n as nat) == FRACTION);
            assert(exponent(bits) == 1076);
            assert(fraction(bits) == 0);
            assert(pow2((exponent(bits) - 1075) as nat) == 2);
            assert(whole(bits) == n);
        }
    } else {
        lemma_pow2_pos(1074);
        vstd::arithmetic::div_mod::lemma_div_basics(pow2(1074) as int);
    }
}

/// Of two numbers exactly one holds: the first is less, they are equal, or the
/// second is less.
pub proof fn law_trichotomy(a: u64, b: u64)
    requires
        !is_nan(a),
        !is_nan(b),
    ensures
        spec_lt(a, b) || spec_eq(a, b) || spec_lt(b, a),
        !(spec_lt(a, b) && spec_eq(a, b)),
        !(spec_lt(a, b) && spec_lt(b, a)),
        !(spec_eq(a, b) && spec_lt(b, a)),
        spec_le(a, b) == (spec_lt(a, b) || spec_eq(a, b)),
{
}

/// To change the sign twice changes nothing, and to change it once turns the
/// order round.
pub proof fn law_negation(a: u64, b: u64)
    ensures
        spec_neg(spec_neg(a)) == a,
        spec_lt(spec_neg(b), spec_neg(a)) == spec_lt(a, b),
{
    assert(is_nan(spec_neg(a)) == is_nan(a));
    assert(is_nan(spec_neg(b)) == is_nan(b));
}

} // verus!
