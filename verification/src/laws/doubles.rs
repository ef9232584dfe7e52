//! What the bits of a number stand for, and that the machine takes them for
//! that.
use crate::number;
use vstd::arithmetic::power2::{
    lemma_pow2_adds, lemma_pow2_pos, lemma_pow2_strictly_increases, lemma_pow2_unfold, pow2,
};
use vstd::prelude::*;

verus! {

/// The size of a number, counted in two to the power -1074, the smallest that
/// there is. What is infinite counts as more than all that is finite.
pub open spec fn size(bits: u64) -> int {
    let e = (bits as int / 0x10_0000_0000_0000) % 2048;
    let f = bits as int % 0x10_0000_0000_0000;
    if e == 0 {
        f
    } else {
        (f + 0x10_0000_0000_0000) * pow2((e - 1) as nat)
    }
}

/// The number, counted in the same.
pub open spec fn amount(bits: u64) -> int {
    if bits < 0x8000_0000_0000_0000 {
        size(bits)
    } else {
        -size(bits)
    }
}

/// Whether the bits stand for a number, infinite ones included.
pub open spec fn is_a_number(bits: u64) -> bool {
    (bits as int / 0x10_0000_0000_0000) % 2048 != 2047 || bits as int % 0x10_0000_0000_0000 == 0
}

/// Whether the bits stand for a number that is finite.
pub open spec fn is_finite(bits: u64) -> bool {
    (bits as int / 0x10_0000_0000_0000) % 2048 != 2047
}

/// Whether a whole number is the whole part of a number that is not negative.
pub open spec fn is_whole_part(whole: int, bits: u64) -> bool {
    &&& bits < 0x8000_0000_0000_0000
    &&& is_finite(bits)
    &&& whole * pow2(1074) <= amount(bits) < (whole + 1) * pow2(1074)
}

/// Whether two numbers are the same number.
pub open spec fn same_number(a: u64, b: u64) -> bool {
    is_a_number(a) && is_a_number(b) && amount(a) == amount(b)
}

proof fn lemma_size_without_sign(bits: u64)
    requires
        bits >= 0x8000_0000_0000_0000,
    ensures
        size(bits) == size((bits - 0x8000_0000_0000_0000) as u64),
        is_a_number(bits) == is_a_number((bits - 0x8000_0000_0000_0000) as u64),
{
    let rest = (bits - 0x8000_0000_0000_0000) as u64;
    assert(bits as int / 0x10_0000_0000_0000 == rest as int / 0x10_0000_0000_0000 + 2048);
    assert(bits as int % 0x10_0000_0000_0000 == rest as int % 0x10_0000_0000_0000);
}

proof fn lemma_size_grows(a: u64, b: u64)
    requires
        a < b < 0x8000_0000_0000_0000,
    ensures
        0 <= size(a) < size(b),
{
    let base: int = 0x10_0000_0000_0000;
    let ea = (a as int / base) % 2048;
    let eb = (b as int / base) % 2048;
    assert(ea == a as int / base);
    assert(eb == b as int / base);
    let fa = a as int % base;
    let fb = b as int % base;
    assert(ea <= eb);
    vstd::arithmetic::power2::lemma2_to64();
    if eb > 0 {
        lemma_pow2_pos((eb - 1) as nat);
        let pb = pow2((eb - 1) as nat) as int;
        if ea == eb {
            assert(fa < fb);
            assert((fa + base) * pb < (fb + base) * pb) by (nonlinear_arith)
                requires
                    fa < fb,
                    pb > 0,
            ;
            assert(0 <= (fa + base) * pb) by (nonlinear_arith)
                requires
                    0 <= fa,
                    base > 0,
                    pb > 0,
            ;
        } else {
            assert(base * pb <= (fb + base) * pb) by (nonlinear_arith)
                requires
                    0 <= fb,
                    pb > 0,
            ;
            if ea == 0 {
                assert(base <= base * pb) by (nonlinear_arith)
                    requires
                        pb >= 1,
                        base > 0,
                ;
            } else {
                let pa = pow2((ea - 1) as nat) as int;
                lemma_pow2_pos((ea - 1) as nat);
                lemma_pow2_unfold(ea as nat);
                if ea < eb - 1 {
                    lemma_pow2_strictly_increases(ea as nat, (eb - 1) as nat);
                }
                assert(2 * pa <= pb);
                assert((fa + base) * pa < base * pb) by (nonlinear_arith)
                    requires
                        0 <= fa < base,
                        2 * pa <= pb,
                        pa > 0,
                ;
                assert(0 <= (fa + base) * pa) by (nonlinear_arith)
                    requires
                        0 <= fa,
                        base > 0,
                        pa > 0,
                ;
            }
        }
    }
}

/// Numbers are compared by what they stand for, and what is no number is
/// neither less than, nor equal to, nor greater than anything.
pub proof fn law_order_of_numbers(a: u64, b: u64)
    ensures
        number::spec_lt(a, b) == (is_a_number(a) && is_a_number(b) && amount(a) < amount(b)),
        number::spec_le(a, b) == (is_a_number(a) && is_a_number(b) && amount(a) <= amount(b)),
        number::spec_eq(a, b) == same_number(a, b),
{
    let sign: u64 = 0x8000_0000_0000_0000;
    let x = if a < sign { a } else { (a - sign) as u64 };
    let y = if b < sign { b } else { (b - sign) as u64 };
    if a >= sign {
        lemma_size_without_sign(a);
    }
    if b >= sign {
        lemma_size_without_sign(b);
    }
    vstd::arithmetic::power2::lemma2_to64();
    assert(size(0) == 0);
    if x > 0 {
        lemma_size_grows(0, x);
    }
    if y > 0 {
        lemma_size_grows(0, y);
    }
    if x < y {
        lemma_size_grows(x, y);
    } else if y < x {
        lemma_size_grows(y, x);
    }
}

/// The negated number stands for the opposite, has the other sign, and is a
/// number if the one before was.
pub proof fn law_negated_number(bits: u64)
    ensures
        amount(number::spec_neg(bits)) == -amount(bits),
        is_a_number(number::spec_neg(bits)) == is_a_number(bits),
        number::spec_neg(bits) as int % 0x8000_0000_0000_0000 == bits as int
            % 0x8000_0000_0000_0000,
        (number::spec_neg(bits) < 0x8000_0000_0000_0000) != (bits < 0x8000_0000_0000_0000),
{
    let sign: u64 = 0x8000_0000_0000_0000;
    if bits >= sign {
        lemma_size_without_sign(bits);
    } else {
        lemma_size_without_sign((bits + sign) as u64);
    }
}

proof fn lemma_whole_part_is(bits: u64, whole: int)
    requires
        is_whole_part(whole, bits),
    ensures
        number::whole(bits) == whole,
{
    let base: int = 0x10_0000_0000_0000;
    let e = (bits as int / base) % 2048;
    let f = bits as int % base;
    let power = if e == 0 { 1 } else { e };
    let sig = if e == 0 { f } else { f + base };
    let unit = pow2(1074) as int;
    lemma_pow2_pos(1074);
    vstd::arithmetic::power2::lemma2_to64();
    let p = pow2((power - 1) as nat) as int;
    lemma_pow2_pos((power - 1) as nat);
    if e == 0 {
        assert(sig * p == sig) by (nonlinear_arith)
            requires
                p == 1,
        ;
    }
    assert(amount(bits) == sig * p);
    if power >= 1075 {
        let q = pow2((power - 1075) as nat) as int;
        lemma_pow2_adds((power - 1075) as nat, 1074);
        assert(sig * p == (sig * q) * unit) by (nonlinear_arith)
            requires
                p == q * unit,
        ;
        assert(whole == sig * q) by (nonlinear_arith)
            requires
                whole * unit <= (sig * q) * unit < (whole + 1) * unit,
                unit > 0,
        ;
        lemma_pow2_pos((power - 1075) as nat);
        assert(sig * q >= 0) by (nonlinear_arith)
            requires
                sig >= 0,
                q > 0,
        ;
    } else {
        let d = pow2((1075 - power) as nat) as int;
        lemma_pow2_pos((1075 - power) as nat);
        lemma_pow2_adds((1075 - power) as nat, (power - 1) as nat);
        assert(unit == d * p);
        assert(whole * d <= sig < (whole + 1) * d) by (nonlinear_arith)
            requires
                whole * (d * p) <= sig * p < (whole + 1) * (d * p),
                p > 0,
        ;
        assert(sig / d == whole) by {
            assert(sig - whole * d >= 0);
            assert((whole + 1) * d == whole * d + d) by (nonlinear_arith);
            vstd::arithmetic::div_mod::lemma_fundamental_div_mod_converse(
                sig,
                d,
                whole,
                sig - whole * d,
            );
        }
        assert(whole >= 0) by (nonlinear_arith)
            requires
                0 <= sig < (whole + 1) * d,
                d > 0,
        ;
    }
}

/// The position that a number names is its whole part; what is negative or no
/// number names the first, and what is too large the largest.
pub proof fn law_index_is_the_whole_part(bits: u64, whole: int)
    ensures
        is_whole_part(whole, bits) && whole <= usize::MAX ==> number::spec_to_index(bits) == whole,
        is_whole_part(whole, bits) && whole > usize::MAX ==> number::spec_to_index(bits)
            == usize::MAX,
        bits >= 0x8000_0000_0000_0000 || !is_a_number(bits) ==> number::spec_to_index(bits) == 0,
        bits < 0x8000_0000_0000_0000 && is_a_number(bits) && !is_finite(bits)
            ==> number::spec_to_index(bits) == usize::MAX,
{
    if is_whole_part(whole, bits) {
        lemma_whole_part_is(bits, whole);
    }
}

/// A count of at most two to the power 53 is the number that it stands for.
pub proof fn law_count_is_a_number(n: u64)
    requires
        n <= 0x20_0000_0000_0000,
    ensures
        amount(number::spec_from_count(n)) == n * pow2(1074),
        is_finite(number::spec_from_count(n)),
{
    let base: int = 0x10_0000_0000_0000;
    vstd::arithmetic::power2::lemma2_to64();
    vstd::arithmetic::power2::lemma2_to64_rest();
    if n > 0 {
        number::lemma_top_bit(n as nat);
        let k = number::top_bit(n as nat);
        if k > 53 {
            lemma_pow2_strictly_increases(53, k);
        }
        let bits = number::spec_from_count(n);
        if k <= 52 {
            let unit = pow2((52 - k) as nat);
            lemma_pow2_adds(k, (52 - k) as nat);
            lemma_pow2_adds(k + 1, (52 - k) as nat);
            assert(base <= n * unit < 2 * base) by (nonlinear_arith)
                requires
                    pow2(k) <= n < pow2(k + 1),
                    pow2(k) * unit == base,
                    pow2(k + 1) * unit == 2 * base,
                    unit > 0,
            ;
            assert(bits as int == (k + 1022) * base + n * unit);
            assert(bits as int / base == k + 1023);
            assert(bits as int % base == n * unit - base);
            let p = pow2((k + 1022) as nat);
            lemma_pow2_adds((52 - k) as nat, (k + 1022) as nat);
            assert((n * unit) * p == n * pow2(1074)) by (nonlinear_arith)
                requires
                    unit * p == pow2(1074),
            ;
        } else {
            assert(k == 53);
            assert(n == 0x20_0000_0000_0000);
            assert(pow2((k - 52) as nat) == 2);
            assert(number::significand_of(n as nat) == base);
            assert(bits as int == 1076 * base);
            lemma_pow2_unfold(1075);
            assert(base * pow2(1075) == n * pow2(1074)) by (nonlinear_arith)
                requires
                    pow2(1075) == 2 * pow2(1074),
                    n == 2 * base,
            ;
        }
    }
}

/// A larger count is the number next to it: with `unit` the distance between
/// numbers of its size, it is a multiple of the unit and at most half a unit
/// away, and where it lies in the middle between two, an even multiple.
pub proof fn law_large_count_is_the_next_number(n: u64, k: nat)
    requires
        n > 0x20_0000_0000_0000,
        pow2(k) <= n < pow2(k + 1),
    ensures
        exists|r: int|
            #![trigger r * pow2((k - 52) as nat)]
            {
                let unit = pow2((k - 52) as nat) as int;
                &&& amount(number::spec_from_count(n)) == r * unit * pow2(1074)
                &&& -unit <= 2 * (r * unit - n) <= unit
                &&& 2 * (r * unit - n) == unit || 2 * (r * unit - n) == -unit ==> r % 2 == 0
            },
        is_finite(number::spec_from_count(n)),
        number::spec_from_count(n) < 0x8000_0000_0000_0000,
{
    let base: int = 0x10_0000_0000_0000;
    vstd::arithmetic::power2::lemma2_to64();
    vstd::arithmetic::power2::lemma2_to64_rest();
    number::lemma_top_bit(n as nat);
    let top = number::top_bit(n as nat);
    if top < k {
        if top + 1 < k {
            lemma_pow2_strictly_increases(top + 1, k);
        }
        assert(false);
    }
    if k < top {
        if k + 1 < top {
            lemma_pow2_strictly_increases(k + 1, top);
        }
        assert(false);
    }
    if k < 53 {
        if k + 1 < 53 {
            lemma_pow2_strictly_increases(k + 1, 53);
        }
        assert(false);
    }
    if k > 63 {
        if k > 64 {
            lemma_pow2_strictly_increases(64, k);
        }
        assert(false);
    }
    let unit = pow2((k - 52) as nat) as int;
    lemma_pow2_pos((k - 52) as nat);
    lemma_pow2_adds(52, (k - 52) as nat);
    lemma_pow2_adds(53, (k - 52) as nat);
    assert(base * unit <= n < 2 * base * unit);
    let q = n as int / unit;
    let rest = n as int % unit;
    vstd::arithmetic::div_mod::lemma_fundamental_div_mod(n as int, unit);
    assert(n == q * unit + rest) by (nonlinear_arith)
        requires
            n == unit * q + rest,
    ;
    vstd::arithmetic::div_mod::lemma_mod_bound(n as int, unit);
    assert(base <= q < 2 * base) by (nonlinear_arith)
        requires
            base * unit <= q * unit + rest < 2 * base * unit,
            0 <= rest < unit,
    ;
    let r = number::significand_of(n as nat) as int;
    assert(r == number::rounded(n as nat, unit as nat));
    assert(r == q || r == q + 1);
    assert((q + 1) * unit == q * unit + unit) by (nonlinear_arith);
    let bits = number::spec_from_count(n);
    assert(bits as int == (k + 1022) * base + r);
    lemma_pow2_adds((k - 52) as nat, 1074);
    let p = pow2((k + 1022) as nat) as int;
    assert(p == unit * pow2(1074));
    if r < 2 * base {
        assert(bits as int / base == k + 1023);
        assert(bits as int % base == r - base);
    } else {
        assert(bits as int == (k + 1024) * base);
        assert(bits as int / base == k + 1024);
        assert(bits as int % base == 0);
        lemma_pow2_unfold((k + 1023) as nat);
        assert(base * (2 * p) == r * p) by (nonlinear_arith)
            requires
                r == 2 * base,
        ;
    }
    assert(amount(bits) == r * p);
    assert(r * p == r * unit * pow2(1074)) by (nonlinear_arith)
        requires
            p == unit * pow2(1074),
    ;
    assert(2 * (r * unit - n) <= unit);
}

} // verus!
