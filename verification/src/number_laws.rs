//! That the bits of numbers are compared, negated and counted as the numbers
//! that they stand for.
use vstd::prelude::*;
use crate::number::{
    count_bits, is_nan, lemma_power_monotone, lemma_power_sum, lemma_power_values, magnitude,
    negated, normalized, number_equal, number_less, power_of_two, stands_for, whole_magnitude,
    SIGN_BIT,
};

verus! {

/// A whole number that is not zero, with its fraction bits: its significand
/// times a power of two.
spec fn scaled(bits: u64) -> nat {
    let exponent = magnitude(bits) / 0x10_0000_0000_0000;
    let significand = magnitude(bits) % 0x10_0000_0000_0000 + 0x10_0000_0000_0000;
    (significand * power_of_two((exponent - 1023) as nat)) as nat
}

proof fn lemma_scaled(bits: u64, n: int)
    requires
        stands_for(bits, n),
        magnitude(bits) != 0,
    ensures
        n * power_of_two(52) == scaled(bits),
        n > 0,
{
    let exponent = magnitude(bits) / 0x10_0000_0000_0000;
    let significand = magnitude(bits) % 0x10_0000_0000_0000 + 0x10_0000_0000_0000;
    let low = power_of_two((exponent - 1023) as nat) as int;
    let p52 = power_of_two(52) as int;
    lemma_power_monotone(0, 52);
    lemma_power_monotone(0, (exponent - 1023) as nat);
    if exponent <= 1075 {
        let high = power_of_two((1075 - exponent) as nat) as int;
        lemma_power_sum((1075 - exponent) as nat, (exponent - 1023) as nat);
        lemma_power_monotone(0, (1075 - exponent) as nat);
        assert(significand * low == n * p52) by (nonlinear_arith)
            requires
                significand == n * high,
                p52 == high * low,
        ;
    } else {
        let rest = power_of_two((exponent - 1075) as nat) as int;
        lemma_power_sum((exponent - 1075) as nat, 52);
        assert(significand * low == n * p52) by (nonlinear_arith)
            requires
                n == significand * rest,
                low == rest * p52,
        ;
    }
    assert(significand * low > 0) by (nonlinear_arith)
        requires
            significand > 0,
            low > 0,
    ;
    assert(n > 0) by (nonlinear_arith)
        requires
            n * p52 > 0,
            p52 > 0,
    ;
}

/// More bits stand for more.
proof fn lemma_scaled_grows(a: u64, b: u64)
    requires
        magnitude(a) < magnitude(b),
        magnitude(a) / 0x10_0000_0000_0000 >= 1023,
    ensures
        scaled(a) < scaled(b),
{
    let ea = magnitude(a) / 0x10_0000_0000_0000;
    let sa = magnitude(a) % 0x10_0000_0000_0000 + 0x10_0000_0000_0000;
    let eb = magnitude(b) / 0x10_0000_0000_0000;
    let sb = magnitude(b) % 0x10_0000_0000_0000 + 0x10_0000_0000_0000;
    let pa = power_of_two((ea - 1023) as nat) as int;
    let pb = power_of_two((eb - 1023) as nat) as int;
    lemma_power_monotone(0, (ea - 1023) as nat);
    if ea == eb {
        assert(sa * pa < sb * pb) by (nonlinear_arith)
            requires
                pa == pb,
                pa >= 1,
                sa < sb,
        ;
    } else {
        lemma_power_monotone((ea - 1022) as nat, (eb - 1023) as nat);
        assert(power_of_two((ea - 1022) as nat) == 2 * power_of_two((ea - 1023) as nat));
        assert(sa * pa < sb * pb) by (nonlinear_arith)
            requires
                pb >= 2 * pa,
                pa >= 1,
                sa < 0x20_0000_0000_0000,
                sb >= 0x10_0000_0000_0000,
        ;
    }
}

/// Whole numbers are ordered as they are, and equal where they are one.
pub proof fn law_whole_numbers_are_ordered(a: u64, b: u64, x: int, y: int)
    requires
        stands_for(a, x),
        stands_for(b, y),
    ensures
        number_less(a, b) <==> x < y,
        number_equal(a, b) <==> x == y,
        x >= 0,
        !is_nan(a),
{
    if magnitude(a) != 0 {
        lemma_scaled(a, x);
    }
    if magnitude(b) != 0 {
        lemma_scaled(b, y);
    }
    if magnitude(a) != 0 && magnitude(b) != 0 {
        let p = power_of_two(52) as int;
        lemma_power_monotone(0, 52);
        if magnitude(a) < magnitude(b) {
            lemma_scaled_grows(a, b);
            assert(x < y) by (nonlinear_arith)
                requires
                    x * p < y * p,
                    p >= 1,
            ;
        } else if magnitude(b) < magnitude(a) {
            lemma_scaled_grows(b, a);
            assert(y < x) by (nonlinear_arith)
                requires
                    y * p < x * p,
                    p >= 1,
            ;
        } else {
            assert(scaled(a) == scaled(b));
            assert(x == y) by (nonlinear_arith)
                requires
                    x * p == y * p,
                    p >= 1,
            ;
        }
    }
}

/// Numbers are ordered: of two that are numbers exactly one of less, equal and
/// greater holds, less and equal are transitive, and nothing is less than or
/// equal to what is not a number.
pub proof fn law_numbers_are_ordered(a: u64, b: u64, c: u64)
    ensures
        is_nan(a) || is_nan(b) ==> !number_less(a, b) && !number_equal(a, b),
        !is_nan(a) && !is_nan(b) ==> number_less(a, b) || number_equal(a, b) || number_less(b, a),
        !(number_less(a, b) && number_less(b, a)),
        !(number_less(a, b) && number_equal(a, b)),
        number_equal(a, b) == number_equal(b, a),
        number_less(a, b) && number_less(b, c) ==> number_less(a, c),
        number_equal(a, b) && number_equal(b, c) ==> number_equal(a, c),
{
}

/// Negation is its own inverse, keeps what is not a number, and turns the
/// order round; zero is its own opposite.
pub proof fn law_negation_turns_the_order_round(a: u64, b: u64)
    ensures
        negated(negated(a)) == a,
        negated(a) != a,
        is_nan(negated(a)) == is_nan(a),
        number_less(negated(b), negated(a)) == number_less(a, b),
        stands_for(a, 0) ==> number_equal(negated(a), a),
        forall|n: int| n > 0 && #[trigger] stands_for(a, n) ==> number_less(negated(a), a),
{
    if magnitude(a) != 0 && stands_for(a, 0) {
        lemma_scaled(a, 0);
    }
}

/// The whole part of a number that is whole is that number.
pub proof fn law_whole_part_of_whole_numbers(bits: u64, n: int)
    requires
        stands_for(bits, n),
        n <= u64::MAX,
    ensures
        whole_magnitude(bits) == n,
        bits >= SIGN_BIT ==> n == 0,
{
    let exponent = magnitude(bits) / 0x10_0000_0000_0000;
    let significand = magnitude(bits) % 0x10_0000_0000_0000 + 0x10_0000_0000_0000;
    if magnitude(bits) != 0 {
        if exponent <= 1075 {
            let p = power_of_two((1075 - exponent) as nat) as int;
            lemma_power_monotone(0, (1075 - exponent) as nat);
            assert(significand / p == n) by (nonlinear_arith)
                requires
                    significand == n * p,
                    p >= 1,
            ;
        } else if exponent >= 1087 {
            lemma_power_monotone(12, (exponent - 1075) as nat);
            let p = power_of_two((exponent - 1075) as nat) as int;
            assert(power_of_two(12) == 4096) by {
                reveal_with_fuel(power_of_two, 13);
            }
            assert(n >= 0x1_0000_0000_0000_0000) by (nonlinear_arith)
                requires
                    n == significand * p,
                    p >= 4096,
                    significand >= 0x10_0000_0000_0000,
            ;
        }
    }
}

proof fn lemma_normalized(n: int, significand: int, shift: nat)
    requires
        n > 0,
        shift <= 52,
        0 < significand < 0x20_0000_0000_0000,
        significand == n * power_of_two(shift),
    ensures
        stands_for(normalized(significand, 1075 - shift), n),
    decreases 0x20_0000_0000_0000 - significand,
{
    lemma_power_values();
    let p = power_of_two(shift) as int;
    if significand < 0x10_0000_0000_0000 {
        assert(n * (2 * p) == 2 * (n * p)) by (nonlinear_arith);
        assert(power_of_two(shift + 1) == 2 * p);
        if shift == 52 {
            assert(n * p >= 0x10_0000_0000_0000) by (nonlinear_arith)
                requires
                    n >= 1,
                    p == 0x10_0000_0000_0000,
            ;
        }
        lemma_normalized(n, significand * 2, shift + 1);
    } else {
        let exponent = 1075 - shift;
        let bits = normalized(significand, exponent);
        assert(bits as int == exponent * 0x10_0000_0000_0000 + (significand
            - 0x10_0000_0000_0000));
        assert(bits < SIGN_BIT);
        assert(bits as int / 0x10_0000_0000_0000 == exponent);
        assert(bits as int % 0x10_0000_0000_0000 == significand - 0x10_0000_0000_0000);
        assert((1075 - exponent) as nat == shift);
    }
}

/// The number of a count stands for that count.
pub proof fn law_counts_are_exact(n: int)
    requires
        0 <= n < 0x20_0000_0000_0000,
    ensures
        stands_for(count_bits(n), n),
{
    if n > 0 {
        assert(n * power_of_two(0) == n) by (nonlinear_arith)
            requires
                power_of_two(0) == 1,
        ;
        lemma_normalized(n, n, 0);
    }
}

/// The whole part of a number leaves out its fraction: it is the greatest whole
/// number that is not greater. The whole part of less than one is zero.
pub proof fn law_whole_parts_leave_out_fractions(bits: u64)
    requires
        !is_nan(bits),
    ensures
        ({
            let exponent = magnitude(bits) / 0x10_0000_0000_0000;
            let significand = magnitude(bits) % 0x10_0000_0000_0000 + 0x10_0000_0000_0000;
            let whole = whole_magnitude(bits);
            &&& exponent < 1023 ==> whole == 0
            &&& 1023 <= exponent <= 1075 ==> {
                let unit = power_of_two((1075 - exponent) as nat);
                whole * unit <= significand && significand < (whole + 1) * unit
            }
        }),
{
    let exponent = magnitude(bits) / 0x10_0000_0000_0000;
    let significand = magnitude(bits) % 0x10_0000_0000_0000 + 0x10_0000_0000_0000;
    if 1023 <= exponent <= 1075 {
        let unit = power_of_two((1075 - exponent) as nat) as int;
        lemma_power_monotone(0, (1075 - exponent) as nat);
        let whole = significand / unit;
        assert(whole * unit <= significand && significand < (whole + 1) * unit) by (nonlinear_arith)
            requires
                unit >= 1,
                whole == significand / unit,
                significand >= 0,
        ;
    }
}

} // verus!
