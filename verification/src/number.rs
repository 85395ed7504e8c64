//! Numbers of the language, held as the bit patterns of IEEE 754 doubles.
//! Order, equality, sign and whole numbers are read off the bits; what needs
//! rounding is computed by whoever runs the library.
use vstd::prelude::*;

verus! {

pub const SIGN_BIT: u64 = 0x8000_0000_0000_0000;

pub const INFINITY_BITS: u64 = 0x7ff0_0000_0000_0000;

/// The bits of a number below its sign.
pub open spec fn magnitude(bits: u64) -> int {
    if bits >= SIGN_BIT {
        bits - SIGN_BIT
    } else {
        bits as int
    }
}

pub open spec fn is_nan(bits: u64) -> bool {
    magnitude(bits) > INFINITY_BITS
}

/// Grows with the number that the bits stand for; both zeros are zero.
pub open spec fn order_key(bits: u64) -> int {
    if bits >= SIGN_BIT {
        -magnitude(bits)
    } else {
        magnitude(bits)
    }
}

pub open spec fn number_equal(a: u64, b: u64) -> bool {
    !is_nan(a) && !is_nan(b) && order_key(a) == order_key(b)
}

pub open spec fn number_less(a: u64, b: u64) -> bool {
    !is_nan(a) && !is_nan(b) && order_key(a) < order_key(b)
}

/// The same number with the other sign.
pub open spec fn negated(bits: u64) -> u64 {
    if bits >= SIGN_BIT {
        (bits - SIGN_BIT) as u64
    } else {
        (bits + SIGN_BIT) as u64
    }
}

pub open spec fn power_of_two(n: nat) -> nat
    decreases n,
{
    if n == 0 {
        1
    } else {
        2 * power_of_two((n - 1) as nat)
    }
}

/// The number is exactly `n`: its significand, with the leading one that the
/// bits leave out, scaled by its exponent.
pub open spec fn stands_for(bits: u64, n: int) -> bool {
    let exponent = magnitude(bits) / 0x10_0000_0000_0000;
    let significand = magnitude(bits) % 0x10_0000_0000_0000 + 0x10_0000_0000_0000;
    if magnitude(bits) == 0 {
        n == 0
    } else if bits >= SIGN_BIT || exponent < 1023 || exponent >= 2047 {
        false
    } else if exponent <= 1075 {
        significand == n * power_of_two((1075 - exponent) as nat)
    } else {
        n == significand * power_of_two((exponent - 1075) as nat)
    }
}

proof fn lemma_power_bounds(n: nat)
    ensures
        power_of_two(n) >= n + 1,
    decreases n,
{
    if n > 0 {
        lemma_power_bounds((n - 1) as nat);
    }
}

/// A number stands for one whole number at most.
pub proof fn lemma_stands_for_one(bits: u64, a: int, b: int)
    requires
        stands_for(bits, a),
        stands_for(bits, b),
    ensures
        a == b,
{
    let exponent = magnitude(bits) / 0x10_0000_0000_0000;
    if magnitude(bits) != 0 && exponent <= 1075 {
        let p = power_of_two((1075 - exponent) as nat) as int;
        lemma_power_bounds((1075 - exponent) as nat);
        assert(a == b) by (nonlinear_arith)
            requires
                a * p == b * p,
                p >= 1,
        ;
    }
}

pub proof fn lemma_power_sum(a: nat, b: nat)
    ensures
        power_of_two(a + b) == power_of_two(a) * power_of_two(b),
    decreases a,
{
    if a > 0 {
        lemma_power_sum((a - 1) as nat, b);
        assert(power_of_two(a) * power_of_two(b) == 2 * (power_of_two((a - 1) as nat)
            * power_of_two(b))) by (nonlinear_arith)
            requires
                power_of_two(a) == 2 * power_of_two((a - 1) as nat),
        ;
        assert((a + b - 1) as nat == (a - 1) as nat + b);
        assert(power_of_two(a + b) == 2 * power_of_two((a + b - 1) as nat));
    } else {
        assert(power_of_two(0) * power_of_two(b) == power_of_two(b)) by (nonlinear_arith)
            requires
                power_of_two(0) == 1,
        ;
    }
}

pub proof fn lemma_power_values()
    ensures
        power_of_two(11) == 0x800,
        power_of_two(52) == 0x10_0000_0000_0000,
        power_of_two(12) == 0x1000,
{
    reveal_with_fuel(power_of_two, 14);
    assert(power_of_two(13) == 0x2000);
    lemma_power_sum(13, 13);
    assert(power_of_two(26) == 0x400_0000);
    lemma_power_sum(26, 26);
}

pub proof fn lemma_power_monotone(a: nat, b: nat)
    requires
        a <= b,
    ensures
        0 < power_of_two(a) <= power_of_two(b),
    decreases b,
{
    if a < b {
        lemma_power_monotone(a, (b - 1) as nat);
    } else {
        lemma_power_bounds(a);
    }
}

pub fn is_nan_bits(bits: u64) -> (nan: bool)
    ensures
        nan == is_nan(bits),
{
    let low: u64 = if bits >= SIGN_BIT {
        bits - SIGN_BIT
    } else {
        bits
    };
    low > INFINITY_BITS
}

fn key_parts(bits: u64) -> (parts: (bool, u64))
    ensures
        parts.1 == magnitude(bits),
        parts.0 == (order_key(bits) < 0),
        order_key(bits) == (if parts.0 {
            -(parts.1 as int)
        } else {
            parts.1 as int
        }),
{
    if bits > SIGN_BIT {
        (true, bits - SIGN_BIT)
    } else if bits == SIGN_BIT {
        (false, 0)
    } else {
        (false, bits)
    }
}

/// Whether two numbers are equal: a NaN equals nothing, the two zeros are equal.
pub fn numbers_equal(a: u64, b: u64) -> (equal: bool)
    ensures
        equal == number_equal(a, b),
{
    if is_nan_bits(a) || is_nan_bits(b) {
        return false;
    }
    let left = key_parts(a);
    let right = key_parts(b);
    left.0 == right.0 && left.1 == right.1
}

/// Whether one number is below another: a NaN is below nothing.
pub fn numbers_less(a: u64, b: u64) -> (less: bool)
    ensures
        less == number_less(a, b),
{
    if is_nan_bits(a) || is_nan_bits(b) {
        return false;
    }
    let left = key_parts(a);
    let right = key_parts(b);
    if left.0 {
        !right.0 || left.1 > right.1
    } else {
        !right.0 && left.1 < right.1
    }
}

pub fn negate(bits: u64) -> (result: u64)
    ensures
        result == negated(bits),
{
    if bits >= SIGN_BIT {
        bits - SIGN_BIT
    } else {
        bits + SIGN_BIT
    }
}

fn power(n: u64) -> (result: u64)
    requires
        n <= 52,
    ensures
        result == power_of_two(n as nat),
{
    proof {
        lemma_power_values();
    }
    let mut result: u64 = 1;
    let mut i: u64 = 0;
    while i < n
        invariant
            i <= n <= 52,
            result == power_of_two(i as nat),
            power_of_two(52) == 0x10_0000_0000_0000,
        decreases n - i,
    {
        proof {
            lemma_power_monotone(i as nat + 1, 52);
        }
        result = result * 2;
        i += 1;
    }
    result
}

/// The whole number that is meant by a list index: not negative, without a
/// fraction, and below `len`.
pub fn whole_index(bits: u64, len: usize) -> (index: Option<usize>)
    ensures
        match index {
            Some(n) => n < len && stands_for(bits, n as int),
            None => forall|n: int| 0 <= n < len ==> !#[trigger] stands_for(bits, n),
        },
{
    let (_, low) = key_parts(bits);
    if low == 0 {
        return if len > 0 {
            Some(0)
        } else {
            None
        };
    }
    let exponent: u64 = low / 0x10_0000_0000_0000;
    let significand: u64 = low % 0x10_0000_0000_0000 + 0x10_0000_0000_0000;
    if bits >= SIGN_BIT || exponent < 1023 || exponent >= 2047 {
        return None;
    }
    proof {
        lemma_power_values();
    }
    if exponent <= 1075 {
        let scale: u64 = power(1075 - exponent);
        proof {
            lemma_power_monotone(0, (1075 - exponent) as nat);
            assert forall|n: int| #[trigger] stands_for(bits, n) implies significand % scale == 0 && n
                == significand / scale by {
                assert(significand == n * scale);
                assert((n * scale) % (scale as int) == 0 && (n * scale) / (scale as int) == n) by {
                    vstd::arithmetic::div_mod::lemma_mod_multiples_basic(n, scale as int);
                    vstd::arithmetic::div_mod::lemma_div_multiples_vanish(n, scale as int);
                    assert(n * scale == scale * n) by (nonlinear_arith);
                }
            }
        }
        if significand % scale != 0 {
            assert forall|n: int| 0 <= n < len implies !#[trigger] stands_for(bits, n) by {}
            return None;
        }
        let n: u64 = significand / scale;
        assert(significand == n * scale) by {
            vstd::arithmetic::div_mod::lemma_fundamental_div_mod(significand as int, scale as int);
            assert(scale * n == n * scale) by (nonlinear_arith);
        }
        if n < len as u64 {
            Some(n as usize)
        } else {
            assert forall|m: int| 0 <= m < len implies !#[trigger] stands_for(bits, m) by {}
            None
        }
    } else if exponent >= 1087 {
        proof {
            let p = power_of_two((exponent - 1075) as nat);
            lemma_power_monotone(12, (exponent - 1075) as nat);
            assert(significand * p >= 0x1_0000_0000_0000_0000) by (nonlinear_arith)
                requires
                    significand >= 0x10_0000_0000_0000,
                    p >= 0x1000,
            ;
            assert forall|m: int| 0 <= m < len implies !#[trigger] stands_for(bits, m) by {}
        }
        None
    } else {
        let scale: u64 = power(exponent - 1075);
        proof {
            lemma_power_monotone((exponent - 1075) as nat, 11);
            assert(significand * scale <= 0xffff_ffff_ffff_f800) by (nonlinear_arith)
                requires
                    significand <= 0x1f_ffff_ffff_ffff,
                    scale <= 0x800,
            ;
        }
        let n: u64 = significand * scale;
        if n < len as u64 {
            Some(n as usize)
        } else {
            assert forall|m: int| 0 <= m < len implies !#[trigger] stands_for(bits, m) by {}
            None
        }
    }
}

/// What is left of a number's magnitude without its fraction, as far as it
/// fits; a NaN has none.
pub open spec fn whole_magnitude(bits: u64) -> int {
    let exponent = magnitude(bits) / 0x10_0000_0000_0000;
    let significand = magnitude(bits) % 0x10_0000_0000_0000 + 0x10_0000_0000_0000;
    if is_nan(bits) || exponent < 1023 {
        0
    } else if exponent <= 1075 {
        significand / (power_of_two((1075 - exponent) as nat) as int)
    } else if exponent >= 1087 {
        u64::MAX as int
    } else {
        significand * power_of_two((exponent - 1075) as nat)
    }
}

pub fn whole_part(bits: u64) -> (whole: u64)
    ensures
        whole == whole_magnitude(bits),
{
    let (_, low) = key_parts(bits);
    if low > INFINITY_BITS {
        return 0;
    }
    let exponent: u64 = low / 0x10_0000_0000_0000;
    let significand: u64 = low % 0x10_0000_0000_0000 + 0x10_0000_0000_0000;
    if exponent < 1023 {
        return 0;
    }
    proof {
        lemma_power_values();
    }
    if exponent <= 1075 {
        let scale: u64 = power(1075 - exponent);
        proof {
            lemma_power_monotone(0, (1075 - exponent) as nat);
        }
        significand / scale
    } else if exponent >= 1087 {
        u64::MAX
    } else {
        let scale: u64 = power(exponent - 1075);
        proof {
            lemma_power_monotone((exponent - 1075) as nat, 11);
            assert(significand * scale <= 0xffff_ffff_ffff_f800) by (nonlinear_arith)
                requires
                    significand <= 0x1f_ffff_ffff_ffff,
                    scale <= 0x800,
            ;
        }
        significand * scale
    }
}

/// The bits of a number with a significand that is doubled until its leading
/// one is in place; each doubling takes one off the exponent.
pub open spec fn normalized(significand: int, exponent: int) -> u64
    decreases 0x20_0000_0000_0000 - significand,
{
    if significand <= 0 {
        0
    } else if significand < 0x10_0000_0000_0000 {
        normalized(significand * 2, exponent - 1)
    } else {
        (exponent * 0x10_0000_0000_0000 + (significand - 0x10_0000_0000_0000)) as u64
    }
}

/// The number that is exactly `n`.
pub open spec fn count_bits(n: int) -> u64 {
    normalized(n, 1075)
}

/// The number that is exactly `n`, for counts below 2 to the 53rd.
pub fn count_number(n: u64) -> (bits: Option<u64>)
    ensures
        match bits {
            Some(bits) => n < 0x20_0000_0000_0000 && stands_for(bits, n as int) && bits
                == count_bits(n as int),
            None => n >= 0x20_0000_0000_0000,
        },
{
    if n >= 0x20_0000_0000_0000 {
        return None;
    }
    if n == 0 {
        return Some(0);
    }
    let mut significand: u64 = n;
    let mut shift: u64 = 0;
    assert(n * power_of_two(0) == n) by (nonlinear_arith)
        requires
            power_of_two(0) == 1,
    ;
    proof {
        lemma_power_values();
    }
    while significand < 0x10_0000_0000_0000
        invariant
            0 < n < 0x20_0000_0000_0000,
            shift <= 52,
            0 < significand < 0x20_0000_0000_0000,
            significand == n * power_of_two(shift as nat),
            normalized(significand as int, 1075 - shift) == count_bits(n as int),
            power_of_two(52) == 0x10_0000_0000_0000,
        decreases 0x20_0000_0000_0000 - significand,
    {
        proof {
            let p = power_of_two(shift as nat);
            assert(n * (2 * p) == 2 * (n * p)) by (nonlinear_arith);
            if shift == 52 {
                assert(n * p >= 0x10_0000_0000_0000) by (nonlinear_arith)
                    requires
                        n >= 1,
                        p == 0x10_0000_0000_0000,
                ;
            }
        }
        significand = significand * 2;
        shift += 1;
    }
    let exponent: u64 = 1075 - shift;
    let bits: u64 = exponent * 0x10_0000_0000_0000 + (significand - 0x10_0000_0000_0000);
    proof {
        assert(bits < SIGN_BIT);
        assert(bits as int / 0x10_0000_0000_0000 == exponent);
        assert(bits as int % 0x10_0000_0000_0000 == significand - 0x10_0000_0000_0000);
        assert((1075 - exponent) as nat == shift as nat);
    }
    Some(bits)
}

} // verus!
