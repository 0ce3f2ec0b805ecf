//! Floating point numbers, by their bits, in the fixed-point format of the kernel.

use vstd::arithmetic::power2::pow2;
use vstd::prelude::*;

verus! {

/// The bits of the double-precision number 1.0.
pub const ONE: u64 = 0x3FF0_0000_0000_0000;

/// The bits of the 3x4 identity matrix: row-major, with an offset in the fourth column.
pub const CTM_3X4_IDENTITY: [u64; 12] = [
    0x3FF0_0000_0000_0000,
    0,
    0,
    0,
    0,
    0x3FF0_0000_0000_0000,
    0,
    0,
    0,
    0,
    0x3FF0_0000_0000_0000,
    0,
];

/// Whether the bits of a double-precision number have the sign bit set.
pub open spec fn is_negative(bits: u64) -> bool {
    bits >= 0x8000_0000_0000_0000
}

/// The biased exponent of a double-precision number.
pub open spec fn exponent(bits: u64) -> int {
    (bits as int / 0x10_0000_0000_0000) % 0x800
}

/// The fraction bits of a double-precision number.
pub open spec fn fraction(bits: u64) -> int {
    bits as int % 0x10_0000_0000_0000
}

/// Whether the bits stand for no number.
pub open spec fn is_nan(bits: u64) -> bool {
    exponent(bits) == 0x7ff && fraction(bits) != 0
}

/// A non-negative rational number `mantissa * 2^scale`, rounded to the nearest integer; halves
/// are rounded up.
pub open spec fn rounded(mantissa: int, scale: int) -> int {
    if scale >= 0 {
        mantissa * pow2(scale as nat)
    } else {
        (mantissa + pow2((-scale - 1) as nat)) / (pow2((-scale) as nat) as int)
    }
}

/// The magnitude of a double-precision number in units of 2^-32, rounded to the nearest
/// integer, and at most what 63 bits can hold. What is no number counts as 0.
pub open spec fn magnitude(bits: u64) -> int {
    if is_nan(bits) {
        0
    } else if exponent(bits) == 0x7ff {
        0x7fff_ffff_ffff_ffff
    } else {
        let units = if exponent(bits) == 0 {
            rounded(fraction(bits), -1042)
        } else {
            rounded(0x10_0000_0000_0000 + fraction(bits), exponent(bits) - 1043)
        };
        if units > 0x7fff_ffff_ffff_ffff {
            0x7fff_ffff_ffff_ffff
        } else {
            units
        }
    }
}

/// The S31.32 sign-magnitude form of a double-precision number.
pub open spec fn s31_32(bits: u64) -> int {
    magnitude(bits) + if is_negative(bits) {
        0x8000_0000_0000_0000int
    } else {
        0
    }
}

/// A power of two that fits into a word.
fn power_of_two(k: u64) -> (p: u64)
    requires
        k < 64,
    ensures
        p == pow2(k as nat),
{
    let mut p: u64 = 1;
    let mut i: u64 = 0;
    proof {
        vstd::arithmetic::power2::lemma2_to64();
        vstd::arithmetic::power2::lemma2_to64_rest();
    }
    while i < k
        invariant
            i <= k < 64,
            p == pow2(i as nat),
            pow2(63) == 0x8000_0000_0000_0000,
        decreases k - i,
    {
        proof {
            vstd::arithmetic::power2::lemma_pow2_unfold((i + 1) as nat);
            if i + 1 < 63 {
                vstd::arithmetic::power2::lemma_pow2_strictly_increases((i + 1) as nat, 63);
            }
        }
        p = p * 2;
        i = i + 1;
    }
    p
}

/// Converts a double-precision number, given by its bits, to the kernel's S31.32 sign-magnitude
/// fixed-point format.
pub fn to_s31_32(bits: u64) -> (fixed: u64)
    ensures
        fixed == s31_32(bits),
{
    let negative: bool = bits >= 0x8000_0000_0000_0000;
    let exponent: u64 = (bits / 0x10_0000_0000_0000) % 0x800;
    let fraction: u64 = bits % 0x10_0000_0000_0000;
    let magnitude: u64 = if exponent == 0x7ff {
        if fraction != 0 {
            0
        } else {
            0x7fff_ffff_ffff_ffff
        }
    } else if exponent == 0 {
        proof {
            lemma_tiny(fraction as int, 1042);
        }
        0
    } else {
        let mantissa: u64 = 0x10_0000_0000_0000 + fraction;
        if exponent >= 1054 {
            proof {
                lemma_huge(mantissa as int, exponent - 1043);
            }
            0x7fff_ffff_ffff_ffff
        } else if exponent >= 1043 {
            let shift: u64 = exponent - 1043;
            let p: u64 = power_of_two(shift);
            proof {
                vstd::arithmetic::power2::lemma2_to64();
                if shift < 10 {
                    vstd::arithmetic::power2::lemma_pow2_strictly_increases(shift as nat, 10);
                }
                assert(mantissa * p <= 0x1f_ffff_ffff_ffff * 1024) by (nonlinear_arith)
                    requires
                        mantissa <= 0x1f_ffff_ffff_ffff,
                        p <= 1024,
                ;
            }
            mantissa * p
        } else if exponent >= 990 {
            let shift: u64 = 1043 - exponent;
            let half: u64 = power_of_two(shift - 1);
            let whole: u64 = power_of_two(shift);
            proof {
                vstd::arithmetic::power2::lemma2_to64();
                vstd::arithmetic::power2::lemma2_to64_rest();
                if shift < 53 {
                    vstd::arithmetic::power2::lemma_pow2_strictly_increases(shift as nat, 53);
                }
                if shift - 1 < 53 {
                    vstd::arithmetic::power2::lemma_pow2_strictly_increases((shift - 1) as nat, 53);
                }
                vstd::arithmetic::power2::lemma_pow2_pos(shift as nat);
                let x = mantissa + half;
                assert(x / (whole as int) <= x) by (nonlinear_arith)
                    requires
                        x >= 0,
                        whole >= 1,
                ;
            }
            (mantissa + half) / whole
        } else {
            proof {
                lemma_tiny(mantissa as int, 1043 - exponent);
            }
            0
        }
    };
    if negative {
        0x8000_0000_0000_0000 + magnitude
    } else {
        magnitude
    }
}

/// What is less than a half is rounded to 0.
proof fn lemma_tiny(mantissa: int, down: int)
    requires
        0 <= mantissa < 0x20_0000_0000_0000,
        down >= 54,
    ensures
        rounded(mantissa, -down) == 0,
{
    vstd::arithmetic::power2::lemma2_to64();
    vstd::arithmetic::power2::lemma2_to64_rest();
    vstd::arithmetic::power2::lemma_pow2_unfold(down as nat);
    if down > 54 {
        vstd::arithmetic::power2::lemma_pow2_strictly_increases(53, (down - 1) as nat);
    }
    let whole = pow2(down as nat) as int;
    let x = mantissa + pow2((down - 1) as nat);
    assert(x / whole == 0) by (nonlinear_arith)
        requires
            0 <= x < whole,
    ;
}

/// What does not fit into 63 bits is cut off.
proof fn lemma_huge(mantissa: int, up: int)
    requires
        mantissa >= 0x10_0000_0000_0000,
        up >= 11,
    ensures
        rounded(mantissa, up) > 0x7fff_ffff_ffff_ffff,
{
    vstd::arithmetic::power2::lemma2_to64();
    if up > 11 {
        vstd::arithmetic::power2::lemma_pow2_strictly_increases(11, up as nat);
    }
    let p = pow2(up as nat) as int;
    assert(mantissa * p >= 0x10_0000_0000_0000 * 2048) by (nonlinear_arith)
        requires
            mantissa >= 0x10_0000_0000_0000,
            p >= 2048,
    ;
}

/// Converts a matrix of double-precision numbers, given by their bits, for the kernel.
pub fn encode_matrix(matrix: &[u64; 12]) -> (encoded: [u64; 12])
    ensures
        forall|i: int| 0 <= i < 12 ==> #[trigger] encoded@[i] == s31_32(matrix@[i]),
{
    [
        to_s31_32(matrix[0]),
        to_s31_32(matrix[1]),
        to_s31_32(matrix[2]),
        to_s31_32(matrix[3]),
        to_s31_32(matrix[4]),
        to_s31_32(matrix[5]),
        to_s31_32(matrix[6]),
        to_s31_32(matrix[7]),
        to_s31_32(matrix[8]),
        to_s31_32(matrix[9]),
        to_s31_32(matrix[10]),
        to_s31_32(matrix[11]),
    ]
}

/// The format is sign-magnitude: changing the sign changes the sign bit and nothing else.
pub proof fn law_sign_magnitude(bits: u64)
    requires
        !is_negative(bits),
    ensures
        s31_32((bits + 0x8000_0000_0000_0000) as u64) == s31_32(bits) + 0x8000_0000_0000_0000,
        0 <= s31_32(bits) < 0x8000_0000_0000_0000,
{
    let negated = (bits + 0x8000_0000_0000_0000) as u64;
    assert(negated == bits + 0x8000_0000_0000_0000);
    assert(exponent(negated) == exponent(bits));
    assert(fraction(negated) == fraction(bits));
    lemma_magnitude_range(bits);
}

/// Magnitudes leave room for the sign.
pub proof fn lemma_magnitude_range(bits: u64)
    ensures
        0 <= magnitude(bits) <= 0x7fff_ffff_ffff_ffff,
{
    if exponent(bits) == 0 {
        lemma_tiny(fraction(bits), 1042);
    } else if exponent(bits) != 0x7ff {
        let m = 0x10_0000_0000_0000 + fraction(bits);
        let scale = exponent(bits) - 1043;
        if scale >= 0 {
            vstd::arithmetic::power2::lemma_pow2_pos(scale as nat);
            let p = pow2(scale as nat) as int;
            assert(m * p >= 0) by (nonlinear_arith)
                requires
                    m >= 0,
                    p >= 0,
            ;
        } else {
            vstd::arithmetic::power2::lemma_pow2_pos((-scale) as nat);
            vstd::arithmetic::power2::lemma_pow2_pos((-scale - 1) as nat);
            let x = m + pow2((-scale - 1) as nat);
            let p = pow2((-scale) as nat) as int;
            assert(x / p >= 0) by (nonlinear_arith)
                requires
                    x >= 0,
                    p > 0,
            ;
        }
    }
}

/// One is one: its form is 2^32 units.
pub proof fn law_one_is_encoded_exactly()
    ensures
        s31_32(ONE) == 0x1_0000_0000,
        s31_32(0) == 0,
{
    vstd::arithmetic::power2::lemma2_to64();
    assert(exponent(ONE) == 1023);
    assert(fraction(ONE) == 0);
    assert(pow2(19) == 0x8_0000 && pow2(20) == 0x10_0000);
    assert((0x10_0000_0000_0000int + 0x8_0000) / 0x10_0000 == 0x1_0000_0000);
    assert(rounded(0x10_0000_0000_0000, -20) == 0x1_0000_0000);
    lemma_tiny(0, 1042);
}

/// Rounding is to the nearest unit: the result is off by at most a half, and a half is rounded
/// up.
pub proof fn law_rounds_to_nearest(mantissa: int, down: nat)
    requires
        mantissa >= 0,
        down >= 1,
    ensures
        2 * rounded(mantissa, -down) * pow2(down) - pow2(down) <= 2 * mantissa < 2 * rounded(
            mantissa,
            -down,
        ) * pow2(down) + pow2(down),
{
    vstd::arithmetic::power2::lemma_pow2_unfold(down);
    vstd::arithmetic::power2::lemma_pow2_pos(down);
    let whole = pow2(down) as int;
    let half = pow2((down - 1) as nat) as int;
    let x = mantissa + half;
    let q = x / whole;
    assert(q * whole <= x < q * whole + whole) by (nonlinear_arith)
        requires
            q == x / whole,
            whole > 0,
    ;
    assert(2 * q * whole == 2 * (q * whole)) by (nonlinear_arith);
    assert(whole == 2 * half);
}

/// The bits of a number without its sign.
pub open spec fn unsigned_bits(bits: u64) -> int {
    bits as int % 0x8000_0000_0000_0000
}

/// The order is kept: what is at least as far from zero has at least the magnitude. (The bits of
/// numbers without a sign are ordered like the numbers.)
pub proof fn law_order_is_kept(a: u64, b: u64)
    requires
        !is_nan(a),
        !is_nan(b),
        unsigned_bits(a) <= unsigned_bits(b),
    ensures
        magnitude(a) <= magnitude(b),
{
    lemma_magnitude_range(a);
    assert(unsigned_bits(a) == exponent(a) * 0x10_0000_0000_0000 + fraction(a));
    assert(unsigned_bits(b) == exponent(b) * 0x10_0000_0000_0000 + fraction(b));
    assert(exponent(a) <= exponent(b));
    if exponent(b) != 0x7ff {
        let (ma, sa) = parts(a);
        let (mb, sb) = parts(b);
        if sa == sb {
            lemma_rounds_in_order(ma, mb, sa);
        } else {
            // The next exponent starts where this one ends.
            lemma_rounds_in_order(ma, 0x20_0000_0000_0000, sa);
            lemma_scaled(0x10_0000_0000_0000, sa);
            lemma_rounds_in_order(0x10_0000_0000_0000, mb, sa + 1);
            lemma_scales_in_order(mb, sa + 1, sb);
        }
    }
}

/// What is too large for the format, 2^31 or more, has the largest magnitude there is, and
/// nothing else has.
pub proof fn law_large_numbers_saturate(bits: u64)
    requires
        !is_nan(bits),
    ensures
        exponent(bits) >= 1054 <==> magnitude(bits) == 0x7fff_ffff_ffff_ffff,
{
    if exponent(bits) == 0 {
        lemma_tiny(fraction(bits), 1042);
    } else if exponent(bits) != 0x7ff {
        let m = 0x10_0000_0000_0000 + fraction(bits);
        if exponent(bits) >= 1054 {
            lemma_huge(m, exponent(bits) - 1043);
        } else {
            vstd::arithmetic::power2::lemma2_to64();
            lemma_rounds_in_order(m, 0x1f_ffff_ffff_ffff, exponent(bits) - 1043);
            lemma_scales_in_order(0x1f_ffff_ffff_ffff, exponent(bits) - 1043, 10);
        }
    }
}

/// The mantissa and the scale of a finite number.
spec fn parts(bits: u64) -> (int, int) {
    if exponent(bits) == 0 {
        (fraction(bits), -1042)
    } else {
        (0x10_0000_0000_0000 + fraction(bits), exponent(bits) - 1043)
    }
}

proof fn lemma_rounds_in_order(a: int, b: int, scale: int)
    requires
        0 <= a <= b,
    ensures
        rounded(a, scale) <= rounded(b, scale),
{
    if scale >= 0 {
        let p = pow2(scale as nat) as int;
        assert(a * p <= b * p) by (nonlinear_arith)
            requires
                0 <= a <= b,
                p >= 0,
        ;
    } else {
        vstd::arithmetic::power2::lemma_pow2_pos((-scale) as nat);
        let p = pow2((-scale) as nat) as int;
        let half = pow2((-scale - 1) as nat) as int;
        vstd::arithmetic::div_mod::lemma_div_is_ordered(a + half, b + half, p);
    }
}

/// Doubling the mantissa is the same as raising the scale.
proof fn lemma_scaled(m: int, scale: int)
    requires
        m >= 0,
    ensures
        rounded(2 * m, scale) == rounded(m, scale + 1),
{
    if scale >= 0 {
        vstd::arithmetic::power2::lemma_pow2_unfold((scale + 1) as nat);
        let p = pow2(scale as nat) as int;
        assert((2 * m) * p == m * (2 * p)) by (nonlinear_arith);
    } else if scale == -1 {
        vstd::arithmetic::power2::lemma2_to64();
        assert(rounded(m, 0) == m * 1);
        assert((2 * m + 1) / 2 == m);
    } else {
        let k = (-scale) as nat;
        vstd::arithmetic::power2::lemma_pow2_unfold(k);
        vstd::arithmetic::power2::lemma_pow2_unfold((k - 1) as nat);
        vstd::arithmetic::power2::lemma_pow2_pos((k - 1) as nat);
        let p = pow2((k - 1) as nat) as int;
        let x = m + pow2((k - 2) as nat);
        assert(rounded(2 * m, scale) == (2 * x) / (2 * p));
        vstd::arithmetic::div_mod::lemma_div_denominator(2 * x, 2, p);
        assert((2 * x) / 2 == x);
    }
}

proof fn lemma_scales_in_order(m: int, from: int, to: int)
    requires
        m >= 0,
        from <= to,
    ensures
        rounded(m, from) <= rounded(m, to),
    decreases to - from,
{
    if from < to {
        lemma_rounds_in_order(m, 2 * m, from);
        lemma_scaled(m, from);
        lemma_scales_in_order(m, from + 1, to);
    }
}

/// The form of a number is the number: with `m` the mantissa with its leading one, the value is
/// `m` times two to the exponent, less its bias, in units of 2^-32. Where that is not whole, the
/// form is the nearest unit. What is not a number has no magnitude.
pub proof fn law_magnitude_is_the_nearest(bits: u64)
    ensures
        ({
            let e = exponent(bits);
            let m = 0x10_0000_0000_0000 + fraction(bits);
            &&& 1043 <= e < 1054 ==> magnitude(bits) == m * pow2((e - 1043) as nat)
            &&& 1 <= e < 1043 ==> {
                let unit = pow2((1043 - e) as nat);
                2 * magnitude(bits) * unit - unit <= 2 * m < 2 * magnitude(bits) * unit + unit
            }
            &&& e == 0 ==> magnitude(bits) == 0
            &&& is_nan(bits) ==> magnitude(bits) == 0
        }),
{
    let e = exponent(bits);
    let m = 0x10_0000_0000_0000 + fraction(bits);
    lemma_small_numbers_fit(bits);
    if 1 <= e < 1043 {
        law_rounds_to_nearest(m, (1043 - e) as nat);
    }
    if e == 0 {
        lemma_tiny(fraction(bits), 1042);
    }
}

proof fn lemma_small_numbers_fit(bits: u64)
    ensures
        exponent(bits) < 1054 ==> magnitude(bits) < 0x7fff_ffff_ffff_ffff,
{
    lemma_magnitude_range(bits);
    if !is_nan(bits) {
        law_large_numbers_saturate(bits);
    }
}

} // verus!
