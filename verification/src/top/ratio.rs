//! Whether a part of a whole lies under or over a threshold, in double precision.
//!
//! The parts and the wholes are counts, the thresholds are decimal fractions. Both are taken as
//! doubles, and so is the quotient. It is enough to know where the exact quotient of the two
//! doubles lies: rounding keeps the order, and what lies halfway between a threshold and its
//! neighbour goes to whichever of the two is even.

use vstd::arithmetic::div_mod::lemma_fundamental_div_mod;
use vstd::prelude::*;

verus! {

/// The least whole number that does not fit in the 53 bits of a double's mantissa.
pub const MANTISSA_END: u64 = 9_007_199_254_740_992;

/// The double nearest to 0.02 is this many 2^-58.
pub const FIFTIETH: u64 = 5_764_607_523_034_235;

/// 2^58.
pub const FIFTIETH_SCALE: u64 = 288_230_376_151_711_744;

/// The double nearest to 0.1 is this many 2^-56.
pub const TENTH: u64 = 7_205_759_403_792_794;

/// 2^56.
pub const TENTH_SCALE: u64 = 72_057_594_037_927_936;

/// The double nearest to 0.9 is this many 2^-53.
pub const NINE_TENTHS: u64 = 8_106_479_329_266_893;

/// The double nearest to 0.6 is this many 2^-53.
pub const SIX_TENTHS: u64 = 5_404_319_552_844_595;

/// 2^53.
pub const TENTHS_SCALE: u64 = 9_007_199_254_740_992;

/// How far apart the doubles are around a number: 1 as far as the mantissa reaches, and twice as
/// far at each power of two from there.
pub open spec fn spacing(n: nat) -> nat
    decreases n,
{
    if n < MANTISSA_END {
        1
    } else {
        2 * spacing(n / 2)
    }
}

/// The double nearest to a number; halfway, the even one of the two.
pub open spec fn double(n: nat) -> nat {
    let unit = spacing(n);
    let below = n / unit;
    let past = n % unit;
    if 2 * past > unit || 2 * past == unit && below % 2 == 1 {
        (below + 1) * unit
    } else {
        below * unit
    }
}

/// Whether a quotient of doubles is less than the double `mantissa / scale`: the exact quotient
/// lies below the middle between that double and the one before it, or in the middle where the one
/// before it is even.
pub open spec fn under(part: nat, whole: nat, mantissa: u64, scale: u64) -> bool {
    let exact = double(part) * (2 * scale as nat);
    let middle = (2 * mantissa - 1) * double(whole);
    exact < middle || exact == middle && mantissa % 2 == 1
}

/// Whether a quotient of doubles is greater than the double `mantissa / scale`: the exact quotient
/// lies above the middle between that double and the one after it, or in the middle where the one
/// after it is even.
pub open spec fn over(part: nat, whole: nat, mantissa: u64, scale: u64) -> bool {
    let exact = double(part) * (2 * scale as nat);
    let middle = (2 * mantissa + 1) * double(whole);
    exact > middle || exact == middle && mantissa % 2 == 1
}

proof fn lemma_spacing(n: nat)
    ensures
        1 <= spacing(n),
        n >= 1 ==> spacing(n) <= n,
    decreases n,
{
    if n >= MANTISSA_END {
        lemma_spacing(n / 2);
    }
}

fn spacing_at(n: u64) -> (r: u64)
    ensures
        r == spacing(n as nat),
    decreases n,
{
    proof {
        lemma_spacing(n as nat);
    }
    if n < MANTISSA_END {
        1
    } else {
        2 * spacing_at(n / 2)
    }
}

fn nearest_double(n: u64) -> (r: u128)
    ensures
        r == double(n as nat),
        r <= 2 * n,
{
    let unit = spacing_at(n);
    proof {
        lemma_spacing(n as nat);
        lemma_fundamental_div_mod(n as int, unit as int);
    }
    let below = n / unit;
    let past = n % unit;
    assert(below * unit == unit * below) by (nonlinear_arith);
    assert((below + 1) * unit == unit * below + unit) by (nonlinear_arith);
    if 2 * (past as u128) > unit as u128 || 2 * (past as u128) == unit as u128 && below % 2 == 1 {
        (below as u128 + 1) * (unit as u128)
    } else {
        (below as u128) * (unit as u128)
    }
}

/// Whether a part of a whole lies under a threshold.
pub fn is_under(part: u64, whole: u64, mantissa: u64, scale: u64) -> (r: bool)
    requires
        1 <= mantissa < MANTISSA_END,
        scale <= FIFTIETH_SCALE,
    ensures
        r == under(part as nat, whole as nat, mantissa, scale),
{
    let x = nearest_double(part);
    let y = nearest_double(whole);
    proof {
        lemma_products_fit(x, y, mantissa, scale);
    }
    let exact = x * (2 * scale as u128);
    let middle = (2 * mantissa as u128 - 1) * y;
    exact < middle || exact == middle && mantissa % 2 == 1
}

/// Whether a part of a whole lies over a threshold.
pub fn is_over(part: u64, whole: u64, mantissa: u64, scale: u64) -> (r: bool)
    requires
        1 <= mantissa < MANTISSA_END,
        scale <= FIFTIETH_SCALE,
    ensures
        r == over(part as nat, whole as nat, mantissa, scale),
{
    let x = nearest_double(part);
    let y = nearest_double(whole);
    proof {
        lemma_products_fit(x, y, mantissa, scale);
    }
    let exact = x * (2 * scale as u128);
    let middle = (2 * mantissa as u128 + 1) * y;
    exact > middle || exact == middle && mantissa % 2 == 1
}

proof fn lemma_products_fit(x: u128, y: u128, mantissa: u64, scale: u64)
    requires
        x <= 2 * u64::MAX,
        y <= 2 * u64::MAX,
        1 <= mantissa < MANTISSA_END,
        scale <= FIFTIETH_SCALE,
    ensures
        0 <= x * (2 * scale) <= u128::MAX,
        0 <= (2 * mantissa - 1) * y <= (2 * mantissa + 1) * y <= u128::MAX,
{
    assert(x * (2 * scale) <= 0x2_0000_0000_0000_0000 * 0x1000_0000_0000_0000) by (nonlinear_arith)
        requires
            0 <= x <= 0x2_0000_0000_0000_0000,
            0 <= 2 * scale <= 0x1000_0000_0000_0000,
    ;
    assert(0 <= x * (2 * scale)) by (nonlinear_arith);
    assert((2 * mantissa + 1) * y <= 0x1000_0000_0000_0000 * 0x2_0000_0000_0000_0000)
        by (nonlinear_arith)
        requires
            0 <= y <= 0x2_0000_0000_0000_0000,
            0 <= 2 * mantissa + 1 <= 0x1000_0000_0000_0000,
    ;
    assert(0 <= (2 * mantissa - 1) * y <= (2 * mantissa + 1) * y) by (nonlinear_arith)
        requires
            1 <= mantissa,
    ;
}

/// Below 2^50, rounding changes nothing: the thresholds are exact fractions of the whole.
pub proof fn law_thresholds_are_exact_on_ordinary_counts(part: nat, whole: nat)
    requires
        part < 1_125_899_906_842_624,
        1 <= whole < 1_125_899_906_842_624,
    ensures
        under(part, whole, FIFTIETH, FIFTIETH_SCALE) <==> 50 * part < whole,
        under(part, whole, TENTH, TENTH_SCALE) <==> 10 * part < whole,
        over(part, whole, NINE_TENTHS, TENTHS_SCALE) <==> 10 * part > 9 * whole,
        over(part, whole, SIX_TENTHS, TENTHS_SCALE) <==> 10 * part > 6 * whole,
{
    lemma_small_is_exact(part);
    lemma_small_is_exact(whole);
    assert(part * 576_460_752_303_423_488 == part * (2 * FIFTIETH_SCALE)) by (nonlinear_arith);
    assert(part * 144_115_188_075_855_872 == part * (2 * TENTH_SCALE)) by (nonlinear_arith);
    assert(part * 18_014_398_509_481_984 == part * (2 * TENTHS_SCALE)) by (nonlinear_arith);
    assert(11_529_215_046_068_469 * whole == (2 * FIFTIETH - 1) * whole) by (nonlinear_arith);
    assert(14_411_518_807_585_587 * whole == (2 * TENTH - 1) * whole) by (nonlinear_arith);
    assert(16_212_958_658_533_787 * whole == (2 * NINE_TENTHS + 1) * whole) by (nonlinear_arith);
    assert(10_808_639_105_689_191 * whole == (2 * SIX_TENTHS + 1) * whole) by (nonlinear_arith);
}

proof fn lemma_small_is_exact(n: nat)
    requires
        n < MANTISSA_END,
    ensures
        double(n) == n,
{
    assert(spacing(n) == 1);
    assert(n / 1 == n && n % 1 == 0);
    assert(n * 1 == n);
}

proof fn lemma_spacing_size(n: nat)
    ensures
        n < 9_007_199_254_740_992 ==> spacing(n) == 1,
        n >= 9_007_199_254_740_992 ==> spacing(n) * 4_503_599_627_370_496 <= n < spacing(n)
            * 9_007_199_254_740_992,
    decreases n,
{
    if n >= MANTISSA_END {
        lemma_spacing_size(n / 2);
        lemma_spacing(n / 2);
    }
}

/// The double nearest to a number is a multiple of the spacing there and no farther off than half of
/// it, the even one of two that are as near; so it is off by one part in 2^53 at most.
pub proof fn law_double_is_the_nearest(n: nat)
    ensures
        double(n) % spacing(n) == 0,
        2 * (double(n) - n) <= spacing(n),
        2 * (n - double(n)) <= spacing(n),
        2 * (double(n) - n) == spacing(n) || 2 * (n - double(n)) == spacing(n) ==> (double(n)
            / spacing(n)) % 2 == 0,
        9_007_199_254_740_992 * (double(n) - n) <= n,
        9_007_199_254_740_992 * (n - double(n)) <= n,
{
    lemma_spacing_size(n);
    lemma_spacing(n);
    let unit = spacing(n);
    let below = n / unit;
    let past = n % unit;
    vstd::arithmetic::div_mod::lemma_fundamental_div_mod(n as int, unit as int);
    assert(n == unit * below + past);
    assert(unit * below == below * unit) by (nonlinear_arith);
    assert((below + 1) * unit == below * unit + unit) by (nonlinear_arith);
    vstd::arithmetic::div_mod::lemma_mod_multiples_basic(below as int, unit as int);
    vstd::arithmetic::div_mod::lemma_mod_multiples_basic((below + 1) as int, unit as int);
    vstd::arithmetic::div_mod::lemma_div_multiples_vanish(below as int, unit as int);
    vstd::arithmetic::div_mod::lemma_div_multiples_vanish((below + 1) as int, unit as int);
    assert(unit * below / unit == below);
    assert(unit * (below + 1) == (below + 1) * unit) by (nonlinear_arith);
}

/// Rounding moves a threshold by no more than one part in 2^50: a part clearly below a fiftieth or a
/// tenth of the whole is under it, and one clearly above is not.
pub proof fn law_thresholds_are_close_on_any_counts(part: nat, whole: nat)
    requires
        1 <= whole,
    ensures
        50 * part * 1_125_899_906_842_624 <= whole * 1_125_899_906_842_623 ==> under(
            part,
            whole,
            FIFTIETH,
            FIFTIETH_SCALE,
        ),
        under(part, whole, FIFTIETH, FIFTIETH_SCALE) ==> 50 * part * 1_125_899_906_842_624 <= whole
            * 1_125_899_906_842_625,
        10 * part * 1_125_899_906_842_624 <= whole * 1_125_899_906_842_623 ==> under(
            part,
            whole,
            TENTH,
            TENTH_SCALE,
        ),
        under(part, whole, TENTH, TENTH_SCALE) ==> 10 * part * 1_125_899_906_842_624 <= whole
            * 1_125_899_906_842_625,
        under(part, whole, FIFTIETH, FIFTIETH_SCALE) ==> under(part, whole, TENTH, TENTH_SCALE),
{
    law_double_is_the_nearest(part);
    law_double_is_the_nearest(whole);
    let x = double(part);
    let y = double(whole);
    assert(x * (2 * FIFTIETH_SCALE as nat) == x * 576_460_752_303_423_488) by (nonlinear_arith);
    assert(x * (2 * TENTH_SCALE as nat) == x * 144_115_188_075_855_872) by (nonlinear_arith);
    assert((2 * FIFTIETH - 1) * y == 11_529_215_046_068_469 * y) by (nonlinear_arith);
    assert((2 * TENTH - 1) * y == 14_411_518_807_585_587 * y) by (nonlinear_arith);
}

} // verus!
