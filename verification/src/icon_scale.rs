//! The size at which an icon is drawn, and which icons are worth drawing. The
//! visible part of an icon takes seven tenths of the space that it is given.
use vstd::arithmetic::power2::{lemma_pow2_pos, pow2};
use vstd::prelude::*;

use crate::binary32::{nearest_integer, product, quotient, rounded, Binary32};
use crate::pixels::{halved, PixelBounds};
use crate::rounding::{
    integers_are_near, integers_nearby_are_half_away, is_near, one, products_are_near,
    quotients_are_near, quotients_lose_half_a_bit_at_most, small_integers_are_exact, units,
};

verus! {

/// The single-precision number nearest to 0.7.
pub open spec fn visible_share() -> Binary32 {
    Binary32 { mantissa: 11744051, exponent: (-24) as i32 }
}

/// The single-precision number nearest to 0.3.
pub open spec fn corner_share() -> Binary32 {
    Binary32 { mantissa: 10066330, exponent: (-25) as i32 }
}

/// The single-precision number 0.25.
pub open spec fn small_share() -> Binary32 {
    Binary32 { mantissa: 8388608, exponent: (-25) as i32 }
}

/// A size as it counts: never less than one.
pub open spec fn at_least_one(size: i32) -> int {
    if size < 1 {
        1
    } else {
        size as int
    }
}

/// The space that the visible part of an icon is to take.
pub open spec fn visible_size(target_size: i32) -> Binary32 {
    product(rounded(at_least_one(target_size) as nat), visible_share())
}

/// `visible_size` in whole pixels.
pub open spec fn desired_size(target_size: i32) -> int {
    let whole = nearest_integer(visible_size(target_size));
    if whole < 1 {
        1
    } else {
        whole
    }
}

/// The factor from the pixels of an icon to those of the screen.
pub open spec fn scale_of(bounds: PixelBounds, target_size: i32) -> Binary32 {
    quotient(visible_size(target_size), rounded(bounds.extent() as nat))
}

/// A length in screen pixels.
pub open spec fn scaled_length(length: int, scale: Binary32) -> int {
    nearest_integer(product(rounded(length as nat), scale))
}

fn at_least(size: i32) -> (result: u32)
    ensures
        result == at_least_one(size),
{
    if size < 1 {
        1
    } else {
        size as u32
    }
}

fn visible_length(target_size: i32) -> (size: Binary32)
    ensures
        size.wf(),
        size == visible_size(target_size),
        -24 <= size.exponent <= 10,
{
    let share = Binary32 { mantissa: 11744051, exponent: -24 };
    Binary32::from_positive(at_least(target_size)).times(share)
}

/// How many pixels the visible part of an icon is to take.
pub fn desired_visible_size(target_size: i32) -> (size: i32)
    ensures
        size == desired_size(target_size),
        size >= 1,
{
    let size: i32 = visible_length(target_size).round();
    if size < 1 {
        1
    } else {
        size
    }
}

/// The factor from the pixels of an icon to those of the screen.
pub fn normalized_scale(bounds: PixelBounds, target_size: i32) -> (scale: Binary32)
    requires
        bounds.wf(),
    ensures
        scale.wf(),
        scale == scale_of(bounds, target_size),
        -60 <= scale.exponent <= 20,
{
    let width: i32 = bounds.width();
    let height: i32 = bounds.height();
    let extent: i32 = if width >= height {
        width
    } else {
        height
    };
    visible_length(target_size).over(Binary32::from_positive(extent as u32))
}

fn scale_length(length: i32, scale: Binary32) -> (scaled: i32)
    requires
        length >= 1,
        scale.wf(),
        -100 <= scale.exponent <= 100,
    ensures
        scaled == scaled_length(length as int, scale),
{
    Binary32::from_positive(length as u32).times(scale).round()
}

/// The rectangle (left, top, width, height) that the visible part of an icon takes
/// in a square of the given size.
pub fn normalized_rect(bounds: PixelBounds, target_size: i32) -> (rect: (i32, i32, i32, i32))
    requires
        bounds.wf(),
        target_size > i32::MIN,
    ensures
        ({
            let scale = scale_of(bounds, target_size);
            let width = scaled_length(bounds.max_x - bounds.min_x + 1, scale);
            let height = scaled_length(bounds.max_y - bounds.min_y + 1, scale);
            &&& rect.0 == halved(target_size - width)
            &&& rect.1 == halved(target_size - height)
            &&& rect.2 == if width < 1 { 1 } else { width }
            &&& rect.3 == if height < 1 { 1 } else { height }
        }),
{
    let scale = normalized_scale(bounds, target_size);
    let width: i32 = scale_length(bounds.width(), scale);
    let height: i32 = scale_length(bounds.height(), scale);
    proof {
        let counted = at_least_one(target_size) as i32;
        assert(scale_of(bounds, counted) == scale_of(bounds, target_size));
        visible_part_keeps_its_shape_and_takes_seven_tenths(
            bounds,
            counted,
            bounds.max_x - bounds.min_x + 1,
        );
        visible_part_keeps_its_shape_and_takes_seven_tenths(
            bounds,
            counted,
            bounds.max_y - bounds.min_y + 1,
        );
    }
    (
        (target_size - width) / 2,
        (target_size - height) / 2,
        if width < 1 {
            1
        } else {
            width
        },
        if height < 1 {
            1
        } else {
            height
        },
    )
}

proof fn lemma_not_negative(f: Binary32)
    ensures
        nearest_integer(f) >= 0,
{
    if f.exponent >= 0 {
        vstd::arithmetic::power2::lemma_pow2_pos(f.exponent as nat);
        assert(f.mantissa * pow2(f.exponent as nat) >= 0) by (nonlinear_arith);
    } else {
        let unit = pow2((-f.exponent) as nat) as int;
        vstd::arithmetic::power2::lemma_pow2_pos((-f.exponent) as nat);
        assert((2 * f.mantissa + unit) / (2 * unit) >= 0) by (nonlinear_arith)
            requires
                unit > 0,
        ;
    }
}

/// `a < b`, of numbers whose mantissas have 24 bits.
pub open spec fn is_below(a: Binary32, b: Binary32) -> bool {
    a.exponent < b.exponent || (a.exponent == b.exponent && a.mantissa < b.mantissa)
}

/// Where the middle of a side lies, as a share of the canvas: whether it is in the
/// first three tenths.
pub open spec fn starts_early(min: i32, max: i32, canvas: i32) -> bool {
    min + max == 0 || is_below(
        quotient(
            (Binary32 {
                mantissa: rounded((min + max) as nat).mantissa,
                exponent: (rounded((min + max) as nat).exponent - 1) as i32,
            }),
            rounded(canvas as nat),
        ),
        corner_share(),
    )
}

/// The box covers less than a quarter of the canvas.
pub open spec fn is_small(bounds: PixelBounds) -> bool {
    is_below(
        quotient(
            rounded(
                ((bounds.max_x - bounds.min_x + 1) * (bounds.max_y - bounds.min_y + 1)) as nat,
            ),
            rounded((bounds.canvas_width * bounds.canvas_height) as nat),
        ),
        small_share(),
    )
}

/// The box is small and stands in the top left corner of the canvas.
pub open spec fn is_topleft(bounds: PixelBounds) -> bool {
    &&& is_small(bounds)
    &&& starts_early(bounds.min_x, bounds.max_x, bounds.canvas_width)
    &&& starts_early(bounds.min_y, bounds.max_y, bounds.canvas_height)
}

fn below(a: Binary32, b: Binary32) -> (result: bool)
    ensures
        result == is_below(a, b),
{
    a.exponent < b.exponent || (a.exponent == b.exponent && a.mantissa < b.mantissa)
}

fn is_early(min: i32, max: i32, canvas: i32) -> (early: bool)
    requires
        0 <= min <= max < canvas,
        min + max <= i32::MAX,
    ensures
        early == starts_early(min, max, canvas),
{
    let sum: i32 = min + max;
    if sum == 0 {
        return true;
    }
    let rounded_sum = Binary32::from_positive(sum as u32);
    let middle = Binary32 {
        mantissa: rounded_sum.mantissa,
        exponent: rounded_sum.exponent - 1,
    };
    let share = Binary32 { mantissa: 10066330, exponent: -25 };
    below(middle.over(Binary32::from_positive(canvas as u32)), share)
}

/// Whether the content of an icon is squeezed into the top left corner of its
/// canvas.
pub fn is_topleft_icon(bounds: &PixelBounds) -> (topleft: bool)
    requires
        bounds.is_measurable(),
    ensures
        topleft == is_topleft(*bounds),
{
    let width: i32 = bounds.width();
    let height: i32 = bounds.height();
    assert(1 <= width * height <= bounds.canvas_width * bounds.canvas_height) by (nonlinear_arith)
        requires
            1 <= width <= bounds.canvas_width,
            1 <= height <= bounds.canvas_height,
    ;
    let area: i32 = width * height;
    let canvas_area: i32 = bounds.canvas_width * bounds.canvas_height;
    let share = Binary32 { mantissa: 8388608, exponent: -25 };
    below(
        Binary32::from_positive(area as u32).over(Binary32::from_positive(canvas_area as u32)),
        share,
    ) && is_early(bounds.min_x, bounds.max_x, bounds.canvas_width) && is_early(
        bounds.min_y,
        bounds.max_y,
        bounds.canvas_height,
    )
}

/// Whether an icon of the system is drawn: nothing is said where its visible part is
/// not known.
pub fn is_valid_icon(bounds: &Option<PixelBounds>) -> (valid: Option<bool>)
    requires
        *bounds matches Some(bounds) ==> bounds.is_measurable(),
    ensures
        valid == match *bounds {
            Some(bounds) => Some(!is_topleft(bounds)),
            None => None,
        },
{
    match bounds {
        Some(bounds) => Some(!is_topleft_icon(bounds)),
        None => None,
    }
}

proof fn lemma_cancel(a: int, b: int, factor: int)
    requires
        a * factor <= b * factor,
        factor > 0,
    ensures
        a <= b,
{
    assert(a <= b) by (nonlinear_arith)
        requires
            a * factor <= b * factor,
            factor > 0,
    ;
}

proof fn lemma_visible_size(target: int, rounded_target: int, share: int, size: int)
    requires
        target > 0,
        rounded_target >= 0,
        share >= 0,
        0x100_0000 * share == 11744051 * one(),
        is_near(rounded_target, target * one()),
        is_near(size * one(), rounded_target * share),
    ensures
        699999 * (target * one()) <= 1000000 * size <= 700001 * (target * one()),
{
    let unit = one();
    lemma_pow2_pos(200);
    let whole = target * unit;
    let exact = rounded_target * share;
    assert(0xff_ffff * (whole * share) <= 0x100_0000 * exact <= 0x100_0001 * (whole * share))
        by (nonlinear_arith)
        requires
            0xff_ffff * whole <= 0x100_0000 * rounded_target <= 0x100_0001 * whole,
            exact == rounded_target * share,
            share >= 0,
    ;
    assert(0x100_0000 * (whole * share) == (11744051 * whole) * unit) by (nonlinear_arith)
        requires
            0x100_0000 * share == 11744051 * unit,
    ;
    // Everything is a multiple of `unit` now.
    assert((0x100_0000 * 0x100_0000 * 0x100_0000 * size) * unit <= (0x100_0001 * 0x100_0001
        * 11744051 * whole) * unit) by (nonlinear_arith)
        requires
            0x100_0000 * (size * unit) <= 0x100_0001 * exact,
            0x100_0000 * exact <= 0x100_0001 * (whole * share),
            0x100_0000 * (whole * share) == (11744051 * whole) * unit,
    ;
    lemma_cancel(
        0x100_0000 * 0x100_0000 * 0x100_0000 * size,
        0x100_0001 * 0x100_0001 * 11744051 * whole,
        unit,
    );
    assert((0xff_ffff * 0xff_ffff * 11744051 * whole) * unit <= (0x100_0000 * 0x100_0000
        * 0x100_0000 * size) * unit) by (nonlinear_arith)
        requires
            0x100_0000 * (size * unit) >= 0xff_ffff * exact,
            0x100_0000 * exact >= 0xff_ffff * (whole * share),
            0x100_0000 * (whole * share) == (11744051 * whole) * unit,
    ;
    lemma_cancel(
        0xff_ffff * 0xff_ffff * 11744051 * whole,
        0x100_0000 * 0x100_0000 * 0x100_0000 * size,
        unit,
    );
    assert(whole > 0) by (nonlinear_arith)
        requires
            whole == target * unit,
            target > 0,
            unit > 0,
    ;
    assert(699999 * whole <= 1000000 * size <= 700001 * whole) by (nonlinear_arith)
        requires
            whole > 0,
            0xff_ffff * 0xff_ffff * 11744051 * whole <= 0x100_0000 * 0x100_0000 * 0x100_0000
                * size,
            0x100_0000 * 0x100_0000 * 0x100_0000 * size <= 0x100_0001 * 0x100_0001 * 11744051
                * whole,
    ;
}

proof fn lemma_scaled_side(
    length: int,
    extent: int,
    rounded_length: int,
    rounded_extent: int,
    size: int,
    scale: int,
    scaled: int,
)
    requires
        length > 0,
        extent > 0,
        size > 0,
        scale >= 0,
        is_near(rounded_length, length * one()),
        is_near(rounded_extent, extent * one()),
        is_near(scale * rounded_extent, size * one()),
        is_near(scaled * one(), rounded_length * scale),
    ensures
        999999 * (length * size) <= 1000000 * (extent * scaled) <= 1000001 * (length * size),
{
    let unit = one();
    lemma_pow2_pos(200);
    let l = rounded_length;
    let e = rounded_extent;
    assert(length * unit > 0 && extent * unit > 0) by (nonlinear_arith)
        requires
            length > 0,
            extent > 0,
            unit > 0,
    ;
    assert(e > 0 && l > 0);
    // The sides, rounded, stand to each other as the sides do.
    assert(0xff_ffff * (extent * l) <= 0x100_0001 * (length * e) && 0xff_ffff * (length * e)
        <= 0x100_0001 * (extent * l)) by {
        let both = extent * length;
        assert(extent * (length * unit) == both * unit && length * (extent * unit) == both * unit)
            by (nonlinear_arith)
            requires
                both == extent * length,
        ;
        assert(0xff_ffff * (both * unit) <= 0x100_0000 * (extent * l) <= 0x100_0001 * (both
            * unit)) by (nonlinear_arith)
            requires
                extent > 0,
                extent * (length * unit) == both * unit,
                0xff_ffff * (length * unit) <= 0x100_0000 * l <= 0x100_0001 * (length * unit),
        ;
        assert(0xff_ffff * (both * unit) <= 0x100_0000 * (length * e) <= 0x100_0001 * (both
            * unit)) by (nonlinear_arith)
            requires
                length > 0,
                length * (extent * unit) == both * unit,
                0xff_ffff * (extent * unit) <= 0x100_0000 * e <= 0x100_0001 * (extent * unit),
        ;
    }
    // `scaled * e` is close to `l * size`.
    let sized = l * size;
    assert(0xff_ffff * 0xff_ffff * sized <= 0x100_0000 * 0x100_0000 * (scaled * e) <= 0x100_0001
        * 0x100_0001 * sized) by {
        let held = l * (scale * e);
        assert(0xff_ffff * (sized * unit) <= 0x100_0000 * held <= 0x100_0001 * (sized * unit))
            by (nonlinear_arith)
            requires
                l > 0,
                held == l * (scale * e),
                sized == l * size,
                0xff_ffff * (size * unit) <= 0x100_0000 * (scale * e) <= 0x100_0001 * (size
                    * unit),
        ;
        let moved = (scaled * e) * unit;
        assert(0xff_ffff * held <= 0x100_0000 * moved <= 0x100_0001 * held) by (nonlinear_arith)
            requires
                e > 0,
                held == l * (scale * e),
                moved == (scaled * e) * unit,
                0xff_ffff * (l * scale) <= 0x100_0000 * (scaled * unit) <= 0x100_0001 * (l
                    * scale),
        ;
        assert((0xff_ffff * 0xff_ffff * sized) * unit <= (0x100_0000 * 0x100_0000 * (scaled * e))
            * unit && (0x100_0000 * 0x100_0000 * (scaled * e)) * unit <= (0x100_0001 * 0x100_0001
            * sized) * unit) by (nonlinear_arith)
            requires
                moved == (scaled * e) * unit,
                0xff_ffff * (sized * unit) <= 0x100_0000 * held <= 0x100_0001 * (sized * unit),
                0xff_ffff * held <= 0x100_0000 * moved <= 0x100_0001 * held,
        ;
        lemma_cancel(
            0xff_ffff * 0xff_ffff * sized,
            0x100_0000 * 0x100_0000 * (scaled * e),
            unit,
        );
        lemma_cancel(
            0x100_0000 * 0x100_0000 * (scaled * e),
            0x100_0001 * 0x100_0001 * sized,
            unit,
        );
    }
    // Both together, with `e` taken out.
    let small = length * size;
    let large = extent * scaled;
    assert(0xff_ffff * (size * (extent * l)) <= 0x100_0001 * (small * e) && 0xff_ffff * (small * e)
        <= 0x100_0001 * (size * (extent * l))) by (nonlinear_arith)
        requires
            size > 0,
            small == length * size,
            0xff_ffff * (extent * l) <= 0x100_0001 * (length * e),
            0xff_ffff * (length * e) <= 0x100_0001 * (extent * l),
    ;
    assert(0xff_ffff * 0xff_ffff * (size * (extent * l)) <= 0x100_0000 * 0x100_0000 * (large * e)
        <= 0x100_0001 * 0x100_0001 * (size * (extent * l))) by (nonlinear_arith)
        requires
            extent > 0,
            sized == l * size,
            large == extent * scaled,
            0xff_ffff * 0xff_ffff * sized <= 0x100_0000 * 0x100_0000 * (scaled * e) <= 0x100_0001
                * 0x100_0001 * sized,
    ;
    assert(small > 0) by (nonlinear_arith)
        requires
            small == length * size,
            length > 0,
            size > 0,
    ;
    assert(small * e > 0) by (nonlinear_arith)
        requires
            small > 0,
            e > 0,
    ;
    assert(999999 * (small * e) <= 1000000 * (large * e) <= 1000001 * (small * e));
    assert((999999 * small) * e <= (1000000 * large) * e && (1000000 * large) * e <= (1000001
        * small) * e) by (nonlinear_arith)
        requires
            999999 * (small * e) <= 1000000 * (large * e) <= 1000001 * (small * e),
    ;
    lemma_cancel(999999 * small, 1000000 * large, e);
    lemma_cancel(1000000 * large, 1000001 * small, e);
}

/// Drawing keeps the shape of the visible part, and makes its longer side seven tenths
/// of the square: each side is within half a pixel, and a ten-thousandth of the square,
/// of its share.
pub proof fn visible_part_keeps_its_shape_and_takes_seven_tenths(
    bounds: PixelBounds,
    target_size: i32,
    length: int,
)
    requires
        bounds.wf(),
        target_size >= 1,
        1 <= length <= bounds.extent(),
    ensures
        ({
            let scaled = scaled_length(length, scale_of(bounds, target_size));
            let extent = bounds.extent();
            let share = length * target_size;
            &&& 10000 * (extent * (2 * scaled - 1)) <= 14002 * share
            &&& 13998 * share < 10000 * (extent * (2 * scaled + 1))
            &&& 0 <= scaled <= target_size
        }),
{
    let unit = one();
    lemma_pow2_pos(200);
    let target = target_size as int;
    let extent = bounds.extent();
    let share = length * target;
    let r_target = rounded(target as nat);
    let r_length = rounded(length as nat);
    let r_extent = rounded(extent as nat);
    let size = visible_size(target_size);
    let scale = scale_of(bounds, target_size);
    let side = product(r_length, scale);
    let scaled = nearest_integer(side);
    integers_are_near(target as nat);
    integers_are_near(length as nat);
    integers_are_near(extent as nat);
    products_are_near(r_target, visible_share());
    quotients_are_near(size, r_extent);
    products_are_near(r_length, scale);
    lemma_units_positive(r_target);
    lemma_units_positive(visible_share());
    lemma_units_positive(size);
    lemma_units_positive(scale);
    assert(0x100_0000 * units(visible_share()) == 11744051 * unit) by {
        vstd::arithmetic::power2::lemma2_to64();
        vstd::arithmetic::power2::lemma_pow2_adds(24, 176);
        assert(pow2(24) == 0x100_0000);
    }
    lemma_visible_size(target, units(r_target), units(visible_share()), units(size));
    lemma_scaled_side(
        length,
        extent,
        units(r_length),
        units(r_extent),
        units(size),
        units(scale),
        units(side),
    );
    let side_units = units(side);
    let whole = share * unit;
    let large = extent * side_units;
    assert(whole > 0) by (nonlinear_arith)
        requires
            whole == length * target * unit,
            length > 0,
            target > 0,
            unit > 0,
    ;
    assert(699999 * whole <= 1000000 * (length * units(size)) <= 700001 * whole)
        by (nonlinear_arith)
        requires
            length > 0,
            whole == length * target * unit,
            699999 * (target * unit) <= 1000000 * units(size) <= 700001 * (target * unit),
    ;
    assert(6999 * whole <= 10000 * large <= 7001 * whole);
    // No side is longer than the square.
    assert(10000 * side_units <= 7001 * (target * unit)) by {
        assert((10000 * side_units) * extent <= (7001 * (target * unit)) * extent)
            by (nonlinear_arith)
            requires
                large == extent * side_units,
                10000 * large <= 7001 * whole,
                whole == length * target * unit,
                length <= extent,
                target * unit > 0,
        ;
        lemma_cancel(10000 * side_units, 7001 * (target * unit), extent);
    }
    assert(2 * side_units < 2 * i32::MAX * unit) by (nonlinear_arith)
        requires
            10000 * side_units <= 7001 * (target * unit),
            1 <= target <= i32::MAX,
            unit > 0,
    ;
    integers_nearby_are_half_away(side);
    lemma_not_negative(side);
    assert(scaled <= target) by (nonlinear_arith)
        requires
            (2 * scaled - 1) * unit <= 2 * side_units,
            10000 * side_units <= 7001 * (target * unit),
            target >= 1,
            unit > 0,
    ;
    assert((10000 * (extent * (2 * scaled - 1))) * unit <= (14002 * share) * unit)
        by (nonlinear_arith)
        requires
            extent > 0,
            (2 * scaled - 1) * unit <= 2 * side_units,
            large == extent * side_units,
            10000 * large <= 7001 * whole,
            whole == share * unit,
    ;
    lemma_cancel(10000 * (extent * (2 * scaled - 1)), 14002 * share, unit);
    assert((13998 * share + 1) * unit <= (10000 * (extent * (2 * scaled + 1))) * unit)
        by (nonlinear_arith)
        requires
            extent > 0,
            unit > 0,
            2 * side_units < (2 * scaled + 1) * unit,
            large == extent * side_units,
            10000 * large >= 6999 * whole,
            whole == share * unit,
    ;
    lemma_cancel(13998 * share + 1, 10000 * (extent * (2 * scaled + 1)), unit);
}

proof fn lemma_units_positive(f: Binary32)
    requires
        f.wf(),
    ensures
        units(f) > 0,
{
    lemma_pow2_pos((f.exponent + 200) as nat);
    assert(f.mantissa * pow2((f.exponent + 200) as nat) > 0) by (nonlinear_arith)
        requires
            f.mantissa > 0,
            pow2((f.exponent + 200) as nat) > 0,
    ;
}

proof fn lemma_below_is_less(a: Binary32, b: Binary32)
    requires
        a.wf(),
        b.wf(),
        -150 <= a.exponent <= 150,
        -150 <= b.exponent <= 150,
        units(a) < units(b),
    ensures
        is_below(a, b),
{
    let pa = pow2((a.exponent + 200) as nat) as int;
    let pb = pow2((b.exponent + 200) as nat) as int;
    lemma_pow2_pos((a.exponent + 200) as nat);
    lemma_pow2_pos((b.exponent + 200) as nat);
    if a.exponent > b.exponent {
        let gap = (a.exponent - b.exponent) as nat;
        vstd::arithmetic::power2::lemma_pow2_adds((b.exponent + 200) as nat, gap);
        vstd::arithmetic::power2::lemma_pow2_unfold(gap);
        lemma_pow2_pos((gap - 1) as nat);
        let p = pow2(gap) as int;
        assert(a.mantissa * (pb * p) >= b.mantissa * pb) by (nonlinear_arith)
            requires
                p >= 2,
                pb > 0,
                2 * a.mantissa >= b.mantissa,
                a.mantissa > 0,
        ;
    } else if a.exponent == b.exponent {
        assert(a.mantissa < b.mantissa) by (nonlinear_arith)
            requires
                a.mantissa * pa < b.mantissa * pa,
                pa > 0,
        ;
    }
}

proof fn lemma_quarter(area: int, canvas: int)
    requires
        0 < area < 0x100_0000,
        0 < canvas < 0x100_0000,
    ensures
        is_below(quotient(rounded(area as nat), rounded(canvas as nat)), small_share()) <==> 4
            * area < canvas,
{
    let a = rounded(area as nat);
    let b = rounded(canvas as nat);
    let q = quotient(a, b);
    let unit = one();
    lemma_pow2_pos(200);
    integers_are_near(area as nat);
    integers_are_near(canvas as nat);
    small_integers_are_exact(area as nat);
    small_integers_are_exact(canvas as nat);
    quotients_are_near(a, b);
    quotients_lose_half_a_bit_at_most(a, b);
    vstd::arithmetic::power2::lemma2_to64();
    vstd::arithmetic::power2::lemma_pow2_adds(25, 175);
    assert(pow2(25) == 0x200_0000);
    assert(4 * units(small_share()) == unit);
    if 4 * area < canvas {
        let uq = units(q);
        assert(0x100_0000 * ((4 * uq) * canvas) < 0x100_0000 * (unit * canvas)) by {
            assert(0x100_0000 * ((uq * canvas) * unit) <= (0x100_0001 * (area * unit)) * unit)
                by (nonlinear_arith)
                requires
                    0x100_0000 * (uq * (canvas * unit)) <= 0x100_0001 * ((area * unit) * unit),
            ;
            assert((0x100_0000 * (uq * canvas)) * unit <= (0x100_0001 * (area * unit)) * unit)
                by (nonlinear_arith)
                requires
                    0x100_0000 * ((uq * canvas) * unit) <= (0x100_0001 * (area * unit)) * unit,
            ;
            lemma_cancel(0x100_0000 * (uq * canvas), 0x100_0001 * (area * unit), unit);
            assert(4 * (0x100_0001 * (area * unit)) < 0x100_0000 * (unit * canvas))
                by (nonlinear_arith)
                requires
                    4 * area + 1 <= canvas < 0x100_0000,
                    unit > 0,
            ;
            assert((4 * uq) * canvas == 4 * (uq * canvas)) by (nonlinear_arith);
        }
        assert(4 * uq < unit) by (nonlinear_arith)
            requires
                0x100_0000 * ((4 * uq) * canvas) < 0x100_0000 * (unit * canvas),
                canvas > 0,
        ;
        lemma_below_is_less(q, small_share());
    } else if is_below(q, small_share()) {
        // The quotient is at most the number before a quarter.
        let p = pow2((q.exponent + 200) as nat) as int;
        assert(q.exponent <= -26);
        let gap = (-26 - q.exponent) as nat;
        vstd::arithmetic::power2::lemma_pow2_adds((q.exponent + 200) as nat, gap);
        lemma_pow2_pos(gap);
        lemma_pow2_pos((q.exponent + 200) as nat);
        let last = pow2(174) as int;
        vstd::arithmetic::power2::lemma_pow2_adds(26, 174);
        assert(pow2(26) == 0x400_0000);
        assert(p <= last) by (nonlinear_arith)
            requires
                p * pow2(gap) == last,
                pow2(gap) >= 1,
                p > 0,
        ;
        assert((2 * q.mantissa + 1) * p <= 0x1ff_ffff * last) by (nonlinear_arith)
            requires
                0 < 2 * q.mantissa + 1 <= 0x1ff_ffff,
                0 < p <= last,
        ;
        let bound = (2 * q.mantissa + 1) * p;
        assert((2 * (area * unit)) * unit <= (canvas * bound) * unit) by (nonlinear_arith)
            requires
                2 * ((area * unit) * unit) <= (canvas * unit) * bound,
        ;
        lemma_cancel(2 * (area * unit), canvas * bound, unit);
        assert(canvas * bound <= canvas * (0x1ff_ffff * last)) by (nonlinear_arith)
            requires
                bound <= 0x1ff_ffff * last,
                canvas > 0,
        ;
        assert(4 * area < canvas) by (nonlinear_arith)
            requires
                2 * (area * unit) <= canvas * (0x1ff_ffff * last),
                unit == 0x400_0000 * last,
                last > 0,
                canvas > 0,
        ;
    }
}

proof fn lemma_three_tenths(min: i32, max: i32, canvas: i32)
    requires
        0 <= min <= max < canvas <= 0x80_0000,
    ensures
        starts_early(min, max, canvas) <==> 5 * (min + max) < 3 * canvas,
{
    let sum = min + max;
    if sum > 0 {
        let whole = rounded(sum as nat);
        let a = Binary32 { mantissa: whole.mantissa, exponent: (whole.exponent - 1) as i32 };
        let b = rounded(canvas as nat);
        let q = quotient(a, b);
        let unit = one();
        lemma_pow2_pos(200);
        integers_are_near(sum as nat);
        integers_are_near(canvas as nat);
        small_integers_are_exact(sum as nat);
        small_integers_are_exact(canvas as nat);
        quotients_are_near(a, b);
        quotients_lose_half_a_bit_at_most(a, b);
        vstd::arithmetic::power2::lemma_pow2_unfold((whole.exponent + 200) as nat);
        let pw = pow2((whole.exponent + 199) as nat) as int;
        assert(2 * units(a) == sum * unit) by (nonlinear_arith)
            requires
                units(a) == whole.mantissa * pw,
                whole.mantissa * (2 * pw) == sum * unit,
        ;
        vstd::arithmetic::power2::lemma2_to64();
        vstd::arithmetic::power2::lemma_pow2_adds(25, 175);
        assert(pow2(25) == 0x200_0000);
        let last = pow2(175) as int;
        lemma_pow2_pos(175);
        assert(unit == 0x200_0000 * last);
        assert(units(corner_share()) == 10066330 * last);
        let ua = units(a);
        if 5 * sum < 3 * canvas {
            let uq = units(q);
            assert(0x100_0000 * ((uq * canvas) * unit) <= (0x100_0001 * ua) * unit)
                by (nonlinear_arith)
                requires
                    0x100_0000 * (uq * (canvas * unit)) <= 0x100_0001 * (ua * unit),
            ;
            assert((0x100_0000 * (uq * canvas)) * unit <= (0x100_0001 * ua) * unit)
                by (nonlinear_arith)
                requires
                    0x100_0000 * ((uq * canvas) * unit) <= (0x100_0001 * ua) * unit,
            ;
            lemma_cancel(0x100_0000 * (uq * canvas), 0x100_0001 * ua, unit);
            assert(0x100_0001 * (sum * 0x200_0000) < 2 * (0x100_0000 * (10066330 * canvas)));
            assert(0x100_0001 * ua < 0x100_0000 * ((10066330 * last) * canvas)) by (nonlinear_arith)
                requires
                    2 * ua == sum * unit,
                    unit == 0x200_0000 * last,
                    last > 0,
                    0x100_0001 * (sum * 0x200_0000) < 2 * (0x100_0000 * (10066330 * canvas)),
            ;
            assert(uq < 10066330 * last) by (nonlinear_arith)
                requires
                    0x100_0000 * (uq * canvas) < 0x100_0000 * ((10066330 * last) * canvas),
                    canvas > 0,
            ;
            lemma_below_is_less(q, corner_share());
        } else if is_below(q, corner_share()) {
            // The quotient is at most the number before three tenths.
            let p = pow2((q.exponent + 200) as nat) as int;
            lemma_pow2_pos((q.exponent + 200) as nat);
            let bound = (2 * q.mantissa + 1) * p;
            assert(bound <= 20132659 * last) by {
                if q.exponent == -25 {
                    assert((2 * q.mantissa + 1) * p <= 20132659 * p) by (nonlinear_arith)
                        requires
                            2 * q.mantissa + 1 <= 20132659,
                            p > 0,
                    ;
                } else {
                    let gap = (-25 - q.exponent) as nat;
                    vstd::arithmetic::power2::lemma_pow2_adds((q.exponent + 200) as nat, gap);
                    vstd::arithmetic::power2::lemma_pow2_unfold(gap);
                    lemma_pow2_pos((gap - 1) as nat);
                    assert(2 * p <= last) by (nonlinear_arith)
                        requires
                            p * pow2(gap) == last,
                            pow2(gap) >= 2,
                            p > 0,
                    ;
                    assert((2 * q.mantissa + 1) * p <= 0x100_0000 * (2 * p)) by (nonlinear_arith)
                        requires
                            2 * q.mantissa + 1 <= 0x200_0000,
                            p > 0,
                    ;
                }
            }
            assert((2 * ua) * unit <= (canvas * bound) * unit) by (nonlinear_arith)
                requires
                    2 * (ua * unit) <= (canvas * unit) * bound,
            ;
            lemma_cancel(2 * ua, canvas * bound, unit);
            assert(canvas * bound <= canvas * (20132659 * last)) by (nonlinear_arith)
                requires
                    bound <= 20132659 * last,
                    canvas > 0,
            ;
            assert(sum * 0x200_0000 <= 20132659 * canvas) by (nonlinear_arith)
                requires
                    2 * ua == sum * unit,
                    unit == 0x200_0000 * last,
                    2 * ua <= canvas * (20132659 * last),
                    last > 0,
            ;
        }
    }
}

/// On a canvas of ordinary size, an icon is squeezed into the corner exactly where its
/// visible part covers less than a quarter of the canvas, with its middle in the first
/// three tenths of both sides.
pub proof fn corner_icons_are_small_and_early(bounds: PixelBounds)
    requires
        bounds.wf(),
        bounds.canvas_width <= 0x80_0000,
        bounds.canvas_height <= 0x80_0000,
        bounds.canvas_width * bounds.canvas_height < 0x100_0000,
    ensures
        is_topleft(bounds) <==> {
            &&& 4 * ((bounds.max_x - bounds.min_x + 1) * (bounds.max_y - bounds.min_y + 1))
                < bounds.canvas_width * bounds.canvas_height
            &&& 5 * (bounds.min_x + bounds.max_x) < 3 * bounds.canvas_width
            &&& 5 * (bounds.min_y + bounds.max_y) < 3 * bounds.canvas_height
        },
{
    let width = bounds.max_x - bounds.min_x + 1;
    let height = bounds.max_y - bounds.min_y + 1;
    assert(1 <= width * height <= bounds.canvas_width * bounds.canvas_height) by (nonlinear_arith)
        requires
            1 <= width <= bounds.canvas_width,
            1 <= height <= bounds.canvas_height,
    ;
    lemma_quarter(width * height, bounds.canvas_width * bounds.canvas_height);
    lemma_three_tenths(bounds.min_x, bounds.max_x, bounds.canvas_width);
    lemma_three_tenths(bounds.min_y, bounds.max_y, bounds.canvas_height);
}

} // verus!
