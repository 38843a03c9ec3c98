//! The size at which an icon is drawn: rounding to 24 bits, and what is computed with it.
use vstd::arithmetic::power2::{lemma2_to64, lemma_pow2_pos, lemma_pow2_unfold, pow2};
use vstd::prelude::*;

use crate::binary32::{excess_bits, missing_bits, nearest_even, Binary32};
use crate::icon_scale::{
    corner_icons_are_small_and_early, desired_visible_size, is_topleft_icon, is_valid_icon,
    normalized_rect, normalized_scale, scale_of, scaled_length,
    visible_part_keeps_its_shape_and_takes_seven_tenths,
};
use crate::laws::panel::is_centred;
use crate::pixels::PixelBounds;
use crate::rounding::{lemma_excess_bits, lemma_excess_is_small, lemma_missing_bits};

verus! {

/// The mantissa is the whole number nearest to `exact` over `unit`, and of two that are
/// equally near the even one. Below the least mantissa numbers stand twice as close.
pub open spec fn rounds(mantissa: int, unit: int, exact: int) -> bool {
    &&& 0x80_0000 <= mantissa < 0x100_0000
    &&& 2 * (exact - mantissa * unit) <= unit
    &&& 2 * (mantissa * unit - exact) <= unit
    &&& 2 * (exact - mantissa * unit) == unit || 2 * (mantissa * unit - exact) == unit ==> mantissa
        % 2 == 0
    &&& mantissa == 0x80_0000 ==> 4 * (mantissa * unit - exact) <= unit
}

proof fn lemma_nearest(n: int, d: int)
    requires
        d > 0,
        0x80_0000 * d <= n < 0x100_0000 * d,
    ensures
        ({
            let q = nearest_even(n, d);
            &&& 0x80_0000 <= q <= 0x100_0000
            &&& 2 * (n - q * d) <= d
            &&& 2 * (q * d - n) <= d
            &&& 2 * (n - q * d) == d || 2 * (q * d - n) == d ==> q % 2 == 0
        }),
{
    vstd::arithmetic::div_mod::lemma_fundamental_div_mod(n, d);
    vstd::arithmetic::div_mod::lemma_mod_bound(n, d);
    let q = n / d;
    let r = n % d;
    assert(0x80_0000 <= q < 0x100_0000) by (nonlinear_arith)
        requires
            d > 0,
            0x80_0000 * d <= n < 0x100_0000 * d,
            n == d * q + r,
            0 <= r < d,
    ;
    assert((q + 1) * d == q * d + d && d * q == q * d) by (nonlinear_arith);
}

proof fn lemma_rounds(n: int, d: int)
    requires
        d > 0,
        0x80_0000 * d <= n < 0x100_0000 * d,
    ensures
        ({
            let q = nearest_even(n, d);
            if q == 0x100_0000 {
                rounds(0x80_0000, 2 * d, n)
            } else {
                rounds(q, d, n)
            }
        }),
{
    lemma_nearest(n, d);
    let q = nearest_even(n, d);
    if q == 0x100_0000 {
        assert(0x80_0000 * (2 * d) == q * d) by (nonlinear_arith)
            requires
                q == 0x100_0000,
        ;
    }
}

/// A product is rounded to 24 bits: to the nearest number, and of two to the even one.
pub proof fn products_are_rounded_to_the_nearest(a: Binary32, b: Binary32, result: Binary32)
    requires
        a.wf(),
        b.wf(),
        -1000 <= a.exponent <= 1000,
        -1000 <= b.exponent <= 1000,
        call_ensures(Binary32::times, (a, b), result),
    ensures
        ({
            let lost = result.exponent - a.exponent - b.exponent;
            &&& lost >= 0
            &&& rounds(
                result.mantissa as int,
                pow2(lost as nat) as int,
                a.mantissa * b.mantissa,
            )
        }),
{
    lemma2_to64();
    lemma_pow2_unfold(24);
    lemma_pow2_unfold(25);
    let p = a.mantissa * b.mantissa;
    assert(0x80_0000 * 0x80_0000 <= p <= 0xff_ffff * 0xff_ffff) by (nonlinear_arith)
        requires
            p == a.mantissa * b.mantissa,
            0x80_0000 <= a.mantissa <= 0xff_ffff,
            0x80_0000 <= b.mantissa <= 0xff_ffff,
    ;
    if p < 0x8000_0000_0000 {
        lemma_rounds(p, 0x80_0000);
    } else {
        lemma_rounds(p, 0x100_0000);
    }
}

/// A quotient is rounded to 24 bits: to the nearest number, and of two to the even one.
pub proof fn quotients_are_rounded_to_the_nearest(a: Binary32, b: Binary32, result: Binary32)
    requires
        a.wf(),
        b.wf(),
        -1000 <= a.exponent <= 1000,
        -1000 <= b.exponent <= 1000,
        call_ensures(Binary32::over, (a, b), result),
    ensures
        ({
            let gained = a.exponent - b.exponent - result.exponent;
            let divisor = b.mantissa as int;
            let shifted = a.mantissa * pow2(gained as nat) as int;
            &&& gained >= 0
            &&& rounds(result.mantissa as int, divisor, shifted)
        }),
{
    lemma2_to64();
    lemma_pow2_unfold(24);
    lemma_pow2_unfold(23);
    let d = b.mantissa as int;
    let (scaled, bits): (int, nat) = if a.mantissa >= b.mantissa {
        (a.mantissa * 0x80_0000, 23)
    } else {
        (a.mantissa * 0x100_0000, 24)
    };
    assert(scaled == a.mantissa * pow2(bits));
    lemma_nearest(scaled, d);
    let q = nearest_even(scaled, d);
    let gained = a.exponent - b.exponent - result.exponent;
    if q == 0x100_0000 {
        assert(gained == bits - 1);
        let half = a.mantissa * pow2((bits - 1) as nat) as int;
        lemma_pow2_unfold(bits);
        assert(scaled == 2 * half) by (nonlinear_arith)
            requires
                scaled == a.mantissa * pow2(bits),
                half == a.mantissa * pow2((bits - 1) as nat),
                pow2(bits) == 2 * pow2((bits - 1) as nat),
        ;
    }
}

/// A whole number is kept where 24 bits hold it, and is rounded to them where they do not:
/// to the nearest number, and of two to the even one.
pub proof fn whole_numbers_are_rounded_to_the_nearest(n: u32, result: Binary32)
    requires
        n > 0,
        call_ensures(Binary32::from_positive, (n,), result),
    ensures
        0x80_0000 <= result.mantissa < 0x100_0000,
        result.exponent <= 0 ==> result.mantissa == n * pow2((-result.exponent) as nat),
        n < 0x100_0000 ==> result.exponent <= 0,
        result.exponent > 0 ==> rounds(
            result.mantissa as int,
            pow2(result.exponent as nat) as int,
            n as int,
        ),
{
    if n < 0x100_0000 {
        lemma_missing_bits(n as nat);
        assert(result.mantissa == n * pow2(missing_bits(n as nat)));
    } else {
        let bits = excess_bits(n as nat);
        lemma_excess_bits(n as nat);
        lemma_excess_is_small(n as nat);
        lemma_pow2_pos(bits);
        lemma_rounds(n as int, pow2(bits) as int);
        lemma_pow2_unfold(bits + 1);
        assert(bits >= 1);
    }
}

/// The whole number nearest to a number of 24 bits comes out of it, the greater of two, and
/// the greatest that 32 bits hold where that is less.
pub proof fn numbers_come_out_as_the_nearest_whole(number: Binary32, whole: i32)
    requires
        number.wf(),
        -1000 <= number.exponent <= 1000,
        call_ensures(Binary32::round, (number,), whole),
    ensures
        number.exponent >= 0 ==> {
            let exact = number.mantissa * pow2(number.exponent as nat);
            &&& exact <= 0x7fff_ffff ==> whole == exact
            &&& exact > 0x7fff_ffff ==> whole == 0x7fff_ffff
        },
        number.exponent < 0 ==> {
            let unit = pow2((-number.exponent) as nat) as int;
            (2 * whole - 1) * unit <= 2 * number.mantissa < (2 * whole + 1) * unit
        },
{
    if number.exponent < 0 {
        let unit = pow2((-number.exponent) as nat) as int;
        lemma_pow2_pos((-number.exponent) as nat);
        let n = 2 * number.mantissa + unit;
        let d = 2 * unit;
        let w = n / d;
        vstd::arithmetic::div_mod::lemma_fundamental_div_mod(n, d);
        vstd::arithmetic::div_mod::lemma_mod_bound(n, d);
        lemma_pow2_unfold((-number.exponent) as nat);
        lemma_pow2_pos((-number.exponent - 1) as nat);
        assert(unit >= 2);
        assert(w <= 0x100_0000) by (nonlinear_arith)
            requires
                n == d * w + n % d,
                0 <= n % d,
                d == 2 * unit,
                n == 2 * number.mantissa + unit,
                number.mantissa < 0x100_0000,
                unit >= 2,
        ;
        assert(w == whole);
        assert((2 * w - 1) * unit <= 2 * number.mantissa < (2 * w + 1) * unit) by (nonlinear_arith)
            requires
                n == d * w + n % d,
                0 <= n % d < d,
                d == 2 * unit,
                n == 2 * number.mantissa + unit,
        ;
    }
}

/// The number of 24 bits nearest to seven tenths.
pub open spec fn is_seven_tenths(number: Binary32) -> bool {
    &&& number.exponent == -24
    &&& -5 <= 10 * number.mantissa - 7 * 0x100_0000 <= 5
}

/// The number of 24 bits nearest to three tenths.
pub open spec fn is_three_tenths(number: Binary32) -> bool {
    &&& number.exponent == -25
    &&& -5 <= 10 * number.mantissa - 3 * 0x200_0000 <= 5
}

/// The visible part of an icon takes seven tenths of the square that it is drawn in, to the
/// nearest whole pixel, and a pixel at least.
pub proof fn seven_tenths_of_the_square_are_wanted(
    target_size: i32,
    wanted: i32,
    share: Binary32,
    size: Binary32,
    visible: Binary32,
    whole: i32,
)
    requires
        call_ensures(desired_visible_size, (target_size,), wanted),
        is_seven_tenths(share),
        call_ensures(
            Binary32::from_positive,
            (if target_size < 1 {
                1u32
            } else {
                target_size as u32
            },),
            size,
        ),
        call_ensures(Binary32::times, (size, share), visible),
        call_ensures(Binary32::round, (visible,), whole),
    ensures
        whole >= 1 ==> wanted == whole,
        whole < 1 ==> wanted == 1,
{
}

/// An icon is scaled so that the longer side of its visible part takes what it is wanted to
/// take.
pub proof fn icons_are_scaled_by_their_longer_side(
    bounds: PixelBounds,
    target_size: i32,
    scale: Binary32,
    share: Binary32,
    size: Binary32,
    visible: Binary32,
    longer: u32,
    extent: Binary32,
    expected: Binary32,
)
    requires
        bounds.wf(),
        call_ensures(normalized_scale, (bounds, target_size), scale),
        is_seven_tenths(share),
        call_ensures(
            Binary32::from_positive,
            (if target_size < 1 {
                1u32
            } else {
                target_size as u32
            },),
            size,
        ),
        call_ensures(Binary32::times, (size, share), visible),
        longer >= bounds.max_x - bounds.min_x + 1,
        longer >= bounds.max_y - bounds.min_y + 1,
        longer == bounds.max_x - bounds.min_x + 1 || longer == bounds.max_y - bounds.min_y + 1,
        call_ensures(Binary32::from_positive, (longer,), extent),
        call_ensures(Binary32::over, (visible, extent), expected),
    ensures
        scale == expected,
{
}

/// The visible part of an icon is drawn in the middle of the square, both of its sides
/// scaled alike and a pixel long at least.
pub proof fn icons_are_drawn_in_the_middle(
    bounds: PixelBounds,
    target_size: i32,
    rect: (i32, i32, i32, i32),
    scale: Binary32,
    columns: Binary32,
    rows: Binary32,
    scaled_columns: Binary32,
    scaled_rows: Binary32,
    width: i32,
    height: i32,
)
    requires
        bounds.wf(),
        call_ensures(normalized_rect, (bounds, target_size), rect),
        call_ensures(normalized_scale, (bounds, target_size), scale),
        call_ensures(
            Binary32::from_positive,
            ((bounds.max_x - bounds.min_x + 1) as u32,),
            columns,
        ),
        call_ensures(Binary32::from_positive, ((bounds.max_y - bounds.min_y + 1) as u32,), rows),
        call_ensures(Binary32::times, (columns, scale), scaled_columns),
        call_ensures(Binary32::times, (rows, scale), scaled_rows),
        call_ensures(Binary32::round, (scaled_columns,), width),
        call_ensures(Binary32::round, (scaled_rows,), height),
    ensures
        is_centred(rect.0 as int, width as int, 0, target_size as int),
        is_centred(rect.1 as int, height as int, 0, target_size as int),
        width >= 1 ==> rect.2 == width,
        width < 1 ==> rect.2 == 1,
        height >= 1 ==> rect.3 == height,
        height < 1 ==> rect.3 == 1,
{
}

/// An icon keeps its shape and takes seven tenths of the square: each side is within half a
/// pixel, and a ten-thousandth of the square, of its share.
pub proof fn icons_keep_their_shape(
    bounds: PixelBounds,
    target_size: i32,
    rect: (i32, i32, i32, i32),
    longer: int,
)
    requires
        bounds.wf(),
        target_size >= 1,
        call_ensures(normalized_rect, (bounds, target_size), rect),
        longer >= bounds.max_x - bounds.min_x + 1,
        longer >= bounds.max_y - bounds.min_y + 1,
        longer == bounds.max_x - bounds.min_x + 1 || longer == bounds.max_y - bounds.min_y + 1,
    ensures
        ({
            let columns = bounds.max_x - bounds.min_x + 1;
            let rows = bounds.max_y - bounds.min_y + 1;
            &&& 1 <= rect.2 <= target_size
            &&& 1 <= rect.3 <= target_size
            &&& rect.2 > 1 ==> 10000 * (longer * (2 * rect.2 - 1)) <= 14002 * (columns
                * target_size)
            &&& 13998 * (columns * target_size) < 10000 * (longer * (2 * rect.2 + 1))
            &&& rect.3 > 1 ==> 10000 * (longer * (2 * rect.3 - 1)) <= 14002 * (rows * target_size)
            &&& 13998 * (rows * target_size) < 10000 * (longer * (2 * rect.3 + 1))
        }),
{
    let columns = bounds.max_x - bounds.min_x + 1;
    let rows = bounds.max_y - bounds.min_y + 1;
    visible_part_keeps_its_shape_and_takes_seven_tenths(bounds, target_size, columns);
    visible_part_keeps_its_shape_and_takes_seven_tenths(bounds, target_size, rows);
    assert(longer == bounds.extent());
    let width = scaled_length(columns, scale_of(bounds, target_size));
    let height = scaled_length(rows, scale_of(bounds, target_size));
    if width < 1 {
        assert(longer * (2 * width + 1) <= longer * 3) by (nonlinear_arith)
            requires
                width < 1,
                longer > 0,
        ;
    }
    if height < 1 {
        assert(longer * (2 * height + 1) <= longer * 3) by (nonlinear_arith)
            requires
                height < 1,
                longer > 0,
        ;
    }
}

/// The visible part of an icon covers less than a quarter of its canvas, and its middle
/// lies in the first three tenths of both sides.
pub open spec fn is_in_the_corner(bounds: PixelBounds) -> bool {
    let columns = bounds.max_x - bounds.min_x + 1;
    let rows = bounds.max_y - bounds.min_y + 1;
    &&& 4 * (columns * rows) < bounds.canvas_width * bounds.canvas_height
    &&& 5 * (bounds.min_x + bounds.max_x) < 3 * bounds.canvas_width
    &&& 5 * (bounds.min_y + bounds.max_y) < 3 * bounds.canvas_height
}

/// An icon of the system is drawn unless it is squeezed into the corner. Nothing is said of
/// one whose visible part is not known.
pub proof fn icons_in_the_corner_are_not_drawn(
    bounds: &PixelBounds,
    topleft: bool,
    known: &Option<PixelBounds>,
    valid: Option<bool>,
)
    requires
        bounds.wf(),
        bounds.canvas_width <= 0x80_0000,
        bounds.canvas_height <= 0x80_0000,
        bounds.canvas_width * bounds.canvas_height < 0x100_0000,
        call_ensures(is_topleft_icon, (bounds,), topleft),
        call_ensures(is_valid_icon, (known,), valid),
    ensures
        topleft <==> is_in_the_corner(*bounds),
        *known is None <==> valid is None,
        *known == Some(*bounds) ==> valid == Some(!topleft),
{
    corner_icons_are_small_and_early(*bounds);
}

/// The number is less than another, both with 24 bits.
pub open spec fn is_less(one: Binary32, other: Binary32) -> bool {
    ||| one.exponent < other.exponent
    ||| one.exponent == other.exponent && one.mantissa < other.mantissa
}

/// The middle of a side lies in the first three tenths of the canvas, as far as 24 bits
/// tell: `sum` and `canvas` hold the sum of its ends and the size of the canvas, `share`
/// what the half of the one is of the other.
pub open spec fn is_shared(
    min: i32,
    max: i32,
    canvas_size: i32,
    sum: Binary32,
    canvas: Binary32,
    share: Binary32,
) -> bool {
    &&& call_ensures(Binary32::from_positive, ((min + max) as u32,), sum)
    &&& call_ensures(Binary32::from_positive, (canvas_size as u32,), canvas)
    &&& call_ensures(
        Binary32::over,
        ((Binary32 { mantissa: sum.mantissa, exponent: (sum.exponent - 1) as i32 }), canvas),
        share,
    )
}

/// On a canvas of any size, an icon is squeezed into the corner where its visible part is
/// less than a quarter of the canvas, and its middle in the first three tenths of both
/// sides, each share rounded to 24 bits.
pub proof fn corners_are_told_with_24_bits(
    bounds: &PixelBounds,
    topleft: bool,
    area: Binary32,
    canvas_area: Binary32,
    covered: Binary32,
    x_sum: Binary32,
    x_canvas: Binary32,
    x_share: Binary32,
    y_sum: Binary32,
    y_canvas: Binary32,
    y_share: Binary32,
    limit: Binary32,
)
    requires
        bounds.is_measurable(),
        call_ensures(is_topleft_icon, (bounds,), topleft),
        is_three_tenths(limit),
        call_ensures(
            Binary32::from_positive,
            (((bounds.max_x - bounds.min_x + 1) * (bounds.max_y - bounds.min_y + 1)) as u32,),
            area,
        ),
        call_ensures(
            Binary32::from_positive,
            ((bounds.canvas_width * bounds.canvas_height) as u32,),
            canvas_area,
        ),
        call_ensures(Binary32::over, (area, canvas_area), covered),
        bounds.max_x > 0 ==> is_shared(
            bounds.min_x,
            bounds.max_x,
            bounds.canvas_width,
            x_sum,
            x_canvas,
            x_share,
        ),
        bounds.max_y > 0 ==> is_shared(
            bounds.min_y,
            bounds.max_y,
            bounds.canvas_height,
            y_sum,
            y_canvas,
            y_share,
        ),
    ensures
        topleft <==> {
            &&& covered.exponent < -25
            &&& bounds.max_x == 0 || is_less(x_share, limit)
            &&& bounds.max_y == 0 || is_less(y_share, limit)
        },
{
    let width = bounds.max_x - bounds.min_x + 1;
    let height = bounds.max_y - bounds.min_y + 1;
    assert(1 <= width * height <= bounds.canvas_width * bounds.canvas_height) by (nonlinear_arith)
        requires
            1 <= width <= bounds.canvas_width,
            1 <= height <= bounds.canvas_height,
    ;
}

} // verus!
