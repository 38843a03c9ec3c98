//! The pixels of an icon: which part of it is visible, and what becomes of its bytes.
use vstd::prelude::*;

use crate::laws::icons::is_whole;
use crate::pixels::{
    alpha_bounds, bounds_visible, canonical_dimensions, canonicalize_pixels,
    clear_fully_transparent_rgb, color_icon_bounds, has_semi_transparent, icon_dimensions,
    make_surface_opaque, mask_bounds, mask_visibility, monochrome_icon_bounds, monochrome_in,
    monochrome_mask_visibility, needs_mask, opaque_in, premultiply_alpha, scaled_channel,
    select_bounds, tight_bounds_are_unique, unmasked_in, visible_in, PixelBounds,
};

verus! {

/// The box is the smallest around the shown pixels of a canvas, whose pixels are counted
/// row by row: it holds each of them, and each of its four edges has one.
pub open spec fn is_box_around(
    bounds: PixelBounds,
    width: int,
    height: int,
    shown: spec_fn(int) -> bool,
) -> bool {
    &&& bounds.canvas_width == width
    &&& bounds.canvas_height == height
    &&& forall|p: int|
        0 <= p < width * height && #[trigger] shown(p) ==> {
            &&& bounds.min_x <= p % width <= bounds.max_x
            &&& bounds.min_y <= p / width <= bounds.max_y
        }
    &&& exists|p: int| 0 <= p < width * height && #[trigger] shown(p) && p % width == bounds.min_x
    &&& exists|p: int| 0 <= p < width * height && #[trigger] shown(p) && p % width == bounds.max_x
    &&& exists|p: int| 0 <= p < width * height && #[trigger] shown(p) && p / width == bounds.min_y
    &&& exists|p: int| 0 <= p < width * height && #[trigger] shown(p) && p / width == bounds.max_y
}

/// The box is the smallest around the shown pixels, and there is one where a pixel is
/// shown.
pub open spec fn boxes(
    bounds: Option<PixelBounds>,
    width: int,
    height: int,
    shown: spec_fn(int) -> bool,
) -> bool {
    match bounds {
        Some(bounds) => is_box_around(bounds, width, height, shown),
        None => forall|p: int| 0 <= p < width * height ==> !#[trigger] shown(p),
    }
}

proof fn lemma_row_and_column(x: int, y: int, width: int, height: int)
    requires
        0 <= x < width,
        0 <= y < height,
    ensures
        0 <= y * width + x < width * height,
        (y * width + x) % width == x,
        (y * width + x) / width == y,
{
    assert(0 <= y * width + x < width * height) by (nonlinear_arith)
        requires
            0 <= x < width,
            0 <= y < height,
    ;
    vstd::arithmetic::div_mod::lemma_fundamental_div_mod_converse(y * width + x, width, y, x);
}

proof fn lemma_place_of_pixel(p: int, width: int, height: int)
    requires
        0 <= p < width * height,
        0 < width,
    ensures
        0 <= p % width < width,
        0 <= p / width < height,
        (p / width) * width + p % width == p,
{
    vstd::arithmetic::div_mod::lemma_fundamental_div_mod(p, width);
    let row = p / width;
    assert(row * width == width * row) by (nonlinear_arith);
    assert(row >= 0) by (nonlinear_arith)
        requires
            0 <= p,
            0 < width,
            row == p / width,
    ;
    assert(row < height) by (nonlinear_arith)
        requires
            row * width <= p,
            p < width * height,
            0 < width,
    ;
}

proof fn lemma_boxes(
    bounds: Option<PixelBounds>,
    width: i32,
    height: i32,
    visible: spec_fn(int, int) -> bool,
    shown: spec_fn(int) -> bool,
)
    requires
        width > 0,
        height > 0,
        bounds_visible(bounds, width, height, visible),
        forall|x: int, y: int|
            0 <= x < width && 0 <= y < height ==> #[trigger] visible(x, y) == shown(y * width + x),
    ensures
        boxes(bounds, width as int, height as int, shown),
{
    let w = width as int;
    let h = height as int;
    assert forall|p: int| 0 <= p < w * h && #[trigger] shown(p) implies visible(
        p % w,
        p / w,
    ) by {
        lemma_place_of_pixel(p, w, h);
        assert(visible(p % w, p / w) == shown((p / w) * w + p % w));
    }
    if let Some(b) = bounds {
        assert forall|p: int| 0 <= p < w * h && #[trigger] shown(p) implies {
            &&& b.min_x <= p % w <= b.max_x
            &&& b.min_y <= p / w <= b.max_y
        } by {
            lemma_place_of_pixel(p, w, h);
            assert(b.contains(p % w, p / w));
        }
        let left = choose|y: int| 0 <= y < height && #[trigger] visible(b.min_x as int, y);
        lemma_row_and_column(b.min_x as int, left, w, h);
        assert(shown(left * w + b.min_x));
        let right = choose|y: int| 0 <= y < height && #[trigger] visible(b.max_x as int, y);
        lemma_row_and_column(b.max_x as int, right, w, h);
        assert(shown(right * w + b.max_x));
        let top = choose|x: int| 0 <= x < width && #[trigger] visible(x, b.min_y as int);
        lemma_row_and_column(top, b.min_y as int, w, h);
        assert(shown(b.min_y * w + top));
        let bottom = choose|x: int| 0 <= x < width && #[trigger] visible(x, b.max_y as int);
        lemma_row_and_column(bottom, b.max_y as int, w, h);
        assert(shown(b.max_y * w + bottom));
    } else {
        assert forall|p: int| 0 <= p < w * h implies !#[trigger] shown(p) by {
            lemma_place_of_pixel(p, w, h);
            assert(visible(p % w, p / w) == shown((p / w) * w + p % w));
        }
    }
}

/// The pixel can be seen by its alpha, which is its fourth byte.
pub open spec fn is_seen(pixels: Seq<u8>, p: int) -> bool {
    pixels[4 * p + 3] > 8
}

/// The box by alpha is the smallest around the pixels whose alpha is more than eight. There
/// is none without such a pixel, nor where the image has no size or is not all there.
pub proof fn alpha_boxes_what_is_seen(
    width: i32,
    height: i32,
    pixels: &[u8],
    bounds: Option<PixelBounds>,
)
    requires
        call_ensures(alpha_bounds, (width, height, pixels), bounds),
    ensures
        width <= 0 || height <= 0 || pixels@.len() < 4 * (width * height) ==> bounds is None,
        width > 0 && height > 0 && pixels@.len() >= 4 * (width * height) ==> boxes(
            bounds,
            width as int,
            height as int,
            |p: int| is_seen(pixels@, p),
        ),
{
    if width > 0 && height > 0 && pixels@.len() >= 4 * (width * height) {
        lemma_boxes(
            bounds,
            width,
            height,
            opaque_in(pixels@, width as int),
            |p: int| is_seen(pixels@, p),
        );
    }
}

/// The box by a mask is the smallest around the pixels that it shows. There is none where
/// it shows none, or has not as many pixels as the canvas.
pub proof fn masks_box_what_they_show(
    width: i32,
    height: i32,
    visible: &[bool],
    bounds: Option<PixelBounds>,
)
    requires
        call_ensures(mask_bounds, (width, height, visible), bounds),
    ensures
        width <= 0 || height <= 0 || visible@.len() != width * height ==> bounds is None,
        width > 0 && height > 0 && visible@.len() == width * height ==> boxes(
            bounds,
            width as int,
            height as int,
            |p: int| visible@[p],
        ),
{
    if width > 0 && height > 0 && visible@.len() == width * height {
        lemma_boxes(
            bounds,
            width,
            height,
            visible_in(visible@, width as int),
            |p: int| visible@[p],
        );
    }
}

/// The pixel is black: its first three bytes are zero.
pub open spec fn is_black(pixels: Seq<u8>, p: int) -> bool {
    pixels[4 * p] == 0 && pixels[4 * p + 1] == 0 && pixels[4 * p + 2] == 0
}

/// A pixel of a two-colour icon is hidden where its first mask is set and the second is
/// not: the second is black there and the first is not.
pub open spec fn is_hidden(pixels: Seq<u8>, count: int, p: int) -> bool {
    !is_black(pixels, p) && is_black(pixels, count + p)
}

/// The two masks of a two-colour icon, one above the other, show each pixel that they do
/// not hide; the box is the smallest around those.
pub proof fn two_masks_show_what_they_do_not_hide(
    width: i32,
    height: i32,
    pixels: &[u8],
    visible: Option<Vec<bool>>,
    bounds: Option<PixelBounds>,
)
    requires
        call_ensures(monochrome_mask_visibility, (width, height, pixels), visible),
        call_ensures(monochrome_icon_bounds, (width, height, pixels), bounds),
    ensures
        visible is Some <==> width > 0 && height > 0 && pixels@.len() == 2 * (4 * (width
            * height)),
        visible is None ==> bounds is None,
        visible is Some ==> visible->0@.len() == width * height,
        visible is Some ==> forall|p: int|
            0 <= p < width * height ==> (#[trigger] visible->0@[p] <==> !is_hidden(
                pixels@,
                width * height,
                p,
            )),
        visible is Some ==> boxes(
            bounds,
            width as int,
            height as int,
            |p: int| !is_hidden(pixels@, width * height, p),
        ),
{
    if visible is Some {
        assert(width * height > 0) by (nonlinear_arith)
            requires
                width > 0,
                height > 0,
        ;
        lemma_boxes(
            bounds,
            width,
            height,
            monochrome_in(pixels@, width as int, height as int),
            |p: int| !is_hidden(pixels@, width * height, p),
        );
    }
}

/// The mask of a colour icon shows the pixels that it holds black.
pub proof fn masks_show_what_they_hold_black(pixels: &[u8], visible: Vec<bool>)
    requires
        call_ensures(mask_visibility, (pixels,), visible),
    ensures
        4 * visible@.len() <= pixels@.len() < 4 * visible@.len() + 4,
        forall|p: int|
            0 <= p < visible@.len() ==> (#[trigger] visible@[p] <==> is_black(pixels@, p)),
{
}

/// The pixel is translucent: it can be seen, and seen through.
pub open spec fn is_translucent(pixels: Seq<u8>, p: int) -> bool {
    8 < pixels[4 * p + 3] < 255
}

/// Translucent pixels are found wherever they stand.
pub proof fn translucent_pixels_are_found(pixels: &[u8], found: bool)
    requires
        call_ensures(has_semi_transparent, (pixels,), found),
    ensures
        found <==> exists|p: int|
            0 <= p && 4 * p + 3 < pixels@.len() && #[trigger] is_translucent(pixels@, p),
{
    if found {
        let i = choose|i: int|
            0 <= i < pixels@.len() / 4 && 8 < (#[trigger] pixels@[i * 4 + 3]) < u8::MAX;
        assert(is_translucent(pixels@, i));
    }
    if exists|p: int|
        0 <= p && 4 * p + 3 < pixels@.len() && #[trigger] is_translucent(pixels@, p) {
        let p = choose|p: int|
            0 <= p && 4 * p + 3 < pixels@.len() && #[trigger] is_translucent(pixels@, p);
        assert(8 < pixels@[p * 4 + 3] < u8::MAX);
    }
}

proof fn lemma_whole(bounds: PixelBounds)
    ensures
        bounds == crate::pixels::canvas(bounds.canvas_width, bounds.canvas_height)
            && bounds.canvas_width > i32::MIN && bounds.canvas_height > i32::MIN ==> is_whole(
            bounds,
            bounds.canvas_width,
            bounds.canvas_height,
        ),
        is_whole(bounds, bounds.canvas_width, bounds.canvas_height) ==> bounds
            == crate::pixels::canvas(bounds.canvas_width, bounds.canvas_height),
{
}

/// The box to go by. The box by alpha counts where it leaves out some edge of the canvas,
/// or where a pixel is translucent; where it does not count, the box by the mask goes
/// before it; and for want of both it is the whole canvas.
pub proof fn the_box_of_a_telling_alpha_counts(
    alpha: Option<PixelBounds>,
    mask: Option<PixelBounds>,
    width: i32,
    height: i32,
    pixels: &[u8],
    translucent: bool,
    bounds: PixelBounds,
)
    requires
        call_ensures(select_bounds, (alpha, mask, width, height, pixels), bounds),
        call_ensures(has_semi_transparent, (pixels,), translucent),
        alpha matches Some(alpha) ==> alpha.canvas_width > i32::MIN && alpha.canvas_height
            > i32::MIN,
        width > i32::MIN,
        height > i32::MIN,
    ensures
        alpha matches Some(alpha) ==> (translucent || !is_whole(
            alpha,
            alpha.canvas_width,
            alpha.canvas_height,
        ) ==> bounds == alpha),
        alpha matches Some(alpha) ==> (!translucent && is_whole(
            alpha,
            alpha.canvas_width,
            alpha.canvas_height,
        ) ==> bounds == (if mask is Some {
            mask->0
        } else {
            alpha
        })),
        alpha is None && mask is Some ==> bounds == mask->0,
        alpha is None && mask is None ==> is_whole(bounds, width, height),
{
    if let Some(alpha) = alpha {
        lemma_whole(alpha);
    }
}

/// The mask of a colour icon has to be asked where alpha tells nothing: no pixel is
/// translucent, and the box by alpha is the whole canvas or there is none.
pub proof fn masks_are_asked_where_alpha_tells_nothing(
    width: i32,
    height: i32,
    pixels: &[u8],
    alpha: Option<PixelBounds>,
    translucent: bool,
    needed: bool,
)
    requires
        call_ensures(needs_mask, (width, height, pixels), needed),
        call_ensures(alpha_bounds, (width, height, pixels), alpha),
        call_ensures(has_semi_transparent, (pixels,), translucent),
        width > 0 && height > 0 ==> pixels@.len() == 4 * (width * height),
    ensures
        width <= 0 || height <= 0 ==> !needed,
        width > 0 && height > 0 ==> (needed <==> !translucent && (alpha matches Some(alpha)
            ==> is_whole(alpha, width, height))),
{
    if width > 0 && height > 0 {
        lemma_alpha_tells(width, height, pixels@, alpha);
    }
}

proof fn lemma_alpha_tells(width: i32, height: i32, pixels: Seq<u8>, alpha: Option<PixelBounds>)
    requires
        width > 0,
        height > 0,
        bounds_visible(alpha, width, height, opaque_in(pixels, width as int)),
    ensures
        crate::pixels::alpha_tells(width, height, pixels) <==> crate::pixels::has_translucent(
            pixels,
        ) || (alpha is Some && !is_whole(alpha->0, width, height)),
        alpha is None <==> crate::pixels::is_blank(
            width,
            height,
            opaque_in(pixels, width as int),
        ),
{
    let opaque = opaque_in(pixels, width as int);
    let whole = crate::pixels::canvas(width, height);
    if let Some(alpha) = alpha {
        tight_bounds_are_unique(alpha, alpha, width, height, opaque);
        lemma_whole(alpha);
        if crate::pixels::is_tight(whole, width, height, opaque) {
            tight_bounds_are_unique(alpha, whole, width, height, opaque);
        }
    }
}

/// The box of a colour icon is the one by alpha, but where the mask has to be asked: then
/// it is the smallest around the pixels that the mask holds black, if there are any and
/// the mask has as many pixels as the icon.
pub proof fn colour_icons_are_boxed_by_alpha_or_mask(
    width: i32,
    height: i32,
    pixels: &[u8],
    mask: Option<&[u8]>,
    alpha: Option<PixelBounds>,
    needed: bool,
    bounds: Option<PixelBounds>,
)
    requires
        call_ensures(color_icon_bounds, (width, height, pixels, mask), bounds),
        call_ensures(needs_mask, (width, height, pixels), needed),
        call_ensures(alpha_bounds, (width, height, pixels), alpha),
        width > 0 && height > 0 ==> pixels@.len() == 4 * (width * height),
    ensures
        !needed || mask is None || mask->0@.len() / 4 != width * height ==> bounds == alpha,
        needed && mask is Some && mask->0@.len() / 4 == width * height ==> {
            let shown = |p: int| is_black(mask->0@, p);
            if exists|p: int| 0 <= p < width * height && #[trigger] shown(p) {
                bounds is Some && is_box_around(bounds->0, width as int, height as int, shown)
            } else {
                bounds == alpha
            }
        },
{
    if width > 0 && height > 0 {
        let opaque = opaque_in(pixels@, width as int);
        lemma_alpha_tells(width, height, pixels@, alpha);
        if needed && mask is Some && mask->0@.len() / 4 == width * height {
            let shown = |p: int| is_black(mask->0@, p);
            let unmasked = unmasked_in(mask->0@, width as int);
            if crate::pixels::is_blank(width, height, unmasked) {
                lemma_boxes(None, width, height, unmasked, shown);
                lemma_same_box(bounds, alpha, width, height, opaque);
            } else {
                lemma_boxes(bounds, width, height, unmasked, shown);
            }
        } else {
            lemma_same_box(bounds, alpha, width, height, opaque);
        }
    }
}

proof fn lemma_same_box(
    one: Option<PixelBounds>,
    other: Option<PixelBounds>,
    width: i32,
    height: i32,
    visible: spec_fn(int, int) -> bool,
)
    requires
        bounds_visible(one, width, height, visible),
        bounds_visible(other, width, height, visible),
    ensures
        one == other,
{
    if one is Some && other is Some {
        tight_bounds_are_unique(one->0, other->0, width, height, visible);
    } else if one is Some {
        tight_bounds_are_unique(one->0, one->0, width, height, visible);
    } else if other is Some {
        tight_bounds_are_unique(other->0, other->0, width, height, visible);
    }
}

/// Scaling by alpha keeps every alpha and brings each colour to the whole number nearest to
/// its share: colour times alpha over 255.
pub proof fn colours_are_scaled_to_the_nearest(pixels: &mut [u8], p: int, channel: int)
    requires
        call_ensures(premultiply_alpha, (pixels,), ()),
        0 <= p,
        4 * p + 3 < old(pixels)@.len(),
        0 <= channel < 3,
    ensures
        final(pixels)@.len() == old(pixels)@.len(),
        final(pixels)@[4 * p + 3] == old(pixels)@[4 * p + 3],
        ({
            let exact = old(pixels)@[4 * p + channel] * old(pixels)@[4 * p + 3];
            let scaled = final(pixels)@[4 * p + channel];
            -127 <= 255 * scaled - exact <= 127
        }),
{
    let before = old(pixels)@;
    let i = 4 * p + channel;
    assert(i / 4 == p && i % 4 == channel);
    assert((4 * p + 3) % 4 == 3);
    let colour = before[i];
    let alpha = before[4 * p + 3];
    assert(p * 4 + 3 == 4 * p + 3);
    assert(final(pixels)@[i] == scaled_channel(colour, alpha));
    lemma_scaled(colour, alpha);
}

proof fn lemma_scaled(colour: u8, alpha: u8)
    ensures
        -127 <= 255 * scaled_channel(colour, alpha) - colour * alpha <= 127,
{
    let exact = colour * alpha;
    assert(0 <= exact <= 255 * 255) by (nonlinear_arith)
        requires
            exact == colour * alpha,
            0 <= colour <= 255,
            0 <= alpha <= 255,
    ;
}

/// What is done to the pixels leaves the bytes behind the last whole pixel alone.
pub proof fn bytes_behind_the_last_pixel_stay(
    scaled: &mut [u8],
    cleared: &mut [u8],
    opaque: &mut [u8],
    i: int,
)
    requires
        call_ensures(premultiply_alpha, (scaled,), ()),
        call_ensures(clear_fully_transparent_rgb, (cleared,), ()),
        call_ensures(make_surface_opaque, (opaque,), ()),
    ensures
        old(scaled)@.len() / 4 * 4 <= i < old(scaled)@.len() ==> final(scaled)@[i] == old(
            scaled,
        )@[i],
        old(cleared)@.len() / 4 * 4 <= i < old(cleared)@.len() ==> final(cleared)@[i] == old(
            cleared,
        )@[i],
        old(opaque)@.len() / 4 * 4 <= i < old(opaque)@.len() ==> final(opaque)@[i] == old(
            opaque,
        )@[i],
        final(scaled)@.len() == old(scaled)@.len(),
        final(cleared)@.len() == old(cleared)@.len(),
        final(opaque)@.len() == old(opaque)@.len(),
{
}

/// Clearing takes the colour out of the pixels without alpha and leaves the others as they
/// are; no alpha changes.
pub proof fn transparent_pixels_lose_their_colour(pixels: &mut [u8], p: int, channel: int)
    requires
        call_ensures(clear_fully_transparent_rgb, (pixels,), ()),
        0 <= p,
        4 * p + 3 < old(pixels)@.len(),
        0 <= channel < 3,
    ensures
        final(pixels)@[4 * p + 3] == old(pixels)@[4 * p + 3],
        old(pixels)@[4 * p + 3] == 0 ==> final(pixels)@[4 * p + channel] == 0,
        old(pixels)@[4 * p + 3] != 0 ==> final(pixels)@[4 * p + channel] == old(
            pixels,
        )@[4 * p + channel],
{
    let i = 4 * p + channel;
    assert(i / 4 == p && i % 4 == channel);
    assert((4 * p + 3) % 4 == 3);
    assert(p * 4 + 3 == 4 * p + 3);
}

/// Making a surface opaque gives every pixel the full alpha and keeps its colour.
pub proof fn opaque_surfaces_keep_their_colours(pixels: &mut [u8], p: int, channel: int)
    requires
        call_ensures(make_surface_opaque, (pixels,), ()),
        0 <= p,
        4 * p + 3 < old(pixels)@.len(),
        0 <= channel < 3,
    ensures
        final(pixels)@[4 * p + 3] == 255,
        final(pixels)@[4 * p + channel] == old(pixels)@[4 * p + channel],
{
    let i = 4 * p + channel;
    assert(i / 4 == p && i % 4 == channel);
    assert((4 * p + 3) / 4 == p && (4 * p + 3) % 4 == 3);
}

/// The pixels of an image are scaled by alpha, and then the box to go by is found in them,
/// as it is from their alpha and from what stands in for a mask.
pub proof fn images_are_scaled_and_then_boxed(
    width: i32,
    height: i32,
    pixels: &mut [u8],
    fallback: Option<PixelBounds>,
    bounds: PixelBounds,
    scaled: &mut [u8],
    after: &[u8],
    alpha: Option<PixelBounds>,
    selected: PixelBounds,
)
    requires
        call_ensures(canonicalize_pixels, (width, height, pixels, fallback), bounds),
        call_ensures(premultiply_alpha, (scaled,), ()),
        old(scaled)@ == old(pixels)@,
        after@ == final(scaled)@,
        call_ensures(alpha_bounds, (width, height, after), alpha),
        call_ensures(select_bounds, (alpha, fallback, width, height, after), selected),
        width > 0,
        height > 0,
        old(pixels)@.len() == 4 * (width * height),
    ensures
        final(pixels)@ == final(scaled)@,
        bounds == selected,
{
    let opaque = opaque_in(after@, width as int);
    assert(after@.len() == old(pixels)@.len());
    lemma_alpha_tells(width, height, after@, alpha);
    if let Some(alpha) = alpha {
        lemma_whole(alpha);
        if crate::pixels::alpha_is_telling(width, height, after@) {
            tight_bounds_are_unique(alpha, bounds, width, height, opaque);
        }
        let whole = crate::pixels::canvas(width, height);
        if crate::pixels::is_tight(whole, width, height, opaque) {
            tight_bounds_are_unique(alpha, whole, width, height, opaque);
        }
    }
}

/// A colour icon is as large as its bitmap; one of two colours is half as high, because its
/// two masks stand one above the other.
pub proof fn two_masks_share_a_bitmap(
    has_color: bool,
    bitmap_width: i32,
    bitmap_height: i32,
    size: (i32, i32),
)
    requires
        call_ensures(icon_dimensions, (has_color, bitmap_width, bitmap_height), size),
    ensures
        size.0 == bitmap_width,
        has_color ==> size.1 == bitmap_height,
        !has_color && bitmap_height >= 0 ==> 2 * size.1 <= bitmap_height <= 2 * size.1 + 1,
        !has_color && bitmap_height < 0 ==> 2 * size.1 - 1 <= bitmap_height <= 2 * size.1,
{
}

/// The size of an image is kept where 32 bits with a sign hold it, and counts as a pixel at
/// least.
pub proof fn image_sizes_are_kept(width: u32, height: u32, size: Option<(i32, i32)>)
    requires
        call_ensures(canonical_dimensions, (width, height), size),
    ensures
        size is Some <==> width < 0x8000_0000 && height < 0x8000_0000,
        size matches Some((kept_width, kept_height)) ==> {
            &&& width > 0 ==> kept_width == width
            &&& width == 0 ==> kept_width == 1
            &&& height > 0 ==> kept_height == height
            &&& height == 0 ==> kept_height == 1
        },
{
}

/// A full box takes the whole canvas, has as many columns and rows, and is known as full;
/// no other box is.
pub proof fn full_boxes_take_the_whole_canvas(
    width: i32,
    height: i32,
    full: PixelBounds,
    columns: i32,
    rows: i32,
    other: PixelBounds,
    is_full: bool,
    other_columns: i32,
    other_rows: i32,
)
    requires
        call_ensures(PixelBounds::full, (width, height), full),
        call_ensures(PixelBounds::width, (full,), columns),
        call_ensures(PixelBounds::height, (full,), rows),
        call_ensures(PixelBounds::is_full, (other,), is_full),
        call_ensures(PixelBounds::width, (other,), other_columns),
        call_ensures(PixelBounds::height, (other,), other_rows),
        width > i32::MIN,
        height > i32::MIN,
        other.canvas_width > i32::MIN,
        other.canvas_height > i32::MIN,
    ensures
        is_whole(full, width, height),
        columns == width,
        rows == height,
        is_full <==> is_whole(other, other.canvas_width, other.canvas_height),
        other.min_x + other_columns == other.max_x + 1,
        other.min_y + other_rows == other.max_y + 1,
{
    lemma_whole(other);
}

} // verus!
