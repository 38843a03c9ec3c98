//! The visible part of an icon, and what is done to its pixels. A pixel is four
//! bytes: blue, green, red, alpha.
use vstd::prelude::*;

verus! {

/// A pixel whose alpha is no greater than this counts as transparent.
pub const ALPHA_THRESHOLD: u8 = 8;

/// A box of pixels on a canvas, both ends of each side included.
#[derive(Clone, Copy, Debug, PartialEq, Eq, Structural)]
pub struct PixelBounds {
    pub canvas_width: i32,
    pub canvas_height: i32,
    pub min_x: i32,
    pub min_y: i32,
    pub max_x: i32,
    pub max_y: i32,
}

/// The box as large as the canvas.
pub open spec fn canvas(width: i32, height: i32) -> PixelBounds {
    PixelBounds {
        canvas_width: width,
        canvas_height: height,
        min_x: 0,
        min_y: 0,
        max_x: (width - 1) as i32,
        max_y: (height - 1) as i32,
    }
}

impl PixelBounds {
    /// The box holds at least one pixel and lies on the canvas.
    pub open spec fn wf(self) -> bool {
        &&& 0 <= self.min_x <= self.max_x < self.canvas_width
        &&& 0 <= self.min_y <= self.max_y < self.canvas_height
    }

    /// The box lies on a canvas whose area and whose middle can be told in 32 bits.
    pub open spec fn is_measurable(self) -> bool {
        &&& self.wf()
        &&& self.canvas_width * self.canvas_height <= i32::MAX
        &&& self.min_x + self.max_x <= i32::MAX
        &&& self.min_y + self.max_y <= i32::MAX
    }

    pub open spec fn contains(self, x: int, y: int) -> bool {
        self.min_x <= x <= self.max_x && self.min_y <= y <= self.max_y
    }

    pub fn full(width: i32, height: i32) -> (bounds: Self)
        requires
            width > i32::MIN,
            height > i32::MIN,
        ensures
            bounds == canvas(width, height),
    {
        PixelBounds {
            canvas_width: width,
            canvas_height: height,
            min_x: 0,
            min_y: 0,
            max_x: width - 1,
            max_y: height - 1,
        }
    }

    pub fn width(self) -> (width: i32)
        requires
            i32::MIN <= self.max_x - self.min_x < i32::MAX,
        ensures
            width == self.max_x - self.min_x + 1,
    {
        self.max_x - self.min_x + 1
    }

    pub fn height(self) -> (height: i32)
        requires
            i32::MIN <= self.max_y - self.min_y < i32::MAX,
        ensures
            height == self.max_y - self.min_y + 1,
    {
        self.max_y - self.min_y + 1
    }

    /// The longer side of the box.
    pub open spec fn extent(self) -> int {
        let width = self.max_x - self.min_x + 1;
        let height = self.max_y - self.min_y + 1;
        if width >= height {
            width
        } else {
            height
        }
    }

    /// The last column and row of the canvas can be told in 32 bits, as far as they are
    /// needed to tell whether the box is as large as the canvas.
    pub open spec fn has_edges(self) -> bool {
        self.min_x == 0 && self.min_y == 0 ==> {
            &&& self.canvas_width > i32::MIN
            &&& self.max_x == self.canvas_width - 1 ==> self.canvas_height > i32::MIN
        }
    }

    pub fn is_full(self) -> (full: bool)
        requires
            self.has_edges(),
        ensures
            full == (self == canvas(self.canvas_width, self.canvas_height)),
    {
        self.min_x == 0 && self.min_y == 0 && self.max_x == self.canvas_width - 1 && self.max_y
            == self.canvas_height - 1
    }
}

/// Which pixels of a canvas are visible, by column and row.
pub open spec fn visible_in(visible: Seq<bool>, width: int) -> spec_fn(int, int) -> bool {
    |x: int, y: int| visible[y * width + x]
}

/// Which pixels of an image are opaque enough to be seen, by column and row.
pub open spec fn opaque_in(pixels: Seq<u8>, width: int) -> spec_fn(int, int) -> bool {
    |x: int, y: int| pixels[(y * width + x) * 4 + 3] > ALPHA_THRESHOLD
}

/// `bounds` is the smallest box around the visible pixels of a canvas.
pub open spec fn is_tight(
    bounds: PixelBounds,
    width: i32,
    height: i32,
    visible: spec_fn(int, int) -> bool,
) -> bool {
    &&& bounds.wf()
    &&& bounds.canvas_width == width
    &&& bounds.canvas_height == height
    &&& forall|x: int, y: int|
        0 <= x < width && 0 <= y < height && #[trigger] visible(x, y) ==> bounds.contains(x, y)
    &&& exists|y: int| 0 <= y < height && #[trigger] visible(bounds.min_x as int, y)
    &&& exists|y: int| 0 <= y < height && #[trigger] visible(bounds.max_x as int, y)
    &&& exists|x: int| 0 <= x < width && #[trigger] visible(x, bounds.min_y as int)
    &&& exists|x: int| 0 <= x < width && #[trigger] visible(x, bounds.max_y as int)
}

/// No pixel of a canvas is visible.
pub open spec fn is_blank(width: i32, height: i32, visible: spec_fn(int, int) -> bool) -> bool {
    forall|x: int, y: int| 0 <= x < width && 0 <= y < height ==> !#[trigger] visible(x, y)
}

/// `bounds` is right about the rows above `row`, and about the first `column`
/// pixels of that row.
spec fn is_tight_so_far(
    bounds: PixelBounds,
    width: i32,
    height: i32,
    visible: spec_fn(int, int) -> bool,
    column: int,
    row: int,
) -> bool {
    &&& bounds.canvas_width == width
    &&& bounds.canvas_height == height
    &&& if bounds.max_x < 0 {
        &&& bounds.max_x == -1
        &&& bounds.max_y == -1
        &&& bounds.min_x == width
        &&& bounds.min_y == height
        &&& forall|x: int, y: int|
            0 <= x < width && 0 <= y && (y < row || (y == row && x < column))
                ==> !#[trigger] visible(x, y)
    } else {
        &&& bounds.wf()
        &&& forall|x: int, y: int|
            0 <= x < width && 0 <= y && (y < row || (y == row && x < column)) && #[trigger] visible(
                x,
                y,
            ) ==> bounds.contains(x, y)
        &&& exists|y: int| 0 <= y < height && #[trigger] visible(bounds.min_x as int, y)
        &&& exists|y: int| 0 <= y < height && #[trigger] visible(bounds.max_x as int, y)
        &&& exists|x: int| 0 <= x < width && #[trigger] visible(x, bounds.min_y as int)
        &&& exists|x: int| 0 <= x < width && #[trigger] visible(x, bounds.max_y as int)
    }
}

fn smaller(a: i32, b: i32) -> (least: i32)
    ensures
        least == if a <= b {
            a
        } else {
            b
        },
{
    if a <= b {
        a
    } else {
        b
    }
}

fn larger(a: i32, b: i32) -> (greatest: i32)
    ensures
        greatest == if a >= b {
            a
        } else {
            b
        },
{
    if a >= b {
        a
    } else {
        b
    }
}

fn visible_bounds(width: i32, height: i32, visible: &Vec<bool>) -> (bounds: Option<PixelBounds>)
    requires
        width > 0,
        height > 0,
        visible@.len() == width * height,
    ensures
        match bounds {
            Some(b) => is_tight(b, width, height, visible_in(visible@, width as int)),
            None => is_blank(width, height, visible_in(visible@, width as int)),
        },
{
    let ghost seen = visible_in(visible@, width as int);
    let mut bounds = PixelBounds {
        canvas_width: width,
        canvas_height: height,
        min_x: width,
        min_y: height,
        max_x: -1,
        max_y: -1,
    };
    let mut y: i32 = 0;
    let mut i: usize = 0;
    while y < height
        invariant
            0 <= y <= height,
            0 < width,
            visible@.len() == width * height,
            i == y * width,
            seen == visible_in(visible@, width as int),
            is_tight_so_far(bounds, width, height, seen, 0, y as int),
        decreases height - y,
    {
        let mut x: i32 = 0;
        while x < width
            invariant
                0 <= x <= width,
                0 <= y < height,
                visible@.len() == width * height,
                i == y * width + x,
                seen == visible_in(visible@, width as int),
                is_tight_so_far(bounds, width, height, seen, x as int, y as int),
            decreases width - x,
        {
            proof {
                assert(y * width + x < width * height) by (nonlinear_arith)
                    requires
                        0 <= x < width,
                        0 <= y < height,
                ;
                assert(seen(x as int, y as int) == visible@[i as int]);
                assert(i < visible.len());
            }
            if visible[i] {
                bounds.min_x = smaller(bounds.min_x, x);
                bounds.min_y = smaller(bounds.min_y, y);
                bounds.max_x = larger(bounds.max_x, x);
                bounds.max_y = larger(bounds.max_y, y);
            }
            x += 1;
            i += 1;
        }
        assert((y + 1) * width == y * width + width) by (nonlinear_arith);
        y += 1;
    }
    if bounds.max_x >= 0 {
        Some(bounds)
    } else {
        None
    }
}

/// The bounds by a list of what is visible, row by row, are those by column and row.
proof fn lemma_listed_bounds(
    bounds: Option<PixelBounds>,
    width: i32,
    height: i32,
    listed: Seq<bool>,
    shown: spec_fn(int, int) -> bool,
)
    requires
        bounds_visible(bounds, width, height, visible_in(listed, width as int)),
        listed.len() == width * height,
        forall|x: int, y: int|
            0 <= y * width + x < listed.len() ==> listed[y * width + x] == #[trigger] shown(x, y),
    ensures
        bounds_visible(bounds, width, height, shown),
{
    let seen = visible_in(listed, width as int);
    assert forall|x: int, y: int|
        #![trigger seen(x, y)]
        #![trigger shown(x, y)]
        0 <= x < width && 0 <= y < height implies seen(x, y) == shown(x, y) by {
        assert(0 <= y * width + x < width * height) by (nonlinear_arith)
            requires
                0 <= x < width,
                0 <= y < height,
        ;
    }
    if let Some(bounds) = bounds {
        let left = choose|y: int| 0 <= y < height && #[trigger] seen(bounds.min_x as int, y);
        assert(shown(bounds.min_x as int, left));
        let right = choose|y: int| 0 <= y < height && #[trigger] seen(bounds.max_x as int, y);
        assert(shown(bounds.max_x as int, right));
        let top = choose|x: int| 0 <= x < width && #[trigger] seen(x, bounds.min_y as int);
        assert(shown(top, bounds.min_y as int));
        let bottom = choose|x: int| 0 <= x < width && #[trigger] seen(x, bounds.max_y as int);
        assert(shown(bottom, bounds.max_y as int));
    }
}

/// The smallest box around the pixels that are opaque enough to be seen; `None`
/// where there are none, or where there is no image.
pub fn alpha_bounds(width: i32, height: i32, pixels: &[u8]) -> (bounds: Option<PixelBounds>)
    requires
        width > 0 && height > 0 ==> width * height * 4 <= i32::MAX,
    ensures
        match bounds {
            Some(b) => width > 0 && height > 0 && pixels@.len() >= width * height * 4 && is_tight(
                b,
                width,
                height,
                opaque_in(pixels@, width as int),
            ),
            None => width <= 0 || height <= 0 || pixels@.len() < width * height * 4 || is_blank(
                width,
                height,
                opaque_in(pixels@, width as int),
            ),
        },
{
    if width <= 0 || height <= 0 {
        return None;
    }
    assert(0 < width * height) by (nonlinear_arith)
        requires
            0 < width,
            0 < height,
    ;
    let count: usize = (width * height) as usize;
    if pixels.len() < count * 4 {
        return None;
    }
    let mut visible: Vec<bool> = Vec::new();
    let mut i: usize = 0;
    while i < count
        invariant
            i <= count,
            count * 4 <= pixels@.len(),
            count * 4 <= i32::MAX,
            visible@ =~= Seq::new(i as nat, |j: int| pixels@[j * 4 + 3] > ALPHA_THRESHOLD),
        decreases count - i,
    {
        visible.push(pixels[i * 4 + 3] > ALPHA_THRESHOLD);
        i += 1;
    }
    let bounds = visible_bounds(width, height, &visible);
    proof {
        let opaque = opaque_in(pixels@, width as int);
        lemma_listed_bounds(bounds, width, height, visible@, opaque);
    }
    bounds
}

/// The smallest box around the visible pixels; `None` where none is visible, or
/// where the mask does not fit the canvas.
pub fn mask_bounds(width: i32, height: i32, visible: &[bool]) -> (bounds: Option<PixelBounds>)
    requires
        width > 0 && height > 0 ==> width * height <= i32::MAX,
    ensures
        match bounds {
            Some(b) => width > 0 && height > 0 && visible@.len() == width * height && is_tight(
                b,
                width,
                height,
                visible_in(visible@, width as int),
            ),
            None => width <= 0 || height <= 0 || visible@.len() != width * height || is_blank(
                width,
                height,
                visible_in(visible@, width as int),
            ),
        },
{
    if width <= 0 || height <= 0 {
        return None;
    }
    assert(0 < width * height) by (nonlinear_arith)
        requires
            0 < width,
            0 < height,
    ;
    if visible.len() != (width * height) as usize {
        return None;
    }
    let mask: Vec<bool> = vstd::slice::slice_to_vec(visible);
    visible_bounds(width, height, &mask)
}

/// Whether one of the three colour channels of a pixel is set.
pub open spec fn colour_is_set(pixels: Seq<u8>, pixel: int) -> bool {
    pixels[pixel * 4] != 0 || pixels[pixel * 4 + 1] != 0 || pixels[pixel * 4 + 2] != 0
}

fn is_colour_set(pixels: &[u8], pixel: usize) -> (set: bool)
    requires
        pixel * 4 + 3 < pixels@.len(),
    ensures
        set == colour_is_set(pixels@, pixel as int),
{
    assert(pixel * 4 + 3 < pixels.len());
    pixels[pixel * 4] != 0 || pixels[pixel * 4 + 1] != 0 || pixels[pixel * 4 + 2] != 0
}

/// Which pixels of a two-colour icon are visible. `pixels` holds the AND mask over
/// the XOR mask; a pixel shows unless the first is set and the second is not.
pub fn monochrome_mask_visibility(width: i32, height: i32, pixels: &[u8]) -> (visible: Option<
    Vec<bool>,
>)
    requires
        width > 0 && height > 0 ==> width * height <= i32::MAX,
    ensures
        visible is Some <==> width > 0 && height > 0 && pixels@.len() == width * height * 8,
        visible is Some ==> visible->0@ == Seq::new(
            (width * height) as nat,
            |i: int|
                !colour_is_set(pixels@, i) || colour_is_set(pixels@, (width * height) + i),
        ),
{
    if width <= 0 || height <= 0 {
        return None;
    }
    assert(0 < width * height) by (nonlinear_arith)
        requires
            0 < width,
            0 < height,
    ;
    let pixel_count: usize = (width * height) as usize;
    assert(pixels.len() <= usize::MAX);
    let half_len: usize = match pixel_count.checked_mul(4) {
        Some(len) => len,
        None => {
            return None;
        },
    };
    let whole_len: usize = match half_len.checked_mul(2) {
        Some(len) => len,
        None => {
            return None;
        },
    };
    if pixels.len() != whole_len {
        return None;
    }
    let mut visible: Vec<bool> = Vec::new();
    let mut i: usize = 0;
    while i < pixel_count
        invariant
            i <= pixel_count,
            pixels@.len() == pixel_count * 8,
            pixel_count == width * height,
            visible@ =~= Seq::new(
                i as nat,
                |j: int|
                    !colour_is_set(pixels@, j) || colour_is_set(pixels@, (width * height) + j),
            ),
        decreases pixel_count - i,
    {
        assert((pixel_count + i) * 4 + 3 < pixels.len());
        visible.push(!is_colour_set(pixels, i) || is_colour_set(pixels, pixel_count + i));
        i += 1;
    }
    Some(visible)
}

/// Which pixels of a colour icon its mask leaves visible: those that it holds
/// black. Bytes beyond the last whole pixel do not count.
pub fn mask_visibility(pixels: &[u8]) -> (visible: Vec<bool>)
    ensures
        visible@ == Seq::new(pixels@.len() / 4, |i: int| !colour_is_set(pixels@, i)),
{
    let mut visible: Vec<bool> = Vec::new();
    let count: usize = pixels.len() / 4;
    let mut i: usize = 0;
    while i < count
        invariant
            i <= count,
            count == pixels@.len() / 4,
            visible@ =~= Seq::new(i as nat, |j: int| !colour_is_set(pixels@, j)),
        decreases count - i,
    {
        visible.push(!is_colour_set(pixels, i));
        i += 1;
    }
    visible
}

/// Some pixel is visible without being opaque.
pub open spec fn has_translucent(pixels: Seq<u8>) -> bool {
    exists|i: int|
        0 <= i < pixels.len() / 4 && ALPHA_THRESHOLD < (#[trigger] pixels[i * 4 + 3]) < u8::MAX
}

pub fn has_semi_transparent(pixels: &[u8]) -> (found: bool)
    ensures
        found == has_translucent(pixels@),
{
    let count: usize = pixels.len() / 4;
    let mut i: usize = 0;
    while i < count
        invariant
            i <= count,
            count == pixels@.len() / 4,
            forall|j: int|
                0 <= j < i ==> !(ALPHA_THRESHOLD < (#[trigger] pixels@[j * 4 + 3]) < u8::MAX),
        decreases count - i,
    {
        assert(i * 4 + 3 < pixels.len());
        let alpha: u8 = pixels[i * 4 + 3];
        if alpha > ALPHA_THRESHOLD && alpha < u8::MAX {
            assert(ALPHA_THRESHOLD < pixels@[i as int * 4 + 3] < u8::MAX);
            return true;
        }
        i += 1;
    }
    false
}

/// The box to go by: that of alpha, unless alpha covers the canvas and says nothing
/// more; then that of the mask; for want of both, the canvas.
pub fn select_bounds(
    alpha: Option<PixelBounds>,
    mask: Option<PixelBounds>,
    width: i32,
    height: i32,
    pixels: &[u8],
) -> (bounds: PixelBounds)
    requires
        alpha is Some ==> alpha->0.has_edges(),
        alpha is None && mask is None ==> width > i32::MIN && height > i32::MIN,
    ensures
        ({
            let telling = alpha is Some && (alpha->0 != canvas(
                alpha->0.canvas_width,
                alpha->0.canvas_height,
            ) || has_translucent(pixels@));
            if telling {
                bounds == alpha->0
            } else if mask is Some {
                bounds == mask->0
            } else if alpha is Some {
                bounds == alpha->0
            } else {
                bounds == canvas(width, height)
            }
        }),
{
    if let Some(bounds) = alpha {
        if !bounds.is_full() || has_semi_transparent(pixels) {
            return bounds;
        }
    }
    if let Some(bounds) = mask {
        return bounds;
    }
    if let Some(bounds) = alpha {
        return bounds;
    }
    PixelBounds::full(width, height)
}

/// The bytes after `clear_fully_transparent_rgb`.
pub open spec fn cleared(pixels: Seq<u8>) -> Seq<u8> {
    Seq::new(
        pixels.len(),
        |i: int|
            if i / 4 < pixels.len() / 4 && i % 4 != 3 && pixels[i / 4 * 4 + 3] == 0 {
                0u8
            } else {
                pixels[i]
            },
    )
}

/// A colour channel scaled by alpha, rounded to the nearest.
pub open spec fn scaled_channel(channel: u8, alpha: u8) -> u8 {
    ((channel * alpha + 127) / 255) as u8
}

/// The bytes after `premultiply_alpha`.
pub open spec fn premultiplied(pixels: Seq<u8>) -> Seq<u8> {
    Seq::new(
        pixels.len(),
        |i: int|
            if i / 4 < pixels.len() / 4 && i % 4 != 3 {
                scaled_channel(pixels[i], pixels[i / 4 * 4 + 3])
            } else {
                pixels[i]
            },
    )
}

/// The bytes after every pixel was made opaque.
pub open spec fn opaque_pixels(pixels: Seq<u8>) -> Seq<u8> {
    Seq::new(
        pixels.len(),
        |i: int|
            if i / 4 < pixels.len() / 4 && i % 4 == 3 {
                u8::MAX
            } else {
                pixels[i]
            },
    )
}

/// Takes the colour out of the pixels that are wholly transparent.
pub fn clear_fully_transparent_rgb(pixels: &mut [u8])
    ensures
        final(pixels)@ == cleared(old(pixels)@),
{
    let ghost before = pixels@;
    let count: usize = pixels.len() / 4;
    let mut i: usize = 0;
    while i < count
        invariant
            i <= count,
            count == before.len() / 4,
            pixels@.len() == before.len(),
            forall|j: int| 0 <= j < i * 4 ==> pixels@[j] == cleared(before)[j],
            forall|j: int| i * 4 <= j < before.len() ==> pixels@[j] == before[j],
        decreases count - i,
    {
        let ghost start = pixels@;
        assert(i * 4 + 3 < pixels.len());
        let at: usize = i * 4;
        if pixels[at + 3] == 0 {
            pixels[at] = 0;
            pixels[at + 1] = 0;
            pixels[at + 2] = 0;
        }
        assert forall|j: int| 0 <= j < (i + 1) * 4 implies pixels@[j] == cleared(before)[j] by {
            if j >= i * 4 {
                assert(j / 4 == i);
            } else {
                assert(pixels@[j] == start[j]);
            }
        }
        i += 1;
    }
    assert(pixels@ =~= cleared(before));
}

fn scale_channel(channel: u8, alpha: u8) -> (scaled: u8)
    ensures
        scaled == scaled_channel(channel, alpha),
{
    assert(0 <= channel * alpha <= 255 * 255) by (nonlinear_arith)
        requires
            0 <= channel <= 255,
            0 <= alpha <= 255,
    ;
    ((channel as u16 * alpha as u16 + 127) / 255) as u8
}

/// Scales the colour of every pixel by its alpha.
pub fn premultiply_alpha(pixels: &mut [u8])
    ensures
        final(pixels)@ == premultiplied(old(pixels)@),
{
    let ghost before = pixels@;
    let count: usize = pixels.len() / 4;
    let mut i: usize = 0;
    while i < count
        invariant
            i <= count,
            count == before.len() / 4,
            pixels@.len() == before.len(),
            forall|j: int| 0 <= j < i * 4 ==> pixels@[j] == premultiplied(before)[j],
            forall|j: int| i * 4 <= j < before.len() ==> pixels@[j] == before[j],
        decreases count - i,
    {
        let ghost start = pixels@;
        assert(i * 4 + 3 < pixels.len());
        let at: usize = i * 4;
        let alpha: u8 = pixels[at + 3];
        pixels[at] = scale_channel(pixels[at], alpha);
        pixels[at + 1] = scale_channel(pixels[at + 1], alpha);
        pixels[at + 2] = scale_channel(pixels[at + 2], alpha);
        assert forall|j: int| 0 <= j < (i + 1) * 4 implies pixels@[j] == premultiplied(
            before,
        )[j] by {
            if j >= i * 4 {
                assert(j / 4 == i);
            } else {
                assert(pixels@[j] == start[j]);
            }
        }
        i += 1;
    }
    assert(pixels@ =~= premultiplied(before));
}

/// Makes every pixel opaque.
pub fn make_surface_opaque(pixels: &mut [u8])
    ensures
        final(pixels)@ == opaque_pixels(old(pixels)@),
{
    let ghost before = pixels@;
    let count: usize = pixels.len() / 4;
    let mut i: usize = 0;
    while i < count
        invariant
            i <= count,
            count == before.len() / 4,
            pixels@.len() == before.len(),
            forall|j: int| 0 <= j < i * 4 ==> pixels@[j] == opaque_pixels(before)[j],
            forall|j: int| i * 4 <= j < before.len() ==> pixels@[j] == before[j],
        decreases count - i,
    {
        let ghost start = pixels@;
        assert(i * 4 + 3 < pixels.len());
        pixels[i * 4 + 3] = u8::MAX;
        assert forall|j: int| 0 <= j < (i + 1) * 4 implies pixels@[j] == opaque_pixels(
            before,
        )[j] by {
            if j >= i * 4 {
                assert(j / 4 == i);
            } else {
                assert(pixels@[j] == start[j]);
            }
        }
        i += 1;
    }
    assert(pixels@ =~= opaque_pixels(before));
}

/// `bounds` is the smallest box around the visible pixels, or nothing where none is
/// visible.
pub open spec fn bounds_visible(
    bounds: Option<PixelBounds>,
    width: i32,
    height: i32,
    visible: spec_fn(int, int) -> bool,
) -> bool {
    match bounds {
        Some(b) => is_tight(b, width, height, visible),
        None => is_blank(width, height, visible),
    }
}

/// Which pixels of a two-colour icon are visible, by column and row.
pub open spec fn monochrome_in(pixels: Seq<u8>, width: int, height: int) -> spec_fn(
    int,
    int,
) -> bool {
    |x: int, y: int|
        !colour_is_set(pixels, y * width + x) || colour_is_set(
            pixels,
            width * height + (y * width + x),
        )
}

/// Which pixels the mask of a colour icon leaves visible, by column and row.
pub open spec fn unmasked_in(mask: Seq<u8>, width: int) -> spec_fn(int, int) -> bool {
    |x: int, y: int| !colour_is_set(mask, y * width + x)
}

/// Alpha alone tells what is visible: some pixel is translucent, or some are
/// transparent and some are not.
pub open spec fn alpha_tells(width: i32, height: i32, pixels: Seq<u8>) -> bool {
    let opaque = opaque_in(pixels, width as int);
    has_translucent(pixels) || !(is_blank(width, height, opaque) || is_tight(
        canvas(width, height),
        width,
        height,
        opaque,
    ))
}

/// Half of a number, rounded towards zero.
pub open spec fn halved(n: int) -> int {
    if n >= 0 {
        n / 2
    } else {
        -((-n) / 2)
    }
}

/// There is only one smallest box.
pub proof fn tight_bounds_are_unique(
    one: PixelBounds,
    other: PixelBounds,
    width: i32,
    height: i32,
    visible: spec_fn(int, int) -> bool,
)
    requires
        is_tight(one, width, height, visible),
        is_tight(other, width, height, visible),
    ensures
        one == other,
        !is_blank(width, height, visible),
{
    lemma_tight_inside(one, other, width, height, visible);
    lemma_tight_inside(other, one, width, height, visible);
    let y = choose|y: int| 0 <= y < height && #[trigger] visible(one.min_x as int, y);
    assert(visible(one.min_x as int, y));
}

proof fn lemma_tight_inside(
    inner: PixelBounds,
    outer: PixelBounds,
    width: i32,
    height: i32,
    visible: spec_fn(int, int) -> bool,
)
    requires
        is_tight(inner, width, height, visible),
        is_tight(outer, width, height, visible),
    ensures
        outer.min_x <= inner.min_x,
        inner.max_x <= outer.max_x,
        outer.min_y <= inner.min_y,
        inner.max_y <= outer.max_y,
{
    let left = choose|y: int| 0 <= y < height && #[trigger] visible(inner.min_x as int, y);
    assert(outer.contains(inner.min_x as int, left));
    let right = choose|y: int| 0 <= y < height && #[trigger] visible(inner.max_x as int, y);
    assert(outer.contains(inner.max_x as int, right));
    let top = choose|x: int| 0 <= x < width && #[trigger] visible(x, inner.min_y as int);
    assert(outer.contains(top, inner.min_y as int));
    let bottom = choose|x: int| 0 <= x < width && #[trigger] visible(x, inner.max_y as int);
    assert(outer.contains(bottom, inner.max_y as int));
}

/// The size of an icon, from the bitmap that carries it: the colour bitmap, or for
/// want of one the mask, which holds two masks one above the other.
pub fn icon_dimensions(has_color: bool, bitmap_width: i32, bitmap_height: i32) -> (size: (
    i32,
    i32,
))
    ensures
        size.0 == bitmap_width,
        size.1 == (if has_color {
            bitmap_height as int
        } else {
            halved(bitmap_height as int)
        }),
{
    let height: i32 = if has_color {
        bitmap_height
    } else {
        bitmap_height / 2
    };
    (bitmap_width, height)
}

/// The visible box of a two-colour icon, whose two masks `pixels` holds one above
/// the other.
pub fn monochrome_icon_bounds(width: i32, height: i32, pixels: &[u8]) -> (bounds: Option<
    PixelBounds,
>)
    requires
        width > 0 && height > 0 ==> width * height <= i32::MAX,
    ensures
        if width > 0 && height > 0 && pixels@.len() == width * height * 8 {
            bounds_visible(
                bounds,
                width,
                height,
                monochrome_in(pixels@, width as int, height as int),
            )
        } else {
            bounds is None
        },
{
    let visible: Vec<bool> = match monochrome_mask_visibility(width, height, pixels) {
        Some(visible) => visible,
        None => {
            return None;
        },
    };
    proof {
        assert(0 < width * height) by (nonlinear_arith)
            requires
                0 < width,
                0 < height,
        ;
    }
    let bounds = mask_bounds(width, height, visible.as_slice());
    proof {
        let shown = monochrome_in(pixels@, width as int, height as int);
        lemma_listed_bounds(bounds, width, height, visible@, shown);
    }
    bounds
}

/// Whether the mask of a colour icon has to be asked what is visible. An icon without
/// a positive size has nothing that could be.
pub fn needs_mask(width: i32, height: i32, pixels: &[u8]) -> (needed: bool)
    requires
        width > 0 && height > 0 ==> width * height * 4 <= i32::MAX && pixels@.len() == width
            * height * 4,
    ensures
        needed == (width > 0 && height > 0 && !alpha_tells(width, height, pixels@)),
{
    if width <= 0 || height <= 0 {
        return false;
    }
    let alpha = alpha_bounds(width, height, pixels);
    proof {
        lemma_full_or_not(alpha, width, height, opaque_in(pixels@, width as int));
    }
    !has_semi_transparent(pixels) && match alpha {
        Some(bounds) => bounds.is_full(),
        None => true,
    }
}

proof fn lemma_full_or_not(
    bounds: Option<PixelBounds>,
    width: i32,
    height: i32,
    visible: spec_fn(int, int) -> bool,
)
    requires
        width > 0,
        height > 0,
        bounds_visible(bounds, width, height, visible),
    ensures
        bounds is None ==> is_blank(width, height, visible),
        bounds is Some ==> !is_blank(width, height, visible),
        bounds is Some ==> (bounds->0 == canvas(width, height) <==> is_tight(
            canvas(width, height),
            width,
            height,
            visible,
        )),
{
    if bounds is Some {
        tight_bounds_are_unique(bounds->0, bounds->0, width, height, visible);
        if is_tight(canvas(width, height), width, height, visible) {
            tight_bounds_are_unique(bounds->0, canvas(width, height), width, height, visible);
        }
    }
}

/// The visible box of a colour icon: that of alpha where alpha tells what is
/// visible; else that of the mask, where it could be read and shows something;
/// else that of alpha again. An icon without a positive size has none.
pub fn color_icon_bounds(width: i32, height: i32, pixels: &[u8], mask: Option<&[u8]>) -> (bounds:
    Option<PixelBounds>)
    requires
        width > 0 && height > 0 ==> width * height * 4 <= i32::MAX && pixels@.len() == width
            * height * 4,
    ensures
        if width <= 0 || height <= 0 {
            bounds is None
        } else if !alpha_tells(width, height, pixels@) && mask is Some && mask->0@.len() / 4 == width
            * height && !is_blank(width, height, unmasked_in(mask->0@, width as int)) {
            bounds is Some && is_tight(
                bounds->0,
                width,
                height,
                unmasked_in(mask->0@, width as int),
            )
        } else {
            bounds_visible(bounds, width, height, opaque_in(pixels@, width as int))
        },
{
    if needs_mask(width, height, pixels) {
        if let Some(mask) = mask {
            let visible: Vec<bool> = mask_visibility(mask);
            let bounds = mask_bounds(width, height, visible.as_slice());
            proof {
                let shown = unmasked_in(mask@, width as int);
                if visible@.len() == width * height {
                    lemma_listed_bounds(bounds, width, height, visible@, shown);
                    lemma_full_or_not(bounds, width, height, shown);
                }
            }
            if bounds.is_some() {
                return bounds;
            }
        }
    }
    alpha_bounds(width, height, pixels)
}

/// The dimensions of an image of the given size, where they can be used.
pub fn canonical_dimensions(width: u32, height: u32) -> (size: Option<(i32, i32)>)
    ensures
        size is Some <==> width <= i32::MAX && height <= i32::MAX,
        size matches Some((w, h)) ==> w == (if width == 0 {
            1
        } else {
            width as int
        }) && h == (if height == 0 {
            1
        } else {
            height as int
        }),
{
    if width > 0x7fff_ffff || height > 0x7fff_ffff {
        return None;
    }
    Some((larger(width as i32, 1), larger(height as i32, 1)))
}

/// Brings the pixels of an image into the form in which they are drawn, and finds
/// the box to go by.
pub fn canonicalize_pixels(
    width: i32,
    height: i32,
    pixels: &mut [u8],
    fallback_bounds: Option<PixelBounds>,
) -> (bounds: PixelBounds)
    requires
        width > 0,
        height > 0,
        width * height * 4 <= i32::MAX,
        old(pixels)@.len() == width * height * 4,
    ensures
        final(pixels)@ == premultiplied(old(pixels)@),
        if alpha_is_telling(width, height, final(pixels)@) {
            is_tight(bounds, width, height, opaque_in(final(pixels)@, width as int))
        } else if fallback_bounds is Some {
            bounds == fallback_bounds->0
        } else {
            bounds == canvas(width, height)
        },
{
    premultiply_alpha(pixels);
    let alpha = alpha_bounds(width, height, pixels);
    let bounds = select_bounds(alpha, fallback_bounds, width, height, pixels);
    proof {
        lemma_full_or_not(alpha, width, height, opaque_in(pixels@, width as int));
    }
    bounds
}

/// Some pixel is visible, and alpha does more than cover the canvas.
pub open spec fn alpha_is_telling(width: i32, height: i32, pixels: Seq<u8>) -> bool {
    let opaque = opaque_in(pixels, width as int);
    !is_blank(width, height, opaque) && (has_translucent(pixels) || !is_tight(
        canvas(width, height),
        width,
        height,
        opaque,
    ))
}

/// A scaled channel never exceeds alpha; full alpha keeps it, no alpha leaves
/// nothing of it.
pub proof fn scaled_channels_stay_below_alpha(channel: u8, alpha: u8)
    ensures
        (channel * alpha + 127) / 255 <= alpha,
        scaled_channel(channel, alpha) <= alpha,
        scaled_channel(channel, 255) == channel,
        scaled_channel(channel, 0) == 0,
{
    assert(0 <= channel * alpha <= 255 * alpha) by (nonlinear_arith)
        requires
            0 <= channel <= 255,
            0 <= alpha,
    ;
    assert(channel * 255 == 255 * channel);
    assert((channel * 255 + 127) / 255 == channel);
}

/// Scaling by alpha moves nothing in or out of sight, and keeps every alpha.
pub proof fn premultiplying_keeps_visibility(pixels: Seq<u8>, width: int, x: int, y: int)
    requires
        0 <= y * width + x,
        (y * width + x) * 4 + 3 < pixels.len(),
    ensures
        opaque_in(premultiplied(pixels), width)(x, y) == opaque_in(pixels, width)(x, y),
        premultiplied(pixels).len() == pixels.len(),
        premultiplied(pixels)[(y * width + x) * 4 + 3] == pixels[(y * width + x) * 4 + 3],
{
    let i = (y * width + x) * 4 + 3;
    assert(i % 4 == 3);
}

/// Taking the colour out of the transparent pixels first makes no difference to
/// scaling by alpha, and doing it twice makes none to doing it once.
pub proof fn clearing_is_absorbed(pixels: Seq<u8>)
    ensures
        premultiplied(cleared(pixels)) == premultiplied(pixels),
        cleared(cleared(pixels)) == cleared(pixels),
{
    let clear = cleared(pixels);
    assert forall|i: int| 0 <= i < pixels.len() implies premultiplied(clear)[i] == premultiplied(
        pixels,
    )[i] by {
        if i / 4 < pixels.len() / 4 && i % 4 != 3 {
            let at = i / 4 * 4 + 3;
            assert(at % 4 == 3 && at < pixels.len());
            assert(clear[at] == pixels[at]);
            scaled_channels_stay_below_alpha(pixels[i], pixels[at]);
            scaled_channels_stay_below_alpha(0, pixels[at]);
        }
    }
    assert(premultiplied(clear) =~= premultiplied(pixels));
    assert forall|i: int| 0 <= i < pixels.len() implies cleared(clear)[i] == clear[i] by {
        if i / 4 < pixels.len() / 4 && i % 4 != 3 {
            let at = i / 4 * 4 + 3;
            assert(at % 4 == 3 && at < pixels.len());
            assert(clear[at] == pixels[at]);
        }
    }
    assert(cleared(clear) =~= clear);
}

} // verus!
