//! The icon of an application: the images that it is drawn from, and the choice
//! among them.
use vstd::prelude::*;

use crate::icon_scale::{desired_size, desired_visible_size, is_topleft, is_valid_icon};
use crate::pixels::{canvas, PixelBounds};
use crate::sequences::{append_missing, lemma_append_missing, lemma_append_missing_step};
use crate::text::{ascii_lowered, eq_ignore_ascii_case};

verus! {

/// One image of an icon. `H` is the handle of the image, `B` that of a bitmap which
/// holds its pixels.
pub struct IconCandidate<H, B> {
    pub hicon: H,
    pub width: i32,
    pub height: i32,
    pub bitmap: Option<B>,
    pub bounds: PixelBounds,
}

impl<H, B> IconCandidate<H, B> {
    /// The visible part has a size that can be told.
    pub open spec fn wf(self) -> bool {
        self.bounds.wf()
    }

    pub fn has_bitmap(&self) -> (has: bool)
        ensures
            has == (self.bitmap is Some),
    {
        self.bitmap.is_some()
    }
}

/// The images of one icon.
pub struct AppIcon<H, B> {
    pub candidates: Vec<IconCandidate<H, B>>,
}

/// What stands for the pixels of an image: a bitmap with its size and its visible
/// part.
pub struct Canonical<B> {
    pub bitmap: B,
    pub width: i32,
    pub height: i32,
    pub bounds: PixelBounds,
}

pub open spec fn positive(size: i32) -> i32 {
    if size < 1 {
        1
    } else {
        size
    }
}

/// The image with a handle, by its bitmap where there is one, else by its size and
/// visible part as far as they are known.
pub open spec fn candidate_of<H, B>(
    hicon: H,
    canonical: Option<Canonical<B>>,
    fallback_width: i32,
    fallback_height: i32,
    fallback_bounds: Option<PixelBounds>,
) -> IconCandidate<H, B> {
    match canonical {
        Some(canonical) => IconCandidate {
            hicon,
            width: canonical.width,
            height: canonical.height,
            bitmap: Some(canonical.bitmap),
            bounds: canonical.bounds,
        },
        None => IconCandidate {
            hicon,
            width: positive(fallback_width),
            height: positive(fallback_height),
            bitmap: None,
            bounds: match fallback_bounds {
                Some(bounds) => bounds,
                None => canvas(positive(fallback_width), positive(fallback_height)),
            },
        },
    }
}

/// The size that is taken where none is known.
pub open spec fn size_or_default(dimensions: Option<(i32, i32)>) -> (i32, i32) {
    match dimensions {
        Some(dimensions) => dimensions,
        None => (256, 256),
    }
}

/// `i` is the place of the image to draw at a desired size: the first of the
/// smallest images that are large enough; where none is, the last of the largest.
pub open spec fn is_selected(extents: Seq<int>, desired: int, i: int) -> bool {
    &&& 0 <= i < extents.len()
    &&& if exists|j: int| 0 <= j < extents.len() && #[trigger] extents[j] >= desired {
        &&& extents[i] >= desired
        &&& forall|j: int|
            0 <= j < extents.len() && #[trigger] extents[j] >= desired ==> extents[i] <= extents[j]
                && (j < i ==> extents[i] < extents[j])
    } else {
        forall|j: int|
            0 <= j < extents.len() ==> #[trigger] extents[j] <= extents[i] && (j > i ==> extents[j]
                < extents[i])
    }
}

fn dimensions_or_default(dimensions: Option<(i32, i32)>) -> (size: (i32, i32))
    ensures
        size == size_or_default(dimensions),
{
    match dimensions {
        Some(dimensions) => dimensions,
        None => (256, 256),
    }
}

fn make_positive(size: i32) -> (result: i32)
    ensures
        result == positive(size),
{
    if size < 1 {
        1
    } else {
        size
    }
}

impl<H, B> AppIcon<H, B> {
    pub open spec fn wf(self) -> bool {
        forall|i: int| 0 <= i < self.candidates@.len() ==> (#[trigger] self.candidates@[i]).wf()
    }

    /// The longer sides of the visible parts.
    pub open spec fn extents(self) -> Seq<int> {
        self.candidates@.map_values(|c: IconCandidate<H, B>| c.bounds.extent())
    }

    pub fn new() -> (icon: Self)
        ensures
            icon.candidates@.len() == 0,
            icon.wf(),
    {
        AppIcon { candidates: Vec::new() }
    }

    /// Adds an image by its handle, with its size and visible part where they are
    /// known. No handle adds nothing.
    pub fn push(
        &mut self,
        hicon: Option<H>,
        dimensions: Option<(i32, i32)>,
        bounds: Option<PixelBounds>,
    )
        ensures
            match hicon {
                Some(hicon) => final(self).candidates@ == old(self).candidates@.push(
                    candidate_of(
                        hicon,
                        None,
                        size_or_default(dimensions).0,
                        size_or_default(dimensions).1,
                        bounds,
                    ),
                ),
                None => final(self).candidates@ == old(self).candidates@,
            },
            old(self).wf() && (bounds matches Some(bounds) ==> bounds.wf()) ==> final(self).wf(),
    {
        if let Some(hicon) = hicon {
            let (width, height): (i32, i32) = dimensions_or_default(dimensions);
            self.push_candidate(hicon, None, width, height, bounds);
        }
    }

    /// Adds an image.
    pub fn push_candidate(
        &mut self,
        hicon: H,
        canonical: Option<Canonical<B>>,
        fallback_width: i32,
        fallback_height: i32,
        fallback_bounds: Option<PixelBounds>,
    )
        ensures
            final(self).candidates@ == old(self).candidates@.push(
                candidate_of(
                    hicon,
                    canonical,
                    fallback_width,
                    fallback_height,
                    fallback_bounds,
                ),
            ),
            old(self).wf() && (canonical matches Some(canonical) ==> canonical.bounds.wf()) && (
            fallback_bounds matches Some(bounds) ==> bounds.wf()) ==> final(self).wf(),
    {
        let ghost added = candidate_of(
            hicon,
            canonical,
            fallback_width,
            fallback_height,
            fallback_bounds,
        );
        match canonical {
            Some(canonical) => {
                self.candidates.push(
                    IconCandidate {
                        hicon,
                        width: canonical.width,
                        height: canonical.height,
                        bitmap: Some(canonical.bitmap),
                        bounds: canonical.bounds,
                    },
                );
            },
            None => {
                let width: i32 = make_positive(fallback_width);
                let height: i32 = make_positive(fallback_height);
                let bounds: PixelBounds = match fallback_bounds {
                    Some(bounds) => bounds,
                    None => PixelBounds::full(width, height),
                };
                self.candidates.push(IconCandidate { hicon, width, height, bitmap: None, bounds });
            },
        }
        assert(self.candidates@ =~= old(self).candidates@.push(added));
        assert forall|i: int|
            0 <= i < self.candidates@.len() && old(self).wf() && added.wf() implies (
        #[trigger] self.candidates@[i]).wf() by {
            if i < old(self).candidates@.len() {
                assert(self.candidates@[i] == old(self).candidates@[i]);
            }
        }
    }

    /// An icon of one image, with the bitmap made of it where that worked.
    pub fn from_bitmap(
        canonical: Option<Canonical<B>>,
        hicon: H,
        dimensions: Option<(i32, i32)>,
    ) -> (icon: Self)
        ensures
            icon.candidates@ == seq![
                candidate_of(
                    hicon,
                    canonical,
                    size_or_default(dimensions).0,
                    size_or_default(dimensions).1,
                    None,
                ),
            ],
            (canonical matches Some(canonical) ==> canonical.bounds.wf()) ==> icon.wf(),
    {
        let mut icon: Self = AppIcon::new();
        let (width, height): (i32, i32) = dimensions_or_default(dimensions);
        icon.push_candidate(hicon, canonical, width, height, None);
        icon
    }

    /// An icon of one image, or of none where there is no handle.
    pub fn from_hicon(
        hicon: Option<H>,
        dimensions: Option<(i32, i32)>,
        bounds: Option<PixelBounds>,
    ) -> (icon: Self)
        ensures
            match hicon {
                Some(hicon) => icon.candidates@ == seq![
                    candidate_of::<H, B>(
                        hicon,
                        None,
                        size_or_default(dimensions).0,
                        size_or_default(dimensions).1,
                        bounds,
                    ),
                ],
                None => icon.candidates@.len() == 0,
            },
            (bounds matches Some(bounds) ==> bounds.wf()) ==> icon.wf(),
    {
        let mut icon: Self = AppIcon::new();
        icon.push(hicon, dimensions, bounds);
        icon
    }

    /// Whether there is no image.
    pub fn is_empty(&self) -> (empty: bool)
        ensures
            empty == (self.candidates@.len() == 0),
    {
        self.candidates.len() == 0
    }

    /// The place of the image to draw in a square of the given size.
    pub fn selected_index(&self, target_size: i32) -> (place: Option<usize>)
        requires
            self.wf(),
        ensures
            match place {
                Some(i) => is_selected(self.extents(), desired_size(target_size), i as int),
                None => self.candidates@.len() == 0,
            },
    {
        let desired: i32 = desired_visible_size(target_size);
        let ghost extents = self.extents();
        let mut large: Option<usize> = None;
        let mut any: Option<usize> = None;
        let mut large_extent: i32 = 0;
        let mut any_extent: i32 = 0;
        let mut i: usize = 0;
        while i < self.candidates.len()
            invariant
                i <= self.candidates@.len(),
                self.wf(),
                extents == self.extents(),
                match large {
                    Some(p) => {
                        &&& p < i
                        &&& large_extent == extents[p as int]
                        &&& large_extent >= desired
                        &&& forall|j: int|
                            0 <= j < i && #[trigger] extents[j] >= desired ==> large_extent
                                <= extents[j] && (j < p ==> large_extent < extents[j])
                    },
                    None => forall|j: int| 0 <= j < i ==> #[trigger] extents[j] < desired,
                },
                match any {
                    Some(p) => {
                        &&& p < i
                        &&& any_extent == extents[p as int]
                        &&& forall|j: int|
                            0 <= j < i ==> #[trigger] extents[j] <= any_extent && (j > p
                                ==> extents[j] < any_extent)
                    },
                    None => i == 0,
                },
            decreases self.candidates@.len() - i,
        {
            assert(self.candidates@[i as int].wf());
            let bounds: PixelBounds = self.candidates[i].bounds;
            let width: i32 = bounds.width();
            let height: i32 = bounds.height();
            let extent: i32 = if width >= height {
                width
            } else {
                height
            };
            assert(extent == extents[i as int]);
            if extent >= desired && (large.is_none() || extent < large_extent) {
                large = Some(i);
                large_extent = extent;
            }
            if any.is_none() || extent >= any_extent {
                any = Some(i);
                any_extent = extent;
            }
            i += 1;
        }
        if large.is_some() {
            large
        } else {
            any
        }
    }

    /// The image to draw in a square of the given size.
    pub fn selected(&self, target_size: i32) -> (candidate: Option<&IconCandidate<H, B>>)
        requires
            self.wf(),
        ensures
            match candidate {
                Some(candidate) => exists|i: int|
                    #[trigger] is_selected(self.extents(), desired_size(target_size), i)
                        && *candidate == self.candidates@[i],
                None => self.candidates@.len() == 0,
            },
    {
        match self.selected_index(target_size) {
            Some(i) => {
                assert(is_selected(self.extents(), desired_size(target_size), i as int));
                Some(&self.candidates[i])
            },
            None => None,
        }
    }

    /// Adds the images of another icon.
    pub fn append(&mut self, other: Self)
        ensures
            final(self).candidates@ == old(self).candidates@ + other.candidates@,
            old(self).wf() && other.wf() ==> final(self).wf(),
    {
        let mut candidates: Vec<IconCandidate<H, B>> = other.candidates;
        self.candidates.append(&mut candidates);
        assert forall|i: int|
            0 <= i < self.candidates@.len() && old(self).wf() && other.wf() implies (
        #[trigger] self.candidates@[i]).wf() by {
            let split = old(self).candidates@.len() as int;
            if i < split {
                assert(self.candidates@[i] == old(self).candidates@[i]);
            } else {
                assert(self.candidates@[i] == other.candidates@[i - split]);
            }
        }
    }
}

/// At a given size there is exactly one image to draw, once there is an image.
pub proof fn selection_is_unique(extents: Seq<int>, desired: int, i: int, j: int)
    requires
        is_selected(extents, desired, i),
        is_selected(extents, desired, j),
    ensures
        i == j,
{
    assert(extents[i] <= extents[j] || extents[j] <= extents[i]);
}

/// An image is drawn larger than it is only where none is large enough.
pub proof fn selection_avoids_upscaling(extents: Seq<int>, desired: int, i: int, j: int)
    requires
        is_selected(extents, desired, i),
        0 <= j < extents.len(),
        extents[j] >= desired,
    ensures
        desired <= extents[i] <= extents[j],
{
}

/// The number in two bytes, the lower one first.
pub open spec fn two_bytes(data: Seq<u8>, at: int) -> int {
    data[at] + 256 * data[at + 1]
}

/// The length of a side in an icon file, where zero stands for 256.
pub open spec fn side(byte: u8) -> i32 {
    if byte == 0 {
        256
    } else {
        byte as i32
    }
}

/// The sizes in the directory of an icon file: each entry takes 16 bytes and starts
/// with the width and the height.
pub open spec fn directory_sizes(data: Seq<u8>) -> Seq<(i32, i32)> {
    Seq::new(
        two_bytes(data, 4) as nat,
        |k: int| (side(data[6 + 16 * k]), side(data[7 + 16 * k])),
    )
}

/// The header says that this is an icon file with at least one image, and the whole
/// directory is there.
pub open spec fn is_ico(data: Seq<u8>) -> bool {
    &&& data.len() >= 6
    &&& two_bytes(data, 0) == 0
    &&& two_bytes(data, 2) == 1
    &&& two_bytes(data, 4) > 0
    &&& data.len() >= 6 + 16 * two_bytes(data, 4)
}

fn has_size(sizes: &Vec<(i32, i32)>, width: i32, height: i32) -> (found: bool)
    ensures
        found == sizes@.contains((width, height)),
{
    let mut i: usize = 0;
    while i < sizes.len()
        invariant
            i <= sizes@.len(),
            forall|j: int| 0 <= j < i ==> sizes@[j] != (width, height),
        decreases sizes@.len() - i,
    {
        if sizes[i].0 == width && sizes[i].1 == height {
            assert(sizes@[i as int] == (width, height));
            return true;
        }
        i += 1;
    }
    false
}

fn side_of(byte: u8) -> (length: i32)
    ensures
        length == side(byte),
{
    if byte == 0 {
        256
    } else {
        byte as i32
    }
}

/// The sizes of the images in an icon file, each once, in their order.
pub fn ico_frame_dimensions(data: &[u8]) -> (dimensions: Option<Vec<(i32, i32)>>)
    ensures
        match dimensions {
            Some(sizes) => is_ico(data@) && sizes@ == append_missing(
                Seq::empty(),
                directory_sizes(data@),
            ),
            None => !is_ico(data@),
        },
{
    if data.len() < 6 {
        return None;
    }
    let reserved: u32 = data[0] as u32 + 256 * data[1] as u32;
    let image_type: u32 = data[2] as u32 + 256 * data[3] as u32;
    let count: usize = data[4] as usize + 256 * data[5] as usize;
    if reserved != 0 || image_type != 1 || count == 0 {
        return None;
    }
    if data.len() < 6 + 16 * count {
        return None;
    }
    let ghost all = directory_sizes(data@);
    let mut sizes: Vec<(i32, i32)> = Vec::new();
    let mut i: usize = 0;
    assert(all.take(0) =~= Seq::empty());
    while i < count
        invariant
            i <= count <= 65535,
            count == all.len(),
            all == directory_sizes(data@),
            data@.len() >= 6 + 16 * count,
            sizes@ == append_missing(Seq::empty(), all.take(i as int)),
        decreases count - i,
    {
        let width: i32 = side_of(data[6 + 16 * i]);
        let height: i32 = side_of(data[7 + 16 * i]);
        proof {
            assert(all[i as int] == (width, height));
            lemma_append_missing_step(Seq::empty(), all, i as int);
        }
        if !has_size(&sizes, width, height) {
            sizes.push((width, height));
        }
        i += 1;
    }
    assert(all.take(count as int) =~= all);
    Some(sizes)
}

/// How the image in a file is loaded.
#[derive(Clone, Copy, Debug, PartialEq, Eq, Structural)]
pub enum ImageKind {
    /// There is no file.
    Missing,
    /// An icon file, each of its images for itself.
    Ico,
    /// A file that holds one picture.
    Raster,
}

/// How to load an image, by whether there is a file and by its extension. The case of
/// the extension does not matter.
pub fn image_kind(is_there: bool, extension: Option<&str>) -> (kind: ImageKind)
    ensures
        kind == if !is_there {
            ImageKind::Missing
        } else if extension matches Some(extension) && ascii_lowered(extension@) == ascii_lowered(
            "ico"@,
        ) {
            ImageKind::Ico
        } else {
            ImageKind::Raster
        },
{
    if !is_there {
        return ImageKind::Missing;
    }
    match extension {
        Some(extension) => if eq_ignore_ascii_case(extension, "ico") {
            ImageKind::Ico
        } else {
            ImageKind::Raster
        },
        None => ImageKind::Raster,
    }
}

/// An image that the system loaded: its handle where that worked, and what is known
/// of it.
pub struct LoadedFrame<H> {
    pub hicon: Option<H>,
    pub dimensions: Option<(i32, i32)>,
    pub bounds: Option<PixelBounds>,
}

/// What came of loading a file.
pub enum LoadedImage<H, B> {
    /// No file, or one that could not be read.
    Missing,
    /// The images of an icon file.
    Frames(Vec<LoadedFrame<H>>),
    /// A picture.
    Raster {
        hicon: H,
        canonical: Option<Canonical<B>>,
        dimensions: Option<(i32, i32)>,
    },
}

impl<H, B> LoadedImage<H, B> {
    /// What is known of the visible parts makes sense.
    pub open spec fn wf(self) -> bool {
        match self {
            LoadedImage::Missing => true,
            LoadedImage::Frames(frames) => forall|i: int|
                0 <= i < frames@.len() ==> ((#[trigger] frames@[i]).bounds matches Some(bounds)
                    ==> bounds.wf()),
            LoadedImage::Raster { canonical, .. } => canonical matches Some(canonical)
                ==> canonical.bounds.wf(),
        }
    }
}

/// The images of the frames that were loaded.
pub open spec fn frame_candidates<H, B>(frames: Seq<LoadedFrame<H>>) -> Seq<IconCandidate<H, B>>
    decreases frames.len(),
{
    if frames.len() == 0 {
        Seq::empty()
    } else {
        let rest = frame_candidates::<H, B>(frames.drop_last());
        let frame = frames.last();
        match frame.hicon {
            Some(hicon) => rest.push(
                candidate_of::<H, B>(
                    hicon,
                    None,
                    size_or_default(frame.dimensions).0,
                    size_or_default(frame.dimensions).1,
                    frame.bounds,
                ),
            ),
            None => rest,
        }
    }
}

pub open spec fn size_of<H, B>(candidate: IconCandidate<H, B>) -> (i32, i32) {
    (candidate.width, candidate.height)
}

pub open spec fn sizes_of<H, B>(candidates: Seq<IconCandidate<H, B>>) -> Seq<(i32, i32)> {
    candidates.map_values(|c: IconCandidate<H, B>| size_of(c))
}

/// Of the images of each size, the first.
pub open spec fn first_of_each_size<H, B>(candidates: Seq<IconCandidate<H, B>>) -> Seq<
    IconCandidate<H, B>,
>
    decreases candidates.len(),
{
    if candidates.len() == 0 {
        Seq::empty()
    } else {
        let rest = first_of_each_size(candidates.drop_last());
        if sizes_of(rest).contains(size_of(candidates.last())) {
            rest
        } else {
            rest.push(candidates.last())
        }
    }
}

/// The images of a loaded file.
pub open spec fn image_candidates<H, B>(image: LoadedImage<H, B>) -> Seq<IconCandidate<H, B>> {
    match image {
        LoadedImage::Missing => Seq::empty(),
        LoadedImage::Frames(frames) => first_of_each_size(frame_candidates::<H, B>(frames@)),
        LoadedImage::Raster { hicon, canonical, dimensions } => seq![
            candidate_of(
                hicon,
                canonical,
                size_or_default(dimensions).0,
                size_or_default(dimensions).1,
                None,
            ),
        ],
    }
}

fn has_candidate_size<H, B>(
    candidates: &Vec<IconCandidate<H, B>>,
    width: i32,
    height: i32,
) -> (found: bool)
    ensures
        found == sizes_of(candidates@).contains((width, height)),
{
    let mut i: usize = 0;
    while i < candidates.len()
        invariant
            i <= candidates@.len(),
            forall|j: int| 0 <= j < i ==> #[trigger] sizes_of(candidates@)[j] != (width, height),
        decreases candidates@.len() - i,
    {
        assert(sizes_of(candidates@)[i as int] == size_of(candidates@[i as int]));
        if candidates[i].width == width && candidates[i].height == height {
            return true;
        }
        i += 1;
    }
    false
}

/// Of the images of each size, the first. The others are dropped.
fn unique_sizes<H, B>(candidates: Vec<IconCandidate<H, B>>) -> (unique: Vec<IconCandidate<H, B>>)
    ensures
        unique@ == first_of_each_size(candidates@),
{
    let ghost all = candidates@;
    let mut unique: Vec<IconCandidate<H, B>> = Vec::new();
    for candidate in it: candidates.into_iter()
        invariant
            it.seq() == all,
            unique@ == first_of_each_size(all.take(it.index())),
    {
        assert(all.take(it.index() + 1).drop_last() =~= all.take(it.index()));
        if !has_candidate_size(&unique, candidate.width, candidate.height) {
            unique.push(candidate);
        }
    }
    assert(all.take(all.len() as int) =~= all);
    unique
}

fn load_frames<H, B>(frames: Vec<LoadedFrame<H>>) -> (icon: AppIcon<H, B>)
    ensures
        icon.candidates@ == frame_candidates::<H, B>(frames@),
{
    let ghost all = frames@;
    let mut icon: AppIcon<H, B> = AppIcon::new();
    for frame in it: frames.into_iter()
        invariant
            it.seq() == all,
            icon.candidates@ == frame_candidates::<H, B>(all.take(it.index())),
    {
        assert(all.take(it.index() + 1).drop_last() =~= all.take(it.index()));
        icon.push(frame.hicon, frame.dimensions, frame.bounds);
    }
    assert(all.take(all.len() as int) =~= all);
    icon
}

/// The icon of a loaded file; nothing where it has no image.
pub fn load_image_as_hicon<H, B>(image: LoadedImage<H, B>) -> (icon: Option<AppIcon<H, B>>)
    ensures
        match icon {
            Some(icon) => {
                &&& icon.candidates@.len() > 0
                &&& icon.candidates@ == image_candidates(image)
                &&& image.wf() ==> icon.wf()
            },
            None => image_candidates(image).len() == 0,
        },
{
    proof {
        lemma_image_candidates(image);
    }
    match image {
        LoadedImage::Missing => None,
        LoadedImage::Frames(frames) => {
            let loaded: AppIcon<H, B> = load_frames(frames);
            let candidates: Vec<IconCandidate<H, B>> = unique_sizes(loaded.candidates);
            if candidates.len() == 0 {
                None
            } else {
                assert(candidates@ == image_candidates(image));
                Some(AppIcon { candidates })
            }
        },
        LoadedImage::Raster { hicon, canonical, dimensions } => {
            let icon: AppIcon<H, B> = AppIcon::from_bitmap(canonical, hicon, dimensions);
            assert(icon.candidates@ == image_candidates(image));
            Some(icon)
        },
    }
}

/// The images of several files, in their order.
pub open spec fn all_candidates<H, B>(images: Seq<LoadedImage<H, B>>) -> Seq<IconCandidate<H, B>>
    decreases images.len(),
{
    if images.len() == 0 {
        Seq::empty()
    } else {
        all_candidates(images.drop_last()) + image_candidates(images.last())
    }
}

/// The icon made of several files; nothing where none of them has an image.
pub fn load_images_as_hicon<H, B>(images: Vec<LoadedImage<H, B>>) -> (icon: Option<AppIcon<H, B>>)
    requires
        forall|i: int| 0 <= i < images@.len() ==> (#[trigger] images@[i]).wf(),
    ensures
        match icon {
            Some(icon) => {
                &&& icon.candidates@.len() > 0
                &&& icon.candidates@ == all_candidates(images@)
                &&& icon.wf()
            },
            None => all_candidates(images@).len() == 0,
        },
{
    let ghost all = images@;
    let mut result: AppIcon<H, B> = AppIcon::new();
    for image in it: images.into_iter()
        invariant
            it.seq() == all,
            forall|i: int| 0 <= i < all.len() ==> (#[trigger] all[i]).wf(),
            result.candidates@ == all_candidates(all.take(it.index())),
            result.wf(),
    {
        assert(all.take(it.index() + 1).drop_last() =~= all.take(it.index()));
        assert(image == all[it.index()]);
        if let Some(icon) = load_image_as_hicon(image) {
            result.append(icon);
        }
        assert(result.candidates@ =~= all_candidates(all.take(it.index() + 1)));
    }
    assert(all.take(all.len() as int) =~= all);
    if result.is_empty() {
        None
    } else {
        Some(result)
    }
}

proof fn lemma_image_candidates<H, B>(image: LoadedImage<H, B>)
    ensures
        image.wf() ==> forall|i: int|
            0 <= i < image_candidates(image).len() ==> (#[trigger] image_candidates(image)[i]).wf(),
{
    if image.wf() {
        if let LoadedImage::Frames(frames) = image {
            lemma_frames_wf::<H, B>(frames@);
            lemma_firsts_are_members(frame_candidates::<H, B>(frames@));
            let loaded = frame_candidates::<H, B>(frames@);
            assert forall|i: int| 0 <= i < first_of_each_size(loaded).len() implies (
            #[trigger] first_of_each_size(loaded)[i]).wf() by {
                assert(loaded.contains(first_of_each_size(loaded)[i]));
            }
        }
    }
}

proof fn lemma_frames_wf<H, B>(frames: Seq<LoadedFrame<H>>)
    requires
        forall|i: int|
            0 <= i < frames.len() ==> ((#[trigger] frames[i]).bounds matches Some(bounds)
                ==> bounds.wf()),
    ensures
        forall|i: int|
            0 <= i < frame_candidates::<H, B>(frames).len() ==> (#[trigger] frame_candidates::<
                H,
                B,
            >(frames)[i]).wf(),
    decreases frames.len(),
{
    if frames.len() > 0 {
        assert forall|i: int| 0 <= i < frames.drop_last().len() implies ((
        #[trigger] frames.drop_last()[i]).bounds matches Some(bounds) ==> bounds.wf()) by {
            assert(frames.drop_last()[i] == frames[i]);
        }
        lemma_frames_wf::<H, B>(frames.drop_last());
        let rest = frame_candidates::<H, B>(frames.drop_last());
        let all = frame_candidates::<H, B>(frames);
        assert(frames.last() == frames[frames.len() - 1]);
        assert forall|i: int| 0 <= i < all.len() implies (#[trigger] all[i]).wf() by {
            if i < rest.len() {
                assert(all[i] == rest[i]);
            }
        }
    }
}

proof fn lemma_firsts_are_members<H, B>(candidates: Seq<IconCandidate<H, B>>)
    ensures
        forall|i: int|
            0 <= i < first_of_each_size(candidates).len() ==> candidates.contains(
                #[trigger] first_of_each_size(candidates)[i],
            ),
    decreases candidates.len(),
{
    if candidates.len() > 0 {
        let shorter = candidates.drop_last();
        lemma_firsts_are_members(shorter);
        assert forall|i: int|
            0 <= i < first_of_each_size(candidates).len() implies candidates.contains(
            #[trigger] first_of_each_size(candidates)[i],
        ) by {
            let found = first_of_each_size(candidates)[i];
            if i < first_of_each_size(shorter).len() {
                assert(found == first_of_each_size(shorter)[i]);
                let k = choose|k: int| 0 <= k < shorter.len() && shorter[k] == found;
                assert(candidates[k] == found);
            } else {
                assert(candidates[candidates.len() - 1] == found);
            }
        }
    }
}

/// An icon has no two images of one size, and one of every size that was loaded.
pub proof fn each_size_is_kept_once<H, B>(candidates: Seq<IconCandidate<H, B>>)
    ensures
        sizes_of(first_of_each_size(candidates)) == append_missing(
            Seq::empty(),
            sizes_of(candidates),
        ),
        sizes_of(first_of_each_size(candidates)).no_duplicates(),
        forall|size: (i32, i32)| #[trigger]
            sizes_of(first_of_each_size(candidates)).contains(size) <==> sizes_of(
                candidates,
            ).contains(size),
    decreases candidates.len(),
{
    let none = Seq::<(i32, i32)>::empty();
    lemma_append_missing(none, sizes_of(candidates));
    if candidates.len() > 0 {
        let shorter = candidates.drop_last();
        each_size_is_kept_once(shorter);
        assert(sizes_of(candidates).drop_last() =~= sizes_of(shorter));
        assert(sizes_of(first_of_each_size(candidates)) =~= append_missing(
            none,
            sizes_of(candidates),
        ));
    } else {
        assert(sizes_of(first_of_each_size(candidates)) =~= none);
        assert(sizes_of(candidates) =~= none);
    }
    assert(none.no_duplicates());
}

/// The lists of the system's icons, by number: images of 256, 48 and 32 pixels.
pub const SHIL_JUMBO: i32 = 0x04;

pub const SHIL_EXTRALARGE: i32 = 0x02;

pub const SHIL_LARGE: i32 = 0x00;

/// The lists in which the icon of an executable is looked up, in order.
pub fn exe_image_lists() -> (lists: [i32; 3])
    ensures
        lists@ == seq![SHIL_JUMBO, SHIL_EXTRALARGE, SHIL_LARGE],
{
    [SHIL_JUMBO, SHIL_EXTRALARGE, SHIL_LARGE]
}

/// An image from the system is used: there is one, its visible part is known, and it
/// is not squeezed into the corner.
pub open spec fn is_usable<H>(frame: LoadedFrame<H>) -> bool {
    &&& frame.hicon is Some
    &&& frame.bounds matches Some(bounds) && !is_topleft(bounds)
}

/// The usable images of an executable, in their order.
pub open spec fn usable_candidates<H, B>(frames: Seq<LoadedFrame<H>>) -> Seq<IconCandidate<H, B>> {
    frame_candidates::<H, B>(frames.filter(|f: LoadedFrame<H>| is_usable(f)))
}

/// The icon of an executable, made of what each list of the system's icons holds for
/// it; nothing where no image is usable.
pub fn get_exe_icon<H, B>(frames: Vec<LoadedFrame<H>>) -> (icon: Option<AppIcon<H, B>>)
    requires
        forall|i: int|
            0 <= i < frames@.len() ==> ((#[trigger] frames@[i]).bounds matches Some(bounds)
                ==> bounds.is_measurable()),
    ensures
        match icon {
            Some(icon) => {
                &&& icon.candidates@.len() > 0
                &&& icon.candidates@ == usable_candidates::<H, B>(frames@)
                &&& icon.wf()
            },
            None => usable_candidates::<H, B>(frames@).len() == 0,
        },
{
    let ghost all = frames@;
    let ghost usable = |f: LoadedFrame<H>| is_usable(f);
    let mut result: AppIcon<H, B> = AppIcon::new();
    assert(all.take(0).filter(usable) =~= Seq::empty()) by {
        reveal(Seq::filter);
    }
    for frame in it: frames.into_iter()
        invariant
            it.seq() == all,
            usable == (|f: LoadedFrame<H>| is_usable(f)),
            forall|i: int|
                0 <= i < all.len() ==> ((#[trigger] all[i]).bounds matches Some(bounds)
                    ==> bounds.is_measurable()),
            result.candidates@ == frame_candidates::<H, B>(all.take(it.index()).filter(usable)),
            result.wf(),
    {
        let ghost before = all.take(it.index());
        assert(frame == all[it.index()]);
        assert(all.take(it.index() + 1).filter(usable) == (if usable(frame) {
            before.filter(usable).push(frame)
        } else {
            before.filter(usable)
        })) by {
            reveal(Seq::filter);
            assert(all.take(it.index() + 1).drop_last() =~= before);
        }
        assert(before.filter(usable).push(frame).drop_last() =~= before.filter(usable));
        let valid: Option<bool> = is_valid_icon(&frame.bounds);
        if let Some(true) = valid {
            result.push(frame.hicon, frame.dimensions, frame.bounds);
        }
    }
    assert(all.take(all.len() as int) =~= all);
    if result.is_empty() {
        None
    } else {
        Some(result)
    }
}

/// A question about the icon of a window.
#[derive(Clone, Copy, Debug, PartialEq, Eq, Structural)]
pub enum WindowQuery {
    /// The large icon that the window answers with.
    Big,
    /// The icon of the window's class.
    Class,
    /// The small icon that the window answers with, or the system for it.
    Small,
}

/// What follows from an answer.
#[derive(Clone, Copy, Debug, PartialEq, Eq, Structural)]
pub enum WindowIconStep {
    /// This is the icon.
    Found(usize),
    /// Ask on.
    Ask(WindowQuery),
    /// There is no icon.
    Nothing,
}

/// What follows from the answer to a question: a window that is alive and has an icon
/// settles it; else the class is asked after the window, and the small icon after the
/// class.
pub fn get_window_icon(query: WindowQuery, replied: bool, value: usize) -> (step: WindowIconStep)
    ensures
        step == if replied && value != 0 {
            WindowIconStep::Found(value)
        } else {
            match query {
                WindowQuery::Big => WindowIconStep::Ask(WindowQuery::Class),
                WindowQuery::Class => WindowIconStep::Ask(WindowQuery::Small),
                WindowQuery::Small => WindowIconStep::Nothing,
            }
        },
{
    if replied && value != 0 {
        return WindowIconStep::Found(value);
    }
    match query {
        WindowQuery::Big => WindowIconStep::Ask(WindowQuery::Class),
        WindowQuery::Class => WindowIconStep::Ask(WindowQuery::Small),
        WindowQuery::Small => WindowIconStep::Nothing,
    }
}

/// The sizes in an icon file come once each, and are between 1 and 256.
pub proof fn ico_sizes_are_distinct_and_in_range(data: Seq<u8>)
    requires
        is_ico(data),
    ensures
        ({
            let sizes = append_missing(Seq::empty(), directory_sizes(data));
            &&& 0 < sizes.len() <= two_bytes(data, 4)
            &&& sizes.no_duplicates()
            &&& forall|i: int|
                0 <= i < sizes.len() ==> 1 <= (#[trigger] sizes[i]).0 <= 256 && 1 <= sizes[i].1
                    <= 256
        }),
{
    let all = directory_sizes(data);
    let none = Seq::<(i32, i32)>::empty();
    let sizes = append_missing(none, all);
    lemma_append_missing(none, all);
    assert(none.no_duplicates());
    assert(all.contains(all[0]));
    assert(sizes.contains(all[0]));
    assert forall|i: int| 0 <= i < sizes.len() implies 1 <= (#[trigger] sizes[i]).0 <= 256 && 1
        <= sizes[i].1 <= 256 by {
        assert(sizes.contains(sizes[i]));
        assert(all.contains(sizes[i]));
    }
}

/// What follows from a call that looks up the icon of a file.
#[derive(Clone, Copy, Debug, PartialEq, Eq, Structural)]
pub enum LookupStep {
    /// The icon was found.
    Found,
    /// Wait, and call again.
    WaitAndAsk { millis: u64 },
    /// Wait, and go on without the icon.
    GiveUp { millis: u64 },
}

/// What follows from the last of some calls that look up the icon of a file. The shell
/// can fail for a moment, so it is called up to three times, with a pause after each
/// failure.
pub fn get_shfileinfo(calls: u32, returned: usize) -> (step: LookupStep)
    ensures
        step == if returned != 0 {
            LookupStep::Found
        } else if calls < 3 {
            LookupStep::WaitAndAsk { millis: 30 }
        } else {
            LookupStep::GiveUp { millis: 30 }
        },
{
    if returned != 0 {
        LookupStep::Found
    } else if calls < 3 {
        LookupStep::WaitAndAsk { millis: 30 }
    } else {
        LookupStep::GiveUp { millis: 30 }
    }
}

} // verus!
