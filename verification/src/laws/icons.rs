//! The icon of an application: which images it is made of, what each of them is, and
//! which is drawn.
use vstd::prelude::*;

use crate::app_icon::{
    candidate_of, directory_sizes, each_size_is_kept_once, exe_image_lists, first_of_each_size,
    frame_candidates, get_exe_icon, get_shfileinfo, get_window_icon, ico_frame_dimensions,
    image_kind, is_selected, is_usable, load_image_as_hicon, load_images_as_hicon, size_of,
    size_or_default, sizes_of, AppIcon, Canonical, IconCandidate, ImageKind, LoadedFrame,
    LoadedImage, LookupStep, WindowIconStep, WindowQuery,
};
use crate::icon_scale::{desired_visible_size, is_valid_icon};
use crate::laws::walks::{comes_before, lemma_appended_order};
use crate::pixels::PixelBounds;
use crate::sequences::{append_missing, kept_places, lemma_append_missing, lemma_kept_places};
use crate::text::{ascii_lower, ascii_lowered};

verus! {

/// The size that an image counts as: 256 pixels a side where nothing is known of it, and
/// never less than a pixel.
pub open spec fn counted_size(dimensions: Option<(i32, i32)>, size: (i32, i32)) -> bool {
    match dimensions {
        Some((width, height)) => {
            &&& size.0 >= 1 && size.1 >= 1
            &&& width >= 1 ==> size.0 == width
            &&& width < 1 ==> size.0 == 1
            &&& height >= 1 ==> size.1 == height
            &&& height < 1 ==> size.1 == 1
        },
        None => size == (256i32, 256i32),
    }
}

/// The box takes the whole of a canvas.
pub open spec fn is_whole(bounds: PixelBounds, width: i32, height: i32) -> bool {
    &&& bounds.canvas_width == width && bounds.canvas_height == height
    &&& bounds.min_x == 0 && bounds.min_y == 0
    &&& bounds.max_x == width - 1 && bounds.max_y == height - 1
}

/// An image without a bitmap of its own, by its handle and by what is known of it: its
/// visible part is the one that is known, and all of it where none is.
pub open spec fn is_image_of<H, B>(
    image: IconCandidate<H, B>,
    hicon: H,
    dimensions: Option<(i32, i32)>,
    bounds: Option<PixelBounds>,
) -> bool {
    &&& image.hicon == hicon
    &&& image.bitmap is None
    &&& counted_size(dimensions, (image.width, image.height))
    &&& match bounds {
        Some(bounds) => image.bounds == bounds,
        None => is_whole(image.bounds, image.width, image.height),
    }
}

/// The images are those of the chosen frames, one for each, in the same order: `places`
/// tells which frame each image is of.
pub open spec fn are_at<H, B>(
    images: Seq<IconCandidate<H, B>>,
    frames: Seq<LoadedFrame<H>>,
    chosen: spec_fn(int) -> bool,
    places: Seq<int>,
) -> bool {
    &&& places.len() == images.len()
    &&& forall|k: int, m: int|
        0 <= k < m < places.len() ==> #[trigger] places[k] < #[trigger] places[m]
    &&& forall|k: int|
        #![trigger places[k]]
        #![trigger images[k]]
        0 <= k < places.len() ==> {
            let frame = frames[places[k]];
            &&& 0 <= places[k] < frames.len()
            &&& chosen(places[k])
            &&& frame.hicon is Some
            &&& is_image_of(images[k], frame.hicon->0, frame.dimensions, frame.bounds)
        }
    &&& forall|i: int| 0 <= i < frames.len() && #[trigger] chosen(i) ==> places.contains(i)
}

/// The images are those of the chosen frames, one for each, in the same order.
pub open spec fn are_images_of<H, B>(
    images: Seq<IconCandidate<H, B>>,
    frames: Seq<LoadedFrame<H>>,
    chosen: spec_fn(int) -> bool,
) -> bool {
    exists|places: Seq<int>| #[trigger] are_at(images, frames, chosen, places)
}

/// The images of an icon that may be absent.
pub open spec fn images_of<H, B>(icon: Option<AppIcon<H, B>>) -> Seq<IconCandidate<H, B>> {
    match icon {
        Some(icon) => icon.candidates@,
        None => Seq::empty(),
    }
}

spec fn frame_image<H, B>(frame: LoadedFrame<H>) -> IconCandidate<H, B> {
    candidate_of(
        frame.hicon->0,
        None,
        size_or_default(frame.dimensions).0,
        size_or_default(frame.dimensions).1,
        frame.bounds,
    )
}

spec fn images_at<H, B>(frames: Seq<LoadedFrame<H>>, places: Seq<int>) -> Seq<IconCandidate<H, B>> {
    Seq::new(places.len(), |k: int| frame_image(frames[places[k]]))
}

proof fn lemma_images_at<H, B>(
    images: Seq<IconCandidate<H, B>>,
    frames: Seq<LoadedFrame<H>>,
    keep: spec_fn(int) -> bool,
)
    requires
        images == images_at::<H, B>(frames, kept_places(frames.len(), keep)),
        forall|i: int|
            0 <= i < frames.len() && #[trigger] keep(i) ==> frames[i].hicon is Some,
    ensures
        are_images_of(images, frames, keep),
{
    let places = kept_places(frames.len(), keep);
    lemma_kept_places(frames.len(), keep);
    assert(are_at(images, frames, keep, places));
}

proof fn lemma_usable_frames<H, B>(
    frames: Seq<LoadedFrame<H>>,
    n: nat,
    keep: spec_fn(int) -> bool,
)
    requires
        n <= frames.len(),
        forall|i: int| 0 <= i < frames.len() ==> (#[trigger] keep(i) <==> is_usable(frames[i])),
    ensures
        frame_candidates::<H, B>(
            frames.take(n as int).filter(|f: LoadedFrame<H>| is_usable(f)),
        ) == images_at::<H, B>(frames, kept_places(n, keep)),
    decreases n,
{
    let usable = |f: LoadedFrame<H>| is_usable(f);
    reveal(Seq::filter);
    if n > 0 {
        lemma_usable_frames::<H, B>(frames, (n - 1) as nat, keep);
        let shorter = frames.take(n - 1);
        assert(frames.take(n as int).drop_last() =~= shorter);
        assert(frames.take(n as int).last() == frames[n - 1]);
        assert(keep(n - 1) <==> is_usable(frames[n - 1]));
        if keep(n - 1) {
            assert(shorter.filter(usable).push(frames[n - 1]).drop_last() =~= shorter.filter(
                usable,
            ));
            assert(images_at::<H, B>(frames, kept_places(n, keep)) =~= images_at::<H, B>(
                frames,
                kept_places((n - 1) as nat, keep),
            ).push(frame_image::<H, B>(frames[n - 1])));
        }
    } else {
        assert(frames.take(0).filter(usable) =~= Seq::empty());
        assert(images_at::<H, B>(frames, kept_places(0, keep)) =~= Seq::empty());
    }
}

/// The icon of an executable has one image for each frame that was loaded and is valid, in
/// their order: with the handle, the size and the visible part of that frame. There is none
/// where no frame is valid.
pub proof fn exe_icons_show_the_valid_frames<H, B>(
    frames: Vec<LoadedFrame<H>>,
    icon: Option<AppIcon<H, B>>,
    valid: Seq<Option<bool>>,
)
    requires
        call_ensures(get_exe_icon::<H, B>, (frames,), icon),
        forall|i: int|
            0 <= i < frames@.len() ==> call_ensures(
                is_valid_icon,
                (&frames@[i].bounds,),
                #[trigger] valid[i],
            ),
    ensures
        are_images_of(
            images_of(icon),
            frames@,
            |i: int| frames@[i].hicon is Some && valid[i] == Some(true),
        ),
        icon matches Some(icon) ==> icon.candidates@.len() > 0,
{
    let keep = |i: int| frames@[i].hicon is Some && valid[i] == Some(true);
    assert forall|i: int| 0 <= i < frames@.len() implies (#[trigger] keep(i) <==> is_usable(
        frames@[i],
    )) by {
        assert(call_ensures(is_valid_icon, (&frames@[i].bounds,), valid[i]));
    }
    lemma_usable_frames::<H, B>(frames@, frames@.len(), keep);
    assert(frames@.take(frames@.len() as int) =~= frames@);
    assert(images_of(icon) =~= images_at::<H, B>(frames@, kept_places(frames@.len(), keep)));
    lemma_images_at(images_of(icon), frames@, keep);
}

/// Each valid frame of an executable is among the images of its icon, and keeps its handle
/// and its visible part there.
pub proof fn valid_frames_keep_their_visible_part<H, B>(
    frames: Vec<LoadedFrame<H>>,
    icon: Option<AppIcon<H, B>>,
    i: int,
)
    requires
        call_ensures(get_exe_icon::<H, B>, (frames,), icon),
        0 <= i < frames@.len(),
        frames@[i].hicon is Some,
        is_usable(frames@[i]),
    ensures
        icon is Some,
        exists|k: int|
            0 <= k < icon->0.candidates@.len() && (#[trigger] icon->0.candidates@[k]).hicon
                == frames@[i].hicon->0 && icon->0.candidates@[k].bounds == frames@[i].bounds->0,
{
    let keep = |j: int| is_usable(frames@[j]);
    lemma_usable_frames::<H, B>(frames@, frames@.len(), keep);
    assert(frames@.take(frames@.len() as int) =~= frames@);
    let images = images_of(icon);
    assert(images =~= images_at::<H, B>(frames@, kept_places(frames@.len(), keep)));
    lemma_images_at(images, frames@, keep);
    let places = choose|places: Seq<int>| #[trigger] are_at(images, frames@, keep, places);
    assert(keep(i));
    let k = choose|k: int| 0 <= k < places.len() && places[k] == i;
    assert(is_image_of(
        images[k],
        frames@[i].hicon->0,
        frames@[i].dimensions,
        frames@[i].bounds,
    ));
}

/// A frame of an icon file is kept: it was loaded, and no frame before it that was loaded
/// counts as large.
pub open spec fn is_first_of_its_size<H>(frames: Seq<LoadedFrame<H>>, i: int) -> bool {
    &&& frames[i].hicon is Some
    &&& forall|j: int, size: (i32, i32)|
        #![trigger frames[j], counted_size(frames[i].dimensions, size)]
        0 <= j < i && frames[j].hicon is Some && counted_size(frames[j].dimensions, size)
            ==> !counted_size(frames[i].dimensions, size)
}

spec fn frame_size<H>(frame: LoadedFrame<H>) -> (i32, i32) {
    size_of(frame_image::<H, int>(frame))
}

proof fn lemma_counted_size<H, B>(frame: LoadedFrame<H>, size: (i32, i32))
    ensures
        counted_size(frame.dimensions, size) <==> size == frame_size(frame),
        size_of(frame_image::<H, B>(frame)) == frame_size(frame),
{
}

proof fn lemma_loaded_sizes<H, B>(frames: Seq<LoadedFrame<H>>, n: nat, size: (i32, i32))
    requires
        n <= frames.len(),
    ensures
        sizes_of(frame_candidates::<H, B>(frames.take(n as int))).contains(size) <==> exists|j: int|
            0 <= j < n && (#[trigger] frames[j]).hicon is Some && frame_size(frames[j]) == size,
    decreases n,
{
    let loaded = frame_candidates::<H, B>(frames.take(n as int));
    if n > 0 {
        let shorter = frame_candidates::<H, B>(frames.take(n - 1));
        assert(frames.take(n as int).drop_last() =~= frames.take(n - 1));
        assert(frames.take(n as int).last() == frames[n - 1]);
        lemma_loaded_sizes::<H, B>(frames, (n - 1) as nat, size);
        lemma_counted_size::<H, B>(frames[n - 1], size);
        if sizes_of(shorter).contains(size) {
            let k = choose|k: int| 0 <= k < shorter.len() && sizes_of(shorter)[k] == size;
            assert(sizes_of(loaded)[k] == size);
        }
        if sizes_of(loaded).contains(size) && !sizes_of(shorter).contains(size) {
            let k = choose|k: int| 0 <= k < loaded.len() && sizes_of(loaded)[k] == size;
            if k < shorter.len() {
                assert(sizes_of(shorter)[k] == size);
            }
            assert(frames[n - 1].hicon is Some);
        }
        if frames[n - 1].hicon is Some && frame_size(frames[n - 1]) == size {
            assert(sizes_of(loaded)[shorter.len() as int] == size);
        }
    }
}

proof fn lemma_first_frames<H, B>(frames: Seq<LoadedFrame<H>>, n: nat, keep: spec_fn(int) -> bool)
    requires
        n <= frames.len(),
        forall|i: int|
            0 <= i < frames.len() ==> (#[trigger] keep(i) <==> is_first_of_its_size(frames, i)),
    ensures
        first_of_each_size(frame_candidates::<H, B>(frames.take(n as int))) == images_at::<H, B>(
            frames,
            kept_places(n, keep),
        ),
    decreases n,
{
    let loaded = frame_candidates::<H, B>(frames.take(n as int));
    if n > 0 {
        let last = frames[n - 1];
        let shorter = frame_candidates::<H, B>(frames.take(n - 1));
        lemma_first_frames::<H, B>(frames, (n - 1) as nat, keep);
        assert(frames.take(n as int).drop_last() =~= frames.take(n - 1));
        assert(frames.take(n as int).last() == last);
        each_size_is_kept_once(shorter);
        let size = frame_size(last);
        lemma_loaded_sizes::<H, B>(frames, (n - 1) as nat, size);
        lemma_counted_size::<H, B>(last, size);
        assert(keep(n - 1) <==> is_first_of_its_size(frames, n - 1));
        assert(is_first_of_its_size(frames, n - 1) <==> last.hicon is Some && !sizes_of(
            shorter,
        ).contains(size)) by {
            if is_first_of_its_size(frames, n - 1) && sizes_of(shorter).contains(size) {
                let j = choose|j: int|
                    0 <= j < n - 1 && (#[trigger] frames[j]).hicon is Some && frame_size(frames[j])
                        == size;
                lemma_counted_size::<H, B>(frames[j], size);
                assert(!counted_size(frames[n - 1].dimensions, size));
            }
            if last.hicon is Some && !sizes_of(shorter).contains(size) {
                assert forall|j: int, other: (i32, i32)|
                    #![trigger frames[j], counted_size(frames[n - 1].dimensions, other)]
                    0 <= j < n - 1 && frames[j].hicon is Some && counted_size(
                        frames[j].dimensions,
                        other,
                    ) implies !counted_size(frames[n - 1].dimensions, other) by {
                    lemma_counted_size::<H, B>(frames[j], other);
                    lemma_counted_size::<H, B>(frames[n - 1], other);
                }
            }
        }
        let kept = first_of_each_size(shorter);
        if last.hicon is Some {
            assert(loaded.drop_last() =~= shorter);
            assert(loaded.last() == frame_image::<H, B>(last));
            assert(sizes_of(kept).contains(size) <==> sizes_of(shorter).contains(size));
        }
        if keep(n - 1) {
            assert(images_at::<H, B>(frames, kept_places(n, keep)) =~= images_at::<H, B>(
                frames,
                kept_places((n - 1) as nat, keep),
            ).push(frame_image::<H, B>(last)));
        }
    } else {
        assert(images_at::<H, B>(frames, kept_places(0, keep)) =~= Seq::empty());
    }
}

/// The icon of an icon file has one image for each size that was loaded, the first of that
/// size, in their order: with the handle, the size and the visible part of its frame.
/// There is none where no frame was loaded.
pub proof fn icon_files_show_the_first_frame_of_each_size<H, B>(
    frames: Vec<LoadedFrame<H>>,
    icon: Option<AppIcon<H, B>>,
)
    requires
        call_ensures(load_image_as_hicon::<H, B>, (LoadedImage::Frames(frames),), icon),
    ensures
        are_images_of(images_of(icon), frames@, |i: int| is_first_of_its_size(frames@, i)),
        icon matches Some(icon) ==> icon.candidates@.len() > 0,
{
    let keep = |i: int| is_first_of_its_size(frames@, i);
    lemma_first_frames::<H, B>(frames@, frames@.len(), keep);
    assert(frames@.take(frames@.len() as int) =~= frames@);
    assert(images_of(icon) =~= images_at::<H, B>(frames@, kept_places(frames@.len(), keep)));
    lemma_images_at(images_of(icon), frames@, keep);
}

/// A picture is an icon of one image: its bitmap with what is known of that, where one
/// could be made of it, and else its handle with what is known of the picture.
pub proof fn pictures_are_icons_of_one_image<H, B>(
    hicon: H,
    canonical: Option<Canonical<B>>,
    dimensions: Option<(i32, i32)>,
    icon: Option<AppIcon<H, B>>,
    missing: Option<AppIcon<H, B>>,
)
    requires
        call_ensures(
            load_image_as_hicon::<H, B>,
            (LoadedImage::Raster { hicon, canonical, dimensions },),
            icon,
        ),
        call_ensures(load_image_as_hicon::<H, B>, (LoadedImage::Missing,), missing),
    ensures
        missing is None,
        icon is Some,
        icon->0.candidates@.len() == 1,
        canonical matches Some(canonical) ==> is_bitmap_of(
            icon->0.candidates@[0],
            hicon,
            canonical,
        ),
        canonical is None ==> is_image_of(icon->0.candidates@[0], hicon, dimensions, None),
{
}

/// An image by its bitmap, with the size and the visible part of that.
pub open spec fn is_bitmap_of<H, B>(
    image: IconCandidate<H, B>,
    hicon: H,
    canonical: Canonical<B>,
) -> bool {
    &&& image.hicon == hicon
    &&& image.bitmap == Some(canonical.bitmap)
    &&& image.width == canonical.width
    &&& image.height == canonical.height
    &&& image.bounds == canonical.bounds
}

/// Of several files the icon has the images of each, one file after the other: a further
/// file adds its own images behind those of the files before it.
pub proof fn further_files_add_their_images<H, B>(
    files: Vec<LoadedImage<H, B>>,
    file: LoadedImage<H, B>,
    more_files: Vec<LoadedImage<H, B>>,
    icon: Option<AppIcon<H, B>>,
    file_icon: Option<AppIcon<H, B>>,
    larger_icon: Option<AppIcon<H, B>>,
)
    requires
        call_ensures(load_images_as_hicon::<H, B>, (files,), icon),
        call_ensures(load_image_as_hicon::<H, B>, (file,), file_icon),
        call_ensures(load_images_as_hicon::<H, B>, (more_files,), larger_icon),
        more_files@ == files@.push(file),
    ensures
        images_of(larger_icon) == images_of(icon) + images_of(file_icon),
        files@.len() == 0 ==> icon is None,
        icon matches Some(icon) ==> icon.candidates@.len() > 0,
{
    assert(more_files@.drop_last() =~= files@);
    assert(images_of(larger_icon) =~= images_of(icon) + images_of(file_icon));
}

/// A handle adds its image behind the others, and no handle adds nothing.
pub proof fn handles_add_their_image<H, B>(
    icon: &mut AppIcon<H, B>,
    hicon: Option<H>,
    dimensions: Option<(i32, i32)>,
    bounds: Option<PixelBounds>,
    single: AppIcon<H, B>,
    empty: AppIcon<H, B>,
)
    requires
        call_ensures(AppIcon::<H, B>::push, (icon, hicon, dimensions, bounds), ()),
        call_ensures(AppIcon::<H, B>::from_hicon, (hicon, dimensions, bounds), single),
        call_ensures(AppIcon::<H, B>::new, (), empty),
    ensures
        empty.candidates@.len() == 0,
        hicon is None ==> final(icon).candidates@ == old(icon).candidates@,
        hicon is None ==> single.candidates@.len() == 0,
        hicon is Some ==> {
            &&& final(icon).candidates@.len() == old(icon).candidates@.len() + 1
            &&& final(icon).candidates@.drop_last() == old(icon).candidates@
            &&& is_image_of(final(icon).candidates@.last(), hicon->0, dimensions, bounds)
            &&& single.candidates@.len() == 1
            &&& is_image_of(single.candidates@[0], hicon->0, dimensions, bounds)
        },
{
    if hicon is Some {
        assert(final(icon).candidates@.drop_last() =~= old(icon).candidates@);
    }
}

/// An image is added behind the others: by its bitmap where there is one, else by its
/// handle with what is known of it.
pub proof fn images_are_added_behind_the_others<H, B>(
    icon: &mut AppIcon<H, B>,
    hicon: H,
    canonical: Option<Canonical<B>>,
    width: i32,
    height: i32,
    bounds: Option<PixelBounds>,
    dimensions: Option<(i32, i32)>,
    single: AppIcon<H, B>,
)
    requires
        call_ensures(
            AppIcon::<H, B>::push_candidate,
            (icon, hicon, canonical, width, height, bounds),
            (),
        ),
        call_ensures(AppIcon::<H, B>::from_bitmap, (canonical, hicon, dimensions), single),
    ensures
        final(icon).candidates@.len() == old(icon).candidates@.len() + 1,
        final(icon).candidates@.drop_last() == old(icon).candidates@,
        single.candidates@.len() == 1,
        match canonical {
            Some(canonical) => {
                &&& is_bitmap_of(final(icon).candidates@.last(), hicon, canonical)
                &&& is_bitmap_of(single.candidates@[0], hicon, canonical)
            },
            None => {
                &&& is_image_of(
                    final(icon).candidates@.last(),
                    hicon,
                    Some((width, height)),
                    bounds,
                )
                &&& is_image_of(single.candidates@[0], hicon, dimensions, None)
            },
        },
{
    assert(final(icon).candidates@.drop_last() =~= old(icon).candidates@);
}

/// The images of another icon come behind the own ones. An icon is empty where it has no
/// image.
pub proof fn icons_are_put_together<H, B>(
    icon: &mut AppIcon<H, B>,
    other: AppIcon<H, B>,
    joined: &AppIcon<H, B>,
    empty: bool,
    image: &IconCandidate<H, B>,
    has: bool,
)
    requires
        call_ensures(AppIcon::<H, B>::append, (icon, other), ()),
        call_ensures(AppIcon::<H, B>::is_empty, (joined,), empty),
        call_ensures(IconCandidate::<H, B>::has_bitmap, (image,), has),
    ensures
        final(icon).candidates@ == old(icon).candidates@ + other.candidates@,
        empty <==> joined.candidates@.len() == 0,
        has <==> image.bitmap is Some,
{
}

/// The longer side of the visible part of an image.
pub open spec fn is_long<H, B>(image: IconCandidate<H, B>, side: int) -> bool {
    let width = image.bounds.max_x - image.bounds.min_x + 1;
    let height = image.bounds.max_y - image.bounds.min_y + 1;
    width <= side && height <= side && (width == side || height == side)
}

/// The image to draw where this many pixels are wanted. No other suits better: one that is
/// large enough is better than one that is not; of those that are, the smaller is better,
/// and of two alike the earlier; of those that are not, the larger is better, and of two
/// alike the later.
pub open spec fn suits_best<H, B>(
    images: Seq<IconCandidate<H, B>>,
    wanted: int,
    i: int,
) -> bool {
    &&& 0 <= i < images.len()
    &&& forall|j: int, one: int, other: int|
        #![trigger is_long(images[i], one), is_long(images[j], other)]
        0 <= j < images.len() && is_long(images[i], one) && is_long(images[j], other) ==> {
            &&& other >= wanted ==> wanted <= one <= other
            &&& other >= wanted && one == other ==> i <= j
            &&& one < wanted ==> other <= one
            &&& one < wanted && one == other ==> j <= i
        }
}

pub proof fn lemma_suits_best<H, B>(icon: AppIcon<H, B>, wanted: int, i: int)
    requires
        is_selected(icon.extents(), wanted, i),
    ensures
        suits_best(icon.candidates@, wanted, i),
{
    let extents = icon.extents();
    let images = icon.candidates@;
    assert forall|j: int, one: int, other: int|
        #![trigger is_long(images[i], one), is_long(images[j], other)]
        0 <= j < images.len() && is_long(images[i], one) && is_long(images[j], other) implies {
        &&& other >= wanted ==> wanted <= one <= other
        &&& other >= wanted && one == other ==> i <= j
        &&& one < wanted ==> other <= one
        &&& one < wanted && one == other ==> j <= i
    } by {
        assert(extents[i] == one);
        assert(extents[j] == other);
    }
}

/// The image that is drawn in a square is the one that suits its visible size best.
pub proof fn the_image_that_suits_best_is_drawn<H, B>(
    icon: &AppIcon<H, B>,
    target_size: i32,
    wanted: i32,
    place: Option<usize>,
    image: Option<&IconCandidate<H, B>>,
)
    requires
        call_ensures(desired_visible_size, (target_size,), wanted),
        call_ensures(AppIcon::<H, B>::selected_index, (icon, target_size), place),
        call_ensures(AppIcon::<H, B>::selected, (icon, target_size), image),
    ensures
        place is None <==> icon.candidates@.len() == 0,
        place matches Some(i) ==> suits_best(icon.candidates@, wanted as int, i as int),
        image is None <==> place is None,
        place matches Some(i) ==> *image->0 == icon.candidates@[i as int],
{
    if let Some(i) = place {
        lemma_suits_best(*icon, wanted as int, i as int);
        assert(image is Some);
        let k = choose|k: int|
            #[trigger] is_selected(icon.extents(), wanted as int, k) && *image->0
                == icon.candidates@[k];
        crate::app_icon::selection_is_unique(icon.extents(), wanted as int, k, i as int);
    } else if image is Some {
        let k = choose|k: int|
            #[trigger] is_selected(icon.extents(), wanted as int, k) && *image->0
                == icon.candidates@[k];
        assert(icon.extents().len() == 0);
    }
}

/// The size in an entry of an icon file. A byte of zero stands for 256, as both leave the
/// same byte.
pub open spec fn is_entry_size(data: Seq<u8>, k: int, size: (i32, i32)) -> bool {
    &&& 1 <= size.0 <= 256
    &&& 1 <= size.1 <= 256
    &&& size.0 as int % 256 == data[6 + 16 * k]
    &&& size.1 as int % 256 == data[7 + 16 * k]
}

/// The number of entries that an icon file says it has.
pub open spec fn entry_count(data: Seq<u8>) -> int {
    data[4] + 256 * data[5]
}

/// Some entry holds the size.
pub open spec fn has_entry(data: Seq<u8>, size: (i32, i32)) -> bool {
    exists|k: int| 0 <= k < entry_count(data) && #[trigger] is_entry_size(data, k, size)
}

/// Some entry with the one size stands before every entry with the other.
pub open spec fn enters_before(data: Seq<u8>, one: (i32, i32), other: (i32, i32)) -> bool {
    exists|k: int|
        0 <= k < entry_count(data) && #[trigger] is_entry_size(data, k, one) && forall|m: int|
            0 <= m < entry_count(data) && #[trigger] is_entry_size(data, m, other) ==> k < m
}

/// An icon file begins with the bytes 0, 0, 1, 0 and with the number of its entries, low
/// byte first, of which there is one at least; and all of its entries are there, with
/// sixteen bytes each. The sizes in them come out once each, in the order in which they
/// first stand there.
pub proof fn icon_files_tell_their_sizes(data: &[u8], dimensions: Option<Vec<(i32, i32)>>)
    requires
        call_ensures(ico_frame_dimensions, (data,), dimensions),
    ensures
        dimensions is Some <==> {
            &&& data@.len() >= 6
            &&& data@[0] == 0 && data@[1] == 0 && data@[2] == 1 && data@[3] == 0
            &&& entry_count(data@) > 0
            &&& data@.len() >= 6 + 16 * entry_count(data@)
        },
        dimensions is Some ==> dimensions->0@.no_duplicates(),
        dimensions is Some ==> forall|size: (i32, i32)| #[trigger]
            dimensions->0@.contains(size) <==> has_entry(data@, size),
        dimensions is Some ==> forall|a: int, b: int|
            #![trigger dimensions->0@[a], dimensions->0@[b]]
            0 <= a < b < dimensions->0@.len() ==> enters_before(
                data@,
                dimensions->0@[a],
                dimensions->0@[b],
            ),
{
    let all = directory_sizes(data@);
    let none = Seq::<(i32, i32)>::empty();
    let count = entry_count(data@);
    if dimensions is Some {
        let sizes = dimensions->0@;
        assert(sizes == append_missing(none, all));
        lemma_append_missing(none, all);
        assert(none.no_duplicates());
        assert forall|k: int, size: (i32, i32)|
            0 <= k < count implies (#[trigger] is_entry_size(data@, k, size) <==> all[k]
            == size) by {}
        assert forall|size: (i32, i32)| #[trigger]
            sizes.contains(size) <==> has_entry(data@, size) by {
            if sizes.contains(size) {
                assert(all.contains(size));
                let k = choose|k: int| 0 <= k < all.len() && all[k] == size;
                assert(is_entry_size(data@, k, size));
            }
            if has_entry(data@, size) {
                let k = choose|k: int| 0 <= k < count && #[trigger] is_entry_size(data@, k, size);
                assert(all[k] == size);
                assert(all.contains(size));
            }
        }
        assert forall|a: int, b: int|
            #![trigger sizes[a], sizes[b]]
            0 <= a < b < sizes.len() implies enters_before(data@, sizes[a], sizes[b]) by {
            lemma_appended_order(none, all, a, b);
            assert(comes_before(all, sizes[a], sizes[b]));
            let k = choose|k: int|
                0 <= k < all.len() && #[trigger] all[k] == sizes[a] && forall|q: int|
                    0 <= q < all.len() && #[trigger] all[q] == sizes[b] ==> k < q;
            assert(is_entry_size(data@, k, sizes[a]));
            assert forall|m: int|
                0 <= m < count && #[trigger] is_entry_size(data@, m, sizes[b]) implies k < m by {
                assert(all[m] == sizes[b]);
            }
        }
    }
}

/// A file that is there is loaded as an icon file where its extension is made of the
/// letters i, c, o, large or small, and else as a picture.
pub proof fn icon_files_are_told_by_their_extension(
    is_there: bool,
    extension: Option<&str>,
    kind: ImageKind,
)
    requires
        call_ensures(image_kind, (is_there, extension), kind),
    ensures
        kind == ImageKind::Missing <==> !is_there,
        kind == ImageKind::Ico <==> is_there && extension is Some && {
            let text = extension->0@;
            &&& text.len() == 3
            &&& text[0] == 'i' || text[0] == 'I'
            &&& text[1] == 'c' || text[1] == 'C'
            &&& text[2] == 'o' || text[2] == 'O'
        },
{
    reveal_strlit("ico");
    if let Some(extension) = extension {
        let text = extension@;
        let lowered = ascii_lowered(text);
        let ico = ascii_lowered("ico"@);
        assert(ico =~= seq!['i', 'c', 'o']);
        assert(lowered.len() == text.len());
        if text.len() == 3 {
            assert(lowered =~= seq![
                ascii_lower(text[0]),
                ascii_lower(text[1]),
                ascii_lower(text[2]),
            ]);
            lemma_lower(text[0], 'i', 'I');
            lemma_lower(text[1], 'c', 'C');
            lemma_lower(text[2], 'o', 'O');
            assert(lowered == ico <==> lowered[0] == ico[0] && lowered[1] == ico[1] && lowered[2]
                == ico[2]) by {
                if lowered[0] == ico[0] && lowered[1] == ico[1] && lowered[2] == ico[2] {
                    assert(lowered =~= ico);
                }
            }
        }
    }
}

proof fn lemma_lower(c: char, small: char, large: char)
    requires
        'a' <= small <= 'z',
        large as u32 + 32 == small as u32,
    ensures
        ascii_lower(c) == small <==> c == small || c == large,
{
}

/// A window that answers with an icon settles the question. Until then it is asked for its
/// large icon, then its class, then it for the small one, and no more.
pub proof fn windows_are_asked_three_times(
    query: WindowQuery,
    replied: bool,
    value: usize,
    step: WindowIconStep,
)
    requires
        call_ensures(get_window_icon, (query, replied, value), step),
    ensures
        replied && value != 0 <==> step is Found,
        step matches WindowIconStep::Found(found) ==> found == value,
        !(step is Found) && query == WindowQuery::Big ==> step == WindowIconStep::Ask(
            WindowQuery::Class,
        ),
        !(step is Found) && query == WindowQuery::Class ==> step == WindowIconStep::Ask(
            WindowQuery::Small,
        ),
        step is Nothing <==> !(step is Found) && query == WindowQuery::Small,
{
}

/// The shell is called until it answers, three times at most, with a pause of thirty
/// milliseconds after each call that failed.
pub proof fn the_shell_is_called_three_times(calls: u32, returned: usize, step: LookupStep)
    requires
        call_ensures(get_shfileinfo, (calls, returned), step),
    ensures
        step is Found <==> returned != 0,
        step is WaitAndAsk <==> returned == 0 && calls < 3,
        step is GiveUp <==> returned == 0 && calls >= 3,
        step matches LookupStep::WaitAndAsk { millis } ==> millis == 30,
        step matches LookupStep::GiveUp { millis } ==> millis == 30,
{
}

/// The icon of an executable is looked up in the lists of the system from the largest
/// images down.
pub proof fn the_largest_images_come_first(lists: [i32; 3])
    requires
        call_ensures(exe_image_lists, (), lists),
    ensures
        lists@[0] == 4,
        lists@[1] == 2,
        lists@[2] == 0,
{
}

} // verus!
