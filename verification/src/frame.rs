//! The unified frame: every display's pixels in one RGBA buffer that is
//! addressed from the top-left corner of the displays' bounding rectangle.

use vstd::prelude::*;
use vstd::arithmetic::div_mod::lemma_fundamental_div_mod;
use crate::blit::{
    blit, blit_spec, blit_writes, image_covers, lemma_blit_idempotent, pixel_col, pixel_row,
    source_index, Placement,
};
use crate::decode::{
    decode_capture, decoded_as, image_parts, DeclaredFormat, DecodedImage, DisplayFailure,
    RawCapture,
};
use crate::geometry::{
    bounding_box, lemma_bounds_are_tight, lemma_edges_in_range, max_bottom, max_right, min_left,
    min_top, DisplayDescriptor,
};

verus! {

/// All displays stitched into one RGBA8 buffer.
#[derive(Debug)]
pub struct UnifiedFrame {
    pub width: u32,
    pub height: u32,
    /// How far the frame's top-left corner lies from the origin of
    /// virtual-desktop space, on each axis.
    pub origin_offset: (u32, u32),
    pub pixels: Vec<u8>,
}

impl UnifiedFrame {
    /// The buffer holds four bytes for each pixel of the frame.
    pub open spec fn well_formed(self) -> bool {
        self.pixels@.len() == self.width * self.height * 4
    }
}

/// Why no frame could be composed.
#[derive(Clone, Copy, Debug, PartialEq, Eq, Structural)]
pub enum ComposeError {
    /// There is no display to capture.
    EnumerationFailure,
    /// The bounding rectangle needs more bytes than a buffer can hold, or a
    /// side of it does not fit the frame's dimensions.
    FrameTooLarge,
}

/// An image as the compositor reads it: its width, its height and its pixel
/// bytes.
pub type ImageParts = (u32, u32, Seq<u8>);

/// Width of the bounding rectangle of `ds`.
pub open spec fn frame_width(ds: Seq<DisplayDescriptor>) -> int {
    max_right(ds) - min_left(ds)
}

/// Height of the bounding rectangle of `ds`.
pub open spec fn frame_height(ds: Seq<DisplayDescriptor>) -> int {
    max_bottom(ds) - min_top(ds)
}

/// Number of bytes in the frame that spans `ds`.
pub open spec fn frame_len(ds: Seq<DisplayDescriptor>) -> int {
    frame_width(ds) * frame_height(ds) * 4
}

/// Whether a frame that spans `ds` can be held.
pub open spec fn frame_fits(ds: Seq<DisplayDescriptor>) -> bool {
    &&& ds.len() > 0
    &&& frame_width(ds) <= u32::MAX
    &&& frame_height(ds) <= u32::MAX
    &&& frame_len(ds) <= usize::MAX
}

pub open spec fn abs_int(v: int) -> int {
    if v < 0 { -v } else { v }
}

/// The absolute value of a coordinate.
pub fn magnitude(v: i32) -> (m: u32)
    ensures
        m == abs_int(v as int),
{
    if v < 0 {
        (-(v as i64)) as u32
    } else {
        v as u32
    }
}

/// The offset recorded with a frame: none for a lone display, else the
/// absolute value of the smallest origin on each axis.
pub open spec fn frame_offset(ds: Seq<DisplayDescriptor>) -> (u32, u32) {
    if ds.len() == 1 {
        (0u32, 0u32)
    } else {
        (abs_int(min_left(ds)) as u32, abs_int(min_top(ds)) as u32)
    }
}

/// Where display `d` lands in the frame that spans `ds`.
pub open spec fn placement_in_frame(d: DisplayDescriptor, ds: Seq<DisplayDescriptor>) -> Placement {
    Placement {
        pos_x: (d.x - min_left(ds)) as u32,
        pos_y: (d.y - min_top(ds)) as u32,
        width: d.width,
        height: d.height,
    }
}

/// The image of each display, `None` for one that failed.
pub open spec fn image_sources(images: Seq<Result<DecodedImage, DisplayFailure>>) -> Seq<
    Option<ImageParts>,
> {
    Seq::new(
        images.len(),
        |k: int|
            match images[k] {
                Ok(img) => Some(image_parts(img)),
                Err(_) => None,
            },
    )
}

/// The image of display `k`, `None` where it failed or has no entry.
pub open spec fn source_of(sources: Seq<Option<ImageParts>>, k: int) -> Option<ImageParts> {
    if 0 <= k < sources.len() {
        sources[k]
    } else {
        None
    }
}

/// Whether the buffer of an image holds four bytes for each of its pixels.
pub open spec fn whole_image(img: ImageParts) -> bool {
    img.2.len() == img.0 * img.1 * 4
}

/// Whether the buffer of an image holds at least four bytes for each of its
/// pixels.
pub open spec fn covers_image(img: ImageParts) -> bool {
    img.2.len() >= img.0 * img.1 * 4
}

/// The pixel bytes of an image.
pub open spec fn bytes_of(img: ImageParts) -> Seq<u8> {
    img.2
}

/// The frame after the first `n` displays have been drawn, in order, into a
/// buffer of zero bytes. Each image is laid row by row, at its own width,
/// into its display's rectangle. A display without an image draws nothing.
pub open spec fn composed_pixels(
    ds: Seq<DisplayDescriptor>,
    sources: Seq<Option<ImageParts>>,
    n: nat,
) -> Seq<u8>
    decreases n,
{
    if n == 0 {
        Seq::new(frame_len(ds) as nat, |i: int| 0u8)
    } else {
        let before = composed_pixels(ds, sources, (n - 1) as nat);
        match source_of(sources, n - 1) {
            Some(img) => blit_spec(
                before,
                frame_width(ds),
                img.2,
                img.0 as int,
                img.1 as int,
                placement_in_frame(ds[n - 1], ds),
            ),
            None => before,
        }
    }
}

/// The image that is the whole frame: that of a lone display, where it
/// decoded and its buffer holds four bytes for each pixel.
pub open spec fn lone_image(ds: Seq<DisplayDescriptor>, sources: Seq<Option<ImageParts>>) -> Option<
    ImageParts,
> {
    if ds.len() == 1 && source_of(sources, 0) is Some && whole_image(source_of(sources, 0)->0) {
        source_of(sources, 0)
    } else {
        None
    }
}

/// Whether `r` is what composing `ds` from `sources` gives.
///
/// The image of a lone display is the frame as it stands, at the image's own
/// size and with no offset. In every other case the frame spans the
/// bounding rectangle of the displays and holds their images drawn in order
/// into zero bytes; there is none where there is no display, or where the
/// rectangle is too large to hold.
pub open spec fn compose_result(
    ds: Seq<DisplayDescriptor>,
    sources: Seq<Option<ImageParts>>,
    r: Result<UnifiedFrame, ComposeError>,
) -> bool {
    match lone_image(ds, sources) {
        Some(img) => {
            &&& r matches Ok(frame)
            &&& frame.width == img.0
            &&& frame.height == img.1
            &&& frame.origin_offset == (0u32, 0u32)
            &&& frame.pixels@ == img.2
        },
        None => {
            &&& r is Ok <==> frame_fits(ds)
            &&& r matches Err(e) ==> (e == ComposeError::EnumerationFailure <==> ds.len() == 0)
            &&& r matches Ok(frame) ==> {
                &&& frame.width == frame_width(ds)
                &&& frame.height == frame_height(ds)
                &&& frame.origin_offset == frame_offset(ds)
                &&& frame.pixels@ == composed_pixels(ds, sources, ds.len())
            }
        },
    }
}

/// The bounding rectangle of a non-empty set of displays has no negative side,
/// and every display lies inside it.
pub proof fn lemma_frame_holds_displays(ds: Seq<DisplayDescriptor>)
    requires
        ds.len() > 0,
    ensures
        0 <= frame_width(ds) <= 0x1_ffff_fffe,
        0 <= frame_height(ds) <= 0x1_ffff_fffe,
        forall|k: int|
            0 <= k < ds.len() ==> {
                &&& 0 <= (#[trigger] ds[k]).x - min_left(ds) <= u32::MAX
                &&& 0 <= ds[k].y - min_top(ds) <= u32::MAX
                &&& ds[k].x - min_left(ds) + ds[k].width <= frame_width(ds)
                &&& ds[k].y - min_top(ds) + ds[k].height <= frame_height(ds)
            },
{
    lemma_bounds_are_tight(ds);
    lemma_edges_in_range(ds);
    let a = choose|i: int| 0 <= i < ds.len() && (#[trigger] ds[i]).right() == max_right(ds);
    let b = choose|i: int| 0 <= i < ds.len() && (#[trigger] ds[i]).bottom() == max_bottom(ds);
    assert(min_left(ds) <= ds[a].left() <= ds[a].right());
    assert(min_top(ds) <= ds[b].top() <= ds[b].bottom());
}

/// The bounding rectangle of a lone display is the display's own rectangle.
pub proof fn lemma_lone_display(ds: Seq<DisplayDescriptor>)
    requires
        ds.len() == 1,
    ensures
        min_left(ds) == ds[0].left(),
        min_top(ds) == ds[0].top(),
        max_right(ds) == ds[0].right(),
        max_bottom(ds) == ds[0].bottom(),
        frame_width(ds) == ds[0].width,
        frame_height(ds) == ds[0].height,
{
    lemma_bounds_are_tight(ds);
}

/// Drawing never changes the length of the frame.
pub proof fn lemma_composed_len(ds: Seq<DisplayDescriptor>, sources: Seq<Option<ImageParts>>, n: nat)
    requires
        ds.len() > 0,
    ensures
        composed_pixels(ds, sources, n).len() == frame_len(ds),
    decreases n,
{
    lemma_frame_holds_displays(ds);
    assert(frame_len(ds) >= 0) by (nonlinear_arith)
        requires
            frame_len(ds) == frame_width(ds) * frame_height(ds) * 4,
            frame_width(ds) >= 0,
            frame_height(ds) >= 0,
    ;
    if n > 0 {
        lemma_composed_len(ds, sources, (n - 1) as nat);
    }
}

/// Whether two sets of displays span the same bounding rectangle.
pub open spec fn same_bounds(a: Seq<DisplayDescriptor>, b: Seq<DisplayDescriptor>) -> bool {
    &&& min_left(a) == min_left(b)
    &&& min_top(a) == min_top(b)
    &&& max_right(a) == max_right(b)
    &&& max_bottom(a) == max_bottom(b)
}

/// Drawing the first `n` displays reads the bounding rectangle, those
/// displays and their images, and nothing else.
pub proof fn lemma_composed_reads_its_displays(
    ds: Seq<DisplayDescriptor>,
    a: Seq<Option<ImageParts>>,
    ds2: Seq<DisplayDescriptor>,
    b: Seq<Option<ImageParts>>,
    n: nat,
)
    requires
        same_bounds(ds, ds2),
        forall|k: int| 0 <= k < n ==> ds[k] == ds2[k] && source_of(a, k) == source_of(b, k),
    ensures
        composed_pixels(ds, a, n) == composed_pixels(ds2, b, n),
    decreases n,
{
    if n > 0 {
        lemma_composed_reads_its_displays(ds, a, ds2, b, (n - 1) as nat);
        assert(ds[n - 1] == ds2[n - 1] && source_of(a, n - 1) == source_of(b, n - 1));
    } else {
        assert(composed_pixels(ds, a, 0) =~= composed_pixels(ds2, b, 0));
    }
}

/// Listing the last display a second time, with the same image, changes
/// neither the bounding rectangle nor a byte of the frame.
pub proof fn lemma_repeated_display_changes_nothing(
    ds: Seq<DisplayDescriptor>,
    sources: Seq<Option<ImageParts>>,
)
    requires
        ds.len() > 0,
        sources.len() == ds.len(),
    ensures
        same_bounds(ds, ds.push(ds.last())),
        composed_pixels(ds.push(ds.last()), sources.push(sources.last()), ds.len() + 1)
            == composed_pixels(ds, sources, ds.len()),
{
    let n = ds.len();
    let ds2 = ds.push(ds.last());
    let sources2 = sources.push(sources.last());
    lemma_bounds_are_tight(ds);
    assert(ds2.drop_last() =~= ds);
    assert(ds2.last() == ds[n - 1]);
    assert(same_bounds(ds, ds2));
    lemma_composed_reads_its_displays(ds, sources, ds2, sources2, n);
    assert(source_of(sources2, n as int) == source_of(sources, n - 1));
    assert(ds2[n as int] == ds[n - 1]);
    assert(placement_in_frame(ds2[n as int], ds2) == placement_in_frame(ds[n - 1], ds));
    assert(frame_width(ds2) == frame_width(ds));
    let before = composed_pixels(ds, sources, (n - 1) as nat);
    match source_of(sources, n - 1) {
        Some(img) => {
            lemma_blit_idempotent(
                before,
                frame_width(ds),
                img.2,
                img.0 as int,
                img.1 as int,
                placement_in_frame(ds[n - 1], ds),
            );
        },
        None => {},
    }
}

/// An image that is exactly as large as the frame replaces all of it.
pub proof fn lemma_blit_whole_frame(dst: Seq<u8>, src: Seq<u8>, width: u32, height: u32)
    requires
        dst.len() == width * height * 4,
        src.len() == dst.len(),
    ensures
        blit_spec(
            dst,
            width as int,
            src,
            width as int,
            height as int,
            Placement { pos_x: 0, pos_y: 0, width, height },
        ) == src,
{
    let place = Placement { pos_x: 0, pos_y: 0, width, height };
    let w = width as int;
    let out = blit_spec(dst, w, src, w, height as int, place);
    assert forall|i: int| 0 <= i < dst.len() implies out[i] == src[i] by {
        let p = i / 4;
        assert(w > 0 && p < w * height) by (nonlinear_arith)
            requires
                0 <= i < w * height * 4,
                p == i / 4,
                0 <= w,
                0 <= height,
        ;
        lemma_fundamental_div_mod(p, w);
        let row = p / w;
        let col = p % w;
        assert(row < height && row * w + col == p) by (nonlinear_arith)
            requires
                p == w * row + col,
                0 <= col < w,
                p < w * height,
                0 <= height,
        ;
        assert(0 <= row) by (nonlinear_arith)
            requires
                p == w * row + col,
                0 <= col < w,
                0 <= p,
        ;
        assert(source_index(place, w, col, row) == p * 4);
        assert(image_covers(place, w, height as int, col, row));
        assert(blit_writes(dst.len() as int, w, src.len() as int, w, height as int, place, i));
    }
    assert(out =~= src);
}

/// Whether display `k` has an image that covers the frame pixel at
/// `(col, row)`: the pixel lies in the display's rectangle and in the image
/// laid into it from the rectangle's top-left corner.
pub open spec fn paints_at(
    ds: Seq<DisplayDescriptor>,
    sources: Seq<Option<ImageParts>>,
    k: int,
    col: int,
    row: int,
) -> bool {
    source_of(sources, k) matches Some(img) && image_covers(
        placement_in_frame(ds[k], ds),
        img.0 as int,
        img.1 as int,
        col,
        row,
    )
}

/// The byte `ch` of the pixel of display `k`'s image that lands at the frame
/// pixel `(col, row)`: the image pixel at column `col` less the display's
/// left edge in the frame, row `row` less its top edge.
pub open spec fn image_byte(
    ds: Seq<DisplayDescriptor>,
    sources: Seq<Option<ImageParts>>,
    k: int,
    col: int,
    row: int,
    ch: int,
) -> u8 {
    let img = source_of(sources, k)->0;
    img.2[source_index(placement_in_frame(ds[k], ds), img.0 as int, col, row) + ch]
}

/// A display's rectangle in the frame starts where the display starts in
/// virtual-desktop space, less the smallest origin, and a pixel that its
/// image covers lies on the display.
pub proof fn lemma_placement_follows_origin(ds: Seq<DisplayDescriptor>, k: int)
    requires
        0 <= k < ds.len(),
    ensures
        placement_in_frame(ds[k], ds).pos_x == ds[k].x - min_left(ds),
        placement_in_frame(ds[k], ds).pos_y == ds[k].y - min_top(ds),
        forall|w: int, h: int, col: int, row: int|
            #[trigger] image_covers(placement_in_frame(ds[k], ds), w, h, col, row)
                ==> ds[k].covers(col + min_left(ds), row + min_top(ds)),
{
    lemma_frame_holds_displays(ds);
}

/// An image is drawn only where it covers its display's rectangle, and is
/// drawn everywhere there if its buffer holds four bytes for each pixel.
pub proof fn lemma_draws_own_rectangle(ds: Seq<DisplayDescriptor>, k: int, img: ImageParts, i: int)
    requires
        0 <= k < ds.len(),
        0 <= i < frame_len(ds),
    ensures
        frame_width(ds) > 0,
        blit_writes(
            frame_len(ds),
            frame_width(ds),
            img.2.len() as int,
            img.0 as int,
            img.1 as int,
            placement_in_frame(ds[k], ds),
            i,
        ) ==> image_covers(
            placement_in_frame(ds[k], ds),
            img.0 as int,
            img.1 as int,
            pixel_col(i, frame_width(ds)),
            pixel_row(i, frame_width(ds)),
        ),
        covers_image(img) && image_covers(
            placement_in_frame(ds[k], ds),
            img.0 as int,
            img.1 as int,
            pixel_col(i, frame_width(ds)),
            pixel_row(i, frame_width(ds)),
        ) ==> blit_writes(
            frame_len(ds),
            frame_width(ds),
            img.2.len() as int,
            img.0 as int,
            img.1 as int,
            placement_in_frame(ds[k], ds),
            i,
        ),
{
    lemma_frame_holds_displays(ds);
    let w = frame_width(ds);
    let h = frame_height(ds);
    let place = placement_in_frame(ds[k], ds);
    let col = pixel_col(i, w);
    let row = pixel_row(i, w);
    assert(w > 0 && (i / 4) * 4 + 3 < w * h * 4) by (nonlinear_arith)
        requires
            0 <= i < w * h * 4,
            0 <= w,
            0 <= h,
    ;
    if image_covers(place, img.0 as int, img.1 as int, col, row) {
        let dx = col - place.pos_x;
        let dy = row - place.pos_y;
        assert((dy * img.0 + dx) * 4 + 3 < img.0 * img.1 * 4) by (nonlinear_arith)
            requires
                0 <= dx < img.0,
                0 <= dy < img.1,
        ;
    }
}

proof fn lemma_blank_after(ds: Seq<DisplayDescriptor>, sources: Seq<Option<ImageParts>>, n: nat, i: int)
    requires
        n <= ds.len(),
        0 <= i < frame_len(ds),
        forall|k: int|
            0 <= k < n ==> !paints_at(
                ds,
                sources,
                k,
                pixel_col(i, frame_width(ds)),
                pixel_row(i, frame_width(ds)),
            ),
    ensures
        composed_pixels(ds, sources, n)[i] == 0,
    decreases n,
{
    if n > 0 {
        let k = n - 1;
        lemma_blank_after(ds, sources, k as nat, i);
        lemma_composed_len(ds, sources, k as nat);
        assert(!paints_at(ds, sources, k, pixel_col(i, frame_width(ds)), pixel_row(i, frame_width(ds))));
        match source_of(sources, k) {
            Some(img) => {
                lemma_draws_own_rectangle(ds, k, img, i);
            },
            None => {},
        }
    }
}

proof fn lemma_painted_after(
    ds: Seq<DisplayDescriptor>,
    sources: Seq<Option<ImageParts>>,
    n: nat,
    k: int,
    i: int,
)
    requires
        0 <= k < n <= ds.len(),
        0 <= i < frame_len(ds),
        paints_at(ds, sources, k, pixel_col(i, frame_width(ds)), pixel_row(i, frame_width(ds))),
        covers_image(source_of(sources, k)->0),
        forall|j: int|
            k < j < n ==> !paints_at(
                ds,
                sources,
                j,
                pixel_col(i, frame_width(ds)),
                pixel_row(i, frame_width(ds)),
            ),
    ensures
        composed_pixels(ds, sources, n)[i] == image_byte(
            ds,
            sources,
            k,
            pixel_col(i, frame_width(ds)),
            pixel_row(i, frame_width(ds)),
            i % 4,
        ),
    decreases n,
{
    let last = n - 1;
    lemma_composed_len(ds, sources, last as nat);
    if last == k {
        lemma_draws_own_rectangle(ds, k, source_of(sources, k)->0, i);
    } else {
        lemma_painted_after(ds, sources, last as nat, k, i);
        assert(!paints_at(
            ds,
            sources,
            last,
            pixel_col(i, frame_width(ds)),
            pixel_row(i, frame_width(ds)),
        ));
        match source_of(sources, last) {
            Some(img) => {
                lemma_draws_own_rectangle(ds, last, img, i);
            },
            None => {},
        }
    }
}

/// A byte of the frame whose pixel no image covers is zero: the gaps between
/// displays, the whole rectangle of a display that failed, and what of a
/// display's rectangle lies beyond its image, wherever no other display's
/// image reaches.
pub proof fn lemma_unpainted_is_blank(ds: Seq<DisplayDescriptor>, sources: Seq<Option<ImageParts>>, i: int)
    requires
        0 <= i < frame_len(ds),
        forall|k: int|
            0 <= k < ds.len() ==> !paints_at(
                ds,
                sources,
                k,
                pixel_col(i, frame_width(ds)),
                pixel_row(i, frame_width(ds)),
            ),
    ensures
        composed_pixels(ds, sources, ds.len())[i] == 0,
{
    lemma_blank_after(ds, sources, ds.len(), i);
}

/// A byte of the frame whose pixel the image of display `k` covers, and the
/// image of no later display, is the byte of that image's pixel at the same
/// distance from the image's top-left corner as the frame pixel has from the
/// display's, provided the image's buffer holds four bytes for each pixel: a
/// failure on another display does not disturb it.
pub proof fn lemma_painted_by_last_cover(
    ds: Seq<DisplayDescriptor>,
    sources: Seq<Option<ImageParts>>,
    k: int,
    i: int,
)
    requires
        0 <= k < ds.len(),
        0 <= i < frame_len(ds),
        paints_at(ds, sources, k, pixel_col(i, frame_width(ds)), pixel_row(i, frame_width(ds))),
        covers_image(source_of(sources, k)->0),
        forall|j: int|
            k < j < ds.len() ==> !paints_at(
                ds,
                sources,
                j,
                pixel_col(i, frame_width(ds)),
                pixel_row(i, frame_width(ds)),
            ),
    ensures
        composed_pixels(ds, sources, ds.len())[i] == image_byte(
            ds,
            sources,
            k,
            pixel_col(i, frame_width(ds)),
            pixel_row(i, frame_width(ds)),
            i % 4,
        ),
{
    lemma_painted_after(ds, sources, ds.len(), k, i);
}

/// Drawing a lone display's image of the display's declared size into the
/// bounding rectangle gives that image, byte for byte: the frame that is
/// taken from the image as it stands is the frame that drawing would give.
pub proof fn lemma_lone_display_frame(ds: Seq<DisplayDescriptor>, sources: Seq<Option<ImageParts>>)
    requires
        ds.len() == 1,
        source_of(sources, 0) matches Some(img) && whole_image(img) && img.0 == ds[0].width
            && img.1 == ds[0].height,
    ensures
        composed_pixels(ds, sources, 1) == bytes_of(source_of(sources, 0)->0),
        frame_offset(ds) == (0u32, 0u32),
{
    lemma_lone_display(ds);
    lemma_composed_len(ds, sources, 0);
    let img = source_of(sources, 0)->0;
    assert(placement_in_frame(ds[0], ds) == Placement {
        pos_x: 0,
        pos_y: 0,
        width: ds[0].width,
        height: ds[0].height,
    });
    lemma_blit_whole_frame(composed_pixels(ds, sources, 0), img.2, ds[0].width, ds[0].height);
}

/// The frame has the size of the displays' bounding rectangle, and its
/// buffer four bytes for each pixel of it, whenever the frame is not the
/// image of a lone display that came in another size than the display
/// declares.
pub proof fn lemma_frame_spans_bounding_box(
    ds: Seq<DisplayDescriptor>,
    sources: Seq<Option<ImageParts>>,
    frame: UnifiedFrame,
)
    requires
        compose_result(ds, sources, Ok(frame)),
        lone_image(ds, sources) matches Some(img) ==> img.0 == ds[0].width && img.1
            == ds[0].height,
    ensures
        frame.width == frame_width(ds),
        frame.height == frame_height(ds),
        frame.pixels@.len() == frame_width(ds) * frame_height(ds) * 4,
{
    match lone_image(ds, sources) {
        Some(img) => {
            lemma_lone_display(ds);
        },
        None => {
            lemma_composed_len(ds, sources, ds.len());
        },
    }
}

/// Whether the buffer of `img` holds four bytes for each of its pixels.
fn is_whole(img: &DecodedImage) -> (r: bool)
    ensures
        r == whole_image(image_parts(*img)),
{
    assert(img.width as u128 * img.height as u128 <= 0xffff_ffff * 0xffff_ffff)
        by (nonlinear_arith)
        requires
            img.width <= 0xffff_ffff,
            img.height <= 0xffff_ffff,
    ;
    img.pixels.len() as u128 == img.width as u128 * img.height as u128 * 4
}

/// Composes the unified frame of `displays`. `images[k]` holds what display
/// `k` decoded to; a display whose entry is a failure, or is missing, leaves
/// its part of the frame zero-filled. Displays are drawn in order, so where
/// two overlap the later one shows. The image of a lone display is the
/// frame, at the image's own size.
pub fn compose(displays: &[DisplayDescriptor], images: Vec<Result<DecodedImage, DisplayFailure>>) -> (r:
    Result<UnifiedFrame, ComposeError>)
    ensures
        compose_result(displays@, image_sources(images@), r),
        r matches Ok(frame) ==> frame.well_formed(),
{
    let ghost ds = displays@;
    let ghost sources = image_sources(images@);
    let mut images = images;
    if displays.len() == 1 && images.len() >= 1 {
        let whole = match &images[0] {
            Ok(img) => is_whole(img),
            Err(_) => false,
        };
        if whole {
            let ghost given = images@;
            images.truncate(1);
            match images.pop() {
                Some(Ok(img)) => {
                    assert(sources[0] == Some(image_parts(img)));
                    return Ok(
                        UnifiedFrame {
                            width: img.width,
                            height: img.height,
                            origin_offset: (0, 0),
                            pixels: img.pixels,
                        },
                    );
                },
                other => {
                    assert(given.subrange(0, 1).last() == given[0]);
                    assert(other == Some(given[0]));
                    assert(false);
                },
            }
        }
    }
    assert(lone_image(ds, sources) is None);
    if displays.len() == 0 {
        return Err(ComposeError::EnumerationFailure);
    }
    let bounds = bounding_box(displays);
    proof {
        lemma_frame_holds_displays(ds);
        lemma_edges_in_range(ds);
    }
    let wide: i64 = bounds.max_x - bounds.min_x as i64;
    let high: i64 = bounds.max_y - bounds.min_y as i64;
    if wide > 0xffff_ffff || high > 0xffff_ffff {
        return Err(ComposeError::FrameTooLarge);
    }
    let width: u32 = wide as u32;
    let height: u32 = high as u32;
    assert(width as u64 * height as u64 <= 0xffff_ffff * 0xffff_ffff) by (nonlinear_arith)
        requires
            width <= 0xffff_ffff,
            height <= 0xffff_ffff,
    ;
    let area: u64 = width as u64 * height as u64;
    if area > (usize::MAX as u64) / 4 {
        return Err(ComposeError::FrameTooLarge);
    }
    let len: usize = (area * 4) as usize;
    let origin_offset: (u32, u32) = if displays.len() == 1 {
        (0, 0)
    } else {
        (magnitude(bounds.min_x), magnitude(bounds.min_y))
    };
    let mut pixels: Vec<u8> = vec![0u8; len];
    assert(pixels@ =~= composed_pixels(ds, sources, 0));
    let mut k: usize = 0;
    while k < displays.len()
        invariant
            k <= displays@.len(),
            ds == displays@,
            ds.len() > 0,
            sources == image_sources(images@),
            width == frame_width(ds),
            bounds.min_x == min_left(ds),
            bounds.min_y == min_top(ds),
            pixels@ == composed_pixels(ds, sources, k as nat),
        decreases displays@.len() - k,
    {
        if k < images.len() {
            let d = displays[k];
            proof {
                lemma_frame_holds_displays(ds);
            }
            match &images[k] {
                Ok(img) => {
                    let place = Placement {
                        pos_x: (d.x as i64 - bounds.min_x as i64) as u32,
                        pos_y: (d.y as i64 - bounds.min_y as i64) as u32,
                        width: d.width,
                        height: d.height,
                    };
                    assert(source_of(sources, k as int) == Some(image_parts(*img)));
                    blit(&mut pixels, width, img.pixels.as_slice(), img.width, img.height, place);
                },
                Err(_) => {
                    assert(source_of(sources, k as int) is None);
                },
            }
        }
        k += 1;
    }
    proof {
        lemma_composed_len(ds, sources, ds.len());
    }
    Ok(UnifiedFrame { width, height, origin_offset, pixels })
}

/// Where the overlay window goes so that its top-left corner shows the
/// frame's first pixel: the frame's offset, negated, and the frame's size.
#[derive(Clone, Copy, Debug, PartialEq, Eq, Structural)]
pub struct WindowPlacement {
    pub x: i64,
    pub y: i64,
    pub width: u32,
    pub height: u32,
}

impl UnifiedFrame {
    /// The placement of the overlay window over this frame.
    pub fn window_placement(&self) -> (p: WindowPlacement)
        ensures
            p.x == -(self.origin_offset.0 as int),
            p.y == -(self.origin_offset.1 as int),
            p.width == self.width,
            p.height == self.height,
    {
        WindowPlacement {
            x: -(self.origin_offset.0 as i64),
            y: -(self.origin_offset.1 as i64),
            width: self.width,
            height: self.height,
        }
    }
}

/// Whether `image` is a possible outcome for the capture of one display: a
/// capture failure where there is no capture, else an outcome of decoding
/// it.
pub open spec fn decodes_to(capture: Option<RawCapture>, image: Result<DecodedImage, DisplayFailure>) -> bool {
    match capture {
        None => image == Err::<DecodedImage, _>(DisplayFailure::CaptureFailure),
        Some(c) => decoded_as(c, image),
    }
}

/// Whether `source` is a possible image for the capture of one display:
/// none where there is no capture or the capture is refused; what a decided
/// capture decodes to; and for an uncompressed bitmap either none or an
/// image whose buffer holds four bytes for each pixel.
pub open spec fn source_admitted(capture: Option<RawCapture>, source: Option<ImageParts>) -> bool {
    match capture {
        None => source is None,
        Some(c) => {
            &&& c.decided() ==> source == c.decoding()
            &&& c.refused() ==> source is None
            &&& source matches Some(img) ==> c.declared_format == DeclaredFormat::RawRgba
                || whole_image(img)
        },
    }
}

/// Whether `sources` holds a possible image for each of `captures`.
pub open spec fn sources_admitted(
    captures: Seq<Option<RawCapture>>,
    sources: Seq<Option<ImageParts>>,
) -> bool {
    &&& sources.len() == captures.len()
    &&& forall|k: int|
        0 <= k < captures.len() ==> source_admitted(captures[k], #[trigger] sources[k])
}

/// Decodes every capture on its own: a failure on one display is recorded
/// for that display and does not stop the others.
pub fn decode_all(captures: &[Option<RawCapture>]) -> (images: Vec<Result<DecodedImage, DisplayFailure>>)
    ensures
        images@.len() == captures@.len(),
        forall|k: int| 0 <= k < captures@.len() ==> decodes_to(captures@[k], #[trigger] images@[k]),
        sources_admitted(captures@, image_sources(images@)),
{
    let mut images: Vec<Result<DecodedImage, DisplayFailure>> = Vec::new();
    let mut k: usize = 0;
    while k < captures.len()
        invariant
            k <= captures@.len(),
            images@.len() == k,
            forall|j: int| 0 <= j < k ==> decodes_to(captures@[j], #[trigger] images@[j]),
        decreases captures@.len() - k,
    {
        let image = match &captures[k] {
            Some(capture) => decode_capture(capture),
            None => Err(DisplayFailure::CaptureFailure),
        };
        images.push(image);
        k += 1;
    }
    proof {
        let sources = image_sources(images@);
        assert forall|j: int| 0 <= j < captures@.len() implies source_admitted(
            captures@[j],
            #[trigger] sources[j],
        ) by {
            assert(decodes_to(captures@[j], images@[j]));
        }
    }
    images
}

/// Decodes the captures of `displays` and composes the unified frame from
/// them. `captures[k]` is what was captured from display `k`, `None` where
/// the capture failed. The frame is what `compose` gives for the decoded
/// images, whatever the decoder that guesses made of an uncompressed
/// bitmap.
pub fn compose_captures(displays: &[DisplayDescriptor], captures: &[Option<RawCapture>]) -> (r: Result<
    UnifiedFrame,
    ComposeError,
>)
    ensures
        exists|sources: Seq<Option<ImageParts>>| #[trigger]
            sources_admitted(captures@, sources) && compose_result(displays@, sources, r),
        r matches Ok(frame) ==> frame.well_formed(),
{
    let images = decode_all(captures);
    let ghost sources = image_sources(images@);
    let r = compose(displays, images);
    assert(sources_admitted(captures@, sources) && compose_result(displays@, sources, r));
    r
}

} // verus!
