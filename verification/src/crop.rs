//! From a finalized selection to the bytes of the published image: clamping
//! the rectangle to the frame, cutting the pixels out, and encoding them.

use vstd::prelude::*;
use crate::geometry::{max_int, min_int, SelectionRect};

verus! {

/// A rectangle of whole pixels inside a frame.
#[derive(Clone, Copy, Debug, PartialEq, Eq, Structural)]
pub struct CropRegion {
    pub x: u32,
    pub y: u32,
    pub width: u32,
    pub height: u32,
}

impl CropRegion {
    /// The region lies within a frame of the given size.
    pub open spec fn inside(self, frame_width: int, frame_height: int) -> bool {
        self.x + self.width <= frame_width && self.y + self.height <= frame_height
    }
}

/// Left edge of the clamped selection: the rectangle's, but not below zero.
pub open spec fn clamped_x(rect: SelectionRect) -> int {
    max_int(rect.min.x as int, 0)
}

/// Top edge of the clamped selection: the rectangle's, but not below zero.
pub open spec fn clamped_y(rect: SelectionRect) -> int {
    max_int(rect.min.y as int, 0)
}

/// Width of the clamped selection: the rectangle's, cut to what the frame
/// holds right of the clamped left edge.
pub open spec fn clamped_width(frame_width: int, rect: SelectionRect) -> int {
    min_int(rect.spec_width(), frame_width - clamped_x(rect))
}

/// Height of the clamped selection: the rectangle's, cut to what the frame
/// holds below the clamped top edge.
pub open spec fn clamped_height(frame_height: int, rect: SelectionRect) -> int {
    min_int(rect.spec_height(), frame_height - clamped_y(rect))
}

/// The part of the frame that a selection asks for, or `None` where that
/// part has no width or no height.
pub open spec fn clamped(frame_width: int, frame_height: int, rect: SelectionRect) -> Option<
    CropRegion,
> {
    if clamped_width(frame_width, rect) > 0 && clamped_height(frame_height, rect) > 0 {
        Some(
            CropRegion {
                x: clamped_x(rect) as u32,
                y: clamped_y(rect) as u32,
                width: clamped_width(frame_width, rect) as u32,
                height: clamped_height(frame_height, rect) as u32,
            },
        )
    } else {
        None
    }
}

/// Clamps a selection to a frame of `frame_width` by `frame_height` pixels.
pub fn clamp_selection(frame_width: u32, frame_height: u32, rect: SelectionRect) -> (r: Option<
    CropRegion,
>)
    ensures
        r == clamped(frame_width as int, frame_height as int, rect),
        r matches Some(region) ==> region.inside(frame_width as int, frame_height as int)
            && region.width > 0 && region.height > 0,
{
    let x: i64 = if rect.min.x > 0 { rect.min.x as i64 } else { 0 };
    let y: i64 = if rect.min.y > 0 { rect.min.y as i64 } else { 0 };
    let room_x: i64 = frame_width as i64 - x;
    let room_y: i64 = frame_height as i64 - y;
    let width: i64 = if rect.width() <= room_x { rect.width() } else { room_x };
    let height: i64 = if rect.height() <= room_y { rect.height() } else { room_y };
    if width > 0 && height > 0 {
        Some(CropRegion { x: x as u32, y: y as u32, width: width as u32, height: height as u32 })
    } else {
        None
    }
}

/// A selection without area asks for nothing, whatever the frame.
pub proof fn lemma_empty_selection_is_dropped(
    frame_width: int,
    frame_height: int,
    rect: SelectionRect,
)
    requires
        rect.spec_width() <= 0 || rect.spec_height() <= 0,
    ensures
        clamped(frame_width, frame_height, rect) is None,
{
}

/// A selection that lies inside the frame is taken as it is.
pub proof fn lemma_inner_selection_is_kept(frame_width: int, frame_height: int, rect: SelectionRect)
    requires
        0 <= rect.min.x < rect.max.x <= frame_width,
        0 <= rect.min.y < rect.max.y <= frame_height,
    ensures
        clamped(frame_width, frame_height, rect) == Some(
            CropRegion {
                x: rect.min.x as u32,
                y: rect.min.y as u32,
                width: rect.spec_width() as u32,
                height: rect.spec_height() as u32,
            },
        ),
{
}

/// Byte `ch` of the pixel at column `col`, row `row` of an RGBA buffer that
/// is `width` pixels wide.
pub open spec fn channel_at(buf: Seq<u8>, width: int, col: int, row: int, ch: int) -> u8 {
    buf[(row * width + col) * 4 + ch]
}

/// Index in the frame's buffer of the first byte of row `r` of a region.
pub open spec fn row_start(frame_width: int, region: CropRegion, r: int) -> int {
    ((region.y + r) * frame_width + region.x) * 4
}

/// The first `n` rows of a region, cut out of a frame's buffer and laid end
/// to end.
pub open spec fn cropped_rows(pixels: Seq<u8>, frame_width: int, region: CropRegion, n: nat) -> Seq<
    u8,
>
    decreases n,
{
    if n == 0 {
        Seq::empty()
    } else {
        cropped_rows(pixels, frame_width, region, (n - 1) as nat) + pixels.subrange(
            row_start(frame_width, region, n - 1),
            row_start(frame_width, region, n - 1) + region.width * 4,
        )
    }
}

/// The pixels of a region, cut out of a frame's buffer.
pub open spec fn cropped(pixels: Seq<u8>, frame_width: int, region: CropRegion) -> Seq<u8> {
    cropped_rows(pixels, frame_width, region, region.height as nat)
}

/// Row `r` of a region that lies inside a frame lies inside the frame's
/// buffer.
pub proof fn lemma_row_in_frame(
    len: int,
    frame_width: int,
    frame_height: int,
    region: CropRegion,
    r: int,
)
    requires
        region.inside(frame_width, frame_height),
        len >= frame_width * frame_height * 4,
        0 <= r < region.height,
    ensures
        0 <= row_start(frame_width, region, r),
        row_start(frame_width, region, r) + region.width * 4 <= len,
        0 <= (region.y + r) * frame_width <= frame_width * frame_height,
{
    let row = region.y + r;
    assert(0 <= row * frame_width && row * frame_width + frame_width <= frame_width * frame_height)
        by (nonlinear_arith)
        requires
            0 <= row < frame_height,
            0 <= frame_width,
    ;
}

/// The rows cut so far hold four bytes for each of their pixels, and the
/// pixel at column `c` of row `r` is the frame's pixel at column
/// `region.x + c` of row `region.y + r`.
pub proof fn lemma_cropped_rows(
    pixels: Seq<u8>,
    frame_width: int,
    frame_height: int,
    region: CropRegion,
    n: nat,
)
    requires
        region.inside(frame_width, frame_height),
        pixels.len() >= frame_width * frame_height * 4,
        n <= region.height,
    ensures
        cropped_rows(pixels, frame_width, region, n).len() == n * region.width * 4,
        forall|r: int, c: int, ch: int|
            0 <= r < n && 0 <= c < region.width && 0 <= ch < 4 ==> #[trigger] channel_at(
                cropped_rows(pixels, frame_width, region, n),
                region.width as int,
                c,
                r,
                ch,
            ) == channel_at(pixels, frame_width, region.x + c, region.y + r, ch),
    decreases n,
{
    if n > 0 {
        let m = (n - 1) as nat;
        let w = region.width as int;
        lemma_cropped_rows(pixels, frame_width, frame_height, region, m);
        lemma_row_in_frame(pixels.len() as int, frame_width, frame_height, region, m as int);
        let before = cropped_rows(pixels, frame_width, region, m);
        let start = row_start(frame_width, region, m as int);
        let row = pixels.subrange(start, start + w * 4);
        let now = cropped_rows(pixels, frame_width, region, n);
        assert(now == before + row);
        assert(m * w * 4 + w * 4 == n * w * 4) by (nonlinear_arith)
            requires
                n == m + 1,
        ;
        assert forall|r: int, c: int, ch: int| 0 <= r < n && 0 <= c < w && 0 <= ch < 4 implies
            #[trigger] channel_at(now, w, c, r, ch) == channel_at(
            pixels,
            frame_width,
            region.x + c,
            region.y + r,
            ch,
        ) by {
            let i = (r * w + c) * 4 + ch;
            if r < m {
                assert(0 <= i < m * w * 4) by (nonlinear_arith)
                    requires
                        i == (r * w + c) * 4 + ch,
                        0 <= r < m,
                        0 <= c < w,
                        0 <= ch < 4,
                ;
                assert(channel_at(before, w, c, r, ch) == channel_at(
                    pixels,
                    frame_width,
                    region.x + c,
                    region.y + r,
                    ch,
                ));
                assert(now[i] == before[i]);
            } else {
                assert(i == m * w * 4 + (c * 4 + ch)) by (nonlinear_arith)
                    requires
                        i == (r * w + c) * 4 + ch,
                        r == m,
                ;
                assert(now[i] == row[c * 4 + ch]);
                assert(start + c * 4 + ch == ((region.y + r) * frame_width + region.x + c) * 4
                    + ch) by (nonlinear_arith)
                    requires
                        start == ((region.y + m) * frame_width + region.x) * 4,
                        r == m,
                ;
            }
        }
    }
}

/// Cuts `region` out of a frame of `frame_width` by `frame_height` pixels.
pub fn crop_pixels(pixels: &[u8], frame_width: u32, frame_height: u32, region: CropRegion) -> (out:
    Vec<u8>)
    requires
        region.inside(frame_width as int, frame_height as int),
        pixels@.len() >= frame_width * frame_height * 4,
    ensures
        out@ == cropped(pixels@, frame_width as int, region),
        out@.len() == region.width * region.height * 4,
{
    let mut out: Vec<u8> = Vec::new();
    let total: usize = pixels.len();
    let mut r: u32 = 0;
    while r < region.height
        invariant
            r <= region.height,
            region.inside(frame_width as int, frame_height as int),
            pixels@.len() >= frame_width * frame_height * 4,
            total == pixels@.len(),
            out@ == cropped_rows(pixels@, frame_width as int, region, r as nat),
        decreases region.height - r,
    {
        proof {
            lemma_row_in_frame(
                pixels@.len() as int,
                frame_width as int,
                frame_height as int,
                region,
                r as int,
            );
            assert(frame_width * frame_height * 4 <= total);
            assert((region.y + r) * frame_width + region.x + region.width <= frame_width
                * frame_height) by (nonlinear_arith)
                requires
                    region.y + r < frame_height,
                    region.x + region.width <= frame_width,
            ;
        }
        let row_len: usize = region.width as usize * 4;
        let start: usize = ((region.y as usize + r as usize) * frame_width as usize
            + region.x as usize) * 4;
        let ghost before = out@;
        let mut j: usize = 0;
        while j < row_len
            invariant
                j <= row_len,
                total == pixels@.len(),
                start + row_len <= pixels@.len(),
                out@ == before + pixels@.subrange(start as int, start + j),
            decreases row_len - j,
        {
            out.push(pixels[start + j]);
            proof {
                assert(pixels@.subrange(start as int, start + j + 1) =~= pixels@.subrange(
                    start as int,
                    start + j,
                ).push(pixels@[start + j]));
                assert(out@ =~= before + pixels@.subrange(start as int, start + j + 1));
            }
            j += 1;
        }
        r += 1;
    }
    proof {
        lemma_cropped_rows(
            pixels@,
            frame_width as int,
            frame_height as int,
            region,
            region.height as nat,
        );
        assert(region.height * region.width * 4 == region.width * region.height * 4)
            by (nonlinear_arith);
    }
    out
}

} // verus!
