//! Copying one decoded image into a larger RGBA frame.

use vstd::prelude::*;
use vstd::arithmetic::div_mod::{lemma_fundamental_div_mod, lemma_fundamental_div_mod_converse};

verus! {

/// Where an image lands in a frame: the frame position of its top-left pixel
/// and the size of the rectangle that it may fill.
#[derive(Clone, Copy, Debug, PartialEq, Eq, Structural)]
pub struct Placement {
    pub pos_x: u32,
    pub pos_y: u32,
    pub width: u32,
    pub height: u32,
}

/// Column of the pixel that byte `i` of a frame belongs to.
pub open spec fn pixel_col(i: int, frame_width: int) -> int {
    (i / 4) % frame_width
}

/// Row of the pixel that byte `i` of a frame belongs to.
pub open spec fn pixel_row(i: int, frame_width: int) -> int {
    (i / 4) / frame_width
}

/// Index in the buffer of an image `src_width` pixels wide of the first byte
/// of the pixel that lands at frame position `(col, row)`.
pub open spec fn source_index(place: Placement, src_width: int, col: int, row: int) -> int {
    ((row - place.pos_y) * src_width + (col - place.pos_x)) * 4
}

/// Whether the frame position `(col, row)` lies in the placed rectangle and
/// in the image of `src_width` by `src_height` pixels that is laid into it.
pub open spec fn image_covers(
    place: Placement,
    src_width: int,
    src_height: int,
    col: int,
    row: int,
) -> bool {
    &&& place.pos_x <= col
    &&& col - place.pos_x < place.width
    &&& col - place.pos_x < src_width
    &&& place.pos_y <= row
    &&& row - place.pos_y < place.height
    &&& row - place.pos_y < src_height
}

/// Whether a blit overwrites byte `i` of the frame: its pixel lies in the
/// placed rectangle and in the image, all four bytes of that pixel exist in
/// the frame, and all four bytes of the matching image pixel exist in the
/// source.
pub open spec fn blit_writes(
    dst_len: int,
    frame_width: int,
    src_len: int,
    src_width: int,
    src_height: int,
    place: Placement,
    i: int,
) -> bool {
    let col = pixel_col(i, frame_width);
    let row = pixel_row(i, frame_width);
    &&& frame_width > 0
    &&& 0 <= i < dst_len
    &&& (i / 4) * 4 + 3 < dst_len
    &&& image_covers(place, src_width, src_height, col, row)
    &&& source_index(place, src_width, col, row) + 3 < src_len
}

/// The byte that a blit leaves at index `i` of the frame.
pub open spec fn blit_byte(
    dst: Seq<u8>,
    frame_width: int,
    src: Seq<u8>,
    src_width: int,
    src_height: int,
    place: Placement,
    i: int,
) -> u8 {
    if blit_writes(dst.len() as int, frame_width, src.len() as int, src_width, src_height, place, i) {
        src[source_index(
            place,
            src_width,
            pixel_col(i, frame_width),
            pixel_row(i, frame_width),
        ) + i % 4]
    } else {
        dst[i]
    }
}

/// The frame after the image `src` of `src_width` by `src_height` pixels has
/// been copied into it at `place`.
pub open spec fn blit_spec(
    dst: Seq<u8>,
    frame_width: int,
    src: Seq<u8>,
    src_width: int,
    src_height: int,
    place: Placement,
) -> Seq<u8> {
    Seq::new(
        dst.len(),
        |i: int| blit_byte(dst, frame_width, src, src_width, src_height, place, i),
    )
}

/// The frame after the first `rows` rows of the image, and the first `cols`
/// pixels of the row after them, have been copied.
pub open spec fn blit_partial(
    dst: Seq<u8>,
    frame_width: int,
    src: Seq<u8>,
    src_width: int,
    src_height: int,
    place: Placement,
    rows: int,
    cols: int,
) -> Seq<u8> {
    Seq::new(
        dst.len(),
        |i: int|
            {
                let dx = pixel_col(i, frame_width) - place.pos_x;
                let dy = pixel_row(i, frame_width) - place.pos_y;
                if dy < rows || (dy == rows && dx < cols) {
                    blit_byte(dst, frame_width, src, src_width, src_height, place, i)
                } else {
                    dst[i]
                }
            },
    )
}

/// The bytes of the pixel at column `col` and row `row` are the four that
/// start at `4 * (row * frame_width + col)`, and no others.
pub proof fn lemma_pixel_bytes(i: int, frame_width: int, col: int, row: int)
    requires
        frame_width > 0,
        0 <= col < frame_width,
        0 <= row,
        0 <= i,
    ensures
        (pixel_col(i, frame_width) == col && pixel_row(i, frame_width) == row) <==> (4 * (row
            * frame_width + col) <= i < 4 * (row * frame_width + col) + 4),
{
    let p = i / 4;
    lemma_fundamental_div_mod(p, frame_width);
    assert(p == frame_width * (p / frame_width) + p % frame_width);
    assert(frame_width * (p / frame_width) == (p / frame_width) * frame_width)
        by (nonlinear_arith);
    if p == row * frame_width + col {
        lemma_fundamental_div_mod_converse(p, frame_width, row, col);
    }
}

/// Blitting twice with the same inputs leaves what blitting once leaves.
pub proof fn lemma_blit_idempotent(
    dst: Seq<u8>,
    frame_width: int,
    src: Seq<u8>,
    src_width: int,
    src_height: int,
    place: Placement,
)
    ensures
        blit_spec(
            blit_spec(dst, frame_width, src, src_width, src_height, place),
            frame_width,
            src,
            src_width,
            src_height,
            place,
        ) == blit_spec(dst, frame_width, src, src_width, src_height, place),
{
    let once = blit_spec(dst, frame_width, src, src_width, src_height, place);
    assert(blit_spec(once, frame_width, src, src_width, src_height, place) =~= once);
}

/// Copies the image `src` of `src_width` by `src_height` RGBA pixels, row by
/// row, into the frame `dst` of `frame_width` pixels per row, top-left at
/// `(place.pos_x, place.pos_y)`. What of the image lies beyond the placed
/// rectangle is cut off; a pixel that the source does not hold, or that
/// falls outside the frame, is skipped; the rest of the frame stays as it
/// was.
pub fn blit(
    dst: &mut Vec<u8>,
    frame_width: u32,
    src: &[u8],
    src_width: u32,
    src_height: u32,
    place: Placement,
)
    ensures
        final(dst)@ == blit_spec(
            old(dst)@,
            frame_width as int,
            src@,
            src_width as int,
            src_height as int,
            place,
        ),
{
    let ghost before = dst@;
    let ghost fw = frame_width as int;
    let ghost sw = src_width as int;
    let ghost sh = src_height as int;
    let dst_len: u128 = dst.len() as u128;
    let src_len: u128 = src.len() as u128;
    let rows: u32 = if src_height < place.height { src_height } else { place.height };
    let cols: u32 = if src_width < place.width { src_width } else { place.width };
    let mut y: u32 = 0;
    while y < rows
        invariant
            y <= rows,
            rows <= place.height && rows <= src_height,
            cols <= place.width && cols <= src_width,
            rows == src_height || rows == place.height,
            cols == src_width || cols == place.width,
            dst_len == before.len(),
            src_len == src@.len(),
            fw == frame_width && sw == src_width && sh == src_height,
            dst@ == blit_partial(before, fw, src@, sw, sh, place, y as int, 0),
        decreases rows - y,
    {
        let mut x: u32 = 0;
        while x < cols
            invariant
                y < rows,
                x <= cols,
                rows <= place.height && rows <= src_height,
                cols <= place.width && cols <= src_width,
                cols == src_width || cols == place.width,
                dst_len == before.len(),
                src_len == src@.len(),
                fw == frame_width && sw == src_width && sh == src_height,
                dst@ == blit_partial(before, fw, src@, sw, sh, place, y as int, x as int),
            decreases cols - x,
        {
            let col: u128 = place.pos_x as u128 + x as u128;
            let row: u128 = place.pos_y as u128 + y as u128;
            let ghost prev = dst@;
            let ghost next = blit_partial(before, fw, src@, sw, sh, place, y as int, x + 1);
            proof {
                assert(row * (frame_width as u128) <= 0x2_0000_0000 * 0x1_0000_0000)
                    by (nonlinear_arith)
                    requires
                        0 <= row <= 0x2_0000_0000,
                        0 <= frame_width <= 0x1_0000_0000,
                ;
                assert(y as u128 * (src_width as u128) <= 0x1_0000_0000 * 0x1_0000_0000)
                    by (nonlinear_arith)
                    requires
                        0 <= y <= 0x1_0000_0000,
                        0 <= src_width <= 0x1_0000_0000,
                ;
            }
            let d: u128 = (row * (frame_width as u128) + col) * 4;
            let s: u128 = (y as u128 * (src_width as u128) + x as u128) * 4;
            proof {
                assert(s == source_index(place, sw, col as int, row as int)) by {
                    assert(row - place.pos_y == y);
                    assert(col - place.pos_x == x);
                }
            }
            if col < frame_width as u128 && s + 3 < src_len && d + 3 < dst_len {
                assert(dst@.len() == before.len());
                assert(d + 3 < dst.len() && s + 3 < src.len());
                let di: usize = d as usize;
                let si: usize = s as usize;
                dst.set(di, src[si]);
                dst.set(di + 1, src[si + 1]);
                dst.set(di + 2, src[si + 2]);
                dst.set(di + 3, src[si + 3]);
                proof {
                    assert(d == 4 * (row * fw + col));
                    assert forall|i: int| 0 <= i < before.len() implies dst@[i] == next[i] by {
                        lemma_pixel_bytes(i, fw, col as int, row as int);
                        if d <= i < d + 4 {
                            assert(image_covers(place, sw, sh, col as int, row as int));
                            assert(blit_writes(
                                before.len() as int,
                                fw,
                                src@.len() as int,
                                sw,
                                sh,
                                place,
                                i,
                            ));
                            assert(dst@[i] == src@[s + (i - d)]);
                        } else {
                            assert(dst@[i] == prev[i]);
                        }
                    }
                    assert(dst@ =~= next);
                }
            } else {
                proof {
                    assert forall|i: int| 0 <= i < before.len() implies prev[i] == next[i] by {
                        if col < fw {
                            lemma_pixel_bytes(i, fw, col as int, row as int);
                        }
                    }
                    assert(dst@ =~= next);
                }
            }
            x += 1;
        }
        proof {
            assert(blit_partial(before, fw, src@, sw, sh, place, y as int, cols as int)
                =~= blit_partial(before, fw, src@, sw, sh, place, y + 1, 0));
        }
        y += 1;
    }
    proof {
        assert(blit_partial(before, fw, src@, sw, sh, place, rows as int, 0) =~= blit_spec(
            before,
            fw,
            src@,
            sw,
            sh,
            place,
        ));
    }
}

} // verus!
