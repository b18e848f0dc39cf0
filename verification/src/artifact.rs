//! The published artifact: the selection encoded as a PNG image, the name of
//! the file it is written to, and the earlier files that it replaces.

use vstd::prelude::*;
use crate::crop::{clamp_selection, clamped, crop_pixels, cropped, CropRegion};
use crate::geometry::SelectionRect;

verus! {

/// The crop or the encoding of a selection failed.
#[derive(Clone, Copy, Debug, PartialEq, Eq, Structural)]
pub struct EncodeFailure;

/// A selection ready to be written out.
#[derive(Debug)]
pub struct EncodedSelection {
    /// The part of the frame that the image shows.
    pub region: CropRegion,
    /// The image as the bytes of a PNG file.
    pub png: Vec<u8>,
}

/// What the image library's PNG encoder writes for an RGBA8 buffer of
/// `width` by `height` pixels, or `None` where it reports an error.
pub uninterp spec fn png_encoding(pixels: Seq<u8>, width: u32, height: u32) -> Option<Seq<u8>>;

/// Calls `image::write_buffer_with_format` with the RGBA8 colour type and the
/// PNG format, on a writer that collects the bytes in memory.
///
/// Trusted: the call succeeds exactly where `png_encoding` is `Some`, then
/// with those bytes. The encoder panics on a buffer that does not hold four
/// bytes for each pixel: such a buffer is not admitted.
#[verifier::external_body]
fn encode_png(pixels: &[u8], width: u32, height: u32) -> (r: Result<Vec<u8>, image::ImageError>)
    requires
        pixels@.len() == width * height * 4,
    ensures
        r is Ok <==> png_encoding(pixels@, width, height) is Some,
        r matches Ok(bytes) ==> png_encoding(pixels@, width, height) == Some(bytes@),
{
    let mut out = std::io::Cursor::new(Vec::new());
    image::write_buffer_with_format(
        &mut out,
        pixels,
        width,
        height,
        image::ColorType::Rgba8,
        image::ImageFormat::Png,
    )?;
    Ok(out.into_inner())
}

/// What a selection over a frame comes to, given what the encoder makes of
/// the cropped pixels: nothing where the clamped selection is empty, a
/// failure where the buffer is too short for the frame or the encoder
/// fails, else the clamped region with its image.
pub open spec fn prepared(
    pixels: Seq<u8>,
    frame_width: u32,
    frame_height: u32,
    rect: SelectionRect,
) -> Result<Option<(CropRegion, Seq<u8>)>, EncodeFailure> {
    match clamped(frame_width as int, frame_height as int, rect) {
        None => Ok(None),
        Some(region) => if pixels.len() < frame_width * frame_height * 4 {
            Err(EncodeFailure)
        } else {
            match png_encoding(
                cropped(pixels, frame_width as int, region),
                region.width,
                region.height,
            ) {
                Some(png) => Ok(Some((region, png))),
                None => Err(EncodeFailure),
            }
        },
    }
}

/// The region and image bytes of an encoded selection.
pub open spec fn selection_parts(s: Option<EncodedSelection>) -> Option<(CropRegion, Seq<u8>)> {
    match s {
        Some(e) => Some((e.region, e.png@)),
        None => None,
    }
}

/// Clamps `rect` to the frame, cuts the clamped region out of `pixels` and
/// encodes it as a PNG image. `Ok(None)` says that the selection is empty and
/// nothing is to be published.
pub fn prepare_selection(pixels: &[u8], frame_width: u32, frame_height: u32, rect: SelectionRect) -> (r:
    Result<Option<EncodedSelection>, EncodeFailure>)
    ensures
        r is Ok <==> prepared(pixels@, frame_width, frame_height, rect) is Ok,
        r matches Ok(s) ==> prepared(pixels@, frame_width, frame_height, rect) == Ok::<
            _,
            EncodeFailure,
        >(selection_parts(s)),
{
    let region = match clamp_selection(frame_width, frame_height, rect) {
        Some(region) => region,
        None => { return Ok(None); },
    };
    assert(frame_width as u128 * frame_height as u128 <= 0xffff_ffff * 0xffff_ffff)
        by (nonlinear_arith)
        requires
            frame_width <= 0xffff_ffff,
            frame_height <= 0xffff_ffff,
    ;
    let needed: u128 = frame_width as u128 * frame_height as u128 * 4;
    if (pixels.len() as u128) < needed {
        return Err(EncodeFailure);
    }
    let cut = crop_pixels(pixels, frame_width, frame_height, region);
    match encode_png(cut.as_slice(), region.width, region.height) {
        Ok(png) => Ok(Some(EncodedSelection { region, png })),
        Err(_) => Err(EncodeFailure),
    }
}

/// The bytes `screenshot_snip`, with which the name of every artifact begins.
pub open spec fn artifact_prefix() -> Seq<u8> {
    seq![115u8, 99u8, 114u8, 101u8, 101u8, 110u8, 115u8, 104u8, 111u8, 116u8, 95u8, 115u8, 110u8, 105u8, 112u8]
}

/// The bytes `.png`, with which the name of every artifact ends.
pub open spec fn artifact_suffix() -> Seq<u8> {
    seq![46u8, 112u8, 110u8, 103u8]
}

/// The file name of the artifact written at `timestamp`: the prefix, an
/// underscore, the timestamp and the suffix.
pub open spec fn artifact_name(timestamp: Seq<u8>) -> Seq<u8> {
    artifact_prefix() + seq![95u8] + timestamp + artifact_suffix()
}

/// Whether the file `name` is an artifact of an earlier run: it is named as
/// artifacts are, and it is not the file `current` that was just written.
pub open spec fn is_stale(name: Seq<u8>, current: Seq<u8>) -> bool {
    &&& name != current
    &&& artifact_prefix().is_prefix_of(name)
    &&& artifact_suffix().is_suffix_of(name)
}

/// Whether `a` and `b` hold the same bytes.
pub fn same_bytes(a: &[u8], b: &[u8]) -> (r: bool)
    ensures
        r == (a@ == b@),
{
    if a.len() != b.len() {
        return false;
    }
    let mut i: usize = 0;
    while i < a.len()
        invariant
            i <= a@.len(),
            a@.len() == b@.len(),
            a@.subrange(0, i as int) == b@.subrange(0, i as int),
        decreases a@.len() - i,
    {
        if a[i] != b[i] {
            return false;
        }
        proof {
            assert(a@.subrange(0, i + 1) =~= a@.subrange(0, i as int).push(a@[i as int]));
            assert(b@.subrange(0, i + 1) =~= b@.subrange(0, i as int).push(b@[i as int]));
        }
        i += 1;
    }
    proof {
        assert(a@ =~= a@.subrange(0, a@.len() as int));
        assert(b@ =~= b@.subrange(0, b@.len() as int));
    }
    true
}

/// Whether the bytes of `part` stand in `whole` from index `at` on.
fn holds_at(whole: &[u8], at: usize, part: &[u8]) -> (r: bool)
    ensures
        r == (at + part@.len() <= whole@.len() && part@ == whole@.subrange(
            at as int,
            at + part@.len(),
        )),
{
    let end: usize = whole.len();
    if at > end || part.len() > end - at {
        return false;
    }
    let mut i: usize = 0;
    while i < part.len()
        invariant
            i <= part@.len(),
            end == whole@.len(),
            at + part@.len() <= end,
            part@.subrange(0, i as int) == whole@.subrange(at as int, at + i),
        decreases part@.len() - i,
    {
        if part[i] != whole[at + i] {
            proof {
                assert(whole@.subrange(at as int, at + part@.len())[i as int] == whole@[at + i]);
            }
            return false;
        }
        proof {
            assert(part@.subrange(0, i + 1) =~= part@.subrange(0, i as int).push(part@[i as int]));
            assert(whole@.subrange(at as int, at + i + 1) =~= whole@.subrange(
                at as int,
                at + i,
            ).push(whole@[at + i]));
        }
        i += 1;
    }
    proof {
        assert(part@ =~= part@.subrange(0, part@.len() as int));
    }
    true
}

/// Whether `name` begins with `prefix`.
pub fn starts_with(name: &[u8], prefix: &[u8]) -> (r: bool)
    ensures
        r == prefix@.is_prefix_of(name@),
{
    holds_at(name, 0, prefix)
}

/// Whether `name` ends with `suffix`.
pub fn ends_with(name: &[u8], suffix: &[u8]) -> (r: bool)
    ensures
        r == suffix@.is_suffix_of(name@),
{
    suffix.len() <= name.len() && holds_at(name, name.len() - suffix.len(), suffix)
}

/// The name of the artifact written at `timestamp`.
pub fn artifact_file_name(timestamp: &[u8]) -> (name: Vec<u8>)
    ensures
        name@ == artifact_name(timestamp@),
{
    let mut name: Vec<u8> = vec![115u8, 99u8, 114u8, 101u8, 101u8, 110u8, 115u8, 104u8, 111u8, 116u8, 95u8, 115u8, 110u8, 105u8, 112u8, 95u8];
    let ghost head = name@;
    let mut i: usize = 0;
    while i < timestamp.len()
        invariant
            i <= timestamp@.len(),
            name@ == head + timestamp@.subrange(0, i as int),
        decreases timestamp@.len() - i,
    {
        name.push(timestamp[i]);
        proof {
            assert(timestamp@.subrange(0, i + 1) =~= timestamp@.subrange(0, i as int).push(
                timestamp@[i as int],
            ));
            assert(name@ =~= head + timestamp@.subrange(0, i + 1));
        }
        i += 1;
    }
    name.push(46u8);
    name.push(112u8);
    name.push(110u8);
    name.push(103u8);
    proof {
        assert(timestamp@.subrange(0, timestamp@.len() as int) =~= timestamp@);
        assert(name@ =~= artifact_name(timestamp@));
    }
    name
}

/// Whether the file `name` is an artifact of an earlier run, to be removed
/// now that `current` has been written.
pub fn is_stale_artifact(name: &[u8], current: &[u8]) -> (r: bool)
    ensures
        r == is_stale(name@, current@),
{
    let prefix: Vec<u8> = vec![115u8, 99u8, 114u8, 101u8, 101u8, 110u8, 115u8, 104u8, 111u8, 116u8, 95u8, 115u8, 110u8, 105u8, 112u8];
    let suffix: Vec<u8> = vec![46u8, 112u8, 110u8, 103u8];
    proof {
        assert(prefix@ =~= artifact_prefix());
        assert(suffix@ =~= artifact_suffix());
    }
    !same_bytes(name, current) && starts_with(name, prefix.as_slice()) && ends_with(
        name,
        suffix.as_slice(),
    )
}

/// Lists, in rising order, the indices of the files among `names` that are
/// to be removed once `current` has been written: the earlier artifacts, and
/// never `current` itself.
pub fn stale_artifacts(names: &[Vec<u8>], current: &[u8]) -> (stale: Vec<usize>)
    ensures
        forall|j: int|
            0 <= j < stale@.len() ==> (#[trigger] stale@[j]) < names@.len() && is_stale(
                names@[stale@[j] as int]@,
                current@,
            ),
        forall|i: int|
            0 <= i < names@.len() && is_stale((#[trigger] names@[i])@, current@)
                ==> stale@.contains(i as usize),
        forall|j: int, k: int| 0 <= j < k < stale@.len() ==> stale@[j] < stale@[k],
        forall|j: int|
            0 <= j < stale@.len() ==> names@[(#[trigger] stale@[j]) as int]@ != current@,
{
    let mut stale: Vec<usize> = Vec::new();
    let mut i: usize = 0;
    while i < names.len()
        invariant
            i <= names@.len(),
            forall|j: int|
                0 <= j < stale@.len() ==> (#[trigger] stale@[j]) < i && is_stale(
                    names@[stale@[j] as int]@,
                    current@,
                ),
            forall|m: int|
                0 <= m < i && is_stale((#[trigger] names@[m])@, current@) ==> stale@.contains(
                    m as usize,
                ),
            forall|j: int, k: int| 0 <= j < k < stale@.len() ==> stale@[j] < stale@[k],
        decreases names@.len() - i,
    {
        if is_stale_artifact(names[i].as_slice(), current) {
            let ghost before = stale@;
            stale.push(i);
            proof {
                assert(stale@[before.len() as int] == i);
                assert forall|m: int|
                    0 <= m < i + 1 && is_stale((#[trigger] names@[m])@, current@) implies stale@.contains(
                    m as usize,
                ) by {
                    if m < i {
                        let j = choose|j: int| 0 <= j < before.len() && before[j] == m as usize;
                        assert(stale@[j] == m as usize);
                    }
                }
            }
        }
        i += 1;
    }
    stale
}

/// An artifact written at one timestamp is stale once an artifact has been
/// written at another.
pub proof fn lemma_earlier_artifact_is_stale(earlier: Seq<u8>, current: Seq<u8>)
    requires
        earlier != current,
    ensures
        is_stale(artifact_name(earlier), artifact_name(current)),
{
    let a = artifact_name(earlier);
    let b = artifact_name(current);
    assert(a.subrange(0, 15) =~= artifact_prefix());
    assert(a.subrange(a.len() - 4, a.len() as int) =~= artifact_suffix());
    if a == b {
        assert(earlier.len() == current.len());
        assert(earlier =~= a.subrange(16, 16 + earlier.len() as int));
        assert(current =~= b.subrange(16, 16 + current.len() as int));
    }
}

} // verus!
