//! Turning the raw bytes of one display's capture into RGBA8 pixels.

use vstd::prelude::*;
use vstd::slice::slice_to_vec;
use crate::geometry::DisplayDescriptor;

verus! {

/// What a capture's bytes are said to hold.
#[derive(Clone, Copy, Debug, PartialEq, Eq, Structural)]
pub enum DeclaredFormat {
    /// Nothing is known of the bytes.
    Unknown,
    /// An encoded image that opens with the PNG signature.
    PngLike,
    /// RGBA8 pixels, row by row, of the display's declared size.
    RawRgba,
}

/// The bytes captured from one display.
#[derive(Debug)]
pub struct RawCapture {
    pub display: DisplayDescriptor,
    pub bytes: Vec<u8>,
    pub declared_format: DeclaredFormat,
}

/// An image as RGBA8 pixels, row by row.
#[derive(Debug)]
pub struct DecodedImage {
    pub width: u32,
    pub height: u32,
    pub pixels: Vec<u8>,
}

impl DecodedImage {
    /// The buffer holds four bytes for each pixel of the image.
    pub open spec fn well_formed(self) -> bool {
        self.pixels@.len() == self.width * self.height * 4
    }
}

/// Why a display contributes no pixels to the frame.
#[derive(Clone, Copy, Debug, PartialEq, Eq, Structural)]
pub enum DisplayFailure {
    /// The display could not be captured.
    CaptureFailure,
    /// The captured bytes could not be turned into pixels.
    DecodeFailure,
}

/// Whether `bytes` opens with the four bytes `89 50 4E 47`.
pub open spec fn has_png_signature(bytes: Seq<u8>) -> bool {
    &&& bytes.len() >= 4
    &&& bytes[0] == 0x89
    &&& bytes[1] == 0x50
    &&& bytes[2] == 0x4E
    &&& bytes[3] == 0x47
}

/// The format that the first bytes of a capture point to.
pub open spec fn sniffed_format(bytes: Seq<u8>) -> DeclaredFormat {
    if has_png_signature(bytes) {
        DeclaredFormat::PngLike
    } else {
        DeclaredFormat::Unknown
    }
}

/// Looks at the first four bytes for the PNG signature.
pub fn sniff_format(bytes: &[u8]) -> (format: DeclaredFormat)
    ensures
        format == sniffed_format(bytes@),
{
    if bytes.len() >= 4 && bytes[0] == 0x89 && bytes[1] == 0x50 && bytes[2] == 0x4E && bytes[3]
        == 0x47 {
        DeclaredFormat::PngLike
    } else {
        DeclaredFormat::Unknown
    }
}

impl RawCapture {
    /// A capture of `display` whose format is read off its first bytes.
    pub fn sniffed(display: DisplayDescriptor, bytes: Vec<u8>) -> (capture: RawCapture)
        ensures
            capture.display == display,
            capture.bytes == bytes,
            capture.declared_format == sniffed_format(bytes@),
    {
        let declared_format = sniff_format(bytes.as_slice());
        RawCapture { display, bytes, declared_format }
    }
}

/// The image library's error type, `image::ImageError`. Nothing is read from
/// a value of it: every decoding error becomes a `DecodeFailure`.
#[verifier::external_type_specification]
#[verifier::external_body]
pub struct ExImageError(image::ImageError);

/// What the image library's PNG decoder makes of `bytes`, converted to RGBA8:
/// width, height and pixel bytes, or `None` where it reports an error.
pub uninterp spec fn png_decoding(bytes: Seq<u8>) -> Option<(u32, u32, Seq<u8>)>;

/// The width, height and pixel bytes of an image.
pub open spec fn image_parts(img: DecodedImage) -> (u32, u32, Seq<u8>) {
    (img.width, img.height, img.pixels@)
}

/// Calls `image::load_from_memory_with_format` with the PNG format and
/// converts the image with `DynamicImage::to_rgba8`.
///
/// Trusted, for bytes that open with the PNG signature: the call succeeds
/// exactly where `png_decoding` is `Some`, then with those parts, and the
/// pixel buffer holds four bytes for each pixel.
#[verifier::external_body]
fn decode_png(bytes: &[u8]) -> (r: Result<DecodedImage, image::ImageError>)
    requires
        has_png_signature(bytes@),
    ensures
        r is Ok <==> png_decoding(bytes@) is Some,
        r matches Ok(img) ==> png_decoding(bytes@) == Some(image_parts(img)) && img.well_formed(),
{
    let rgba = image::load_from_memory_with_format(bytes, image::ImageFormat::Png)?.to_rgba8();
    Ok(DecodedImage { width: rgba.width(), height: rgba.height(), pixels: rgba.into_raw() })
}

/// The 16-bit little-endian value at index `at`.
pub open spec fn le16(bytes: Seq<u8>, at: int) -> int {
    bytes[at] + 256 * bytes[at + 1]
}

/// The 32-bit little-endian value at index `at`.
pub open spec fn le32(bytes: Seq<u8>, at: int) -> int {
    bytes[at] + 256 * bytes[at + 1] + 65536 * bytes[at + 2] + 16777216 * bytes[at + 3]
}

/// Whether `bytes` opens as an uncompressed bitmap file of 24 or 32 bits per
/// pixel: the signature `BM`, an information header of 40 bytes, a width of
/// 1 to 65535, a height of 1 to 65535 rows counted from the bottom or, when
/// negative, from the top, one plane, and no compression.
pub open spec fn plain_bitmap(bytes: Seq<u8>) -> bool {
    &&& bytes.len() >= 54
    &&& bytes[0] == 0x42
    &&& bytes[1] == 0x4D
    &&& le32(bytes, 14) == 40
    &&& 1 <= le32(bytes, 18) <= 0xFFFF
    &&& (1 <= le32(bytes, 22) <= 0xFFFF || 0x1_0000_0000 - 0xFFFF <= le32(bytes, 22))
    &&& le16(bytes, 26) == 1
    &&& (le16(bytes, 28) == 24 || le16(bytes, 28) == 32)
    &&& le32(bytes, 30) == 0
}

fn read_le16(bytes: &[u8], at: usize) -> (v: u32)
    requires
        at + 2 <= bytes@.len(),
    ensures
        v == le16(bytes@, at as int),
{
    bytes[at] as u32 + 256 * (bytes[at + 1] as u32)
}

fn read_le32(bytes: &[u8], at: usize) -> (v: u32)
    requires
        at + 4 <= bytes@.len(),
    ensures
        v == le32(bytes@, at as int),
{
    bytes[at] as u32 + 256 * (bytes[at + 1] as u32) + 65536 * (bytes[at + 2] as u32) + 16777216
        * (bytes[at + 3] as u32)
}

/// Reads the first 54 bytes as the headers of a bitmap file and says whether
/// they describe an uncompressed bitmap of 24 or 32 bits per pixel.
pub fn is_plain_bitmap(bytes: &[u8]) -> (r: bool)
    ensures
        r == plain_bitmap(bytes@),
{
    if bytes.len() < 54 || bytes[0] != 0x42 || bytes[1] != 0x4D {
        return false;
    }
    let width = read_le32(bytes, 18);
    let height = read_le32(bytes, 22);
    let depth = read_le16(bytes, 28);
    read_le32(bytes, 14) == 40 && 1 <= width && width <= 0xFFFF && ((1 <= height && height
        <= 0xFFFF) || height >= 0xFFFF_0001) && read_le16(bytes, 26) == 1 && (depth == 24 || depth
        == 32) && read_le32(bytes, 30) == 0
}

/// Calls `image::load_from_memory`, which picks a decoder by the first
/// bytes, and converts the image with `DynamicImage::to_rgba8`.
///
/// Only the headers of an uncompressed bitmap are admitted: they lead to the
/// bitmap decoder's path for whole-byte pixels, which answers short or
/// oversized input with an error. Other containers reach decoders that
/// panic on some inputs and are left out.
///
/// Trusted: an image that comes back holds four bytes for each pixel.
/// Nothing is claimed of which admitted bytes decode, nor of the pixels.
#[verifier::external_body]
fn decode_guessed(bytes: &[u8]) -> (r: Result<DecodedImage, image::ImageError>)
    requires
        plain_bitmap(bytes@),
    ensures
        r matches Ok(img) ==> img.well_formed(),
{
    let rgba = image::load_from_memory(bytes)?.to_rgba8();
    Ok(DecodedImage { width: rgba.width(), height: rgba.height(), pixels: rgba.into_raw() })
}

impl RawCapture {
    /// Whether the bytes alone fix what the capture decodes to: they are
    /// declared raw RGBA, or they open with the PNG signature.
    pub open spec fn decided(self) -> bool {
        self.declared_format == DeclaredFormat::RawRgba || has_png_signature(self.bytes@)
    }

    /// What a decided capture decodes to: raw RGBA is taken as it stands, at
    /// the display's declared size; all else goes to the PNG decoder.
    pub open spec fn decoding(self) -> Option<(u32, u32, Seq<u8>)> {
        if self.declared_format == DeclaredFormat::RawRgba {
            Some((self.display.width, self.display.height, self.bytes@))
        } else {
            png_decoding(self.bytes@)
        }
    }

    /// Whether the capture is handed to the decoder that guesses: it is not
    /// decided, and it opens as an uncompressed bitmap.
    pub open spec fn guessed(self) -> bool {
        !self.decided() && plain_bitmap(self.bytes@)
    }

    /// Whether the capture is refused unread: it is neither raw RGBA, nor PNG,
    /// nor an uncompressed bitmap.
    pub open spec fn refused(self) -> bool {
        !self.decided() && !plain_bitmap(self.bytes@)
    }
}

/// Whether `r` is a possible outcome of decoding `capture`. A decided
/// capture has one outcome, and so has a refused one: a failure. An
/// uncompressed bitmap goes to the decoder that guesses: it may fail or
/// decode, and an image that comes back holds four bytes for each pixel.
/// Every failure is a `DecodeFailure`.
pub open spec fn decoded_as(capture: RawCapture, r: Result<DecodedImage, DisplayFailure>) -> bool {
    &&& capture.decided() ==> (r is Ok <==> capture.decoding() is Some)
    &&& capture.decided() ==> (r matches Ok(img) ==> capture.decoding() == Some(image_parts(img)))
    &&& capture.refused() ==> r is Err
    &&& r matches Ok(img) ==> capture.declared_format == DeclaredFormat::RawRgba
        || img.well_formed()
    &&& r matches Err(e) ==> e == DisplayFailure::DecodeFailure
}

/// Decodes one capture to RGBA8: raw RGBA as it stands, bytes that open with
/// the PNG signature as a PNG image, an uncompressed bitmap as the image
/// library reads it. Bytes of any other kind are a `DecodeFailure`.
pub fn decode_capture(capture: &RawCapture) -> (r: Result<DecodedImage, DisplayFailure>)
    ensures
        decoded_as(*capture, r),
{
    let bytes = capture.bytes.as_slice();
    let decoded = match capture.declared_format {
        DeclaredFormat::RawRgba => {
            return Ok(
                DecodedImage {
                    width: capture.display.width,
                    height: capture.display.height,
                    pixels: slice_to_vec(bytes),
                },
            );
        },
        _ => match sniff_format(bytes) {
            DeclaredFormat::PngLike => decode_png(bytes),
            _ => {
                if !is_plain_bitmap(bytes) {
                    return Err(DisplayFailure::DecodeFailure);
                }
                decode_guessed(bytes)
            },
        },
    };
    match decoded {
        Ok(img) => Ok(img),
        Err(_) => Err(DisplayFailure::DecodeFailure),
    }
}

} // verus!
