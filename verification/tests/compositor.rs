use screen_snip::blit::{blit, Placement};
use screen_snip::decode::{
    decode_capture, is_plain_bitmap, sniff_format, DeclaredFormat, DecodedImage, DisplayFailure,
    RawCapture,
};
use screen_snip::frame::{compose, compose_captures, decode_all, magnitude, ComposeError};
use screen_snip::geometry::{bounding_box, DisplayDescriptor};

fn display(x: i32, y: i32, width: u32, height: u32) -> DisplayDescriptor {
    DisplayDescriptor { x, y, width, height }
}

fn solid(width: u32, height: u32, rgba: [u8; 4]) -> Vec<u8> {
    let mut out = Vec::new();
    for _ in 0..(width as usize * height as usize) {
        out.extend_from_slice(&rgba);
    }
    out
}

fn numbered(width: u32, height: u32, seed: u8) -> Vec<u8> {
    let n = width as usize * height as usize * 4;
    (0..n).map(|i| (i as u8).wrapping_mul(7).wrapping_add(seed)).collect()
}

fn image_of(width: u32, height: u32, pixels: Vec<u8>) -> Result<DecodedImage, DisplayFailure> {
    Ok(DecodedImage { width, height, pixels })
}

fn png_of(width: u32, height: u32, pixels: &[u8]) -> Vec<u8> {
    let mut out = std::io::Cursor::new(Vec::new());
    image::write_buffer_with_format(
        &mut out,
        pixels,
        width,
        height,
        image::ColorType::Rgba8,
        image::ImageFormat::Png,
    )
    .unwrap();
    out.into_inner()
}

fn pixel(buf: &[u8], frame_width: u32, x: u32, y: u32) -> [u8; 4] {
    let i = (y as usize * frame_width as usize + x as usize) * 4;
    [buf[i], buf[i + 1], buf[i + 2], buf[i + 3]]
}

#[test]
fn bounding_box_spans_displays_with_negative_origins() {
    let ds = [display(-1920, -200, 1920, 1080), display(0, 0, 2560, 1440), display(2560, 100, 1280, 1024)];
    let b = bounding_box(&ds);
    assert_eq!(b.min_x, -1920);
    assert_eq!(b.min_y, -200);
    assert_eq!(b.max_x, 3840);
    assert_eq!(b.max_y, 1440);
    assert_eq!(b.min_height, 1024);
}

#[test]
fn bounding_box_of_nothing_keeps_the_fold_seeds() {
    let b = bounding_box(&[]);
    assert_eq!(b.min_x, i32::MAX);
    assert_eq!(b.min_y, i32::MAX);
    assert_eq!(b.max_x, i32::MIN as i64);
    assert_eq!(b.max_y, i32::MIN as i64);
    assert_eq!(b.min_height, u32::MAX);
}

#[test]
fn bounding_box_does_not_overflow_at_the_edge_of_the_coordinates() {
    let b = bounding_box(&[display(i32::MAX, i32::MAX, u32::MAX, u32::MAX)]);
    assert_eq!(b.max_x, i32::MAX as i64 + u32::MAX as i64);
    assert_eq!(b.max_y, i32::MAX as i64 + u32::MAX as i64);
}

#[test]
fn magnitude_is_the_absolute_value() {
    assert_eq!(magnitude(-1920), 1920);
    assert_eq!(magnitude(0), 0);
    assert_eq!(magnitude(17), 17);
    assert_eq!(magnitude(i32::MIN), 2147483648);
}

#[test]
fn frame_size_is_the_bounding_box_and_the_buffer_matches() {
    let ds = [display(-30, -10, 30, 20), display(0, 0, 40, 25)];
    let images = vec![
        image_of(30, 20, solid(30, 20, [1, 2, 3, 4])),
        image_of(40, 25, solid(40, 25, [5, 6, 7, 8])),
    ];
    let frame = compose(&ds, images).unwrap();
    assert_eq!(frame.width, 70);
    assert_eq!(frame.height, 35);
    assert_eq!(frame.pixels.len(), 70 * 35 * 4);
    assert_eq!(frame.origin_offset, (30, 10));
    assert_eq!(pixel(&frame.pixels, 70, 0, 0), [1, 2, 3, 4]);
    assert_eq!(pixel(&frame.pixels, 70, 29, 19), [1, 2, 3, 4]);
    assert_eq!(pixel(&frame.pixels, 70, 30, 10), [5, 6, 7, 8]);
    assert_eq!(pixel(&frame.pixels, 70, 69, 34), [5, 6, 7, 8]);
    assert_eq!(pixel(&frame.pixels, 70, 30, 9), [0, 0, 0, 0]);
    assert_eq!(pixel(&frame.pixels, 70, 29, 20), [0, 0, 0, 0]);
}

#[test]
fn window_is_placed_at_the_negated_offset() {
    let ds = [display(-30, -10, 30, 20), display(0, 0, 40, 25)];
    let frame = compose(&ds, vec![Err(DisplayFailure::CaptureFailure), Err(DisplayFailure::CaptureFailure)]).unwrap();
    let p = frame.window_placement();
    assert_eq!((p.x, p.y, p.width, p.height), (-30, -10, 70, 35));
}

#[test]
fn single_display_frame_is_the_decoded_capture() {
    let px = numbered(13, 7, 3);
    let ds = [display(0, 0, 13, 7)];
    let frame = compose(&ds, vec![image_of(13, 7, px.clone())]).unwrap();
    assert_eq!(frame.width, 13);
    assert_eq!(frame.height, 7);
    assert_eq!(frame.origin_offset, (0, 0));
    assert_eq!(frame.pixels, px);
}

#[test]
fn single_display_fast_path_equals_the_general_blit() {
    let px = numbered(13, 7, 9);
    let mut general = vec![0u8; 13 * 7 * 4];
    blit(&mut general, 13, &px, 13, 7, Placement { pos_x: 0, pos_y: 0, width: 13, height: 7 });
    let frame = compose(&[display(5, 5, 13, 7)], vec![image_of(13, 7, px)]).unwrap();
    assert_eq!(frame.pixels, general);
    assert_eq!(frame.origin_offset, (0, 0));
}

#[test]
fn single_display_that_failed_gives_a_blank_frame() {
    let frame = compose(&[display(0, 0, 4, 3)], vec![Err(DisplayFailure::DecodeFailure)]).unwrap();
    assert_eq!(frame.pixels, vec![0u8; 48]);
}

#[test]
fn no_display_is_an_enumeration_failure() {
    assert_eq!(compose(&[], vec![]).unwrap_err(), ComposeError::EnumerationFailure);
    assert_eq!(compose_captures(&[], &[]).unwrap_err(), ComposeError::EnumerationFailure);
}

#[test]
fn frame_wider_than_the_dimension_type_is_refused() {
    let ds = [display(i32::MIN, 0, 10, 10), display(i32::MAX, 0, u32::MAX, 10)];
    let r = compose(&ds, vec![]);
    assert_eq!(r.unwrap_err(), ComposeError::FrameTooLarge);
}

#[test]
fn blit_is_idempotent() {
    let src = numbered(5, 4, 1);
    let place = Placement { pos_x: 2, pos_y: 1, width: 5, height: 4 };
    let mut once = numbered(9, 6, 100);
    blit(&mut once, 9, &src, 5, 4, place);
    let mut twice = once.clone();
    blit(&mut twice, 9, &src, 5, 4, place);
    assert_eq!(once, twice);
}

#[test]
fn blit_writes_the_placed_rectangle_and_nothing_else() {
    let before = numbered(9, 6, 100);
    let src = numbered(5, 4, 1);
    let mut dst = before.clone();
    blit(&mut dst, 9, &src, 5, 4, Placement { pos_x: 2, pos_y: 1, width: 5, height: 4 });
    for y in 0..6u32 {
        for x in 0..9u32 {
            let inside = (2..7).contains(&x) && (1..5).contains(&y);
            let expected = if inside { pixel(&src, 5, x - 2, y - 1) } else { pixel(&before, 9, x, y) };
            assert_eq!(pixel(&dst, 9, x, y), expected);
        }
    }
}

#[test]
fn blit_skips_what_an_undersized_source_lacks() {
    let mut src = numbered(4, 4, 1);
    src.truncate(4 * 2 * 4 + 6);
    let mut dst = vec![0xAAu8; 4 * 4 * 4];
    blit(&mut dst, 4, &src, 4, 4, Placement { pos_x: 0, pos_y: 0, width: 4, height: 4 });
    assert_eq!(&dst[..36], &src[..36]);
    assert!(dst[36..].iter().all(|b| *b == 0xAA));
}

#[test]
fn blit_skips_what_falls_outside_the_frame() {
    let src = solid(4, 4, [9, 9, 9, 9]);
    let mut dst = vec![0u8; 3 * 3 * 4];
    blit(&mut dst, 3, &src, 4, 4, Placement { pos_x: 2, pos_y: 2, width: 4, height: 4 });
    for y in 0..3u32 {
        for x in 0..3u32 {
            let expected = if x == 2 && y == 2 { [9, 9, 9, 9] } else { [0, 0, 0, 0] };
            assert_eq!(pixel(&dst, 3, x, y), expected);
        }
    }
}

#[test]
fn blit_into_a_frame_without_width_does_nothing() {
    let mut dst = vec![1u8, 2, 3, 4];
    blit(&mut dst, 0, &[9, 9, 9, 9], 1, 1, Placement { pos_x: 0, pos_y: 0, width: 1, height: 1 });
    assert_eq!(dst, vec![1u8, 2, 3, 4]);
}

#[test]
fn blit_ignores_an_oversized_source_tail() {
    let mut src = solid(2, 2, [7, 7, 7, 7]);
    src.extend_from_slice(&[1, 1, 1, 1, 1, 1, 1, 1]);
    let mut dst = vec![0u8; 2 * 3 * 4];
    blit(&mut dst, 2, &src, 2, 2, Placement { pos_x: 0, pos_y: 0, width: 2, height: 2 });
    assert_eq!(&dst[..16], &[7u8; 16][..]);
    assert_eq!(&dst[16..], &[0u8; 8][..]);
}

#[test]
fn failed_display_stays_blank_and_the_others_are_drawn() {
    let ds = [display(0, 0, 6, 4), display(6, 0, 5, 4), display(11, 0, 3, 4)];
    let left = numbered(6, 4, 1);
    let right = numbered(3, 4, 2);
    let images = vec![
        image_of(6, 4, left.clone()),
        Err(DisplayFailure::DecodeFailure),
        image_of(3, 4, right.clone()),
    ];
    let frame = compose(&ds, images).unwrap();
    assert_eq!((frame.width, frame.height), (14, 4));
    for y in 0..4u32 {
        for x in 0..14u32 {
            let expected = if x < 6 {
                pixel(&left, 6, x, y)
            } else if x < 11 {
                [0, 0, 0, 0]
            } else {
                pixel(&right, 3, x - 11, y)
            };
            assert_eq!(pixel(&frame.pixels, 14, x, y), expected);
        }
    }
}

#[test]
fn display_without_an_entry_stays_blank() {
    let ds = [display(0, 0, 2, 2), display(2, 0, 2, 2)];
    let frame = compose(&ds, vec![image_of(2, 2, solid(2, 2, [4, 4, 4, 4]))]).unwrap();
    assert_eq!(pixel(&frame.pixels, 4, 1, 1), [4, 4, 4, 4]);
    assert_eq!(pixel(&frame.pixels, 4, 2, 0), [0, 0, 0, 0]);
    assert_eq!(pixel(&frame.pixels, 4, 3, 1), [0, 0, 0, 0]);
}

#[test]
fn later_display_shows_where_two_overlap() {
    let ds = [display(0, 0, 4, 2), display(2, 0, 4, 2)];
    let images = vec![
        image_of(4, 2, solid(4, 2, [1, 1, 1, 1])),
        image_of(4, 2, solid(4, 2, [2, 2, 2, 2])),
    ];
    let frame = compose(&ds, images).unwrap();
    assert_eq!(pixel(&frame.pixels, 6, 1, 0), [1, 1, 1, 1]);
    assert_eq!(pixel(&frame.pixels, 6, 2, 0), [2, 2, 2, 2]);
    assert_eq!(pixel(&frame.pixels, 6, 5, 1), [2, 2, 2, 2]);
}

#[test]
fn two_displays_side_by_side_end_to_end() {
    let a = display(0, 0, 800, 600);
    let b = display(800, 0, 1024, 768);
    let a_px = solid(800, 600, [10, 20, 30, 255]);
    let b_px = solid(1024, 768, [40, 50, 60, 255]);
    let captures = [
        Some(RawCapture::sniffed(a, png_of(800, 600, &a_px))),
        Some(RawCapture::sniffed(b, png_of(1024, 768, &b_px))),
    ];
    let frame = compose_captures(&[a, b], &captures).unwrap();
    assert_eq!(frame.width, 1824);
    assert_eq!(frame.height, 768);
    assert_eq!(frame.pixels.len(), 1824 * 768 * 4);
    assert_eq!(frame.origin_offset, (0, 0));
    assert_eq!(pixel(&frame.pixels, 1824, 0, 0), [10, 20, 30, 255]);
    assert_eq!(pixel(&frame.pixels, 1824, 799, 599), [10, 20, 30, 255]);
    assert_eq!(pixel(&frame.pixels, 1824, 800, 0), [40, 50, 60, 255]);
    assert_eq!(pixel(&frame.pixels, 1824, 1823, 767), [40, 50, 60, 255]);
    assert_eq!(pixel(&frame.pixels, 1824, 0, 600), [0, 0, 0, 0]);
    assert_eq!(pixel(&frame.pixels, 1824, 799, 767), [0, 0, 0, 0]);
    assert_eq!(pixel(&frame.pixels, 1824, 800, 767), [40, 50, 60, 255]);
}

#[test]
fn undecodable_capture_leaves_only_its_display_blank() {
    let a = display(0, 0, 3, 2);
    let b = display(3, 0, 3, 2);
    let a_px = numbered(3, 2, 5);
    let captures = [
        Some(RawCapture::sniffed(a, png_of(3, 2, &a_px))),
        Some(RawCapture::sniffed(b, vec![1, 2, 3, 4, 5, 6, 7, 8, 9])),
    ];
    let frame = compose_captures(&[a, b], &captures).unwrap();
    for y in 0..2u32 {
        for x in 0..6u32 {
            let expected = if x < 3 { pixel(&a_px, 3, x, y) } else { [0, 0, 0, 0] };
            assert_eq!(pixel(&frame.pixels, 6, x, y), expected);
        }
    }
}

#[test]
fn sniff_recognises_the_png_signature() {
    assert_eq!(sniff_format(&[0x89, 0x50, 0x4E, 0x47, 0x0D]), DeclaredFormat::PngLike);
    assert_eq!(sniff_format(&[0x89, 0x50, 0x4E, 0x47]), DeclaredFormat::PngLike);
    assert_eq!(sniff_format(&[0x89, 0x50, 0x4E]), DeclaredFormat::Unknown);
    assert_eq!(sniff_format(&[0x89, 0x50, 0x4E, 0x48]), DeclaredFormat::Unknown);
    assert_eq!(sniff_format(&[]), DeclaredFormat::Unknown);
    assert_eq!(sniff_format(b"BM123456"), DeclaredFormat::Unknown);
}

#[test]
fn sniffed_capture_declares_what_its_bytes_show() {
    let d = display(0, 0, 1, 1);
    let png = png_of(1, 1, &[1, 2, 3, 4]);
    let c = RawCapture::sniffed(d, png.clone());
    assert_eq!(c.declared_format, DeclaredFormat::PngLike);
    assert_eq!(c.bytes, png);
    assert_eq!(c.display, d);
    assert_eq!(RawCapture::sniffed(d, vec![0; 8]).declared_format, DeclaredFormat::Unknown);
}

#[test]
fn png_capture_decodes_to_its_pixels() {
    let px = numbered(5, 3, 11);
    let c = RawCapture::sniffed(display(0, 0, 5, 3), png_of(5, 3, &px));
    let img = decode_capture(&c).unwrap();
    assert_eq!((img.width, img.height), (5, 3));
    assert_eq!(img.pixels, px);
}

#[test]
fn png_signature_with_a_broken_body_is_a_decode_failure() {
    let mut bytes = png_of(5, 3, &numbered(5, 3, 11));
    bytes.truncate(20);
    let c = RawCapture::sniffed(display(0, 0, 5, 3), bytes);
    assert_eq!(c.declared_format, DeclaredFormat::PngLike);
    assert_eq!(decode_capture(&c).unwrap_err(), DisplayFailure::DecodeFailure);
}

#[test]
fn bytes_of_no_known_format_are_a_decode_failure() {
    let c = RawCapture::sniffed(display(0, 0, 5, 3), vec![7; 64]);
    assert_eq!(decode_capture(&c).unwrap_err(), DisplayFailure::DecodeFailure);
    let empty = RawCapture::sniffed(display(0, 0, 5, 3), vec![]);
    assert_eq!(decode_capture(&empty).unwrap_err(), DisplayFailure::DecodeFailure);
}

#[test]
fn raw_rgba_capture_is_taken_as_it_stands() {
    let px = numbered(4, 2, 8);
    let c = RawCapture { display: display(9, 9, 4, 2), bytes: px.clone(), declared_format: DeclaredFormat::RawRgba };
    let img = decode_capture(&c).unwrap();
    assert_eq!((img.width, img.height), (4, 2));
    assert_eq!(img.pixels, px);
}

#[test]
fn decode_all_records_each_failure_for_its_display() {
    let d = display(0, 0, 2, 2);
    let px = numbered(2, 2, 1);
    let captures = [
        None,
        Some(RawCapture::sniffed(d, vec![3; 10])),
        Some(RawCapture::sniffed(d, png_of(2, 2, &px))),
    ];
    let images = decode_all(&captures);
    assert_eq!(images.len(), 3);
    assert_eq!(*images[0].as_ref().unwrap_err(), DisplayFailure::CaptureFailure);
    assert_eq!(*images[1].as_ref().unwrap_err(), DisplayFailure::DecodeFailure);
    assert_eq!(images[2].as_ref().unwrap().pixels, px);
}

#[test]
fn capture_that_failed_leaves_its_display_blank() {
    let a = display(0, -2, 2, 2);
    let b = display(0, 0, 2, 2);
    let px = numbered(2, 2, 1);
    let captures = [None, Some(RawCapture { display: b, bytes: px.clone(), declared_format: DeclaredFormat::RawRgba })];
    let frame = compose_captures(&[a, b], &captures).unwrap();
    assert_eq!((frame.width, frame.height), (2, 4));
    assert_eq!(frame.origin_offset, (0, 2));
    assert_eq!(&frame.pixels[..16], &[0u8; 16][..]);
    assert_eq!(&frame.pixels[16..], &px[..]);
}

fn encoded(width: u32, height: u32, pixels: &[u8], color: image::ColorType, format: image::ImageFormat) -> Vec<u8> {
    let mut out = std::io::Cursor::new(Vec::new());
    image::write_buffer_with_format(&mut out, pixels, width, height, color, format).unwrap();
    out.into_inner()
}

fn rgb_of(rgba: &[u8]) -> Vec<u8> {
    rgba.chunks(4).flat_map(|p| [p[0], p[1], p[2]]).collect()
}

fn opaque(rgba: &[u8]) -> Vec<u8> {
    rgba.chunks(4).flat_map(|p| [p[0], p[1], p[2], 255]).collect()
}

fn bmp_of(width: u32, height: u32, pixels: &[u8]) -> Vec<u8> {
    encoded(width, height, &rgb_of(pixels), image::ColorType::Rgb8, image::ImageFormat::Bmp)
}

fn bmp_header(width: i32, height: i32, depth: u16) -> Vec<u8> {
    let mut b = Vec::new();
    b.extend_from_slice(b"BM");
    b.extend_from_slice(&0u32.to_le_bytes());
    b.extend_from_slice(&0u32.to_le_bytes());
    b.extend_from_slice(&54u32.to_le_bytes());
    b.extend_from_slice(&40u32.to_le_bytes());
    b.extend_from_slice(&width.to_le_bytes());
    b.extend_from_slice(&height.to_le_bytes());
    b.extend_from_slice(&1u16.to_le_bytes());
    b.extend_from_slice(&depth.to_le_bytes());
    b.extend_from_slice(&0u32.to_le_bytes());
    b.extend_from_slice(&[0u8; 20]);
    b
}

#[test]
fn capture_in_another_format_is_decoded_by_guessing() {
    let px = numbered(5, 3, 21);
    let bytes = bmp_of(5, 3, &px);
    assert_eq!(&bytes[..2], b"BM");
    assert!(is_plain_bitmap(&bytes));
    let c = RawCapture::sniffed(display(0, 0, 5, 3), bytes);
    assert_eq!(c.declared_format, DeclaredFormat::Unknown);
    let img = decode_capture(&c).unwrap();
    assert_eq!((img.width, img.height), (5, 3));
    assert_eq!(img.pixels, opaque(&px));
}

#[test]
fn top_down_bitmap_of_32_bits_is_decoded() {
    let mut bytes = bmp_header(2, -2, 32);
    bytes.extend_from_slice(&[3, 2, 1, 0, 6, 5, 4, 0, 9, 8, 7, 0, 12, 11, 10, 0]);
    assert!(is_plain_bitmap(&bytes));
    let img = decode_capture(&RawCapture::sniffed(display(0, 0, 2, 2), bytes)).unwrap();
    assert_eq!((img.width, img.height), (2, 2));
    assert_eq!(img.pixels, vec![1, 2, 3, 255, 4, 5, 6, 255, 7, 8, 9, 255, 10, 11, 12, 255]);
}

#[test]
fn bitmap_cut_short_is_a_decode_failure() {
    let mut bytes = bmp_of(5, 3, &numbered(5, 3, 21));
    bytes.truncate(60);
    assert!(is_plain_bitmap(&bytes));
    let c = RawCapture::sniffed(display(0, 0, 5, 3), bytes);
    assert_eq!(decode_capture(&c).unwrap_err(), DisplayFailure::DecodeFailure);
    let huge = bmp_header(0xFFFF, 0xFFFF, 24);
    assert!(is_plain_bitmap(&huge));
    let c = RawCapture::sniffed(display(0, 0, 5, 3), huge);
    assert_eq!(decode_capture(&c).unwrap_err(), DisplayFailure::DecodeFailure);
}

#[test]
fn plain_bitmap_is_told_by_its_headers() {
    assert!(is_plain_bitmap(&bmp_header(1, 1, 24)));
    assert!(is_plain_bitmap(&bmp_header(0xFFFF, 0xFFFF, 32)));
    assert!(is_plain_bitmap(&bmp_header(7, -0xFFFF, 24)));
    assert!(is_plain_bitmap(&bmp_header(7, -1, 24)));
    assert!(!is_plain_bitmap(&bmp_header(0, 1, 24)));
    assert!(!is_plain_bitmap(&bmp_header(-1, 1, 24)));
    assert!(!is_plain_bitmap(&bmp_header(0x10000, 1, 24)));
    assert!(!is_plain_bitmap(&bmp_header(1, 0, 24)));
    assert!(!is_plain_bitmap(&bmp_header(1, 0x10000, 24)));
    assert!(!is_plain_bitmap(&bmp_header(1, -0x10000, 24)));
    assert!(!is_plain_bitmap(&bmp_header(1, i32::MIN, 24)));
    assert!(!is_plain_bitmap(&bmp_header(1, 1, 8)));
    assert!(!is_plain_bitmap(&bmp_header(1, 1, 16)));
    assert!(!is_plain_bitmap(&bmp_header(1, 1, 0x0118)));
    assert!(!is_plain_bitmap(&bmp_header(1, 1, 24)[..53]));
    assert!(!is_plain_bitmap(&[]));
    let change = |at: usize, to: u8| {
        let mut b = bmp_header(1, 1, 24);
        b[at] = to;
        b
    };
    assert!(!is_plain_bitmap(&change(0, b'b')));
    assert!(!is_plain_bitmap(&change(1, b'A')));
    assert!(!is_plain_bitmap(&change(14, 12)));
    assert!(!is_plain_bitmap(&change(14, 108)));
    assert!(!is_plain_bitmap(&change(15, 1)));
    assert!(!is_plain_bitmap(&change(17, 1)));
    assert!(!is_plain_bitmap(&change(26, 2)));
    assert!(!is_plain_bitmap(&change(27, 1)));
    assert!(!is_plain_bitmap(&change(30, 1)));
    assert!(!is_plain_bitmap(&change(30, 3)));
    assert!(!is_plain_bitmap(&change(33, 1)));
    assert!(is_plain_bitmap(&change(2, 9)));
    assert!(is_plain_bitmap(&change(10, 0)));
    assert!(is_plain_bitmap(&change(46, 9)));
}

#[test]
fn containers_that_are_not_read_are_a_decode_failure() {
    let px = numbered(4, 3, 25);
    let d = display(0, 0, 4, 3);
    let with_alpha = encoded(4, 3, &px, image::ColorType::Rgba8, image::ImageFormat::Bmp);
    let gif = encoded(4, 3, &px, image::ColorType::Rgba8, image::ImageFormat::Gif);
    let tiff = encoded(4, 3, &px, image::ColorType::Rgba8, image::ImageFormat::Tiff);
    let jpeg = encoded(4, 3, &rgb_of(&px), image::ColorType::Rgb8, image::ImageFormat::Jpeg);
    let mut riff = b"RIFF\x1a\x00\x00\x00WEBPVP8X".to_vec();
    riff.extend_from_slice(&[0u8; 32]);
    for bytes in [with_alpha, gif, tiff, jpeg, riff, b"II*\x00\x08\x00\x00\x00".to_vec()] {
        assert!(!is_plain_bitmap(&bytes));
        let c = RawCapture::sniffed(d, bytes);
        assert_eq!(decode_capture(&c).unwrap_err(), DisplayFailure::DecodeFailure);
    }
}

#[test]
fn declared_format_other_than_raw_does_not_override_the_signature() {
    let px = numbered(4, 3, 22);
    let d = display(0, 0, 4, 3);
    let as_png = RawCapture { display: d, bytes: bmp_of(4, 3, &px), declared_format: DeclaredFormat::PngLike };
    assert_eq!(decode_capture(&as_png).unwrap().pixels, opaque(&px));
    let as_unknown = RawCapture { display: d, bytes: png_of(4, 3, &px), declared_format: DeclaredFormat::Unknown };
    assert_eq!(decode_capture(&as_unknown).unwrap().pixels, px);
}

#[test]
fn decoded_size_is_the_image_size_not_the_declared_one() {
    let px = numbered(4, 3, 23);
    let c = RawCapture::sniffed(display(0, 0, 10, 10), png_of(4, 3, &px));
    let img = decode_capture(&c).unwrap();
    assert_eq!((img.width, img.height), (4, 3));
    assert_eq!(img.pixels.len(), 48);
    let frame = compose_captures(&[display(0, 0, 10, 10)], &[Some(c)]).unwrap();
    assert_eq!((frame.width, frame.height), (4, 3));
    assert_eq!(frame.origin_offset, (0, 0));
    assert_eq!(frame.pixels, px);
}

#[test]
fn image_smaller_than_its_display_is_laid_row_by_row() {
    let ds = [display(0, 0, 2, 2), display(2, 0, 1, 2)];
    let small = vec![1u8, 1, 1, 1, 2, 2, 2, 2];
    let frame = compose(&ds, vec![image_of(1, 2, small), Err(DisplayFailure::DecodeFailure)]).unwrap();
    assert_eq!((frame.width, frame.height), (3, 2));
    assert_eq!(pixel(&frame.pixels, 3, 0, 0), [1, 1, 1, 1]);
    assert_eq!(pixel(&frame.pixels, 3, 0, 1), [2, 2, 2, 2]);
    assert_eq!(pixel(&frame.pixels, 3, 1, 0), [0, 0, 0, 0]);
    assert_eq!(pixel(&frame.pixels, 3, 1, 1), [0, 0, 0, 0]);
    assert_eq!(pixel(&frame.pixels, 3, 2, 0), [0, 0, 0, 0]);
    assert_eq!(pixel(&frame.pixels, 3, 2, 1), [0, 0, 0, 0]);
}

#[test]
fn undersized_capture_among_several_keeps_its_rows_and_the_frame_size() {
    let a = display(0, 0, 4, 3);
    let b = display(4, 0, 3, 3);
    let a_px = numbered(3, 2, 31);
    let b_px = numbered(3, 3, 32);
    let captures = [
        Some(RawCapture::sniffed(a, png_of(3, 2, &a_px))),
        Some(RawCapture::sniffed(b, png_of(3, 3, &b_px))),
    ];
    let frame = compose_captures(&[a, b], &captures).unwrap();
    assert_eq!((frame.width, frame.height), (7, 3));
    for y in 0..3u32 {
        for x in 0..7u32 {
            let expected = if x < 3 && y < 2 {
                pixel(&a_px, 3, x, y)
            } else if x >= 4 {
                pixel(&b_px, 3, x - 4, y)
            } else {
                [0, 0, 0, 0]
            };
            assert_eq!(pixel(&frame.pixels, 7, x, y), expected);
        }
    }
}

#[test]
fn image_larger_than_its_display_is_cut_to_the_display() {
    let ds = [display(0, 0, 2, 2), display(2, 0, 2, 2)];
    let big = numbered(3, 3, 33);
    let frame = compose(&ds, vec![image_of(3, 3, big.clone()), Err(DisplayFailure::CaptureFailure)]).unwrap();
    assert_eq!((frame.width, frame.height), (4, 2));
    for y in 0..2u32 {
        for x in 0..4u32 {
            let expected = if x < 2 { pixel(&big, 3, x, y) } else { [0, 0, 0, 0] };
            assert_eq!(pixel(&frame.pixels, 4, x, y), expected);
        }
    }
}

#[test]
fn lone_display_takes_the_size_of_its_image() {
    let px = numbered(4, 4, 34);
    let frame = compose(&[display(7, 7, 2, 2)], vec![image_of(4, 4, px.clone())]).unwrap();
    assert_eq!((frame.width, frame.height), (4, 4));
    assert_eq!(frame.origin_offset, (0, 0));
    assert_eq!(frame.pixels, px);
    let small = numbered(1, 2, 35);
    let frame = compose(&[display(0, 0, 2, 2)], vec![image_of(1, 2, small.clone())]).unwrap();
    assert_eq!((frame.width, frame.height), (1, 2));
    assert_eq!(frame.pixels, small);
}

#[test]
fn lone_display_with_a_broken_buffer_is_drawn_into_the_declared_size() {
    let mut px = numbered(2, 2, 36);
    px.truncate(10);
    let frame = compose(&[display(0, 0, 2, 2)], vec![image_of(2, 2, px.clone())]).unwrap();
    assert_eq!((frame.width, frame.height), (2, 2));
    assert_eq!(frame.pixels.len(), 16);
    assert_eq!(&frame.pixels[..8], &px[..8]);
    assert_eq!(&frame.pixels[8..], &[0u8; 8][..]);
}

#[test]
fn lone_display_reads_its_own_entry_only() {
    let px = numbered(2, 2, 37);
    let images = vec![image_of(2, 2, px.clone()), image_of(2, 2, numbered(2, 2, 38))];
    let frame = compose(&[display(0, 0, 2, 2)], images).unwrap();
    assert_eq!(frame.pixels, px);
}

#[test]
fn blit_reads_the_image_at_its_own_width() {
    let src = numbered(2, 3, 39);
    let mut dst = vec![0u8; 5 * 4 * 4];
    blit(&mut dst, 5, &src, 2, 3, Placement { pos_x: 1, pos_y: 1, width: 4, height: 2 });
    for y in 0..4u32 {
        for x in 0..5u32 {
            let inside = (1..3).contains(&x) && (1..3).contains(&y);
            let expected = if inside { pixel(&src, 2, x - 1, y - 1) } else { [0, 0, 0, 0] };
            assert_eq!(pixel(&dst, 5, x, y), expected);
        }
    }
}

#[test]
fn display_listed_twice_is_drawn_as_once() {
    let a = display(0, 0, 3, 2);
    let b = display(3, 0, 2, 2);
    let a_px = numbered(3, 2, 40);
    let b_px = numbered(2, 2, 41);
    let once = compose(&[a, b], vec![image_of(3, 2, a_px.clone()), image_of(2, 2, b_px.clone())]).unwrap();
    let twice = compose(
        &[a, b, b],
        vec![image_of(3, 2, a_px), image_of(2, 2, b_px.clone()), image_of(2, 2, b_px)],
    )
    .unwrap();
    assert_eq!((once.width, once.height), (twice.width, twice.height));
    assert_eq!(once.pixels, twice.pixels);
}
