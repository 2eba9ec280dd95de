use std::io::Cursor;

use tagsyd::preview::raster::{
    can_shrink, generate_image, may_render, orientation_to_apply, preview_of_rendering,
    preview_of_size, preview_of_thumbnail, ImageForm,
};
use tagsyd::preview::{
    generate, needs_of, read_leading, FileKind, Needs, MAX_IMAGE_EDGE, MAX_IMAGE_SOURCE_BYTES,
    MAX_TEXT_BYTES,
};
use tagsyd::state::Preview;

/// The preview of content in memory that has no rendering.
fn preview_of(bytes: &[u8], kind: FileKind) -> Option<Preview> {
    let content = bytes.to_vec();
    match needs_of(kind) {
        Needs::Bytes { limit }
        | Needs::BytesAndRendering { limit }
        | Needs::SourceRendering { limit } => {
            generate(kind, Some(&read_leading(&content, limit)), None)
        }
        Needs::Nothing => generate(kind, None, None),
    }
}

#[test]
fn text_kind_becomes_text_preview() {
    let preview = preview_of(b"hello world\nsecond line", FileKind::Text);
    match preview {
        Some(Preview::Text(text)) => {
            assert!(text.starts_with("hello world"));
            assert!(text.contains('\n'));
        }
        other => panic!("expected text, got {other:?}"),
    }
}

#[test]
fn markdown_kind_also_previews_as_text() {
    let preview = preview_of(b"# Title\n\nbody", FileKind::Markdown);
    match preview {
        Some(Preview::Text(text)) => assert!(text.starts_with("# Title")),
        other => panic!("expected text, got {other:?}"),
    }
}

#[test]
fn text_is_truncated_on_char_boundary() {
    let source = "é".repeat(1000);
    let preview = preview_of(source.as_bytes(), FileKind::Text);
    match preview {
        Some(Preview::Text(text)) => assert!(text.len() <= MAX_TEXT_BYTES),
        other => panic!("expected text, got {other:?}"),
    }
}

#[test]
fn text_kind_sanitizes_embedded_control_bytes() {
    let bytes = b"ok\x00text\x01here";
    match preview_of(bytes, FileKind::Text) {
        Some(Preview::Text(text)) => {
            assert!(!text.contains('\0'));
            assert!(text.contains("oktexthere"));
        }
        other => panic!("expected text, got {other:?}"),
    }
}

#[test]
fn other_kind_has_no_preview() {
    let bytes = [0u8, 1, 2, 3, 255, 254, 0, 42];
    assert_eq!(
        preview_of(&bytes, FileKind::Other),
        Some(Preview::Absent)
    );
}

#[test]
fn empty_text_input_is_empty_text() {
    assert_eq!(
        preview_of(b"", FileKind::Text),
        Some(Preview::Text(String::new()))
    );
}

#[test]
fn small_png_becomes_image_preview() {
    let mut source = Vec::new();
    let image = image::RgbImage::from_pixel(200, 120, image::Rgb([10, 20, 30]));
    image::DynamicImage::ImageRgb8(image)
        .write_to(&mut Cursor::new(&mut source), image::ImageFormat::Png)
        .unwrap();

    match preview_of(&source, FileKind::Image) {
        Some(Preview::Image {
            bytes,
            width,
            height,
        }) => {
            assert!(!bytes.is_empty());
            assert!(width <= MAX_IMAGE_EDGE && height <= MAX_IMAGE_EDGE);
            assert!(width >= height);
        }
        other => panic!("expected image, got {other:?}"),
    }
}

#[test]
fn jpeg_exif_orientation_is_applied() {
    let mut jpeg = Vec::new();
    image::DynamicImage::ImageRgb8(image::RgbImage::from_pixel(
        200,
        100,
        image::Rgb([200, 50, 50]),
    ))
    .write_to(&mut Cursor::new(&mut jpeg), image::ImageFormat::Jpeg)
    .unwrap();

    assert_eq!(&jpeg[..2], &[0xFF, 0xD8], "expected JPEG SOI marker");

    let exif_payload: [u8; 28] = [
        b'E', b'x', b'i', b'f', 0x00, 0x00,
        0x49, 0x49, 0x2A, 0x00,
        0x08, 0x00, 0x00, 0x00,
        0x01, 0x00,
        0x12, 0x01,
        0x03, 0x00,
        0x01, 0x00, 0x00, 0x00,
        0x06, 0x00,
        0x00,
        0x00, /* padding
               * next-IFD offset intentionally omitted; `image` accepts this. */
    ];
    let app1_len: u16 = 2 + exif_payload.len() as u16;
    let mut app1 = Vec::with_capacity(4 + exif_payload.len());
    app1.extend_from_slice(&[0xFF, 0xE1]);
    app1.extend_from_slice(&app1_len.to_be_bytes());
    app1.extend_from_slice(&exif_payload);

    let mut with_exif = Vec::with_capacity(jpeg.len() + app1.len());
    with_exif.extend_from_slice(&jpeg[..2]);
    with_exif.extend_from_slice(&app1);
    with_exif.extend_from_slice(&jpeg[2..]);

    match preview_of(&with_exif, FileKind::Image) {
        Some(Preview::Image { width, height, .. }) => {
            assert!(
                height > width,
                "orientation not applied: got {width}x{height}, expected portrait"
            );
            assert!(width <= MAX_IMAGE_EDGE && height <= MAX_IMAGE_EDGE);
        }
        other => panic!("expected image preview, got {other:?}"),
    }
}

#[test]
fn image_thumbnail_fits_the_box_exactly() {
    let mut source = Vec::new();
    image::DynamicImage::ImageRgb8(image::RgbImage::from_pixel(192, 96, image::Rgb([1, 2, 3])))
        .write_to(&mut Cursor::new(&mut source), image::ImageFormat::Png)
        .unwrap();
    match preview_of(&source, FileKind::Image) {
        Some(Preview::Image { bytes, width, height }) => {
            assert_eq!((width, height), (96, 48));
            let decoded = image::load_from_memory(&bytes).unwrap();
            assert_eq!((decoded.width(), decoded.height()), (96, 48));
        }
        other => panic!("expected image, got {other:?}"),
    }
}

#[test]
fn content_that_is_no_image_has_no_preview() {
    assert_eq!(preview_of(b"not an image", FileKind::Image), Some(Preview::Absent));
    assert_eq!(preview_of(b"<svg", FileKind::Svg), Some(Preview::Absent));
    assert_eq!(preview_of(b"%PDF", FileKind::Pdf), Some(Preview::Absent));
    assert_eq!(preview_of(b"video", FileKind::Video), Some(Preview::Absent));
}

#[test]
fn unreadable_content_is_no_finding() {
    for kind in [
        FileKind::Image,
        FileKind::Svg,
        FileKind::Pdf,
        FileKind::Text,
        FileKind::Markdown,
        FileKind::Video,
    ] {
        assert_eq!(generate(kind, None, None), None);
        assert_ne!(needs_of(kind), Needs::Nothing);
    }
    assert_eq!(generate(FileKind::Video, None, Some(Preview::Absent)), None);
    assert_eq!(generate(FileKind::Other, None, None), Some(Preview::Absent));
}

#[test]
fn rendering_is_taken_as_it_is() {
    let mut output = Vec::new();
    image::DynamicImage::ImageRgb8(image::RgbImage::from_pixel(5, 7, image::Rgb([1, 2, 3])))
        .write_to(&mut Cursor::new(&mut output), image::ImageFormat::Png)
        .unwrap();
    let preview = preview_of_rendering(true, output.clone());
    assert_eq!(
        preview,
        Some(Preview::Image { bytes: output.clone(), width: 5, height: 7 })
    );
    assert_eq!(preview_of_rendering(false, output.clone()), None);
    assert_eq!(preview_of_rendering(true, Vec::new()), None);
    assert_eq!(preview_of_rendering(true, b"junk".to_vec()), None);
    assert_eq!(
        generate(FileKind::Video, Some(&b"v".to_vec()), preview.clone()),
        preview.clone()
    );
    assert_eq!(generate(FileKind::Pdf, Some(&b"%PDF".to_vec()), preview.clone()), preview);
    assert_eq!(preview_of_thumbnail(None), None);
    assert_eq!(
        preview_of_size(vec![1], Some((2, 3))),
        Some(Preview::Image { bytes: vec![1], width: 2, height: 3 })
    );
    assert!(may_render(MAX_IMAGE_SOURCE_BYTES) && !may_render(MAX_IMAGE_SOURCE_BYTES + 1));
}

#[test]
fn text_stops_before_a_character_that_was_cut() {
    let mut source = "a".repeat(MAX_TEXT_BYTES - 1);
    source.push('\u{e9}');
    assert_eq!(
        preview_of(source.as_bytes(), FileKind::Text),
        Some(Preview::Text("a".repeat(MAX_TEXT_BYTES - 1)))
    );
    assert_eq!(
        preview_of(b"ok\xff rest", FileKind::Text),
        Some(Preview::Text("ok".to_owned()))
    );
}

fn encoded(image: image::DynamicImage, format: image::ImageFormat) -> Vec<u8> {
    let mut bytes = Vec::new();
    image.write_to(&mut Cursor::new(&mut bytes), format).unwrap();
    bytes
}

/// A photo, 200 by 100, red on the left and blue on the right, with an Exif orientation.
fn photo_with_orientation(number: u8) -> Vec<u8> {
    let photo = image::RgbImage::from_fn(200, 100, |x, _| {
        if x < 100 {
            image::Rgb([250, 0, 0])
        } else {
            image::Rgb([0, 0, 250])
        }
    });
    let jpeg = encoded(image::DynamicImage::ImageRgb8(photo), image::ImageFormat::Jpeg);
    let mut exif = b"Exif\0\0II\x2a\0\x08\0\0\0\x01\0\x12\x01\x03\0\x01\0\0\0".to_vec();
    exif.extend_from_slice(&[number, 0, 0, 0, 0, 0, 0, 0]);
    let mut bytes = vec![0xFF, 0xD8, 0xFF, 0xE1];
    bytes.extend_from_slice(&(exif.len() as u16 + 2).to_be_bytes());
    bytes.extend_from_slice(&exif);
    bytes.extend_from_slice(&jpeg[2..]);
    bytes
}

/// The size of the preview of a photo, and whether its first and its last pixel are red.
fn shown(source: &[u8]) -> ((u32, u32), bool, bool) {
    match preview_of(source, FileKind::Image) {
        Some(Preview::Image { bytes, width, height }) => {
            let shown = image::load_from_memory(&bytes).unwrap().to_rgb8();
            assert_eq!((shown.width(), shown.height()), (width, height));
            let is_red = |x, y| shown.get_pixel(x, y).0[0] > shown.get_pixel(x, y).0[2];
            ((width, height), is_red(0, 0), is_red(width - 1, height - 1))
        }
        other => panic!("expected image, got {other:?}"),
    }
}

#[test]
fn photo_is_shown_upright() {
    assert_eq!(shown(&photo_with_orientation(1)), ((96, 48), true, false));
    assert_eq!(shown(&photo_with_orientation(2)), ((96, 48), false, true));
    assert_eq!(shown(&photo_with_orientation(3)), ((96, 48), false, true));
    assert_eq!(shown(&photo_with_orientation(4)), ((96, 48), true, false));
    assert_eq!(shown(&photo_with_orientation(6)), ((48, 96), true, false));
    assert_eq!(shown(&photo_with_orientation(8)), ((48, 96), false, true));
}

#[test]
fn orientation_that_says_nothing_leaves_the_photo_as_it_is() {
    assert_eq!(shown(&photo_with_orientation(0)), ((96, 48), true, false));
    assert_eq!(shown(&photo_with_orientation(9)), ((96, 48), true, false));
    assert_eq!(orientation_to_apply(None), 1);
    assert_eq!(orientation_to_apply(Some(6)), 6);
}

#[test]
fn edges_are_scaled_to_the_nearest_pixel() {
    for (width, height, expected) in [
        (100, 33, (96, 32)),
        (33, 100, (32, 96)),
        (50, 50, (96, 96)),
        (1000, 1, (96, 1)),
        (96, 96, (96, 96)),
    ] {
        let image = image::RgbImage::from_pixel(width, height, image::Rgb([9, 9, 9]));
        let source = encoded(image::DynamicImage::ImageRgb8(image), image::ImageFormat::Png);
        match generate_image(&source) {
            Some(Preview::Image { width, height, .. }) => assert_eq!((width, height), expected),
            other => panic!("expected image, got {other:?}"),
        }
    }
}

#[test]
fn deep_samples_are_kept() {
    let image = image::ImageBuffer::from_pixel(200, 100, image::Luma([0x1234u16]));
    let source = encoded(image::DynamicImage::ImageLuma16(image), image::ImageFormat::Png);
    match generate_image(&source) {
        Some(Preview::Image { bytes, width, height }) => {
            assert_eq!((width, height), (96, 48));
            let decoded = image::load_from_memory(&bytes).unwrap();
            assert_eq!(decoded.color(), image::ColorType::L16);
            assert_eq!(decoded.to_luma16().get_pixel(0, 0).0, [0x1234]);
        }
        other => panic!("expected image, got {other:?}"),
    }
}

#[test]
fn image_whose_pixels_cannot_be_summed_has_no_preview() {
    let form = |width, height, channels: u8, sample: u8| ImageForm {
        width,
        height,
        pixel_bytes: channels * sample,
        channels,
    };
    assert!(!can_shrink(form(1, 7_000_000, 1, 2), MAX_IMAGE_EDGE));
    assert!(!can_shrink(form(64_000, 100, 3, 2), MAX_IMAGE_EDGE));
    assert!(can_shrink(form(64_000, 100, 3, 1), MAX_IMAGE_EDGE));
    assert!(can_shrink(form(12_000, 9_000, 4, 2), MAX_IMAGE_EDGE));
    assert!(can_shrink(form(0, 0, 4, 2), MAX_IMAGE_EDGE));

    let white = image::ImageBuffer::from_pixel(64_000, 100, image::Luma([u16::MAX]));
    let source = encoded(image::DynamicImage::ImageLuma16(white), image::ImageFormat::Png);
    assert_eq!(preview_of(&source, FileKind::Image), Some(Preview::Absent));
    let white = image::GrayImage::from_pixel(64_000, 100, image::Luma([u8::MAX]));
    let source = encoded(image::DynamicImage::ImageLuma8(white), image::ImageFormat::Png);
    assert!(matches!(
        preview_of(&source, FileKind::Image),
        Some(Preview::Image { width: 96, height: 1, .. })
    ));
}
