use portkiller::icon::{
    decode_png_to_rgba, frame_to_rgba, ColorKind, DecodedFrame, IconError,
};

fn frame(bytes: &[u8], width: u32, height: u32, color: ColorKind, line_size: usize) -> DecodedFrame {
    DecodedFrame { bytes: bytes.to_vec(), width, height, color, line_size }
}

fn encode(width: u32, height: u32, color: png::ColorType, data: &[u8]) -> Vec<u8> {
    let mut out = Vec::new();
    {
        let mut encoder = png::Encoder::new(&mut out, width, height);
        encoder.set_color(color);
        encoder.set_depth(png::BitDepth::Eight);
        let mut writer = encoder.write_header().unwrap();
        writer.write_image_data(data).unwrap();
    }
    out
}

#[test]
fn rgba_samples_are_kept() {
    let icon = frame_to_rgba(&frame(&[1, 2, 3, 4, 5, 6, 7, 8, 99], 2, 1, ColorKind::Rgba, 8)).unwrap();
    assert_eq!(icon.rgba, vec![1, 2, 3, 4, 5, 6, 7, 8]);
    assert_eq!((icon.width, icon.height), (2, 1));
}

#[test]
fn rgb_samples_become_opaque_pixels() {
    let icon = frame_to_rgba(&frame(&[1, 2, 3, 4, 5, 6], 2, 1, ColorKind::Rgb, 6)).unwrap();
    assert_eq!(icon.rgba, vec![1, 2, 3, 255, 4, 5, 6, 255]);
    let ragged = frame_to_rgba(&frame(&[1, 2, 3, 4], 2, 1, ColorKind::Rgb, 4)).unwrap();
    assert_eq!(ragged.rgba, vec![1, 2, 3, 255, 4, 255]);
    let empty = frame_to_rgba(&frame(&[], 0, 0, ColorKind::Rgb, 0)).unwrap();
    assert!(empty.rgba.is_empty());
}

#[test]
fn gray_samples_become_gray_pixels() {
    let icon = frame_to_rgba(&frame(&[0, 128], 1, 2, ColorKind::Grayscale, 1)).unwrap();
    assert_eq!(icon.rgba, vec![0, 0, 0, 255, 128, 128, 128, 255]);
    let icon = frame_to_rgba(&frame(&[10, 20, 30, 40], 2, 1, ColorKind::GrayscaleAlpha, 4)).unwrap();
    assert_eq!(icon.rgba, vec![10, 10, 10, 20, 30, 30, 30, 40]);
}

#[test]
fn frames_that_cannot_be_converted() {
    assert!(matches!(
        frame_to_rgba(&frame(&[1, 2], 2, 1, ColorKind::Indexed, 2)),
        Err(IconError::Indexed)
    ));
    assert!(matches!(
        frame_to_rgba(&frame(&[1, 2, 3], 1, 1, ColorKind::GrayscaleAlpha, 3)),
        Err(IconError::Incomplete)
    ));
    assert!(matches!(
        frame_to_rgba(&frame(&[1, 2, 3], 2, 2, ColorKind::Rgba, 8)),
        Err(IconError::Incomplete)
    ));
    assert!(matches!(
        frame_to_rgba(&frame(&[1, 2, 3], 2, u32::MAX, ColorKind::Rgba, usize::MAX)),
        Err(IconError::Incomplete)
    ));
    assert_eq!(IconError::Indexed.message(), "indexed PNG not supported for menu bar icon");
    assert_eq!(IconError::Header("x".to_string()).message(), "failed to read PNG header: x");
    assert_eq!(IconError::Decode("y".to_string()).message(), "failed to decode PNG: y");
}

#[test]
fn png_files_decode_to_four_bytes_per_pixel() {
    let rgb = encode(2, 2, png::ColorType::Rgb, &[255, 0, 0, 0, 255, 0, 0, 0, 255, 9, 8, 7]);
    let icon = decode_png_to_rgba(&rgb).unwrap();
    assert_eq!((icon.width, icon.height), (2, 2));
    assert_eq!(icon.rgba, vec![255, 0, 0, 255, 0, 255, 0, 255, 0, 0, 255, 255, 9, 8, 7, 255]);
    let rgba = encode(1, 2, png::ColorType::Rgba, &[1, 2, 3, 4, 5, 6, 7, 8]);
    assert_eq!(decode_png_to_rgba(&rgba).unwrap().rgba, vec![1, 2, 3, 4, 5, 6, 7, 8]);
    let gray = encode(3, 1, png::ColorType::Grayscale, &[0, 100, 200]);
    assert_eq!(
        decode_png_to_rgba(&gray).unwrap().rgba,
        vec![0, 0, 0, 255, 100, 100, 100, 255, 200, 200, 200, 255]
    );
    let gray_alpha = encode(1, 1, png::ColorType::GrayscaleAlpha, &[7, 9]);
    assert_eq!(decode_png_to_rgba(&gray_alpha).unwrap().rgba, vec![7, 7, 7, 9]);
}

#[test]
fn bytes_that_are_no_png_are_refused() {
    assert!(matches!(decode_png_to_rgba(b"not a png at all"), Err(IconError::Header(_))));
    assert!(matches!(decode_png_to_rgba(&[]), Err(IconError::Header(_))));
    let mut cut = encode(4, 4, png::ColorType::Rgba, &[7; 64]);
    cut.truncate(cut.len() - 20);
    assert!(matches!(decode_png_to_rgba(&cut), Err(IconError::Decode(_))));
}
