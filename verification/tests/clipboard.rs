use darkly::clipboard::{full_pixels, layer_pixels, trim_fits_check, trim_to_content, ClipboardRect, ImageClip, MaskClipboard};
use base64::{engine::general_purpose::STANDARD, Engine as _};

#[test]
fn trim_to_content_shrinks_to_opaque_pixels_and_shifts_the_origin() {
    let mut rgba = vec![0u8; 4 * 4 * 4];
    let i = (1 * 4 + 2) * 4;
    rgba[i..i + 4].copy_from_slice(&[10, 20, 30, 255]);

    let (out, w, h, x, y) = trim_to_content(&rgba, 4, 4, 100, 200).expect("has content");
    assert_eq!((w, h), (1, 1));
    assert_eq!((x, y), (102, 201));
    assert_eq!(out, vec![10, 20, 30, 255]);
}

#[test]
fn trim_to_content_keeps_a_full_bleed_clip_intact() {
    let rgba = vec![255u8; 3 * 2 * 4];
    let (out, w, h, x, y) = trim_to_content(&rgba, 3, 2, -5, 7).expect("has content");
    assert_eq!((w, h, x, y), (3, 2, -5, 7));
    assert_eq!(out.len(), rgba.len());
}

#[test]
fn trim_to_content_rejects_a_fully_transparent_clip() {
    assert!(trim_to_content(&vec![0u8; 2 * 2 * 4], 2, 2, 0, 0).is_none());
}

#[test]
fn trim_to_content_keeps_rows_of_the_box() {
    // 3x3 with opaque texels at (0, 1) and (2, 2): the box is 3 wide, 2 tall.
    let mut rgba = vec![0u8; 3 * 3 * 4];
    rgba[(1 * 3 + 0) * 4 + 3] = 1;
    rgba[(2 * 3 + 2) * 4 + 3] = 9;
    let (out, w, h, x, y) = trim_to_content(&rgba, 3, 3, 0, 0).unwrap();
    assert_eq!((w, h, x, y), (3, 2, 0, 1));
    assert_eq!(out, rgba[3 * 4..].to_vec());
}

#[test]
fn round_trip_rgba() {
    let w = 4u32;
    let h = 4u32;
    let mut rgba = vec![0u8; (w * h * 4) as usize];
    for i in 0..16 {
        rgba[i * 4] = 255;
        rgba[i * 4 + 3] = 255;
    }

    let clip = ImageClip::from_rgba(w, h, rgba.clone(), 10, 20);
    assert_eq!(clip.width, 4);
    assert_eq!(clip.height, 4);
    assert_eq!(clip.offset_x, 10);
    assert_eq!(clip.offset_y, 20);

    let (out, ow, oh, ox, oy) = clip.to_rgba();
    assert_eq!((ow, oh), (4, 4));
    assert_eq!((ox, oy), (10, 20));
    assert_eq!(out[0], 255);
    assert_eq!(out[1], 0);
    assert_eq!(out[2], 0);
    assert_eq!(out[3], 255);
}

#[test]
fn empty_clip() {
    let clip = ImageClip::from_rgba(0, 0, vec![], 0, 0);
    assert!(clip.is_empty());
}

#[test]
fn mask_metadata_is_plain_data() {
    let r = ClipboardRect { x: 12, y: -4, width: 8, height: 4 };
    let m = MaskClipboard { name: "Mask".into(), visible: true, bounds: r, pixels_b64: String::new() };
    assert_eq!(m.clone(), m);
    assert_eq!(m.bounds.width, 8);
}

#[test]
fn layer_pixels_decode_only_a_full_payload() {
    let bounds = ClipboardRect { x: 0, y: 0, width: 2, height: 1 };
    let full = STANDARD.encode([1u8, 2, 3, 4, 5, 6, 7, 8]);
    assert_eq!(layer_pixels(&full, bounds), Some(vec![1, 2, 3, 4, 5, 6, 7, 8]));
    let short = STANDARD.encode([1u8, 2, 3, 4]);
    assert_eq!(layer_pixels(&short, bounds), None);
    assert_eq!(layer_pixels("not base64!", bounds), None);
}

#[test]
fn trim_fits_check_spots_an_origin_that_would_overflow() {
    // Content at x = 1 of a 2-wide region.
    let rgba = vec![0, 0, 0, 0, 9, 9, 9, 9];
    assert!(trim_fits_check(&rgba, 2, 1, 0, 0));
    assert!(!trim_fits_check(&rgba, 2, 1, i32::MAX, 0));
    // Nothing opaque: nothing moves, so any origin fits.
    assert!(trim_fits_check(&[0u8; 8], 2, 1, i32::MAX, 0));
}

#[test]
fn full_pixels_keeps_only_a_complete_payload() {
    let bounds = ClipboardRect { x: 0, y: 0, width: 1, height: 2 };
    assert_eq!(full_pixels(Some(vec![1, 2, 3, 4, 5, 6, 7, 8]), bounds), Some(vec![1, 2, 3, 4, 5, 6, 7, 8]));
    assert_eq!(full_pixels(Some(vec![1, 2, 3, 4]), bounds), None);
    assert_eq!(full_pixels(None, bounds), None);
}
