use std::io::Cursor;

use livefetch::image::chroma::{apply, apply_frame, detect_background, ChromaKey};
use livefetch::image::loader::{
    clear_rect, composite, composite_frames, decode_gif, load, sniff, Dispose, Frame, GifFrame,
    ImageAsset, LoadError, SourceKind,
};

fn gframe(left: u16, top: u16, w: u16, h: u16, dispose: Dispose, buffer: Vec<u8>) -> GifFrame {
    GifFrame { left, top, width: w, height: h, delay: 0, dispose, buffer }
}

#[test]
fn sniff_by_signature_and_extension() {
    assert_eq!(sniff(b"GIF89a\x01\x00", None), SourceKind::Gif);
    assert_eq!(sniff(b"GIF87a", Some("png")), SourceKind::Gif);
    assert_eq!(sniff(b"RIFF\x00\x00\x00\x00WEBPVP8 ", None), SourceKind::Webp);
    assert_eq!(sniff(b"RIFF\x00\x00\x00\x00WEB", None), SourceKind::Static);
    assert_eq!(sniff(b"xyz", Some("GIF")), SourceKind::Gif);
    assert_eq!(sniff(b"xyz", Some("WebP")), SourceKind::Webp);
    assert_eq!(sniff(b"xyz", Some("png")), SourceKind::Static);
    assert_eq!(sniff(b"", None), SourceKind::Static);
}

#[test]
fn composite_draws_only_opaque_pixels() {
    let mut canvas = vec![9u8; 3 * 2 * 4];
    let f = gframe(1, 1, 2, 1, Dispose::Keep, vec![1, 2, 3, 255, 4, 5, 6, 0]);
    composite(&mut canvas, 3, 2, &f);
    let mut want = vec![9u8; 24];
    want[16..20].copy_from_slice(&[1, 2, 3, 255]);
    assert_eq!(canvas, want);
    clear_rect(&mut canvas, 3, 2, &f);
    let mut cleared = vec![9u8; 24];
    for b in &mut cleared[16..24] {
        *b = 0;
    }
    assert_eq!(canvas, cleared);
}

#[test]
fn disposal_methods_shape_later_frames() {
    let red = vec![255, 0, 0, 255];
    let blue = vec![0, 0, 255, 255];
    let frames = vec![
        GifFrame { left: 0, top: 0, width: 1, height: 1, delay: 1, dispose: Dispose::Previous, buffer: red.clone() },
        GifFrame { left: 1, top: 0, width: 1, height: 1, delay: 5, dispose: Dispose::Background, buffer: blue.clone() },
        GifFrame { left: 0, top: 0, width: 1, height: 1, delay: 0, dispose: Dispose::Keep, buffer: vec![0, 0, 0, 0] },
    ];
    let out = composite_frames(2, 1, &frames);
    assert_eq!(out.len(), 3);
    assert_eq!(out[0].rgba, vec![255, 0, 0, 255, 0, 0, 0, 0]);
    assert_eq!(out[1].rgba, vec![0, 0, 0, 0, 0, 0, 255, 255]);
    assert_eq!(out[2].rgba, vec![0, 0, 0, 0, 0, 0, 0, 0]);
    assert_eq!(out[0].delay_ms, 20);
    assert_eq!(out[1].delay_ms, 50);
    assert_eq!(out[2].delay_ms, 20);
    assert!(out.iter().all(|f| f.width == 2 && f.height == 1));
}

fn encode_gif(w: u16, h: u16, frames: &[(Vec<u8>, u16)]) -> Vec<u8> {
    let mut buf = Vec::new();
    {
        let mut enc = gif::Encoder::new(&mut buf, w, h, &[]).unwrap();
        for (px, delay) in frames {
            let mut px = px.clone();
            let mut f = gif::Frame::from_rgba(w, h, &mut px);
            f.delay = *delay;
            enc.write_frame(&f).unwrap();
        }
    }
    buf
}

#[test]
fn gif_files_decode_to_canvases() {
    let a = [255u8, 0, 0, 255].repeat(4);
    let b = [0u8, 255, 0, 255].repeat(4);
    let bytes = encode_gif(2, 2, &[(a.clone(), 7), (b.clone(), 1)]);
    let frames = decode_gif(&bytes).unwrap();
    assert_eq!(frames.len(), 2);
    assert_eq!((frames[0].width, frames[0].height), (2, 2));
    assert_eq!(frames[0].rgba, a);
    assert_eq!(frames[1].rgba, b);
    assert_eq!(frames[0].delay_ms, 70);
    assert_eq!(frames[1].delay_ms, 20);
    let asset = load(bytes.clone(), None).unwrap();
    assert_eq!(asset.kind, SourceKind::Gif);
    assert_eq!(asset.raw, bytes);
    assert_eq!(asset.frames.len(), 2);
}

#[test]
fn broken_files_are_errors() {
    assert!(matches!(decode_gif(b"GIF89a"), Err(LoadError::Gif)));
    assert!(matches!(load(b"GIF89a".to_vec(), None), Err(LoadError::Gif)));
    assert!(matches!(load(b"not an image".to_vec(), None), Err(LoadError::Still)));
    assert!(matches!(load(b"not a webp".to_vec(), Some("webp".to_string())), Err(LoadError::Webp)));
}

#[test]
fn png_files_load_as_one_frame() {
    let px: Vec<u8> = vec![1, 2, 3, 255, 4, 5, 6, 255, 7, 8, 9, 255, 10, 11, 12, 0];
    let img = image::RgbaImage::from_raw(2, 2, px.clone()).unwrap();
    let mut bytes = Vec::new();
    image::DynamicImage::ImageRgba8(img).write_to(&mut Cursor::new(&mut bytes), image::ImageFormat::Png).unwrap();
    let asset = load(bytes, Some("png".to_string())).unwrap();
    assert_eq!(asset.kind, SourceKind::Static);
    assert_eq!(asset.frames.len(), 1);
    assert_eq!((asset.frames[0].width, asset.frames[0].height), (2, 2));
    assert_eq!(asset.frames[0].rgba, px);
    assert_eq!(asset.frames[0].delay_ms, 100);
}

#[test]
fn webp_animations_load_frame_by_frame() {
    let mut enc = webp_animation::Encoder::new((2, 2)).unwrap();
    enc.add_frame(&[255u8, 0, 0, 255].repeat(4), 0).unwrap();
    enc.add_frame(&[0u8, 0, 255, 255].repeat(4), 300).unwrap();
    let data = enc.finalize(400).unwrap();
    let bytes = data.to_vec();
    let asset = load(bytes, None).unwrap();
    assert_eq!(asset.kind, SourceKind::Webp);
    assert_eq!(asset.frames.len(), 2);
    assert!(asset.frames.iter().all(|f| f.width == 2 && f.height == 2 && f.rgba.len() == 16));
    assert!(asset.frames.iter().all(|f| f.delay_ms >= 20));
}

fn white_square() -> Frame {
    Frame { width: 4, height: 4, rgba: [255u8, 255, 255, 255].repeat(16), delay_ms: 100 }
}

#[test]
fn background_of_uniform_frame() {
    assert_eq!(detect_background(&white_square()), Some((248, 248, 248)));
    let small = Frame { width: 2, height: 2, rgba: vec![255; 16], delay_ms: 0 };
    assert_eq!(detect_background(&small), None);
}

#[test]
fn background_counts_only_opaque_corners() {
    // Left half transparent, right half opaque black: every opaque corner
    // sample is black, though half the samples are transparent.
    let mut rgba = Vec::new();
    for _y in 0..4 {
        for x in 0..4 {
            if x < 2 {
                rgba.extend_from_slice(&[255, 255, 255, 0]);
            } else {
                rgba.extend_from_slice(&[0, 0, 0, 255]);
            }
        }
    }
    let f = Frame { width: 4, height: 4, rgba, delay_ms: 0 };
    assert_eq!(detect_background(&f), Some((0, 0, 0)));
    // Half black, half red, all opaque: no colour has more than 60%.
    let mut rgba = Vec::new();
    for _y in 0..4 {
        for x in 0..4 {
            if x < 2 {
                rgba.extend_from_slice(&[0, 0, 0, 255]);
            } else {
                rgba.extend_from_slice(&[200, 0, 0, 255]);
            }
        }
    }
    let f = Frame { width: 4, height: 4, rgba, delay_ms: 0 };
    assert_eq!(detect_background(&f), None);
}

#[test]
fn keying_clears_matching_alpha() {
    let mut f = Frame { width: 2, height: 1, rgba: vec![250, 250, 250, 255, 10, 20, 30, 255], delay_ms: 0 };
    assert!(apply_frame(&mut f, (255, 255, 255), 5));
    assert_eq!(f.rgba, vec![250, 250, 250, 0, 10, 20, 30, 255]);
    assert!(!apply_frame(&mut f, (0, 0, 0), 5));
}

#[test]
fn keying_twice_changes_nothing_more() {
    let mut asset = ImageAsset { kind: SourceKind::Static, frames: vec![white_square()], raw: vec![] };
    assert!(apply(&mut asset, ChromaKey::Auto, 24));
    let once = asset.frames[0].rgba.clone();
    assert!(once.chunks(4).all(|p| p[3] == 0));
    apply(&mut asset, ChromaKey::Auto, 24);
    assert_eq!(asset.frames[0].rgba, once);
    let mut off = ImageAsset { kind: SourceKind::Static, frames: vec![white_square()], raw: vec![] };
    assert!(!apply(&mut off, ChromaKey::Off, 24));
}

#[test]
fn transparent_frame_leaves_canvas() {
    let mut canvas: Vec<u8> = (0u8..16).collect();
    let f = gframe(0, 0, 2, 2, Dispose::Keep, vec![5, 5, 5, 0, 6, 6, 6, 0, 7, 7, 7, 0, 8, 8, 8, 0]);
    composite(&mut canvas, 2, 2, &f);
    assert_eq!(canvas, (0u8..16).collect::<Vec<u8>>());
}

#[test]
fn keying_a_colour_twice_reports_the_same() {
    let mut asset = ImageAsset { kind: SourceKind::Static, frames: vec![white_square()], raw: vec![] };
    let first = apply(&mut asset, ChromaKey::Color(255, 255, 255), 0);
    let once = asset.frames[0].rgba.clone();
    let second = apply(&mut asset, ChromaKey::Color(255, 255, 255), 0);
    assert!(first && second);
    assert_eq!(asset.frames[0].rgba, once);
    let mut other = ImageAsset { kind: SourceKind::Static, frames: vec![white_square()], raw: vec![] };
    assert!(!apply(&mut other, ChromaKey::Color(0, 0, 0), 0));
    assert!(!apply(&mut other, ChromaKey::Color(0, 0, 0), 0));
}
