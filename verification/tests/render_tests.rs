use livefetch::image::loader::{Frame, ImageAsset, SourceKind};
use livefetch::terminal::renderers::ansi::{ansi_size, AnsiRenderer};
use livefetch::terminal::renderers::iterm2::{frames_have_alpha, gif_delays, Iterm2Renderer};
use livefetch::terminal::renderers::kitty::{
    alloc_id_range, area_px, id_base, kitty_size, transmit_data, KittyRenderer,
};
use livefetch::terminal::renderers::{build, scale_frame, AnyRenderer, Renderer};
use livefetch::terminal::Protocol;

fn frame(w: u32, h: u32, rgba: Vec<u8>, delay_ms: u64) -> Frame {
    Frame { width: w, height: h, rgba, delay_ms }
}

#[test]
fn ansi_half_blocks() {
    let f = frame(1, 2, vec![255, 0, 0, 255, 0, 0, 255, 255], 70);
    let mut r = AnsiRenderer::new(vec![f]);
    let (text, delay) = r.render_frame(0);
    assert_eq!(text, "\x1b8\x1b[0m\x1b[38;2;255;0;0m\x1b[48;2;0;0;255m▀\x1b[0m");
    assert_eq!(delay, 70);
    assert_eq!(r.frame_count(), 1);
    assert_eq!(r.finish(), "");
}

#[test]
fn ansi_transparent_cells() {
    let f = frame(2, 2, vec![0, 0, 0, 0, 9, 9, 9, 255, 1, 2, 3, 255, 0, 0, 0, 10], 5);
    let mut r = AnsiRenderer::new(vec![f]);
    let (text, _) = r.render_frame(0);
    assert_eq!(
        text,
        "\x1b8\x1b[0m\x1b[49m\x1b[38;2;1;2;3m▄\x1b[49m\x1b[38;2;9;9;9m▀\x1b[0m"
    );
}

#[test]
fn kitty_uploads_once_then_places() {
    let f1 = frame(1, 1, vec![1, 2, 3, 4], 40);
    let f2 = frame(1, 1, vec![5, 6, 7, 8], 50);
    let mut r = KittyRenderer::new(vec![f1, f2], 10, 7);
    let (first, d1) = r.render_frame(0);
    assert_eq!(
        first,
        "\x1b8\x1b_Ga=t,f=32,t=d,s=1,v=1,i=7,q=2,m=0;AQIDBA==\x1b\\\x1b_Ga=t,f=32,t=d,s=1,v=1,i=8,q=2,m=0;BQYHCA==\x1b\\\x1b_Ga=p,i=7,p=1,c=10,C=1,q=2;\x1b\\"
    );
    assert_eq!(d1, 40);
    let (second, d2) = r.render_frame(1);
    assert_eq!(
        second,
        "\x1b8\x1b_Ga=p,i=8,p=1,c=10,C=1,q=2;\x1b\\\x1b_Ga=d,d=i,i=7,q=2;\x1b\\"
    );
    assert_eq!(d2, 50);
    let (again, _) = r.render_frame(1);
    assert_eq!(again, "\x1b8\x1b_Ga=p,i=8,p=1,c=10,C=1,q=2;\x1b\\");
    assert_eq!(
        r.finish(),
        "\x1b_Ga=d,d=I,i=7,q=2;\x1b\\\x1b_Ga=d,d=I,i=8,q=2;\x1b\\"
    );
}

#[test]
fn kitty_chunks_long_payloads() {
    let f = frame(40, 40, vec![7u8; 6400], 10);
    let t = transmit_data(1, &f);
    assert!(t.starts_with("\x1b_Ga=t,f=32,t=d,s=40,v=40,i=1,q=2,m=1;"));
    assert_eq!(t.matches("\x1b_Gm=1,q=2;").count(), 1);
    assert_eq!(t.matches("\x1b_Gm=0,q=2;").count(), 1);
    assert_eq!(t.matches("\x1b\\").count(), 3);
    let payload_len = 6400 / 3 * 4 + 4;
    let framing = t.len() - payload_len;
    assert_eq!(framing, "\x1b_Ga=t,f=32,t=d,s=40,v=40,i=1,q=2,m=1;".len() + 2 * "\x1b_Gm=1,q=2;".len() + 3 * 2);
}

#[test]
fn kitty_ids_and_sizes() {
    assert_eq!(id_base(5, Some(0)), 1);
    assert_eq!(id_base(0, None), 0xC0FE_BEEFu32.wrapping_mul(2654435761) | 1);
    assert_eq!(id_base(10, Some(3)) % 2, 1);
    assert_eq!(id_base(1, Some(4050964655)), 0xFFFF_FFFF);
    assert_eq!(id_base(2, Some(4050964655)), 1);
    let base = alloc_id_range(1000) as u64;
    assert!(base + 999 <= u32::MAX as u64);
    assert_eq!(alloc_id_range(4) % 2, 1);
    assert_eq!(area_px(10, 5, None), (80, 80));
    assert_eq!(area_px(10, 5, Some((9, 18))), (90, 90));
    assert_eq!(kitty_size(100, 50, 40, 0), (100, 40));
    assert_eq!(kitty_size(100, 50, 80, 62), (62, 50));
    assert_eq!(kitty_size(0, 0, 0, 0), (1, 1));
}

#[test]
fn ansi_sizes() {
    assert_eq!(ansi_size(10, 5, 7, 3), (10, 8));
    assert_eq!(ansi_size(10, 5, 25, 4), (4, 10));
    assert_eq!(ansi_size(10, 5, 25, 40), (10, 10));
    assert_eq!(ansi_size(0, 0, 0, 0), (1, 2));
}

#[test]
fn iterm2_sends_opaque_gif_once() {
    let asset = ImageAsset {
        kind: SourceKind::Gif,
        frames: vec![frame(1, 1, vec![1, 1, 1, 255], 100)],
        raw: vec![1, 2, 3],
    };
    let mut r = Iterm2Renderer::new(asset, (10, 5));
    assert!(r.drawable());
    let (text, d) = r.render_frame(0);
    assert_eq!(text, "\x1b8\x1b]1337;File=inline=1;preserveAspectRatio=1;width=10;height=5:AQID\x07");
    assert_eq!(d, 500);
    let (again, d2) = r.render_frame(0);
    assert_eq!(again, "");
    assert_eq!(d2, 500);
    assert_eq!(r.frame_count(), 1);
}

#[test]
fn iterm2_still_image_becomes_png() {
    let px = vec![10, 20, 30, 128, 40, 50, 60, 255];
    let asset = ImageAsset {
        kind: SourceKind::Static,
        frames: vec![frame(2, 1, px.clone(), 100)],
        raw: vec![0, 1],
    };
    let r = Iterm2Renderer::new(asset, (4, 2));
    assert_eq!(&r.bytes[0..8], &[137, 80, 78, 71, 13, 10, 26, 10]);
    let back = image::load_from_memory(&r.bytes).unwrap().to_rgba8();
    assert_eq!(back.dimensions(), (2, 1));
    assert_eq!(back.into_raw(), px);
}

#[test]
fn iterm2_animation_is_reencoded_as_gif() {
    let a = frame(2, 2, vec![255, 0, 0, 255].repeat(4), 10);
    let b = frame(2, 2, vec![0, 0, 255, 0].repeat(4), 100);
    let asset = ImageAsset { kind: SourceKind::Webp, frames: vec![a, b], raw: vec![] };
    let r = Iterm2Renderer::new(asset, (4, 2));
    assert_eq!(&r.bytes[0..6], b"GIF89a");
}

#[test]
fn alpha_and_delays() {
    let opaque = frame(1, 1, vec![0, 0, 0, 255], 5);
    let soft = frame(1, 1, vec![0, 0, 0, 254], 100);
    assert!(!frames_have_alpha(&vec![frame(1, 1, vec![0, 0, 0, 255], 5)]));
    assert!(frames_have_alpha(&vec![opaque, soft]));
    let fs = vec![frame(1, 1, vec![0; 4], 5), frame(1, 1, vec![0; 4], 100)];
    assert_eq!(gif_delays(&fs), vec![20, 100]);
}

#[test]
fn frames_are_resampled() {
    let f = frame(2, 2, vec![255, 0, 0, 255].repeat(4), 33);
    let s = scale_frame(&f, 1, 1);
    assert_eq!((s.width, s.height, s.delay_ms), (1, 1, 33));
    assert_eq!(s.rgba, vec![255, 0, 0, 255]);
    let big = scale_frame(&f, 4, 3);
    assert_eq!(big.rgba.len(), 4 * 3 * 4);
}

#[test]
fn renderer_per_protocol() {
    let asset = || ImageAsset {
        kind: SourceKind::Static,
        frames: vec![frame(1, 2, vec![9; 8], 100)],
        raw: vec![],
    };
    let prepared = || vec![frame(1, 2, vec![9; 8], 100)];
    assert!(matches!(build(Protocol::Kitty, asset(), prepared(), (10, 5), 3), AnyRenderer::Kitty(_)));
    assert!(matches!(build(Protocol::Iterm2, asset(), prepared(), (10, 5), 3), AnyRenderer::Iterm2(_)));
    assert!(matches!(build(Protocol::Ansi, asset(), prepared(), (10, 5), 3), AnyRenderer::Ansi(_)));
    let mut off = build(Protocol::Off, asset(), prepared(), (10, 5), 3);
    assert!(matches!(off, AnyRenderer::Ansi(_)));
    assert_eq!(off.frame_count(), 1);
    let (_, d) = off.render_frame(0);
    assert_eq!(d, 100);
}
