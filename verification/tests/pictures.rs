use std::io::Cursor;
use task_var::art;
use task_var::paint::WHITE;
use task_var::panel::Rect;
use task_var::picture::to_screen;
use task_var::raster::{blit_alpha, clear, premul_glyph, sub_rect, tint_glyph, Glyph};
use task_var::sprite;
use task_var::sprite::{Sprite, SpriteError, BODY};

fn png(w: u32, h: u32, px: &[u8]) -> Vec<u8> {
    let img = image::RgbaImage::from_raw(w, h, px.to_vec()).unwrap();
    let mut out = Cursor::new(Vec::new());
    img.write_to(&mut out, image::ImageFormat::Png).unwrap();
    out.into_inner()
}

/// An orange figure with a black outline on white, 514 by 318 pixels.
fn figure() -> Vec<u8> {
    let mut px = Vec::new();
    for y in 0..318i32 {
        for x in 0..514i32 {
            let d = (x - 257).abs() * 318 / 514 + (y - 159).abs();
            let c = if d < 110 {
                [217, 108, 80, 255]
            } else if d < 130 {
                [0, 0, 0, 255]
            } else {
                [255, 255, 255, 255]
            };
            px.extend_from_slice(&c);
        }
    }
    png(514, 318, &px)
}

#[test]
fn shrinking_keeps_the_silhouette() {
    let s = sprite::load(&figure()).ok().unwrap();
    assert!(s.class.contains(&BODY), "no body pixel was found");

    let (w, h) = (32u32, 20u32);
    let buf = s.render(w, h, [0, 0, 255]);
    assert_eq!(buf.len(), (w * h * 4) as usize);
    let opaque = buf.chunks_exact(4).filter(|p| p[3] > 0).count();
    assert!(opaque > (w * h / 8) as usize, "the figure is gone: {opaque}px");

    assert!(
        buf.chunks_exact(4).any(|p| p[3] > 200 && p[2] > 128 && p[0] < 64),
        "the body colour does not show"
    );
}

#[test]
fn a_picture_is_sorted_into_three_classes() {
    let px = [
        255, 255, 255, 255, // light
        200, 200, 200, 255, // just light
        60, 60, 60, 255, // just dark
        10, 200, 30, 255, // body
        10, 20, 30, 127, // clear
        199, 255, 255, 128, // body
    ];
    let s = sprite::load(&png(3, 2, &px)).ok().unwrap();
    assert_eq!((s.w, s.h), (3, 2));
    assert_eq!(s.class, [0, 0, 1, 2, 0, 2]);
    assert_eq!(s.body, [30, 200, 10]);
    let plain = sprite::load(&png(1, 1, &[255, 255, 255, 255])).ok().unwrap();
    assert_eq!(plain.body, [80, 108, 217]);
}

#[test]
fn bytes_that_are_no_picture_are_refused() {
    assert_eq!(sprite::load(b"no picture").err(), Some(SpriteError::Decode));
    assert_eq!(sprite::load(&[]).err(), Some(SpriteError::Decode));
}

#[test]
fn a_sprite_is_averaged_over_the_area() {
    let s = Sprite { w: 4, h: 2, class: vec![2, 1, 0, 0, 2, 2, 0, 0], body: [0, 0, 0] };
    assert_eq!(s.render(1, 1, [40, 80, 120]), [30, 60, 90, 127]);
    assert_eq!(s.render(2, 1, [40, 80, 120]), [30, 60, 90, 255, 0, 0, 0, 0]);
    assert_eq!(s.render(4, 2, [40, 80, 120])[0..8], [40, 80, 120, 255, 0, 0, 0, 255]);
    assert!(s.render(0, 5, [1, 2, 3]).is_empty());
    let big = s.render(8, 4, [40, 80, 120]);
    assert_eq!(big[0..4], [40, 80, 120, 255]);
    assert_eq!(big[28..32], [0, 0, 0, 0]);
}

#[test]
fn art_comes_as_a_square_in_screen_order() {
    let px: Vec<u8> = (0..16).map(|n| n * 10).collect();
    let file = png(2, 2, &px);
    let got = art::read(true, &file, 2).unwrap();
    assert_eq!(got, to_screen(&px));
    assert_eq!(got[0..4], [20, 10, 0, 0]);
    let big = art::read(true, &file, 5).unwrap();
    assert_eq!(big.len(), 100);
    assert!(big.chunks_exact(4).all(|p| p[3] == 0));
    assert!(art::read(false, &file, 2).is_none());
    assert!(art::read(true, &[], 2).is_none());
    assert!(art::read(true, b"<html>", 2).is_none());
    assert_eq!(art::read(true, &file, 0), Some(vec![]));
}

#[test]
fn a_plain_picture_stays_plain_when_scaled() {
    let px: Vec<u8> = [200, 100, 50, 255].repeat(64);
    let got = art::read(true, &png(8, 8, &px), 3).unwrap();
    for p in got.chunks_exact(4) {
        assert!(p[0].abs_diff(50) <= 1 && p[1].abs_diff(100) <= 1 && p[2].abs_diff(200) <= 1);
    }
}

/// Paint by floating point: coverage `a` of 255.
fn by_float(dst: u8, c: u8, a: u8) -> u8 {
    let cov = (a as f32 / 255.0).min(1.0);
    (dst as f32 * (1.0 - cov) + c as f32 * cov).round() as u8
}

#[test]
fn mixing_agrees_with_floating_point_everywhere() {
    let mut src = Vec::new();
    for a in 1..=255u8 {
        for c in 0..=255u8 {
            src.extend_from_slice(&[c, c, c, a]);
        }
    }
    let n = 255 * 256u32;
    let mut want = [[0u8; 256]; 3];
    for base in 0..86u32 {
        let dst = [base * 3, base * 3 + 1, base * 3 + 2].map(|v| v.min(255) as u8);
        let mut buf: Vec<u8> = [dst[0], dst[1], dst[2], 9].repeat(n as usize);
        blit_alpha(&mut buf, n, 1, 0, 0, n, 1, &src);
        for a in 1..=255u8 {
            for (k, row) in want.iter_mut().enumerate() {
                for (c, w) in row.iter_mut().enumerate() {
                    *w = by_float(dst[k], c as u8, a);
                }
            }
            for c in 0..256usize {
                let p = ((a as usize - 1) * 256 + c) * 4;
                let ok = buf[p] == want[0][c] && buf[p + 1] == want[1][c] && buf[p + 2] == want[2][c];
                assert!(ok && buf[p + 3] == 0);
            }
        }
    }
}

#[test]
fn a_picture_is_cut_off_at_the_edges() {
    let src = [9u8, 9, 9, 255].repeat(9);
    let mut buf = vec![1u8; 4 * 3 * 4];
    blit_alpha(&mut buf, 4, 3, 2, 1, 3, 3, &src);
    let lit: Vec<usize> = (0..12).filter(|p| buf[p * 4] == 9).collect();
    assert_eq!(lit, [6, 7, 10, 11]);
    assert_eq!((buf[6 * 4 + 3], buf[3]), (0, 1));
    let clear_src = [9u8, 9, 9, 0].repeat(9);
    let before = buf.clone();
    blit_alpha(&mut buf, 4, 3, 0, 0, 3, 3, &clear_src);
    assert_eq!(buf, before);
}

#[test]
fn a_glyph_is_tinted_or_laid() {
    let g = Glyph { px: 2, rgba: vec![0, 0, 0, 255, 10, 20, 30, 128, 0, 0, 0, 0, 5, 5, 5, 64] };
    let mut buf = [100u8, 100, 100, 7].repeat(6);
    tint_glyph(&mut buf, 3, 2, 1, 0, &g, WHITE);
    assert_eq!(buf[4..8], [255, 255, 255, 0]);
    assert_eq!(buf[8..12], [178, 178, 178, 0]);
    assert_eq!(buf[16..20], [100, 100, 100, 7], "a clear pixel");
    let mut buf = [100u8, 100, 100, 7].repeat(6);
    premul_glyph(&mut buf, 3, 1, 0, &g);
    assert_eq!(buf[4..8], [0, 0, 0, 7]);
    assert_eq!(buf[8..12], [30 + 49, 20 + 49, 10 + 49, 7]);
    assert_eq!(buf[16..20], [100, 100, 100, 7]);
    assert_eq!(buf[20..24], [5 + 74, 5 + 74, 5 + 74, 7]);
    assert_eq!(buf[0..4], [100, 100, 100, 7]);
}

#[test]
fn clearing_fills_whole_pixels() {
    let mut buf = vec![5u8; 9];
    clear(&mut buf, [1, 2, 3]);
    assert_eq!(buf, [1, 2, 3, 0, 1, 2, 3, 0, 5]);
}

#[test]
fn a_part_is_cut_out() {
    let buf: Vec<u8> = (0..4 * 3 * 4).collect();
    let got = sub_rect(&buf, 4, Rect { x: 1, y: 1, w: 2, h: 2 });
    assert_eq!(got, [20, 21, 22, 23, 24, 25, 26, 27, 36, 37, 38, 39, 40, 41, 42, 43]);
    assert!(sub_rect(&buf, 4, Rect { x: 0, y: 0, w: 0, h: 0 }).is_empty());
}

#[test]
fn the_last_of_the_largest_wins() {
    assert_eq!(art::best_bin(&[3, 7, 2, 7, 1]), 3);
    assert_eq!(art::best_bin(&[0, 0, 0]), 2);
    assert_eq!(art::best_bin(&[5]), 0);
    let weights = [0.0f32, 1.5, 0.25];
    let keys: Vec<u32> = weights.iter().map(|w| w.to_bits()).collect();
    assert_eq!(art::best_bin(&keys), 1);
}
