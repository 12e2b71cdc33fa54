use task_var::fb::{
    check_depth, phys_pos, phys_rect, screen_rotate, FbError, Framebuffer,
};

fn reference(rotate: u8, lw: u32, lh: u32, x: u32, y: u32) -> (u32, u32) {
    match rotate {
        1 => (lh - 1 - y, x),
        2 => (lw - 1 - x, lh - 1 - y),
        3 => (y, lw - 1 - x),
        _ => (x, y),
    }
}

#[test]
fn phys_mapping_matches_reference() {
    let (lw, lh) = (6u32, 4u32);
    let (x, y, w, h) = (0u32, 2u32, 6u32, 2u32);
    for rotate in 1u8..=3 {
        let (px0, py0, pw, ph) = phys_rect(rotate, lw, lh, x, y, w, h);
        let (pw_max, ph_max) = if rotate % 2 == 1 { (lh, lw) } else { (lw, lh) };
        assert!(px0 + pw <= pw_max && py0 + ph <= ph_max, "rotate={rotate}: outside the device");
        for j in 0..h {
            for i in 0..w {
                let (dx, dy) = phys_pos(rotate, w as usize, h as usize, i as usize, j as usize);
                let got = (px0 + dx as u32, py0 + dy as u32);
                let want = reference(rotate, lw, lh, x + i, y + j);
                assert_eq!(got, want, "rotate={rotate}: pixel ({},{})", x + i, y + j);
            }
        }
    }
}

/// Writes rows to a device of `pw` by `ph` pixels whose rows are `stride` long.
fn device(fb: &Framebuffer, x: u32, y: u32, w: u32, h: u32, src: &[u8]) -> Vec<u8> {
    let ph = if fb.rotate % 2 == 1 { fb.width } else { fb.height };
    let mut dev = vec![0xEEu8; (fb.stride * ph * 4) as usize];
    for r in fb.blit(x, y, w, h, src) {
        let off = r.off as usize;
        dev[off..off + r.bytes.len()].copy_from_slice(&r.bytes);
    }
    dev
}

#[test]
fn every_pixel_lands_in_its_place() {
    for rotate in 0u8..4 {
        let (lw, lh) = (5u32, 4u32);
        let stride = 7;
        let fb = Framebuffer { width: lw, height: lh, rotate, stride };
        let (x, y, w, h) = (1u32, 1u32, 3u32, 2u32);
        let src: Vec<u8> = (0..w * h * 4).map(|n| n as u8).collect();
        let dev = device(&fb, x, y, w, h, &src);
        let mut touched = 0;
        for j in 0..h {
            for i in 0..w {
                let (px, py) = reference(rotate, lw, lh, x + i, y + j);
                let off = ((py * stride + px) * 4) as usize;
                let s = ((j * w + i) * 4) as usize;
                assert_eq!(dev[off..off + 4], src[s..s + 4], "rotate={rotate} ({i},{j})");
                touched += 4;
            }
        }
        assert_eq!(dev.iter().filter(|&&b| b != 0xEE).count(), touched, "rotate={rotate}");
    }
}

#[test]
fn what_lies_beside_the_screen_is_left_out() {
    let fb = Framebuffer { width: 5, height: 4, rotate: 0, stride: 5 };
    assert_eq!(fb.clamp(3, 3, 9, 9), (3, 3, 2, 1));
    assert_eq!(fb.clamp(9, 9, 9, 9), (5, 4, 0, 0));
    assert!(fb.blit(9, 0, 2, 2, &[]).is_empty());
    assert_eq!(fb.phys_region(0, 2, 5, 9), (0, 2, 5, 2));
    let turned = Framebuffer { width: 5, height: 4, rotate: 1, stride: 4 };
    assert_eq!(turned.phys_region(0, 3, 5, 1), (0, 0, 1, 5));
}

#[test]
fn a_picture_that_sticks_out_keeps_its_rows() {
    for rotate in 0u8..4 {
        let (lw, lh, stride) = (5u32, 4u32, 7u32);
        let fb = Framebuffer { width: lw, height: lh, rotate, stride };
        let (x, y, w, h) = (3u32, 2u32, 4u32, 3u32);
        let src: Vec<u8> = (0..w * h * 4).map(|n| n as u8).collect();
        let dev = device(&fb, x, y, w, h, &src);
        for j in 0..2 {
            for i in 0..2 {
                let (px, py) = reference(rotate, lw, lh, x + i, y + j);
                let off = ((py * stride + px) * 4) as usize;
                let s = ((j * w + i) * 4) as usize;
                assert_eq!(dev[off..off + 4], src[s..s + 4], "rotate={rotate} ({i},{j})");
            }
        }
        assert_eq!(dev.iter().filter(|&&b| b != 0xEE).count(), 16, "rotate={rotate}");
    }
    let fb = Framebuffer { width: 3, height: 2, rotate: 0, stride: 3 };
    let src: Vec<u8> = (0..4 * 2 * 4).collect();
    let rows = fb.blit(1, 0, 4, 2, &src);
    assert_eq!(rows[1].bytes, [16, 17, 18, 19, 20, 21, 22, 23]);
    assert_eq!(fb.clear(1, 1, 9, 9).len(), 1);
}

#[test]
fn clearing_writes_black() {
    let fb = Framebuffer { width: 3, height: 2, rotate: 0, stride: 4 };
    let rows = fb.clear(1, 0, 2, 2);
    assert_eq!(rows.len(), 2);
    assert_eq!((rows[0].off, rows[1].off), (4, 20));
    assert!(rows.iter().all(|r| r.bytes == vec![0u8; 8]));
}

#[test]
fn the_turn_comes_from_the_variable_or_the_settings() {
    let rc = "# x\n screen-rotate= 7 \nscreen-rotate=1\n";
    assert_eq!(screen_rotate(Some(" 2 "), Some(rc)), 2);
    assert_eq!(screen_rotate(Some("x"), Some(rc)), 3);
    assert_eq!(screen_rotate(None, Some("screen-rotate=x\nscreen-rotate=1")), 1);
    assert_eq!(screen_rotate(None, Some("")), 0);
    assert_eq!(screen_rotate(Some("300"), None), 0);
}

#[test]
fn the_depth_has_to_be_supported() {
    assert_eq!(check_depth("32\n"), Ok(()));
    assert_eq!(check_depth("16\n"), Err(FbError::Depth(16)));
    assert_eq!(check_depth("x"), Err(FbError::BadDepth));
}

#[test]
fn the_size_is_read() {
    let fb = Framebuffer::geometry("1366,768\n", "5504\n", 0).ok().unwrap();
    assert_eq!((fb.width, fb.height, fb.stride, fb.rotate), (1366, 768, 1376, 0));
    let fb = Framebuffer::geometry("1366, 768\n", "5504\n", 1).ok().unwrap();
    assert_eq!((fb.width, fb.height, fb.rotate), (768, 1366, 1));
    let err = |v: &str, s: &str| Framebuffer::geometry(v, s, 0).err();
    assert_eq!(err("1366x768", "5504"), Some(FbError::Size));
    assert_eq!(err("1366,768", ""), Some(FbError::Stride));
    assert_eq!(err("a,768", "5504"), Some(FbError::Width));
    assert_eq!(err("1366 ,768", "5504"), Some(FbError::Width));
    assert_eq!(err("1366,", "5504"), Some(FbError::Height));
}
