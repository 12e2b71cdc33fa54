use ab_glyph::{Font as _, PxScale, ScaleFont};
use task_var::text::{fit, font_paths, try_load, Font};

/// A font file of `glyphs` glyphs, half as wide as they are high, that stands
/// at byte `at` of a file.
fn font_file(at: usize, glyphs: u16) -> Vec<u8> {
    let mut head = vec![0u8; 54];
    head[18..20].copy_from_slice(&1000u16.to_be_bytes());
    let mut hhea = vec![0u8; 36];
    hhea[4..6].copy_from_slice(&800i16.to_be_bytes());
    hhea[6..8].copy_from_slice(&(-200i16).to_be_bytes());
    hhea[34..36].copy_from_slice(&1u16.to_be_bytes());
    let mut hmtx = 500u16.to_be_bytes().to_vec();
    hmtx.resize(2 + 2 * glyphs as usize, 0);
    let mut maxp = vec![0u8, 0, 0x50, 0];
    maxp.extend_from_slice(&glyphs.to_be_bytes());

    let tables = [(b"head", head), (b"hhea", hhea), (b"hmtx", hmtx), (b"maxp", maxp)];
    let mut file = vec![0u8, 1, 0, 0, 0, 4, 0, 64, 0, 2, 0, 0];
    let mut data = Vec::new();
    for (tag, table) in &tables {
        let offset = (at + 12 + 16 * 4 + data.len()) as u32;
        file.extend_from_slice(&tag[..]);
        file.extend_from_slice(&[0; 4]);
        file.extend_from_slice(&offset.to_be_bytes());
        file.extend_from_slice(&(table.len() as u32).to_be_bytes());
        data.extend_from_slice(table);
        data.resize(data.len().next_multiple_of(4), 0);
    }
    file.extend_from_slice(&data);
    file
}

/// A collection of two fonts.
fn collection(first: u16, second: u16) -> Vec<u8> {
    let one = font_file(20, first);
    let next = 20 + one.len();
    let mut file = b"ttcf\0\x01\0\0\0\0\0\x02\0\0\0\x14".to_vec();
    file.extend_from_slice(&(next as u32).to_be_bytes());
    file.extend_from_slice(&one);
    file.extend_from_slice(&font_file(next, second));
    file
}

fn width(font: &Font, text: &str, px: f32) -> f32 {
    let sf = font.inner.as_scaled(PxScale::from(px));
    text.chars().map(|c| sf.h_advance(sf.glyph_id(c))).sum()
}

fn fitted(font: &Font, text: &str, max: f32, px: f32) -> String {
    let sf = font.inner.as_scaled(PxScale::from(px));
    let end = sf.h_advance(sf.glyph_id('…'));
    let mut used = 0.0f32;
    let room: Vec<bool> = text
        .chars()
        .map(|c| {
            let cw = sf.h_advance(sf.glyph_id(c));
            let ok = used + cw + end <= max;
            used += cw;
            ok
        })
        .collect();
    fit(text, width(font, text, px) <= max, &room)
}

#[test]
fn fit_truncates_with_an_ellipsis() {
    let font = try_load(font_file(0, 7)).unwrap();
    let px = 18.0;
    let long = "I mean, It's about time - BLINGY - The 7th Album";
    let full = width(&font, long, px);
    assert!(full > 100.0);

    assert_eq!(fitted(&font, long, full + 1.0, px), long);

    let cut = fitted(&font, long, 100.0, px);
    assert!(cut.ends_with('…'), "no ellipsis: {cut}");
    assert!(width(&font, &cut, px) <= 100.0, "too wide: {cut}");
    assert!(long.starts_with(cut.trim_end_matches('…')), "another beginning");

    let jp = "きらきら武士 - フェアリーズ";
    let cut_jp = fitted(&font, jp, 60.0, px);
    assert!(cut_jp.ends_with('…'));
    assert!(width(&font, &cut_jp, px) <= 60.0);
}

#[test]
fn the_first_font_of_a_file_is_opened() {
    let one = try_load(font_file(0, 7)).unwrap();
    assert_eq!((one.inner.glyph_count(), one.inner.units_per_em()), (7, Some(1000.0)));
    let two = try_load(collection(9, 11)).unwrap();
    assert_eq!(two.inner.glyph_count(), 9);
    assert!(try_load(vec![]).is_none());
    assert!(try_load(b"no font".to_vec()).is_none());
    let mut broken = font_file(0, 7);
    broken.truncate(40);
    assert!(try_load(broken).is_none());
}

#[test]
fn a_text_is_cut_to_the_room_there_is() {
    assert_eq!(fit("きらきら", true, &[false; 4]), "きらきら");
    assert_eq!(fit("きらきら", false, &[true, true, false, true]), "きら…");
    assert_eq!(fit("abc", false, &[false; 3]), "…");
    assert_eq!(fit("", false, &[]), "…");
}

#[test]
fn fonts_are_looked_for_in_order() {
    let plain = font_paths(None);
    assert_eq!(plain.len(), 15);
    assert_eq!(plain[0], "/usr/share/fonts/opentype/noto/NotoSansCJK-Regular.ttc");
    assert_eq!(plain[14], "/usr/share/fonts/truetype/ubuntu/Ubuntu-R.ttf");
    let given = font_paths(Some("/x.ttf"));
    assert_eq!(given[0], "/x.ttf");
    assert_eq!(given[1..], plain[..]);
}
