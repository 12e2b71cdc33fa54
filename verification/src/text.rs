//! Fonts and text: where a font is looked for, and how a text is cut to the
//! width that there is.

use ab_glyph::FontVec;
use crate::scan::chars_of;
use crate::scan;
use vstd::prelude::*;

verus! {

#[verifier::external_type_specification]
#[verifier::external_body]
pub struct ExFontVec(ab_glyph::FontVec);

#[verifier::external_type_specification]
#[verifier::external_body]
pub struct ExInvalidFont(ab_glyph::InvalidFont);

/// The font at place `index` of the collection that `data` is, if there is one;
/// a single font counts as a collection of one.
pub uninterp spec fn font_at(data: Seq<u8>, index: u32) -> Option<FontVec>;

/// `FontVec::try_from_vec` opens the font at place 0. It fails if there is none.
pub assume_specification[ FontVec::try_from_vec ](data: Vec<u8>) -> (r: Result<
    FontVec,
    ab_glyph::InvalidFont,
>)
    ensures
        match r {
            Ok(f) => font_at(data@, 0) == Some(f),
            Err(_) => font_at(data@, 0) is None,
        },
;

/// `FontVec::try_from_vec_and_index` opens the font at a place of a collection.
/// It fails if there is none.
pub assume_specification[ FontVec::try_from_vec_and_index ](data: Vec<u8>, index: u32) -> (r:
    Result<FontVec, ab_glyph::InvalidFont>)
    ensures
        match r {
            Ok(f) => font_at(data@, index) == Some(f),
            Err(_) => font_at(data@, index) is None,
        },
;

pub struct Font {
    pub inner: FontVec,
}

/// Opens a font; of a collection, the first.
pub fn try_load(data: Vec<u8>) -> (r: Option<Font>)
    ensures
        match r {
            Some(f) => font_at(data@, 0) == Some(f.inner),
            None => font_at(data@, 0) is None,
        },
{
    let copy = data.clone();
    assert(copy@ =~= data@);
    match FontVec::try_from_vec(copy) {
        Ok(inner) => Some(Font { inner }),
        Err(_) => match FontVec::try_from_vec_and_index(data, 0) {
            Ok(inner) => Some(Font { inner }),
            Err(_) => None,
        },
    }
}

/// Where fonts are looked for, those with Chinese, Japanese and Korean
/// characters first.
pub open spec fn candidates() -> Seq<Seq<char>> {
    seq![
        "/usr/share/fonts/opentype/noto/NotoSansCJK-Regular.ttc"@,
        "/usr/share/fonts/noto-cjk/NotoSansCJK-Regular.ttc"@,
        "/usr/share/fonts/OTF/NotoSansCJK-Regular.ttc"@,
        "/usr/share/fonts/google-noto-cjk/NotoSansCJKjp-Regular.otf"@,
        "/usr/share/fonts/noto-cjk/NotoSansCJKjp-Regular.otf"@,
        "/usr/share/fonts/truetype/fonts-japanese-gothic.ttf"@,
        "/usr/share/fonts/opentype/ipaexfont-gothic/ipaexg.ttf"@,
        "/usr/share/fonts/opentype/ipafont-gothic/ipagp.ttf"@,
        "/usr/share/fonts/opentype/ipafont-gothic/ipag.ttf"@,
        "/usr/share/fonts/truetype/vlgothic/VL-PGothic-Regular.ttf"@,
        "/usr/share/fonts/truetype/vlgothic/VL-Gothic-Regular.ttf"@,
        "/usr/share/fonts/truetype/dejavu/DejaVuSans.ttf"@,
        "/usr/share/fonts/truetype/liberation/LiberationSans-Regular.ttf"@,
        "/usr/share/fonts/truetype/noto/NotoSans-Regular.ttf"@,
        "/usr/share/fonts/truetype/ubuntu/Ubuntu-R.ttf"@,
    ]
}

/// The places to look for a font, in their order; `var` is `TASKVAR_FONT`,
/// which comes first.
pub fn font_paths(var: Option<&str>) -> (r: Vec<String>)
    ensures
        scan::texts(r@) == match var {
            Some(p) => seq![p@] + candidates(),
            None => candidates(),
        },
{
    let mut r: Vec<String> = Vec::new();
    match var {
        Some(p) => {
            r.push(p.to_owned());
        },
        None => {},
    }
    let ghost head = scan::texts(r@);
    let mut rest = scan::argv(
        &[
            "/usr/share/fonts/opentype/noto/NotoSansCJK-Regular.ttc",
            "/usr/share/fonts/noto-cjk/NotoSansCJK-Regular.ttc",
            "/usr/share/fonts/OTF/NotoSansCJK-Regular.ttc",
            "/usr/share/fonts/google-noto-cjk/NotoSansCJKjp-Regular.otf",
            "/usr/share/fonts/noto-cjk/NotoSansCJKjp-Regular.otf",
            "/usr/share/fonts/truetype/fonts-japanese-gothic.ttf",
            "/usr/share/fonts/opentype/ipaexfont-gothic/ipaexg.ttf",
            "/usr/share/fonts/opentype/ipafont-gothic/ipagp.ttf",
            "/usr/share/fonts/opentype/ipafont-gothic/ipag.ttf",
            "/usr/share/fonts/truetype/vlgothic/VL-PGothic-Regular.ttf",
            "/usr/share/fonts/truetype/vlgothic/VL-Gothic-Regular.ttf",
            "/usr/share/fonts/truetype/dejavu/DejaVuSans.ttf",
            "/usr/share/fonts/truetype/liberation/LiberationSans-Regular.ttf",
            "/usr/share/fonts/truetype/noto/NotoSans-Regular.ttf",
            "/usr/share/fonts/truetype/ubuntu/Ubuntu-R.ttf",
        ],
    );
    assert(scan::texts(rest@) =~= candidates());
    let ghost list = rest@;
    let ghost first = r@;
    r.append(&mut rest);
    assert(r@ =~= first + list);
    assert(scan::texts(r@) =~= head + candidates());
    assert(var is Some ==> head =~= seq![var->0@]);
    assert(var is None ==> scan::texts(r@) =~= candidates());
    r
}

/// How many characters are kept of a text that does not fit: those before the
/// first behind which there is no room for an ellipsis.
pub open spec fn kept(room: Seq<bool>) -> int
    decreases room.len(),
{
    if room.len() == 0 || !room[0] {
        0
    } else {
        1 + kept(room.drop_first())
    }
}

/// The text as it is written: whole if it fits, or else cut, with an ellipsis.
/// `room` says of each character whether the text up to it and an ellipsis fit.
pub open spec fn fitted(text: Seq<char>, whole: bool, room: Seq<bool>) -> Seq<char> {
    if whole {
        text
    } else {
        text.take(kept(room)).push('\u{2026}')
    }
}

/// Cuts a text to what there is room for.
pub fn fit(text: &str, whole: bool, room: &[bool]) -> (r: String)
    requires
        room@.len() == text@.len(),
    ensures
        r@ == fitted(text@, whole, room@),
{
    if whole {
        return text.to_owned();
    }
    let chars = chars_of(text);
    let n: usize = room.len();
    let mut i: usize = 0;
    let mut r = String::new();
    assert(room@.skip(0) =~= room@);
    assert(r@ =~= text@.take(0));
    while i < n && room[i]
        invariant
            i <= n == room@.len() == text@.len(),
            chars@ == text@,
            kept(room@) == i + kept(room@.skip(i as int)),
            r@ == text@.take(i as int),
        decreases n - i,
    {
        assert(room@.skip(i as int).drop_first() =~= room@.skip(i + 1));
        r.push(chars[i]);
        assert(text@.take(i + 1) =~= text@.take(i as int).push(text@[i as int]));
        i = i + 1;
    }
    r.push('\u{2026}');
    r
}

/// A text that does not fit keeps its beginning and ends in an ellipsis.
pub proof fn a_cut_text_keeps_its_beginning(text: Seq<char>, room: Seq<bool>)
    requires
        room.len() == text.len(),
    ensures
        ({
            let r = fitted(text, false, room);
            &&& r.last() == '\u{2026}'
            &&& r.drop_last().is_prefix_of(text)
            &&& forall|i: int| 0 <= i < r.len() - 1 ==> #[trigger] room[i]
            &&& r.len() - 1 < text.len() ==> !room[r.len() - 1]
        }),
{
    lemma_kept(room);
    let r = fitted(text, false, room);
    assert(r.drop_last() =~= text.take(kept(room)));
}

proof fn lemma_kept(room: Seq<bool>)
    ensures
        0 <= kept(room) <= room.len(),
        forall|i: int| 0 <= i < kept(room) ==> #[trigger] room[i],
        kept(room) < room.len() ==> !room[kept(room)],
    decreases room.len(),
{
    if room.len() > 0 && room[0] {
        let t = room.drop_first();
        lemma_kept(t);
        assert forall|i: int| 0 <= i < kept(room) implies #[trigger] room[i] by {
            if i > 0 {
                assert(t[i - 1]);
            }
        }
    }
}

/// A text that fits is written as it is. Of one that does not, as much is kept as
/// leaves room for the ellipsis, and no character more.
pub proof fn as_much_is_kept_as_there_is_room_for(text: Seq<char>, room: Seq<bool>, n: int)
    requires
        room.len() == text.len(),
        0 <= n <= room.len(),
        forall|i: int| 0 <= i < n ==> #[trigger] room[i],
        n < room.len() ==> !room[n],
    ensures
        fitted(text, true, room) == text,
        fitted(text, false, room) == text.take(n).push('\u{2026}'),
{
    lemma_kept(room);
    if kept(room) < n {
        assert(room[kept(room)]);
    } else if kept(room) > n {
        assert(room[n]);
    }
}

} // verus!
