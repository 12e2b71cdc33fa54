//! Picture files and the pixels in them.

use vstd::prelude::*;

verus! {

#[verifier::external_type_specification]
#[verifier::external_body]
pub struct ExImageError(image::ImageError);

/// The width, the height and the RGBA bytes of the picture that is coded in
/// `data`, if one is.
pub uninterp spec fn decoded(data: Seq<u8>) -> Option<(u32, u32, Seq<u8>)>;

/// Calls `image::load_from_memory`, and `DynamicImage::to_rgba8` on what it
/// gives. The picture is a function of the bytes, four bytes to a pixel; which
/// bytes hold a picture, and which picture, is not said.
#[verifier::external_body]
pub(crate) fn decode(data: &[u8]) -> (r: Result<(u32, u32, Vec<u8>), image::ImageError>)
    ensures
        match r {
            Ok(p) => decoded(data@) == Some((p.0, p.1, p.2@)) && p.2@.len() == p.0 * p.1 * 4,
            Err(_) => decoded(data@) is None,
        },
{
    let img = image::load_from_memory(data)?.to_rgba8();
    let (w, h) = img.dimensions();
    Ok((w, h, img.into_raw()))
}

/// Calls `image::load_from_memory`, then `DynamicImage::resize_exact` with the
/// Lanczos filter, then `DynamicImage::to_rgba8`. It fails on the bytes that
/// hold no picture; else it gives a square of `side` pixels, which is the
/// picture itself if that has this size. What another picture looks like after
/// scaling is not said: it rests on the machine's sine function.
#[verifier::external_body]
pub(crate) fn decode_scaled(data: &[u8], side: u32) -> (r: Result<Vec<u8>, image::ImageError>)
    requires
        side < 0x8000,
    ensures
        match r {
            Ok(v) => {
                &&& v@.len() == side * side * 4
                &&& match decoded(data@) {
                    Some(p) => p.0 == side && p.1 == side ==> v@ == p.2,
                    None => false,
                }
            },
            Err(_) => decoded(data@) is None,
        },
{
    let img = image::load_from_memory(data)?;
    let filter = image::imageops::FilterType::Lanczos3;
    Ok(img.resize_exact(side, side, filter).to_rgba8().into_raw())
}

/// Byte `i` of a picture whose RGBA bytes are `px`, in the order of the screen:
/// blue, green, red, and zero.
pub open spec fn screen_byte(px: Seq<u8>, i: int) -> u8 {
    if i % 4 == 3 {
        0
    } else {
        px[i - i % 4 + 2 - i % 4]
    }
}

/// The bytes of a picture in the order of the screen.
pub open spec fn screen_bytes(px: Seq<u8>) -> Seq<u8> {
    Seq::new(px.len(), |i: int| screen_byte(px, i))
}

pub fn to_screen(px: &[u8]) -> (r: Vec<u8>)
    requires
        px@.len() % 4 == 0,
    ensures
        r@ == screen_bytes(px@),
{
    let n: usize = px.len() / 4;
    let mut r: Vec<u8> = Vec::new();
    for p in 0..n
        invariant
            px@.len() == n * 4 <= usize::MAX,
            r@.len() == p * 4,
            forall|i: int| 0 <= i < p * 4 ==> #[trigger] r@[i] == screen_byte(px@, i),
    {
        r.push(px[p * 4 + 2]);
        r.push(px[p * 4 + 1]);
        r.push(px[p * 4]);
        r.push(0);
    }
    assert(r@ =~= screen_bytes(px@));
    r
}

/// A pixel's red and blue change places, its green stays, and its opacity is
/// dropped.
pub proof fn red_and_blue_change_places(px: Seq<u8>, p: int)
    requires
        0 <= p,
        4 * p + 4 <= px.len(),
    ensures
        ({
            let s = screen_bytes(px);
            &&& s.len() == px.len()
            &&& s[4 * p] == px[4 * p + 2]
            &&& s[4 * p + 1] == px[4 * p + 1]
            &&& s[4 * p + 2] == px[4 * p]
            &&& s[4 * p + 3] == 0
        }),
{
}

} // verus!
