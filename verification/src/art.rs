//! Album art: which picture is asked for, when one that has come is handed on,
//! and the picture's bytes.

use crate::picture;
use crate::picture::{decode_scaled, to_screen};
use crate::scan;
use crate::scan::same;
use vstd::prelude::*;

verus! {

/// The colours in which the panel's background starts, blue first.
#[derive(Clone, Copy, PartialEq, Eq, Debug)]
pub struct Accent {
    /// Left end of the panel.
    pub fill: [u8; 3],
    /// Left end of its border.
    pub edge: [u8; 3],
}

/// The colours of a panel without art: the player's green, darkened.
pub const ACCENT_FILL: [u8; 3] = [45, 89, 13];

pub const ACCENT_EDGE: [u8; 3] = [71, 143, 20];

impl Accent {
    pub open spec fn plain() -> Accent {
        Accent { fill: ACCENT_FILL, edge: ACCENT_EDGE }
    }
}

impl Default for Accent {
    fn default() -> (r: Accent)
        ensures
            r == Accent::plain(),
    {
        Accent { fill: ACCENT_FILL, edge: ACCENT_EDGE }
    }
}

/// A picture that has come: where from, its bytes and the colours taken from it.
pub struct Fetched {
    pub url: String,
    pub bgra: Vec<u8>,
    pub accent: Accent,
}

/// What has been asked for and what has come.
pub struct Art {
    /// The address that was asked for last.
    pub asked: Option<String>,
    /// A picture that waits to be taken.
    pub done: Option<Fetched>,
}

impl Default for Art {
    fn default() -> (r: Art)
        ensures
            r.asked is None,
            r.done is None,
    {
        Art { asked: None, done: None }
    }
}

impl Art {
    /// Asks for the picture at `url`. Tells whether it has to be fetched: not if
    /// it was asked for last time too.
    pub fn request(&mut self, url: &str) -> (r: bool)
        ensures
            r == (scan::opt_text(old(self).asked) != Some(url@)),
            scan::opt_text(final(self).asked) == Some(url@),
            final(self).done == old(self).done,
    {
        match &self.asked {
            Some(a) => {
                if same(a.as_str(), url) {
                    return false;
                }
            },
            None => {},
        }
        self.asked = Some(url.to_owned());
        true
    }

    /// Leaves a picture to be taken; one that still waits is dropped.
    pub fn put(&mut self, got: Fetched)
        ensures
            final(self).done == Some(got),
            final(self).asked == old(self).asked,
    {
        self.done = Some(got);
    }

    /// Takes the picture that has come, if one has. It is given once.
    pub fn take(&mut self) -> (r: Option<Fetched>)
        ensures
            r == old(self).done,
            final(self).done is None,
            final(self).asked == old(self).asked,
    {
        self.done.take()
    }
}

/// The address to fetch when several wait: the last one.
pub fn newest(first: String, waiting: Vec<String>) -> (r: String)
    ensures
        r == if waiting@.len() == 0 {
            first
        } else {
            waiting@.last()
        },
{
    let mut waiting = waiting;
    match waiting.pop() {
        Some(u) => u,
        None => first,
    }
}

/// The words of the command that fetches `url`.
pub open spec fn fetch_words(url: Seq<char>) -> Seq<Seq<char>> {
    seq!["-sL"@, "--max-time"@, "10"@, url]
}

pub fn fetch_args(url: &str) -> (r: Vec<String>)
    ensures
        scan::texts(r@) == fetch_words(url@),
{
    let r = scan::argv(&["-sL", "--max-time", "10", url]);
    assert(scan::texts(r@) =~= fetch_words(url@));
    r
}

/// The picture in what the command printed, as a square of `side` pixels in the
/// bytes of the screen. `None` if the command failed, printed nothing, or what
/// it printed is no picture.
pub fn read(success: bool, out: &[u8], side: u32) -> (r: Option<Vec<u8>>)
    requires
        side < 0x8000,
    ensures
        r is Some <==> success && out@.len() > 0 && picture::decoded(out@) is Some,
        match r {
            Some(v) => {
                &&& v@.len() == side * side * 4
                &&& forall|i: int| 0 <= i < v@.len() && i % 4 == 3 ==> #[trigger] v@[i] == 0
                &&& ({
                    let p = picture::decoded(out@)->0;
                    p.0 == side && p.1 == side ==> v@ == picture::screen_bytes(p.2)
                })
            },
            None => true,
        },
{
    if !success || out.len() == 0 {
        return None;
    }
    match decode_scaled(out, side) {
        Ok(px) => {
            assert(px@.len() % 4 == 0);
            Some(to_screen(px.as_slice()))
        },
        Err(_) => None,
    }
}

/// The place of the largest of the keys; of several, the last.
pub fn best_bin(keys: &[u32]) -> (r: usize)
    requires
        keys@.len() > 0,
    ensures
        r < keys@.len(),
        forall|i: int| 0 <= i < keys@.len() ==> #[trigger] keys@[i] <= keys@[r as int],
        forall|i: int| r < i < keys@.len() ==> #[trigger] keys@[i] < keys@[r as int],
{
    let n: usize = keys.len();
    let mut best: usize = 0;
    for i in 1..n
        invariant
            best < i <= n == keys@.len(),
            forall|k: int| 0 <= k < i ==> #[trigger] keys@[k] <= keys@[best as int],
            forall|k: int| best < k < i ==> #[trigger] keys@[k] < keys@[best as int],
    {
        if keys[i] >= keys[best] {
            best = i;
        }
    }
    best
}

/// Without art the panel is green, the border lighter than the panel in every
/// channel.
pub proof fn a_panel_without_art_is_green()
    ensures
        ({
            let a = Accent::plain();
            &&& a.fill[1] > a.fill[0] > a.fill[2]
            &&& a.edge[1] > a.edge[0] > a.edge[2]
            &&& a.edge[0] > a.fill[0] && a.edge[1] > a.fill[1] && a.edge[2] > a.fill[2]
        }),
{
}

/// A picture is fetched from its address, quietly, wherever that leads, and for
/// ten seconds at most.
pub proof fn a_picture_is_fetched_from_its_address(url: Seq<char>)
    ensures
        fetch_words(url).len() == 4,
        fetch_words(url)[0] == "-sL"@,
        fetch_words(url)[1] == "--max-time"@,
        fetch_words(url)[2] == "10"@,
        fetch_words(url)[3] == url,
{
}

} // verus!
