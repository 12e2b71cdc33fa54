//! What the panel shows: the track, the player's state, and the art that goes
//! with the track.

use crate::art::{Accent, Fetched};
use crate::mpris;
use crate::mpris::Snapshot;
use crate::np;
use crate::np::NowPlaying;
use crate::paint::NpView;
use crate::player::{Ctrl, Pending, PlayerState, PENDING_FOR};
use crate::scan;
use crate::scan::same;
use vstd::prelude::*;

verus! {

/// The panel's state between two looks at the player.
pub struct Np {
    pub now: Option<NowPlaying>,
    /// The player's state; none if it is not there.
    pub player: Option<PlayerState>,
    pub art: Option<Fetched>,
    /// What a touched button leads to, until the player reports it.
    pub pending: Option<Pending>,
}

impl Default for Np {
    fn default() -> (r: Np)
        ensures
            r.now is None,
            r.player is None,
            r.art is None,
            r.pending is None,
    {
        Np { now: None, player: None, art: None, pending: None }
    }
}

/// The state to show: what the player reports, with what a touched button leads
/// to in its place as long as that is waited for.
pub open spec fn shown_player(
    got: Option<PlayerState>,
    pending: Option<Pending>,
    now: u64,
) -> Option<PlayerState> {
    match (got, pending) {
        (Some(g), Some(p)) => if p.waits(g, now) {
            Some(g.with(p.ctrl, p.expected))
        } else {
            Some(g)
        },
        _ => got,
    }
}

/// What is still waited for. While the player does not answer, the wait goes
/// on.
pub open spec fn still_pending(
    got: Option<PlayerState>,
    pending: Option<Pending>,
    now: u64,
) -> Option<Pending> {
    match (got, pending) {
        (Some(g), Some(p)) => if p.waits(g, now) {
            Some(p)
        } else {
            None
        },
        _ => pending,
    }
}

/// The track to show: the record from the file if that is fresh, or else the
/// one from the player.
pub open spec fn shown_track(
    file: Option<np::Track>,
    said: Option<mpris::Said>,
    now_ms: u64,
) -> Option<np::Track> {
    if file is Some && file->0.fresh(now_ms as int) {
        file
    } else {
        match said {
            Some(s) => s.np,
            None => None,
        }
    }
}

/// The player's state in what it said.
pub open spec fn player_in(said: Option<mpris::Said>) -> Option<PlayerState> {
    match said {
        Some(s) => Some(s.player),
        None => None,
    }
}

/// The address of a track's art.
pub open spec fn url_in(t: Option<np::Track>) -> Option<Seq<char>> {
    match t {
        Some(t) => t.art_url,
        None => None,
    }
}

impl Np {
    /// Takes in what the player said and the record in the file. Gives the
    /// address of the art to ask for. `now` counts nanoseconds from the start,
    /// `now_ms` milliseconds of the clock.
    pub fn refresh(
        &mut self,
        snap: Option<Snapshot>,
        file: Option<NowPlaying>,
        now: u64,
        now_ms: u64,
    ) -> (r: Option<String>)
        ensures
            final(self).player == shown_player(
                player_in(mpris::opt_said(snap)),
                old(self).pending,
                now,
            ),
            final(self).pending == still_pending(
                player_in(mpris::opt_said(snap)),
                old(self).pending,
                now,
            ),
            np::opt_track(final(self).now) == shown_track(
                np::opt_track(file),
                mpris::opt_said(snap),
                now_ms,
            ),
            final(self).art == old(self).art,
            scan::opt_text(r) == url_in(np::opt_track(final(self).now)),
    {
        let mut player: Option<PlayerState> = match &snap {
            Some(s) => Some(s.player),
            None => None,
        };
        match (player, self.pending) {
            (Some(p), Some(w)) => {
                let mut got = p;
                if !w.overlay(&mut got, now) {
                    self.pending = None;
                }
                player = Some(got);
            },
            _ => {},
        }
        self.player = player;
        let fresh = match &file {
            Some(f) => f.is_fresh(now_ms),
            None => false,
        };
        self.now = if fresh {
            file
        } else {
            match snap {
                Some(s) => s.np,
                None => None,
            }
        };
        match &self.now {
            Some(n) => match &n.art_url {
                Some(u) => Some(u.clone()),
                None => None,
            },
            None => None,
        }
    }

    /// Takes in art that has come.
    pub fn take_art(&mut self, got: Option<Fetched>)
        ensures
            final(self).art == match got {
                Some(f) => Some(f),
                None => old(self).art,
            },
            final(self).now == old(self).now,
            final(self).player == old(self).player,
            final(self).pending == old(self).pending,
    {
        match got {
            Some(f) => {
                self.art = Some(f);
            },
            None => {},
        }
    }

    /// A touch on a button: gives the request for the player, and shows what it
    /// leads to until the player reports it. Nothing happens without a player.
    pub fn touch(&mut self, c: Ctrl, now: u64) -> (r: Option<Vec<String>>)
        requires
            now + PENDING_FOR <= u64::MAX,
        ensures
            final(self).now == old(self).now,
            final(self).art == old(self).art,
            match old(self).player {
                Some(p) => {
                    &&& r is Some
                    &&& scan::texts(r->0@) == mpris::button_words(c, p)
                    &&& final(self).player == Some(p.then_after(c))
                    &&& final(self).pending == Some(
                        Pending { ctrl: c, expected: p.then_after(c), until: (now + PENDING_FOR) as u64 },
                    )
                },
                None => {
                    &&& r is None
                    &&& final(self).player == old(self).player
                    &&& final(self).pending == old(self).pending
                },
            },
    {
        match self.player {
            Some(p) => {
                let args = mpris::activate(c, p);
                let next = p.after(c);
                self.player = Some(next);
                self.pending = Some(Pending::new(c, next, now));
                Some(args)
            },
            None => None,
        }
    }

    /// Whether the player plays.
    pub fn is_playing(&self) -> (r: bool)
        ensures
            r == (self.player is Some && self.player->0.playing),
    {
        match self.player {
            Some(p) => p.playing,
            None => false,
        }
    }

    /// The art belongs to the track that is shown.
    pub open spec fn art_fits(self) -> bool {
        &&& self.art is Some
        &&& url_in(np::opt_track(self.now)) == Some(self.art->0.url@)
    }

    /// What the panel shows; nothing without a track or a player. Art of another
    /// track is not shown, and its colours neither.
    pub fn view(&self, filled: u32) -> (r: Option<NpView<'_>>)
        ensures
            r is Some <==> self.now is Some && self.player is Some,
            match r {
                Some(v) => {
                    &&& v.np == self.now->0
                    &&& v.player == self.player->0
                    &&& v.filled == filled
                    &&& if self.art_fits() {
                        v.art is Some && v.art->0@ == self.art->0.bgra@ && v.accent
                            == self.art->0.accent
                    } else {
                        v.art is None && v.accent == Accent::plain()
                    }
                },
                None => true,
            },
    {
        let now = match &self.now {
            Some(n) => n,
            None => return None,
        };
        let player = match self.player {
            Some(p) => p,
            None => return None,
        };
        match (&self.art, &now.art_url) {
            (Some(a), Some(u)) => {
                if same(a.url.as_str(), u.as_str()) {
                    return Some(
                        NpView {
                            np: now,
                            player,
                            art: Some(a.bgra.as_slice()),
                            accent: a.accent,
                            filled,
                        },
                    );
                }
            },
            _ => {},
        }
        Some(NpView { np: now, player, art: None, accent: Accent::default(), filled })
    }
}

/// A fresh record counts before what the player says, a stale one never counts.
pub proof fn a_fresh_record_comes_first(
    file: np::Track,
    said: Option<mpris::Said>,
    now_ms: u64,
)
    ensures
        file.fresh(now_ms as int) ==> shown_track(Some(file), said, now_ms) == Some(file),
        !file.fresh(now_ms as int) ==> shown_track(Some(file), said, now_ms) == shown_track(
            None,
            said,
            now_ms,
        ),
{
}

/// After a touch on a toggle the panel shows the new state, whatever the player
/// still reports, until the wait is over; after that it shows the report.
pub proof fn a_touched_toggle_holds(
    p: PlayerState,
    c: Ctrl,
    got: PlayerState,
    touched: u64,
    now: u64,
)
    requires
        c != Ctrl::Prev,
        c != Ctrl::Next,
        touched <= now,
        touched + PENDING_FOR <= u64::MAX,
    ensures
        ({
            let w = Pending {
                ctrl: c,
                expected: p.then_after(c),
                until: (touched + PENDING_FOR) as u64,
            };
            &&& now < touched + PENDING_FOR ==> shown_player(Some(got), Some(w), now) == Some(
                got.with(c, p.then_after(c)),
            )
            &&& now >= touched + PENDING_FOR ==> shown_player(Some(got), Some(w), now) == Some(
                got,
            ) && still_pending(Some(got), Some(w), now) is None
        }),
{
}

/// Without a player there is no state to show, whatever was touched, and the wait
/// for it goes on; without a touch the report is shown as it is.
pub proof fn reports_are_shown_as_they_are(got: PlayerState, w: Option<Pending>, now: u64)
    ensures
        shown_player(None, w, now) is None,
        still_pending(None, w, now) == w,
        shown_player(Some(got), None, now) == Some(got),
        still_pending(Some(got), None, now) is None,
{
}

/// A wait shows the touched setting and leaves the others as they are reported; it
/// is over as soon as the report agrees.
pub proof fn a_wait_hides_one_setting(got: PlayerState, w: Pending, now: u64)
    ensures
        ({
            let shown = shown_player(Some(got), Some(w), now)->0;
            let waits = still_pending(Some(got), Some(w), now);
            &&& shown_player(Some(got), Some(w), now) is Some
            &&& w.ctrl != Ctrl::Shuffle ==> shown.shuffle == got.shuffle
            &&& w.ctrl != Ctrl::PlayPause ==> shown.playing == got.playing
            &&& w.ctrl != Ctrl::Repeat ==> shown.repeat == got.repeat
            &&& waits is Some ==> waits == Some(w)
            &&& waits is Some <==> shown != got
            &&& now >= w.until ==> shown == got
            &&& now < w.until && w.ctrl == Ctrl::Shuffle ==> shown.shuffle == w.expected.shuffle
            &&& now < w.until && w.ctrl == Ctrl::PlayPause ==> shown.playing == w.expected.playing
            &&& now < w.until && w.ctrl == Ctrl::Repeat ==> shown.repeat == w.expected.repeat
        }),
{
}

/// The record from the file is shown while it is fresh, up to fifteen seconds
/// old; after that, or without one, the player's own; and nothing where it has
/// none either.
pub proof fn a_stale_record_gives_way_to_the_player(
    file: Option<np::Track>,
    said: Option<mpris::Said>,
    now_ms: u64,
)
    ensures
        ({
            let fresh = file is Some && file->0.written_at_ms > 0 && now_ms
                <= file->0.written_at_ms + 15000;
            &&& fresh ==> shown_track(file, said, now_ms) == file
            &&& !fresh && said is None ==> shown_track(file, said, now_ms) is None
            &&& !fresh && said is Some ==> shown_track(file, said, now_ms) == said->0.np
        }),
        said is Some ==> player_in(said) == Some(said->0.player),
        said is None ==> player_in(said) is None,
        file is Some ==> url_in(file) == file->0.art_url,
        file is None ==> url_in(file) is None,
{
}

/// Art is shown with the track whose address it was fetched from, and with no
/// other.
pub proof fn art_goes_with_its_own_track(panel: Np)
    ensures
        panel.art_fits() <==> {
            &&& panel.art is Some
            &&& panel.now is Some
            &&& panel.now->0.art_url is Some
            &&& panel.now->0.art_url->0@ == panel.art->0.url@
        },
{
}

/// A touched toggle is shown for five seconds.
pub proof fn a_touch_is_shown_for_five_seconds(
    p: PlayerState,
    c: Ctrl,
    got: PlayerState,
    touched: u64,
    now: u64,
)
    requires
        touched <= now,
        touched + PENDING_FOR <= u64::MAX,
    ensures
        ({
            let w = Pending {
                ctrl: c,
                expected: p.then_after(c),
                until: (touched + PENDING_FOR) as u64,
            };
            let shown = shown_player(Some(got), Some(w), now)->0;
            &&& now >= touched + 5_000_000_000 ==> shown == got
            &&& now < touched + 5_000_000_000 && c == Ctrl::PlayPause ==> shown.playing
                == !p.playing
            &&& now < touched + 5_000_000_000 && c == Ctrl::Shuffle ==> shown.shuffle
                == !p.shuffle
        }),
{
}

} // verus!
