//! What is playing: the record that the player leaves behind, and how far the
//! track has come since.

use crate::scan;
use vstd::prelude::*;

verus! {

/// A record older than this is no longer kept up.
pub const FRESH_FOR_MS: u64 = 15_000;

/// The track that plays, as it was when the record was written.
#[derive(Debug, Clone, PartialEq)]
pub struct NowPlaying {
    pub track: String,
    pub artist: String,
    pub art_url: Option<String>,
    pub progress_ms: u64,
    pub duration_ms: u64,
    /// When the record was written; zero if that is not known.
    pub written_at_ms: u64,
    pub is_playing: bool,
}

/// The contents of a record.
#[verifier::ext_equal]
pub struct Track {
    pub track: Seq<char>,
    pub artist: Seq<char>,
    pub art_url: Option<Seq<char>>,
    pub progress_ms: u64,
    pub duration_ms: u64,
    pub written_at_ms: u64,
    pub is_playing: bool,
}

impl View for NowPlaying {
    type V = Track;

    open spec fn view(&self) -> Track {
        Track {
            track: self.track@,
            artist: self.artist@,
            art_url: scan::opt_text(self.art_url),
            progress_ms: self.progress_ms,
            duration_ms: self.duration_ms,
            written_at_ms: self.written_at_ms,
            is_playing: self.is_playing,
        }
    }
}

pub open spec fn opt_track(o: Option<NowPlaying>) -> Option<Track> {
    match o {
        Some(n) => Some(n@),
        None => None,
    }
}

impl Track {
    /// The record is recent. A time before it was written counts as the moment
    /// itself.
    pub open spec fn fresh(self, now_ms: int) -> bool {
        self.written_at_ms > 0 && now_ms - self.written_at_ms <= FRESH_FOR_MS
    }

    /// How long the track has played since the record was written. It stands
    /// still while paused, or if it is not known when that was.
    pub open spec fn elapsed(self, now_ms: int) -> int {
        if self.is_playing && self.written_at_ms > 0 && now_ms > self.written_at_ms {
            now_ms - self.written_at_ms
        } else {
            0
        }
    }

    /// How far the track has come: never past its end.
    pub open spec fn position(self, now_ms: int) -> int {
        if self.progress_ms + self.elapsed(now_ms) <= self.duration_ms {
            self.progress_ms + self.elapsed(now_ms)
        } else {
            self.duration_ms as int
        }
    }
}

impl NowPlaying {
    /// Whether the record is still kept up.
    pub fn is_fresh(&self, now_ms: u64) -> (r: bool)
        ensures
            r == self@.fresh(now_ms as int),
    {
        self.written_at_ms > 0 && (now_ms <= self.written_at_ms || now_ms - self.written_at_ms
            <= FRESH_FOR_MS)
    }

    /// How far the track has come by now.
    pub fn position(&self, now_ms: u64) -> (r: u64)
        ensures
            r == self@.position(now_ms as int),
    {
        let elapsed: u64 = if self.is_playing && self.written_at_ms > 0 && now_ms
            > self.written_at_ms {
            now_ms - self.written_at_ms
        } else {
            0
        };
        if self.progress_ms > self.duration_ms || elapsed > self.duration_ms - self.progress_ms {
            self.duration_ms
        } else {
            self.progress_ms + elapsed
        }
    }
}

/// The position never runs back while time goes on, and never past the end.
pub proof fn position_only_grows(t: Track, a: int, b: int)
    requires
        a <= b,
    ensures
        t.position(a) <= t.position(b) <= t.duration_ms,
{
}

/// A paused track stands still.
pub proof fn a_paused_track_stands_still(t: Track, a: int, b: int)
    requires
        !t.is_playing,
    ensures
        t.position(a) == t.position(b),
{
}

/// Once stale, a record stays stale.
pub proof fn a_stale_record_stays_stale(t: Track, a: int, b: int)
    requires
        a <= b,
        !t.fresh(a),
    ensures
        !t.fresh(b),
{
}

/// A record is fresh for fifteen seconds from when it was written, and never if
/// that is not known.
pub proof fn a_record_is_fresh_for_fifteen_seconds(t: Track, now_ms: int)
    ensures
        t.written_at_ms > 0 ==> (t.fresh(now_ms) <==> now_ms <= t.written_at_ms + 15000),
        t.written_at_ms == 0 ==> !t.fresh(now_ms),
{
}

/// While it plays, a track moves on as time does, from where it was when the
/// record was written, and stops at its end.
pub proof fn a_track_moves_with_the_clock(t: Track, now_ms: int)
    requires
        t.is_playing,
        0 < t.written_at_ms <= now_ms,
    ensures
        t.progress_ms + (now_ms - t.written_at_ms) <= t.duration_ms ==> t.position(now_ms)
            - t.progress_ms == now_ms - t.written_at_ms,
        t.progress_ms + (now_ms - t.written_at_ms) > t.duration_ms ==> t.position(now_ms)
            == t.duration_ms,
{
}

/// Where it is paused, or not known when the record was written, or that moment
/// is yet to come, a track is where the record says.
pub proof fn otherwise_a_track_is_where_the_record_says(t: Track, now_ms: int)
    requires
        !t.is_playing || t.written_at_ms == 0 || now_ms <= t.written_at_ms,
        t.progress_ms <= t.duration_ms,
    ensures
        t.position(now_ms) == t.progress_ms,
{
}

} // verus!
