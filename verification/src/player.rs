//! The media player's state, the buttons that change it, and what is shown
//! between a touch and the player's answer.

use crate::scan::same;
use vstd::prelude::*;

verus! {

/// How long a touched button shows the expected state, in nanoseconds.
pub const PENDING_FOR: u64 = 5_000_000_000;

/// What the player repeats.
#[derive(Debug, Clone, Copy, PartialEq, Eq, Structural)]
pub enum Loop {
    Off,
    Track,
    Playlist,
}

impl Default for Loop {
    fn default() -> (r: Loop)
        ensures
            r == Loop::Off,
    {
        Loop::Off
    }
}

impl Loop {
    /// The player's word for it.
    pub open spec fn word(self) -> Seq<char> {
        match self {
            Loop::Off => "None"@,
            Loop::Track => "Track"@,
            Loop::Playlist => "Playlist"@,
        }
    }

    /// What a word of the player's stands for; any other word stands for `Off`.
    pub open spec fn of_word(s: Seq<char>) -> Loop {
        if s == "Track"@ {
            Loop::Track
        } else if s == "Playlist"@ {
            Loop::Playlist
        } else {
            Loop::Off
        }
    }

    /// What follows when the button is touched.
    pub open spec fn next(self) -> Loop {
        match self {
            Loop::Off => Loop::Playlist,
            Loop::Playlist => Loop::Track,
            Loop::Track => Loop::Off,
        }
    }

    pub fn as_str(self) -> (r: &'static str)
        ensures
            r@ == self.word(),
    {
        match self {
            Loop::Off => "None",
            Loop::Track => "Track",
            Loop::Playlist => "Playlist",
        }
    }

    pub fn parse(s: &str) -> (r: Loop)
        ensures
            r == Loop::of_word(s@),
    {
        if same(s, "Track") {
            Loop::Track
        } else if same(s, "Playlist") {
            Loop::Playlist
        } else {
            Loop::Off
        }
    }

    pub fn cycle(self) -> (r: Loop)
        ensures
            r == self.next(),
    {
        match self {
            Loop::Off => Loop::Playlist,
            Loop::Playlist => Loop::Track,
            Loop::Track => Loop::Off,
        }
    }
}

/// Touching the button three times leads back to where it began, and before
/// that every setting was passed.
pub proof fn cycle_visits_every_setting(l: Loop)
    ensures
        l.next().next().next() == l,
        l.next() != l,
        l.next().next() != l,
        l.next().next() != l.next(),
{
}

/// Reading the player's word gives back what it was written for.
pub proof fn words_read_back(l: Loop)
    ensures
        Loop::of_word(l.word()) == l,
{
    reveal_strlit("None");
    reveal_strlit("Track");
    reveal_strlit("Playlist");
    assert("None"@.len() == 4 && "Track"@.len() == 5 && "Playlist"@.len() == 8);
}

#[derive(Debug, Clone, Copy, PartialEq, Eq, Structural)]
pub struct PlayerState {
    pub playing: bool,
    pub shuffle: bool,
    pub repeat: Loop,
}

/// The buttons of the panel.
#[derive(Debug, Clone, Copy, PartialEq, Eq, Structural)]
pub enum Ctrl {
    Shuffle,
    Prev,
    PlayPause,
    Next,
    Repeat,
}

impl Ctrl {
    /// The button at place `i` of the row.
    pub open spec fn at_place(i: int) -> Ctrl {
        if i == 0 {
            Ctrl::Shuffle
        } else if i == 1 {
            Ctrl::Prev
        } else if i == 2 {
            Ctrl::PlayPause
        } else if i == 3 {
            Ctrl::Next
        } else {
            Ctrl::Repeat
        }
    }

    pub fn at(i: usize) -> (r: Ctrl)
        requires
            i < 5,
        ensures
            r == Ctrl::at_place(i as int),
    {
        match i {
            0 => Ctrl::Shuffle,
            1 => Ctrl::Prev,
            2 => Ctrl::PlayPause,
            3 => Ctrl::Next,
            _ => Ctrl::Repeat,
        }
    }
}

impl PlayerState {
    /// The state that touching `c` asks for. The track buttons change none of
    /// what is kept here.
    pub open spec fn then_after(self, c: Ctrl) -> PlayerState {
        match c {
            Ctrl::Shuffle => PlayerState { shuffle: !self.shuffle, ..self },
            Ctrl::PlayPause => PlayerState { playing: !self.playing, ..self },
            Ctrl::Repeat => PlayerState { repeat: self.repeat.next(), ..self },
            Ctrl::Prev | Ctrl::Next => self,
        }
    }

    pub fn after(self, c: Ctrl) -> (r: PlayerState)
        ensures
            r == self.then_after(c),
    {
        match c {
            Ctrl::Shuffle => PlayerState {
                playing: self.playing,
                shuffle: !self.shuffle,
                repeat: self.repeat,
            },
            Ctrl::PlayPause => PlayerState {
                playing: !self.playing,
                shuffle: self.shuffle,
                repeat: self.repeat,
            },
            Ctrl::Repeat => PlayerState {
                playing: self.playing,
                shuffle: self.shuffle,
                repeat: self.repeat.cycle(),
            },
            Ctrl::Prev | Ctrl::Next => self,
        }
    }

    /// This state with what `c` controls taken from `o`.
    pub open spec fn with(self, c: Ctrl, o: PlayerState) -> PlayerState {
        match c {
            Ctrl::Shuffle => PlayerState { shuffle: o.shuffle, ..self },
            Ctrl::PlayPause => PlayerState { playing: o.playing, ..self },
            Ctrl::Repeat => PlayerState { repeat: o.repeat, ..self },
            Ctrl::Prev | Ctrl::Next => self,
        }
    }
}

/// The state that a touched button leads to, shown until the player reports it
/// or a while has passed.
#[derive(Debug, Clone, Copy)]
pub struct Pending {
    pub ctrl: Ctrl,
    pub expected: PlayerState,
    /// The end of the wait, in nanoseconds.
    pub until: u64,
}

impl Pending {
    pub fn new(ctrl: Ctrl, expected: PlayerState, now: u64) -> (r: Pending)
        requires
            now + PENDING_FOR <= u64::MAX,
        ensures
            r.ctrl == ctrl,
            r.expected == expected,
            r.until == now + PENDING_FOR,
    {
        Pending { ctrl, expected, until: now + PENDING_FOR }
    }

    /// The player has not reported the expected state, and may still do so.
    pub open spec fn waits(self, got: PlayerState, now: u64) -> bool {
        now < self.until && got.with(self.ctrl, self.expected) != got
    }

    /// Shows the expected state in `got` as long as the wait goes on, and says
    /// whether it does.
    pub fn overlay(&self, got: &mut PlayerState, now: u64) -> (r: bool)
        ensures
            r == self.waits(*old(got), now),
            *final(got) == if r {
                old(got).with(self.ctrl, self.expected)
            } else {
                *old(got)
            },
    {
        if now >= self.until {
            return false;
        }
        match self.ctrl {
            Ctrl::Shuffle => {
                if got.shuffle == self.expected.shuffle {
                    return false;
                }
                got.shuffle = self.expected.shuffle;
            },
            Ctrl::PlayPause => {
                if got.playing == self.expected.playing {
                    return false;
                }
                got.playing = self.expected.playing;
            },
            Ctrl::Repeat => {
                if got.repeat == self.expected.repeat {
                    return false;
                }
                got.repeat = self.expected.repeat;
            },
            Ctrl::Prev | Ctrl::Next => {
                return false;
            },
        }
        true
    }
}

/// Once the player reports the state that was asked for, the wait is over and
/// its report is shown as it is.
pub proof fn the_wait_ends_with_the_report(p: PlayerState, c: Ctrl, now: u64, until: u64)
    ensures
        !(Pending { ctrl: c, expected: p.then_after(c), until }).waits(p.then_after(c), now),
{
}

/// A touched toggle shows its new state at once, whatever the player still
/// reports, until the wait runs out.
pub proof fn a_touch_shows_at_once(p: PlayerState, c: Ctrl, got: PlayerState, now: u64, until: u64)
    requires
        c != Ctrl::Prev,
        c != Ctrl::Next,
        now < until,
    ensures
        ({
            let w = Pending { ctrl: c, expected: p.then_after(c), until };
            let shown = if w.waits(got, now) {
                got.with(c, w.expected)
            } else {
                got
            };
            shown == got.with(c, p.then_after(c))
        }),
{
}

/// Each button changes what it stands for and nothing else. A second touch on
/// shuffle or on play undoes the first, and the track buttons change nothing.
pub proof fn a_button_changes_its_own_setting(p: PlayerState, c: Ctrl)
    ensures
        p.then_after(c).shuffle != p.shuffle <==> c == Ctrl::Shuffle,
        p.then_after(c).playing != p.playing <==> c == Ctrl::PlayPause,
        p.then_after(c).repeat != p.repeat <==> c == Ctrl::Repeat,
        c == Ctrl::Shuffle || c == Ctrl::PlayPause ==> p.then_after(c).then_after(c) == p,
        c == Ctrl::Prev || c == Ctrl::Next ==> p.then_after(c) == p,
        c == Ctrl::Repeat && p.repeat == Loop::Off ==> p.then_after(c).repeat == Loop::Playlist,
        c == Ctrl::Repeat && p.repeat == Loop::Playlist ==> p.then_after(c).repeat == Loop::Track,
        c == Ctrl::Repeat && p.repeat == Loop::Track ==> p.then_after(c).repeat == Loop::Off,
{
}

/// What a button stands for is taken from one state, all else from the other.
pub proof fn a_button_takes_its_own_setting(p: PlayerState, c: Ctrl, o: PlayerState)
    ensures
        p.with(c, o).shuffle == if c == Ctrl::Shuffle {
            o.shuffle
        } else {
            p.shuffle
        },
        p.with(c, o).playing == if c == Ctrl::PlayPause {
            o.playing
        } else {
            p.playing
        },
        p.with(c, o).repeat == if c == Ctrl::Repeat {
            o.repeat
        } else {
            p.repeat
        },
{
}

/// A wait goes on as long as its time is not over and the player reports another
/// value for what the button stands for; for the track buttons there is none.
pub proof fn a_wait_is_for_one_setting(w: Pending, got: PlayerState, now: u64)
    ensures
        now >= w.until ==> !w.waits(got, now),
        now < w.until && w.ctrl == Ctrl::Shuffle ==> (w.waits(got, now) <==> got.shuffle
            != w.expected.shuffle),
        now < w.until && w.ctrl == Ctrl::PlayPause ==> (w.waits(got, now) <==> got.playing
            != w.expected.playing),
        now < w.until && w.ctrl == Ctrl::Repeat ==> (w.waits(got, now) <==> got.repeat
            != w.expected.repeat),
        w.ctrl == Ctrl::Prev || w.ctrl == Ctrl::Next ==> !w.waits(got, now),
{
}

/// The player's words: any that is none of them means that nothing repeats.
pub proof fn the_players_words_for_repeating(s: Seq<char>)
    ensures
        Loop::of_word(s) == Loop::Track <==> s == "Track"@,
        Loop::of_word(s) == Loop::Playlist <==> s == "Playlist"@,
        Loop::of_word("None"@) == Loop::Off,
        Loop::Off.word() == "None"@,
        Loop::Track.word() == "Track"@,
        Loop::Playlist.word() == "Playlist"@,
{
    words_read_back(Loop::Off);
    words_read_back(Loop::Track);
    words_read_back(Loop::Playlist);
}

/// From left to right the buttons are shuffle, back, play, forward and repeat.
pub proof fn the_row_of_buttons(i: int)
    requires
        0 <= i < 5,
    ensures
        Ctrl::at_place(i) == Ctrl::Shuffle <==> i == 0,
        Ctrl::at_place(i) == Ctrl::Prev <==> i == 1,
        Ctrl::at_place(i) == Ctrl::PlayPause <==> i == 2,
        Ctrl::at_place(i) == Ctrl::Next <==> i == 3,
        Ctrl::at_place(i) == Ctrl::Repeat <==> i == 4,
{
}

} // verus!
