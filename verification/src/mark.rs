//! The line below an icon, which tells whether its session is shown or open.

use crate::actions::{named, IconDef};
use crate::actions;
use crate::scan::same;
use crate::scan;
use crate::tmux::State;
use crate::tmux;
use vstd::prelude::*;

verus! {

/// The length of a line below the icon of a session that is shown, in percent
/// of the icon's diameter.
pub const MARK_PCT: u32 = 50;

/// That of a session that is open and not shown.
pub const MARK_OPEN_PCT: u32 = 25;

pub const BLUE: [u8; 3] = [255, 144, 30];

pub const GRAY: [u8; 3] = [128, 128, 128];

#[derive(Debug, Clone, Copy, PartialEq, Eq, Structural)]
pub enum Mark {
    /// The session is shown.
    Active,
    /// The session is open and not shown.
    Open,
    /// There is no such session.
    Absent,
}

impl Mark {
    /// The line's colour, and its length in percent of the icon's diameter.
    pub open spec fn look(self) -> Option<([u8; 3], u32)> {
        match self {
            Mark::Active => Some((BLUE, MARK_PCT)),
            Mark::Open => Some((GRAY, MARK_OPEN_PCT)),
            Mark::Absent => None,
        }
    }

    pub fn style(self) -> (r: Option<([u8; 3], u32)>)
        ensures
            r == self.look(),
    {
        match self {
            Mark::Active => Some((BLUE, MARK_PCT)),
            Mark::Open => Some((GRAY, MARK_OPEN_PCT)),
            Mark::Absent => None,
        }
    }
}

/// The mark of an icon. That of the session switcher is active while a session
/// without an icon of its own is shown, and open otherwise.
pub open spec fn mark_of(session: Option<Seq<char>>, state: State) -> Mark {
    match session {
        Some(s) => if scan::opt_text(state.current) == Some(s) {
            Mark::Active
        } else if state.knows(s) {
            Mark::Open
        } else {
            Mark::Absent
        },
        None => match state.current {
            Some(cur) => if actions::is_named(cur@) {
                Mark::Open
            } else {
                Mark::Active
            },
            None => Mark::Open,
        },
    }
}

pub fn mark(def: &IconDef, state: &State) -> (r: Mark)
    ensures
        r == mark_of(scan::opt_str(def.session), *state),
{
    match def.session {
        Some(s) => {
            let shown = match &state.current {
                Some(cur) => same(cur.as_str(), s),
                None => false,
            };
            if shown {
                Mark::Active
            } else if state.has_session(s) {
                Mark::Open
            } else {
                Mark::Absent
            }
        },
        None => match &state.current {
            Some(cur) => if named(cur.as_str()) {
                Mark::Open
            } else {
                Mark::Active
            },
            None => Mark::Open,
        },
    }
}

/// The line below the session switcher never vanishes.
pub proof fn switcher_is_always_marked(state: State)
    ensures
        mark_of(None, state) != Mark::Absent,
{
}

/// A session without a line is neither shown nor open.
pub proof fn no_mark_means_no_session(s: Seq<char>, state: State)
    requires
        mark_of(Some(s), state) == Mark::Absent,
    ensures
        !state.knows(s),
        scan::opt_text(state.current) != Some(s),
{
}

/// While any session is shown, one icon at most is marked as active, since
/// icons stand for different sessions.
pub proof fn one_active_mark(i: int, j: int, state: State)
    requires
        0 <= i < actions::ICON_COUNT,
        0 <= j < actions::ICON_COUNT,
        mark_of(actions::icon_session(i), state) == Mark::Active,
        mark_of(actions::icon_session(j), state) == Mark::Active,
    ensures
        i == j,
{
    reveal_strlit("shorts");
    reveal_strlit("bluetooth");
    reveal_strlit("ssbrowse");
    reveal_strlit("eduroam");
    reveal_strlit("calendar");
    assert("shorts"@.len() == 6 && "bluetooth"@.len() == 9 && "ssbrowse"@.len() == 8
        && "eduroam"@.len() == 7 && "calendar"@.len() == 8);
    assert("ssbrowse"@[0] == 's' && "calendar"@[0] == 'c');
}

/// The icon of a session is marked as active exactly while the session is shown,
/// as open exactly while it exists and is not shown, and has no mark exactly if
/// it is neither shown nor among those that exist.
pub proof fn a_mark_tells_shown_from_open(s: Seq<char>, state: State)
    ensures
        ({
            let shown = match state.current {
                Some(cur) => cur@ == s,
                None => false,
            };
            let there = exists|i: int|
                0 <= i < state.existing@.len() && (#[trigger] state.existing@[i])@ == s;
            &&& mark_of(Some(s), state) == Mark::Active <==> shown
            &&& mark_of(Some(s), state) == Mark::Open <==> there && !shown
            &&& mark_of(Some(s), state) == Mark::Absent <==> !there && !shown
        }),
{
    tmux::known_sessions_are_those_that_exist(state, s);
}

/// The switcher is marked as active exactly while a session is shown that has no
/// icon of its own.
pub proof fn the_switcher_stands_for_the_others(state: State)
    ensures
        ({
            let without_icon = match state.current {
                Some(cur) => {
                    &&& cur@ != "spotify"@
                    &&& cur@ != "shorts"@
                    &&& cur@ != "bluetooth"@
                    &&& cur@ != "ssbrowse"@
                    &&& cur@ != "eduroam"@
                    &&& cur@ != "calendar"@
                },
                None => false,
            };
            &&& mark_of(None, state) == Mark::Active <==> without_icon
            &&& mark_of(None, state) == Mark::Open <==> !without_icon
        }),
{
    match state.current {
        Some(cur) => {
            actions::the_named_are_six(cur@);
        },
        None => {},
    }
}

/// An active line is half as long as the icon is wide and blue, an open one half
/// of that and gray, and where there is no session there is no line.
pub proof fn lines_look_as_their_marks(m: Mark)
    ensures
        m.look() is None <==> m == Mark::Absent,
        m.look() matches Some((color, pct)) ==> (if m == Mark::Active {
            pct * 2 == 100 && color[0] > color[1] > color[2]
        } else {
            pct * 4 == 100 && color[0] == color[1] == color[2]
        }),
{
}

} // verus!
