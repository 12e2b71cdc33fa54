//! What a tap leads to.

use crate::actions;
use crate::actions::{activate, icon, spotify, Launch, LaunchError, ICON_COUNT};
use crate::bar::Hit;
use crate::clawd;
use crate::clawd::{Model, Row};
use crate::mpris;
use crate::player::PENDING_FOR;
use crate::playing::Np;
use crate::scan;
use crate::tmux::{goto_pane, State};
use vstd::prelude::*;

verus! {

/// What is to be done outside after a tap.
pub enum Tapped {
    Nothing,
    /// Open what an icon stands for, or say why that cannot be.
    Launch(Result<Launch, LaunchError>),
    /// Ask the player.
    Player(Vec<String>),
    /// Lead the client to a pane, by these commands.
    Pane(Vec<Vec<String>>),
}

/// The commands that lead a client to a pane.
pub open spec fn to_pane(client: Seq<char>, pane: Seq<char>) -> Seq<Seq<Seq<char>>> {
    seq![
        seq!["switch-client"@, "-c"@, client, "-t"@, pane],
        seq!["select-window"@, "-t"@, pane],
        seq!["select-pane"@, "-t"@, pane],
    ]
}

/// `r` is what a tap on `hit` leads to.
pub open spec fn tap_leads_to(
    hit: Option<Hit>,
    state: State,
    home: Seq<char>,
    np: Np,
    rows: Seq<Row>,
    r: Tapped,
) -> bool {
    match hit {
        None => r is Nothing,
        Some(Hit::Icon(i)) => r matches Tapped::Launch(l) && actions::leads_to(
            actions::icon_session(i as int),
            state,
            home,
            l,
        ),
        Some(Hit::Panel) => r matches Tapped::Launch(l) && actions::leads_to(
            Some("spotify"@),
            state,
            home,
            l,
        ),
        Some(Hit::Ctrl(c)) => match np.player {
            Some(p) => r matches Tapped::Player(args) && scan::texts(args@)
                == mpris::button_words(c, p),
            None => r is Nothing,
        },
        Some(Hit::Clawd(i)) => match state.client {
            Some(client) => r matches Tapped::Pane(v) && v@.map_values(
                |c: Vec<String>| scan::texts(c@),
            ) == to_pane(client@, rows[i as int].pane@),
            None => r is Nothing,
        },
    }
}

/// Acts on a tap. A tap on an assistant takes note of what it has finished; a
/// tap on a button shows at once what it leads to.
pub fn on_tap(
    hit: Option<Hit>,
    state: &State,
    home: &str,
    np: &mut Np,
    model: &mut Model,
    rows: &[Row],
    now: u64,
) -> (r: Tapped)
    requires
        old(model).wf(),
        now + PENDING_FOR <= u64::MAX,
        hit matches Some(Hit::Icon(i)) ==> i < ICON_COUNT,
        hit matches Some(Hit::Clawd(i)) ==> i < rows@.len(),
    ensures
        tap_leads_to(hit, *state, home@, *old(np), rows@, r),
        final(model).wf(),
        final(model)@ == match hit {
            Some(Hit::Clawd(i)) => clawd::applied(
                old(model)@,
                "seen"@,
                rows@[i as int].pane@,
                Seq::empty(),
            ),
            _ => old(model)@,
        },
        match (hit, old(np).player) {
            (Some(Hit::Ctrl(c)), Some(p)) => {
                &&& final(np).player == Some(p.then_after(c))
                &&& final(np).pending is Some
                &&& final(np).pending->0.ctrl == c
                &&& final(np).pending->0.expected == p.then_after(c)
                &&& final(np).pending->0.until == now + PENDING_FOR
                &&& final(np).now == old(np).now
                &&& final(np).art == old(np).art
            },
            _ => *final(np) == *old(np),
        },
{
    match hit {
        Some(Hit::Icon(i)) => {
            let def = icon(i);
            proof {
                if i > 0 {
                    assert(actions::icon_session(i as int) is Some);
                }
            }
            Tapped::Launch(activate(&def, state, home))
        },
        Some(Hit::Panel) => Tapped::Launch(activate(&spotify(), state, home)),
        Some(Hit::Ctrl(c)) => {
            match np.touch(c, now) {
                Some(args) => Tapped::Player(args),
                None => Tapped::Nothing,
            }
        },
        Some(Hit::Clawd(i)) => {
            let pane = rows[i].pane.as_str();
            model.apply("seen", pane, None);
            match &state.client {
                Some(client) => Tapped::Pane(goto_pane(client.as_str(), pane)),
                None => Tapped::Nothing,
            }
        },
        None => Tapped::Nothing,
    }
}

/// A tap beside everything does nothing. A tap on the panel opens the player's
/// session, a tap on an icon that of the icon, or the switcher.
pub proof fn a_tap_opens_what_is_under_the_finger(
    i: usize,
    state: State,
    home: Seq<char>,
    np: Np,
    rows: Seq<Row>,
    r: Tapped,
)
    requires
        i < ICON_COUNT,
    ensures
        tap_leads_to(None, state, home, np, rows, r) ==> r is Nothing,
        tap_leads_to(Some(Hit::Panel), state, home, np, rows, r) && state.client is Some ==> (
        match r {
            Tapped::Launch(Ok(Launch::Show { session, client, .. })) => session@ == "spotify"@
                && client@ == state.client->0@,
            _ => false,
        }),
        tap_leads_to(Some(Hit::Icon(i)), state, home, np, rows, r) && state.client is Some && i
            > 0 ==> (match r {
            Tapped::Launch(Ok(Launch::Show { session, client, .. })) => session@
                == actions::icon_name(i as int) && client@ == state.client->0@,
            _ => false,
        }),
        tap_leads_to(Some(Hit::Icon(0)), state, home, np, rows, r) && state.client is Some
            && state.current is Some ==> (match r {
            Tapped::Launch(Ok(Launch::Window { session, .. })) => session@ == state.current->0@,
            _ => false,
        }),
{
}

/// A tap on an assistant leads the client to its pane: first the session, then
/// the window, then the pane. Without a client it leads nowhere.
pub proof fn a_tap_on_an_assistant_leads_to_its_pane(
    i: usize,
    state: State,
    home: Seq<char>,
    np: Np,
    rows: Seq<Row>,
    r: Tapped,
)
    requires
        i < rows.len(),
        tap_leads_to(Some(Hit::Clawd(i)), state, home, np, rows, r),
    ensures
        state.client is None ==> r is Nothing,
        state.client is Some ==> (match r {
            Tapped::Pane(v) => {
                let pane = rows[i as int].pane@;
                &&& v@.len() == 3
                &&& scan::texts(v@[0]@) == seq![
                    "switch-client"@,
                    "-c"@,
                    state.client->0@,
                    "-t"@,
                    pane,
                ]
                &&& scan::texts(v@[1]@) == seq!["select-window"@, "-t"@, pane]
                &&& scan::texts(v@[2]@) == seq!["select-pane"@, "-t"@, pane]
            },
            _ => false,
        }),
{
    if state.client is Some {
        match r {
            Tapped::Pane(v) => {
                let all = v@.map_values(|c: Vec<String>| scan::texts(c@));
                let want = to_pane(state.client->0@, rows[i as int].pane@);
                assert(all == want);
                assert(all.len() == 3 && v@.len() == 3);
                assert(all[0] == want[0] && all[1] == want[1] && all[2] == want[2]);
            },
            _ => {},
        }
    }
}

/// A tap on a button asks the player, by the words for that button and the state
/// that is shown. Without a player it asks nobody.
pub proof fn a_tap_on_a_button_asks_the_player(
    c: crate::player::Ctrl,
    state: State,
    home: Seq<char>,
    np: Np,
    rows: Seq<Row>,
    r: Tapped,
)
    requires
        tap_leads_to(Some(Hit::Ctrl(c)), state, home, np, rows, r),
    ensures
        np.player is None <==> r is Nothing,
        np.player is Some ==> (match r {
            Tapped::Player(args) => scan::texts(args@) == mpris::button_words(c, np.player->0),
            _ => false,
        }),
{
}

} // verus!
