//! The icons of the bar and what touching one does.

use crate::scan::same;
use crate::scan;
use crate::tmux::State;
use crate::tmux;
use vstd::prelude::*;
use vstd::string::StringExecFns;

verus! {

/// Icons in the row.
pub const ICON_COUNT: usize = 6;

pub struct IconDef {
    pub name: &'static str,
    /// The session that the icon stands for; none for the session switcher.
    pub session: Option<&'static str>,
    /// The file that holds the icon's picture.
    pub svg: &'static str,
}

/// The name of icon `i`.
pub open spec fn icon_name(i: int) -> Seq<char> {
    if i == 0 {
        "tmux"@
    } else if i == 1 {
        "shorts"@
    } else if i == 2 {
        "bluetooth"@
    } else if i == 3 {
        "ssbrowse"@
    } else if i == 4 {
        "eduroam"@
    } else {
        "calendar"@
    }
}

/// Icons are called like their sessions, except the first, which has none.
pub open spec fn icon_session(i: int) -> Option<Seq<char>> {
    if i == 0 {
        None
    } else {
        Some(icon_name(i))
    }
}

/// The file that holds the picture of icon `i`.
pub open spec fn icon_svg(i: int) -> Seq<char> {
    if i == 0 {
        "tmux.svg"@
    } else if i == 1 {
        "shorts.svg"@
    } else if i == 2 {
        "bluetooth.svg"@
    } else if i == 3 {
        "ssbrowse.svg"@
    } else if i == 4 {
        "eduroam.svg"@
    } else {
        "calendar.svg"@
    }
}

/// Icon `i` of the row.
pub fn icon(i: usize) -> (r: IconDef)
    requires
        i < ICON_COUNT,
    ensures
        r.name@ == icon_name(i as int),
        scan::opt_str(r.session) == icon_session(i as int),
        r.svg@ == icon_svg(i as int),
{
    match i {
        0 => IconDef { name: "tmux", session: None, svg: "tmux.svg" },
        1 => IconDef { name: "shorts", session: Some("shorts"), svg: "shorts.svg" },
        2 => IconDef { name: "bluetooth", session: Some("bluetooth"), svg: "bluetooth.svg" },
        3 => IconDef { name: "ssbrowse", session: Some("ssbrowse"), svg: "ssbrowse.svg" },
        4 => IconDef { name: "eduroam", session: Some("eduroam"), svg: "eduroam.svg" },
        _ => IconDef { name: "calendar", session: Some("calendar"), svg: "calendar.svg" },
    }
}

/// The player, which has a panel in place of an icon.
pub fn spotify() -> (r: IconDef)
    ensures
        r.name@ == "spotify"@,
        scan::opt_str(r.session) == Some("spotify"@),
        r.svg@ == "spotify.svg"@,
{
    IconDef { name: "spotify", session: Some("spotify"), svg: "spotify.svg" }
}

/// Whether a session belongs to an icon or to the player.
pub open spec fn is_named(session: Seq<char>) -> bool {
    ||| exists|i: int| 0 <= i < ICON_COUNT && #[trigger] icon_session(i) == Some(session)
    ||| session == "spotify"@
}

pub fn named(session: &str) -> (r: bool)
    ensures
        r == is_named(session@),
{
    for i in 0..ICON_COUNT
        invariant
            forall|j: int| 0 <= j < i ==> #[trigger] icon_session(j) != Some(session@),
    {
        let d = icon(i);
        match d.session {
            Some(s) => if same(s, session) {
                assert(icon_session(i as int) == Some(session@));
                return true;
            },
            None => {},
        }
    }
    same(session, "spotify")
}

/// The home directory: what the variable says, or the superuser's.
pub open spec fn home_of(var: Option<Seq<char>>) -> Seq<char> {
    match var {
        Some(h) => h,
        None => "/root"@,
    }
}

pub fn home(var: Option<&str>) -> (r: String)
    ensures
        r@ == home_of(scan::opt_str(var)),
{
    match var {
        Some(h) => h.to_owned(),
        None => "/root".to_owned(),
    }
}

/// The command that a new session runs.
pub open spec fn command_of(session: Seq<char>, home: Seq<char>) -> Option<Seq<char>> {
    if session == "spotify"@ {
        Some(home + "/ssd/tui/spotatui/target/release/spotatui"@)
    } else if session == "shorts"@ {
        Some(home + "/ssd/tools/dopagaki/target/release/dopagaki standalone"@)
    } else if session == "bluetooth"@ {
        Some("bluetoothctl"@)
    } else if session == "ssbrowse"@ {
        Some("cd "@ + home + "/ssd/ssbrowse && npm run browser:auto"@)
    } else if session == "eduroam"@ {
        Some("bash -ic eduroam"@)
    } else if session == "calendar"@ {
        Some(
            "cd "@ + home + "/ssd/tui/calendar-tui && "@ + home
                + "/ssd/tui/calendar-tui/target/release/calendar-tui"@,
        )
    } else {
        None
    }
}

/// The command that a new session runs.
pub fn session_command(session: &str, home: &str) -> (r: String)
    requires
        is_named(session@),
    ensures
        command_of(session@, home@) == Some(r@),
{
    if same(session, "spotify") {
        home.to_owned().concat("/ssd/tui/spotatui/target/release/spotatui")
    } else if same(session, "shorts") {
        home.to_owned().concat("/ssd/tools/dopagaki/target/release/dopagaki standalone")
    } else if same(session, "bluetooth") {
        "bluetoothctl".to_owned()
    } else if same(session, "ssbrowse") {
        "cd ".to_owned().concat(home).concat("/ssd/ssbrowse && npm run browser:auto")
    } else if same(session, "eduroam") {
        "bash -ic eduroam".to_owned()
    } else {
        "cd ".to_owned().concat(home).concat("/ssd/tui/calendar-tui && ").concat(home).concat(
            "/ssd/tui/calendar-tui/target/release/calendar-tui",
        )
    }
}

/// What touching an icon leads to.
pub enum Launch {
    /// Run a program in a new window of the session that is shown.
    Window { session: String, bin: String },
    /// Show a session, after making it run a command if there is none yet.
    Show { create: Option<String>, client: String, session: String },
}

/// Why touching an icon leads to nothing.
#[derive(Debug, Clone, Copy, PartialEq, Eq, Structural)]
pub enum LaunchError {
    /// There is no client on the console.
    NoClient,
    /// It is not known which session is shown.
    NoCurrent,
}

/// The program behind the first icon.
pub open spec fn switcher_of(home: Seq<char>) -> Seq<char> {
    home + "/ssd/tools/tmux-session/target/release/tmux-session"@
}

/// `r` is what touching the icon of `session` leads to: the switcher in a new
/// window, or the session itself, which is made first if it is not there.
pub open spec fn leads_to(
    session: Option<Seq<char>>,
    state: State,
    home: Seq<char>,
    r: Result<Launch, LaunchError>,
) -> bool {
    match r {
        Err(LaunchError::NoClient) => state.client is None,
        Err(LaunchError::NoCurrent) => state.client is Some && session is None && state.current
            is None,
        Ok(Launch::Window { session: target, bin }) => {
            &&& state.client is Some
            &&& session is None
            &&& scan::opt_text(state.current) == Some(target@)
            &&& bin@ == switcher_of(home)
        },
        Ok(Launch::Show { create, client, session: target }) => {
            &&& scan::opt_text(state.client) == Some(client@)
            &&& session == Some(target@)
            &&& scan::opt_text(create) == if state.knows(target@) {
                None
            } else {
                command_of(target@, home)
            }
            &&& create is None <==> state.knows(target@)
        },
    }
}

/// What touching the icon `def` leads to in the given state.
pub fn activate(def: &IconDef, state: &State, home: &str) -> (r: Result<Launch, LaunchError>)
    requires
        def.session matches Some(s) ==> is_named(s@) || state.knows(s@) || state.client is None,
    ensures
        leads_to(scan::opt_str(def.session), *state, home@, r),
{
    let client = match &state.client {
        Some(c) => c.clone(),
        None => return Err(LaunchError::NoClient),
    };
    match def.session {
        None => match &state.current {
            Some(cur) => Ok(
                Launch::Window {
                    session: cur.clone(),
                    bin: home.to_owned().concat(
                        "/ssd/tools/tmux-session/target/release/tmux-session",
                    ),
                },
            ),
            None => Err(LaunchError::NoCurrent),
        },
        Some(session) => {
            let create = if state.has_session(session) {
                None
            } else {
                Some(session_command(session, home))
            };
            Ok(Launch::Show { create, client, session: session.to_owned() })
        },
    }
}

/// Six sessions are named: those of the five icons beside the switcher, and the
/// player's.
pub proof fn the_named_are_six(session: Seq<char>)
    ensures
        is_named(session) <==> {
            ||| session == "spotify"@
            ||| session == "shorts"@
            ||| session == "bluetooth"@
            ||| session == "ssbrowse"@
            ||| session == "eduroam"@
            ||| session == "calendar"@
        },
{
    assert(icon_session(1) == Some("shorts"@));
    assert(icon_session(2) == Some("bluetooth"@));
    assert(icon_session(3) == Some("ssbrowse"@));
    assert(icon_session(4) == Some("eduroam"@));
    assert(icon_session(5) == Some("calendar"@));
}

/// Without a client touching leads to nothing. With one, the switcher opens in
/// the session that is shown, if it is known which.
pub proof fn the_switcher_opens_where_the_client_is(
    state: State,
    home: Seq<char>,
    r: Result<Launch, LaunchError>,
)
    requires
        leads_to(None, state, home, r),
    ensures
        state.client is None <==> r matches Err(LaunchError::NoClient),
        state.client is Some && state.current is None <==> r matches Err(LaunchError::NoCurrent),
        state.client is Some && state.current is Some ==> (match r {
            Ok(Launch::Window { session, bin }) => {
                &&& session@ == state.current->0@
                &&& bin@ == home + "/ssd/tools/tmux-session/target/release/tmux-session"@
            },
            _ => false,
        }),
{
}

/// The icon of a session leads the client to that session and no other, which is
/// made first exactly if it is not among those that exist.
pub proof fn an_icon_leads_to_its_session(
    s: Seq<char>,
    state: State,
    home: Seq<char>,
    r: Result<Launch, LaunchError>,
)
    requires
        leads_to(Some(s), state, home, r),
    ensures
        state.client is None <==> r matches Err(LaunchError::NoClient),
        state.client is Some ==> (match r {
            Ok(Launch::Show { create, client, session }) => {
                &&& client@ == state.client->0@
                &&& session@ == s
                &&& create is None <==> exists|i: int|
                    0 <= i < state.existing@.len() && (#[trigger] state.existing@[i])@ == s
            },
            _ => false,
        }),
{
    tmux::known_sessions_are_those_that_exist(state, s);
}

/// Each named session has a command of its own, and no other session has one.
pub proof fn named_sessions_run_their_own_commands(session: Seq<char>, home: Seq<char>)
    ensures
        command_of(session, home) is Some <==> is_named(session),
        session == "spotify"@ ==> command_of(session, home) == Some(
            home + "/ssd/tui/spotatui/target/release/spotatui"@,
        ),
        session == "shorts"@ ==> command_of(session, home) == Some(
            home + "/ssd/tools/dopagaki/target/release/dopagaki standalone"@,
        ),
        session == "bluetooth"@ ==> command_of(session, home) == Some("bluetoothctl"@),
        session == "ssbrowse"@ ==> command_of(session, home) == Some(
            "cd "@ + home + "/ssd/ssbrowse && npm run browser:auto"@,
        ),
        session == "eduroam"@ ==> command_of(session, home) == Some("bash -ic eduroam"@),
        session == "calendar"@ ==> command_of(session, home) == Some(
            "cd "@ + home + "/ssd/tui/calendar-tui && "@ + home
                + "/ssd/tui/calendar-tui/target/release/calendar-tui"@,
        ),
{
    the_named_are_six(session);
    lemma_names_differ();
}

proof fn lemma_names_differ()
    ensures
        "spotify"@ != "shorts"@,
        "spotify"@ != "bluetooth"@,
        "spotify"@ != "ssbrowse"@,
        "spotify"@ != "eduroam"@,
        "spotify"@ != "calendar"@,
        "shorts"@ != "bluetooth"@,
        "shorts"@ != "ssbrowse"@,
        "shorts"@ != "eduroam"@,
        "shorts"@ != "calendar"@,
        "bluetooth"@ != "ssbrowse"@,
        "bluetooth"@ != "eduroam"@,
        "bluetooth"@ != "calendar"@,
        "ssbrowse"@ != "eduroam"@,
        "ssbrowse"@ != "calendar"@,
        "eduroam"@ != "calendar"@,
{
    reveal_strlit("spotify");
    reveal_strlit("shorts");
    reveal_strlit("bluetooth");
    reveal_strlit("ssbrowse");
    reveal_strlit("eduroam");
    reveal_strlit("calendar");
    assert("spotify"@.len() == 7 && "shorts"@.len() == 6 && "bluetooth"@.len() == 9
        && "ssbrowse"@.len() == 8 && "eduroam"@.len() == 7 && "calendar"@.len() == 8);
    assert("spotify"@[0] == 's' && "eduroam"@[0] == 'e');
    assert("ssbrowse"@[0] == 's' && "calendar"@[0] == 'c');
}

/// No two icons stand for the same session, and none but the first stands for
/// none. Each is called like its session, and so is its picture.
pub proof fn icons_differ(i: int, j: int)
    requires
        0 <= i < j < ICON_COUNT,
    ensures
        icon_session(i) != icon_session(j),
        icon_session(j) == Some(icon_name(j)),
        icon_session(0) is None,
        icon_name(i) != icon_name(j),
        icon_svg(i) == icon_name(i) + ".svg"@,
        icon_svg(j) == icon_name(j) + ".svg"@,
{
    lemma_names_differ();
    reveal_strlit("tmux");
    reveal_strlit("shorts");
    reveal_strlit("bluetooth");
    reveal_strlit("ssbrowse");
    reveal_strlit("eduroam");
    reveal_strlit("calendar");
    reveal_strlit("tmux.svg");
    reveal_strlit("shorts.svg");
    reveal_strlit("bluetooth.svg");
    reveal_strlit("ssbrowse.svg");
    reveal_strlit("eduroam.svg");
    reveal_strlit("calendar.svg");
    reveal_strlit(".svg");
    assert("tmux"@.len() == 4 && "shorts"@.len() == 6 && "bluetooth"@.len() == 9
        && "ssbrowse"@.len() == 8 && "eduroam"@.len() == 7 && "calendar"@.len() == 8);
    assert("tmux.svg"@ =~= "tmux"@ + ".svg"@);
    assert("shorts.svg"@ =~= "shorts"@ + ".svg"@);
    assert("bluetooth.svg"@ =~= "bluetooth"@ + ".svg"@);
    assert("ssbrowse.svg"@ =~= "ssbrowse"@ + ".svg"@);
    assert("eduroam.svg"@ =~= "eduroam"@ + ".svg"@);
    assert("calendar.svg"@ =~= "calendar"@ + ".svg"@);
}

/// Where the variable names a home directory, that is it.
pub proof fn home_is_what_the_variable_says(h: Seq<char>)
    ensures
        home_of(Some(h)) == h,
        home_of(None) == "/root"@,
{
}

} // verus!
