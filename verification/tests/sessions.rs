use task_var::actions::{activate, home, icon, named, session_command, spotify, Launch, LaunchError};
use task_var::actions::ICON_COUNT;
use task_var::mark::{mark, Mark, BLUE, GRAY};
use task_var::tmux;
use task_var::tmux::State;

fn state(current: &str, existing: &[&str]) -> State {
    State {
        client: Some("/dev/tty1".into()),
        current: Some(current.into()),
        existing: existing.iter().map(|s| s.to_string()).collect(),
        first_session: existing.first().map(|s| s.to_string()),
    }
}

#[test]
fn marks_follow_session_state() {
    let st = state("bluetooth", &["bluetooth", "shorts"]);
    assert_eq!(mark(&icon(2), &st), Mark::Active, "shown");
    assert_eq!(mark(&icon(1), &st), Mark::Open, "open and not shown");
    assert_eq!(mark(&icon(3), &st), Mark::Absent, "no session");
    assert_eq!(mark(&icon(0), &st), Mark::Open, "a named session is shown");
    let sp = state("spotify", &["spotify"]);
    assert_eq!(mark(&icon(0), &sp), Mark::Open, "the player's session is named too");
    let st2 = state("main", &["main", "spotify"]);
    assert_eq!(mark(&icon(0), &st2), Mark::Active, "a session without an icon is shown");
    for cur in ["main", "spotify", "bluetooth"] {
        assert_ne!(mark(&icon(0), &state(cur, &[cur])), Mark::Absent, "the switcher's mark is gone");
    }
}

#[test]
fn marks_have_a_colour_and_a_length() {
    assert_eq!(Mark::Active.style(), Some((BLUE, 50)));
    assert_eq!(Mark::Open.style(), Some((GRAY, 25)));
    assert_eq!(Mark::Absent.style(), None);
}

#[test]
fn icons_stand_for_sessions() {
    let names: Vec<&str> = (0..ICON_COUNT).map(|i| icon(i).name).collect();
    assert_eq!(names, ["tmux", "shorts", "bluetooth", "ssbrowse", "eduroam", "calendar"]);
    assert_eq!(icon(0).session, None);
    assert_eq!(icon(5).session, Some("calendar"));
    assert_eq!(spotify().session, Some("spotify"));
    assert_eq!(icon(1).svg, "shorts.svg");
    assert!(named("eduroam") && named("spotify"));
    assert!(!named("tmux") && !named("main"));
}

#[test]
fn sessions_have_commands() {
    assert_eq!(home(Some("/home/me")), "/home/me");
    assert_eq!(home(None), "/root");
    assert_eq!(session_command("bluetooth", "/h"), "bluetoothctl");
    assert_eq!(session_command("eduroam", "/h"), "bash -ic eduroam");
    assert_eq!(session_command("spotify", "/h"), "/h/ssd/tui/spotatui/target/release/spotatui");
    assert_eq!(
        session_command("shorts", "/h"),
        "/h/ssd/tools/dopagaki/target/release/dopagaki standalone"
    );
    assert_eq!(session_command("ssbrowse", "/h"), "cd /h/ssd/ssbrowse && npm run browser:auto");
    assert_eq!(
        session_command("calendar", "/h"),
        "cd /h/ssd/tui/calendar-tui && /h/ssd/tui/calendar-tui/target/release/calendar-tui"
    );
}

#[test]
fn touching_an_icon_shows_or_makes_its_session() {
    let st = state("main", &["main", "shorts"]);
    match activate(&icon(1), &st, "/h") {
        Ok(Launch::Show { create: None, client, session }) => {
            assert_eq!((client.as_str(), session.as_str()), ("/dev/tty1", "shorts"));
        }
        _ => panic!("the session is there"),
    }
    match activate(&icon(2), &st, "/h") {
        Ok(Launch::Show { create: Some(cmd), session, .. }) => {
            assert_eq!((cmd.as_str(), session.as_str()), ("bluetoothctl", "bluetooth"));
        }
        _ => panic!("the session has to be made"),
    }
    match activate(&icon(0), &st, "/h") {
        Ok(Launch::Window { session, bin }) => {
            assert_eq!(session, "main");
            assert_eq!(bin, "/h/ssd/tools/tmux-session/target/release/tmux-session");
        }
        _ => panic!("the switcher opens a window"),
    }
}

#[test]
fn touching_an_icon_may_lead_to_nothing() {
    let mut st = state("main", &["main"]);
    st.current = None;
    assert!(matches!(activate(&icon(0), &st, "/h"), Err(LaunchError::NoCurrent)));
    st.client = None;
    assert!(matches!(activate(&icon(0), &st, "/h"), Err(LaunchError::NoClient)));
    assert!(matches!(activate(&icon(1), &st, "/h"), Err(LaunchError::NoClient)));
}

#[test]
fn sessions_are_read_oldest_first() {
    let st = State::poll(
        Some("30 c\n10 b one\nbad line\nx y\n10 a\n"),
        Some("/dev/pts/1\txterm\tmain\n/dev/tty1\tfbterm-256\tb one\nbroken\tline\n"),
    );
    assert_eq!(st.existing, ["b one", "a", "c"]);
    assert_eq!(st.first_session.as_deref(), Some("b one"));
    assert_eq!(st.client.as_deref(), Some("/dev/tty1"));
    assert_eq!(st.current.as_deref(), Some("b one"));
    assert!(st.has_session("c") && !st.has_session("b"));
}

#[test]
fn without_a_server_there_is_nothing() {
    let st = State::poll(None, None);
    assert!(st.existing.is_empty());
    assert_eq!((st.first_session, st.client, st.current), (None, None, None));
}

#[test]
fn the_only_client_is_the_console() {
    let one = tmux::fbterm_client(Some("/dev/pts/1\txterm\tmain\n"));
    assert_eq!(one, Some(("/dev/pts/1".to_string(), "main".to_string())));
    let two = tmux::fbterm_client(Some("/dev/pts/1\txterm\tmain\n/dev/pts/2\txterm\tb\n"));
    assert_eq!(two, None);
    let linux = tmux::fbterm_client(Some("a\txterm\tm\nb\tlinux\tn\nc\tfbterm\to\n"));
    assert_eq!(linux, Some(("b".to_string(), "n".to_string())));
}

#[test]
fn a_client_falls_back_to_the_oldest_session() {
    let before = state("shorts", &["main", "shorts"]);
    let gone = state("other", &["main", "other"]);
    assert_eq!(
        tmux::fallback(&before, &gone),
        Some(("/dev/tty1".to_string(), "main".to_string()))
    );
    assert_eq!(tmux::fallback(&before, &before), None, "the session is still there");
    assert_eq!(tmux::fallback(&before, &state("main", &["main"])), None, "it is there already");
    let odd = state("ghost", &["main"]);
    assert_eq!(tmux::fallback(&odd, &gone), None, "it was not there before");
}

#[test]
fn panes_are_read_from_tabs() {
    let v = tmux::panes(Some("%1\t✳ work on it\t/home/me\n\t\t\n%2\n %3 \ta\tb\tc \n")).unwrap();
    let got: Vec<(&str, &str, &str)> =
        v.iter().map(|p| (p.id.as_str(), p.title.as_str(), p.cwd.as_str())).collect();
    assert_eq!(got, [("%1", "✳ work on it", "/home/me"), ("%2", "", ""), ("%3", "a", "b\tc")]);
    assert!(tmux::panes(None).is_none());
    assert_eq!(tmux::pane_info(Some("%7\tt\t/x\nmore")).unwrap().cwd, "/x");
    assert!(tmux::pane_info(Some("")).is_none());
}

#[test]
fn a_server_runs_unless_it_says_otherwise() {
    assert!(tmux::server_running(Some("")));
    assert!(tmux::server_running(Some("no current session")));
    assert!(!tmux::server_running(Some("no server running on /tmp/tmux-0/default")));
    assert!(!tmux::server_running(Some("error connecting to /tmp/x (No such file)")));
    assert!(!tmux::server_running(None));
}

#[test]
fn commands_for_tmux() {
    assert_eq!(tmux::switch("c", "s"), ["switch-client", "-c", "c", "-t", "s"]);
    assert_eq!(tmux::new_window("4", "x y"), ["new-window", "-t", "4:", "x y"]);
    let (a, b) = tmux::new_session("n", "cmd");
    assert_eq!(a, ["new-session", "-d", "-s", "n", "cmd"]);
    assert_eq!(b, ["set-option", "-t", "n", "detach-on-destroy", "off"]);
    let v = tmux::goto_pane("c", "%1");
    assert_eq!(v[0], ["switch-client", "-c", "c", "-t", "%1"]);
    assert_eq!(v[1], ["select-window", "-t", "%1"]);
    assert_eq!(v[2], ["select-pane", "-t", "%1"]);
    assert_eq!(v.len(), 3);
    assert_eq!(tmux::list_sessions(), ["list-sessions", "-F", "#{session_created} #{session_name}"]);
    assert_eq!(
        tmux::list_clients(),
        ["list-clients", "-F", "#{client_name}\t#{client_termname}\t#{client_session}"]
    );
    let f = "#{pane_id}\t#{pane_title}\t#{pane_current_path}";
    assert_eq!(tmux::show_pane("%1"), ["display", "-p", "-t", "%1", f]);
    assert_eq!(tmux::list_panes(), ["list-panes", "-a", "-F", f]);
}
