use serde_json::Value;
use std::time::{SystemTime, UNIX_EPOCH};
use task_var::art::{fetch_args, newest, Accent, Art, Fetched};
use task_var::mpris::{
    activate, bus_address, data, join_names, now_playing, player, poll, poll_args, track, Snapshot,
};
use task_var::np::NowPlaying;
use task_var::player::{Ctrl, Loop, Pending, PlayerState, PENDING_FOR};
use task_var::playing::Np;

fn np(progress_ms: u64, written_at_ms: u64, is_playing: bool) -> NowPlaying {
    NowPlaying {
        track: "t".into(),
        artist: "a".into(),
        art_url: None,
        progress_ms,
        duration_ms: 200_000,
        written_at_ms,
        is_playing,
    }
}

fn now_ms() -> u64 {
    SystemTime::now().duration_since(UNIX_EPOCH).unwrap().as_millis() as u64
}

fn ratio(n: &NowPlaying) -> f32 {
    if n.duration_ms == 0 {
        return 0.0;
    }
    n.position(now_ms()) as f32 / n.duration_ms as f32
}

#[test]
fn progress_is_interpolated_only_while_playing() {
    let playing = np(50_000, now_ms() - 10_000, true);
    let r = ratio(&playing) * 200_000.0;
    assert!((59_000.0..=61_000.0).contains(&r), "it should have moved on: {r}");

    let paused = np(50_000, now_ms() - 10_000, false);
    assert!((ratio(&paused) * 200_000.0 - 50_000.0).abs() < 1.0);
}

#[test]
fn progress_is_clamped_and_safe_without_duration() {
    let stale = np(190_000, now_ms() - 600_000, true);
    assert_eq!(ratio(&stale), 1.0);

    let mut zero = np(0, now_ms(), true);
    zero.duration_ms = 0;
    assert_eq!(ratio(&zero), 0.0);
    assert_eq!(zero.position(now_ms()), 0);
}

#[test]
fn freshness_follows_written_at() {
    assert!(np(0, now_ms() - 2_000, true).is_fresh(now_ms()), "two seconds ago");
    assert!(!np(0, now_ms() - 60_000, true).is_fresh(now_ms()), "a minute ago");
    assert!(!np(0, 0, true).is_fresh(now_ms()), "nobody knows when");
}

#[test]
fn freshness_ends_after_fifteen_seconds() {
    assert!(np(0, 1, true).is_fresh(15_001));
    assert!(!np(0, 1, true).is_fresh(15_002));
    assert!(np(0, 5, true).is_fresh(1), "a clock that was set back");
}

#[test]
fn a_position_never_overflows() {
    let mut n = np(u64::MAX, 1, true);
    assert_eq!(n.position(u64::MAX), 200_000);
    n.progress_ms = 10;
    n.written_at_ms = 100;
    assert_eq!(n.position(150), 60);
    assert_eq!(n.position(50), 10);
}

#[test]
fn loop_cycles_off_playlist_track() {
    assert_eq!(Loop::Off.cycle(), Loop::Playlist);
    assert_eq!(Loop::Playlist.cycle(), Loop::Track);
    assert_eq!(Loop::Track.cycle(), Loop::Off);
    for l in [Loop::Off, Loop::Track, Loop::Playlist] {
        assert_eq!(Loop::parse(l.as_str()), l);
    }
}

#[test]
fn builds_now_playing_from_mpris_metadata() {
    let meta = r#"{"mpris:artUrl":{"type":"s","data":"https://i.scdn.co/image/abc"},
                "mpris:length":{"type":"x","data":141285000},
                "xesam:album":{"type":"s","data":"WhyKiiiKiii"},
                "xesam:artist":{"type":"as","data":["KiiiKiii","NCT 127"]},
                "xesam:title":{"type":"s","data":"Pop Off Pop Off"}}"#;
    let np = now_playing(meta, 57_876_000, true, 5).unwrap();
    assert_eq!(np.track, "Pop Off Pop Off");
    assert_eq!(np.artist, "KiiiKiii, NCT 127", "several artists are joined");
    assert_eq!(np.art_url.as_deref(), Some("https://i.scdn.co/image/abc"));
    assert_eq!(np.progress_ms, 57_876);
    assert_eq!(np.duration_ms, 141_285);
    assert!(np.is_playing);
    assert_eq!(np.written_at_ms, 5);

    let empty = Value::Object(Default::default()).to_string();
    assert!(now_playing(&empty, 0, false, 5).is_none());
}

#[test]
fn unwraps_busctl_json_lines() {
    let value = |line: &str| data(line).map(|t| serde_json::from_str::<Value>(&t).unwrap());
    assert_eq!(value(r#"{"type":"s","data":"Playing"}"#), Some(Value::from("Playing")));
    assert_eq!(value(r#"{"type":"b","data":true}"#), Some(Value::from(true)));
    assert_eq!(value("not json"), None);
}

#[test]
fn an_artist_may_be_a_single_name_or_missing() {
    let meta = |artist: &str| {
        format!(r#"{{"xesam:title":{{"data":"t"}},"xesam:artist":{{"data":{artist}}}}}"#)
    };
    let of = |artist: &str| now_playing(&meta(artist), 0, false, 0).unwrap().artist;
    assert_eq!(of(r#""solo""#), "solo");
    assert_eq!(of(r#"["a",1,"b"]"#), "a, b");
    assert_eq!(of(r#"[1,"a"]"#), "a");
    assert_eq!(of("7"), "");
    assert_eq!(of("[]"), "");
    let lone = now_playing(r#"{"xesam:title":{"data":"t"}}"#, 0, false, 0).unwrap();
    assert_eq!((lone.artist.as_str(), lone.art_url, lone.duration_ms), ("", None, 0));
    assert!(now_playing(r#"{"xesam:title":{"data":7}}"#, 0, false, 0).is_none());
}

#[test]
fn names_are_joined_where_they_are() {
    let some = |s: &str| Some(s.to_string());
    assert_eq!(join_names(&vec![None, some("a"), None, some("b"), None]), "a, b");
    assert_eq!(join_names(&vec![some(""), some("b")]), ", b");
    assert_eq!(join_names(&vec![]), "");
}

#[test]
fn a_negative_length_counts_as_none() {
    let n = track(Some("t".into()), "a".into(), None, Some(-5), 1999, true, 9).unwrap();
    assert_eq!((n.duration_ms, n.progress_ms, n.written_at_ms), (0, 1, 9));
    assert!(track(None, "a".into(), None, None, 0, true, 9).is_none());
}

const ANSWER: &str = r#"{"type":"s","data":"Playing"}
{"type":"b","data":true}
{"type":"s","data":"Track"}
{"type":"x","data":57876000}
{"type":"a{sv}","data":{"xesam:title":{"type":"s","data":"T"}}}
"#;

#[test]
fn the_players_answer_is_read() {
    let s = poll(Some(ANSWER), 77).unwrap();
    assert_eq!(s.player, PlayerState { playing: true, shuffle: true, repeat: Loop::Track });
    let n = s.np.unwrap();
    assert_eq!((n.track.as_str(), n.progress_ms, n.is_playing), ("T", 57_876, true));
    assert!(poll(None, 77).is_none());
    assert!(poll(Some(&ANSWER.replace("\"data\":true", "\"x\":1")), 77).is_none());
    let four: Vec<&str> = ANSWER.lines().take(4).collect();
    assert!(poll(Some(&four.join("\n")), 77).is_none());
    let paused = poll(Some(&ANSWER.replace("Playing", "Paused").replace("57876000", "-4")), 7);
    assert_eq!(paused.as_ref().map(|s| s.player.playing), Some(false));
    assert_eq!(paused.unwrap().np.unwrap().progress_ms, 0);
}

#[test]
fn properties_that_make_no_sense_are_off() {
    let p = player(None, None, None);
    assert_eq!(p, PlayerState { playing: false, shuffle: false, repeat: Loop::Off });
    let p = player(Some("playing".into()), Some(false), Some("Playlist".into()));
    assert_eq!(p, PlayerState { playing: false, shuffle: false, repeat: Loop::Playlist });
}

const OFF: PlayerState = PlayerState { playing: false, shuffle: false, repeat: Loop::Off };

#[test]
fn buttons_ask_the_player() {
    let tail = |c: Ctrl, p: PlayerState| -> String { activate(c, p)[1..].join(" ") };
    let to = "org.mpris.MediaPlayer2.spotatui /org/mpris/MediaPlayer2 org.mpris.MediaPlayer2.Player";
    assert_eq!(tail(Ctrl::Prev, OFF), format!("call {to} Previous"));
    assert_eq!(tail(Ctrl::Next, OFF), format!("call {to} Next"));
    assert_eq!(tail(Ctrl::PlayPause, OFF), format!("call {to} PlayPause"));
    assert_eq!(tail(Ctrl::Shuffle, OFF), format!("set-property {to} Shuffle b true"));
    let on = PlayerState { shuffle: true, ..OFF };
    assert_eq!(tail(Ctrl::Shuffle, on), format!("set-property {to} Shuffle b false"));
    assert_eq!(tail(Ctrl::Repeat, OFF), format!("set-property {to} LoopStatus s Playlist"));
    assert_eq!(activate(Ctrl::Next, OFF)[0], "--user");
    assert_eq!(
        poll_args().join(" "),
        format!(
            "--user --json=short get-property {to} PlaybackStatus Shuffle LoopStatus Position Metadata"
        )
    );
}

#[test]
fn the_bus_address_is_filled_in_where_it_is_missing() {
    assert_eq!(bus_address(true, Some("/run")), None);
    assert_eq!(bus_address(false, Some("/run")).as_deref(), Some("unix:path=/run/bus"));
    assert_eq!(bus_address(false, None), None);
}

#[test]
fn a_touched_button_shows_its_state_until_the_player_does() {
    let mut n = Np::default();
    assert!(n.touch(Ctrl::Shuffle, 0).is_none(), "nobody to ask");
    n.refresh(Some(Snapshot { player: OFF, np: None }), None, 0, 0);
    let args = n.touch(Ctrl::Shuffle, 10).unwrap();
    assert_eq!(args.last().unwrap(), "true");
    assert!(n.player.unwrap().shuffle);

    n.refresh(Some(Snapshot { player: OFF, np: None }), None, 11, 0);
    assert!(n.player.unwrap().shuffle, "the player has not caught up");
    n.refresh(None, None, 12, 0);
    assert_eq!(n.player, None, "the player is gone");
    assert!(n.pending.is_some());
    let on = PlayerState { shuffle: true, ..OFF };
    n.refresh(Some(Snapshot { player: on, np: None }), None, 13, 0);
    assert!(n.pending.is_none(), "the player has caught up");

    n.touch(Ctrl::Shuffle, 20);
    n.refresh(Some(Snapshot { player: on, np: None }), None, 20 + PENDING_FOR, 0);
    assert!(n.player.unwrap().shuffle, "the wait is over");
    assert!(n.pending.is_none());
}

#[test]
fn an_overlay_covers_only_what_was_touched() {
    let p = Pending::new(Ctrl::Repeat, OFF.after(Ctrl::Repeat), 0);
    let mut got = PlayerState { playing: true, ..OFF };
    assert!(p.overlay(&mut got, 1));
    assert_eq!(got, PlayerState { playing: true, shuffle: false, repeat: Loop::Playlist });
    let p = Pending::new(Ctrl::Next, OFF, 0);
    assert!(!p.overlay(&mut got, 1));
    let p = Pending::new(Ctrl::PlayPause, OFF.after(Ctrl::PlayPause), 0);
    let mut got = OFF;
    assert!(p.overlay(&mut got, 1) && got.playing);
}

#[test]
fn a_fresh_record_goes_before_the_player() {
    let said = Snapshot { player: OFF, np: Some(np(1, 1, true)) };
    let mut file = np(2, 100_000, true);
    file.art_url = Some("u".into());
    let mut n = Np::default();
    let url = n.refresh(Some(said.clone()), Some(file.clone()), 0, 110_000);
    assert_eq!(url.as_deref(), Some("u"));
    assert_eq!(n.now.as_ref().unwrap().progress_ms, 2);
    let url = n.refresh(Some(said), Some(file), 0, 115_001);
    assert_eq!(url, None);
    assert_eq!(n.now.as_ref().unwrap().progress_ms, 1);
    assert!(!n.is_playing());
}

#[test]
fn art_of_another_track_is_not_shown() {
    let accent = Accent { fill: [1, 2, 3], edge: [4, 5, 6] };
    let mut now = np(0, 0, true);
    now.art_url = Some("a".into());
    let mut n = Np::default();
    assert!(n.view(0).is_none());
    n.refresh(Some(Snapshot { player: OFF, np: Some(now) }), None, 0, 0);
    assert!(n.view(0).unwrap().art.is_none());
    n.take_art(Some(Fetched { url: "b".into(), bgra: vec![1], accent }));
    let v = n.view(3).unwrap();
    assert!(v.art.is_none());
    assert_eq!((v.accent, v.filled), (Accent::default(), 3));
    n.take_art(Some(Fetched { url: "a".into(), bgra: vec![9], accent }));
    n.take_art(None);
    let v = n.view(0).unwrap();
    assert_eq!((v.art, v.accent), (Some(&[9u8][..]), accent));
}

#[test]
fn art_is_asked_for_once_and_given_once() {
    let mut a = Art::default();
    assert!(a.request("u"));
    assert!(!a.request("u"));
    assert!(a.request("v"));
    assert!(a.request("u"));
    assert!(a.take().is_none());
    a.put(Fetched { url: "u".into(), bgra: vec![], accent: Accent::default() });
    assert_eq!(a.take().unwrap().url, "u");
    assert!(a.take().is_none());
    assert_eq!(newest("a".into(), vec![]), "a");
    assert_eq!(newest("a".into(), vec!["b".into(), "c".into()]), "c");
    assert_eq!(fetch_args("http://x"), ["-sL", "--max-time", "10", "http://x"]);
}

/// The colour of a hue, a saturation and a lightness, blue first.
fn from_hsl(h: f32, s: f32, l: f32) -> [u8; 3] {
    let c = (1.0 - (2.0 * l - 1.0).abs()) * s;
    let hp = h.rem_euclid(360.0) / 60.0;
    let x = c * (1.0 - (hp % 2.0 - 1.0).abs());
    let (r, g, b) = match hp as u32 {
        0 => (c, x, 0.0),
        1 => (x, c, 0.0),
        2 => (0.0, c, x),
        3 => (0.0, x, c),
        4 => (x, 0.0, c),
        _ => (c, 0.0, x),
    };
    let m = l - c / 2.0;
    [b, g, r].map(|v| ((v + m) * 255.0).round().clamp(0.0, 255.0) as u8)
}

#[test]
fn the_colours_without_art_are_a_dark_green() {
    let a = Accent::default();
    assert_eq!(a.fill, from_hsl(145.0, 0.75, 0.20));
    assert_eq!(a.edge, from_hsl(145.0, 0.75, 0.32));
}
