//! The player on the session bus: how it is asked and told, and what its
//! answers mean.
//!
//! Answers are JSON. A value is carried on as the text that stands for it.

use crate::np::NowPlaying;
use crate::np;
use crate::player;
use crate::player::{Ctrl, Loop, PlayerState};
use crate::scan::{argv, chars_of, lines, same, string_of};
use crate::scan;
use vstd::prelude::*;
use vstd::string::StringExecFns;

verus! {

/// The member `key` of the JSON object that `text` is, as JSON again.
pub uninterp spec fn json_member(text: Seq<char>, key: Seq<char>) -> Option<Seq<char>>;

/// The elements of the JSON array that `text` is, each as JSON again.
pub uninterp spec fn json_elements(text: Seq<char>) -> Option<Seq<Seq<char>>>;

/// The characters of the JSON string that `text` is.
pub uninterp spec fn json_string(text: Seq<char>) -> Option<Seq<char>>;

/// The JSON truth value that `text` is.
pub uninterp spec fn json_bool(text: Seq<char>) -> Option<bool>;

/// The JSON number that `text` is, if it is whole and an `i64` can hold it.
pub uninterp spec fn json_i64(text: Seq<char>) -> Option<i64>;

/// Calls `serde_json::from_str`, and `Value::get` on what it gives. The member
/// is a function of the text and the key; there is none if the text is no JSON,
/// is no object, or has no such key.
#[verifier::external_body]
fn member(text: &str, key: &str) -> (r: Option<String>)
    ensures
        scan::opt_text(r) == json_member(text@, key@),
{
    let v: serde_json::Value = serde_json::from_str(text).ok()?;
    Some(v.get(key)?.to_string())
}

/// Calls `serde_json::from_str`, and `Value::as_array` on what it gives. The
/// elements are a function of the text; there are none if it is no JSON array.
#[verifier::external_body]
fn elements(text: &str) -> (r: Option<Vec<String>>)
    ensures
        match r {
            Some(v) => json_elements(text@) == Some(scan::texts(v@)),
            None => json_elements(text@) is None,
        },
{
    let v: serde_json::Value = serde_json::from_str(text).ok()?;
    Some(v.as_array()?.iter().map(|e| e.to_string()).collect())
}

/// Calls `serde_json::from_str`, and `Value::as_str` on what it gives. The
/// characters are a function of the text; there are none if it is no JSON
/// string.
#[verifier::external_body]
fn as_string(text: &str) -> (r: Option<String>)
    ensures
        scan::opt_text(r) == json_string(text@),
{
    let v: serde_json::Value = serde_json::from_str(text).ok()?;
    Some(v.as_str()?.to_owned())
}

/// Calls `serde_json::from_str`, and `Value::as_bool` on what it gives. The
/// value is a function of the text; there is none if it is neither true nor
/// false.
#[verifier::external_body]
fn as_bool(text: &str) -> (r: Option<bool>)
    ensures
        r == json_bool(text@),
{
    let v: serde_json::Value = serde_json::from_str(text).ok()?;
    v.as_bool()
}

/// Calls `serde_json::from_str`, and `Value::as_i64` on what it gives. The
/// number is a function of the text; there is none if it is no whole number
/// that an `i64` can hold.
#[verifier::external_body]
fn as_i64(text: &str) -> (r: Option<i64>)
    ensures
        r == json_i64(text@),
{
    let v: serde_json::Value = serde_json::from_str(text).ok()?;
    v.as_i64()
}

/// The value in a line that the bus tool printed: its member `data`.
pub fn data(line: &str) -> (r: Option<String>)
    ensures
        scan::opt_text(r) == json_member(line@, "data"@),
{
    member(line, "data")
}

/// The value of an entry of the track's data, which is wrapped the same way.
pub open spec fn entry_of(meta: Seq<char>, key: Seq<char>) -> Option<Seq<char>> {
    match json_member(meta, key) {
        Some(m) => json_member(m, "data"@),
        None => None,
    }
}

/// The value of an entry of the track's data.
pub fn entry(meta: &str, key: &str) -> (r: Option<String>)
    ensures
        scan::opt_text(r) == entry_of(meta@, key@),
{
    match member(meta, key) {
        Some(m) => member(m.as_str(), "data"),
        None => None,
    }
}

/// A string where there may be a value.
pub open spec fn string_in(v: Option<Seq<char>>) -> Option<Seq<char>> {
    match v {
        Some(t) => json_string(t),
        None => None,
    }
}

fn opt_string(v: Option<String>) -> (r: Option<String>)
    ensures
        scan::opt_text(r) == string_in(scan::opt_text(v)),
{
    match v {
        Some(t) => as_string(t.as_str()),
        None => None,
    }
}

/// The names that are there, with a comma and a space between them.
pub open spec fn joined(names: Seq<Option<Seq<char>>>) -> Seq<char>
    decreases names.len(),
{
    if names.len() == 0 {
        seq![]
    } else {
        let head = joined(names.drop_last());
        match names.last() {
            Some(s) => if any(names.drop_last()) {
                head + ", "@ + s
            } else {
                s
            },
            None => head,
        }
    }
}

/// One of the names is there.
pub open spec fn any(names: Seq<Option<Seq<char>>>) -> bool {
    exists|i: int| 0 <= i < names.len() && (#[trigger] names[i]) is Some
}

pub open spec fn opt_texts(v: Seq<Option<String>>) -> Seq<Option<Seq<char>>> {
    v.map_values(|o: Option<String>| scan::opt_text(o))
}

/// Joins the names that are there.
pub fn join_names(names: &Vec<Option<String>>) -> (r: String)
    ensures
        r@ == joined(opt_texts(names@)),
{
    let ghost all = opt_texts(names@);
    let n: usize = names.len();
    let mut r = String::new();
    let mut first = true;
    assert(r@ =~= joined(all.take(0)));
    for i in 0..n
        invariant
            n == names@.len(),
            all == opt_texts(names@),
            r@ == joined(all.take(i as int)),
            first == !any(all.take(i as int)),
            first ==> r@.len() == 0,
    {
        let ghost before = all.take(i as int);
        let ghost after = all.take(i + 1);
        assert(after.drop_last() =~= before);
        assert(all[i as int] == scan::opt_text(names@[i as int]));
        let ghost text = r@;
        proof {
            if any(before) {
                let k = choose|k: int| 0 <= k < before.len() && (#[trigger] before[k]) is Some;
                assert(after[k] is Some);
            }
            if any(after) && after[i as int] is None {
                let k = choose|k: int| 0 <= k < after.len() && (#[trigger] after[k]) is Some;
                assert(before[k] is Some);
            }
            if after[i as int] is Some {
                assert(any(after));
            }
        }
        match &names[i] {
            Some(s) => {
                if !first {
                    r.append(", ");
                }
                r.append(s.as_str());
                assert(first ==> r@ =~= s@);
                assert(!first ==> r@ =~= text + ", "@ + s@);
                first = false;
            },
            None => {},
        }
    }
    assert(all.take(n as int) =~= all);
    r
}

/// The artist: the names of a list, or a single name.
pub open spec fn artist_of(v: Option<Seq<char>>) -> Seq<char> {
    match v {
        Some(t) => match json_elements(t) {
            Some(list) => joined(list.map_values(|e: Seq<char>| json_string(e))),
            None => match json_string(t) {
                Some(s) => s,
                None => seq![],
            },
        },
        None => seq![],
    }
}

fn artist(v: Option<String>) -> (r: String)
    ensures
        r@ == artist_of(scan::opt_text(v)),
{
    let t = match v {
        Some(t) => t,
        None => return String::new(),
    };
    match elements(t.as_str()) {
        Some(list) => {
            let n: usize = list.len();
            let mut names: Vec<Option<String>> = Vec::new();
            let ghost want = scan::texts(list@).map_values(|e: Seq<char>| json_string(e));
            for i in 0..n
                invariant
                    n == list@.len(),
                    want == scan::texts(list@).map_values(|e: Seq<char>| json_string(e)),
                    opt_texts(names@) == want.take(i as int),
            {
                let ghost before = names@;
                names.push(as_string(list[i].as_str()));
                assert(opt_texts(names@) =~= opt_texts(before).push(want[i as int]));
                assert(want.take(i + 1) =~= want.take(i as int).push(want[i as int]));
            }
            assert(want.take(n as int) =~= want);
            join_names(&names)
        },
        None => match as_string(t.as_str()) {
            Some(s) => s,
            None => String::new(),
        },
    }
}

/// A length of time in thousandths of a second, from one in millionths that may
/// be missing or, against all sense, negative.
pub open spec fn millis_in(us: Option<i64>) -> int {
    match us {
        Some(n) => if n > 0 {
            n / 1000
        } else {
            0
        },
        None => 0,
    }
}

/// The record of a track: there is one if it has a title.
pub open spec fn track_of(
    title: Option<Seq<char>>,
    artist: Seq<char>,
    art_url: Option<Seq<char>>,
    length_us: Option<i64>,
    position_us: u64,
    playing: bool,
    now_ms: u64,
) -> Option<np::Track> {
    match title {
        Some(track) => Some(
            np::Track {
                track,
                artist,
                art_url,
                progress_ms: position_us / 1000,
                duration_ms: millis_in(length_us) as u64,
                written_at_ms: now_ms,
                is_playing: playing,
            },
        ),
        None => None,
    }
}

/// The record of a track, from what is known of it.
pub fn track(
    title: Option<String>,
    artist: String,
    art_url: Option<String>,
    length_us: Option<i64>,
    position_us: u64,
    playing: bool,
    now_ms: u64,
) -> (r: Option<NowPlaying>)
    ensures
        np::opt_track(r) == track_of(
            scan::opt_text(title),
            artist@,
            scan::opt_text(art_url),
            length_us,
            position_us,
            playing,
            now_ms,
        ),
{
    let track = match title {
        Some(t) => t,
        None => return None,
    };
    let duration_ms: u64 = match length_us {
        Some(n) => if n > 0 {
            n as u64 / 1000
        } else {
            0
        },
        None => 0,
    };
    Some(
        NowPlaying {
            track,
            artist,
            art_url,
            progress_ms: position_us / 1000,
            duration_ms,
            written_at_ms: now_ms,
            is_playing: playing,
        },
    )
}

/// A number where there may be a value.
pub open spec fn number_in(v: Option<Seq<char>>) -> Option<i64> {
    match v {
        Some(t) => json_i64(t),
        None => None,
    }
}

/// The record that the track's data make.
pub open spec fn now_playing_of(
    meta: Seq<char>,
    position_us: u64,
    playing: bool,
    now_ms: u64,
) -> Option<np::Track> {
    track_of(
        string_in(entry_of(meta, "xesam:title"@)),
        artist_of(entry_of(meta, "xesam:artist"@)),
        string_in(entry_of(meta, "mpris:artUrl"@)),
        number_in(entry_of(meta, "mpris:length"@)),
        position_us,
        playing,
        now_ms,
    )
}

/// The record that the track's data make.
pub fn now_playing(meta: &str, position_us: u64, playing: bool, now_ms: u64) -> (r: Option<
    NowPlaying,
>)
    ensures
        np::opt_track(r) == now_playing_of(meta@, position_us, playing, now_ms),
{
    let title = opt_string(entry(meta, "xesam:title"));
    let names = artist(entry(meta, "xesam:artist"));
    let art_url = opt_string(entry(meta, "mpris:artUrl"));
    let length = match entry(meta, "mpris:length") {
        Some(t) => as_i64(t.as_str()),
        None => None,
    };
    track(title, names, art_url, length, position_us, playing, now_ms)
}

/// What the player said when it was asked.
#[derive(Debug, Clone, PartialEq)]
pub struct Snapshot {
    pub player: PlayerState,
    /// The track, if there is one.
    pub np: Option<NowPlaying>,
}

/// The contents of a `Snapshot`.
pub struct Said {
    pub player: PlayerState,
    pub np: Option<np::Track>,
}

impl View for Snapshot {
    type V = Said;

    open spec fn view(&self) -> Said {
        Said { player: self.player, np: np::opt_track(self.np) }
    }
}

pub open spec fn opt_said(o: Option<Snapshot>) -> Option<Said> {
    match o {
        Some(s) => Some(s@),
        None => None,
    }
}

/// The player's state, from the values of its properties.
pub open spec fn player_of(
    status: Option<Seq<char>>,
    shuffle: Option<bool>,
    repeat: Option<Seq<char>>,
) -> PlayerState {
    PlayerState {
        playing: status == Some("Playing"@),
        shuffle: shuffle == Some(true),
        repeat: match repeat {
            Some(s) => Loop::of_word(s),
            None => Loop::Off,
        },
    }
}

pub fn player(status: Option<String>, shuffle: Option<bool>, repeat: Option<String>) -> (r:
    PlayerState)
    ensures
        r == player_of(scan::opt_text(status), shuffle, scan::opt_text(repeat)),
{
    PlayerState {
        playing: match status {
            Some(s) => same(s.as_str(), "Playing"),
            None => false,
        },
        shuffle: match shuffle {
            Some(b) => b,
            None => false,
        },
        repeat: match repeat {
            Some(s) => Loop::parse(s.as_str()),
            None => Loop::Off,
        },
    }
}

/// A position, which is never negative.
pub open spec fn position_in(us: Option<i64>) -> u64 {
    match us {
        Some(n) => if n > 0 {
            n as u64
        } else {
            0
        },
        None => 0,
    }
}

/// What the player said: a line for each property, all of which have to be
/// there.
pub open spec fn said(out: Option<Seq<char>>, now_ms: u64) -> Option<Said> {
    match out {
        Some(o) => {
            let l = scan::lines_of(o);
            let d = |i: int| json_member(l[i], "data"@);
            if l.len() < 5 || d(0) is None || d(1) is None || d(2) is None || d(3) is None || d(4)
                is None {
                None
            } else {
                let p = player_of(json_string(d(0)->0), json_bool(d(1)->0), json_string(d(2)->0));
                Some(
                    Said {
                        player: p,
                        np: now_playing_of(
                            d(4)->0,
                            position_in(json_i64(d(3)->0)),
                            p.playing,
                            now_ms,
                        ),
                    },
                )
            }
        },
        None => None,
    }
}

/// Reads what the bus tool printed, or `None` if it failed: the player is not
/// there.
pub fn poll(out: Option<&str>, now_ms: u64) -> (r: Option<Snapshot>)
    ensures
        opt_said(r) == said(scan::opt_str(out), now_ms),
{
    let out = match out {
        Some(o) => o,
        None => return None,
    };
    let text = chars_of(out);
    let l = lines(text.as_slice());
    if l.len() < 5 {
        return None;
    }
    let ghost src = scan::slices(l@);
    assert(src[0] == l@[0]@ && src[1] == l@[1]@ && src[2] == l@[2]@ && src[3] == l@[3]@ && src[4]
        == l@[4]@);
    let status = data(string_of(l[0]).as_str())?;
    let shuffle = data(string_of(l[1]).as_str())?;
    let repeat = data(string_of(l[2]).as_str())?;
    let position = data(string_of(l[3]).as_str())?;
    let meta = data(string_of(l[4]).as_str())?;
    let player = player(
        as_string(status.as_str()),
        as_bool(shuffle.as_str()),
        as_string(repeat.as_str()),
    );
    let position_us: u64 = match as_i64(position.as_str()) {
        Some(n) => if n > 0 {
            n as u64
        } else {
            0
        },
        None => 0,
    };
    let np = now_playing(meta.as_str(), position_us, player.playing, now_ms);
    Some(Snapshot { player, np })
}

/// The words with which every request starts: the player's name on the bus, its
/// object and its interface behind the verb.
pub open spec fn request(verb: Seq<char>) -> Seq<Seq<char>> {
    seq![
        "--user"@,
        verb,
        "org.mpris.MediaPlayer2.spotatui"@,
        "/org/mpris/MediaPlayer2"@,
        "org.mpris.MediaPlayer2.Player"@,
    ]
}

/// The arguments of the bus tool that ask for the player's state.
pub fn poll_args() -> (r: Vec<String>)
    ensures
        scan::texts(r@) == seq!["--user"@, "--json=short"@] + request("get-property"@).skip(1)
            + seq!["PlaybackStatus"@, "Shuffle"@, "LoopStatus"@, "Position"@, "Metadata"@],
{
    let r = argv(
        &[
            "--user",
            "--json=short",
            "get-property",
            "org.mpris.MediaPlayer2.spotatui",
            "/org/mpris/MediaPlayer2",
            "org.mpris.MediaPlayer2.Player",
            "PlaybackStatus",
            "Shuffle",
            "LoopStatus",
            "Position",
            "Metadata",
        ],
    );
    assert(scan::texts(r@) =~= seq!["--user"@, "--json=short"@] + request("get-property"@).skip(1)
        + seq!["PlaybackStatus"@, "Shuffle"@, "LoopStatus"@, "Position"@, "Metadata"@]);
    r
}

/// The arguments of the bus tool for a button. Shuffle and repeat set the
/// property to what it is not yet; the others call a method.
pub open spec fn button_words(ctrl: Ctrl, cur: PlayerState) -> Seq<Seq<char>> {
    match ctrl {
        Ctrl::Prev => request("call"@).push("Previous"@),
        Ctrl::Next => request("call"@).push("Next"@),
        Ctrl::PlayPause => request("call"@).push("PlayPause"@),
        Ctrl::Shuffle => request("set-property"@) + seq![
            "Shuffle"@,
            "b"@,
            if cur.shuffle {
                "false"@
            } else {
                "true"@
            },
        ],
        Ctrl::Repeat => request("set-property"@) + seq![
            "LoopStatus"@,
            "s"@,
            cur.repeat.next().word(),
        ],
    }
}

fn call_args(method: &str) -> (r: Vec<String>)
    ensures
        scan::texts(r@) == request("call"@).push(method@),
{
    let r = argv(
        &[
            "--user",
            "call",
            "org.mpris.MediaPlayer2.spotatui",
            "/org/mpris/MediaPlayer2",
            "org.mpris.MediaPlayer2.Player",
            method,
        ],
    );
    assert(scan::texts(r@) =~= request("call"@).push(method@));
    r
}

fn set_args(property: &str, kind: &str, value: &str) -> (r: Vec<String>)
    ensures
        scan::texts(r@) == request("set-property"@) + seq![property@, kind@, value@],
{
    let r = argv(
        &[
            "--user",
            "set-property",
            "org.mpris.MediaPlayer2.spotatui",
            "/org/mpris/MediaPlayer2",
            "org.mpris.MediaPlayer2.Player",
            property,
            kind,
            value,
        ],
    );
    assert(scan::texts(r@) =~= request("set-property"@) + seq![property@, kind@, value@]);
    r
}

/// The arguments of the bus tool for a button that was touched.
pub fn activate(ctrl: Ctrl, cur: PlayerState) -> (r: Vec<String>)
    ensures
        scan::texts(r@) == button_words(ctrl, cur),
{
    match ctrl {
        Ctrl::Prev => call_args("Previous"),
        Ctrl::Next => call_args("Next"),
        Ctrl::PlayPause => call_args("PlayPause"),
        Ctrl::Shuffle => set_args(
            "Shuffle",
            "b",
            if cur.shuffle {
                "false"
            } else {
                "true"
            },
        ),
        Ctrl::Repeat => set_args("LoopStatus", "s", cur.repeat.cycle().as_str()),
    }
}

/// The bus's address where the environment has none: in the runtime directory,
/// if that is known.
pub fn bus_address(has_address: bool, runtime_dir: Option<&str>) -> (r: Option<String>)
    ensures
        scan::opt_text(r) == match runtime_dir {
            Some(d) => if has_address {
                None
            } else {
                Some("unix:path="@ + d@ + "/bus"@)
            },
            None => None,
        },
{
    if has_address {
        return None;
    }
    match runtime_dir {
        Some(d) => {
            let mut s = "unix:path=".to_owned();
            s.append(d);
            s.append("/bus");
            Some(s)
        },
        None => None,
    }
}

/// What a touched button asks of the player is what the bar shows at once: the
/// property is set to the value that the state after the touch has.
pub proof fn a_button_asks_for_what_is_shown(cur: PlayerState)
    ensures
        button_words(Ctrl::Repeat, cur).last() == cur.then_after(Ctrl::Repeat).repeat.word(),
        button_words(Ctrl::Shuffle, cur).last() == if cur.then_after(Ctrl::Shuffle).shuffle {
            "true"@
        } else {
            "false"@
        },
{
}

/// A player that reports a setting by its word is read as having it.
pub proof fn reports_are_understood(l: Loop, status: Option<Seq<char>>, shuffle: Option<bool>)
    ensures
        player_of(status, shuffle, Some(l.word())).repeat == l,
{
    player::words_read_back(l);
}

/// Names are joined in order, by a comma and a blank; those that are missing
/// leave no trace.
pub proof fn names_are_joined_by_commas(names: Seq<Option<Seq<char>>>, s: Seq<char>)
    ensures
        joined(seq![]) == Seq::<char>::empty(),
        joined(seq![Some(s)]) == s,
        joined(names.push(None)) == joined(names),
        (exists|i: int| 0 <= i < names.len() && (#[trigger] names[i]) is Some) ==> joined(
            names.push(Some(s)),
        ) == joined(names) + seq![',', ' '] + s,
        (forall|i: int| 0 <= i < names.len() ==> (#[trigger] names[i]) is None) ==> joined(
            names.push(Some(s)),
        ) == s,
{
    reveal_strlit(", ");
    assert(", "@ =~= seq![',', ' ']);
    assert(names.push(None).drop_last() =~= names);
    assert(names.push(Some(s)).drop_last() =~= names);
    assert(seq![Some(s)].drop_last() =~= Seq::<Option<Seq<char>>>::empty());
    assert(!any(Seq::<Option<Seq<char>>>::empty()));
}

/// A list of artists is joined, a single one stands as it is, and anything else
/// is none.
pub proof fn an_artist_is_a_name_or_a_list(t: Seq<char>)
    ensures
        json_elements(t) is Some ==> artist_of(Some(t)) == joined(
            json_elements(t)->0.map_values(|e: Seq<char>| json_string(e)),
        ),
        json_elements(t) is None && json_string(t) is Some ==> artist_of(Some(t))
            == json_string(t)->0,
        json_elements(t) is None && json_string(t) is None ==> artist_of(Some(t)) == Seq::<
            char,
        >::empty(),
        artist_of(None) == Seq::<char>::empty(),
{
}

/// Thousandths are whole: a thousand millionths each, and what is left over does
/// not count. What is missing or negative is no time at all.
pub proof fn a_thousand_millionths_make_a_thousandth(n: i64)
    ensures
        n >= 0 ==> 1000 * millis_in(Some(n)) <= n < 1000 * (millis_in(Some(n)) + 1),
        n < 0 ==> millis_in(Some(n)) == 0,
        millis_in(None) == 0,
        n >= 0 ==> position_in(Some(n)) == n,
        n < 0 ==> position_in(Some(n)) == 0,
        position_in(None) == 0,
{
}

/// There is a record exactly if there is a title, and it says of the track what
/// the player said: where it is and how long, in thousandths, and when that was.
pub proof fn a_record_says_what_the_player_said(
    title: Option<Seq<char>>,
    artist: Seq<char>,
    art_url: Option<Seq<char>>,
    length_us: Option<i64>,
    position_us: u64,
    playing: bool,
    now_ms: u64,
)
    ensures
        ({
            let t = track_of(title, artist, art_url, length_us, position_us, playing, now_ms);
            &&& t is Some <==> title is Some
            &&& t is Some ==> {
                &&& t->0.track == title->0
                &&& t->0.artist == artist
                &&& t->0.art_url == art_url
                &&& 1000 * t->0.progress_ms <= position_us < 1000 * (t->0.progress_ms + 1)
                &&& length_us is Some && length_us->0 >= 0 ==> 1000 * t->0.duration_ms
                    <= length_us->0 < 1000 * (t->0.duration_ms + 1)
                &&& length_us is None || length_us->0 < 0 ==> t->0.duration_ms == 0
                &&& t->0.written_at_ms == now_ms
                &&& t->0.is_playing == playing
            }
        }),
{
}

/// The track's title, artist, art and length are the entries of those names.
pub proof fn a_tracks_data_have_names(meta: Seq<char>, position_us: u64, playing: bool, now_ms: u64)
    ensures
        ({
            let t = now_playing_of(meta, position_us, playing, now_ms);
            let title = json_member(meta, "xesam:title"@);
            let artist = json_member(meta, "xesam:artist"@);
            let art = json_member(meta, "mpris:artUrl"@);
            let length = json_member(meta, "mpris:length"@);
            let titled = title is Some && json_member(title->0, "data"@) is Some && json_string(
                json_member(title->0, "data"@)->0,
            ) is Some;
            &&& t is Some <==> titled
            &&& titled ==> {
                &&& t->0.track == json_string(json_member(title->0, "data"@)->0)->0
                &&& artist is Some ==> t->0.artist == artist_of(json_member(artist->0, "data"@))
                &&& artist is None ==> t->0.artist.len() == 0
                &&& art is None ==> t->0.art_url is None
                &&& art is Some && json_member(art->0, "data"@) is Some ==> t->0.art_url
                    == json_string(json_member(art->0, "data"@)->0)
                &&& length is None ==> t->0.duration_ms == 0
                &&& length is Some && json_member(length->0, "data"@) is Some ==> t->0.duration_ms
                    == millis_in(json_i64(json_member(length->0, "data"@)->0))
                &&& t->0.progress_ms == position_us / 1000
                &&& t->0.is_playing == playing
                &&& t->0.written_at_ms == now_ms
            }
        }),
{
}

/// The player plays exactly if it says so, shuffles exactly if it says so, and
/// repeats what it names, or nothing.
pub proof fn a_report_is_taken_at_its_word(
    status: Option<Seq<char>>,
    shuffle: Option<bool>,
    repeat: Option<Seq<char>>,
)
    ensures
        ({
            let p = player_of(status, shuffle, repeat);
            &&& p.playing <==> status is Some && status->0 == "Playing"@
            &&& p.shuffle <==> shuffle is Some && shuffle->0
            &&& p.repeat == Loop::Track <==> repeat is Some && repeat->0 == "Track"@
            &&& p.repeat == Loop::Playlist <==> repeat is Some && repeat->0 == "Playlist"@
        }),
{
    player::words_read_back(Loop::Track);
    player::words_read_back(Loop::Playlist);
}

/// The player's answer has a line for each property, in the order in which they
/// are asked for: whether it plays, whether it shuffles, what it repeats, the
/// position, the track. If one is missing, there is no answer.
pub proof fn the_lines_of_an_answer(out: Seq<char>, now_ms: u64)
    ensures
        said(None, now_ms) is None,
        ({
            let l = scan::lines_of(out);
            let whole = l.len() >= 5 && forall|i: int|
                0 <= i < 5 ==> json_member(#[trigger] l[i], "data"@) is Some;
            &&& said(Some(out), now_ms) is Some <==> whole
            &&& whole ==> {
                let s = said(Some(out), now_ms)->0;
                let status = json_string(json_member(l[0], "data"@)->0);
                let position = json_i64(json_member(l[3], "data"@)->0);
                &&& s.player.playing <==> status == Some("Playing"@)
                &&& s.player.shuffle <==> json_bool(json_member(l[1], "data"@)->0) == Some(true)
                &&& s.player.repeat == Loop::Track <==> json_string(
                    json_member(l[2], "data"@)->0,
                ) == Some("Track"@)
                &&& s.player.repeat == Loop::Playlist <==> json_string(
                    json_member(l[2], "data"@)->0,
                ) == Some("Playlist"@)
                &&& s.np == now_playing_of(
                    json_member(l[4], "data"@)->0,
                    position_in(position),
                    s.player.playing,
                    now_ms,
                )
            }
        }),
{
    player::words_read_back(Loop::Track);
    player::words_read_back(Loop::Playlist);
    let l = scan::lines_of(out);
    if said(Some(out), now_ms) is Some {
        assert forall|i: int| 0 <= i < 5 implies json_member(#[trigger] l[i], "data"@) is Some by {
            assert(i == 0 || i == 1 || i == 2 || i == 3 || i == 4);
        }
    } else if l.len() >= 5 {
        assert(json_member(l[0], "data"@) is None || json_member(l[1], "data"@) is None
            || json_member(l[2], "data"@) is None || json_member(l[3], "data"@) is None
            || json_member(l[4], "data"@) is None);
    }
}

/// Every button speaks to the player's own object. The track buttons and the play
/// button call a method; shuffle and repeat set a property, to what it is not yet.
pub proof fn buttons_speak_to_the_player(c: Ctrl, cur: PlayerState)
    ensures
        ({
            let w = button_words(c, cur);
            &&& w.len() == if c == Ctrl::Shuffle || c == Ctrl::Repeat {
                8int
            } else {
                6
            }
            &&& w[0] == "--user"@
            &&& w[1] == if c == Ctrl::Shuffle || c == Ctrl::Repeat {
                "set-property"@
            } else {
                "call"@
            }
            &&& w[2] == "org.mpris.MediaPlayer2.spotatui"@
            &&& w[3] == "/org/mpris/MediaPlayer2"@
            &&& w[4] == "org.mpris.MediaPlayer2.Player"@
            &&& c == Ctrl::Prev ==> w[5] == "Previous"@
            &&& c == Ctrl::Next ==> w[5] == "Next"@
            &&& c == Ctrl::PlayPause ==> w[5] == "PlayPause"@
            &&& c == Ctrl::Shuffle ==> w[5] == "Shuffle"@ && w[6] == "b"@
            &&& c == Ctrl::Shuffle && cur.shuffle ==> w[7] == "false"@
            &&& c == Ctrl::Shuffle && !cur.shuffle ==> w[7] == "true"@
            &&& c == Ctrl::Repeat ==> w[5] == "LoopStatus"@ && w[6] == "s"@
            &&& c == Ctrl::Repeat && cur.repeat == Loop::Off ==> w[7] == "Playlist"@
            &&& c == Ctrl::Repeat && cur.repeat == Loop::Playlist ==> w[7] == "Track"@
            &&& c == Ctrl::Repeat && cur.repeat == Loop::Track ==> w[7] == "None"@
        }),
{
}

} // verus!
