//! What `tmux` says and what it is told.

use crate::scan;
use crate::scan::{
    argv, chars_of, contains, equals, lines, parse_i64, same, split, split_once, starts_with,
    string_of, trim,
};
use vstd::prelude::*;

verus! {

/// The sessions of the server and the client that the bar steers.
#[derive(Clone)]
pub struct State {
    /// Name of the client on the console.
    pub client: Option<String>,
    /// Session that this client shows.
    pub current: Option<String>,
    /// All sessions, the oldest first.
    pub existing: Vec<String>,
    /// The oldest session.
    pub first_session: Option<String>,
}

/// A line of `list-sessions`: when the session was made, and its name.
pub open spec fn session_of(line: Seq<char>) -> Option<(int, Seq<char>)> {
    match scan::cut(line, ' ') {
        Some((created, name)) => match scan::signed_of(created, i64::MIN as int, i64::MAX as int) {
            Some(t) => Some((t, name)),
            None => None,
        },
        None => None,
    }
}

/// The sessions on the given lines. Other lines are passed over.
pub open spec fn sessions_of(lines: Seq<Seq<char>>) -> Seq<(int, Seq<char>)>
    decreases lines.len(),
{
    if lines.len() == 0 {
        seq![]
    } else {
        let rest = sessions_of(lines.drop_last());
        match session_of(lines.last()) {
            Some(s) => rest.push(s),
            None => rest,
        }
    }
}

/// `e` put into a list ordered by time, behind those of its own time.
pub open spec fn put_in(v: Seq<(int, Seq<char>)>, e: (int, Seq<char>)) -> Seq<(int, Seq<char>)>
    decreases v.len(),
{
    if v.len() == 0 || v.last().0 <= e.0 {
        v.push(e)
    } else {
        put_in(v.drop_last(), e).push(v.last())
    }
}

/// The sessions ordered by time; those of one time stay in their order.
pub open spec fn by_age(v: Seq<(int, Seq<char>)>) -> Seq<(int, Seq<char>)>
    decreases v.len(),
{
    if v.len() == 0 {
        v
    } else {
        put_in(by_age(v.drop_last()), v.last())
    }
}

pub open spec fn names(v: Seq<(int, Seq<char>)>) -> Seq<Seq<char>> {
    v.map_values(|e: (int, Seq<char>)| e.1)
}

/// Names of the terminals that a console client has.
pub open spec fn is_console(term: Seq<char>) -> bool {
    "fbterm"@.is_prefix_of(term) || term == "linux"@
}

/// The first row whose second field names a console terminal.
pub open spec fn first_console(rows: Seq<Seq<Seq<char>>>) -> Option<Seq<Seq<char>>>
    decreases rows.len(),
{
    if rows.len() == 0 {
        None
    } else {
        match first_console(rows.drop_last()) {
            Some(r) => Some(r),
            None => if is_console(rows.last()[1]) {
                Some(rows.last())
            } else {
                None
            },
        }
    }
}

/// The client on the console: the first with a console terminal, or else the
/// only client there is.
pub open spec fn console_of(rows: Seq<Seq<Seq<char>>>) -> Option<Seq<Seq<char>>> {
    match first_console(rows) {
        Some(r) => Some(r),
        None => if rows.len() == 1 {
            Some(rows[0])
        } else {
            None
        },
    }
}

/// The lines of `list-clients` that have three fields.
pub open spec fn client_rows(out: Seq<char>) -> Seq<Seq<Seq<char>>> {
    scan::lines_of(out).map_values(|l: Seq<char>| scan::fields(l, '\t')).filter(
        |f: Seq<Seq<char>>| f.len() == 3,
    )
}

pub open spec fn rows_view(rows: Seq<Vec<&[char]>>) -> Seq<Seq<Seq<char>>> {
    rows.map_values(|r: Vec<&[char]>| scan::slices(r@))
}

/// The row of the client on the console.
pub fn pick_console(rows: &Vec<Vec<&[char]>>) -> (r: Option<usize>)
    requires
        forall|i: int| 0 <= i < rows@.len() ==> (#[trigger] rows@[i])@.len() >= 2,
    ensures
        match r {
            Some(i) => i < rows@.len() && console_of(rows_view(rows@)) == Some(
                scan::slices(rows@[i as int]@),
            ),
            None => console_of(rows_view(rows@)) is None,
        },
{
    let ghost all = rows_view(rows@);
    let n: usize = rows.len();
    for i in 0..n
        invariant
            n == rows@.len(),
            all == rows_view(rows@),
            forall|i: int| 0 <= i < rows@.len() ==> (#[trigger] rows@[i])@.len() >= 2,
            first_console(all.take(i as int)) is None,
    {
        assert(all.take(i + 1).drop_last() =~= all.take(i as int));
        let term = rows[i][1];
        assert(all[i as int] == scan::slices(rows@[i as int]@));
        assert(all[i as int][1] == term@);
        if starts_with(term, "fbterm") || equals(term, "linux") {
            proof {
                lemma_first_console_stays(all, i + 1);
            }
            return Some(i);
        }
    }
    assert(all.take(n as int) =~= all);
    if n == 1 {
        assert(all[0] == scan::slices(rows@[0]@));
        Some(0)
    } else {
        None
    }
}

proof fn lemma_first_console_stays(rows: Seq<Seq<Seq<char>>>, k: int)
    requires
        0 <= k <= rows.len(),
        first_console(rows.take(k)) is Some,
    ensures
        first_console(rows) == first_console(rows.take(k)),
    decreases rows.len() - k,
{
    if k < rows.len() {
        assert(rows.take(k + 1).drop_last() =~= rows.take(k));
        lemma_first_console_stays(rows, k + 1);
    } else {
        assert(rows.take(k) =~= rows);
    }
}

/// A client's name and the session it shows, from the output of `list-clients`.
pub open spec fn client_of(out: Option<Seq<char>>) -> Option<(Seq<char>, Seq<char>)> {
    match out {
        Some(o) => match console_of(client_rows(o)) {
            Some(r) => Some((r[0], r[2])),
            None => None,
        },
        None => None,
    }
}

pub fn fbterm_client(out: Option<&str>) -> (r: Option<(String, String)>)
    ensures
        match r {
            Some((name, session)) => client_of(scan::opt_str(out)) == Some((name@, session@)),
            None => client_of(scan::opt_str(out)) is None,
        },
{
    let out = match out {
        Some(o) => o,
        None => return None,
    };
    let text = chars_of(out);
    let all = lines(text.as_slice());
    let mut rows: Vec<Vec<&[char]>> = Vec::new();
    let ghost src = scan::lines_of(out@);
    let ghost cut = |l: Seq<char>| scan::fields(l, '\t');
    let ghost three = |f: Seq<Seq<char>>| f.len() == 3;
    let n: usize = all.len();
    assert(src.map_values(cut).take(0).filter(three) =~= rows_view(rows@)) by {
        reveal(Seq::filter);
    }
    for i in 0..n
        invariant
            n == all@.len(),
            scan::slices(all@) == src,
            cut == (|l: Seq<char>| scan::fields(l, '\t')),
            three == (|f: Seq<Seq<char>>| f.len() == 3),
            rows_view(rows@) == src.map_values(cut).take(i as int).filter(three),
            forall|j: int| 0 <= j < rows@.len() ==> (#[trigger] rows@[j])@.len() == 3,
    {
        let f = split(all[i], '\t');
        let ghost before = rows@;
        let ghost m = src.map_values(cut);
        assert(m.take(i + 1).drop_last() =~= m.take(i as int));
        assert(scan::slices(all@)[i as int] == all@[i as int]@);
        assert(m[i as int] == scan::slices(f@));
        proof {
            reveal(Seq::filter);
        }
        if f.len() == 3 {
            rows.push(f);
            assert(rows_view(rows@) =~= rows_view(before).push(scan::slices(f@)));
        }
    }
    assert(src.map_values(cut).take(n as int) =~= src.map_values(cut));
    match pick_console(&rows) {
        Some(i) => {
            let name = string_of(rows[i][0]);
            let session = string_of(rows[i][2]);
            Some((name, session))
        },
        None => None,
    }
}

struct Session {
    created: i64,
    name: String,
}

spec fn sessions_view(v: Seq<Session>) -> Seq<(int, Seq<char>)> {
    v.map_values(|s: Session| (s.created as int, s.name@))
}

proof fn lemma_put_in(v: Seq<(int, Seq<char>)>, e: (int, Seq<char>), k: int)
    requires
        0 <= k <= v.len(),
        forall|j: int| k <= j < v.len() ==> (#[trigger] v[j]).0 > e.0,
        k > 0 ==> v[k - 1].0 <= e.0,
    ensures
        put_in(v, e) == v.insert(k, e),
    decreases v.len(),
{
    if k == v.len() {
        assert(v.insert(k, e) =~= v.push(e));
    } else {
        lemma_put_in(v.drop_last(), e, k);
        assert(v.insert(k, e) =~= v.drop_last().insert(k, e).push(v.last()));
    }
}

/// Reads the lines of `list-sessions` and orders them by age.
fn read_sessions(out: &str) -> (r: Vec<Session>)
    ensures
        sessions_view(r@) == by_age(sessions_of(scan::lines_of(out@))),
{
    let text = chars_of(out);
    let all = lines(text.as_slice());
    let ghost src = scan::lines_of(out@);
    let mut v: Vec<Session> = Vec::new();
    let n: usize = all.len();
    assert(sessions_view(v@) =~= by_age(sessions_of(src.take(0))));
    for i in 0..n
        invariant
            n == all@.len(),
            scan::slices(all@) == src,
            sessions_view(v@) == by_age(sessions_of(src.take(i as int))),
    {
        assert(src.take(i + 1).drop_last() =~= src.take(i as int));
        assert(scan::slices(all@)[i as int] == all@[i as int]@);
        let ghost so_far = sessions_of(src.take(i as int));
        let ghost mut next: Seq<(int, Seq<char>)> = so_far;
        match split_once(all[i], ' ') {
            Some((created, name)) => match parse_i64(created) {
                Some(t) => {
                    let s = Session { created: t, name: string_of(name) };
                    let ghost e = (s.created as int, s.name@);
                    let ghost before = v@;
                    let mut k: usize = v.len();
                    while k > 0 && v[k - 1].created > t
                        invariant
                            k <= v@.len(),
                            forall|j: int| k <= j < v@.len() ==> (#[trigger] v@[j]).created > t,
                        decreases k,
                    {
                        k = k - 1;
                    }
                    proof {
                        assert forall|j: int| k <= j < sessions_view(v@).len() implies (
                        #[trigger] sessions_view(v@)[j]).0 > e.0 by {
                            assert(v@[j].created > t);
                        }
                        lemma_put_in(sessions_view(v@), e, k as int);
                    }
                    v.insert(k, s);
                    assert(sessions_view(v@) =~= sessions_view(before).insert(k as int, e));
                    proof {
                        next = so_far.push(e);
                        assert(next.drop_last() =~= so_far);
                    }
                },
                None => {},
            },
            None => {},
        }
        assert(sessions_of(src.take(i + 1)) == next);
    }
    assert(src.take(n as int) =~= src);
    v
}

impl State {
    /// What the output of `list-sessions` and of `list-clients` says; an output
    /// that could not be had says nothing.
    pub open spec fn says(self, sessions: Option<Seq<char>>, clients: Option<Seq<char>>) -> bool {
        let v = match sessions {
            Some(o) => by_age(sessions_of(scan::lines_of(o))),
            None => seq![],
        };
        &&& scan::texts(self.existing@) == names(v)
        &&& scan::opt_text(self.first_session) == if v.len() > 0 {
            Some(v[0].1)
        } else {
            None
        }
        &&& match client_of(clients) {
            Some((name, session)) => scan::opt_text(self.client) == Some(name) && scan::opt_text(
                self.current,
            ) == Some(session),
            None => self.client is None && self.current is None,
        }
    }

    /// Reads the state from the output of the two commands.
    pub fn poll(sessions: Option<&str>, clients: Option<&str>) -> (r: State)
        ensures
            r.says(scan::opt_str(sessions), scan::opt_str(clients)),
    {
        let mut existing: Vec<String> = Vec::new();
        let mut first: Option<String> = None;
        match sessions {
            Some(o) => {
                let v = read_sessions(o);
                let n: usize = v.len();
                for i in 0..n
                    invariant
                        n == v@.len(),
                        scan::texts(existing@) == names(sessions_view(v@)).take(i as int),
                {
                    let ghost before = existing@;
                    existing.push(v[i].name.clone());
                    assert(scan::texts(existing@) =~= scan::texts(before).push(v@[i as int].name@));
                    assert(names(sessions_view(v@)).take(i + 1) =~= names(
                        sessions_view(v@),
                    ).take(i as int).push(v@[i as int].name@));
                }
                assert(names(sessions_view(v@)).take(n as int) =~= names(sessions_view(v@)));
                if n > 0 {
                    first = Some(v[0].name.clone());
                }
            },
            None => {
                assert(scan::texts(existing@) =~= names(seq![]));
            },
        }
        match fbterm_client(clients) {
            Some((name, session)) => State {
                client: Some(name),
                current: Some(session),
                existing,
                first_session: first,
            },
            None => State { client: None, current: None, existing, first_session: first },
        }
    }

    /// Whether there is a session of that name.
    pub open spec fn knows(self, session: Seq<char>) -> bool {
        scan::texts(self.existing@).contains(session)
    }

    pub fn has_session(&self, session: &str) -> (r: bool)
        ensures
            r == self.knows(session@),
    {
        let n: usize = self.existing.len();
        for i in 0..n
            invariant
                n == self.existing@.len(),
                forall|j: int| 0 <= j < i ==> (#[trigger] self.existing@[j])@ != session@,
        {
            if same(self.existing[i].as_str(), session) {
                assert(scan::texts(self.existing@)[i as int] == session@);
                return true;
            }
        }
        assert forall|j: int| 0 <= j < scan::texts(self.existing@).len() implies scan::texts(
            self.existing@,
        )[j] != session@ by {
            assert(self.existing@[j]@ != session@);
        }
        false
    }
}

} // verus!

verus! {

/// The oldest session comes first, and no session is lost or made up.
pub proof fn sessions_are_ordered_by_age(v: Seq<(int, Seq<char>)>)
    ensures
        forall|i: int, j: int|
            0 <= i <= j < by_age(v).len() ==> (#[trigger] by_age(v)[i]).0 <= (
            #[trigger] by_age(v)[j]).0,
        by_age(v).to_multiset() == v.to_multiset(),
    decreases v.len(),
{
    if v.len() > 0 {
        let w = by_age(v.drop_last());
        sessions_are_ordered_by_age(v.drop_last());
        lemma_put_in_ordered(w, v.last());
        assert(v =~= v.drop_last().push(v.last()));
        vstd::seq_lib::to_multiset_build::<(int, Seq<char>)>(v.drop_last(), v.last());
    }
}

proof fn lemma_put_in_ordered(v: Seq<(int, Seq<char>)>, e: (int, Seq<char>))
    requires
        forall|i: int, j: int|
            0 <= i <= j < v.len() ==> (#[trigger] v[i]).0 <= (#[trigger] v[j]).0,
    ensures
        put_in(v, e).len() == v.len() + 1,
        forall|i: int, j: int|
            0 <= i <= j < put_in(v, e).len() ==> (#[trigger] put_in(v, e)[i]).0 <= (
            #[trigger] put_in(v, e)[j]).0,
        put_in(v, e).to_multiset() == v.to_multiset().insert(e),
        v.len() > 0 ==> put_in(v, e).last().0 == if v.last().0 <= e.0 {
            e.0
        } else {
            v.last().0
        },
    decreases v.len(),
{
    if v.len() == 0 || v.last().0 <= e.0 {
        vstd::seq_lib::to_multiset_build(v, e);
    } else {
        let w = v.drop_last();
        let p = put_in(w, e);
        lemma_put_in_ordered(w, e);
        vstd::seq_lib::to_multiset_build(p, v.last());
        vstd::seq_lib::to_multiset_build(w, v.last());
        assert(v =~= w.push(v.last()));
        assert(p.to_multiset().insert(v.last()) =~= v.to_multiset().insert(e));
        assert(p.last().0 <= v.last().0) by {
            if w.len() > 0 {
                assert(v[v.len() - 2].0 <= v[v.len() - 1].0);
            }
        }
        assert forall|i: int, j: int| 0 <= i <= j < put_in(v, e).len() implies (
        #[trigger] put_in(v, e)[i]).0 <= (#[trigger] put_in(v, e)[j]).0 by {
            if j == p.len() {
                if i < p.len() {
                    assert(put_in(v, e)[i] == p[i]);
                    assert(p[i].0 <= p[p.len() - 1].0);
                }
            } else {
                assert(put_in(v, e)[i] == p[i] && put_in(v, e)[j] == p[j]);
            }
        }
    }
}

/// The client to steer and the session to show, when the session that was
/// shown is gone and the client has not been led to the oldest one.
pub open spec fn fallback_of(before: State, now: State) -> Option<(Seq<char>, Seq<char>)> {
    match (before.current, now.client, now.first_session) {
        (Some(cur), Some(client), Some(first)) => if before.knows(cur@) && !now.knows(cur@)
            && scan::opt_text(now.current) != Some(first@) {
            Some((client@, first@))
        } else {
            None
        },
        _ => None,
    }
}

/// Where to lead the client after a session has ended.
pub fn fallback(before: &State, now: &State) -> (r: Option<(String, String)>)
    ensures
        match r {
            Some((client, session)) => fallback_of(*before, *now) == Some((client@, session@)),
            None => fallback_of(*before, *now) is None,
        },
{
    let cur = match &before.current {
        Some(c) => c.as_str(),
        None => return None,
    };
    let client = match &now.client {
        Some(c) => c,
        None => return None,
    };
    let first = match &now.first_session {
        Some(f) => f,
        None => return None,
    };
    if !before.has_session(cur) || now.has_session(cur) {
        return None;
    }
    match &now.current {
        Some(c) => if same(c.as_str(), first.as_str()) {
            return None;
        },
        None => {},
    }
    Some((client.clone(), first.clone()))
}

/// A pane, its title and its directory.
pub struct PaneInfo {
    pub id: String,
    pub title: String,
    pub cwd: String,
}

/// The texts of a pane.
pub struct Pane {
    pub id: Seq<char>,
    pub title: Seq<char>,
    pub cwd: Seq<char>,
}

impl View for PaneInfo {
    type V = Pane;

    open spec fn view(&self) -> Pane {
        Pane { id: self.id@, title: self.title@, cwd: self.cwd@ }
    }
}

/// The format in which panes are asked for.
pub open spec fn pane_format() -> Seq<char> {
    "#{pane_id}\t#{pane_title}\t#{pane_current_path}"@
}

/// The three fields of a line: the third holds whatever follows the second tab.
pub open spec fn three_fields(line: Seq<char>) -> (Seq<char>, Seq<char>, Seq<char>) {
    match scan::cut(line, '\t') {
        Some((a, b)) => match scan::cut(b, '\t') {
            Some((c, d)) => (a, c, d),
            None => (a, b, seq![]),
        },
        None => (line, seq![], seq![]),
    }
}

/// The pane on a line. A line without an identifier holds none.
pub open spec fn pane_of(line: Seq<char>) -> Option<Pane> {
    let f = three_fields(line);
    if scan::trimmed(f.0).len() == 0 {
        None
    } else {
        Some(
            Pane { id: scan::trimmed(f.0), title: scan::trimmed(f.1), cwd: scan::trimmed(f.2) },
        )
    }
}

pub fn parse_pane(line: &[char]) -> (r: Option<PaneInfo>)
    ensures
        match r {
            Some(p) => pane_of(line@) == Some(p@),
            None => pane_of(line@) is None,
        },
{
    let empty: &[char] = vstd::slice::slice_subrange(line, 0, 0);
    assert(empty@ =~= seq![]);
    let (a, b, c) = match split_once(line, '\t') {
        Some((a, rest)) => match split_once(rest, '\t') {
            Some((b, c)) => (a, b, c),
            None => (a, rest, empty),
        },
        None => (line, empty, empty),
    };
    let id = trim(a);
    if id.len() == 0 {
        return None;
    }
    Some(
        PaneInfo { id: string_of(id), title: string_of(trim(b)), cwd: string_of(trim(c)) },
    )
}

/// The panes on the given lines.
pub open spec fn panes_of(lines: Seq<Seq<char>>) -> Seq<Pane>
    decreases lines.len(),
{
    if lines.len() == 0 {
        seq![]
    } else {
        let rest = panes_of(lines.drop_last());
        match pane_of(lines.last()) {
            Some(p) => rest.push(p),
            None => rest,
        }
    }
}

pub open spec fn panes_view(v: Seq<PaneInfo>) -> Seq<Pane> {
    v.map_values(|p: PaneInfo| p@)
}

/// The pane on the first line of the output, if there is one.
pub open spec fn pane_info_of(out: Option<Seq<char>>) -> Option<Pane> {
    match out {
        Some(o) => if scan::lines_of(o).len() > 0 {
            pane_of(scan::lines_of(o)[0])
        } else {
            None
        },
        None => None,
    }
}

/// The pane that the output of the command describes.
pub fn pane_info(out: Option<&str>) -> (r: Option<PaneInfo>)
    ensures
        match r {
            Some(p) => pane_info_of(scan::opt_str(out)) == Some(p@),
            None => pane_info_of(scan::opt_str(out)) is None,
        },
{
    match out {
        Some(o) => {
            let text = chars_of(o);
            let all = lines(text.as_slice());
            if all.len() == 0 {
                assert(scan::slices(all@).len() == 0);
                return None;
            }
            assert(scan::slices(all@)[0] == all@[0]@);
            parse_pane(all[0])
        },
        None => None,
    }
}

/// All panes that the output of the command describes; `None` without output.
pub fn panes(out: Option<&str>) -> (r: Option<Vec<PaneInfo>>)
    ensures
        match (r, out) {
            (Some(v), Some(o)) => panes_view(v@) == panes_of(scan::lines_of(o@)),
            (None, None) => true,
            _ => false,
        },
{
    match out {
        Some(o) => {
            let text = chars_of(o);
            let all = lines(text.as_slice());
            let ghost src = scan::lines_of(o@);
            let mut v: Vec<PaneInfo> = Vec::new();
            let n: usize = all.len();
            assert(panes_view(v@) =~= panes_of(src.take(0)));
            for i in 0..n
                invariant
                    n == all@.len(),
                    scan::slices(all@) == src,
                    panes_view(v@) == panes_of(src.take(i as int)),
            {
                assert(src.take(i + 1).drop_last() =~= src.take(i as int));
                assert(scan::slices(all@)[i as int] == all@[i as int]@);
                match parse_pane(all[i]) {
                    Some(p) => {
                        let ghost before = v@;
                        v.push(p);
                        assert(panes_view(v@) =~= panes_view(before).push(p@));
                    },
                    None => {},
                }
            }
            assert(src.take(n as int) =~= src);
            Some(v)
        },
        None => None,
    }
}

/// Whether the error output of `has-session` speaks of a running server. A
/// command that could not be run at all speaks of none.
pub open spec fn runs(err: Option<Seq<char>>) -> bool {
    match err {
        Some(e) => !scan::occurs(e, "no server running"@) && !scan::occurs(
            e,
            "error connecting"@,
        ),
        None => false,
    }
}

pub fn server_running(err: Option<&str>) -> (r: bool)
    ensures
        r == runs(scan::opt_str(err)),
{
    match err {
        Some(e) => {
            let c = chars_of(e);
            !contains(c.as_slice(), "no server running") && !contains(
                c.as_slice(),
                "error connecting",
            )
        },
        None => false,
    }
}

/// The command that lists the sessions.
pub fn list_sessions() -> (r: Vec<String>)
    ensures
        scan::texts(r@) == seq!["list-sessions"@, "-F"@, "#{session_created} #{session_name}"@],
{
    let r = argv(&["list-sessions", "-F", "#{session_created} #{session_name}"]);
    assert(scan::texts(r@) =~= seq![
        "list-sessions"@,
        "-F"@,
        "#{session_created} #{session_name}"@,
    ]);
    r
}

/// The command that lists the clients.
pub fn list_clients() -> (r: Vec<String>)
    ensures
        scan::texts(r@) == seq![
            "list-clients"@,
            "-F"@,
            "#{client_name}\t#{client_termname}\t#{client_session}"@,
        ],
{
    let r = argv(
        &["list-clients", "-F", "#{client_name}\t#{client_termname}\t#{client_session}"],
    );
    assert(scan::texts(r@) =~= seq![
        "list-clients"@,
        "-F"@,
        "#{client_name}\t#{client_termname}\t#{client_session}"@,
    ]);
    r
}

/// The command that describes one pane.
pub fn show_pane(pane: &str) -> (r: Vec<String>)
    ensures
        scan::texts(r@) == seq!["display"@, "-p"@, "-t"@, pane@, pane_format()],
{
    let r = argv(
        &["display", "-p", "-t", pane, "#{pane_id}\t#{pane_title}\t#{pane_current_path}"],
    );
    assert(scan::texts(r@) =~= seq!["display"@, "-p"@, "-t"@, pane@, pane_format()]);
    r
}

/// The command that describes all panes.
pub fn list_panes() -> (r: Vec<String>)
    ensures
        scan::texts(r@) == seq!["list-panes"@, "-a"@, "-F"@, pane_format()],
{
    let r = argv(&["list-panes", "-a", "-F", "#{pane_id}\t#{pane_title}\t#{pane_current_path}"]);
    assert(scan::texts(r@) =~= seq!["list-panes"@, "-a"@, "-F"@, pane_format()]);
    r
}

/// The command that makes the client show a session.
pub fn switch(client: &str, session: &str) -> (r: Vec<String>)
    ensures
        scan::texts(r@) == seq!["switch-client"@, "-c"@, client@, "-t"@, session@],
{
    let r = argv(&["switch-client", "-c", client, "-t", session]);
    assert(scan::texts(r@) =~= seq!["switch-client"@, "-c"@, client@, "-t"@, session@]);
    r
}

/// The command that makes a detached session run `cmd`, and the one that keeps
/// the client when the session ends. The second may fail without harm.
pub fn new_session(name: &str, cmd: &str) -> (r: (Vec<String>, Vec<String>))
    ensures
        scan::texts(r.0@) == seq!["new-session"@, "-d"@, "-s"@, name@, cmd@],
        scan::texts(r.1@) == seq!["set-option"@, "-t"@, name@, "detach-on-destroy"@, "off"@],
{
    let a = argv(&["new-session", "-d", "-s", name, cmd]);
    let b = argv(&["set-option", "-t", name, "detach-on-destroy", "off"]);
    assert(scan::texts(a@) =~= seq!["new-session"@, "-d"@, "-s"@, name@, cmd@]);
    assert(scan::texts(b@) =~= seq!["set-option"@, "-t"@, name@, "detach-on-destroy"@, "off"@]);
    (a, b)
}

/// The command that opens a window in a session. A colon marks the target as a
/// session, since a session whose name is a number would read as a window.
pub fn new_window(session: &str, cmd: &str) -> (r: Vec<String>)
    ensures
        scan::texts(r@) == seq!["new-window"@, "-t"@, session@.push(':'), cmd@],
{
    let mut target = session.to_owned();
    target.push(':');
    let r = argv(&["new-window", "-t", target.as_str(), cmd]);
    assert(scan::texts(r@) =~= seq!["new-window"@, "-t"@, session@.push(':'), cmd@]);
    r
}

/// The commands that lead the client to a pane: its session, its window, the
/// pane itself. Each is run only if those before it succeeded.
pub fn goto_pane(client: &str, pane: &str) -> (r: Vec<Vec<String>>)
    ensures
        r@.map_values(|c: Vec<String>| scan::texts(c@)) == seq![
            seq!["switch-client"@, "-c"@, client@, "-t"@, pane@],
            seq!["select-window"@, "-t"@, pane@],
            seq!["select-pane"@, "-t"@, pane@],
        ],
{
    let a = switch(client, pane);
    let b = argv(&["select-window", "-t", pane]);
    let c = argv(&["select-pane", "-t", pane]);
    assert(scan::texts(b@) =~= seq!["select-window"@, "-t"@, pane@]);
    assert(scan::texts(c@) =~= seq!["select-pane"@, "-t"@, pane@]);
    let mut r: Vec<Vec<String>> = Vec::new();
    r.push(a);
    r.push(b);
    r.push(c);
    assert(r@.map_values(|c: Vec<String>| scan::texts(c@)) =~= seq![
        seq!["switch-client"@, "-c"@, client@, "-t"@, pane@],
        seq!["select-window"@, "-t"@, pane@],
        seq!["select-pane"@, "-t"@, pane@],
    ]);
    r
}

/// While nothing ends, nobody is led anywhere.
pub proof fn an_unchanged_state_leads_nowhere(s: State)
    ensures
        fallback_of(s, s) is None,
{
}

/// A client whose session has ended is led to the oldest session there is.
pub proof fn a_client_is_led_to_the_oldest_session(
    before: State,
    now: State,
    sessions: Option<Seq<char>>,
    clients: Option<Seq<char>>,
)
    requires
        now.says(sessions, clients),
        fallback_of(before, now) is Some,
    ensures
        ({
            let to = fallback_of(before, now)->0;
            &&& now.existing@.len() > 0
            &&& to.1 == now.existing@[0]@
            &&& before.current is Some
            &&& before.knows(before.current->0@)
            &&& !now.knows(before.current->0@)
        }),
{
    let v = match sessions {
        Some(o) => by_age(sessions_of(scan::lines_of(o))),
        None => seq![],
    };
    assert(v.len() > 0);
    assert(names(v).len() == v.len());
    assert(scan::texts(now.existing@).len() == now.existing@.len());
    assert(scan::texts(now.existing@)[0] == names(v)[0]);
}

/// A session is known exactly if its name is among those that exist.
pub proof fn known_sessions_are_those_that_exist(state: State, s: Seq<char>)
    ensures
        state.knows(s) <==> exists|i: int|
            0 <= i < state.existing@.len() && (#[trigger] state.existing@[i])@ == s,
{
    let v = scan::texts(state.existing@);
    if state.knows(s) {
        let i = choose|i: int| 0 <= i < v.len() && v[i] == s;
        assert(state.existing@[i]@ == s);
    }
    if exists|i: int| 0 <= i < state.existing@.len() && (#[trigger] state.existing@[i])@ == s {
        let i = choose|i: int|
            0 <= i < state.existing@.len() && (#[trigger] state.existing@[i])@ == s;
        assert(v[i] == s);
    }
}

/// A line with a number, a blank and a name tells of a session of that name,
/// which may hold blanks; a line without a blank or with another word first tells
/// of none.
pub proof fn a_session_has_a_time_and_a_name(n: nat, name: Seq<char>, word: Seq<char>)
    requires
        n <= i64::MAX,
        forall|i: int| 0 <= i < word.len() ==> #[trigger] word[i] != ' ',
    ensures
        session_of(scan::decimal(n).push(' ') + name) == Some((n as int, name)),
        session_of(seq!['-'] + scan::decimal(n).push(' ') + name) == Some((-n, name)),
        session_of(word) is None,
        word.len() == 0 || 'a' <= word[0] ==> session_of(word.push(' ') + name) is None,
{
    let d = scan::decimal(n);
    scan::decimals_are_digits(n);
    assert forall|i: int| 0 <= i < d.len() implies #[trigger] d[i] != ' ' by {
        assert('0' <= d[i] <= '9');
    }
    scan::the_first_separator_cuts(d, name, ' ');
    let e = seq!['-'] + d;
    assert forall|i: int| 0 <= i < e.len() implies #[trigger] e[i] != ' ' by {
        if i > 0 {
            assert(e[i] == d[i - 1]);
        }
    }
    scan::the_first_separator_cuts(e, name, ' ');
    assert(seq!['-'] + d.push(' ') + name =~= e.push(' ') + name);
    scan::signs_and_bounds_of_numbers(n, i64::MIN as int, i64::MAX as int);
    scan::the_first_separator_cuts(word, name, ' ');
    if word.len() == 0 || 'a' <= word[0] {
        scan::only_digits_make_a_number(word, 0, i64::MIN as int, i64::MAX as int);
    }
}

/// The sessions are those that the lines tell of, in the order of the lines.
pub proof fn each_line_tells_of_its_session(lines: Seq<Seq<char>>)
    ensures
        sessions_of(lines) == lines.filter_map(|l: Seq<char>| session_of(l)),
    decreases lines.len(),
{
    if lines.len() > 0 {
        each_line_tells_of_its_session(lines.drop_last());
        let rest = sessions_of(lines.drop_last());
        match session_of(lines.last()) {
            Some(s) => {
                assert(rest.push(s) =~= rest + seq![s]);
            },
            None => {},
        }
    }
}

/// Sessions of one age stay in the order in which they were listed.
pub proof fn sessions_of_one_age_keep_their_order(v: Seq<(int, Seq<char>)>, t: int)
    ensures
        by_age(v).filter(|e: (int, Seq<char>)| e.0 == t) == v.filter(
            |e: (int, Seq<char>)| e.0 == t,
        ),
    decreases v.len(),
{
    reveal(Seq::filter);
    if v.len() > 0 {
        sessions_of_one_age_keep_their_order(v.drop_last(), t);
        lemma_put_in_filter(by_age(v.drop_last()), v.last(), t);
    }
}

proof fn lemma_put_in_filter(v: Seq<(int, Seq<char>)>, e: (int, Seq<char>), t: int)
    ensures
        put_in(v, e).filter(|e: (int, Seq<char>)| e.0 == t) == if e.0 == t {
            v.filter(|e: (int, Seq<char>)| e.0 == t).push(e)
        } else {
            v.filter(|e: (int, Seq<char>)| e.0 == t)
        },
    decreases v.len(),
{
    reveal(Seq::filter);
    if v.len() == 0 || v.last().0 <= e.0 {
        assert(v.push(e).drop_last() =~= v);
    } else {
        let p = put_in(v.drop_last(), e);
        lemma_put_in_filter(v.drop_last(), e, t);
        assert(p.push(v.last()).drop_last() =~= p);
    }
}

/// The sessions that exist are those listed, the oldest first, and that one is
/// the first session. Without a list there is none.
pub proof fn the_first_session_is_the_oldest(
    state: State,
    sessions: Option<Seq<char>>,
    clients: Option<Seq<char>>,
)
    requires
        state.says(sessions, clients),
    ensures
        state.first_session is Some <==> state.existing@.len() > 0,
        state.existing@.len() > 0 ==> state.first_session->0@ == state.existing@[0]@,
        sessions is None ==> state.existing@.len() == 0,
        sessions matches Some(o) ==> scan::texts(state.existing@) == by_age(
            scan::lines_of(o).filter_map(|l: Seq<char>| session_of(l)),
        ).map_values(|e: (int, Seq<char>)| e.1),
        clients is None ==> state.client is None,
        state.client is Some <==> state.current is Some,
{
    let v = match sessions {
        Some(o) => {
            each_line_tells_of_its_session(scan::lines_of(o));
            by_age(sessions_of(scan::lines_of(o)))
        },
        None => seq![],
    };
    assert(names(v).len() == v.len());
    assert(scan::texts(state.existing@).len() == state.existing@.len());
    if v.len() > 0 {
        assert(scan::texts(state.existing@)[0] == names(v)[0]);
    }
}

/// A console terminal is called `linux`, or by a name that starts with `fbterm`.
pub proof fn console_terminals_are_told_by_name(term: Seq<char>, rest: Seq<char>)
    ensures
        is_console("linux"@),
        is_console("fbterm"@ + rest),
        is_console(term) ==> term == "linux"@ || (term.len() >= 6 && term.take(6) == "fbterm"@),
{
    reveal_strlit("fbterm");
    assert("fbterm"@.len() == 6);
    assert(("fbterm"@ + rest).subrange(0, 6) =~= "fbterm"@);
    if "fbterm"@.is_prefix_of(term) {
        assert(term.take(6) =~= "fbterm"@);
    }
}

/// The first client on a console terminal is steered; where there is none, the
/// only client is, and among several nobody is.
pub proof fn the_console_client_is_steered(rows: Seq<Seq<Seq<char>>>, i: int)
    requires
        0 <= i <= rows.len(),
        i < rows.len() ==> is_console(rows[i][1]),
        forall|j: int| 0 <= j < i ==> !is_console((#[trigger] rows[j])[1]),
    ensures
        i < rows.len() ==> console_of(rows) == Some(rows[i]),
        i == rows.len() == 1 ==> console_of(rows) == Some(rows[0]),
        i == rows.len() && rows.len() != 1 ==> console_of(rows) is None,
{
    lemma_first_console(rows, i);
}

proof fn lemma_first_console(rows: Seq<Seq<Seq<char>>>, i: int)
    requires
        0 <= i <= rows.len(),
        i < rows.len() ==> is_console(rows[i][1]),
        forall|j: int| 0 <= j < i ==> !is_console((#[trigger] rows[j])[1]),
    ensures
        first_console(rows) == if i < rows.len() {
            Some(rows[i])
        } else {
            None
        },
    decreases rows.len(),
{
    if rows.len() > 0 {
        let t = rows.drop_last();
        if i < rows.len() {
            lemma_first_console(t, i);
        } else {
            assert(!is_console(rows[rows.len() - 1][1]));
            lemma_first_console(t, i - 1);
        }
    }
}

/// A line with a name, a terminal and a session tells of a client; a line with
/// another number of fields tells of none.
pub proof fn each_line_tells_of_its_client(
    name: Seq<char>,
    term: Seq<char>,
    session: Seq<char>,
    rest: Seq<char>,
)
    requires
        forall|i: int| 0 <= i < name.len() ==> #[trigger] name[i] != '\t' && name[i] != '\n',
        forall|i: int| 0 <= i < term.len() ==> #[trigger] term[i] != '\t' && term[i] != '\n',
        forall|i: int|
            0 <= i < session.len() ==> #[trigger] session[i] != '\t' && session[i] != '\n',
        session.len() > 0 ==> session.last() != '\r',
    ensures
        client_rows((name.push('\t') + term.push('\t') + session).push('\n') + rest) == seq![
            seq![name, term, session],
        ] + client_rows(rest),
        name.len() == 0 || name.last() != '\r' ==> client_rows(name.push('\n') + rest)
            == client_rows(rest),
        client_rows(seq![]) == Seq::<Seq<Seq<char>>>::empty(),
{
    let line = name.push('\t') + term.push('\t') + session;
    let f = |l: Seq<char>| scan::fields(l, '\t');
    let three = |f: Seq<Seq<char>>| f.len() == 3;
    scan::the_first_separator_cuts(name, term.push('\t') + session, '\t');
    scan::the_first_separator_cuts(term, session, '\t');
    scan::the_first_separator_cuts(session, rest, '\t');
    assert(line =~= name.push('\t') + (term.push('\t') + session));
    assert(f(line) =~= seq![name, term, session]);
    assert forall|i: int| 0 <= i < line.len() implies #[trigger] line[i] != '\n' by {
        if i < name.len() {
            assert(line[i] == name[i]);
        } else if name.len() < i < name.len() + 1 + term.len() {
            assert(line[i] == term[i - name.len() - 1]);
        } else if i > name.len() + 1 + term.len() {
            assert(line[i] == session[i - name.len() - 2 - term.len()]);
        }
    }
    assert(line.last() == if session.len() > 0 {
        session.last()
    } else {
        '\t'
    });
    scan::line_feeds_end_lines(line, rest);
    let more = scan::lines_of(rest);
    assert((seq![line] + more).map_values(f) =~= seq![f(line)] + more.map_values(f));
    more.map_values(f).lemma_filter_prepend(f(line), three);
    scan::line_feeds_end_lines(name, rest);
    assert(f(name) =~= seq![name]);
    assert((seq![name] + more).map_values(f) =~= seq![f(name)] + more.map_values(f));
    more.map_values(f).lemma_filter_prepend(f(name), three);
    reveal(Seq::filter);
    scan::line_feeds_end_lines(seq![], seq![]);
    assert(scan::lines_of(seq![]).map_values(f) =~= seq![]);
}

/// What is known of the client is its name and its session, in that order.
pub proof fn a_client_has_a_name_and_a_session(out: Seq<char>, name: Seq<char>, term: Seq<char>, session: Seq<char>)
    requires
        console_of(client_rows(out)) == Some(seq![name, term, session]),
    ensures
        client_of(Some(out)) == Some((name, session)),
        client_of(None) is None,
{
}

/// The client is led elsewhere exactly when the session that it showed has just
/// ended and it does not show the first session already; it is led to that one.
pub proof fn a_client_is_led_on_when_its_session_ends(before: State, now: State, gone: Seq<char>)
    requires
        before.current matches Some(cur) && cur@ == gone,
        now.client is Some,
        now.first_session is Some,
    ensures
        ({
            let was_there = exists|i: int|
                0 <= i < before.existing@.len() && (#[trigger] before.existing@[i])@ == gone;
            let is_there = exists|i: int|
                0 <= i < now.existing@.len() && (#[trigger] now.existing@[i])@ == gone;
            let arrived = now.current is Some && now.current->0@ == now.first_session->0@;
            if was_there && !is_there && !arrived {
                fallback_of(before, now) == Some((now.client->0@, now.first_session->0@))
            } else {
                fallback_of(before, now) is None
            }
        }),
{
    known_sessions_are_those_that_exist(before, gone);
    known_sessions_are_those_that_exist(now, gone);
}

/// Nobody is led anywhere where no session was shown, no client is there or no
/// session is left.
pub proof fn without_a_client_nobody_is_led(before: State, now: State)
    requires
        before.current is None || now.client is None || now.first_session is None,
    ensures
        fallback_of(before, now) is None,
{
}

/// A line is made of a pane's identifier, its title and its directory, between
/// tabs; the directory is whatever follows the second. What is missing is empty,
/// and without an identifier there is no pane.
pub proof fn a_pane_has_three_fields(id: Seq<char>, title: Seq<char>, cwd: Seq<char>)
    requires
        forall|i: int| 0 <= i < id.len() ==> #[trigger] id[i] != '\t',
        forall|i: int| 0 <= i < title.len() ==> #[trigger] title[i] != '\t',
        id.len() > 0 ==> !scan::is_space(id[0]) && !scan::is_space(id.last()),
        title.len() > 0 ==> !scan::is_space(title[0]) && !scan::is_space(title.last()),
        cwd.len() > 0 ==> !scan::is_space(cwd[0]) && !scan::is_space(cwd.last()),
    ensures
        id.len() > 0 ==> pane_of(id.push('\t') + title.push('\t') + cwd) == Some(
            (Pane { id, title, cwd }),
        ),
        id.len() > 0 ==> pane_of(id.push('\t') + title) == Some((Pane { id, title, cwd: seq![] })),
        id.len() > 0 ==> pane_of(id) == Some((Pane { id, title: seq![], cwd: seq![] })),
        id.len() == 0 ==> pane_of(id.push('\t') + title.push('\t') + cwd) is None,
        id.len() == 0 ==> pane_of(id) is None,
{
    let none = Seq::<char>::empty();
    let rest = title.push('\t') + cwd;
    assert(id.push('\t') + title.push('\t') + cwd =~= id.push('\t') + rest);
    scan::the_first_separator_cuts(id, rest, '\t');
    scan::the_first_separator_cuts(id, title, '\t');
    scan::the_first_separator_cuts(title, cwd, '\t');
    scan::only_outer_white_space_is_trimmed(none, id, none);
    scan::only_outer_white_space_is_trimmed(none, title, none);
    scan::only_outer_white_space_is_trimmed(none, cwd, none);
    scan::only_outer_white_space_is_trimmed(none, none, none);
    assert(none + id + none =~= id);
    assert(none + title + none =~= title);
    assert(none + cwd + none =~= cwd);
    assert(none + none + none =~= none);
}

/// The panes are those that the lines tell of, in the order of the lines; where
/// one is asked for, it is the one on the first line.
pub proof fn each_line_tells_of_its_pane(lines: Seq<Seq<char>>, out: Seq<char>)
    ensures
        panes_of(lines) == lines.filter_map(|l: Seq<char>| pane_of(l)),
        scan::lines_of(out).len() > 0 ==> pane_info_of(Some(out)) == pane_of(
            scan::lines_of(out)[0],
        ),
        scan::lines_of(out).len() == 0 ==> pane_info_of(Some(out)) is None,
        pane_info_of(None) is None,
    decreases lines.len(),
{
    if lines.len() > 0 {
        each_line_tells_of_its_pane(lines.drop_last(), out);
        let rest = panes_of(lines.drop_last());
        match pane_of(lines.last()) {
            Some(p) => {
                assert(rest.push(p) =~= rest + seq![p]);
            },
            None => {},
        }
    }
}

/// A server runs unless the error says that there is none or that it cannot be
/// reached, wherever in its text, or the command could not be run.
pub proof fn only_these_errors_tell_of_no_server(a: Seq<char>, b: Seq<char>, err: Seq<char>)
    ensures
        !runs(Some(a + "no server running"@ + b)),
        !runs(Some(a + "error connecting"@ + b)),
        !runs(None),
        err.len() < 16 ==> runs(Some(err)),
        !runs(Some(err)) ==> exists|k: int|
            0 <= k <= err.len() && ("no server running"@.is_prefix_of(#[trigger] err.skip(k))
                || "error connecting"@.is_prefix_of(err.skip(k))),
{
    reveal_strlit("no server running");
    reveal_strlit("error connecting");
    assert("no server running"@.len() == 17 && "error connecting"@.len() == 16);
    scan::a_text_occurs_where_it_stands(a, "no server running"@, b, err);
    scan::a_text_occurs_where_it_stands(a, "error connecting"@, b, err);
}

/// The number before the first blank tells whether a line is about a session, and
/// from when.
pub proof fn the_first_word_is_the_time(word: Seq<char>, name: Seq<char>)
    requires
        forall|i: int| 0 <= i < word.len() ==> #[trigger] word[i] != ' ',
    ensures
        ({
            let t = scan::signed_of(word, i64::MIN as int, i64::MAX as int);
            let s = session_of(word.push(' ') + name);
            &&& s is Some <==> t is Some
            &&& s matches Some((time, who)) ==> time == t->0 && who == name
        }),
{
    scan::the_first_separator_cuts(word, name, ' ');
}

/// Blanks around the fields of a pane do not count.
pub proof fn blanks_around_fields_do_not_count(
    a: Seq<char>,
    b: Seq<char>,
    id: Seq<char>,
    title: Seq<char>,
    cwd: Seq<char>,
)
    requires
        forall|i: int| 0 <= i < a.len() ==> #[trigger] a[i] == ' ',
        forall|i: int| 0 <= i < b.len() ==> #[trigger] b[i] == ' ',
        id.len() > 0,
        forall|i: int| 0 <= i < id.len() ==> #[trigger] id[i] != '\t',
        forall|i: int| 0 <= i < title.len() ==> #[trigger] title[i] != '\t',
        !scan::is_space(id[0]) && !scan::is_space(id.last()),
        title.len() > 0 ==> !scan::is_space(title[0]) && !scan::is_space(title.last()),
        cwd.len() > 0 ==> !scan::is_space(cwd[0]) && !scan::is_space(cwd.last()),
    ensures
        pane_of((a + id + b).push('\t') + (a + title + b).push('\t') + (a + cwd + b)) == Some(
            (Pane { id, title, cwd }),
        ),
{
    let (x, y, z) = (a + id + b, a + title + b, a + cwd + b);
    assert forall|i: int| 0 <= i < x.len() implies #[trigger] x[i] != '\t' by {
        if i < a.len() {
            assert(x[i] == a[i]);
        } else if i < a.len() + id.len() {
            assert(x[i] == id[i - a.len()]);
        } else {
            assert(x[i] == b[i - a.len() - id.len()]);
        }
    }
    assert forall|i: int| 0 <= i < y.len() implies #[trigger] y[i] != '\t' by {
        if i < a.len() {
            assert(y[i] == a[i]);
        } else if i < a.len() + title.len() {
            assert(y[i] == title[i - a.len()]);
        } else {
            assert(y[i] == b[i - a.len() - title.len()]);
        }
    }
    assert(x.push('\t') + y.push('\t') + z =~= x.push('\t') + (y.push('\t') + z));
    scan::the_first_separator_cuts(x, y.push('\t') + z, '\t');
    scan::the_first_separator_cuts(y, z, '\t');
    assert forall|i: int| 0 <= i < a.len() implies scan::is_space(#[trigger] a[i]) by {
        assert(a[i] == ' ');
    }
    assert forall|i: int| 0 <= i < b.len() implies scan::is_space(#[trigger] b[i]) by {
        assert(b[i] == ' ');
    }
    scan::only_outer_white_space_is_trimmed(a, id, b);
    scan::only_outer_white_space_is_trimmed(a, title, b);
    scan::only_outer_white_space_is_trimmed(a, cwd, b);
}

} // verus!
