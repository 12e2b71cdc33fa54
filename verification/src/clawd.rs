//! The assistants that run in tmux panes: their states, the hooks that change
//! these, and the rows that the bar shows.

use crate::scan::{
    chars_of, rsplit_first, same, string_of, trim, trim_end_matches,
};
use crate::scan;
use crate::panel;
use crate::tmux::PaneInfo;
use crate::tmux;
use vstd::prelude::*;
use vstd::slice::slice_subrange;
use vstd::string::StringExecFns;

verus! {

#[derive(Clone, Copy, PartialEq, Eq, Debug, Structural)]
pub enum St {
    /// At work.
    Run,
    /// Waits for an answer or a permission.
    Ask,
    /// Has finished.
    Done,
    /// Has finished, and the user has taken note.
    Seen,
}

impl St {
    /// Who is shown first when there is not room for all: those that wait for
    /// the user.
    pub open spec fn rank(self) -> int {
        match self {
            St::Ask => 0,
            St::Done => 1,
            St::Run => 2,
            St::Seen => 3,
        }
    }

    pub fn prio(self) -> (r: u8)
        ensures
            r == self.rank(),
    {
        match self {
            St::Ask => 0,
            St::Done => 1,
            St::Run => 2,
            St::Seen => 3,
        }
    }

    /// The state after a hook. A question counts only while at work, since an
    /// idle assistant asks for attention too; an answer counts only while one
    /// is waited for.
    pub open spec fn step(self, cmd: Seq<char>) -> St {
        if cmd == "start"@ {
            St::Run
        } else if cmd == "question"@ {
            if self == St::Run {
                St::Ask
            } else {
                self
            }
        } else if cmd == "answer"@ {
            if self == St::Ask {
                St::Run
            } else {
                self
            }
        } else if cmd == "stop"@ {
            St::Done
        } else if cmd == "seen"@ {
            if self == St::Done {
                St::Seen
            } else {
                self
            }
        } else {
            self
        }
    }

    /// The state after a hook.
    pub fn after(self, cmd: &str) -> (r: St)
        ensures
            r == self.step(cmd@),
    {
        if same(cmd, "start") {
            St::Run
        } else if same(cmd, "question") {
            if self == St::Run {
                St::Ask
            } else {
                self
            }
        } else if same(cmd, "answer") {
            if self == St::Ask {
                St::Run
            } else {
                self
            }
        } else if same(cmd, "stop") {
            St::Done
        } else if same(cmd, "seen") {
            if self == St::Done {
                St::Seen
            } else {
                self
            }
        } else {
            self
        }
    }

    /// The word for a state in a status report.
    pub open spec fn text(self) -> Seq<char> {
        match self {
            St::Run => "run"@,
            St::Ask => "ask"@,
            St::Done => "done"@,
            St::Seen => "seen"@,
        }
    }

    fn word(self) -> (r: &'static str)
        ensures
            r@ == self.text(),
    {
        match self {
            St::Run => "run",
            St::Ask => "ask",
            St::Done => "done",
            St::Seen => "seen",
        }
    }
}

/// A character that an assistant puts before the summary in the title.
pub open spec fn is_title_mark(c: char) -> bool {
    c == '\u{2733}' || c == '\u{273b}' || c == '\u{273d}' || c == '\u{2736}' || c == '\u{2722}'
        || c == '*'
}

/// What is written beside an assistant: the summary in its pane's title, or
/// else the last part of its directory.
pub open spec fn label_of(title: Seq<char>, cwd: Seq<char>) -> Seq<char> {
    let t = scan::trimmed(title);
    if t.len() > 0 && is_title_mark(t[0]) && scan::trimmed(t.drop_first()).len() > 0 {
        scan::trimmed(t.drop_first())
    } else {
        scan::after_last(scan::strip_end(cwd, '/'), '/')
    }
}

pub fn label(title: &str, cwd: &str) -> (r: String)
    ensures
        r@ == label_of(title@, cwd@),
{
    let title = chars_of(title);
    let t = trim(title.as_slice());
    if t.len() > 0 {
        let c = t[0];
        if c == '\u{2733}' || c == '\u{273b}' || c == '\u{273d}' || c == '\u{2736}' || c
            == '\u{2722}' || c == '*' {
            let rest = slice_subrange(t, 1, t.len());
            assert(rest@ =~= t@.drop_first());
            let rest = trim(rest);
            if rest.len() > 0 {
                return string_of(rest);
            }
        }
    }
    let cwd = chars_of(cwd);
    string_of(rsplit_first(trim_end_matches(cwd.as_slice(), '/'), '/'))
}

/// An assistant: the pane it runs in, what is written beside it, its state.
pub struct Entry {
    pub pane: String,
    pub label: String,
    pub st: St,
}

/// The contents of an entry.
pub struct Item {
    pub pane: Seq<char>,
    pub label: Seq<char>,
    pub st: St,
}

impl View for Entry {
    type V = Item;

    open spec fn view(&self) -> Item {
        Item { pane: self.pane@, label: self.label@, st: self.st }
    }
}

/// The assistants in the order in which they started.
pub struct Model {
    pub entries: Vec<Entry>,
}

impl View for Model {
    type V = Seq<Item>;

    open spec fn view(&self) -> Seq<Item> {
        self.entries@.map_values(|e: Entry| e@)
    }
}

impl Default for Model {
    fn default() -> (r: Model)
        ensures
            r@ == Seq::<Item>::empty(),
            r.wf(),
    {
        let r = Model { entries: Vec::new() };
        assert(r@ =~= Seq::<Item>::empty());
        r
    }
}

/// A row of the frame.
#[derive(Clone, Debug, PartialEq, Eq)]
pub struct Row {
    pub pane: String,
    pub label: String,
    pub st: St,
}

impl View for Row {
    type V = Item;

    open spec fn view(&self) -> Item {
        Item { pane: self.pane@, label: self.label@, st: self.st }
    }
}

pub open spec fn rows_view(v: Seq<Row>) -> Seq<Item> {
    v.map_values(|r: Row| r@)
}

/// The place of a pane's entry, or the length if it has none.
pub open spec fn place(m: Seq<Item>, pane: Seq<char>) -> int
    decreases m.len(),
{
    if m.len() == 0 || m[0].pane == pane {
        0
    } else {
        1 + place(m.drop_first(), pane)
    }
}

/// Whether a pane has an entry.
pub open spec fn has_pane(m: Seq<Item>, pane: Seq<char>) -> bool {
    exists|i: int| 0 <= i < m.len() && (#[trigger] m[i]).pane == pane
}

/// No pane has two entries.
pub open spec fn panes_differ(m: Seq<Item>) -> bool {
    forall|i: int, j: int|
        0 <= i < j < m.len() ==> (#[trigger] m[i]).pane != (#[trigger] m[j]).pane
}

/// The entries without those of a pane.
pub open spec fn without(m: Seq<Item>, pane: Seq<char>) -> Seq<Item>
    decreases m.len(),
{
    if m.len() == 0 {
        m
    } else {
        let rest = without(m.drop_last(), pane);
        if m.last().pane == pane {
            rest
        } else {
            rest.push(m.last())
        }
    }
}

/// The entries after a hook in a pane. `start` makes an entry where the pane
/// has none, `end` removes it, and every other hook moves its state.
pub open spec fn applied(
    m: Seq<Item>,
    cmd: Seq<char>,
    pane: Seq<char>,
    label: Seq<char>,
) -> Seq<Item> {
    let i = place(m, pane);
    if cmd == "end"@ {
        without(m, pane)
    } else if 0 <= i < m.len() {
        m.update(i, Item { st: m[i].st.step(cmd), ..m[i] })
    } else if cmd == "start"@ {
        m.push(Item { pane, label, st: St::Run })
    } else {
        m
    }
}

/// The label that a new entry gets: none if the pane could not be asked.
pub open spec fn new_label(info: Option<tmux::Pane>) -> Seq<char> {
    match info {
        Some(p) => label_of(p.title, p.cwd),
        None => seq![],
    }
}

pub open spec fn opt_pane(o: Option<&PaneInfo>) -> Option<tmux::Pane> {
    match o {
        Some(p) => Some(p@),
        None => None,
    }
}

proof fn lemma_place(m: Seq<Item>, pane: Seq<char>)
    ensures
        0 <= place(m, pane) <= m.len(),
        place(m, pane) < m.len() ==> m[place(m, pane)].pane == pane,
        forall|j: int| 0 <= j < place(m, pane) ==> (#[trigger] m[j]).pane != pane,
        place(m, pane) < m.len() <==> has_pane(m, pane),
    decreases m.len(),
{
    if m.len() > 0 && m[0].pane != pane {
        let t = m.drop_first();
        lemma_place(t, pane);
        assert forall|j: int| 0 <= j < place(m, pane) implies (#[trigger] m[j]).pane != pane by {
            if j > 0 {
                assert(t[j - 1] == m[j]);
            }
        }
        if has_pane(m, pane) {
            let i = choose|i: int| 0 <= i < m.len() && (#[trigger] m[i]).pane == pane;
            assert(t[i - 1].pane == pane);
        }
        if has_pane(t, pane) {
            let i = choose|i: int| 0 <= i < t.len() && (#[trigger] t[i]).pane == pane;
            assert(m[i + 1].pane == pane);
        }
    } else if m.len() > 0 {
        assert(m[0].pane == pane);
    }
}

proof fn lemma_place_is(m: Seq<Item>, pane: Seq<char>, i: int)
    requires
        0 <= i <= m.len(),
        i < m.len() ==> m[i].pane == pane,
        forall|j: int| 0 <= j < i ==> (#[trigger] m[j]).pane != pane,
    ensures
        place(m, pane) == i,
{
    lemma_place(m, pane);
}

impl Model {
    /// No pane has two entries.
    pub open spec fn wf(self) -> bool {
        panes_differ(self@)
    }

    /// The place of a pane's entry, or the number of entries if it has none.
    fn find(&self, pane: &str) -> (r: usize)
        ensures
            r == place(self@, pane@),
            r <= self.entries@.len(),
    {
        let n: usize = self.entries.len();
        let mut i: usize = 0;
        while i < n && !same(self.entries[i].pane.as_str(), pane)
            invariant
                i <= n == self.entries@.len(),
                forall|j: int| 0 <= j < i ==> (#[trigger] self@[j]).pane != pane@,
            decreases n - i,
        {
            i = i + 1;
        }
        proof {
            if i < n {
                assert(self@[i as int].pane == pane@);
            }
            lemma_place_is(self@, pane@, i as int);
        }
        i
    }

    /// Whether `apply` wants to know about the pane: only where it makes an
    /// entry.
    pub fn wants_info(&self, cmd: &str, pane: &str) -> (r: bool)
        ensures
            r == (cmd@ == "start"@ && !has_pane(self@, pane@)),
    {
        proof {
            lemma_place(self@, pane@);
        }
        same(cmd, "start") && self.find(pane) == self.entries.len()
    }

    /// Applies a hook of the given pane.
    pub fn apply(&mut self, cmd: &str, pane: &str, info: Option<&PaneInfo>)
        requires
            old(self).wf(),
        ensures
            final(self).wf(),
            final(self)@ == applied(old(self)@, cmd@, pane@, new_label(opt_pane(info))),
    {
        let ghost before = self@;
        proof {
            lemma_place(self@, pane@);
            applied_keeps_panes_apart(self@, cmd@, pane@, new_label(opt_pane(info)));
        }
        if same(cmd, "end") {
            self.retain_other(pane);
            return;
        }
        let i = self.find(pane);
        if i < self.entries.len() {
            let st = self.entries[i].st.after(cmd);
            let e = Entry {
                pane: self.entries[i].pane.clone(),
                label: self.entries[i].label.clone(),
                st,
            };
            self.entries.set(i, e);
            assert(self@ =~= before.update(
                i as int,
                Item { st: before[i as int].st.step(cmd@), ..before[i as int] },
            ));
        } else if same(cmd, "start") {
            let text = match info {
                Some(p) => label(p.title.as_str(), p.cwd.as_str()),
                None => String::new(),
            };
            self.entries.push(Entry { pane: pane.to_owned(), label: text, st: St::Run });
            assert(self@ =~= before.push(
                Item { pane: pane@, label: new_label(opt_pane(info)), st: St::Run },
            ));
        }
    }

    /// Removes the entries of a pane.
    fn retain_other(&mut self, pane: &str)
        ensures
            final(self)@ == without(old(self)@, pane@),
    {
        let ghost all = self@;
        let n: usize = self.entries.len();
        let mut kept: Vec<Entry> = Vec::new();
        assert(kept@.map_values(|e: Entry| e@) =~= without(all.take(0), pane@));
        for i in 0..n
            invariant
                n == self.entries@.len(),
                all == self@,
                kept@.map_values(|e: Entry| e@) == without(all.take(i as int), pane@),
        {
            assert(all.take(i + 1).drop_last() =~= all.take(i as int));
            assert(all[i as int] == self.entries@[i as int]@);
            if !same(self.entries[i].pane.as_str(), pane) {
                let ghost before = kept@;
                let e = Entry {
                    pane: self.entries[i].pane.clone(),
                    label: self.entries[i].label.clone(),
                    st: self.entries[i].st,
                };
                kept.push(e);
                assert(kept@.map_values(|e: Entry| e@) =~= before.map_values(
                    |e: Entry| e@,
                ).push(all[i as int]));
            }
        }
        assert(all.take(n as int) =~= all);
        self.entries = kept;
    }
}

proof fn lemma_without(m: Seq<Item>, pane: Seq<char>)
    ensures
        without(m, pane).len() <= m.len(),
        forall|i: int| 0 <= i < without(m, pane).len() ==> (#[trigger] without(m, pane)[i]).pane
            != pane,
        forall|i: int|
            0 <= i < without(m, pane).len() ==> m.contains(#[trigger] without(m, pane)[i]),
        panes_differ(m) ==> panes_differ(without(m, pane)),
        !has_pane(m, pane) ==> without(m, pane) == m,
    decreases m.len(),
{
    if m.len() > 0 {
        let t = m.drop_last();
        let w = without(t, pane);
        let all = without(m, pane);
        lemma_without(t, pane);
        if panes_differ(m) {
            assert forall|i: int, j: int| 0 <= i < j < t.len() implies (#[trigger] t[i]).pane != (
            #[trigger] t[j]).pane by {
                assert(m[i].pane != m[j].pane);
            }
        }
        assert forall|i: int| 0 <= i < all.len() implies m.contains(#[trigger] all[i]) by {
            if i < w.len() {
                assert(t.contains(w[i]));
                let k = choose|k: int| 0 <= k < t.len() && t[k] == w[i];
                assert(m[k] == all[i]);
            } else {
                assert(m[m.len() - 1] == all[i]);
            }
        }
        if panes_differ(m) && m.last().pane != pane {
            assert forall|i: int, j: int| 0 <= i < j < all.len() implies (#[trigger] all[i]).pane
                != (#[trigger] all[j]).pane by {
                if j < w.len() {
                    assert(w[i].pane != w[j].pane);
                } else {
                    assert(t.contains(w[i]));
                    let k = choose|k: int| 0 <= k < t.len() && t[k] == w[i];
                    assert(m[k].pane != m[m.len() - 1].pane);
                }
            }
        }
        if !has_pane(m, pane) {
            assert(m[m.len() - 1].pane != pane);
            assert(!has_pane(t, pane)) by {
                if has_pane(t, pane) {
                    let i = choose|i: int| 0 <= i < t.len() && (#[trigger] t[i]).pane == pane;
                    assert(m[i].pane == pane);
                }
            }
            assert(all =~= m);
        }
    }
}

/// No hook makes a second entry for a pane.
pub proof fn applied_keeps_panes_apart(
    m: Seq<Item>,
    cmd: Seq<char>,
    pane: Seq<char>,
    label: Seq<char>,
)
    requires
        panes_differ(m),
    ensures
        panes_differ(applied(m, cmd, pane, label)),
{
    lemma_place(m, pane);
    lemma_without(m, pane);
    let a = applied(m, cmd, pane, label);
    if cmd != "end"@ {
        assert forall|i: int, j: int| 0 <= i < j < a.len() implies (#[trigger] a[i]).pane != (
        #[trigger] a[j]).pane by {
            if j < m.len() {
                assert(m[i].pane != m[j].pane);
            } else {
                assert(m[i].pane != pane);
            }
        }
    }
}

/// A hook of one pane leaves the entries of every other as they are.
pub proof fn other_panes_are_untouched(
    m: Seq<Item>,
    cmd: Seq<char>,
    pane: Seq<char>,
    label: Seq<char>,
    other: Item,
)
    requires
        other.pane != pane,
    ensures
        m.contains(other) <==> applied(m, cmd, pane, label).contains(other),
{
    lemma_place(m, pane);
    let a = applied(m, cmd, pane, label);
    if cmd == "end"@ {
        lemma_without_others(m, pane, other);
    } else {
        if m.contains(other) {
            let k = choose|k: int| 0 <= k < m.len() && m[k] == other;
            assert(a[k] == other);
        }
        if a.contains(other) {
            let k = choose|k: int| 0 <= k < a.len() && a[k] == other;
            assert(m[k] == other);
        }
    }
}

proof fn lemma_without_others(m: Seq<Item>, pane: Seq<char>, other: Item)
    requires
        other.pane != pane,
    ensures
        m.contains(other) <==> without(m, pane).contains(other),
    decreases m.len(),
{
    lemma_without(m, pane);
    let w = without(m, pane);
    if w.contains(other) {
        let k = choose|k: int| 0 <= k < w.len() && w[k] == other;
        assert(m.contains(w[k]));
    }
    if m.contains(other) {
        let k = choose|k: int| 0 <= k < m.len() && m[k] == other;
        let t = m.drop_last();
        lemma_without_others(t, pane, other);
        if k < t.len() {
            assert(t[k] == other);
            let u = without(t, pane);
            let n = choose|n: int| 0 <= n < u.len() && u[n] == other;
            assert(w[n] == other);
        } else {
            assert(w[w.len() - 1] == other);
        }
    }
}

/// After its session ends, a pane has no entry.
pub proof fn an_ended_session_has_no_entry(m: Seq<Item>, pane: Seq<char>, label: Seq<char>)
    ensures
        !has_pane(applied(m, "end"@, pane, label), pane),
{
    lemma_without(m, pane);
}

/// Whatever it did before, a pane that starts is shown at work.
pub proof fn a_start_shows_work(m: Seq<Item>, pane: Seq<char>, label: Seq<char>)
    ensures
        ({
            let a = applied(m, "start"@, pane, label);
            has_pane(a, pane) && a[place(a, pane)].st == St::Run
        }),
{
    reveal_strlit("start");
    reveal_strlit("end");
    assert("start"@.len() == 5 && "end"@.len() == 3);
    lemma_place(m, pane);
    let i = place(m, pane);
    let a = applied(m, "start"@, pane, label);
    if i < m.len() {
        assert(a[i].pane == pane);
        lemma_place_is(a, pane, i);
    } else {
        assert(a[m.len() as int].pane == pane);
        lemma_place_is(a, pane, m.len() as int);
    }
}

/// Once finished, a pane is not shown as waiting however often it asks for
/// attention.
pub proof fn a_finished_pane_does_not_ask(st: St)
    requires
        st == St::Done || st == St::Seen,
    ensures
        st.step("question"@) == st,
        st.step("answer"@) == st,
{
    reveal_strlit("start");
    reveal_strlit("question");
    reveal_strlit("answer");
    assert("start"@.len() == 5 && "question"@.len() == 8 && "answer"@.len() == 6);
}

/// Entry `j` is shown rather than entry `i`: its state matters more, or both
/// matter as much and it started earlier.
pub open spec fn ahead(m: Seq<Item>, j: int, i: int) -> bool {
    m[j].st.rank() < m[i].st.rank() || (m[j].st.rank() == m[i].st.rank() && j < i)
}

/// How many of the first `n` entries are shown rather than entry `i`.
pub open spec fn ahead_of(m: Seq<Item>, i: int, n: int) -> nat
    decreases n,
{
    if n <= 0 {
        0
    } else {
        ahead_of(m, i, n - 1) + if ahead(m, n - 1, i) {
            1nat
        } else {
            0nat
        }
    }
}

/// Entry `i` is among the `max` that are shown.
pub open spec fn chosen(m: Seq<Item>, max: nat, i: int) -> bool {
    ahead_of(m, i, m.len() as int) < max
}

/// The chosen ones of the first `n` entries, in the order in which they started.
pub open spec fn chosen_of(m: Seq<Item>, max: nat, n: int) -> Seq<Item>
    decreases n,
{
    if n <= 0 {
        seq![]
    } else if chosen(m, max, n - 1) {
        chosen_of(m, max, n - 1).push(m[n - 1])
    } else {
        chosen_of(m, max, n - 1)
    }
}

/// The rows that are shown where there is room for `max`.
pub open spec fn rows_of(m: Seq<Item>, max: nat) -> Seq<Item> {
    chosen_of(m, max, m.len() as int)
}

impl Model {
    /// The rows to show, at most `max`.
    ///
    /// They are chosen by state, those that wait for the user first, and shown
    /// in the order in which they started, so that rows do not change places
    /// when a state changes.
    pub fn rows(&self, max: usize) -> (r: Vec<Row>)
        ensures
            rows_view(r@) == rows_of(self@, max as nat),
    {
        let n: usize = self.entries.len();
        let mut rows: Vec<Row> = Vec::new();
        assert(rows_view(rows@) =~= seq![]);
        for i in 0..n
            invariant
                n == self.entries@.len(),
                rows_view(rows@) == chosen_of(self@, max as nat, i as int),
        {
            let ahead: usize = self.ahead(i);
            if ahead < max {
                let ghost before = rows@;
                let e = &self.entries[i];
                let row = Row { pane: e.pane.clone(), label: e.label.clone(), st: e.st };
                rows.push(row);
                assert(rows_view(rows@) =~= rows_view(before).push(self@[i as int]));
            }
        }
        rows
    }

    /// How many entries are shown rather than entry `i`.
    fn ahead(&self, i: usize) -> (r: usize)
        requires
            i < self.entries@.len(),
        ensures
            r == ahead_of(self@, i as int, self@.len() as int),
    {
        let n: usize = self.entries.len();
        let p: u8 = self.entries[i].st.prio();
        let mut count: usize = 0;
        for j in 0..n
            invariant
                i < n == self.entries@.len(),
                p == self@[i as int].st.rank(),
                count <= j,
                count == ahead_of(self@, i as int, j as int),
        {
            let q: u8 = self.entries[j].st.prio();
            assert(self@[j as int] == self.entries@[j as int]@);
            if q < p || (q == p && j < i) {
                count = count + 1;
            }
        }
        count
    }
}

proof fn lemma_ahead_of_bounds(m: Seq<Item>, i: int, n: int)
    requires
        0 <= n <= m.len(),
    ensures
        ahead_of(m, i, n) <= n,
        0 <= i < n ==> ahead_of(m, i, n) < n,
    decreases n,
{
    if n > 0 {
        lemma_ahead_of_bounds(m, i, n - 1);
    }
}

/// What is ahead of `j` is ahead of everything that `j` is ahead of.
proof fn lemma_ahead_grows(m: Seq<Item>, j: int, i: int, n: int)
    requires
        0 <= n <= m.len(),
        ahead(m, j, i),
    ensures
        ahead_of(m, j, n) <= ahead_of(m, i, n),
        0 <= j < n ==> ahead_of(m, j, n) < ahead_of(m, i, n),
    decreases n,
{
    if n > 0 {
        lemma_ahead_grows(m, j, i, n - 1);
    }
}

/// Where there is room for all, all are shown, unchanged.
pub proof fn all_are_shown_where_they_fit(m: Seq<Item>, max: nat)
    requires
        m.len() <= max,
    ensures
        rows_of(m, max) == m,
{
    lemma_all_chosen(m, max, m.len() as int);
    assert(m.take(m.len() as int) =~= m);
}

proof fn lemma_all_chosen(m: Seq<Item>, max: nat, n: int)
    requires
        m.len() <= max,
        0 <= n <= m.len(),
    ensures
        chosen_of(m, max, n) == m.take(n),
    decreases n,
{
    if n > 0 {
        lemma_all_chosen(m, max, n - 1);
        lemma_ahead_of_bounds(m, n - 1, m.len() as int);
        assert(m.take(n) =~= m.take(n - 1).push(m[n - 1]));
    } else {
        assert(m.take(0) =~= seq![]);
    }
}

/// Nobody who matters more is left out in favour of somebody who matters less,
/// nor an earlier one in favour of a later one that matters as much.
pub proof fn attention_goes_first(m: Seq<Item>, max: nat, shown: int, left_out: int)
    requires
        0 <= shown < m.len(),
        0 <= left_out < m.len(),
        chosen(m, max, shown),
        !chosen(m, max, left_out),
    ensures
        ahead(m, shown, left_out),
        m[shown].st.rank() <= m[left_out].st.rank(),
{
    if !ahead(m, shown, left_out) {
        if shown != left_out {
            assert(ahead(m, left_out, shown));
            lemma_ahead_grows(m, left_out, shown, m.len() as int);
        }
    }
}

/// The places of the chosen ones among the first `n` entries.
spec fn chosen_places(m: Seq<Item>, max: nat, n: int) -> Set<int> {
    Set::new(|i: int| 0 <= i < n && chosen(m, max, i))
}

proof fn lemma_chosen_places(m: Seq<Item>, max: nat, n: int)
    requires
        0 <= n <= m.len(),
    ensures
        chosen_places(m, max, n).finite(),
        chosen_places(m, max, n).len() == chosen_of(m, max, n).len(),
    decreases n,
{
    let s = chosen_places(m, max, n);
    if n == 0 {
        assert(s =~= Set::empty());
    } else {
        lemma_chosen_places(m, max, n - 1);
        let t = chosen_places(m, max, n - 1);
        if chosen(m, max, n - 1) {
            assert(s =~= t.insert(n - 1));
        } else {
            assert(s =~= t);
        }
    }
}

/// No two entries have as many ahead of them.
proof fn lemma_ranks_differ(m: Seq<Item>)
    ensures
        vstd::relations::injective_on(
            |i: int| ahead_of(m, i, m.len() as int) as int,
            vstd::set_lib::set_int_range(0, m.len() as int),
        ),
{
    let n = m.len() as int;
    let f = |i: int| ahead_of(m, i, n) as int;
    assert forall|i: int, j: int|
        vstd::set_lib::set_int_range(0, n).contains(i) && vstd::set_lib::set_int_range(0, n).contains(j) && #[trigger] f(i)
            == #[trigger] f(j) implies i == j by {
        if i != j {
            if ahead(m, i, j) {
                lemma_ahead_grows(m, i, j, n);
            } else {
                lemma_ahead_grows(m, j, i, n);
            }
        }
    }
}

/// As many rows are shown as there are entries and room for them.
pub proof fn room_is_used(m: Seq<Item>, max: nat)
    ensures
        rows_of(m, max).len() == panel::least(m.len() as int, max as int),
{
    let n = m.len() as int;
    let f = |i: int| ahead_of(m, i, n) as int;
    let all = vstd::set_lib::set_int_range(0, n);
    let image = all.map(f);
    vstd::set_lib::lemma_int_range(0, n);
    lemma_ranks_differ(m);
    vstd::set_lib::lemma_map_size(all, image, f);
    assert forall|v: int| image.contains(v) implies all.contains(v) by {
        let i = choose|i: int| all.contains(i) && f(i) == v;
        lemma_ahead_of_bounds(m, i, n);
    }
    assert(image.subset_of(all));
    vstd::set_lib::lemma_subset_equality(image, all);
    let top = panel::least(n, max as int);
    let low = vstd::set_lib::set_int_range(0, top);
    vstd::set_lib::lemma_int_range(0, top);
    let places = chosen_places(m, max, n);
    lemma_chosen_places(m, max, n);
    assert forall|v: int| low.contains(v) implies places.map(f).contains(v) by {
        assert(image.contains(v));
        let i = choose|i: int| all.contains(i) && f(i) == v;
        assert(places.contains(i));
    }
    assert forall|v: int| places.map(f).contains(v) implies low.contains(v) by {
        let i = choose|i: int| places.contains(i) && f(i) == v;
        lemma_ahead_of_bounds(m, i, n);
    }
    assert(places.map(f) =~= low);
    assert(vstd::relations::injective_on(f, places));
    vstd::set_lib::lemma_map_size(places, low, f);
}

/// The place of a pane in a list, or the length if it is not there.
pub open spec fn pane_at(alive: Seq<tmux::Pane>, id: Seq<char>) -> int
    decreases alive.len(),
{
    if alive.len() == 0 || alive[0].id == id {
        0
    } else {
        1 + pane_at(alive.drop_first(), id)
    }
}

/// The entries whose pane is alive, each with what is now to be written beside
/// it.
pub open spec fn still_there(m: Seq<Item>, alive: Seq<tmux::Pane>) -> Seq<Item>
    decreases m.len(),
{
    if m.len() == 0 {
        m
    } else {
        let rest = still_there(m.drop_last(), alive);
        let e = m.last();
        let i = pane_at(alive, e.pane);
        if 0 <= i < alive.len() {
            rest.push(Item { label: label_of(alive[i].title, alive[i].cwd), ..e })
        } else {
            rest
        }
    }
}

/// The entries after a look at the panes. Without a list of panes they stay,
/// unless no server runs: then nothing runs in it.
pub open spec fn refreshed(
    m: Seq<Item>,
    alive: Option<Seq<tmux::Pane>>,
    server: bool,
) -> Seq<Item> {
    match alive {
        Some(a) => still_there(m, a),
        None => if server {
            m
        } else {
            seq![]
        },
    }
}

pub open spec fn opt_panes(o: Option<&Vec<PaneInfo>>) -> Option<Seq<tmux::Pane>> {
    match o {
        Some(v) => Some(tmux::panes_view(v@)),
        None => None,
    }
}

proof fn lemma_pane_at(alive: Seq<tmux::Pane>, id: Seq<char>, i: int)
    requires
        0 <= i <= alive.len(),
        i < alive.len() ==> alive[i].id == id,
        forall|j: int| 0 <= j < i ==> (#[trigger] alive[j]).id != id,
    ensures
        pane_at(alive, id) == i,
    decreases i,
{
    if i > 0 {
        assert(alive[0].id != id);
        let t = alive.drop_first();
        assert forall|j: int| 0 <= j < i - 1 implies (#[trigger] t[j]).id != id by {
            assert(alive[j + 1].id != id);
        }
        lemma_pane_at(t, id, i - 1);
    }
}

/// The place of a pane in a list, or the length if it is not there.
fn find_pane(alive: &Vec<PaneInfo>, id: &str) -> (r: usize)
    ensures
        r == pane_at(tmux::panes_view(alive@), id@),
        r <= alive@.len(),
{
    let n: usize = alive.len();
    let mut i: usize = 0;
    let ghost v = tmux::panes_view(alive@);
    while i < n && !same(alive[i].id.as_str(), id)
        invariant
            i <= n == alive@.len(),
            v == tmux::panes_view(alive@),
            forall|j: int| 0 <= j < i ==> (#[trigger] v[j]).id != id@,
        decreases n - i,
    {
        i = i + 1;
    }
    proof {
        if i < n {
            assert(v[i as int].id == id@);
        }
        lemma_pane_at(v, id@, i as int);
    }
    i
}

/// Drops the entries whose pane is gone and follows what the others do now.
/// `server` says whether a tmux server runs; it counts only where there is no
/// list of panes.
pub fn refresh(model: &mut Model, alive: Option<&Vec<PaneInfo>>, server: bool)
    requires
        old(model).wf(),
    ensures
        final(model).wf(),
        final(model)@ == refreshed(old(model)@, opt_panes(alive), server),
{
    let ghost all = model@;
    match alive {
        Some(alive) => {
            let ghost panes = tmux::panes_view(alive@);
            let n: usize = model.entries.len();
            let mut kept: Vec<Entry> = Vec::new();
            assert(kept@.map_values(|e: Entry| e@) =~= still_there(all.take(0), panes));
            for i in 0..n
                invariant
                    n == model.entries@.len(),
                    all == model@,
                    panes == tmux::panes_view(alive@),
                    kept@.map_values(|e: Entry| e@) == still_there(all.take(i as int), panes),
            {
                assert(all.take(i + 1).drop_last() =~= all.take(i as int));
                assert(all[i as int] == model.entries@[i as int]@);
                let k: usize = find_pane(alive, model.entries[i].pane.as_str());
                if k < alive.len() {
                    let ghost before = kept@;
                    let e = Entry {
                        pane: model.entries[i].pane.clone(),
                        label: label(alive[k].title.as_str(), alive[k].cwd.as_str()),
                        st: model.entries[i].st,
                    };
                    kept.push(e);
                    assert(kept@.map_values(|e: Entry| e@) =~= before.map_values(
                        |e: Entry| e@,
                    ).push(e@));
                }
            }
            assert(all.take(n as int) =~= all);
            proof {
                lemma_still_there(all, panes);
            }
            model.entries = kept;
        },
        None => {
            if !server {
                model.entries = Vec::new();
                assert(model@ =~= seq![]);
            }
        },
    }
}

proof fn lemma_still_there(m: Seq<Item>, alive: Seq<tmux::Pane>)
    ensures
        forall|i: int|
            0 <= i < still_there(m, alive).len() ==> has_pane(
                m,
                (#[trigger] still_there(m, alive)[i]).pane,
            ),
        panes_differ(m) ==> panes_differ(still_there(m, alive)),
    decreases m.len(),
{
    if m.len() > 0 {
        let t = m.drop_last();
        let w = still_there(t, alive);
        let all = still_there(m, alive);
        lemma_still_there(t, alive);
        assert forall|i: int| 0 <= i < all.len() implies has_pane(m, (#[trigger] all[i]).pane) by {
            if i < w.len() {
                assert(has_pane(t, w[i].pane));
                let k = choose|k: int| 0 <= k < t.len() && (#[trigger] t[k]).pane == w[i].pane;
                assert(m[k].pane == all[i].pane);
            } else {
                assert(m[m.len() - 1].pane == all[i].pane);
            }
        }
        if panes_differ(m) {
            assert forall|i: int, j: int| 0 <= i < j < t.len() implies (#[trigger] t[i]).pane != (
            #[trigger] t[j]).pane by {
                assert(m[i].pane != m[j].pane);
            }
            assert forall|i: int, j: int| 0 <= i < j < all.len() implies (#[trigger] all[i]).pane
                != (#[trigger] all[j]).pane by {
                if j < w.len() {
                    assert(w[i].pane != w[j].pane);
                } else {
                    assert(has_pane(t, w[i].pane));
                    let k = choose|k: int| 0 <= k < t.len() && (#[trigger] t[k]).pane == w[i].pane;
                    assert(m[k].pane != m[m.len() - 1].pane);
                }
            }
        }
    }
}

/// After a look at the panes, every entry left has a pane that is alive.
pub proof fn vanished_panes_leave(m: Seq<Item>, alive: Seq<tmux::Pane>, i: int)
    requires
        0 <= i < still_there(m, alive).len(),
    ensures
        exists|k: int|
            0 <= k < alive.len() && (#[trigger] alive[k]).id == still_there(m, alive)[i].pane
                && still_there(m, alive)[i].label == label_of(alive[k].title, alive[k].cwd),
    decreases m.len(),
{
    let t = m.drop_last();
    let w = still_there(t, alive);
    if i < w.len() {
        vanished_panes_leave(t, alive, i);
    } else {
        let e = m.last();
        lemma_pane_at_hits(alive, e.pane);
        let k = pane_at(alive, e.pane);
        assert(alive[k].id == e.pane);
    }
}

proof fn lemma_pane_at_hits(alive: Seq<tmux::Pane>, id: Seq<char>)
    ensures
        0 <= pane_at(alive, id) <= alive.len(),
        pane_at(alive, id) < alive.len() ==> alive[pane_at(alive, id)].id == id,
    decreases alive.len(),
{
    if alive.len() > 0 && alive[0].id != id {
        lemma_pane_at_hits(alive.drop_first(), id);
    }
}

/// A line of a status report.
pub open spec fn status_line(e: Item) -> Seq<char> {
    e.pane + " "@ + e.st.text() + " "@ + (if e.label.len() == 0 {
        "?"@
    } else {
        e.label
    }) + "\n"@
}

/// A line for each of the first `n` entries.
pub open spec fn status_lines(m: Seq<Item>, n: int) -> Seq<char>
    decreases n,
{
    if n <= 0 {
        seq![]
    } else {
        status_lines(m, n - 1) + status_line(m[n - 1])
    }
}

/// The answer to a request for the status; `who` is what the assistants are
/// called.
pub open spec fn status_of(m: Seq<Item>, who: Seq<char>) -> Seq<char> {
    if m.len() == 0 {
        "(表示中の "@ + who + " なし)\n"@
    } else {
        status_lines(m, m.len() as int)
    }
}

impl Model {
    /// The answer to a request for the status; `who` is what the assistants are
    /// called.
    pub fn status(&self, who: &str) -> (r: String)
        ensures
            r@ == status_of(self@, who@),
    {
        let n: usize = self.entries.len();
        if n == 0 {
            let mut s = "(表示中の ".to_owned();
            s.append(who);
            s.append(" なし)\n");
            assert(s@ =~= status_of(self@, who@));
            return s;
        }
        let mut s = String::new();
        for i in 0..n
            invariant
                n == self.entries@.len(),
                s@ == status_lines(self@, i as int),
        {
            let e = &self.entries[i];
            let ghost before = s@;
            assert(self@[i as int] == e@);
            s.append(e.pane.as_str());
            s.append(" ");
            s.append(e.st.word());
            s.append(" ");
            if e.label.unicode_len() == 0 {
                s.append("?");
            } else {
                s.append(e.label.as_str());
            }
            s.append("\n");
            assert(s@ =~= before + status_line(e@));
        }
        s
    }
}

/// The directory in which the sockets lie.
pub open spec fn runtime_dir(var: Option<Seq<char>>) -> Seq<char> {
    match var {
        Some(d) => if d.len() > 0 {
            d
        } else {
            "/tmp"@
        },
        None => "/tmp"@,
    }
}

/// The socket on which hooks reach the daemon.
pub open spec fn socket_of(var: Option<Seq<char>>) -> Seq<char> {
    let dir = runtime_dir(var);
    if dir.last() == '/' {
        dir + "task-var.sock"@
    } else {
        dir + "/"@ + "task-var.sock"@
    }
}

/// The socket on which hooks reach the daemon; `var` is `XDG_RUNTIME_DIR`.
pub fn socket_path(var: Option<&str>) -> (r: String)
    ensures
        r@ == socket_of(scan::opt_str(var)),
{
    let dir = match var {
        Some(d) => if d.unicode_len() > 0 {
            d
        } else {
            "/tmp"
        },
        None => "/tmp",
    };
    let mut path = dir.to_owned();
    proof {
        reveal_strlit("/tmp");
    }
    let n: usize = dir.unicode_len();
    if dir.get_char(n - 1) != '/' {
        path.append("/");
    }
    path.append("task-var.sock");
    path
}

/// What a message does to the entries: a request for the status changes
/// nothing, a hook without a pane neither.
pub open spec fn after_message(
    m: Seq<Item>,
    cmd: Seq<char>,
    pane: Option<Seq<char>>,
    label: Seq<char>,
) -> Seq<Item> {
    match pane {
        Some(p) => if cmd == "status"@ {
            m
        } else {
            applied(m, cmd, p, label)
        },
        None => m,
    }
}

/// Takes a message from the socket. A request for the status gets an answer, in
/// which the assistants are called `who`; every other message is a hook and
/// counts if it names a pane.
pub fn receive(
    model: &mut Model,
    cmd: &str,
    pane: Option<&str>,
    info: Option<&PaneInfo>,
    who: &str,
) -> (r: Option<String>)
    requires
        old(model).wf(),
    ensures
        final(model).wf(),
        final(model)@ == after_message(
            old(model)@,
            cmd@,
            scan::opt_str(pane),
            new_label(opt_pane(info)),
        ),
        scan::opt_text(r) == if cmd@ == "status"@ {
            Some(status_of(old(model)@, who@))
        } else {
            None
        },
{
    if same(cmd, "status") {
        return Some(model.status(who));
    }
    match pane {
        Some(p) => model.apply(cmd, p, info),
        None => {},
    }
    None
}

/// Where all fit, a hook of a pane that has an entry moves no row: each keeps
/// its place, so that a finger aims at what it saw.
pub proof fn rows_do_not_jump(
    m: Seq<Item>,
    cmd: Seq<char>,
    pane: Seq<char>,
    label: Seq<char>,
    max: nat,
    i: int,
)
    requires
        m.len() <= max,
        has_pane(m, pane),
        cmd != "end"@,
        0 <= i < m.len(),
    ensures
        rows_of(applied(m, cmd, pane, label), max).len() == rows_of(m, max).len(),
        rows_of(applied(m, cmd, pane, label), max)[i].pane == rows_of(m, max)[i].pane,
        rows_of(applied(m, cmd, pane, label), max)[i].label == rows_of(m, max)[i].label,
{
    lemma_place(m, pane);
    all_are_shown_where_they_fit(m, max);
    all_are_shown_where_they_fit(applied(m, cmd, pane, label), max);
}

/// The rows are those that are chosen, each once, in the order in which they
/// started.
pub proof fn rows_keep_their_order(m: Seq<Item>, max: nat, k: int, l: int) -> (r: (int, int))
    requires
        0 <= k < l < rows_of(m, max).len(),
    ensures
        0 <= r.0 < r.1 < m.len(),
        m[r.0] == rows_of(m, max)[k],
        m[r.1] == rows_of(m, max)[l],
        chosen(m, max, r.0),
        chosen(m, max, r.1),
{
    lemma_order(m, max, m.len() as int, k, l)
}

proof fn lemma_order(m: Seq<Item>, max: nat, n: int, k: int, l: int) -> (r: (int, int))
    requires
        0 <= n <= m.len(),
        0 <= k < l < chosen_of(m, max, n).len(),
    ensures
        0 <= r.0 < r.1 < n,
        m[r.0] == chosen_of(m, max, n)[k],
        m[r.1] == chosen_of(m, max, n)[l],
        chosen(m, max, r.0),
        chosen(m, max, r.1),
    decreases n,
{
    if chosen(m, max, n - 1) && l == chosen_of(m, max, n - 1).len() {
        (lemma_source(m, max, n - 1, k), n - 1)
    } else {
        lemma_order(m, max, n - 1, k, l)
    }
}

proof fn lemma_source(m: Seq<Item>, max: nat, n: int, k: int) -> (r: int)
    requires
        0 <= n <= m.len(),
        0 <= k < chosen_of(m, max, n).len(),
    ensures
        0 <= r < n,
        m[r] == chosen_of(m, max, n)[k],
        chosen(m, max, r),
    decreases n,
{
    if chosen(m, max, n - 1) && k == chosen_of(m, max, n - 1).len() {
        n - 1
    } else {
        lemma_source(m, max, n - 1, k)
    }
}

/// The hooks have different names.
proof fn lemma_hooks_differ()
    ensures
        "start"@ != "question"@,
        "start"@ != "answer"@,
        "start"@ != "stop"@,
        "start"@ != "seen"@,
        "start"@ != "end"@,
        "question"@ != "answer"@,
        "question"@ != "stop"@,
        "question"@ != "seen"@,
        "question"@ != "end"@,
        "answer"@ != "stop"@,
        "answer"@ != "seen"@,
        "answer"@ != "end"@,
        "stop"@ != "seen"@,
        "stop"@ != "end"@,
        "seen"@ != "end"@,
{
    reveal_strlit("start");
    reveal_strlit("question");
    reveal_strlit("answer");
    reveal_strlit("stop");
    reveal_strlit("seen");
    reveal_strlit("end");
    assert("start"@.len() == 5 && "question"@.len() == 8 && "answer"@.len() == 6 && "stop"@.len()
        == 4 && "seen"@.len() == 4 && "end"@.len() == 3);
    assert("stop"@[1] == 't' && "seen"@[1] == 'e');
}

/// A tap is noted by one that has finished, and by nobody else: one at work
/// stays at work, one that waits goes on waiting.
pub proof fn only_the_finished_note_a_tap(st: St)
    ensures
        st != St::Done ==> st.step("seen"@) == st,
        St::Done.step("seen"@) == St::Seen,
        St::Run.step("seen"@) == St::Run,
        St::Ask.step("seen"@) == St::Ask,
        st.step("seen"@).step("seen"@) == st.step("seen"@),
{
    lemma_hooks_differ();
}

/// Work starts from any state and ends from any state. One at work may ask, and
/// goes on when it is answered; nobody else does.
pub proof fn hooks_lead_from_state_to_state(st: St)
    ensures
        st.step("start"@) == St::Run,
        st.step("stop"@) == St::Done,
        st.step("question"@) == St::Ask <==> st == St::Run || st == St::Ask,
        st != St::Run ==> st.step("question"@) == st,
        st.step("answer"@) == St::Run <==> st == St::Run || st == St::Ask,
        st != St::Ask ==> st.step("answer"@) == st,
        St::Run.step("question"@).step("answer"@) == St::Run,
{
    lemma_hooks_differ();
}

/// A word that is no hook leaves every state as it is.
pub proof fn other_words_are_no_hooks(st: St, cmd: Seq<char>)
    requires
        cmd != "start"@,
        cmd != "question"@,
        cmd != "answer"@,
        cmd != "stop"@,
        cmd != "seen"@,
    ensures
        st.step(cmd) == st,
{
}

/// A hook of a pane that has an entry changes the state of that entry alone: no
/// entry comes or goes, and each keeps its place, its pane and its text.
pub proof fn a_hook_changes_one_state(
    m: Seq<Item>,
    cmd: Seq<char>,
    pane: Seq<char>,
    label: Seq<char>,
    i: int,
    j: int,
)
    requires
        panes_differ(m),
        0 <= i < m.len(),
        0 <= j < m.len(),
        m[i].pane == pane,
        cmd != "end"@,
    ensures
        ({
            let a = applied(m, cmd, pane, label);
            &&& a.len() == m.len()
            &&& a[j].pane == m[j].pane
            &&& a[j].label == m[j].label
            &&& j != i ==> a[j].st == m[j].st
            &&& cmd == "start"@ ==> a[i].st == St::Run
            &&& cmd == "stop"@ ==> a[i].st == St::Done
            &&& cmd == "question"@ && m[i].st == St::Run ==> a[i].st == St::Ask
            &&& cmd == "question"@ && m[i].st != St::Run ==> a[i].st == m[i].st
            &&& cmd == "answer"@ && m[i].st == St::Ask ==> a[i].st == St::Run
            &&& cmd == "answer"@ && m[i].st != St::Ask ==> a[i].st == m[i].st
            &&& cmd == "seen"@ && m[i].st == St::Done ==> a[i].st == St::Seen
            &&& cmd == "seen"@ && m[i].st != St::Done ==> a[i].st == m[i].st
        }),
{
    lemma_hooks_differ();
    lemma_place(m, pane);
    let p = place(m, pane);
    assert(has_pane(m, pane)) by {
        assert(m[i].pane == pane);
    }
    if p < i {
        assert(m[p].pane != m[i].pane);
    } else if i < p {
        assert(m[i].pane != pane);
    }
    assert(p == i);
}

/// A pane without an entry gets one by starting, at the end of the list and at
/// work; no other hook changes anything.
pub proof fn only_a_start_makes_an_entry(
    m: Seq<Item>,
    cmd: Seq<char>,
    pane: Seq<char>,
    label: Seq<char>,
)
    requires
        forall|i: int| 0 <= i < m.len() ==> (#[trigger] m[i]).pane != pane,
    ensures
        cmd != "start"@ ==> applied(m, cmd, pane, label) == m,
        applied(m, "start"@, pane, label) == m.push(Item { pane, label, st: St::Run }),
{
    lemma_hooks_differ();
    lemma_place(m, pane);
    lemma_without(m, pane);
}

/// When its session ends, a pane's entry leaves, and the others stay in their
/// order and unchanged.
pub proof fn an_end_removes_the_entry_alone(m: Seq<Item>, pane: Seq<char>, label: Seq<char>)
    ensures
        applied(m, "end"@, pane, label) == m.filter(|e: Item| e.pane != pane),
    decreases m.len(),
{
    reveal(Seq::filter);
    if m.len() > 0 {
        an_end_removes_the_entry_alone(m.drop_last(), pane, label);
    }
}

proof fn lemma_chosen_is_there(m: Seq<Item>, max: nat, n: int, i: int)
    requires
        0 <= i < n <= m.len(),
        chosen(m, max, i),
    ensures
        chosen_of(m, max, n).contains(m[i]),
    decreases n,
{
    let all = chosen_of(m, max, n);
    if i == n - 1 {
        assert(all[all.len() - 1] == m[i]);
    } else {
        lemma_chosen_is_there(m, max, n - 1, i);
        let t = chosen_of(m, max, n - 1);
        let k = choose|k: int| 0 <= k < t.len() && t[k] == m[i];
        assert(all[k] == m[i]);
    }
}

proof fn lemma_chosen_has_a_source(m: Seq<Item>, max: nat, n: int, k: int) -> (r: int)
    requires
        0 <= n <= m.len(),
        0 <= k < chosen_of(m, max, n).len(),
    ensures
        0 <= r < n,
        chosen(m, max, r),
        m[r] == chosen_of(m, max, n)[k],
    decreases n,
{
    if chosen(m, max, n - 1) && k == chosen_of(m, max, n).len() - 1 {
        n - 1
    } else {
        lemma_chosen_has_a_source(m, max, n - 1, k)
    }
}

/// Where one that waits for an answer is left out, all that are shown wait for
/// one. Where one that has finished is left out, all that are shown wait or have
/// finished. Where one at work is left out, nobody is shown of whom the user has
/// taken note.
pub proof fn those_that_wait_are_shown_first(m: Seq<Item>, max: nat, left_out: int, k: int)
    requires
        0 <= left_out < m.len(),
        !rows_of(m, max).contains(m[left_out]),
        0 <= k < rows_of(m, max).len(),
    ensures
        m[left_out].st == St::Ask ==> rows_of(m, max)[k].st == St::Ask,
        m[left_out].st == St::Done ==> rows_of(m, max)[k].st == St::Ask || rows_of(m, max)[k].st
            == St::Done,
        m[left_out].st == St::Run ==> rows_of(m, max)[k].st != St::Seen,
{
    let n = m.len() as int;
    if chosen(m, max, left_out) {
        lemma_chosen_is_there(m, max, n, left_out);
    }
    let r = lemma_chosen_has_a_source(m, max, n, k);
    attention_goes_first(m, max, r, left_out);
}

/// Of two in the same state the one that started earlier is shown if only one
/// of them is.
pub proof fn the_earlier_is_shown_first(m: Seq<Item>, max: nat, i: int, j: int)
    requires
        panes_differ(m),
        0 <= i < j < m.len(),
        m[i].st == m[j].st,
        rows_of(m, max).contains(m[j]),
    ensures
        rows_of(m, max).contains(m[i]),
{
    let n = m.len() as int;
    let rows = rows_of(m, max);
    let k = choose|k: int| 0 <= k < rows.len() && rows[k] == m[j];
    let r = lemma_chosen_has_a_source(m, max, n, k);
    if r < j {
        assert(m[r].pane != m[j].pane);
    } else if j < r {
        assert(m[j].pane != m[r].pane);
    }
    if !chosen(m, max, i) {
        attention_goes_first(m, max, r, i);
    } else {
        lemma_chosen_is_there(m, max, n, i);
    }
}

/// The rows are the entries that are shown, in the order in which they started
/// and unchanged.
pub proof fn rows_are_entries_in_order(m: Seq<Item>, max: nat)
    requires
        panes_differ(m),
    ensures
        rows_of(m, max) == m.filter(|e: Item| rows_of(m, max).contains(e)),
        m.len() <= max ==> rows_of(m, max) == m,
        m.len() > max ==> rows_of(m, max).len() == max,
{
    let n = m.len() as int;
    if m.len() <= max {
        all_are_shown_where_they_fit(m, max);
    }
    room_is_used(m, max);
    lemma_rows_filter(m, max, n);
    assert(m.take(n) =~= m);
}

proof fn lemma_rows_filter(m: Seq<Item>, max: nat, n: int)
    requires
        panes_differ(m),
        0 <= n <= m.len(),
    ensures
        chosen_of(m, max, n) == m.take(n).filter(|e: Item| rows_of(m, max).contains(e)),
    decreases n,
{
    reveal(Seq::filter);
    let rows = rows_of(m, max);
    let t = m.take(n);
    if n > 0 {
        lemma_rows_filter(m, max, n - 1);
        assert(t.drop_last() =~= m.take(n - 1));
        if chosen(m, max, n - 1) {
            lemma_chosen_is_there(m, max, m.len() as int, n - 1);
        } else if rows.contains(m[n - 1]) {
            let k = choose|k: int| 0 <= k < rows.len() && rows[k] == m[n - 1];
            let r = lemma_chosen_has_a_source(m, max, m.len() as int, k);
            if r < n - 1 {
                assert(m[r].pane != m[n - 1].pane);
            } else {
                assert(m[n - 1].pane != m[r].pane);
            }
        }
    }
}

/// A look at the panes leaves exactly the entries whose pane is there, in their
/// order, each with its pane and its state. Without a list they all stay, and
/// without a server they all leave.
pub proof fn a_look_keeps_the_living(m: Seq<Item>, alive: Seq<tmux::Pane>, server: bool)
    ensures
        refreshed(m, Some(alive), server).map_values(|e: Item| (e.pane, e.st)) == m.filter(
            |e: Item| exists|k: int| 0 <= k < alive.len() && (#[trigger] alive[k]).id == e.pane,
        ).map_values(|e: Item| (e.pane, e.st)),
        refreshed(m, None, true) == m,
        refreshed(m, None, false) == Seq::<Item>::empty(),
    decreases m.len(),
{
    reveal(Seq::filter);
    let lives = |e: Item|
        exists|k: int| 0 <= k < alive.len() && (#[trigger] alive[k]).id == e.pane;
    let key = |e: Item| (e.pane, e.st);
    let now = still_there(m, alive);
    if m.len() == 0 {
        assert(now.map_values(key) =~= m.filter(lives).map_values(key));
    } else {
        let e = m.last();
        let t = m.drop_last();
        a_look_keeps_the_living(t, alive, server);
        lemma_pane_is_there(alive, e.pane);
        let i = pane_at(alive, e.pane);
        let rest = still_there(t, alive);
        if i < alive.len() {
            let new = Item { label: label_of(alive[i].title, alive[i].cwd), ..e };
            assert(lives(e));
            assert(now.map_values(key) =~= rest.map_values(key).push(key(new)));
            assert(m.filter(lives).map_values(key) =~= t.filter(lives).map_values(key).push(
                key(e),
            ));
        } else {
            assert(!lives(e));
        }
        assert(now.map_values(key) =~= m.filter(lives).map_values(key));
    }
}

proof fn lemma_pane_is_there(alive: Seq<tmux::Pane>, id: Seq<char>)
    ensures
        0 <= pane_at(alive, id) <= alive.len(),
        pane_at(alive, id) < alive.len() <==> exists|k: int|
            0 <= k < alive.len() && (#[trigger] alive[k]).id == id,
        forall|k: int| 0 <= k < pane_at(alive, id) ==> (#[trigger] alive[k]).id != id,
    decreases alive.len(),
{
    lemma_pane_at_hits(alive, id);
    if alive.len() > 0 && alive[0].id != id {
        let t = alive.drop_first();
        lemma_pane_is_there(t, id);
        assert forall|k: int| 0 <= k < pane_at(alive, id) implies (#[trigger] alive[k]).id
            != id by {
            if k > 0 {
                assert(t[k - 1].id != id);
            }
        }
        if exists|k: int| 0 <= k < alive.len() && (#[trigger] alive[k]).id == id {
            let k = choose|k: int| 0 <= k < alive.len() && (#[trigger] alive[k]).id == id;
            assert(t[k - 1].id == id);
        }
    } else if alive.len() > 0 {
        assert(alive[0].id == id);
    }
}

/// What is written beside an entry after a look at the panes comes from its own
/// pane, whatever was written there before.
pub proof fn a_look_writes_what_the_pane_says(m: Seq<Item>, alive: Seq<tmux::Pane>, i: int, k: int)
    requires
        0 <= i < refreshed(m, Some(alive), true).len(),
        0 <= k < alive.len(),
        alive[k].id == refreshed(m, Some(alive), true)[i].pane,
        forall|j: int| 0 <= j < k ==> (#[trigger] alive[j]).id != alive[k].id,
    ensures
        refreshed(m, Some(alive), true)[i].label == label_of(alive[k].title, alive[k].cwd),
    decreases m.len(),
{
    let t = m.drop_last();
    if i < still_there(t, alive).len() {
        a_look_writes_what_the_pane_says(t, alive, i, k);
    } else {
        lemma_pane_at(alive, m.last().pane, k);
    }
}

/// A summary in the title is written without the mark before it.
pub proof fn a_summary_is_written_without_its_mark(
    mark: char,
    gap: Seq<char>,
    summary: Seq<char>,
    cwd: Seq<char>,
)
    requires
        mark == '\u{2733}' || mark == '\u{273b}' || mark == '\u{273d}' || mark == '\u{2736}' || mark
            == '\u{2722}' || mark == '*',
        forall|i: int| 0 <= i < gap.len() ==> scan::is_space(#[trigger] gap[i]),
        summary.len() > 0,
        !scan::is_space(summary[0]),
        !scan::is_space(summary.last()),
    ensures
        label_of(seq![mark] + gap + summary, cwd) == summary,
{
    let t = seq![mark] + gap + summary;
    let none = Seq::<char>::empty();
    assert(t.last() == summary.last());
    scan::only_outer_white_space_is_trimmed(none, t, none);
    assert(none + t + none =~= t);
    scan::only_outer_white_space_is_trimmed(gap, summary, none);
    assert(t.drop_first() =~= gap + summary + none);
}

/// Without a mark before it a title is no summary, and neither is a mark alone:
/// the name of the directory is written then, that is what follows the last
/// slash but for those at the end.
pub proof fn a_directory_is_written_by_its_name(
    title: Seq<char>,
    dir: Seq<char>,
    name: Seq<char>,
    slashes: Seq<char>,
)
    requires
        title.len() == 0 || ('!' <= title[0] <= '~' && title[0] != '*') || title == seq!['*'],
        title.len() > 0 ==> !scan::is_space(title.last()),
        name.len() > 0,
        forall|i: int| 0 <= i < name.len() ==> #[trigger] name[i] != '/',
        forall|i: int| 0 <= i < slashes.len() ==> #[trigger] slashes[i] == '/',
    ensures
        label_of(title, dir.push('/') + name + slashes) == name,
        label_of(title, name + slashes) == name,
{
    let none = Seq::<char>::empty();
    scan::only_outer_white_space_is_trimmed(none, title, none);
    assert(none + title + none =~= title);
    if title == seq!['*'] {
        assert(title.drop_first() =~= none + none + none);
        scan::only_outer_white_space_is_trimmed(none, none, none);
    }
    let path = dir.push('/') + name;
    assert(name[name.len() - 1] != '/');
    assert(path.last() == name.last());
    scan::only_trailing_copies_are_stripped(path, slashes, '/');
    scan::only_trailing_copies_are_stripped(name, slashes, '/');
    scan::the_last_part_follows_the_last_separator(dir, name, '/');
}

/// A new entry is named after its pane, or not at all if the pane could not be
/// asked.
pub proof fn a_new_entry_is_named_after_its_pane(p: tmux::Pane)
    ensures
        new_label(Some(p)) == label_of(p.title, p.cwd),
        new_label(None) == Seq::<char>::empty(),
{
}

/// A status report has a line for each entry, in order: the pane, the state and
/// the text, or a question mark in its place.
pub proof fn a_report_has_a_line_for_each(m: Seq<Item>, e: Item, who: Seq<char>)
    ensures
        status_of(m.push(e), who) == (if m.len() == 0 {
            Seq::<char>::empty()
        } else {
            status_of(m, who)
        }) + e.pane + seq![' '] + (match e.st {
            St::Run => seq!['r', 'u', 'n'],
            St::Ask => seq!['a', 's', 'k'],
            St::Done => seq!['d', 'o', 'n', 'e'],
            St::Seen => seq!['s', 'e', 'e', 'n'],
        }) + seq![' '] + (if e.label.len() == 0 {
            seq!['?']
        } else {
            e.label
        }) + seq!['\n'],
{
    reveal_strlit("run");
    reveal_strlit("ask");
    reveal_strlit("done");
    reveal_strlit("seen");
    reveal_strlit(" ");
    reveal_strlit("?");
    reveal_strlit("\n");
    let all = m.push(e);
    lemma_status_lines_agree(m, all, m.len() as int);
    assert(all[m.len() as int] == e);
    assert(status_of(all, who) == status_lines(m, m.len() as int) + status_line(e));
    assert(e.st.text() =~= match e.st {
        St::Run => seq!['r', 'u', 'n'],
        St::Ask => seq!['a', 's', 'k'],
        St::Done => seq!['d', 'o', 'n', 'e'],
        St::Seen => seq!['s', 'e', 'e', 'n'],
    });
    assert(" "@ =~= seq![' '] && "?"@ =~= seq!['?'] && "\n"@ =~= seq!['\n']);
}

proof fn lemma_status_lines_agree(a: Seq<Item>, b: Seq<Item>, n: int)
    requires
        0 <= n <= a.len(),
        n <= b.len(),
        forall|i: int| 0 <= i < n ==> #[trigger] a[i] == b[i],
    ensures
        status_lines(a, n) == status_lines(b, n),
    decreases n,
{
    if n > 0 {
        lemma_status_lines_agree(a, b, n - 1);
        assert(a[n - 1] == b[n - 1]);
    }
}

/// The socket lies in the directory that the variable names, and in `/tmp` where
/// it names none.
pub proof fn the_socket_lies_in_its_directory(dir: Seq<char>)
    requires
        dir.len() > 0,
        dir.last() != '/',
    ensures
        socket_of(Some(dir)) == dir + "/task-var.sock"@,
        socket_of(Some(dir.push('/'))) == socket_of(Some(dir)),
        socket_of(None) == "/tmp/task-var.sock"@,
        socket_of(Some(seq![])) == socket_of(None),
{
    reveal_strlit("/task-var.sock");
    reveal_strlit("task-var.sock");
    reveal_strlit("/tmp/task-var.sock");
    reveal_strlit("/tmp");
    reveal_strlit("/");
    assert("/task-var.sock"@ =~= "/"@ + "task-var.sock"@);
    assert(dir.push('/') =~= dir + "/"@);
    assert("/tmp/task-var.sock"@ =~= "/tmp"@ + "/"@ + "task-var.sock"@);
    assert(dir + "/task-var.sock"@ =~= dir + "/"@ + "task-var.sock"@);
}

/// A message without a pane changes nothing, nor does a request for the status;
/// every other is the hook of its pane.
pub proof fn a_message_counts_with_its_pane(
    m: Seq<Item>,
    cmd: Seq<char>,
    pane: Seq<char>,
    label: Seq<char>,
)
    ensures
        after_message(m, cmd, None, label) == m,
        after_message(m, "status"@, Some(pane), label) == m,
        cmd != "status"@ ==> after_message(m, cmd, Some(pane), label) == applied(
            m,
            cmd,
            pane,
            label,
        ),
{
}

/// White space around a title, and between the mark and the summary, does not
/// count.
pub proof fn white_space_around_a_title_does_not_count(
    a: Seq<char>,
    title: Seq<char>,
    b: Seq<char>,
    cwd: Seq<char>,
)
    requires
        forall|i: int| 0 <= i < a.len() ==> scan::is_space(#[trigger] a[i]),
        forall|i: int| 0 <= i < b.len() ==> scan::is_space(#[trigger] b[i]),
        title.len() > 0 ==> !scan::is_space(title[0]) && !scan::is_space(title.last()),
    ensures
        label_of(a + title + b, cwd) == label_of(title, cwd),
{
    let none = Seq::<char>::empty();
    scan::only_outer_white_space_is_trimmed(a, title, b);
    scan::only_outer_white_space_is_trimmed(none, title, none);
    assert(none + title + none =~= title);
}

/// Only a title that starts with one of the six marks and goes on behind it is a
/// summary; what is written for any other depends on the directory alone.
pub proof fn other_titles_do_not_count(title: Seq<char>, cwd: Seq<char>)
    requires
        title.len() > 0 ==> !scan::is_space(title[0]) && !scan::is_space(title.last()),
        title.len() <= 1 || {
            let c = title[0];
            c != '\u{2733}' && c != '\u{273b}' && c != '\u{273d}' && c != '\u{2736}' && c
                != '\u{2722}' && c != '*'
        },
    ensures
        label_of(title, cwd) == label_of(seq![], cwd),
{
    let none = Seq::<char>::empty();
    scan::only_outer_white_space_is_trimmed(none, title, none);
    assert(none + title + none =~= title);
    scan::only_outer_white_space_is_trimmed(none, none, none);
    assert(none + none + none =~= none);
    if title.len() == 1 {
        assert(title.drop_first() =~= none);
    }
}

/// The root directory has no name.
pub proof fn the_root_has_no_name(slashes: Seq<char>)
    requires
        forall|i: int| 0 <= i < slashes.len() ==> #[trigger] slashes[i] == '/',
    ensures
        label_of(seq![], slashes) == Seq::<char>::empty(),
{
    let none = Seq::<char>::empty();
    scan::only_outer_white_space_is_trimmed(none, none, none);
    assert(none + none + none =~= none);
    scan::only_trailing_copies_are_stripped(none, slashes, '/');
    assert(none + slashes =~= slashes);
    scan::the_last_part_follows_the_last_separator(none, none, '/');
}

/// Where there is nobody to report on, the report says of whom there is none.
pub proof fn an_empty_report_names_nobody(who: Seq<char>)
    ensures
        status_of(seq![], who) == "(表示中の "@ + who + " なし)\n"@,
{
}

} // verus!
