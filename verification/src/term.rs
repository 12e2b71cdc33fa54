//! The terminal above the bar: which one it is, and how many rows it has while
//! the bar is there.

use crate::panel;
use crate::panel::max_of;
use crate::scan::{
    argv, chars_of, equals, lines, parse_u32, same, split_whitespace, string_of, to_decimal, trim,
};
use crate::scan;
use crate::tmux::pick_console;
use crate::tmux;
use vstd::prelude::*;
use vstd::string::StringExecFns;

verus! {

/// A terminal and its size.
pub struct Client {
    pub tty: String,
    pub cols: u32,
    pub rows: u32,
}

/// The contents of a `Client`.
#[verifier::ext_equal]
pub struct Term {
    pub tty: Seq<char>,
    pub cols: int,
    pub rows: int,
}

impl View for Client {
    type V = Term;

    open spec fn view(&self) -> Term {
        Term { tty: self.tty@, cols: self.cols as int, rows: self.rows as int }
    }
}

pub open spec fn opt_term(o: Option<Client>) -> Option<Term> {
    match o {
        Some(c) => Some(c@),
        None => None,
    }
}

/// The number that a word is.
pub open spec fn count_in(s: Seq<char>) -> Option<int> {
    scan::unsigned_of(s, u32::MAX as int)
}

/// Columns and rows, from a text that gives the rows first.
pub open spec fn size_of(out: Option<Seq<char>>) -> Option<(int, int)> {
    match out {
        Some(o) => {
            let w = scan::words_of(o);
            if w.len() >= 2 && count_in(w[0]) is Some && count_in(w[1]) is Some {
                Some((count_in(w[1])->0, count_in(w[0])->0))
            } else {
                None
            }
        },
        None => None,
    }
}

/// Columns and rows, from what `stty size` printed.
pub fn tty_size(out: Option<&str>) -> (r: Option<(u32, u32)>)
    ensures
        match r {
            Some((cols, rows)) => size_of(scan::opt_str(out)) == Some((cols as int, rows as int)),
            None => size_of(scan::opt_str(out)) is None,
        },
{
    let out = match out {
        Some(o) => o,
        None => return None,
    };
    let text = chars_of(out);
    let w = split_whitespace(text.as_slice());
    if w.len() < 2 {
        return None;
    }
    assert(scan::slices(w@)[0] == w@[0]@ && scan::slices(w@)[1] == w@[1]@);
    match (parse_u32(w[0]), parse_u32(w[1])) {
        (Some(rows), Some(cols)) => Some((cols, rows)),
        _ => None,
    }
}

/// The terminal of the input method, from the list of its processes.
pub open spec fn fep_of(out: Option<Seq<char>>) -> Option<Seq<char>> {
    match out {
        Some(o) => {
            let l = scan::lines_of(o);
            if l.len() > 0 && scan::trimmed(l[0]).len() > 0 && scan::trimmed(l[0]) != "?"@ {
                Some("/dev/"@ + scan::trimmed(l[0]))
            } else {
                None
            }
        },
        None => None,
    }
}

/// The terminal of the input method, from what `ps` printed.
pub fn uim_fep_tty(out: Option<&str>) -> (r: Option<String>)
    ensures
        scan::opt_text(r) == fep_of(scan::opt_str(out)),
{
    let out = match out {
        Some(o) => o,
        None => return None,
    };
    let text = chars_of(out);
    let l = lines(text.as_slice());
    if l.len() == 0 {
        return None;
    }
    assert(scan::slices(l@)[0] == l@[0]@);
    let t = trim(l[0]);
    if t.len() == 0 || equals(t, "?") {
        return None;
    }
    let mut tty = "/dev/".to_owned();
    tty.append(string_of(t).as_str());
    Some(tty)
}

/// The lines of `list-clients` that have four words.
pub open spec fn sized_rows(out: Seq<char>) -> Seq<Seq<Seq<char>>> {
    scan::lines_of(out).map_values(|l: Seq<char>| scan::words_of(l)).filter(
        |f: Seq<Seq<char>>| f.len() == 4,
    )
}

/// The console's client and its size, from the output of `list-clients`.
pub open spec fn console_in(out: Option<Seq<char>>) -> Option<Term> {
    match out {
        Some(o) => match tmux::console_of(sized_rows(o)) {
            Some(r) => if count_in(r[2]) is Some && count_in(r[3]) is Some {
                Some(Term { tty: r[0], cols: count_in(r[2])->0, rows: count_in(r[3])->0 })
            } else {
                None
            },
            None => None,
        },
        None => None,
    }
}

/// The console's client and its size, from what `tmux list-clients` printed.
pub fn console_client(out: Option<&str>) -> (r: Option<Client>)
    ensures
        opt_term(r) == console_in(scan::opt_str(out)),
{
    let out = match out {
        Some(o) => o,
        None => return None,
    };
    let text = chars_of(out);
    let all = lines(text.as_slice());
    let mut rows: Vec<Vec<&[char]>> = Vec::new();
    let ghost src = scan::lines_of(out@);
    let ghost cut = |l: Seq<char>| scan::words_of(l);
    let ghost four = |f: Seq<Seq<char>>| f.len() == 4;
    let n: usize = all.len();
    assert(src.map_values(cut).take(0).filter(four) =~= tmux::rows_view(rows@)) by {
        reveal(Seq::filter);
    }
    for i in 0..n
        invariant
            n == all@.len(),
            scan::slices(all@) == src,
            cut == (|l: Seq<char>| scan::words_of(l)),
            four == (|f: Seq<Seq<char>>| f.len() == 4),
            tmux::rows_view(rows@) == src.map_values(cut).take(i as int).filter(four),
            forall|j: int| 0 <= j < rows@.len() ==> (#[trigger] rows@[j])@.len() == 4,
    {
        let f = split_whitespace(all[i]);
        let ghost before = rows@;
        let ghost m = src.map_values(cut);
        assert(m.take(i + 1).drop_last() =~= m.take(i as int));
        assert(scan::slices(all@)[i as int] == all@[i as int]@);
        assert(m[i as int] == scan::slices(f@));
        proof {
            reveal(Seq::filter);
        }
        if f.len() == 4 {
            rows.push(f);
            assert(tmux::rows_view(rows@) =~= tmux::rows_view(before).push(scan::slices(f@)));
        }
    }
    assert(src.map_values(cut).take(n as int) =~= src.map_values(cut));
    match pick_console(&rows) {
        Some(i) => {
            let ghost row = scan::slices(rows@[i as int]@);
            assert(row[0] == rows@[i as int]@[0]@);
            assert(row[2] == rows@[i as int]@[2]@);
            assert(row[3] == rows@[i as int]@[3]@);
            match (parse_u32(rows[i][2]), parse_u32(rows[i][3])) {
                (Some(cols), Some(lines)) => Some(
                    Client { tty: string_of(rows[i][0]), cols, rows: lines },
                ),
                _ => None,
            }
        },
        None => None,
    }
}

/// How far the search for the terminal has come: what is to be asked next, or
/// what was found.
pub enum Search {
    /// The size of the terminal that a knob names.
    Given(String),
    /// Which terminal the input method runs in.
    Fep,
    /// The size of that terminal.
    FepSize(String),
    /// The clients of tmux.
    Clients,
    Done(Option<Client>),
}

/// The contents of a `Search`.
pub enum Quest {
    Given(Seq<char>),
    Fep,
    FepSize(Seq<char>),
    Clients,
    Done(Option<Term>),
}

impl View for Search {
    type V = Quest;

    open spec fn view(&self) -> Quest {
        match *self {
            Search::Given(t) => Quest::Given(t@),
            Search::Fep => Quest::Fep,
            Search::FepSize(t) => Quest::FepSize(t@),
            Search::Clients => Quest::Clients,
            Search::Done(c) => Quest::Done(opt_term(c)),
        }
    }
}

/// A terminal with the size that was read for it.
pub open spec fn sized(tty: Seq<char>, size: Option<(int, int)>) -> Option<Term> {
    match size {
        Some((cols, rows)) => Some(Term { tty, cols, rows }),
        None => None,
    }
}

impl Quest {
    /// Where the search starts: nowhere if shrinking is switched off, at the
    /// terminal that a knob names, or else at the input method.
    pub open spec fn first(off: bool, tty: Option<Seq<char>>) -> Quest {
        if off {
            Quest::Done(None)
        } else {
            match tty {
                Some(t) => if t.len() > 0 {
                    Quest::Given(t)
                } else {
                    Quest::Fep
                },
                None => Quest::Fep,
            }
        }
    }

    /// Where the search goes after an answer.
    pub open spec fn next(self, out: Option<Seq<char>>) -> Quest {
        match self {
            Quest::Given(t) => Quest::Done(sized(t, size_of(out))),
            Quest::Fep => match fep_of(out) {
                Some(t) => Quest::FepSize(t),
                None => Quest::Clients,
            },
            Quest::FepSize(t) => match size_of(out) {
                Some(s) => Quest::Done(sized(t, Some(s))),
                None => Quest::Clients,
            },
            Quest::Clients => Quest::Done(console_in(out)),
            Quest::Done(c) => Quest::Done(c),
        }
    }

    /// How many questions are left at most.
    pub open spec fn left(self) -> int {
        match self {
            Quest::Given(_) => 1,
            Quest::Fep => 3,
            Quest::FepSize(_) => 2,
            Quest::Clients => 1,
            Quest::Done(_) => 0,
        }
    }

    /// The program to ask, and its arguments.
    pub open spec fn question(self) -> Option<(Seq<char>, Seq<Seq<char>>)> {
        match self {
            Quest::Given(t) => Some(("stty"@, seq!["-F"@, t, "size"@])),
            Quest::Fep => Some(("ps"@, seq!["-C"@, "uim-fep"@, "-o"@, "tty="@])),
            Quest::FepSize(t) => Some(("stty"@, seq!["-F"@, t, "size"@])),
            Quest::Clients => Some(
                (
                    "tmux"@,
                    seq![
                        "list-clients"@,
                        "-F"@,
                        "#{client_name} #{client_termname} #{client_width} #{client_height}"@,
                    ],
                ),
            ),
            Quest::Done(_) => None,
        }
    }
}

/// Whether shrinking is switched off; `var` is `TASKVAR_SHRINK`.
pub fn disabled(var: Option<&str>) -> (r: bool)
    ensures
        r == (scan::opt_str(var) == Some("0"@)),
{
    match var {
        Some(v) => same(v, "0"),
        None => false,
    }
}

impl Search {
    /// Starts the search; `tty` is `TASKVAR_TTY`.
    pub fn start(off: bool, tty: Option<&str>) -> (r: Search)
        ensures
            r@ == Quest::first(off, scan::opt_str(tty)),
    {
        if off {
            return Search::Done(None);
        }
        match tty {
            Some(t) => if t.unicode_len() > 0 {
                Search::Given(t.to_owned())
            } else {
                Search::Fep
            },
            None => Search::Fep,
        }
    }

    /// The program to ask next, and its arguments.
    pub fn command(&self) -> (r: Option<(&'static str, Vec<String>)>)
        ensures
            match r {
                Some((prog, args)) => self@.question() == Some((prog@, scan::texts(args@))),
                None => self@.question() is None,
            },
    {
        match self {
            Search::Given(t) => {
                let args = argv(&["-F", t.as_str(), "size"]);
                assert(scan::texts(args@) =~= seq!["-F"@, t@, "size"@]);
                Some(("stty", args))
            },
            Search::Fep => {
                let args = argv(&["-C", "uim-fep", "-o", "tty="]);
                assert(scan::texts(args@) =~= seq!["-C"@, "uim-fep"@, "-o"@, "tty="@]);
                Some(("ps", args))
            },
            Search::FepSize(t) => {
                let args = argv(&["-F", t.as_str(), "size"]);
                assert(scan::texts(args@) =~= seq!["-F"@, t@, "size"@]);
                Some(("stty", args))
            },
            Search::Clients => {
                let args = argv(
                    &[
                        "list-clients",
                        "-F",
                        "#{client_name} #{client_termname} #{client_width} #{client_height}",
                    ],
                );
                assert(scan::texts(args@) =~= seq![
                    "list-clients"@,
                    "-F"@,
                    "#{client_name} #{client_termname} #{client_width} #{client_height}"@,
                ]);
                Some(("tmux", args))
            },
            Search::Done(_) => None,
        }
    }

    /// Goes on with what the program printed, or with `None` if it failed.
    pub fn step(self, out: Option<&str>) -> (r: Search)
        ensures
            r@ == self@.next(scan::opt_str(out)),
    {
        match self {
            Search::Given(tty) => match tty_size(out) {
                Some((cols, rows)) => Search::Done(Some(Client { tty, cols, rows })),
                None => Search::Done(None),
            },
            Search::Fep => match uim_fep_tty(out) {
                Some(t) => Search::FepSize(t),
                None => Search::Clients,
            },
            Search::FepSize(tty) => match tty_size(out) {
                Some((cols, rows)) => Search::Done(Some(Client { tty, cols, rows })),
                None => Search::Clients,
            },
            Search::Clients => Search::Done(console_client(out)),
            Search::Done(c) => Search::Done(c),
        }
    }
}

/// Every answer brings the search nearer to its end.
pub proof fn the_search_ends(q: Quest, out: Option<Seq<char>>)
    requires
        q.left() > 0,
    ensures
        0 <= q.next(out).left() < q.left(),
        q.question() is Some,
{
}

/// The terminal that a knob names is taken if its size can be read, and no
/// other. Else that of the input method is taken if its size can be read, or
/// else the console's client.
pub proof fn the_search_keeps_its_order(
    tty: Option<Seq<char>>,
    size: Option<Seq<char>>,
    ps: Option<Seq<char>>,
    clients: Option<Seq<char>>,
)
    ensures
        ({
            let q = Quest::first(false, tty);
            let given = tty is Some && tty->0.len() > 0;
            &&& given ==> q.next(size) == Quest::Done(sized(tty->0, size_of(size)))
            &&& !given && fep_of(ps) is Some && size_of(size) is Some ==> q.next(ps).next(size)
                == Quest::Done(sized(fep_of(ps)->0, size_of(size)))
            &&& !given && fep_of(ps) is Some && size_of(size) is None ==> q.next(ps).next(
                size,
            ).next(clients) == Quest::Done(console_in(clients))
            &&& !given && fep_of(ps) is None ==> q.next(ps).next(clients) == Quest::Done(
                console_in(clients),
            )
        }),
{
}

/// The height of a character cell: twice its width, as with the usual fonts.
pub open spec fn cell_of(screen_w: int, cols: int) -> int {
    screen_w / panel::most(cols, 1) * 2
}

/// The height of the terminal's cells, unless it is none.
pub fn cell_height(screen_w: u32, client: Option<&Client>) -> (r: Option<u32>)
    requires
        client matches Some(c) ==> cell_of(screen_w as int, c.cols as int) <= u32::MAX,
    ensures
        match client {
            Some(c) => r == if cell_of(screen_w as int, c.cols as int) > 0 {
                Some(cell_of(screen_w as int, c.cols as int) as u32)
            } else {
                None
            },
            None => r is None,
        },
{
    match client {
        Some(c) => {
            let cols: u32 = max_of(c.cols as u64, 1) as u32;
            assert(screen_w / cols <= screen_w) by (nonlinear_arith)
                requires
                    cols >= 1,
                    screen_w >= 0,
            ;
            let h: u32 = screen_w / cols * 2;
            if h > 0 {
                Some(h)
            } else {
                None
            }
        },
        None => None,
    }
}

/// The terminal whose rows were taken, and how many it had.
pub struct TermGuard {
    pub tty: String,
    pub orig_rows: u32,
}

/// How many rows are left to the terminal above `region_y`: at least five.
pub open spec fn rows_above(cell_h: int, region_y: int) -> int {
    panel::most(region_y / cell_h, 5)
}

/// `r` is what is taken from the terminal `c` so that it ends above `region_y`:
/// what undoes it and how many rows to set, or nothing if it ends there already.
pub open spec fn taken(
    screen_w: int,
    region_y: int,
    c: Client,
    r: Option<(TermGuard, u32)>,
) -> bool {
    let cell_h = cell_of(screen_w, c.cols as int);
    if cell_h > 0 && rows_above(cell_h, region_y) < c.rows {
        match r {
            Some((guard, rows)) => {
                &&& guard.tty@ == c.tty@
                &&& guard.orig_rows == c.rows
                &&& rows == rows_above(cell_h, region_y)
            },
            None => false,
        }
    } else {
        r is None
    }
}

/// Takes rows from the terminal so that it ends above `region_y`: what undoes
/// it, and how many rows to set. `None` if it ends there already.
pub fn shrink(screen_w: u32, region_y: u32, client: Option<Client>) -> (r: Option<
    (TermGuard, u32),
>)
    requires
        client matches Some(c) ==> cell_of(screen_w as int, c.cols as int) <= u32::MAX,
    ensures
        match client {
            Some(c) => taken(screen_w as int, region_y as int, c, r),
            None => r is None,
        },
{
    let c = match client {
        Some(c) => c,
        None => return None,
    };
    let cell_h: u32 = match cell_height(screen_w, Some(&c)) {
        Some(h) => h,
        None => return None,
    };
    assert(region_y / cell_h <= region_y) by (nonlinear_arith)
        requires
            cell_h >= 1,
            region_y >= 0,
    ;
    let target: u32 = max_of((region_y / cell_h) as u64, 5) as u32;
    if target >= c.rows {
        return None;
    }
    Some((TermGuard { tty: c.tty, orig_rows: c.rows }, target))
}

/// The arguments of `stty` that give a terminal its number of rows.
pub open spec fn rows_words(tty: Seq<char>, rows: nat) -> Seq<Seq<char>> {
    seq!["-F"@, tty, "rows"@, scan::decimal(rows)]
}

pub fn set_rows(tty: &str, rows: u32) -> (r: Vec<String>)
    ensures
        scan::texts(r@) == rows_words(tty@, rows as nat),
{
    let n = to_decimal(rows);
    let r = argv(&["-F", tty, "rows", n.as_str()]);
    assert(scan::texts(r@) =~= rows_words(tty@, rows as nat));
    r
}

impl TermGuard {
    /// The arguments of `stty` that give the terminal its rows back.
    pub fn restore(&self) -> (r: Vec<String>)
        ensures
            scan::texts(r@) == rows_words(self.tty@, self.orig_rows as nat),
    {
        set_rows(self.tty.as_str(), self.orig_rows)
    }
}

/// What undoes a taking gives the terminal the rows it had; in between it has
/// fewer, and at least five.
pub proof fn what_was_taken_is_given_back(
    screen_w: int,
    region_y: int,
    c: Client,
    guard: TermGuard,
    rows: u32,
)
    requires
        taken(screen_w, region_y, c, Some((guard, rows))),
    ensures
        rows_words(guard.tty@, guard.orig_rows as nat) == rows_words(c.tty@, c.rows as nat),
        5 <= rows < c.rows,
{
}

/// A terminal that keeps more than five rows ends above the region, and would
/// reach into it with one row more.
pub proof fn the_rows_fill_the_place_above(cell_h: int, region_y: int)
    requires
        cell_h > 0,
        region_y >= 0,
        rows_above(cell_h, region_y) > 5,
    ensures
        rows_above(cell_h, region_y) * cell_h <= region_y,
        region_y < (rows_above(cell_h, region_y) + 1) * cell_h,
{
    let n = rows_above(cell_h, region_y);
    assert(n * cell_h <= region_y < (n + 1) * cell_h) by (nonlinear_arith)
        requires
            n == region_y / cell_h,
            cell_h > 0,
            region_y >= 0,
    ;
}

/// The rows come first, then the columns; a text with another first word gives no
/// size.
pub proof fn rows_come_before_columns(rows: nat, cols: nat, tail: Seq<char>)
    requires
        rows <= u32::MAX,
        cols <= u32::MAX,
    ensures
        size_of(
            Some(scan::decimal(rows).push(' ') + scan::decimal(cols).push('\n') + tail),
        ) == Some((cols as int, rows as int)),
        size_of(Some(scan::decimal(rows))) is None,
        size_of(None) is None,
{
    let r = scan::decimal(rows);
    let c = scan::decimal(cols);
    scan::decimals_are_digits(rows);
    scan::decimals_are_digits(cols);
    assert forall|i: int| 0 <= i < r.len() implies !scan::is_space(#[trigger] r[i]) by {
        scan::white_space_is_what_separates_words(r[i]);
    }
    assert forall|i: int| 0 <= i < c.len() implies !scan::is_space(#[trigger] c[i]) by {
        scan::white_space_is_what_separates_words(c[i]);
    }
    scan::white_space_parts_words(r, ' ', c.push('\n') + tail);
    scan::white_space_parts_words(c, '\n', tail);
    assert(r.push(' ') + c.push('\n') + tail =~= r.push(' ') + (c.push('\n') + tail));
    scan::decimal_reads_back(rows, u32::MAX as int);
    scan::decimal_reads_back(cols, u32::MAX as int);
}

/// The input method's terminal lies under `/dev`; without a terminal, which `ps`
/// shows as a question mark, there is none.
pub proof fn terminals_are_devices(tty: Seq<char>, rest: Seq<char>)
    requires
        tty.len() > 0,
        forall|i: int| 0 <= i < tty.len() ==> #[trigger] tty[i] != '\n',
        !scan::is_space(tty[0]),
        !scan::is_space(tty.last()),
    ensures
        tty != seq!['?'] ==> fep_of(Some(tty.push('\n') + rest)) == Some(
            seq!['/', 'd', 'e', 'v', '/'] + tty,
        ),
        tty == seq!['?'] ==> fep_of(Some(tty.push('\n') + rest)) is None,
        fep_of(Some(seq![])) is None,
        fep_of(None) is None,
{
    reveal_strlit("/dev/");
    reveal_strlit("?");
    assert("/dev/"@ =~= seq!['/', 'd', 'e', 'v', '/']);
    assert("?"@ =~= seq!['?']);
    let none = Seq::<char>::empty();
    assert(tty.last() != '\r') by {
        scan::white_space_is_what_separates_words('a');
    }
    scan::line_feeds_end_lines(tty, rest);
    scan::line_feeds_end_lines(seq![], seq![]);
    scan::only_outer_white_space_is_trimmed(none, tty, none);
    assert(none + tty + none =~= tty);
    assert((seq![tty] + scan::lines_of(rest))[0] == tty);
}

/// The console's client is found by the row that tells of it: its name, its
/// columns and its rows, in that order; without numbers for both there is none.
pub proof fn a_client_has_columns_and_rows(
    out: Seq<char>,
    tty: Seq<char>,
    term: Seq<char>,
    cols: nat,
    rows: nat,
    word: Seq<char>,
)
    requires
        cols <= u32::MAX,
        rows <= u32::MAX,
    ensures
        tmux::console_of(sized_rows(out)) == Some(
            seq![tty, term, scan::decimal(cols), scan::decimal(rows)],
        ) ==> console_in(Some(out)) == Some((Term { tty, cols: cols as int, rows: rows as int })),
        tmux::console_of(sized_rows(out)) == Some(seq![tty, term, word, scan::decimal(rows)])
            && word.len() > 0 && 'a' <= word[0] ==> console_in(Some(out)) is None,
        tmux::console_of(sized_rows(out)) is None ==> console_in(Some(out)) is None,
        console_in(None) is None,
{
    scan::decimal_reads_back(cols, u32::MAX as int);
    scan::decimal_reads_back(rows, u32::MAX as int);
    if word.len() > 0 && 'a' <= word[0] {
        scan::only_digits_make_a_number(word, 0, 0, u32::MAX as int);
    }
}

/// A line of four words tells of a client; others do not count.
pub proof fn four_words_tell_of_a_client(line: Seq<char>, rest: Seq<char>)
    requires
        forall|i: int| 0 <= i < line.len() ==> #[trigger] line[i] != '\n',
        line.len() == 0 || line.last() != '\r',
    ensures
        scan::words_of(line).len() == 4 ==> sized_rows(line.push('\n') + rest) == seq![
            scan::words_of(line),
        ] + sized_rows(rest),
        scan::words_of(line).len() != 4 ==> sized_rows(line.push('\n') + rest) == sized_rows(rest),
        sized_rows(seq![]) == Seq::<Seq<Seq<char>>>::empty(),
{
    let f = |l: Seq<char>| scan::words_of(l);
    let four = |f: Seq<Seq<char>>| f.len() == 4;
    let more = scan::lines_of(rest);
    scan::line_feeds_end_lines(line, rest);
    assert((seq![line] + more).map_values(f) =~= seq![f(line)] + more.map_values(f));
    more.map_values(f).lemma_filter_prepend(f(line), four);
    assert(Seq::<Seq<Seq<char>>>::empty() + more.map_values(f).filter(four) =~= more.map_values(
        f,
    ).filter(four));
    reveal(Seq::filter);
    scan::line_feeds_end_lines(seq![], seq![]);
    assert(scan::lines_of(seq![]).map_values(f) =~= seq![]);
}

/// Where shrinking is switched off there is nothing to search. A terminal that a
/// knob names is asked for its size, by its own name, and so is the input
/// method's.
pub proof fn the_search_asks_by_name(
    tty: Seq<char>,
    given: Option<Seq<char>>,
    found: Option<Term>,
)
    ensures
        Quest::first(true, given) == Quest::Done(None),
        tty.len() > 0 ==> Quest::first(false, Some(tty)).question() == Some(
            ("stty"@, seq!["-F"@, tty, "size"@]),
        ),
        Quest::FepSize(tty).question() == Some(("stty"@, seq!["-F"@, tty, "size"@])),
        Quest::first(false, None).question() == Some(
            ("ps"@, seq!["-C"@, "uim-fep"@, "-o"@, "tty="@]),
        ),
        Quest::first(false, Some(seq![])) == Quest::first(false, None),
        Quest::Done(found).question() is None,
        Quest::Clients.question() matches Some((prog, args)) && prog == "tmux"@ && args[0]
            == "list-clients"@,
{
}

/// A terminal that was found has the name that was asked for and the size that was
/// told.
pub proof fn what_is_found_was_asked_for(tty: Seq<char>, cols: int, rows: int)
    ensures
        sized(tty, Some((cols, rows))) == Some((Term { tty, cols, rows })),
        sized(tty, None) is None,
{
}

/// Cells are twice as high as wide: as many as there are columns fit side by side
/// on the screen, and one more pixel each would not.
pub proof fn cells_are_twice_as_high_as_wide(screen_w: int, cols: int)
    requires
        screen_w >= 0,
        cols >= 1,
    ensures
        cell_of(screen_w, cols) % 2 == 0,
        cell_of(screen_w, cols) / 2 * cols <= screen_w < (cell_of(screen_w, cols) / 2 + 1) * cols,
        cell_of(screen_w, 0) == 2 * screen_w,
{
    let w = screen_w / cols;
    assert(w * cols <= screen_w < (w + 1) * cols) by (nonlinear_arith)
        requires
            w == screen_w / cols,
            cols >= 1,
            screen_w >= 0,
    ;
    assert(screen_w / 1 == screen_w);
}

/// A terminal gets as many rows as end above the region, and never fewer than
/// five.
pub proof fn as_many_rows_as_fit(cell_h: int, region_y: int)
    requires
        cell_h > 0,
        region_y >= 0,
    ensures
        rows_above(cell_h, region_y) >= 5,
        region_y >= 5 * cell_h ==> rows_above(cell_h, region_y) * cell_h <= region_y,
        region_y < (rows_above(cell_h, region_y) + 1) * cell_h,
        region_y < 6 * cell_h ==> rows_above(cell_h, region_y) == 5,
{
    let n = region_y / cell_h;
    assert(n * cell_h <= region_y < (n + 1) * cell_h) by (nonlinear_arith)
        requires
            n == region_y / cell_h,
            cell_h > 0,
            region_y >= 0,
    ;
    if region_y >= 5 * cell_h {
        assert(n >= 5) by (nonlinear_arith)
            requires
                region_y >= 5 * cell_h,
                region_y < (n + 1) * cell_h,
                cell_h > 0,
        ;
    }
    if region_y < 6 * cell_h {
        assert(n <= 5) by (nonlinear_arith)
            requires
                region_y < 6 * cell_h,
                n * cell_h <= region_y,
                cell_h > 0,
        ;
    }
    if n < 5 {
        assert((n + 1) * cell_h <= 6 * cell_h) by (nonlinear_arith)
            requires
                n < 5,
                cell_h > 0,
        ;
    }
}

/// Rows are taken exactly if the terminal has more than end above the region and
/// its cells have a height; what was taken from is remembered with all its rows.
pub proof fn rows_are_taken_where_needed(
    screen_w: int,
    region_y: int,
    c: Client,
    r: Option<(TermGuard, u32)>,
)
    requires
        taken(screen_w, region_y, c, r),
    ensures
        ({
            let cell = screen_w / (if c.cols >= 1 {
                c.cols as int
            } else {
                1
            }) * 2;
            let fit = if cell > 0 && region_y / cell >= 5 {
                region_y / cell
            } else {
                5
            };
            &&& r is Some <==> cell > 0 && c.rows > fit
            &&& r matches Some((guard, rows)) ==> guard.tty@ == c.tty@ && guard.orig_rows
                == c.rows && rows == fit
        }),
{
}

/// The words that set the rows name the terminal and the number, which reads back.
pub proof fn rows_are_set_by_number(tty: Seq<char>, rows: nat)
    requires
        rows <= u32::MAX,
    ensures
        ({
            let w = rows_words(tty, rows);
            &&& w.len() == 4
            &&& w[0] == "-F"@
            &&& w[1] == tty
            &&& w[2] == "rows"@
            &&& scan::unsigned_of(w[3], u32::MAX as int) == Some(rows as int)
        }),
{
    scan::decimal_reads_back(rows, u32::MAX as int);
}

} // verus!
