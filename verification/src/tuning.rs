//! The knobs of the bar: environment variables and the values they stand for.

use crate::scan;
use crate::scan::{chars_of, parse_i32, parse_u32, trim};
use vstd::prelude::*;

verus! {

/// Space between the bar's sides and the frames next to them.
pub const MARGIN: u32 = 12;

/// Space between two icons.
pub const ICON_GAP: u32 = 24;

/// Space between the row of buttons and the progress bar.
pub const CTRL_GAP: u32 = 5;

/// Width of the now-playing panel.
pub const NP_W: u32 = 400;

/// Rows of the assistant frame.
pub const CLAWD_ROWS: u32 = 2;

/// Columns of the assistant frame.
pub const CLAWD_COLS: u32 = 2;

/// The environment variables that shape the bar, as they were found.
pub struct Env {
    /// `TASKVAR_GAP`
    pub gap: Option<String>,
    /// `TASKVAR_MARGIN`
    pub margin: Option<String>,
    /// `TASKVAR_ICON_D`
    pub icon_d: Option<String>,
    /// `TASKVAR_PROG_H`
    pub prog_h: Option<String>,
    /// `TASKVAR_CTRL_GAP`
    pub ctrl_gap: Option<String>,
    /// `TASKVAR_CTRL_DY`
    pub ctrl_dy: Option<String>,
    /// `TASKVAR_BTN_D`
    pub btn_d: Option<String>,
    /// `TASKVAR_BTN_D_SHUFFLE`
    pub btn_shuffle: Option<String>,
    /// `TASKVAR_BTN_D_PREV`
    pub btn_prev: Option<String>,
    /// `TASKVAR_BTN_D_PLAY`
    pub btn_play: Option<String>,
    /// `TASKVAR_BTN_D_NEXT`
    pub btn_next: Option<String>,
    /// `TASKVAR_BTN_D_REPEAT`
    pub btn_repeat: Option<String>,
    /// `TASKVAR_NP_W`
    pub np_w: Option<String>,
    /// `TASKVAR_TEXT_W`
    pub text_w: Option<String>,
    /// `TASKVAR_CLAWD_W`
    pub clawd_w: Option<String>,
    /// `TASKVAR_CLAWD_ROWS`
    pub clawd_rows: Option<String>,
    /// `TASKVAR_CLAWD_COLS`
    pub clawd_cols: Option<String>,
}

/// The values that shape the bar.
#[derive(Clone, Copy)]
pub struct Tuning {
    /// Space between two icons.
    pub gap: u32,
    /// Space between the bar's sides and the frames next to them.
    pub margin: u32,
    /// Diameter of an icon; by default a share of the bar's height.
    pub icon_d: Option<u32>,
    /// Height of the progress bar, as far as there is room; by default four pixels.
    pub prog_h: Option<u32>,
    /// Space between the row of buttons and the progress bar.
    pub ctrl_gap: u32,
    /// Vertical displacement of the buttons and the progress bar.
    pub ctrl_dy: i32,
    /// Diameter of every button, where it has none of its own.
    pub btn_d: Option<u32>,
    /// Diameter of each button: shuffle, previous, play, next, repeat.
    pub btn: [Option<u32>; 5],
    /// Width of the now-playing panel.
    pub np_w: u32,
    /// Width of the text column; takes the place of the panel's width.
    pub text_w: Option<u32>,
    /// Width of the assistant frame; by default that of the panel.
    pub clawd_w: Option<u32>,
    /// Rows of the assistant frame.
    pub clawd_rows: u32,
    /// Columns of the assistant frame.
    pub clawd_cols: u32,
}

/// What a variable with a default stands for: its value if it is a number.
pub open spec fn u32_or(v: Option<Seq<char>>, default: int) -> int {
    match v {
        Some(s) => match scan::unsigned_of(s, u32::MAX as int) {
            Some(n) => n,
            None => default,
        },
        None => default,
    }
}

/// What a variable without a default stands for: a number above zero, which
/// white space may surround.
pub open spec fn positive_of(v: Option<Seq<char>>) -> Option<int> {
    match v {
        Some(s) => match scan::unsigned_of(scan::trimmed(s), u32::MAX as int) {
            Some(n) => if n > 0 {
                Some(n)
            } else {
                None
            },
            None => None,
        },
        None => None,
    }
}

/// What a signed variable stands for: a number that white space may surround.
pub open spec fn i32_or(v: Option<Seq<char>>, default: int) -> int {
    match v {
        Some(s) => match scan::signed_of(
            scan::trimmed(s),
            i32::MIN as int,
            i32::MAX as int,
        ) {
            Some(n) => n,
            None => default,
        },
        None => default,
    }
}

pub open spec fn opt_int(o: Option<u32>) -> Option<int> {
    match o {
        Some(v) => Some(v as int),
        None => None,
    }
}

/// The number in a variable, or the default.
pub fn env_u32(v: Option<&str>, default: u32) -> (r: u32)
    ensures
        r == u32_or(scan::opt_str(v), default as int),
{
    match v {
        Some(s) => {
            let c = chars_of(s);
            match parse_u32(c.as_slice()) {
                Some(n) => n,
                None => default,
            }
        },
        None => default,
    }
}

/// The number in a variable, if it is above zero.
pub fn env_opt_u32(v: Option<&str>) -> (r: Option<u32>)
    ensures
        opt_int(r) == positive_of(scan::opt_str(v)),
{
    match v {
        Some(s) => {
            let c = chars_of(s);
            match parse_u32(trim(c.as_slice())) {
                Some(n) => if n > 0 {
                    Some(n)
                } else {
                    None
                },
                None => None,
            }
        },
        None => None,
    }
}

/// The signed number in a variable, or the default.
pub fn env_i32(v: Option<&str>, default: i32) -> (r: i32)
    ensures
        r == i32_or(scan::opt_str(v), default as int),
{
    match v {
        Some(s) => {
            let c = chars_of(s);
            match parse_i32(trim(c.as_slice())) {
                Some(n) => n,
                None => default,
            }
        },
        None => default,
    }
}

/// The number in a variable, if it is one.
pub open spec fn u32_in(v: Option<Seq<char>>) -> Option<int> {
    match v {
        Some(s) => scan::unsigned_of(s, u32::MAX as int),
        None => None,
    }
}

fn env_num(v: Option<&str>) -> (r: Option<u32>)
    ensures
        opt_int(r) == u32_in(scan::opt_str(v)),
{
    match v {
        Some(s) => {
            let c = chars_of(s);
            parse_u32(c.as_slice())
        },
        None => None,
    }
}

fn text(v: &Option<String>) -> (r: Option<&str>)
    ensures
        scan::opt_str(r) == scan::opt_text(*v),
{
    match v {
        Some(s) => Some(s.as_str()),
        None => None,
    }
}

impl Tuning {
    /// The values that the variables of `e` stand for.
    pub open spec fn reads(self, e: Env) -> bool {
        let t = |v: Option<String>| scan::opt_text(v);
        &&& self.gap == u32_or(t(e.gap), ICON_GAP as int)
        &&& self.margin == u32_or(t(e.margin), MARGIN as int)
        &&& opt_int(self.icon_d) == u32_in(t(e.icon_d))
        &&& opt_int(self.prog_h) == u32_in(t(e.prog_h))
        &&& self.ctrl_gap == u32_or(t(e.ctrl_gap), CTRL_GAP as int)
        &&& self.ctrl_dy == i32_or(t(e.ctrl_dy), 0)
        &&& opt_int(self.btn_d) == positive_of(t(e.btn_d))
        &&& opt_int(self.btn@[0]) == positive_of(t(e.btn_shuffle))
        &&& opt_int(self.btn@[1]) == positive_of(t(e.btn_prev))
        &&& opt_int(self.btn@[2]) == positive_of(t(e.btn_play))
        &&& opt_int(self.btn@[3]) == positive_of(t(e.btn_next))
        &&& opt_int(self.btn@[4]) == positive_of(t(e.btn_repeat))
        &&& self.np_w == u32_or(t(e.np_w), NP_W as int)
        &&& opt_int(self.text_w) == positive_of(t(e.text_w))
        &&& opt_int(self.clawd_w) == positive_of(t(e.clawd_w))
        &&& self.clawd_rows == u32_or(t(e.clawd_rows), CLAWD_ROWS as int)
        &&& self.clawd_cols == u32_or(t(e.clawd_cols), CLAWD_COLS as int)
    }

    /// Reads the variables.
    pub fn from_env(e: &Env) -> (r: Tuning)
        ensures
            r.reads(*e),
    {
        Tuning {
            gap: env_u32(text(&e.gap), ICON_GAP),
            margin: env_u32(text(&e.margin), MARGIN),
            icon_d: env_num(text(&e.icon_d)),
            prog_h: env_num(text(&e.prog_h)),
            ctrl_gap: env_u32(text(&e.ctrl_gap), CTRL_GAP),
            ctrl_dy: env_i32(text(&e.ctrl_dy), 0),
            btn_d: env_opt_u32(text(&e.btn_d)),
            btn: [
                env_opt_u32(text(&e.btn_shuffle)),
                env_opt_u32(text(&e.btn_prev)),
                env_opt_u32(text(&e.btn_play)),
                env_opt_u32(text(&e.btn_next)),
                env_opt_u32(text(&e.btn_repeat)),
            ],
            np_w: env_u32(text(&e.np_w), NP_W),
            text_w: env_opt_u32(text(&e.text_w)),
            clawd_w: env_opt_u32(text(&e.clawd_w)),
            clawd_rows: env_u32(text(&e.clawd_rows), CLAWD_ROWS),
            clawd_cols: env_u32(text(&e.clawd_cols), CLAWD_COLS),
        }
    }
}

impl Default for Tuning {
    /// The values without any variable.
    fn default() -> (r: Tuning)
        ensures
            r.gap == ICON_GAP,
            r.margin == MARGIN,
            r.icon_d is None,
            r.prog_h is None,
            r.ctrl_gap == CTRL_GAP,
            r.ctrl_dy == 0,
            r.btn_d is None,
            r.btn@ == seq![None::<u32>, None, None, None, None],
            r.np_w == NP_W,
            r.text_w is None,
            r.clawd_w is None,
            r.clawd_rows == CLAWD_ROWS,
            r.clawd_cols == CLAWD_COLS,
    {
        Tuning {
            gap: ICON_GAP,
            margin: MARGIN,
            icon_d: None,
            prog_h: None,
            ctrl_gap: CTRL_GAP,
            ctrl_dy: 0,
            btn_d: None,
            btn: [None, None, None, None, None],
            np_w: NP_W,
            text_w: None,
            clawd_w: None,
            clawd_rows: CLAWD_ROWS,
            clawd_cols: CLAWD_COLS,
        }
    }
}

/// A variable that holds a number stands for it; one that holds anything else, or
/// is not there, stands for its default.
pub proof fn numbers_count_and_other_texts_do_not(n: nat, word: Seq<char>, default: int)
    requires
        n <= u32::MAX,
        word.len() == 0 || 'a' <= word[0],
    ensures
        u32_or(Some(scan::decimal(n)), default) == n,
        u32_or(Some(word), default) == default,
        u32_or(None, default) == default,
        u32_in(Some(scan::decimal(n))) == Some(n as int),
        u32_in(Some(word)) is None,
        u32_in(None) is None,
{
    scan::decimal_reads_back(n, u32::MAX as int);
    scan::only_digits_make_a_number(word, 0, 0, u32::MAX as int);
}

/// Where there is no default, a number above zero counts and zero does not; blanks
/// around it do not matter.
pub proof fn zero_stands_for_no_value(n: nat, a: Seq<char>, b: Seq<char>)
    requires
        n <= u32::MAX,
        forall|i: int| 0 <= i < a.len() ==> scan::is_space(#[trigger] a[i]),
        forall|i: int| 0 <= i < b.len() ==> scan::is_space(#[trigger] b[i]),
    ensures
        n > 0 ==> positive_of(Some(a + scan::decimal(n) + b)) == Some(n as int),
        n == 0 ==> positive_of(Some(a + scan::decimal(n) + b)) is None,
        positive_of(None) is None,
{
    let d = scan::decimal(n);
    scan::decimals_are_digits(n);
    assert('0' <= d[0] <= '9' && '0' <= d[d.len() - 1] <= '9');
    scan::white_space_is_what_separates_words(d[0]);
    scan::white_space_is_what_separates_words(d.last());
    scan::only_outer_white_space_is_trimmed(a, d, b);
    scan::decimal_reads_back(n, u32::MAX as int);
}

/// A signed variable may be negative; blanks around it do not matter.
pub proof fn displacements_may_be_negative(n: nat, a: Seq<char>, b: Seq<char>, default: int)
    requires
        n <= i32::MAX,
        forall|i: int| 0 <= i < a.len() ==> scan::is_space(#[trigger] a[i]),
        forall|i: int| 0 <= i < b.len() ==> scan::is_space(#[trigger] b[i]),
    ensures
        i32_or(Some(a + scan::decimal(n) + b), default) == n,
        i32_or(Some(a + (seq!['-'] + scan::decimal(n)) + b), default) == -n,
        i32_or(None, default) == default,
{
    let d = scan::decimal(n);
    let e = seq!['-'] + d;
    scan::decimals_are_digits(n);
    assert('0' <= d[0] <= '9' && '0' <= d[d.len() - 1] <= '9');
    assert(e.last() == d.last());
    scan::white_space_is_what_separates_words(d[0]);
    scan::white_space_is_what_separates_words(d.last());
    scan::white_space_is_what_separates_words('-');
    scan::only_outer_white_space_is_trimmed(a, d, b);
    scan::only_outer_white_space_is_trimmed(a, e, b);
    scan::signs_and_bounds_of_numbers(n, i32::MIN as int, i32::MAX as int);
}

/// Without any variable the bar has its own measures.
pub proof fn the_bar_has_its_own_measures(t: Tuning, e: Env)
    requires
        t.reads(e),
    ensures
        e.gap is None ==> t.gap == 24,
        e.margin is None ==> t.margin == 12,
        e.ctrl_gap is None ==> t.ctrl_gap == 5,
        e.ctrl_dy is None ==> t.ctrl_dy == 0,
        e.np_w is None ==> t.np_w == 400,
        e.clawd_rows is None ==> t.clawd_rows == 2,
        e.clawd_cols is None ==> t.clawd_cols == 2,
        e.icon_d is None ==> t.icon_d is None,
        e.prog_h is None ==> t.prog_h is None,
        e.btn_d is None ==> t.btn_d is None,
        e.text_w is None ==> t.text_w is None,
        e.clawd_w is None ==> t.clawd_w is None,
        e.btn_shuffle is None ==> t.btn@[0] is None,
        e.btn_prev is None ==> t.btn@[1] is None,
        e.btn_play is None ==> t.btn@[2] is None,
        e.btn_next is None ==> t.btn@[3] is None,
        e.btn_repeat is None ==> t.btn@[4] is None,
{
}

/// Each measure is read from its own variable.
pub proof fn each_measure_has_its_variable(t: Tuning, e: Env, n: nat)
    requires
        t.reads(e),
        0 < n <= i32::MAX,
    ensures
        scan::opt_text(e.gap) == Some(scan::decimal(n)) ==> t.gap == n,
        scan::opt_text(e.margin) == Some(scan::decimal(n)) ==> t.margin == n,
        scan::opt_text(e.icon_d) == Some(scan::decimal(n)) ==> t.icon_d == Some(n as u32),
        scan::opt_text(e.prog_h) == Some(scan::decimal(n)) ==> t.prog_h == Some(n as u32),
        scan::opt_text(e.ctrl_gap) == Some(scan::decimal(n)) ==> t.ctrl_gap == n,
        scan::opt_text(e.ctrl_dy) == Some(scan::decimal(n)) ==> t.ctrl_dy == n,
        scan::opt_text(e.btn_d) == Some(scan::decimal(n)) ==> t.btn_d == Some(n as u32),
        scan::opt_text(e.btn_shuffle) == Some(scan::decimal(n)) ==> t.btn@[0] == Some(n as u32),
        scan::opt_text(e.btn_prev) == Some(scan::decimal(n)) ==> t.btn@[1] == Some(n as u32),
        scan::opt_text(e.btn_play) == Some(scan::decimal(n)) ==> t.btn@[2] == Some(n as u32),
        scan::opt_text(e.btn_next) == Some(scan::decimal(n)) ==> t.btn@[3] == Some(n as u32),
        scan::opt_text(e.btn_repeat) == Some(scan::decimal(n)) ==> t.btn@[4] == Some(n as u32),
        scan::opt_text(e.np_w) == Some(scan::decimal(n)) ==> t.np_w == n,
        scan::opt_text(e.text_w) == Some(scan::decimal(n)) ==> t.text_w == Some(n as u32),
        scan::opt_text(e.clawd_w) == Some(scan::decimal(n)) ==> t.clawd_w == Some(n as u32),
        scan::opt_text(e.clawd_rows) == Some(scan::decimal(n)) ==> t.clawd_rows == n,
        scan::opt_text(e.clawd_cols) == Some(scan::decimal(n)) ==> t.clawd_cols == n,
{
    let none = Seq::<char>::empty();
    let d = scan::decimal(n);
    numbers_count_and_other_texts_do_not(n, none, 0);
    scan::decimal_reads_back(n, u32::MAX as int);
    zero_stands_for_no_value(n, none, none);
    displacements_may_be_negative(n, none, none, 0);
    assert(none + d + none =~= d);
}

/// Where there is a default, a blank makes a text no number.
pub proof fn blanks_do_not_belong_to_a_number(n: nat, default: int)
    ensures
        u32_or(Some(seq![' '] + scan::decimal(n)), default) == default,
        u32_or(Some(scan::decimal(n).push(' ')), default) == default,
        n > u32::MAX ==> u32_or(Some(scan::decimal(n)), default) == default,
{
    let d = scan::decimal(n);
    scan::decimals_are_digits(n);
    scan::only_digits_make_a_number(seq![' '] + d, 0, 0, u32::MAX as int);
    assert(d.push(' ')[d.len() as int] == ' ');
    scan::only_digits_make_a_number(d.push(' '), d.len() as int, 0, u32::MAX as int);
    scan::signs_and_bounds_of_numbers(n, 0, u32::MAX as int);
}

} // verus!
