//! Text scanning: the pieces of string handling that the output of `tmux`,
//! `stty` and the environment variables call for, each with a model over
//! sequences of characters.

use vstd::prelude::*;
use vstd::slice::slice_subrange;

verus! {

/// `String::push` appends the given character to the end of the string.
pub assume_specification[ String::push ](s: &mut String, c: char)
    ensures
        final(s)@ == old(s)@.push(c),
;

/// The characters with the Unicode property `White_Space`.
pub open spec fn is_space(c: char) -> bool {
    ||| '\u{9}' <= c <= '\u{d}'
    ||| c == ' '
    ||| c == '\u{85}'
    ||| c == '\u{a0}'
    ||| c == '\u{1680}'
    ||| '\u{2000}' <= c <= '\u{200a}'
    ||| c == '\u{2028}'
    ||| c == '\u{2029}'
    ||| c == '\u{202f}'
    ||| c == '\u{205f}'
    ||| c == '\u{3000}'
}

/// `s` without its leading white space.
pub open spec fn trim_start(s: Seq<char>) -> Seq<char>
    decreases s.len(),
{
    if s.len() > 0 && is_space(s[0]) {
        trim_start(s.drop_first())
    } else {
        s
    }
}

/// `s` without its trailing white space.
pub open spec fn trim_end(s: Seq<char>) -> Seq<char>
    decreases s.len(),
{
    if s.len() > 0 && is_space(s.last()) {
        trim_end(s.drop_last())
    } else {
        s
    }
}

/// `s` without white space at either end.
pub open spec fn trimmed(s: Seq<char>) -> Seq<char> {
    trim_end(trim_start(s))
}

/// `s` without trailing copies of `c`.
pub open spec fn strip_end(s: Seq<char>, c: char) -> Seq<char>
    decreases s.len(),
{
    if s.len() > 0 && s.last() == c {
        strip_end(s.drop_last(), c)
    } else {
        s
    }
}

/// The position of the first `c` in `s`, or the length of `s` if there is none.
pub open spec fn first_at(s: Seq<char>, c: char) -> int
    decreases s.len(),
{
    if s.len() == 0 || s[0] == c {
        0
    } else {
        1 + first_at(s.drop_first(), c)
    }
}

/// `s` cut at the first `c`, which belongs to neither part.
pub open spec fn cut(s: Seq<char>, c: char) -> Option<(Seq<char>, Seq<char>)> {
    let i = first_at(s, c);
    if i < s.len() {
        Some((s.take(i), s.skip(i + 1)))
    } else {
        None
    }
}

/// `s` cut at every `c`: one more field than there are separators.
pub open spec fn fields(s: Seq<char>, c: char) -> Seq<Seq<char>>
    decreases s.len(),
{
    let i = first_at(s, c);
    if 0 <= i < s.len() {
        seq![s.take(i)] + fields(s.skip(i + 1), c)
    } else {
        seq![s]
    }
}

/// The text after the last `c`, or all of `s` if there is none.
pub open spec fn after_last(s: Seq<char>, c: char) -> Seq<char>
    decreases s.len(),
{
    let i = first_at(s, c);
    if 0 <= i < s.len() {
        after_last(s.skip(i + 1), c)
    } else {
        s
    }
}

/// A line without the carriage return that may end it.
pub open spec fn without_cr(s: Seq<char>) -> Seq<char> {
    if s.len() > 0 && s.last() == '\r' {
        s.drop_last()
    } else {
        s
    }
}

/// The lines of `s`. A line ends in a line feed, with or without a carriage
/// return before it; what follows the last line feed is a line unless empty.
pub open spec fn lines_of(s: Seq<char>) -> Seq<Seq<char>>
    decreases s.len(),
{
    let i = first_at(s, '\n');
    if s.len() == 0 {
        seq![]
    } else if 0 <= i < s.len() {
        seq![without_cr(s.take(i))] + lines_of(s.skip(i + 1))
    } else {
        seq![s]
    }
}

/// The length of the longest prefix of `s` without white space.
pub open spec fn word_len(s: Seq<char>) -> int
    decreases s.len(),
{
    if s.len() == 0 || is_space(s[0]) {
        0
    } else {
        1 + word_len(s.drop_first())
    }
}

/// The maximal runs of characters other than white space, in order.
pub open spec fn words_of(s: Seq<char>) -> Seq<Seq<char>>
    decreases s.len(),
{
    if s.len() == 0 {
        seq![]
    } else if is_space(s[0]) {
        words_of(s.drop_first())
    } else {
        let n = word_len(s);
        if 0 < n <= s.len() {
            seq![s.take(n)] + words_of(s.skip(n))
        } else {
            seq![]
        }
    }
}

pub open spec fn is_digit(c: char) -> bool {
    '0' <= c <= '9'
}

/// The number that a run of decimal digits denotes.
pub open spec fn digits_value(s: Seq<char>) -> int
    decreases s.len(),
{
    if s.len() == 0 {
        0
    } else {
        digits_value(s.drop_last()) * 10 + (s.last() as int - '0' as int)
    }
}

pub open spec fn all_digits(s: Seq<char>) -> bool {
    s.len() > 0 && forall|i: int| 0 <= i < s.len() ==> is_digit(#[trigger] s[i])
}

/// `s` as a decimal number of at most `max`, with an optional plus sign.
pub open spec fn unsigned_of(s: Seq<char>, max: int) -> Option<int> {
    let d = if s.len() > 0 && s[0] == '+' {
        s.drop_first()
    } else {
        s
    };
    if all_digits(d) && digits_value(d) <= max {
        Some(digits_value(d))
    } else {
        None
    }
}

/// `s` as a decimal number between `min` and `max`, with an optional sign.
pub open spec fn signed_of(s: Seq<char>, min: int, max: int) -> Option<int> {
    if s.len() > 0 && s[0] == '-' {
        let d = s.drop_first();
        if all_digits(d) && min <= -digits_value(d) {
            Some(-digits_value(d))
        } else {
            None
        }
    } else {
        unsigned_of(s, max)
    }
}

/// The decimal notation of `n`, without leading zeros.
pub open spec fn decimal(n: nat) -> Seq<char>
    decreases n,
{
    if n < 10 {
        seq![digit_char(n)]
    } else {
        decimal(n / 10).push(digit_char(n % 10))
    }
}

pub open spec fn digit_char(d: nat) -> char {
    (d + '0' as nat) as char
}

/// The views of a list of strings.
pub open spec fn texts(v: Seq<String>) -> Seq<Seq<char>> {
    v.map_values(|s: String| s@)
}

/// The view of an optional string.
pub open spec fn opt_text(o: Option<String>) -> Option<Seq<char>> {
    match o {
        Some(s) => Some(s@),
        None => None,
    }
}

/// The view of an optional string slice.
pub open spec fn opt_str(o: Option<&str>) -> Option<Seq<char>> {
    match o {
        Some(s) => Some(s@),
        None => None,
    }
}

} // verus!
verus! {

pub proof fn lemma_first_at(s: Seq<char>, c: char)
    ensures
        0 <= first_at(s, c) <= s.len(),
        first_at(s, c) < s.len() ==> s[first_at(s, c)] == c,
        forall|j: int| 0 <= j < first_at(s, c) ==> s[j] != c,
    decreases s.len(),
{
    if s.len() > 0 && s[0] != c {
        let t = s.drop_first();
        lemma_first_at(t, c);
        assert forall|j: int| 0 <= j < first_at(s, c) implies s[j] != c by {
            if j > 0 {
                assert(t[j - 1] == s[j]);
            }
        }
    }
}

/// The first position is the one with `c` there and nowhere before.
pub proof fn lemma_first_at_is(s: Seq<char>, c: char, i: int)
    requires
        0 <= i <= s.len(),
        i < s.len() ==> s[i] == c,
        forall|j: int| 0 <= j < i ==> s[j] != c,
    ensures
        first_at(s, c) == i,
{
    lemma_first_at(s, c);
}

proof fn lemma_word_len(s: Seq<char>)
    ensures
        0 <= word_len(s) <= s.len(),
        word_len(s) < s.len() ==> is_space(s[word_len(s)]),
        forall|j: int| 0 <= j < word_len(s) ==> !is_space(s[j]),
    decreases s.len(),
{
    if s.len() > 0 && !is_space(s[0]) {
        let t = s.drop_first();
        lemma_word_len(t);
        assert forall|j: int| 0 <= j < word_len(s) implies !is_space(s[j]) by {
            if j > 0 {
                assert(t[j - 1] == s[j]);
            }
        }
    }
}

proof fn lemma_word_len_is(s: Seq<char>, n: int)
    requires
        0 <= n <= s.len(),
        n < s.len() ==> is_space(s[n]),
        forall|j: int| 0 <= j < n ==> !is_space(s[j]),
    ensures
        word_len(s) == n,
{
    lemma_word_len(s);
}

/// Whether `c` is white space.
pub fn space(c: char) -> (r: bool)
    ensures
        r == is_space(c),
{
    ('\u{9}' <= c && c <= '\u{d}') || c == ' ' || c == '\u{85}' || c == '\u{a0}' || c == '\u{1680}'
        || ('\u{2000}' <= c && c <= '\u{200a}') || c == '\u{2028}' || c == '\u{2029}' || c
        == '\u{202f}' || c == '\u{205f}' || c == '\u{3000}'
}

/// The characters of a string.
pub fn chars_of(s: &str) -> (v: Vec<char>)
    ensures
        v@ == s@,
{
    let mut v: Vec<char> = Vec::new();
    for c in iter: s.chars()
        invariant
            iter.seq() == s@,
            v@ == s@.take(iter.index() as int),
    {
        v.push(c);
        assert(v@ =~= s@.take(iter.index() + 1));
    }
    assert(v@ =~= s@);
    v
}

/// A string of the given characters.
pub fn string_of(v: &[char]) -> (s: String)
    ensures
        s@ == v@,
{
    let mut s = String::new();
    let n: usize = v.len();
    for i in 0..n
        invariant
            n == v@.len(),
            s@ == v@.take(i as int),
    {
        s.push(v[i]);
        assert(s@ =~= v@.take(i + 1));
    }
    assert(s@ =~= v@);
    s
}

/// Whether two strings hold the same characters.
pub fn same(a: &str, b: &str) -> (r: bool)
    ensures
        r == (a@ == b@),
{
    let a = a.to_owned();
    let b = b.to_owned();
    a == b
}

/// `s` without white space at either end.
pub fn trim(s: &[char]) -> (r: &[char])
    ensures
        r@ == trimmed(s@),
{
    let n: usize = s.len();
    let mut i: usize = 0;
    assert(s@.skip(0) =~= s@);
    while i < n && space(s[i])
        invariant
            i <= n == s@.len(),
            trim_start(s@) == trim_start(s@.skip(i as int)),
        decreases n - i,
    {
        assert(s@.skip(i as int).drop_first() =~= s@.skip(i + 1));
        i = i + 1;
    }
    let ghost t = s@.skip(i as int);
    let mut j: usize = n;
    assert(t =~= t.take(t.len() as int));
    while j > i && space(s[j - 1])
        invariant
            i <= j <= n == s@.len(),
            t == s@.skip(i as int),
            trim_end(t) == trim_end(t.take(j - i)),
        decreases j,
    {
        assert(t.take(j - i).drop_last() =~= t.take(j - i - 1));
        j = j - 1;
    }
    assert(s@.subrange(i as int, j as int) =~= t.take(j - i));
    slice_subrange(s, i, j)
}

/// `s` without trailing copies of `c`.
pub fn trim_end_matches(s: &[char], c: char) -> (r: &[char])
    ensures
        r@ == strip_end(s@, c),
{
    let mut j: usize = s.len();
    assert(s@.take(j as int) =~= s@);
    while j > 0 && s[j - 1] == c
        invariant
            j <= s@.len(),
            strip_end(s@, c) == strip_end(s@.take(j as int), c),
        decreases j,
    {
        assert(s@.take(j as int).drop_last() =~= s@.take(j - 1));
        j = j - 1;
    }
    assert(s@.subrange(0, j as int) =~= s@.take(j as int));
    slice_subrange(s, 0, j)
}

/// The position of the first `c`, or the length if there is none.
pub fn find(s: &[char], c: char) -> (r: usize)
    ensures
        r == first_at(s@, c),
{
    let n: usize = s.len();
    let mut i: usize = 0;
    while i < n && s[i] != c
        invariant
            i <= n == s@.len(),
            forall|j: int| 0 <= j < i ==> s@[j] != c,
        decreases n - i,
    {
        i = i + 1;
    }
    proof {
        lemma_first_at_is(s@, c, i as int);
    }
    i
}

/// `s` cut at the first `c`.
pub fn split_once<'a>(s: &'a [char], c: char) -> (r: Option<(&'a [char], &'a [char])>)
    ensures
        match r {
            Some((a, b)) => cut(s@, c) == Some((a@, b@)),
            None => cut(s@, c) is None,
        },
{
    let i = find(s, c);
    if i < s.len() {
        let a = slice_subrange(s, 0, i);
        let b = slice_subrange(s, i + 1, s.len());
        assert(a@ =~= s@.take(i as int));
        assert(b@ =~= s@.skip(i + 1));
        Some((a, b))
    } else {
        None
    }
}

/// The views of a list of character slices.
pub open spec fn slices(v: Seq<&[char]>) -> Seq<Seq<char>> {
    v.map_values(|s: &[char]| s@)
}

/// `s` cut at every `c`.
pub fn split<'a>(s: &'a [char], c: char) -> (r: Vec<&'a [char]>)
    ensures
        slices(r@) == fields(s@, c),
{
    let mut out: Vec<&'a [char]> = Vec::new();
    let mut rest: &'a [char] = s;
    loop
        invariant
            fields(s@, c) == slices(out@) + fields(rest@, c),
        decreases rest@.len(),
    {
        let i = find(rest, c);
        let ghost before = out@;
        if i < rest.len() {
            let a = slice_subrange(rest, 0, i);
            let b = slice_subrange(rest, i + 1, rest.len());
            assert(a@ =~= rest@.take(i as int));
            assert(b@ =~= rest@.skip(i + 1));
            out.push(a);
            assert(slices(out@) =~= slices(before).push(a@));
            assert(slices(before) + (seq![a@] + fields(b@, c)) =~= slices(out@) + fields(b@, c));
            rest = b;
        } else {
            proof {
                lemma_first_at(rest@, c);
            }
            out.push(rest);
            assert(slices(out@) =~= slices(before) + seq![rest@]);
            return out;
        }
    }
}

/// The text after the last `c`.
pub fn rsplit_first<'a>(s: &'a [char], c: char) -> (r: &'a [char])
    ensures
        r@ == after_last(s@, c),
{
    let mut rest: &'a [char] = s;
    loop
        invariant
            after_last(s@, c) == after_last(rest@, c),
        decreases rest@.len(),
    {
        let i = find(rest, c);
        proof {
            lemma_first_at(rest@, c);
        }
        if i < rest.len() {
            let b = slice_subrange(rest, i + 1, rest.len());
            assert(b@ =~= rest@.skip(i + 1));
            rest = b;
        } else {
            return rest;
        }
    }
}

/// The lines of `s`.
pub fn lines<'a>(s: &'a [char]) -> (r: Vec<&'a [char]>)
    ensures
        slices(r@) == lines_of(s@),
{
    let mut out: Vec<&'a [char]> = Vec::new();
    let mut rest: &'a [char] = s;
    while rest.len() > 0
        invariant
            lines_of(s@) == slices(out@) + lines_of(rest@),
        decreases rest@.len(),
    {
        let i = find(rest, '\n');
        let ghost before = out@;
        proof {
            lemma_first_at(rest@, '\n');
        }
        if i < rest.len() {
            let mut end: usize = i;
            if i > 0 && rest[i - 1] == '\r' {
                end = i - 1;
            }
            let a = slice_subrange(rest, 0, end);
            let b = slice_subrange(rest, i + 1, rest.len());
            assert(a@ =~= without_cr(rest@.take(i as int)));
            assert(b@ =~= rest@.skip(i + 1));
            out.push(a);
            assert(slices(out@) =~= slices(before).push(a@));
            assert(slices(before) + (seq![a@] + lines_of(b@)) =~= slices(out@) + lines_of(b@));
            rest = b;
        } else {
            out.push(rest);
            assert(slices(out@) =~= slices(before) + seq![rest@]);
            return out;
        }
    }
    assert(slices(out@) + lines_of(rest@) =~= slices(out@));
    out
}

/// The words of `s`.
pub fn split_whitespace<'a>(s: &'a [char]) -> (r: Vec<&'a [char]>)
    ensures
        slices(r@) == words_of(s@),
{
    let mut out: Vec<&'a [char]> = Vec::new();
    let mut rest: &'a [char] = s;
    while rest.len() > 0
        invariant
            words_of(s@) == slices(out@) + words_of(rest@),
        decreases rest@.len(),
    {
        let ghost before = out@;
        if space(rest[0]) {
            let b = slice_subrange(rest, 1, rest.len());
            assert(b@ =~= rest@.drop_first());
            rest = b;
        } else {
            let n: usize = rest.len();
            let mut i: usize = 0;
            while i < n && !space(rest[i])
                invariant
                    i <= n == rest@.len(),
                    forall|j: int| 0 <= j < i ==> !is_space(rest@[j]),
                decreases n - i,
            {
                i = i + 1;
            }
            proof {
                lemma_word_len_is(rest@, i as int);
            }
            let a = slice_subrange(rest, 0, i);
            let b = slice_subrange(rest, i, n);
            assert(a@ =~= rest@.take(i as int));
            assert(b@ =~= rest@.skip(i as int));
            out.push(a);
            assert(slices(out@) =~= slices(before).push(a@));
            assert(slices(before) + (seq![a@] + words_of(b@)) =~= slices(out@) + words_of(b@));
            rest = b;
        }
    }
    assert(slices(out@) + words_of(rest@) =~= slices(out@));
    out
}

/// Whether `s` begins with `p`.
pub fn starts_with(s: &[char], p: &str) -> (r: bool)
    ensures
        r == p@.is_prefix_of(s@),
{
    let head = chars_of(p);
    if s.len() < head.len() {
        return false;
    }
    let n: usize = head.len();
    for i in 0..n
        invariant
            head@ == p@,
            n == head@.len() <= s@.len(),
            forall|j: int| 0 <= j < i ==> s@[j] == head@[j],
    {
        if s[i] != head[i] {
            proof {
                if p@.is_prefix_of(s@) {
                    assert(s@.subrange(0, p@.len() as int)[i as int] == p@[i as int]);
                }
            }
            return false;
        }
    }
    assert(s@.subrange(0, p@.len() as int) =~= p@);
    true
}

/// Whether a character slice and a string hold the same characters.
pub fn equals(s: &[char], t: &str) -> (r: bool)
    ensures
        r == (s@ == t@),
{
    let u = string_of(s);
    same(u.as_str(), t)
}


proof fn lemma_digits_value_grows(s: Seq<char>, k: int)
    requires
        0 <= k <= s.len(),
        forall|i: int| 0 <= i < s.len() ==> is_digit(#[trigger] s[i]),
    ensures
        0 <= digits_value(s.take(k)) <= digits_value(s),
    decreases s.len() - k,
{
    if k == s.len() {
        assert(s.take(k) =~= s);
        lemma_digits_value_nonneg(s);
    } else {
        lemma_digits_value_grows(s, k + 1);
        assert(s.take(k + 1).drop_last() =~= s.take(k));
        lemma_digits_value_nonneg(s.take(k));
        assert(is_digit(s[k]));
    }
}

proof fn lemma_digits_value_nonneg(s: Seq<char>)
    requires
        forall|i: int| 0 <= i < s.len() ==> is_digit(#[trigger] s[i]),
    ensures
        digits_value(s) >= 0,
    decreases s.len(),
{
    if s.len() > 0 {
        lemma_digits_value_nonneg(s.drop_last());
        assert(is_digit(s.last()));
    }
}

/// The value of a run of digits, if it is one and at most `max`.
fn digits(s: &[char], max: u64) -> (r: Option<u64>)
    ensures
        match r {
            Some(v) => all_digits(s@) && digits_value(s@) <= max && v == digits_value(s@),
            None => !(all_digits(s@) && digits_value(s@) <= max),
        },
{
    let n: usize = s.len();
    if n == 0 {
        return None;
    }
    let mut v: u64 = 0;
    for i in 0..n
        invariant
            n == s@.len(),
            v <= max,
            v == digits_value(s@.take(i as int)),
            forall|j: int| 0 <= j < i ==> is_digit(#[trigger] s@[j]),
    {
        let c = s[i];
        if !('0' <= c && c <= '9') {
            assert(!is_digit(s@[i as int]));
            return None;
        }
        let d: u64 = c as u64 - '0' as u64;
        assert(s@.take(i + 1).drop_last() =~= s@.take(i as int));
        assert(digits_value(s@.take(i + 1)) == v * 10 + d);
        if v > max / 10 || d > max - v * 10 {
            proof {
                if all_digits(s@) {
                    lemma_digits_value_grows(s@, i + 1);
                }
            }
            return None;
        }
        v = v * 10 + d;
    }
    assert(s@.take(n as int) =~= s@);
    Some(v)
}

/// `s` as a decimal number of at most `max`, with an optional plus sign.
pub fn parse_unsigned(s: &[char], max: u64) -> (r: Option<u64>)
    ensures
        match r {
            Some(v) => unsigned_of(s@, max as int) == Some(v as int),
            None => unsigned_of(s@, max as int) is None,
        },
{
    if s.len() > 0 && s[0] == '+' {
        let d = slice_subrange(s, 1, s.len());
        assert(d@ =~= s@.drop_first());
        digits(d, max)
    } else {
        digits(s, max)
    }
}

/// `s` as a `u32`.
pub fn parse_u32(s: &[char]) -> (r: Option<u32>)
    ensures
        match r {
            Some(v) => unsigned_of(s@, u32::MAX as int) == Some(v as int),
            None => unsigned_of(s@, u32::MAX as int) is None,
        },
{
    match parse_unsigned(s, u32::MAX as u64) {
        Some(v) => Some(v as u32),
        None => None,
    }
}

/// `s` as a `u8`.
pub fn parse_u8(s: &[char]) -> (r: Option<u8>)
    ensures
        match r {
            Some(v) => unsigned_of(s@, u8::MAX as int) == Some(v as int),
            None => unsigned_of(s@, u8::MAX as int) is None,
        },
{
    match parse_unsigned(s, u8::MAX as u64) {
        Some(v) => Some(v as u8),
        None => None,
    }
}

/// `s` as an `i64`.
pub fn parse_i64(s: &[char]) -> (r: Option<i64>)
    ensures
        match r {
            Some(v) => signed_of(s@, i64::MIN as int, i64::MAX as int) == Some(v as int),
            None => signed_of(s@, i64::MIN as int, i64::MAX as int) is None,
        },
{
    if s.len() > 0 && s[0] == '-' {
        let d = slice_subrange(s, 1, s.len());
        assert(d@ =~= s@.drop_first());
        match digits(d, 0x8000_0000_0000_0000) {
            Some(v) => if v == 0x8000_0000_0000_0000 {
                Some(i64::MIN)
            } else {
                Some(-(v as i64))
            },
            None => None,
        }
    } else {
        match parse_unsigned(s, i64::MAX as u64) {
            Some(v) => Some(v as i64),
            None => None,
        }
    }
}

/// `s` as an `i32`.
pub fn parse_i32(s: &[char]) -> (r: Option<i32>)
    ensures
        match r {
            Some(v) => signed_of(s@, i32::MIN as int, i32::MAX as int) == Some(v as int),
            None => signed_of(s@, i32::MIN as int, i32::MAX as int) is None,
        },
{
    proof {
        if s@.len() > 0 && all_digits(s@.drop_first()) {
            lemma_digits_value_nonneg(s@.drop_first());
        }
        if all_digits(s@) {
            lemma_digits_value_nonneg(s@);
        }
    }
    match parse_i64(s) {
        Some(v) => if -0x8000_0000 <= v && v <= 0x7fff_ffff {
            Some(v as i32)
        } else {
            None
        },
        None => None,
    }
}

/// The decimal notation of `n`.
pub fn to_decimal(n: u32) -> (s: String)
    ensures
        s@ == decimal(n as nat),
    decreases n,
{
    let mut s = if n < 10 {
        String::new()
    } else {
        to_decimal(n / 10)
    };
    let d: u32 = n % 10;
    let c = match d {
        0 => '0',
        1 => '1',
        2 => '2',
        3 => '3',
        4 => '4',
        5 => '5',
        6 => '6',
        7 => '7',
        8 => '8',
        _ => '9',
    };
    assert(c == digit_char((n % 10) as nat));
    let ghost before = s@;
    s.push(c);
    assert(n < 10 ==> s@ =~= seq![digit_char(n as nat)]);
    s
}

/// Reading back what `to_decimal` wrote gives the number that was written.
pub proof fn decimal_reads_back(n: nat, max: int)
    requires
        n <= max,
    ensures
        unsigned_of(decimal(n), max) == Some(n as int),
{
    lemma_decimal(n);
    assert(is_digit(decimal(n)[0]));
}

proof fn lemma_decimal(n: nat)
    ensures
        all_digits(decimal(n)),
        digits_value(decimal(n)) == n,
    decreases n,
{
    let s = decimal(n);
    assert(digits_value(Seq::<char>::empty()) == 0);
    if n < 10 {
        assert(s.drop_last() =~= Seq::<char>::empty());
        assert(is_digit(digit_char(n)));
    } else {
        lemma_decimal(n / 10);
        assert(s.drop_last() =~= decimal(n / 10));
        assert(is_digit(digit_char(n % 10)));
        assert forall|i: int| 0 <= i < s.len() implies is_digit(#[trigger] s[i]) by {
            if i < s.len() - 1 {
                assert(s[i] == decimal(n / 10)[i]);
            }
        }
    }
}

} // verus!

verus! {

/// Whether `p` occurs in `s`.
pub open spec fn occurs(s: Seq<char>, p: Seq<char>) -> bool {
    exists|i: int| #![trigger s.skip(i)] 0 <= i <= s.len() && p.is_prefix_of(s.skip(i))
}

/// Whether `p` occurs in `s`.
pub fn contains(s: &[char], p: &str) -> (r: bool)
    ensures
        r == occurs(s@, p@),
{
    let n: usize = s.len();
    let mut i: usize = 0;
    loop
        invariant
            i <= n == s@.len(),
            forall|j: int| #![trigger s@.skip(j)] 0 <= j < i ==> !p@.is_prefix_of(s@.skip(j)),
        decreases n - i,
    {
        let t = slice_subrange(s, i, n);
        assert(t@ =~= s@.skip(i as int));
        if starts_with(t, p) {
            return true;
        }
        if i == n {
            return false;
        }
        i = i + 1;
    }
}

/// The views of a list of string slices.
pub open spec fn strs(v: Seq<&str>) -> Seq<Seq<char>> {
    v.map_values(|s: &str| s@)
}

/// The words of a command line.
pub fn argv(words: &[&str]) -> (r: Vec<String>)
    ensures
        texts(r@) == strs(words@),
{
    let n: usize = words.len();
    let mut r: Vec<String> = Vec::new();
    for i in 0..n
        invariant
            n == words@.len(),
            texts(r@) == strs(words@.take(i as int)),
    {
        let ghost before = r@;
        r.push(words[i].to_owned());
        assert(texts(r@) =~= texts(before).push(words@[i as int]@));
        assert(strs(words@.take(i + 1)) =~= strs(words@.take(i as int)).push(words@[i as int]@));
    }
    assert(words@.take(n as int) =~= words@);
    r
}

/// Blanks, tabs and the ends of lines are white space; letters, digits and
/// punctuation are not.
pub proof fn white_space_is_what_separates_words(c: char)
    ensures
        is_space(' ') && is_space('\t') && is_space('\n') && is_space('\r'),
        '!' <= c <= '~' ==> !is_space(c),
{
}

/// White space around a text is taken off, and nothing else.
pub proof fn only_outer_white_space_is_trimmed(a: Seq<char>, s: Seq<char>, b: Seq<char>)
    requires
        forall|i: int| 0 <= i < a.len() ==> is_space(#[trigger] a[i]),
        forall|i: int| 0 <= i < b.len() ==> is_space(#[trigger] b[i]),
        s.len() > 0 ==> !is_space(s[0]) && !is_space(s.last()),
    ensures
        trimmed(a + s + b) == s,
{
    lemma_trim_front(a, s + b);
    assert(a + s + b =~= a + (s + b));
    if s.len() > 0 {
        assert(trim_start(s + b) == s + b);
        lemma_trim_back(s, b);
    } else {
        lemma_trim_front(b, seq![]);
        assert(s + b =~= b + seq![]);
        assert(s =~= seq![]);
        lemma_trim_back(s, seq![]);
    }
}

proof fn lemma_trim_front(a: Seq<char>, s: Seq<char>)
    requires
        forall|i: int| 0 <= i < a.len() ==> is_space(#[trigger] a[i]),
    ensures
        trim_start(a + s) == trim_start(s),
    decreases a.len(),
{
    if a.len() > 0 {
        assert(is_space(a[0]));
        lemma_trim_front(a.drop_first(), s);
        assert((a + s).drop_first() =~= a.drop_first() + s);
    } else {
        assert(a + s =~= s);
    }
}

proof fn lemma_trim_back(s: Seq<char>, b: Seq<char>)
    requires
        forall|i: int| 0 <= i < b.len() ==> is_space(#[trigger] b[i]),
        s.len() > 0 ==> !is_space(s.last()),
    ensures
        trim_end(s + b) == s,
    decreases b.len(),
{
    if b.len() > 0 {
        assert(is_space(b[b.len() - 1]));
        lemma_trim_back(s, b.drop_last());
        assert((s + b).drop_last() =~= s + b.drop_last());
    } else {
        assert(s + b =~= s);
    }
}

/// Copies of a character at the end of a text are taken off, and nothing else.
pub proof fn only_trailing_copies_are_stripped(s: Seq<char>, t: Seq<char>, c: char)
    requires
        forall|i: int| 0 <= i < t.len() ==> #[trigger] t[i] == c,
        s.len() > 0 ==> s.last() != c,
    ensures
        strip_end(s + t, c) == s,
    decreases t.len(),
{
    if t.len() > 0 {
        assert(t[t.len() - 1] == c);
        only_trailing_copies_are_stripped(s, t.drop_last(), c);
        assert((s + t).drop_last() =~= s + t.drop_last());
    } else {
        assert(s + t =~= s);
    }
}

/// A text is cut at the first separator; without one it is not cut.
pub proof fn the_first_separator_cuts(a: Seq<char>, b: Seq<char>, c: char)
    requires
        forall|i: int| 0 <= i < a.len() ==> #[trigger] a[i] != c,
    ensures
        cut(a.push(c) + b, c) == Some((a, b)),
        cut(a, c) is None,
        fields(a.push(c) + b, c) == seq![a] + fields(b, c),
        fields(a, c) == seq![a],
{
    let s = a.push(c) + b;
    lemma_first_at_is(s, c, a.len() as int);
    lemma_first_at_is(a, c, a.len() as int);
    assert(s.take(a.len() as int) =~= a);
    assert(s.skip(a.len() as int + 1) =~= b);
}

/// What follows the last separator holds none.
pub proof fn the_last_part_follows_the_last_separator(a: Seq<char>, b: Seq<char>, c: char)
    requires
        forall|i: int| 0 <= i < b.len() ==> #[trigger] b[i] != c,
    ensures
        after_last(a.push(c) + b, c) == b,
        after_last(b, c) == b,
    decreases a.len(),
{
    let s = a.push(c) + b;
    lemma_first_at(s, c);
    lemma_first_at_is(b, c, b.len() as int);
    let i = first_at(s, c);
    assert(s[a.len() as int] == c);
    assert(i <= a.len());
    assert(after_last(b, c) == b);
    assert(after_last(s, c) == after_last(s.skip(i + 1), c));
    if i < a.len() {
        let t = a.skip(i + 1);
        the_last_part_follows_the_last_separator(t, b, c);
        assert(s.skip(i + 1) =~= t.push(c) + b);
    } else {
        assert(s.skip(i + 1) =~= b);
    }
}

/// A text is made of its lines: each ends with a line feed, which may follow a
/// carriage return, or with the text.
pub proof fn line_feeds_end_lines(a: Seq<char>, b: Seq<char>)
    requires
        forall|i: int| 0 <= i < a.len() ==> #[trigger] a[i] != '\n',
    ensures
        a.len() > 0 && a.last() == '\r' ==> lines_of(a.push('\n') + b) == seq![a.drop_last()]
            + lines_of(b),
        !(a.len() > 0 && a.last() == '\r') ==> lines_of(a.push('\n') + b) == seq![a] + lines_of(b),
        lines_of(a) == if a.len() == 0 {
            Seq::<Seq<char>>::empty()
        } else {
            seq![a]
        },
{
    let s = a.push('\n') + b;
    lemma_first_at_is(s, '\n', a.len() as int);
    lemma_first_at_is(a, '\n', a.len() as int);
    assert(s.take(a.len() as int) =~= a);
    assert(s.skip(a.len() as int + 1) =~= b);
}

/// White space parts a text into its words.
pub proof fn white_space_parts_words(w: Seq<char>, sp: char, rest: Seq<char>)
    requires
        w.len() > 0,
        forall|i: int| 0 <= i < w.len() ==> !is_space(#[trigger] w[i]),
        is_space(sp),
    ensures
        words_of(w.push(sp) + rest) == seq![w] + words_of(rest),
        words_of(w) == seq![w],
        words_of(seq![sp] + rest) == words_of(rest),
        words_of(seq![]) == Seq::<Seq<char>>::empty(),
{
    let s = w.push(sp) + rest;
    let n = w.len() as int;
    assert forall|j: int| 0 <= j < n implies !is_space(s[j]) by {
        assert(s[j] == w[j]);
    }
    lemma_word_len_is(s, n);
    lemma_word_len_is(w, n);
    assert(s.take(n) =~= w);
    assert(w.take(n) =~= w);
    assert(s.skip(n) =~= seq![sp] + rest);
    assert((seq![sp] + rest).drop_first() =~= rest);
    assert(words_of(seq![sp] + rest) == words_of(rest));
    assert(!is_space(s[0]) && !is_space(w[0]));
    assert(w.skip(n) =~= seq![]);
    assert(words_of(w.skip(n)) =~= seq![]);
    assert(words_of(w) =~= seq![w.take(n)] + words_of(w.skip(n)));
}

/// A number may have a sign, and nothing but digits besides; one that is too
/// large or too small is none.
pub proof fn signs_and_bounds_of_numbers(n: nat, min: int, max: int)
    requires
        min <= 0 <= max,
    ensures
        n <= max ==> unsigned_of(seq!['+'] + decimal(n), max) == Some(n as int),
        n > max ==> unsigned_of(decimal(n), max) is None,
        n <= max ==> signed_of(decimal(n), min, max) == Some(n as int),
        -n >= min ==> signed_of(seq!['-'] + decimal(n), min, max) == Some(-n),
        -n < min ==> signed_of(seq!['-'] + decimal(n), min, max) is None,
{
    lemma_decimal(n);
    let d = decimal(n);
    assert(is_digit(d[0]));
    assert((seq!['+'] + d).drop_first() =~= d);
    assert((seq!['-'] + d).drop_first() =~= d);
}

/// A text with a character that is no digit, beyond a sign at its start, is no
/// number, and neither is an empty one.
pub proof fn only_digits_make_a_number(s: Seq<char>, i: int, min: int, max: int)
    requires
        s.len() == 0 || (0 <= i < s.len() && !('0' <= s[i] <= '9') && (i > 0 || (s[0] != '+'
            && s[0] != '-'))),
    ensures
        unsigned_of(s, max) is None,
        signed_of(s, min, max) is None,
{
    if s.len() > 0 {
        assert(!is_digit(s[i]));
        if i > 0 {
            assert(s.drop_first()[i - 1] == s[i]);
        }
    }
}

/// A text occurs wherever it stands, and no shorter text holds it.
pub proof fn a_text_occurs_where_it_stands(a: Seq<char>, p: Seq<char>, b: Seq<char>, s: Seq<char>)
    ensures
        occurs(a + p + b, p),
        s.len() < p.len() ==> !occurs(s, p),
{
    let all = a + p + b;
    assert(all.skip(a.len() as int) =~= p + b);
    assert(p.is_prefix_of(p + b)) by {
        assert((p + b).take(p.len() as int) =~= p);
    }
    assert(p.is_prefix_of(all.skip(a.len() as int)));
}

/// A number is written with digits alone.
pub proof fn decimals_are_digits(n: nat)
    ensures
        decimal(n).len() > 0,
        forall|i: int| 0 <= i < decimal(n).len() ==> '0' <= #[trigger] decimal(n)[i] <= '9',
{
    lemma_decimal(n);
    assert forall|i: int| 0 <= i < decimal(n).len() implies '0' <= #[trigger] decimal(n)[i]
        <= '9' by {
        assert(is_digit(decimal(n)[i]));
    }
}

/// White space beyond that of typewriters counts too: the next line, the hard
/// blank, the blanks of type setting, and the wide blank; letters of any script do
/// not.
pub proof fn wide_blanks_are_white_space(c: char)
    ensures
        is_space('\u{85}') && is_space('\u{a0}') && is_space('\u{2000}') && is_space('\u{200a}'),
        is_space('\u{2028}') && is_space('\u{2029}') && is_space('\u{3000}'),
        '\u{3001}' <= c ==> !is_space(c),
        '\u{a1}' <= c <= '\u{167f}' ==> !is_space(c),
        '\u{2060}' <= c <= '\u{2fff}' ==> !is_space(c),
{
}

/// One sign may stand before a number: a plus always, a minus only where numbers
/// may be negative. A sign alone is no number, nor are two before one.
pub proof fn at_most_one_sign_stands_before_a_number(n: nat, min: int, max: int)
    requires
        min <= 0 <= max,
    ensures
        n <= max ==> signed_of(seq!['+'] + decimal(n), min, max) == Some(n as int),
        unsigned_of(seq!['-'] + decimal(n), max) is None,
        unsigned_of(seq!['+'], max) is None,
        signed_of(seq!['-'], min, max) is None,
        signed_of(seq!['+'], min, max) is None,
        signed_of(seq!['-', '-'] + decimal(n), min, max) is None,
        signed_of(seq!['+', '-'] + decimal(n), min, max) is None,
        unsigned_of(seq!['+', '+'] + decimal(n), max) is None,
{
    signs_and_bounds_of_numbers(n, min, max);
    let d = decimal(n);
    let a = seq!['-'] + d;
    assert(!is_digit(a[0]));
    assert(seq!['+'].drop_first() =~= Seq::<char>::empty());
    assert(seq!['-'].drop_first() =~= Seq::<char>::empty());
    assert((seq!['-', '-'] + d).drop_first()[0] == '-');
    assert((seq!['+', '-'] + d).drop_first()[0] == '-');
    assert((seq!['+', '+'] + d).drop_first()[0] == '+');
}

/// Digits count by tens from the right: a digit more makes the number ten times as
/// large and adds its own value, and leading zeros change nothing.
pub proof fn digits_count_by_tens(n: nat, d: nat, max: int)
    requires
        d < 10,
        10 * n + d <= max,
        n > 0,
    ensures
        decimal(10 * n + d).len() == decimal(n).len() + 1,
        decimal(10 * n + d).drop_last() == decimal(n),
        decimal(10 * n + d).last() as int == '0' as int + d,
        decimal(d).len() == 1,
        decimal(d)[0] as int == '0' as int + d,
{
    let m = 10 * n + d;
    assert(m / 10 == n && m % 10 == d);
    assert(decimal(m).drop_last() =~= decimal(n));
}

/// One text occurs in another exactly if it stands somewhere in it.
pub proof fn a_text_occurs_only_where_it_stands(s: Seq<char>, p: Seq<char>)
    ensures
        occurs(s, p) <==> exists|k: int|
            0 <= k && k + p.len() <= s.len() && #[trigger] s.subrange(k, k + p.len()) == p,
{
    if occurs(s, p) {
        let k = choose|k: int| #![trigger s.skip(k)]
            0 <= k <= s.len() && p.is_prefix_of(s.skip(k));
        assert(s.subrange(k, k + p.len()) =~= p);
    }
    if exists|k: int|
        0 <= k && k + p.len() <= s.len() && #[trigger] s.subrange(k, k + p.len()) == p {
        let k = choose|k: int|
            0 <= k && k + p.len() <= s.len() && #[trigger] s.subrange(k, k + p.len()) == p;
        assert(s.skip(k).subrange(0, p.len() as int) =~= p);
        assert(p.is_prefix_of(s.skip(k)));
    }
}

} // verus!
