//! The servers that the daemon talks to: where they listen, and how what they
//! send is cut into messages.

use crate::scan;
use vstd::prelude::*;
use vstd::string::StringExecFns;

verus! {

/// A rectangle of the device, as it is told to the server.
#[derive(Clone, Copy, PartialEq, Eq, Debug, Structural)]
pub struct Rect {
    pub x: u32,
    pub y: u32,
    pub w: u32,
    pub h: u32,
}

/// What the server says: whether the bar may be seen, and which scene is on.
#[derive(Debug, Clone)]
pub struct VisMsg {
    pub visible: bool,
    pub scene: Option<String>,
}

/// Where a server listens: at `var` if that is given, or else under its name in
/// the runtime directory.
pub open spec fn listens_at(
    var: Option<Seq<char>>,
    runtime_dir: Option<Seq<char>>,
    name: Seq<char>,
) -> Seq<char> {
    if var is Some && var->0.len() > 0 {
        var->0
    } else if runtime_dir is Some && runtime_dir->0.len() > 0 {
        runtime_dir->0 + "/"@ + name
    } else {
        "/tmp/"@ + name
    }
}

/// Where a server listens. `name` is the socket's name.
pub fn server_socket(var: Option<&str>, runtime_dir: Option<&str>, name: &str) -> (r: String)
    ensures
        r@ == listens_at(scan::opt_str(var), scan::opt_str(runtime_dir), name@),
{
    match var {
        Some(p) => {
            if p.unicode_len() > 0 {
                return p.to_owned();
            }
        },
        None => {},
    }
    let mut r = match runtime_dir {
        Some(d) => if d.unicode_len() > 0 {
            let mut s = d.to_owned();
            s.append("/");
            s
        } else {
            "/tmp/".to_owned()
        },
        None => "/tmp/".to_owned(),
    };
    r.append(name);
    r
}

/// The end of a message.
pub const NEWLINE: u8 = 10;

/// The place behind the first newline, or zero if there is none.
pub open spec fn line_len(s: Seq<u8>) -> int
    decreases s.len(),
{
    if s.len() == 0 {
        0
    } else if s[0] == NEWLINE {
        1
    } else if line_len(s.drop_first()) == 0 {
        0
    } else {
        1 + line_len(s.drop_first())
    }
}

/// The messages in a stream of bytes, each with the newline that ends it.
pub open spec fn messages(s: Seq<u8>) -> Seq<Seq<u8>>
    decreases s.len(),
    via messages_end
{
    if line_len(s) <= 0 {
        seq![]
    } else {
        seq![s.take(line_len(s))] + messages(s.skip(line_len(s)))
    }
}

#[via_fn]
proof fn messages_end(s: Seq<u8>) {
    lemma_line_len(s);
}

/// What is left behind the last message.
pub open spec fn leftover(s: Seq<u8>) -> Seq<u8>
    decreases s.len(),
    via leftover_end
{
    if line_len(s) <= 0 {
        s
    } else {
        leftover(s.skip(line_len(s)))
    }
}

#[via_fn]
proof fn leftover_end(s: Seq<u8>) {
    lemma_line_len(s);
}

proof fn lemma_line_len(s: Seq<u8>)
    ensures
        0 <= line_len(s) <= s.len(),
        line_len(s) > 0 ==> s[line_len(s) - 1] == NEWLINE,
        forall|i: int| 0 <= i < line_len(s) - 1 ==> #[trigger] s[i] != NEWLINE,
        line_len(s) == 0 ==> forall|i: int| 0 <= i < s.len() ==> #[trigger] s[i] != NEWLINE,
    decreases s.len(),
{
    if s.len() > 0 && s[0] != NEWLINE {
        let t = s.drop_first();
        lemma_line_len(t);
        assert forall|i: int| 0 <= i < line_len(s) - 1 implies #[trigger] s[i] != NEWLINE by {
            if i > 0 {
                assert(t[i - 1] != NEWLINE);
            }
        }
        if line_len(s) == 0 {
            assert forall|i: int| 0 <= i < s.len() implies #[trigger] s[i] != NEWLINE by {
                if i > 0 {
                    assert(t[i - 1] != NEWLINE);
                }
            }
        }
    }
}

proof fn lemma_line_len_is(s: Seq<u8>, n: int)
    requires
        0 < n <= s.len(),
        s[n - 1] == NEWLINE,
        forall|i: int| 0 <= i < n - 1 ==> #[trigger] s[i] != NEWLINE,
    ensures
        line_len(s) == n,
{
    lemma_line_len(s);
    if line_len(s) == 0 {
        assert(s[n - 1] != NEWLINE);
    } else if line_len(s) < n {
        assert(s[line_len(s) - 1] != NEWLINE);
    } else if line_len(s) > n {
        assert(s[n - 1] != NEWLINE);
    }
}

pub open spec fn byte_rows(v: Seq<Vec<u8>>) -> Seq<Seq<u8>> {
    v.map_values(|r: Vec<u8>| r@)
}

/// Bytes that have come and do not make a message yet.
pub struct LineBuffer {
    pub rest: Vec<u8>,
}

impl Default for LineBuffer {
    fn default() -> (r: LineBuffer)
        ensures
            r.rest@.len() == 0,
    {
        LineBuffer { rest: Vec::new() }
    }
}

/// The bytes of a list between two places.
fn cut_out(v: &Vec<u8>, from: usize, to: usize) -> (r: Vec<u8>)
    requires
        from <= to <= v@.len(),
    ensures
        r@ == v@.subrange(from as int, to as int),
{
    let mut r: Vec<u8> = Vec::new();
    let mut i: usize = from;
    while i < to
        invariant
            from <= i <= to <= v@.len(),
            r@ == v@.subrange(from as int, i as int),
        decreases to - i,
    {
        r.push(v[i]);
        assert(r@ =~= v@.subrange(from as int, i + 1));
        i = i + 1;
    }
    r
}

impl LineBuffer {
    /// Takes in bytes and gives the messages that are complete. The rest waits
    /// for what comes next.
    pub fn push(&mut self, chunk: &[u8]) -> (r: Vec<Vec<u8>>)
        ensures
            byte_rows(r@) == messages(old(self).rest@ + chunk@),
            final(self).rest@ == leftover(old(self).rest@ + chunk@),
    {
        let ghost all = self.rest@ + chunk@;
        let m: usize = chunk.len();
        let mut i: usize = 0;
        while i < m
            invariant
                i <= m == chunk@.len(),
                self.rest@ == old(self).rest@ + chunk@.take(i as int),
            decreases m - i,
        {
            self.rest.push(chunk[i]);
            assert(self.rest@ =~= old(self).rest@ + chunk@.take(i + 1));
            i = i + 1;
        }
        assert(chunk@.take(m as int) =~= chunk@);
        let n: usize = self.rest.len();
        let mut r: Vec<Vec<u8>> = Vec::new();
        let mut start: usize = 0;
        let mut k: usize = 0;
        assert(all.skip(0) =~= all);
        assert(byte_rows(r@) + messages(all) =~= messages(all));
        while k < n
            invariant
                start <= k <= n,
                n == all.len(),
                self.rest@ == all,
                byte_rows(r@) + messages(all.skip(start as int)) == messages(all),
                leftover(all.skip(start as int)) == leftover(all),
                forall|j: int| start <= j < k ==> #[trigger] all[j] != NEWLINE,
            decreases n - k,
        {
            if self.rest[k] == NEWLINE {
                let ghost tail = all.skip(start as int);
                let ghost len = k + 1 - start;
                assert forall|j: int| 0 <= j < len - 1 implies #[trigger] tail[j] != NEWLINE by {
                    assert(all[start + j] != NEWLINE);
                }
                proof {
                    lemma_line_len_is(tail, len);
                }
                let line = cut_out(&self.rest, start, k + 1);
                let ghost before = r@;
                assert(line@ =~= tail.take(len));
                assert(tail.skip(len) =~= all.skip(k + 1));
                r.push(line);
                assert(byte_rows(r@) =~= byte_rows(before).push(tail.take(len)));
                assert(byte_rows(r@) + messages(all.skip(k + 1)) =~= byte_rows(before) + (seq![
                    tail.take(len),
                ] + messages(tail.skip(len))));
                start = k + 1;
            }
            k = k + 1;
        }
        let ghost tail = all.skip(start as int);
        proof {
            lemma_line_len(tail);
            if line_len(tail) > 0 {
                assert(all[start + line_len(tail) - 1] != NEWLINE);
            }
        }
        assert(byte_rows(r@) + seq![] =~= byte_rows(r@));
        let rest = cut_out(&self.rest, start, n);
        assert(rest@ =~= tail);
        self.rest = rest;
        r
    }
}

/// It makes no difference where the stream was cut on its way: two pieces give
/// the same messages as the whole, and leave the same rest.
pub proof fn cuts_do_not_matter(a: Seq<u8>, b: Seq<u8>)
    ensures
        messages(a) + messages(leftover(a) + b) == messages(a + b),
        leftover(leftover(a) + b) == leftover(a + b),
    decreases a.len(),
{
    lemma_line_len(a);
    let n = line_len(a);
    if n > 0 {
        cuts_do_not_matter(a.skip(n), b);
        let all = a + b;
        assert forall|i: int| 0 <= i < n - 1 implies #[trigger] all[i] != NEWLINE by {
            assert(a[i] != NEWLINE);
        }
        lemma_line_len_is(all, n);
        assert(all.take(n) =~= a.take(n));
        assert(all.skip(n) =~= a.skip(n) + b);
        assert(messages(a) + messages(leftover(a) + b) =~= seq![a.take(n)] + (messages(a.skip(n))
            + messages(leftover(a.skip(n)) + b)));
    } else {
        assert(seq![] + messages(a + b) =~= messages(a + b));
    }
}

/// Nothing is lost: the messages and the rest, one behind the other, are what
/// came.
pub proof fn every_byte_is_kept(s: Seq<u8>)
    ensures
        messages(s).fold_left(Seq::<u8>::empty(), |a: Seq<u8>, m: Seq<u8>| a + m) + leftover(s)
            == s,
{
    lemma_kept(s, seq![]);
    assert(seq![] + s =~= s);
}

proof fn lemma_kept(s: Seq<u8>, head: Seq<u8>)
    ensures
        messages(s).fold_left(head, |a: Seq<u8>, m: Seq<u8>| a + m) + leftover(s) == head + s,
    decreases s.len(),
{
    let f = |a: Seq<u8>, m: Seq<u8>| a + m;
    lemma_line_len(s);
    let n = line_len(s);
    if n > 0 {
        let m = messages(s);
        let rest = messages(s.skip(n));
        lemma_kept(s.skip(n), head + s.take(n));
        assert(m =~= seq![s.take(n)] + rest);
        m.lemma_fold_left_alt(head, f);
        rest.lemma_fold_left_alt(f(head, s.take(n)), f);
        assert(m.subrange(1, m.len() as int) =~= rest);
        assert(head + s.take(n) + s.skip(n) =~= head + s);
    } else {
        assert(messages(s).len() == 0);
        assert(messages(s).fold_left(head, f) == head) by {
            reveal(Seq::fold_left);
        }
    }
}

/// A message has one newline, at its end.
pub proof fn a_message_is_one_line(s: Seq<u8>, k: int)
    requires
        0 <= k < messages(s).len(),
    ensures
        messages(s)[k].len() > 0,
        messages(s)[k].last() == NEWLINE,
        forall|i: int|
            0 <= i < messages(s)[k].len() - 1 ==> #[trigger] messages(s)[k][i] != NEWLINE,
    decreases s.len(),
{
    lemma_line_len(s);
    let n = line_len(s);
    if n > 0 && k > 0 {
        a_message_is_one_line(s.skip(n), k - 1);
        assert(messages(s)[k] == messages(s.skip(n))[k - 1]);
    } else if n > 0 {
        assert(messages(s)[0] == s.take(n));
    }
}

/// A server listens where the variable says; without that, under its name in the
/// runtime directory; and without one, under its name in `/tmp`. An empty value
/// counts as none.
pub proof fn the_variable_names_the_socket(var: Seq<char>, dir: Seq<char>, name: Seq<char>)
    ensures
        var.len() > 0 ==> listens_at(Some(var), Some(dir), name) == var,
        var.len() > 0 ==> listens_at(Some(var), None, name) == var,
        dir.len() > 0 ==> listens_at(None, Some(dir), name) == dir.push('/') + name,
        listens_at(None, None, name) == seq!['/', 't', 'm', 'p', '/'] + name,
        listens_at(Some(seq![]), Some(dir), name) == listens_at(None, Some(dir), name),
        listens_at(None, Some(seq![]), name) == listens_at(None, None, name),
        listens_at(Some(seq![]), None, name) == listens_at(None, None, name),
{
    reveal_strlit("/");
    reveal_strlit("/tmp/");
    assert("/tmp/"@ =~= seq!['/', 't', 'm', 'p', '/']);
    assert(dir + "/"@ =~= dir.push('/'));
}

/// A line feed ends a message, and what follows it is the next; bytes without one
/// are no message and wait.
pub proof fn a_line_feed_ends_a_message(a: Seq<u8>, b: Seq<u8>)
    requires
        forall|i: int| 0 <= i < a.len() ==> #[trigger] a[i] != 10,
    ensures
        messages(a.push(10) + b) == seq![a.push(10)] + messages(b),
        leftover(a.push(10) + b) == leftover(b),
        messages(a) == Seq::<Seq<u8>>::empty(),
        leftover(a) == a,
{
    let s = a.push(10) + b;
    let n: int = a.len() as int + 1;
    assert forall|i: int| 0 <= i < n - 1 implies #[trigger] s[i] != NEWLINE by {
        assert(s[i] == a[i]);
    }
    lemma_line_len_is(s, n);
    assert(s.take(n) =~= a.push(10));
    assert(s.skip(n) =~= b);
    lemma_line_len(a);
    if line_len(a) > 0 {
        assert(a[line_len(a) - 1] != 10);
    }
}

} // verus!
