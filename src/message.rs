//! Splitting a commit message into its subject and body.
use vstd::prelude::*;
use vstd::string::*;

verus! {

/// Unicode White_Space, the set `char::is_whitespace` tests.
pub open spec fn is_space(c: char) -> bool {
    ('\u{9}' <= c && c <= '\u{d}') || c == ' ' || c == '\u{85}' || c == '\u{a0}' || c == '\u{1680}'
        || ('\u{2000}' <= c && c <= '\u{200a}') || c == '\u{2028}' || c == '\u{2029}' || c == '\u{202f}'
        || c == '\u{205f}' || c == '\u{3000}'
}

fn space(c: char) -> (r: bool)
    ensures
        r == is_space(c),
{
    ('\u{9}' <= c && c <= '\u{d}') || c == ' ' || c == '\u{85}' || c == '\u{a0}' || c == '\u{1680}'
        || ('\u{2000}' <= c && c <= '\u{200a}') || c == '\u{2028}' || c == '\u{2029}' || c == '\u{202f}'
        || c == '\u{205f}' || c == '\u{3000}'
}

/// `s` without its leading white space.
pub open spec fn trim_start(s: Seq<char>) -> Seq<char>
    decreases s.len(),
{
    if s.len() > 0 && is_space(s[0]) {
        trim_start(s.drop_first())
    } else {
        s
    }
}

/// `s` without its trailing white space.
pub open spec fn trim_end(s: Seq<char>) -> Seq<char>
    decreases s.len(),
{
    if s.len() > 0 && is_space(s.last()) {
        trim_end(s.drop_last())
    } else {
        s
    }
}

/// `s` without white space at either end, as `str::trim` gives it.
pub open spec fn trim(s: Seq<char>) -> Seq<char> {
    trim_end(trim_start(s))
}

/// Index of the first line feed at or after `i`, or the length of `s`.
pub open spec fn line_end(s: Seq<char>, i: int) -> int
    decreases s.len() - i,
{
    if i >= s.len() {
        s.len() as int
    } else if s[i] == '\n' {
        i
    } else {
        line_end(s, i + 1)
    }
}

/// A line without its carriage return.
pub open spec fn strip_cr(l: Seq<char>) -> Seq<char> {
    if l.len() > 0 && l.last() == '\r' {
        l.drop_last()
    } else {
        l
    }
}

/// The lines of `s` from index `i`, as `str::lines` yields them: split at line
/// feeds, a final line feed ending the last line, a carriage return dropped
/// where a line feed follows it (a bare one at the very end stays).
pub open spec fn lines_from(s: Seq<char>, i: int) -> Seq<Seq<char>>
    decreases s.len() + 1 - i,
{
    if i < 0 || i >= s.len() {
        Seq::empty()
    } else {
        let e = line_end(s, i);
        if e < i || e > s.len() {
            Seq::empty()
        } else {
            seq![if e < s.len() { strip_cr(s.subrange(i, e)) } else { s.subrange(i, e) }] + lines_from(s, e + 1)
        }
    }
}

/// The lines after the leading ones that are blank.
pub open spec fn skip_blank(ls: Seq<Seq<char>>) -> Seq<Seq<char>>
    decreases ls.len(),
{
    if ls.len() > 0 && trim(ls[0]).len() == 0 {
        skip_blank(ls.drop_first())
    } else {
        ls
    }
}

/// Lines joined with line feeds.
pub open spec fn join_lines(ls: Seq<Seq<char>>) -> Seq<char>
    decreases ls.len(),
{
    if ls.len() == 0 {
        Seq::empty()
    } else if ls.len() == 1 {
        ls[0]
    } else {
        join_lines(ls.drop_last()) + seq!['\n'] + ls.last()
    }
}

/// The subject of a message: its first line, trimmed; empty for an empty message.
pub open spec fn subject_of(msg: Seq<char>) -> Seq<char> {
    let ls = lines_from(msg, 0);
    if ls.len() == 0 {
        Seq::empty()
    } else {
        trim(ls[0])
    }
}

/// The body lines of a message: those after the subject, leading blank ones skipped.
pub open spec fn body_lines_of(msg: Seq<char>) -> Seq<Seq<char>> {
    let ls = lines_from(msg, 0);
    if ls.len() == 0 {
        Seq::empty()
    } else {
        skip_blank(ls.drop_first())
    }
}

pub(crate) fn chars_of(s: &str) -> (r: Vec<char>)
    ensures
        r@ == s@,
{
    let n = s.unicode_len();
    let mut r: Vec<char> = Vec::new();
    let mut i: usize = 0;
    while i < n
        invariant
            n == s@.len(),
            i <= n,
            r@ == s@.subrange(0, i as int),
        decreases n - i,
    {
        r.push(s.get_char(i));
        i = i + 1;
        assert(r@ =~= s@.subrange(0, i as int));
    }
    assert(s@.subrange(0, n as int) =~= s@);
    r
}

pub(crate) fn string_of(cs: &Vec<char>, from: usize, to: usize) -> (r: String)
    requires
        from <= to <= cs@.len(),
    ensures
        r@ == cs@.subrange(from as int, to as int),
{
    let mut r = String::new();
    let mut i: usize = from;
    while i < to
        invariant
            from <= i <= to,
            to <= cs@.len(),
            r@ == cs@.subrange(from as int, i as int),
        decreases to - i,
    {
        r.push(cs[i]);
        i = i + 1;
        assert(r@ =~= cs@.subrange(from as int, i as int));
    }
    r
}

proof fn lemma_trim_start_skip(s: Seq<char>, a: int)
    requires
        0 <= a <= s.len(),
        forall|k: int| 0 <= k < a ==> is_space(s[k]),
    ensures
        trim_start(s) == trim_start(s.subrange(a, s.len() as int)),
    decreases a,
{
    if a > 0 {
        assert(s.drop_first() =~= s.subrange(1, s.len() as int));
        lemma_trim_start_skip(s.drop_first(), a - 1);
        assert(s.drop_first().subrange(a - 1, s.drop_first().len() as int) =~= s.subrange(a, s.len() as int));
    } else {
        assert(s.subrange(0, s.len() as int) =~= s);
    }
}

proof fn lemma_trim_end_skip(s: Seq<char>, b: int)
    requires
        0 <= b <= s.len(),
        forall|k: int| b <= k < s.len() ==> is_space(s[k]),
    ensures
        trim_end(s) == trim_end(s.subrange(0, b)),
    decreases s.len() - b,
{
    if b < s.len() {
        assert(s.drop_last() =~= s.subrange(0, s.len() - 1));
        lemma_trim_end_skip(s.drop_last(), b);
        assert(s.drop_last().subrange(0, b) =~= s.subrange(0, b));
    } else {
        assert(s.subrange(0, b) =~= s);
    }
}

/// Bounds of `trim(cs[from..to])` inside `cs`.
fn trim_bounds(cs: &Vec<char>, from: usize, to: usize) -> (r: (usize, usize))
    requires
        from <= to <= cs@.len(),
    ensures
        from <= r.0 <= r.1 <= to,
        cs@.subrange(r.0 as int, r.1 as int) == trim(cs@.subrange(from as int, to as int)),
{
    let ghost s = cs@.subrange(from as int, to as int);
    let mut a: usize = from;
    while a < to && space(cs[a])
        invariant
            from <= a <= to,
            to <= cs@.len(),
            forall|k: int| from <= k < a ==> is_space(cs@[k]),
        decreases to - a,
    {
        a = a + 1;
    }
    proof {
        assert forall|k: int| 0 <= k < a - from implies is_space(s[k]) by {
            assert(s[k] == cs@[from + k]);
        }
        lemma_trim_start_skip(s, a - from);
        assert(s.subrange(a - from, s.len() as int) =~= cs@.subrange(a as int, to as int));
        let t = cs@.subrange(a as int, to as int);
        if a < to {
            assert(trim_start(t) == t);
        } else {
            assert(t.len() == 0);
        }
    }
    let mut b: usize = to;
    while b > a && space(cs[b - 1])
        invariant
            a <= b <= to,
            to <= cs@.len(),
            forall|k: int| b <= k < to ==> is_space(cs@[k]),
        decreases b,
    {
        b = b - 1;
    }
    proof {
        let t = cs@.subrange(a as int, to as int);
        assert forall|k: int| b - a <= k < t.len() implies is_space(t[k]) by {
            assert(t[k] == cs@[a + k]);
        }
        lemma_trim_end_skip(t, b - a);
        assert(t.subrange(0, b - a) =~= cs@.subrange(a as int, b as int));
        let u = cs@.subrange(a as int, b as int);
        if b > a {
            assert(trim_end(u) == u);
        }
    }
    (a, b)
}

proof fn lemma_line_end_skip(s: Seq<char>, st: int, i: int)
    requires
        0 <= st <= i,
        forall|k: int| st <= k < i && k < s.len() ==> s[k] != '\n',
    ensures
        line_end(s, st) == line_end(s, i),
    decreases i - st,
{
    if st < i {
        if st < s.len() {
            lemma_line_end_skip(s, st + 1, i);
        }
    }
}

proof fn lemma_line_end_range(s: Seq<char>, i: int)
    requires
        0 <= i,
    ensures
        i <= s.len() ==> i <= line_end(s, i) <= s.len(),
    decreases s.len() - i,
{
    if i < s.len() && s[i] != '\n' {
        lemma_line_end_range(s, i + 1);
    }
}

/// Each pair bounds, inside `s`, the line of `s` at the same position.
spec fn bounds_match(r: Seq<(usize, usize)>, s: Seq<char>) -> bool {
    forall|j: int|
        0 <= j < r.len() ==> #[trigger] r[j].0 <= r[j].1 <= s.len() && s.subrange(r[j].0 as int, r[j].1 as int)
            == lines_from(s, 0)[j]
}

/// The lines of `cs`, each as a pair of bounds into `cs`, carriage returns excluded.
fn line_bounds(cs: &Vec<char>) -> (r: Vec<(usize, usize)>)
    ensures
        r@.len() == lines_from(cs@, 0).len(),
        bounds_match(r@, cs@),
{
    let ghost s = cs@;
    let n = cs.len();
    let mut r: Vec<(usize, usize)> = Vec::new();
    let mut st: usize = 0;
    let mut i: usize = 0;
    proof {
        lemma_line_end_range(s, 0);
    }
    while i < n
        invariant
            n == s.len(),
            s == cs@,
            st <= i <= n,
            forall|k: int| st <= k < i ==> s[k] != '\n',
            r@.len() + lines_from(s, st as int).len() == lines_from(s, 0).len(),
            bounds_match(r@, s),
            forall|j: int|
                0 <= j < lines_from(s, st as int).len() ==> lines_from(s, 0)[r@.len() + j]
                    == #[trigger] lines_from(s, st as int)[j],
        decreases n - i,
    {
        if cs[i] == '\n' {
            proof {
                lemma_line_end_skip(s, st as int, i as int);
            }
            let end = if i > st && cs[i - 1] == '\r' {
                i - 1
            } else {
                i
            };
            proof {
                let l = s.subrange(st as int, i as int);
                if i > st && s[i - 1] == '\r' {
                    assert(strip_cr(l) =~= s.subrange(st as int, end as int));
                } else {
                    assert(strip_cr(l) =~= s.subrange(st as int, end as int));
                }
                let rest = lines_from(s, st as int);
                lemma_line_end_range(s, st as int);
                assert(rest == seq![strip_cr(l)] + lines_from(s, i + 1));
                assert forall|j: int| 0 <= j < lines_from(s, i + 1).len() implies lines_from(s, 0)[r@.len() + 1 + j]
                    == #[trigger] lines_from(s, i + 1)[j] by {
                    assert(rest[j + 1] == lines_from(s, i + 1)[j]);
                }
                assert(lines_from(s, 0)[r@.len() as int] == rest[0]);
            }
            r.push((st, end));
            st = i + 1;
        }
        i = i + 1;
    }
    if st < n {
        proof {
            lemma_line_end_skip(s, st as int, n as int);
            let l = s.subrange(st as int, n as int);
            assert(lines_from(s, n as int + 1) == Seq::<Seq<char>>::empty());
            let rest = lines_from(s, st as int);
            assert(rest == seq![l] + lines_from(s, n + 1));
            assert(lines_from(s, 0)[r@.len() as int] == rest[0]);
        }
        let end = n;
        let ghost before = r@;
        r.push((st, end));
        proof {
            assert forall|j: int| 0 <= j < r@.len() implies #[trigger] r@[j].0 <= r@[j].1 <= s.len() && s.subrange(
                r@[j].0 as int,
                r@[j].1 as int,
            ) == lines_from(s, 0)[j] by {
                if j < before.len() {
                    assert(r@[j] == before[j]);
                }
            }
            assert(bounds_match(r@, s));
        }
    }
    assert(bounds_match(r@, s));
    r
}

/// A copy of `s` without white space at either end.
pub fn trimmed(s: &str) -> (r: String)
    ensures
        r@ == trim(s@),
{
    let cs = chars_of(s);
    let (a, b) = trim_bounds(&cs, 0, cs.len());
    assert(cs@.subrange(0, cs@.len() as int) =~= s@);
    string_of(&cs, a, b)
}

proof fn lemma_skip_blank_prefix(ls: Seq<Seq<char>>, k: int)
    requires
        0 <= k <= ls.len(),
        forall|m: int| 0 <= m < k ==> trim(#[trigger] ls[m]).len() == 0,
    ensures
        skip_blank(ls) == skip_blank(ls.subrange(k, ls.len() as int)),
    decreases k,
{
    if k > 0 {
        assert(ls.drop_first() =~= ls.subrange(1, ls.len() as int));
        assert(trim(ls[0]).len() == 0);
        lemma_skip_blank_prefix(ls.drop_first(), k - 1);
        assert(ls.drop_first().subrange(k - 1, ls.drop_first().len() as int) =~= ls.subrange(k, ls.len() as int));
    } else {
        assert(ls.subrange(0, ls.len() as int) =~= ls);
    }
}

/// Splits a commit message: the subject is the first line, trimmed; the body
/// is the rest after its leading blank lines, joined with line feeds, or
/// `None` when nothing is left.
pub fn parse_message(msg: &str) -> (r: (String, Option<String>))
    ensures
        r.0@ == subject_of(msg@),
        r.1 is None <==> body_lines_of(msg@).len() == 0,
        r.1 matches Some(b) ==> b@ == join_lines(body_lines_of(msg@)),
{
    let cs = chars_of(msg);
    let lb = line_bounds(&cs);
    let ghost ls = lines_from(cs@, 0);
    let n = lb.len();
    if n == 0 {
        return (String::new(), None);
    }
    let (s0, e0) = lb[0];
    assert(cs@.subrange(s0 as int, e0 as int) == ls[0]);
    let (a, b) = trim_bounds(&cs, s0, e0);
    let subject = string_of(&cs, a, b);
    let mut k: usize = 1;
    while k < n
        invariant
            1 <= k <= n,
            n == lb@.len(),
            n == ls.len(),
            ls == lines_from(cs@, 0),
            bounds_match(lb@, cs@),
            forall|m: int| 1 <= m < k ==> trim(#[trigger] ls[m]).len() == 0,
        ensures
            1 <= k <= n,
            forall|m: int| 1 <= m < k ==> trim(#[trigger] ls[m]).len() == 0,
            k < n ==> trim(ls[k as int]).len() != 0,
        decreases n - k,
    {
        let (sk, ek) = lb[k];
        assert(cs@.subrange(sk as int, ek as int) == ls[k as int]);
        let (ak, bk) = trim_bounds(&cs, sk, ek);
        if ak < bk {
            break;
        }
        k = k + 1;
    }
    let ghost rest = ls.drop_first();
    proof {
        assert forall|m: int| 0 <= m < k - 1 implies trim(#[trigger] rest[m]).len() == 0 by {
            assert(rest[m] == ls[m + 1]);
        }
        lemma_skip_blank_prefix(rest, k - 1);
        assert(rest.subrange(k - 1, rest.len() as int) =~= ls.subrange(k as int, n as int));
        if k < n {
            assert(trim(ls[k as int]).len() != 0);
            assert(ls.subrange(k as int, n as int)[0] == ls[k as int]);
        }
    }
    if k == n {
        assert(ls.subrange(k as int, n as int).len() == 0);
        return (subject, None);
    }
    let mut body = String::new();
    let mut j: usize = k;
    while j < n
        invariant
            k <= j <= n,
            k < n,
            n == lb@.len(),
            n == ls.len(),
            ls == lines_from(cs@, 0),
            bounds_match(lb@, cs@),
            j == k ==> body@.len() == 0,
            j > k ==> body@ == join_lines(ls.subrange(k as int, j as int)),
        decreases n - j,
    {
        let (sj, ej) = lb[j];
        assert(cs@.subrange(sj as int, ej as int) == ls[j as int]);
        let piece = string_of(&cs, sj, ej);
        let ghost before = body@;
        if j > k {
            body.push('\n');
        }
        body.push_str(piece.as_str());
        proof {
            let sub = ls.subrange(k as int, j + 1);
            assert(sub.drop_last() =~= ls.subrange(k as int, j as int));
            assert(sub.last() == ls[j as int]);
            if j == k {
                assert(sub.len() == 1);
                assert(body@ =~= sub[0]);
            } else {
                assert(body@ =~= join_lines(sub.drop_last()) + seq!['\n'] + sub.last());
            }
        }
        j = j + 1;
    }
    (subject, Some(body))
}

} // verus!
