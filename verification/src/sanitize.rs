use vstd::prelude::*;

use crate::text::{chars_of, contains_at, contains_seq, string_of, views_of};

verus! {

// ---------------------------------------------------------------------------
// Character classes
// ---------------------------------------------------------------------------

/// What `char::is_alphanumeric` returns for `c`: a fixed Unicode property.
pub uninterp spec fn is_alnum(c: char) -> bool;

/// What `char::is_whitespace` returns for `c`: a fixed Unicode property.
pub uninterp spec fn is_space(c: char) -> bool;

/// A character that sanitization keeps inside a line.
pub open spec fn keep_char(c: char) -> bool {
    is_alnum(c) || is_space(c)
}

/// Relies on `char::is_alphanumeric`: it decides the fixed Unicode
/// `Alphabetic`-or-digit property of the character alone; the escape control
/// character U+001B and the punctuation `[` are not alphanumeric.
#[verifier::external_body]
fn char_is_alphanumeric(c: char) -> (r: bool)
    ensures
        r == is_alnum(c) && ((c == '\u{1b}' || c == '[') ==> !r),
{
    c.is_alphanumeric()
}

/// Relies on `char::is_whitespace`: it decides the fixed Unicode
/// `White_Space` property of the character alone; the escape control
/// character U+001B and the punctuation `[` have no such property, while the
/// newline does.
#[verifier::external_body]
fn char_is_whitespace(c: char) -> (r: bool)
    ensures
        r == is_space(c) && ((c == '\u{1b}' || c == '[') ==> !r) && (c == '\n' ==> r),
{
    c.is_whitespace()
}

fn keep_char_exec(c: char) -> (r: bool)
    ensures
        r == keep_char(c),
{
    char_is_alphanumeric(c) || char_is_whitespace(c)
}

/// Establishes, by asking the character classifiers, that the escape control
/// character and `[` are dropped by sanitization while the newline is kept.
fn char_class_probe() -> (u: bool)
    ensures
        u,
        !keep_char('\u{1b}'),
        !keep_char('['),
        keep_char('\n'),
{
    let esc_alnum = char_is_alphanumeric('\u{1b}');
    let esc_space = char_is_whitespace('\u{1b}');
    let bracket_alnum = char_is_alphanumeric('[');
    let bracket_space = char_is_whitespace('[');
    let newline_space = char_is_whitespace('\n');
    !(esc_alnum || esc_space) && !(bracket_alnum || bracket_space) && newline_space
}

// ---------------------------------------------------------------------------
// Escape-marker removal
// ---------------------------------------------------------------------------

/// The colour-start fragment removed from audit output; the escape control
/// character in front of it is dropped later by the per-line cleaning.
pub open spec fn gray_marker() -> Seq<char> {
    seq!['[', '9', '0', 'm']
}

/// The colour-reset fragment removed from audit output.
pub open spec fn reset_marker() -> Seq<char> {
    seq!['[', '3', '9', 'm']
}

/// `s` with every occurrence of `pat` removed, scanning left to right without
/// overlap.
pub open spec fn remove_marker(s: Seq<char>, pat: Seq<char>) -> Seq<char>
    decreases s.len(),
{
    if s.len() == 0 {
        s
    } else if 0 < pat.len() <= s.len() && s.subrange(0, pat.len() as int) == pat {
        remove_marker(s.skip(pat.len() as int), pat)
    } else {
        seq![s[0]] + remove_marker(s.skip(1), pat)
    }
}

/// Both escape fragments removed.
pub open spec fn strip_markers(s: Seq<char>) -> Seq<char> {
    remove_marker(remove_marker(s, gray_marker()), reset_marker())
}

fn marker_window(h: &Vec<char>, pat: &Vec<char>, start: usize) -> (r: bool)
    requires
        start + pat@.len() <= h@.len(),
    ensures
        r == (h@.subrange(start as int, start + pat@.len()) == pat@),
{
    let pat_len: usize = pat.len();
    let h_len: usize = h.len();
    let mut j: usize = 0;
    while j < pat_len
        invariant
            pat_len == pat@.len(),
            h_len == h@.len(),
            start + pat@.len() <= h@.len(),
            j <= pat@.len(),
            forall|k: int| 0 <= k < j ==> h@[start + k] == pat@[k],
        decreases pat@.len() - j,
    {
        if h[start + j] != pat[j] {
            proof {
                assert(h@.subrange(start as int, start + pat@.len())[j as int]
                    == h@[start + j]);
            }
            return false;
        }
        j += 1;
    }
    proof {
        assert(h@.subrange(start as int, start + pat@.len()) =~= pat@);
    }
    true
}

fn remove_marker_exec(v: &Vec<char>, pat: &Vec<char>) -> (out: Vec<char>)
    requires
        pat@.len() > 0,
    ensures
        out@ == remove_marker(v@, pat@),
{
    let v_len: usize = v.len();
    let pat_len: usize = pat.len();
    let mut out: Vec<char> = Vec::new();
    let mut i: usize = 0;
    proof {
        assert(v@.skip(0) =~= v@);
        assert(out@ + remove_marker(v@, pat@) =~= remove_marker(v@, pat@));
    }
    while i < v_len
        invariant
            v_len == v@.len(),
            pat_len == pat@.len() > 0,
            i <= v@.len(),
            remove_marker(v@, pat@) == out@ + remove_marker(v@.skip(i as int), pat@),
        decreases v@.len() - i,
    {
        let ghost rest = v@.skip(i as int);
        if pat_len <= v_len - i && marker_window(v, pat, i) {
            proof {
                assert(rest.subrange(0, pat@.len() as int)
                    =~= v@.subrange(i as int, i + pat@.len()));
                assert(rest.skip(pat@.len() as int) =~= v@.skip(i + pat@.len()));
                assert(remove_marker(rest, pat@) == remove_marker(v@.skip(i + pat@.len()), pat@));
            }
            i += pat_len;
        } else {
            proof {
                if rest.len() >= pat@.len() {
                    assert(rest.subrange(0, pat@.len() as int)
                        =~= v@.subrange(i as int, i + pat@.len()));
                }
                assert(rest.skip(1) =~= v@.skip(i + 1));
                assert(remove_marker(rest, pat@) == seq![v@[i as int]] + remove_marker(
                    v@.skip(i + 1),
                    pat@,
                ));
            }
            let ghost out0 = out@;
            let c = v[i];
            out.push(c);
            proof {
                assert(out@ + remove_marker(v@.skip(i + 1), pat@) =~= out0 + remove_marker(
                    rest,
                    pat@,
                ));
            }
            i += 1;
        }
    }
    proof {
        assert(v@.skip(v@.len() as int) =~= Seq::<char>::empty());
        assert(out@ + remove_marker(v@.skip(i as int), pat@) =~= out@);
    }
    out
}

fn gray_marker_exec() -> (v: Vec<char>)
    ensures
        v@ == gray_marker(),
{
    let mut v: Vec<char> = Vec::new();
    v.push('[');
    v.push('9');
    v.push('0');
    v.push('m');
    proof {
        assert(v@ =~= gray_marker());
    }
    v
}

fn reset_marker_exec() -> (v: Vec<char>)
    ensures
        v@ == reset_marker(),
{
    let mut v: Vec<char> = Vec::new();
    v.push('[');
    v.push('3');
    v.push('9');
    v.push('m');
    proof {
        assert(v@ =~= reset_marker());
    }
    v
}

// ---------------------------------------------------------------------------
// Line cleaning: keep alphanumeric and whitespace characters, trim the ends
// ---------------------------------------------------------------------------

/// `l` restricted to its kept characters, in order.
pub open spec fn filter_kept(l: Seq<char>) -> Seq<char>
    decreases l.len(),
{
    if l.len() == 0 {
        Seq::empty()
    } else if keep_char(l[0]) {
        seq![l[0]] + filter_kept(l.skip(1))
    } else {
        filter_kept(l.skip(1))
    }
}

/// `l` without its leading whitespace.
pub open spec fn trim_start(l: Seq<char>) -> Seq<char>
    decreases l.len(),
{
    if l.len() > 0 && is_space(l[0]) {
        trim_start(l.skip(1))
    } else {
        l
    }
}

/// `l` without its trailing whitespace.
pub open spec fn trim_end(l: Seq<char>) -> Seq<char>
    decreases l.len(),
{
    if l.len() > 0 && is_space(l.last()) {
        trim_end(l.drop_last())
    } else {
        l
    }
}

/// `l` without leading and trailing whitespace.
pub open spec fn trim_spec(l: Seq<char>) -> Seq<char> {
    trim_end(trim_start(l))
}

/// One line of audit output after sanitization.
pub open spec fn sanitize_line(l: Seq<char>) -> Seq<char> {
    trim_spec(filter_kept(l))
}

fn filter_kept_exec(v: &Vec<char>) -> (out: Vec<char>)
    ensures
        out@ == filter_kept(v@),
{
    let v_len: usize = v.len();
    let mut out: Vec<char> = Vec::new();
    let mut i: usize = 0;
    proof {
        assert(v@.skip(0) =~= v@);
        assert(out@ + filter_kept(v@) =~= filter_kept(v@));
    }
    while i < v_len
        invariant
            v_len == v@.len(),
            i <= v_len,
            filter_kept(v@) == out@ + filter_kept(v@.skip(i as int)),
        decreases v_len - i,
    {
        let ghost rest = v@.skip(i as int);
        let ghost out0 = out@;
        let c = v[i];
        if keep_char_exec(c) {
            out.push(c);
        }
        proof {
            assert(rest.skip(1) =~= v@.skip(i + 1));
            assert(out@ + filter_kept(v@.skip(i + 1)) =~= out0 + filter_kept(rest));
        }
        i += 1;
    }
    proof {
        assert(v@.skip(v_len as int) =~= Seq::<char>::empty());
        assert(out@ + filter_kept(Seq::<char>::empty()) =~= out@);
    }
    out
}

fn trim_exec(v: &Vec<char>) -> (out: Vec<char>)
    ensures
        out@ == trim_spec(v@),
{
    let v_len: usize = v.len();
    let mut a: usize = 0;
    proof {
        assert(v@.skip(0) =~= v@);
    }
    while a < v_len
        invariant
            v_len == v@.len(),
            a <= v_len,
            trim_start(v@) == trim_start(v@.skip(a as int)),
        ensures
            v_len == v@.len(),
            a <= v_len,
            trim_start(v@) == trim_start(v@.skip(a as int)),
            a == v_len || !is_space(v@[a as int]),
        decreases v_len - a,
    {
        if !char_is_whitespace(v[a]) {
            break;
        }
        proof {
            assert(v@.skip(a as int).skip(1) =~= v@.skip(a + 1));
        }
        a += 1;
    }
    let ghost sub = v@.skip(a as int);
    proof {
        assert(trim_start(v@) == sub);
        assert(sub.take(sub.len() as int) =~= sub);
    }
    let mut b: usize = v_len;
    while b > a
        invariant
            v_len == v@.len(),
            a <= b <= v_len,
            sub == v@.skip(a as int),
            trim_end(sub) == trim_end(sub.take(b - a)),
        ensures
            v_len == v@.len(),
            a <= b <= v_len,
            sub == v@.skip(a as int),
            trim_end(sub) == trim_end(sub.take(b - a)),
            b == a || !is_space(v@[b as int - 1]),
        decreases b,
    {
        if !char_is_whitespace(v[b - 1]) {
            break;
        }
        proof {
            let t = sub.take(b - a);
            assert(t.last() == v@[b as int - 1]);
            assert(t.drop_last() =~= sub.take(b - 1 - a));
        }
        b -= 1;
    }
    proof {
        assert(trim_end(sub.take(b - a)) == sub.take(b - a));
    }
    let mut out: Vec<char> = Vec::new();
    let mut k: usize = a;
    proof {
        assert(out@ =~= v@.subrange(a as int, a as int));
    }
    while k < b
        invariant
            v_len == v@.len(),
            a <= k <= b <= v_len,
            out@ == v@.subrange(a as int, k as int),
        decreases b - k,
    {
        let c = v[k];
        let ghost out0 = out@;
        out.push(c);
        proof {
            assert(out@ =~= v@.subrange(a as int, k + 1));
        }
        k += 1;
    }
    proof {
        assert(v@.subrange(a as int, b as int) =~= sub.take(b - a));
    }
    out
}

/// Cleans one line: drops every character that is neither alphanumeric nor
/// whitespace, then trims surrounding whitespace.
pub fn sanitize_line_exec(v: &Vec<char>) -> (out: Vec<char>)
    ensures
        out@ == sanitize_line(v@),
{
    let f = filter_kept_exec(v);
    trim_exec(&f)
}

// ---------------------------------------------------------------------------
// Splitting into lines and joining them back
// ---------------------------------------------------------------------------

/// `s` split at every newline: one more piece than there are newlines.
pub open spec fn split_all(s: Seq<char>) -> Seq<Seq<char>>
    decreases s.len(),
{
    if s.len() == 0 {
        seq![Seq::<char>::empty()]
    } else if s[0] == '\n' {
        seq![Seq::<char>::empty()] + split_all(s.skip(1))
    } else {
        let r = split_all(s.skip(1));
        seq![seq![s[0]] + r[0]] + r.skip(1)
    }
}

pub proof fn lemma_split_all_pos(s: Seq<char>)
    ensures
        split_all(s).len() >= 1,
    decreases s.len(),
{
    if s.len() > 0 {
        lemma_split_all_pos(s.skip(1));
    }
}

/// The lines of `s`: the split pieces, except that one final empty piece
/// (from a trailing newline, or from an empty text) is not a line.
pub open spec fn spec_lines(s: Seq<char>) -> Seq<Seq<char>> {
    let p = split_all(s);
    if p.len() > 0 && p.last().len() == 0 {
        p.drop_last()
    } else {
        p
    }
}

/// The pieces joined with single newlines between them.
pub open spec fn join_lines(ls: Seq<Seq<char>>) -> Seq<char>
    decreases ls.len(),
{
    if ls.len() == 0 {
        Seq::empty()
    } else if ls.len() == 1 {
        ls[0]
    } else {
        ls[0] + seq!['\n'] + join_lines(ls.skip(1))
    }
}

pub proof fn lemma_join_push(ls: Seq<Seq<char>>, x: Seq<char>)
    ensures
        join_lines(ls.push(x)) == if ls.len() == 0 {
            x
        } else {
            join_lines(ls) + seq!['\n'] + x
        },
    decreases ls.len(),
{
    if ls.len() == 0 {
        assert(ls.push(x)[0] == x);
    } else if ls.len() == 1 {
        assert(ls.push(x).skip(1) =~= seq![x]);
        assert(join_lines(seq![x]) == x);
        assert(ls.push(x)[0] == ls[0]);
    } else {
        lemma_join_push(ls.skip(1), x);
        assert(ls.push(x).skip(1) =~= ls.skip(1).push(x));
        assert(ls.push(x)[0] == ls[0]);
        assert(ls[0] + seq!['\n'] + (join_lines(ls.skip(1)) + seq!['\n'] + x) =~= (ls[0]
            + seq!['\n'] + join_lines(ls.skip(1))) + seq!['\n'] + x);
    }
}

/// Splits a text into its lines.
pub fn split_lines_exec(v: &Vec<char>) -> (out: Vec<Vec<char>>)
    ensures
        views_of(out@) == spec_lines(v@),
{
    let v_len: usize = v.len();
    let mut lines: Vec<Vec<char>> = Vec::new();
    let mut cur: Vec<char> = Vec::new();
    let mut i: usize = 0;
    proof {
        assert(v@.skip(0) =~= v@);
        lemma_split_all_pos(v@);
        assert(split_all(v@) =~= views_of(lines@) + seq![cur@ + split_all(v@.skip(0)).first()]
            + split_all(v@.skip(0)).skip(1));
    }
    while i < v_len
        invariant
            v_len == v@.len(),
            i <= v_len,
            split_all(v@.skip(i as int)).len() >= 1,
            split_all(v@) == views_of(lines@) + seq![cur@ + split_all(v@.skip(i as int)).first()]
                + split_all(v@.skip(i as int)).skip(1),
        decreases v_len - i,
    {
        let ghost rest = v@.skip(i as int);
        let ghost rest1 = v@.skip(i + 1);
        proof {
            lemma_split_all_pos(rest1);
            assert(rest.skip(1) =~= rest1);
        }
        let c = v[i];
        if c == '\n' {
            let ghost lines0 = lines@;
            let ghost cur0 = cur@;
            let done = cur;
            lines.push(done);
            cur = Vec::new();
            proof {
                assert(views_of(lines@) =~= views_of(lines0).push(cur0));
                assert(split_all(rest1) =~= seq![split_all(rest1).first()] + split_all(
                    rest1,
                ).skip(1));
                assert(views_of(lines0) + seq![cur0 + split_all(rest).first()] + split_all(
                    rest,
                ).skip(1) =~= views_of(lines@) + seq![cur@ + split_all(rest1).first()]
                    + split_all(rest1).skip(1));
            }
        } else {
            let ghost cur0 = cur@;
            cur.push(c);
            proof {
                let r = split_all(rest1);
                assert(split_all(rest).first() == seq![v@[i as int]] + r.first());
                assert(split_all(rest).skip(1) =~= r.skip(1));
                assert(cur0 + (seq![v@[i as int]] + r.first()) =~= cur@ + r.first());
            }
        }
        i += 1;
    }
    proof {
        assert(v@.skip(v_len as int) =~= Seq::<char>::empty());
        assert(split_all(v@) =~= views_of(lines@) + seq![cur@]);
    }
    if cur.len() == 0 {
        proof {
            let p = split_all(v@);
            assert(p.last() == cur@);
            assert(p.drop_last() =~= views_of(lines@));
        }
        lines
    } else {
        let ghost lines0 = lines@;
        lines.push(cur);
        proof {
            let p = split_all(v@);
            assert(p.last().len() != 0);
            assert(views_of(lines@) =~= views_of(lines0).push(p.last()));
            assert(views_of(lines@) =~= p);
        }
        lines
    }
}

/// Joins lines with single newlines between them.
pub fn join_lines_exec(ls: &Vec<Vec<char>>) -> (out: Vec<char>)
    ensures
        out@ == join_lines(views_of(ls@)),
{
    let n: usize = ls.len();
    let mut out: Vec<char> = Vec::new();
    let mut i: usize = 0;
    proof {
        assert(views_of(ls@).take(0) =~= Seq::<Seq<char>>::empty());
    }
    while i < n
        invariant
            n == ls@.len(),
            i <= n,
            out@ == join_lines(views_of(ls@).take(i as int)),
        decreases n - i,
    {
        let ghost lsv = views_of(ls@);
        if i > 0 {
            out.push('\n');
        }
        let ghost base = out@;
        let line = &ls[i];
        let line_len: usize = line.len();
        let mut j: usize = 0;
        proof {
            assert(line@.take(0) =~= Seq::<char>::empty());
            assert(base + line@.take(0) =~= base);
        }
        while j < line_len
            invariant
                line_len == line@.len(),
                j <= line_len,
                out@ == base + line@.take(j as int),
            decreases line_len - j,
        {
            let c = line[j];
            out.push(c);
            proof {
                assert(line@.take(j + 1) =~= line@.take(j as int).push(line@[j as int]));
                assert(out@ =~= base + line@.take(j + 1));
            }
            j += 1;
        }
        proof {
            assert(line@.take(line_len as int) =~= line@);
            lemma_join_push(lsv.take(i as int), lsv[i as int]);
            assert(lsv.take(i + 1) =~= lsv.take(i as int).push(lsv[i as int]));
            assert(lsv[i as int] == line@);
            if i > 0 {
                assert(base =~= join_lines(lsv.take(i as int)) + seq!['\n']);
                assert(out@ =~= join_lines(lsv.take(i as int)) + seq!['\n'] + line@);
            } else {
                assert(lsv.take(0).len() == 0);
                assert(out@ =~= line@);
            }
        }
        i += 1;
    }
    proof {
        assert(views_of(ls@).take(n as int) =~= views_of(ls@));
    }
    out
}

// ---------------------------------------------------------------------------
// Counting characters, and how the pieces above act on them
// ---------------------------------------------------------------------------

/// How often `c` occurs in `s`.
pub open spec fn count_char(s: Seq<char>, c: char) -> nat
    decreases s.len(),
{
    if s.len() == 0 {
        0
    } else {
        (if s[0] == c {
            1nat
        } else {
            0nat
        }) + count_char(s.skip(1), c)
    }
}

proof fn lemma_count_add(a: Seq<char>, b: Seq<char>, c: char)
    ensures
        count_char(a + b, c) == count_char(a, c) + count_char(b, c),
    decreases a.len(),
{
    if a.len() == 0 {
        assert(a + b =~= b);
    } else {
        lemma_count_add(a.skip(1), b, c);
        assert((a + b).skip(1) =~= a.skip(1) + b);
        assert((a + b)[0] == a[0]);
    }
}

proof fn lemma_count_zero(s: Seq<char>, c: char)
    requires
        forall|k: int| 0 <= k < s.len() ==> s[k] != c,
    ensures
        count_char(s, c) == 0,
    decreases s.len(),
{
    if s.len() > 0 {
        lemma_count_zero(s.skip(1), c);
    }
}

proof fn lemma_count_remove_marker(s: Seq<char>, pat: Seq<char>, c: char)
    requires
        pat.len() > 0,
        forall|k: int| 0 <= k < pat.len() ==> pat[k] != c,
    ensures
        count_char(remove_marker(s, pat), c) == count_char(s, c),
    decreases s.len(),
{
    if s.len() == 0 {
    } else if pat.len() <= s.len() && s.subrange(0, pat.len() as int) == pat {
        lemma_count_remove_marker(s.skip(pat.len() as int), pat, c);
        assert(s =~= s.subrange(0, pat.len() as int) + s.skip(pat.len() as int));
        lemma_count_add(s.subrange(0, pat.len() as int), s.skip(pat.len() as int), c);
        lemma_count_zero(pat, c);
    } else {
        lemma_count_remove_marker(s.skip(1), pat, c);
        assert(s =~= seq![s[0]] + s.skip(1));
        lemma_count_add(seq![s[0]], s.skip(1), c);
        lemma_count_add(seq![s[0]], remove_marker(s.skip(1), pat), c);
    }
}

proof fn lemma_remove_marker_id(s: Seq<char>, pat: Seq<char>)
    requires
        pat.len() > 0,
        forall|k: int| 0 <= k < s.len() ==> s[k] != pat[0],
    ensures
        remove_marker(s, pat) == s,
    decreases s.len(),
{
    if s.len() == 0 {
    } else {
        if pat.len() <= s.len() && s.subrange(0, pat.len() as int) == pat {
            assert(s.subrange(0, pat.len() as int)[0] == s[0]);
            assert(false);
        }
        lemma_remove_marker_id(s.skip(1), pat);
        assert(seq![s[0]] + s.skip(1) =~= s);
    }
}

proof fn lemma_filter_pointwise(l: Seq<char>, p: spec_fn(char) -> bool)
    requires
        forall|k: int| 0 <= k < l.len() ==> p(l[k]),
    ensures
        forall|k: int| 0 <= k < filter_kept(l).len() ==> p(filter_kept(l)[k]),
    decreases l.len(),
{
    if l.len() > 0 {
        lemma_filter_pointwise(l.skip(1), p);
        if keep_char(l[0]) {
            assert forall|k: int| 0 <= k < filter_kept(l).len() implies p(filter_kept(l)[k]) by {
                if k > 0 {
                    assert(filter_kept(l)[k] == filter_kept(l.skip(1))[k - 1]);
                }
            }
        }
    }
}

proof fn lemma_filter_all_kept(l: Seq<char>)
    ensures
        forall|k: int| 0 <= k < filter_kept(l).len() ==> keep_char(filter_kept(l)[k]),
    decreases l.len(),
{
    if l.len() > 0 {
        lemma_filter_all_kept(l.skip(1));
        if keep_char(l[0]) {
            assert forall|k: int| 0 <= k < filter_kept(l).len() implies keep_char(
                filter_kept(l)[k],
            ) by {
                if k == 0 {
                    assert(filter_kept(l)[0] == l[0]);
                } else {
                    assert(filter_kept(l)[k] == filter_kept(l.skip(1))[k - 1]);
                }
            }
        } else {
            assert(filter_kept(l) == filter_kept(l.skip(1)));
        }
    }
}

proof fn lemma_filter_id(l: Seq<char>)
    requires
        forall|k: int| 0 <= k < l.len() ==> keep_char(l[k]),
    ensures
        filter_kept(l) == l,
    decreases l.len(),
{
    if l.len() > 0 {
        lemma_filter_id(l.skip(1));
        assert(seq![l[0]] + l.skip(1) =~= l);
    }
}

proof fn lemma_trim_start_pointwise(l: Seq<char>, p: spec_fn(char) -> bool)
    requires
        forall|k: int| 0 <= k < l.len() ==> p(l[k]),
    ensures
        forall|k: int| 0 <= k < trim_start(l).len() ==> p(trim_start(l)[k]),
    decreases l.len(),
{
    if l.len() > 0 && is_space(l[0]) {
        lemma_trim_start_pointwise(l.skip(1), p);
        assert(trim_start(l) == trim_start(l.skip(1)));
    }
}

proof fn lemma_trim_end_pointwise(l: Seq<char>, p: spec_fn(char) -> bool)
    requires
        forall|k: int| 0 <= k < l.len() ==> p(l[k]),
    ensures
        forall|k: int| 0 <= k < trim_end(l).len() ==> p(trim_end(l)[k]),
    decreases l.len(),
{
    if l.len() > 0 && is_space(l.last()) {
        lemma_trim_end_pointwise(l.drop_last(), p);
        assert(trim_end(l) == trim_end(l.drop_last()));
    }
}

proof fn lemma_sanitize_line_pointwise(l: Seq<char>, p: spec_fn(char) -> bool)
    requires
        forall|k: int| 0 <= k < l.len() ==> p(l[k]),
    ensures
        forall|k: int| 0 <= k < sanitize_line(l).len() ==> p(sanitize_line(l)[k]),
{
    lemma_filter_pointwise(l, p);
    lemma_trim_start_pointwise(filter_kept(l), p);
    lemma_trim_end_pointwise(trim_start(filter_kept(l)), p);
}

proof fn lemma_sanitize_line_kept(l: Seq<char>)
    ensures
        forall|k: int| 0 <= k < sanitize_line(l).len() ==> keep_char(sanitize_line(l)[k]),
{
    lemma_filter_all_kept(l);
    lemma_trim_start_pointwise(filter_kept(l), |c: char| keep_char(c));
    lemma_trim_end_pointwise(trim_start(filter_kept(l)), |c: char| keep_char(c));
}

proof fn lemma_trim_start_shape(l: Seq<char>)
    ensures
        trim_start(l).len() > 0 ==> !is_space(trim_start(l)[0]),
    decreases l.len(),
{
    if l.len() > 0 && is_space(l[0]) {
        lemma_trim_start_shape(l.skip(1));
    }
}

proof fn lemma_trim_end_shape(l: Seq<char>)
    ensures
        trim_end(l).len() > 0 ==> !is_space(trim_end(l).last()),
    decreases l.len(),
{
    if l.len() > 0 && is_space(l.last()) {
        lemma_trim_end_shape(l.drop_last());
    }
}

proof fn lemma_trim_end_len(l: Seq<char>)
    ensures
        trim_end(l).len() <= l.len(),
    decreases l.len(),
{
    if l.len() > 0 && is_space(l.last()) {
        lemma_trim_end_len(l.drop_last());
    }
}

proof fn lemma_trim_end_prefix(l: Seq<char>)
    ensures
        trim_end(l) == l.take(trim_end(l).len() as int),
    decreases l.len(),
{
    if l.len() > 0 && is_space(l.last()) {
        lemma_trim_end_prefix(l.drop_last());
        lemma_trim_end_len(l.drop_last());
        assert(trim_end(l) == trim_end(l.drop_last()));
        assert(l.drop_last().take(trim_end(l).len() as int) =~= l.take(trim_end(l).len() as int));
    } else {
        assert(l.take(l.len() as int) =~= l);
    }
}

proof fn lemma_sanitize_line_idem(l: Seq<char>)
    ensures
        sanitize_line(sanitize_line(l)) == sanitize_line(l),
{
    let f = filter_kept(l);
    let m = sanitize_line(l);
    lemma_sanitize_line_kept(l);
    lemma_filter_id(m);
    if m.len() > 0 {
        lemma_trim_end_shape(trim_start(f));
        lemma_trim_start_shape(f);
        lemma_trim_end_prefix(trim_start(f));
        lemma_trim_end_len(trim_start(f));
        assert(m == trim_start(f).take(m.len() as int));
        assert(trim_start(f).take(m.len() as int)[0] == trim_start(f)[0]);
        assert(m[0] == trim_start(f)[0]);
        assert(!is_space(m[0]));
        assert(trim_start(m) == m);
        assert(!is_space(m.last()));
        assert(trim_end(m) == m);
    } else {
        assert(trim_start(m) == m);
        assert(trim_end(m) == m);
    }
}

// ---------------------------------------------------------------------------
// How splitting and joining interact
// ---------------------------------------------------------------------------

spec fn no_newline(l: Seq<char>) -> bool {
    forall|k: int| 0 <= k < l.len() ==> l[k] != '\n'
}

proof fn lemma_split_no_newline(l: Seq<char>)
    requires
        no_newline(l),
    ensures
        split_all(l) == seq![l],
    decreases l.len(),
{
    if l.len() == 0 {
        assert(split_all(l) =~~= seq![l]);
    } else {
        lemma_split_no_newline(l.skip(1));
        assert(seq![l[0]] + l.skip(1) =~= l);
        assert(split_all(l) =~~= seq![l]);
    }
}

proof fn lemma_split_concat_line(a: Seq<char>, t: Seq<char>)
    requires
        no_newline(a),
    ensures
        split_all(a + seq!['\n'] + t) == seq![a] + split_all(t),
    decreases a.len(),
{
    let s = a + seq!['\n'] + t;
    if a.len() == 0 {
        assert(s =~= seq!['\n'] + t);
        assert(s[0] == '\n');
        assert(s.skip(1) =~= t);
        assert(split_all(s) =~~= seq![a] + split_all(t));
    } else {
        lemma_split_concat_line(a.skip(1), t);
        assert(s[0] == a[0]);
        assert(s[0] != '\n');
        assert(s.skip(1) =~= a.skip(1) + seq!['\n'] + t);
        let r = split_all(s.skip(1));
        assert(r == seq![a.skip(1)] + split_all(t));
        assert(r[0] == a.skip(1));
        assert(seq![a[0]] + a.skip(1) =~= a);
        assert(split_all(s) =~~= seq![a] + split_all(t));
    }
}

proof fn lemma_split_join(ls: Seq<Seq<char>>)
    requires
        ls.len() >= 1,
        forall|j: int| 0 <= j < ls.len() ==> no_newline(#[trigger] ls[j]),
    ensures
        split_all(join_lines(ls)) == ls,
    decreases ls.len(),
{
    if ls.len() == 1 {
        lemma_split_no_newline(ls[0]);
        assert(split_all(join_lines(ls)) =~~= ls);
    } else {
        lemma_split_join(ls.skip(1));
        lemma_split_concat_line(ls[0], join_lines(ls.skip(1)));
        assert(join_lines(ls) == ls[0] + seq!['\n'] + join_lines(ls.skip(1)));
        assert(seq![ls[0]] + ls.skip(1) =~= ls);
    }
}

proof fn lemma_split_elems_no_newline(s: Seq<char>)
    ensures
        forall|j: int| 0 <= j < split_all(s).len() ==> no_newline(#[trigger] split_all(s)[j]),
    decreases s.len(),
{
    if s.len() == 0 {
    } else if s[0] == '\n' {
        lemma_split_elems_no_newline(s.skip(1));
        assert forall|j: int| 0 <= j < split_all(s).len() implies no_newline(
            #[trigger] split_all(s)[j],
        ) by {
            if j > 0 {
                assert(split_all(s)[j] == split_all(s.skip(1))[j - 1]);
            }
        }
    } else {
        lemma_split_elems_no_newline(s.skip(1));
        let r = split_all(s.skip(1));
        lemma_split_all_pos(s.skip(1));
        assert forall|j: int| 0 <= j < split_all(s).len() implies no_newline(
            #[trigger] split_all(s)[j],
        ) by {
            if j == 0 {
                assert(split_all(s)[0] == seq![s[0]] + r[0]);
                assert(no_newline(r[0]));
                assert forall|k: int| 0 <= k < split_all(s)[0].len() implies split_all(s)[0][k]
                    != '\n' by {
                    if k > 0 {
                        assert(split_all(s)[0][k] == r[0][k - 1]);
                    }
                }
            } else {
                assert(split_all(s)[j] == r[j]);
            }
        }
    }
}

proof fn lemma_join_count(ls: Seq<Seq<char>>)
    requires
        ls.len() >= 1,
        forall|j: int| 0 <= j < ls.len() ==> no_newline(#[trigger] ls[j]),
    ensures
        count_char(join_lines(ls), '\n') == ls.len() - 1,
    decreases ls.len(),
{
    if ls.len() == 1 {
        lemma_count_zero(ls[0], '\n');
    } else {
        lemma_join_count(ls.skip(1));
        lemma_count_zero(ls[0], '\n');
        lemma_count_add(ls[0], seq!['\n'], '\n');
        lemma_count_add(ls[0] + seq!['\n'], join_lines(ls.skip(1)), '\n');
        assert(count_char(seq!['\n'], '\n') == 1) by {
            assert(seq!['\n'].skip(1) =~= Seq::<char>::empty());
            assert(count_char(Seq::<char>::empty(), '\n') == 0);
            assert(seq!['\n'][0] == '\n');
        }
        assert(join_lines(ls) == ls[0] + seq!['\n'] + join_lines(ls.skip(1)));
    }
}

proof fn lemma_join_pointwise(ls: Seq<Seq<char>>, p: spec_fn(char) -> bool)
    requires
        forall|j: int| 0 <= j < ls.len() ==> (forall|k: int|
            0 <= k < (#[trigger] ls[j]).len() ==> p(ls[j][k])),
    ensures
        forall|k: int| 0 <= k < join_lines(ls).len() ==> p(#[trigger] join_lines(ls)[k])
            || join_lines(ls)[k] == '\n',
    decreases ls.len(),
{
    if ls.len() <= 1 {
    } else {
        lemma_join_pointwise(ls.skip(1), p);
        let a = ls[0];
        let rest = join_lines(ls.skip(1));
        assert(join_lines(ls) == a + seq!['\n'] + rest);
        assert forall|k: int| 0 <= k < join_lines(ls).len() implies p(
            #[trigger] join_lines(ls)[k],
        ) || join_lines(ls)[k] == '\n' by {
            if k < a.len() {
                assert(join_lines(ls)[k] == a[k]);
            } else if k == a.len() {
                assert(join_lines(ls)[k] == '\n');
            } else {
                assert(join_lines(ls)[k] == rest[k - a.len() - 1]);
            }
        }
    }
}

// ---------------------------------------------------------------------------
// The whole sanitization pass
// ---------------------------------------------------------------------------

/// The sanitized lines of `s`: escape fragments removed, then each line of the
/// remaining text cleaned.
pub open spec fn sanitized_pieces(s: Seq<char>) -> Seq<Seq<char>> {
    spec_lines(strip_markers(s)).map_values(|l: Seq<char>| sanitize_line(l))
}

/// The sanitized text: the cleaned lines, rejoined with newlines.
pub open spec fn spec_sanitize(s: Seq<char>) -> Seq<char> {
    join_lines(sanitized_pieces(s))
}

proof fn lemma_pieces_facts(s: Seq<char>)
    ensures
        forall|j: int| 0 <= j < sanitized_pieces(s).len() ==> no_newline(
            #[trigger] sanitized_pieces(s)[j],
        ),
        forall|j: int| 0 <= j < sanitized_pieces(s).len() ==> sanitize_line(
            #[trigger] sanitized_pieces(s)[j],
        ) == sanitized_pieces(s)[j],
        forall|j: int| 0 <= j < sanitized_pieces(s).len() ==> (forall|k: int|
            0 <= k < (#[trigger] sanitized_pieces(s)[j]).len() ==> keep_char(
                sanitized_pieces(s)[j][k],
            )),
{
    let t = strip_markers(s);
    let ls = spec_lines(t);
    let ms = sanitized_pieces(s);
    lemma_split_elems_no_newline(t);
    assert forall|j: int| 0 <= j < ms.len() implies no_newline(#[trigger] ms[j]) && sanitize_line(
        ms[j],
    ) == ms[j] && (forall|k: int| 0 <= k < ms[j].len() ==> keep_char(ms[j][k])) by {
        assert(ms[j] == sanitize_line(ls[j]));
        assert(ls[j] == split_all(t)[j]);
        assert(no_newline(ls[j]));
        lemma_sanitize_line_pointwise(ls[j], |c: char| c != '\n');
        lemma_sanitize_line_idem(ls[j]);
        lemma_sanitize_line_kept(ls[j]);
    }
}

proof fn lemma_sanitize_idem(s: Seq<char>)
    requires
        !keep_char('['),
    ensures
        sanitized_pieces(s).len() <= 1 || sanitized_pieces(s).last().len() > 0 ==> spec_sanitize(
            spec_sanitize(s),
        ) == spec_sanitize(s),
        spec_sanitize(spec_sanitize(s)) == spec_sanitize(s) || spec_sanitize(s) == spec_sanitize(
            spec_sanitize(s),
        ).push('\n'),
{
    let ms = sanitized_pieces(s);
    let t = spec_sanitize(s);
    lemma_pieces_facts(s);
    if ms.len() == 0 || (ms.len() == 1 && ms.last().len() == 0) {
        assert(t =~= Seq::<char>::empty());
        assert(remove_marker(t, gray_marker()) == t);
        assert(remove_marker(t, reset_marker()) == t);
        assert(strip_markers(t) == t);
        assert(split_all(t) =~= seq![Seq::<char>::empty()]);
        assert(split_all(t).last().len() == 0);
        assert(spec_lines(t) =~= Seq::<Seq<char>>::empty());
        assert(sanitized_pieces(t) =~= Seq::<Seq<char>>::empty());
        assert(spec_sanitize(t) =~= t);
    } else {
        lemma_join_pointwise(ms, |c: char| keep_char(c));
        assert forall|k: int| 0 <= k < t.len() implies t[k] != '[' by {
            assert(keep_char(t[k]) || t[k] == '\n');
        }
        assert(gray_marker()[0] == '[');
        assert(reset_marker()[0] == '[');
        lemma_remove_marker_id(t, gray_marker());
        lemma_remove_marker_id(t, reset_marker());
        assert(strip_markers(t) == t);
        lemma_split_join(ms);
        assert(split_all(t) == ms);
        if ms.last().len() > 0 {
            assert(spec_lines(t) == ms);
            assert(sanitized_pieces(t) =~= ms);
            assert(spec_sanitize(t) == t);
        } else {
            assert(ms.len() >= 2);
            assert(spec_lines(t) == ms.drop_last());
            assert forall|j: int| 0 <= j < ms.drop_last().len() implies #[trigger] ms.drop_last()[j]
                == ms[j] by {}
            assert(sanitized_pieces(t) =~= ms.drop_last());
            assert(spec_sanitize(t) == join_lines(ms.drop_last()));
            lemma_join_push(ms.drop_last(), ms.last());
            assert(ms.drop_last().push(ms.last()) =~= ms);
            assert(join_lines(ms) == join_lines(ms.drop_last()) + seq!['\n'] + ms.last());
            assert(join_lines(ms) =~= join_lines(ms.drop_last()).push('\n'));
        }
    }
}

proof fn lemma_marker_chars()
    ensures
        forall|k: int| 0 <= k < gray_marker().len() ==> gray_marker()[k] != '\n',
        forall|k: int| 0 <= k < reset_marker().len() ==> reset_marker()[k] != '\n',
{
    assert forall|k: int| 0 <= k < gray_marker().len() implies gray_marker()[k] != '\n' by {
        if k == 0 {
        } else if k == 1 {
        } else if k == 2 {
        } else {
            assert(k == 3);
        }
    }
    assert forall|k: int| 0 <= k < reset_marker().len() implies reset_marker()[k] != '\n' by {
        if k == 0 {
        } else if k == 1 {
        } else if k == 2 {
        } else {
            assert(k == 3);
        }
    }
}

proof fn lemma_sanitize_counts(s: Seq<char>)
    ensures
        count_char(strip_markers(s), '\n') == count_char(s, '\n'),
        sanitized_pieces(s).len() == 0 ==> count_char(spec_sanitize(s), '\n') == 0,
        sanitized_pieces(s).len() > 0 ==> count_char(spec_sanitize(s), '\n') == sanitized_pieces(
            s,
        ).len() - 1,
{
    lemma_marker_chars();
    lemma_count_remove_marker(s, gray_marker(), '\n');
    lemma_count_remove_marker(remove_marker(s, gray_marker()), reset_marker(), '\n');
    let ms = sanitized_pieces(s);
    if ms.len() == 0 {
        assert(count_char(spec_sanitize(s), '\n') == 0);
    } else {
        lemma_pieces_facts(s);
        lemma_join_count(ms);
    }
}

/// Sanitizes the captured output of the external audit command: removes the
/// two colour fragments wherever they occur, then per line drops every
/// character that is neither alphanumeric nor whitespace (the escape control
/// character among them) and trims surrounding whitespace, and rejoins the
/// lines with newlines.
///
/// The contract also carries the sanitizer's laws: every character of the
/// result is alphanumeric or whitespace, and neither the escape character
/// nor a colour fragment survives; sanitizing the result changes nothing
/// (except that a final empty line is not re-emitted, so in that one case a
/// single trailing newline is dropped); stripping the fragments never
/// changes the newline structure; and one piece is emitted per line of the
/// stripped text, so the newline count of the result is fixed by that line
/// count.
pub fn sanitize_audit_text(s: &str) -> (r: String)
    ensures
        r@ == spec_sanitize(s@),
        forall|k: int| 0 <= k < r@.len() ==> keep_char(r@[k]),
        forall|k: int| 0 <= k < r@.len() ==> r@[k] != '\u{1b}' && r@[k] != '[',
        !contains_seq(r@, gray_marker()),
        !contains_seq(r@, reset_marker()),
        sanitized_pieces(s@).len() <= 1 || sanitized_pieces(s@).last().len() > 0
            ==> spec_sanitize(r@) == r@,
        spec_sanitize(r@) == r@ || r@ == spec_sanitize(r@).push('\n'),
        count_char(strip_markers(s@), '\n') == count_char(s@, '\n'),
        sanitized_pieces(s@).len() == 0 ==> count_char(r@, '\n') == 0,
        sanitized_pieces(s@).len() > 0 ==> count_char(r@, '\n') == sanitized_pieces(s@).len() - 1,
{
    let _probe = char_class_probe();
    let v = chars_of(s);
    let g = gray_marker_exec();
    let re = reset_marker_exec();
    let v1 = remove_marker_exec(&v, &g);
    let v2 = remove_marker_exec(&v1, &re);
    let lines = split_lines_exec(&v2);
    let n: usize = lines.len();
    let mut cleaned: Vec<Vec<char>> = Vec::new();
    let mut i: usize = 0;
    proof {
        assert(views_of(cleaned@) =~= views_of(lines@).take(0).map_values(
            |l: Seq<char>| sanitize_line(l),
        ));
    }
    while i < n
        invariant
            n == lines@.len(),
            i <= n,
            views_of(cleaned@) == views_of(lines@).take(i as int).map_values(
                |l: Seq<char>| sanitize_line(l),
            ),
        decreases n - i,
    {
        let ghost cleaned0 = cleaned@;
        let ghost lsv = views_of(lines@);
        let c = sanitize_line_exec(&lines[i]);
        cleaned.push(c);
        proof {
            assert(views_of(cleaned@) =~= views_of(cleaned0).push(sanitize_line(lsv[i as int])));
            assert(lsv.take(i + 1) =~= lsv.take(i as int).push(lsv[i as int]));
            assert(lsv.take(i + 1).map_values(|l: Seq<char>| sanitize_line(l)) =~= lsv.take(
                i as int,
            ).map_values(|l: Seq<char>| sanitize_line(l)).push(sanitize_line(lsv[i as int])));
        }
        i += 1;
    }
    proof {
        assert(views_of(lines@).take(n as int) =~= views_of(lines@));
    }
    let joined = join_lines_exec(&cleaned);
    let out = string_of(&joined);
    proof {
        assert(v2@ == strip_markers(s@));
        assert(views_of(cleaned@) == sanitized_pieces(s@));
        assert(out@ == spec_sanitize(s@));
        let ms = sanitized_pieces(s@);
        lemma_pieces_facts(s@);
        lemma_join_pointwise(ms, |c: char| keep_char(c));
        lemma_sanitize_idem(s@);
        lemma_sanitize_counts(s@);
        assert forall|k: int| 0 <= k < out@.len() implies keep_char(out@[k]) && out@[k]
            != '\u{1b}' && out@[k] != '[' by {
            assert(keep_char(out@[k]) || out@[k] == '\n');
        }
        assert forall|i: int| !contains_at(out@, gray_marker(), i) by {
            if contains_at(out@, gray_marker(), i) {
                assert(out@.subrange(i, i + gray_marker().len() as int)[0] == out@[i]);
                assert(out@[i] == '[');
            }
        }
        assert forall|i: int| !contains_at(out@, reset_marker(), i) by {
            if contains_at(out@, reset_marker(), i) {
                assert(out@.subrange(i, i + reset_marker().len() as int)[0] == out@[i]);
                assert(out@[i] == '[');
            }
        }
    }
    out
}

} // verus!
