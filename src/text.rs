//! Character-level building blocks shared by the layout engine, the library
//! index and the navigation state: conversion between strings and character
//! vectors, trimming, line splitting and joining, code-point ordering and
//! substring search.
use vstd::prelude::*;

verus! {

/// Whether `str::trim` regards a character as whitespace: the Unicode
/// `White_Space` property, as `char::is_whitespace` tests it.
pub open spec fn is_white(c: char) -> bool {
    let u = c as u32;
    (0x9 <= u && u <= 0xd) || u == 0x20 || u == 0x85 || u == 0xa0 || u == 0x1680 || (0x2000 <= u
        && u <= 0x200a) || u == 0x2028 || u == 0x2029 || u == 0x202f || u == 0x205f || u == 0x3000
}

/// What `str::to_lowercase` makes of a string.
pub uninterp spec fn lower_of(s: Seq<char>) -> Seq<char>;

/// Relies on `str::chars`: the characters of the string, in order.
#[verifier::external_body]
pub(crate) fn char_vec(s: &str) -> (r: Vec<char>)
    ensures
        r@ == s@,
{
    s.chars().collect()
}

/// Relies on `String::from_iter` over characters: a string holding exactly the
/// given characters, in order.
#[verifier::external_body]
pub(crate) fn string_from_chars(v: &Vec<char>) -> (r: String)
    ensures
        r@ == v@,
{
    v.iter().collect()
}

/// Whether `c` has the Unicode `White_Space` property.
pub fn char_is_whitespace(c: char) -> (r: bool)
    ensures
        r == is_white(c),
{
    let u = c as u32;
    (0x9 <= u && u <= 0xd) || u == 0x20 || u == 0x85 || u == 0xa0 || u == 0x1680 || (0x2000 <= u
        && u <= 0x200a) || u == 0x2028 || u == 0x2029 || u == 0x202f || u == 0x205f || u == 0x3000
}

/// Relies on `str::to_lowercase`: the result depends on the characters alone,
/// and the empty string stays empty.
#[verifier::external_body]
pub(crate) fn lowercase(s: &str) -> (r: String)
    ensures
        r@ == lower_of(s@),
        s@.len() == 0 ==> r@.len() == 0,
{
    s.to_lowercase()
}

/// Number of whitespace characters at the start of `s`.
pub open spec fn lead_white(s: Seq<char>) -> nat
    decreases s.len(),
{
    if s.len() == 0 || !is_white(s[0]) {
        0
    } else {
        1 + lead_white(s.drop_first())
    }
}

/// Number of whitespace characters at the end of `s`.
pub open spec fn trail_white(s: Seq<char>) -> nat
    decreases s.len(),
{
    if s.len() == 0 || !is_white(s.last()) {
        0
    } else {
        1 + trail_white(s.drop_last())
    }
}

/// `s` without leading and trailing whitespace (what `str::trim` returns).
pub open spec fn trim_seq(s: Seq<char>) -> Seq<char> {
    let a = s.subrange(lead_white(s) as int, s.len() as int);
    a.subrange(0, a.len() - trail_white(a))
}

proof fn lemma_lead_white_at(s: Seq<char>, i: int)
    requires
        0 <= i <= s.len(),
        forall|k: int| 0 <= k < i ==> is_white(#[trigger] s[k]),
        i == s.len() || !is_white(s[i]),
    ensures
        lead_white(s) == i,
    decreases i,
{
    if i > 0 {
        assert forall|k: int| 0 <= k < i - 1 implies is_white(#[trigger] s.drop_first()[k]) by {
            assert(s.drop_first()[k] == s[k + 1]);
        }
        lemma_lead_white_at(s.drop_first(), i - 1);
    }
}

proof fn lemma_trail_white_at(s: Seq<char>, j: int)
    requires
        0 <= j <= s.len(),
        forall|k: int| j <= k < s.len() ==> is_white(#[trigger] s[k]),
        j == 0 || !is_white(s[j - 1]),
    ensures
        trail_white(s) == s.len() - j,
    decreases s.len() - j,
{
    if j < s.len() {
        assert forall|k: int| j <= k < s.len() - 1 implies is_white(#[trigger] s.drop_last()[k]) by {
            assert(s.drop_last()[k] == s[k]);
        }
        lemma_trail_white_at(s.drop_last(), j);
    }
}

/// Copies `s[from..to]`.
pub(crate) fn copy_range(s: &Vec<char>, from: usize, to: usize) -> (r: Vec<char>)
    requires
        from <= to <= s@.len(),
    ensures
        r@ == s@.subrange(from as int, to as int),
{
    let mut r: Vec<char> = Vec::new();
    let mut i: usize = from;
    while i < to
        invariant
            from <= i <= to <= s@.len(),
            r@ == s@.subrange(from as int, i as int),
        decreases to - i,
    {
        r.push(s[i]);
        i = i + 1;
        assert(r@ =~= s@.subrange(from as int, i as int));
    }
    r
}

/// `s` without leading and trailing whitespace.
pub fn trim_chars(s: &Vec<char>) -> (r: Vec<char>)
    ensures
        r@ == trim_seq(s@),
{
    let mut i: usize = 0;
    while i < s.len() && char_is_whitespace(s[i])
        invariant
            i <= s@.len(),
            forall|k: int| 0 <= k < i ==> is_white(#[trigger] s@[k]),
        decreases s@.len() - i,
    {
        i = i + 1;
    }
    proof {
        lemma_lead_white_at(s@, i as int);
    }
    let mut j: usize = s.len();
    while j > i && char_is_whitespace(s[j - 1])
        invariant
            i <= j <= s@.len(),
            forall|k: int| j <= k < s@.len() ==> is_white(#[trigger] s@[k]),
        decreases j,
    {
        j = j - 1;
    }
    proof {
        let a = s@.subrange(i as int, s@.len() as int);
        assert forall|k: int| j - i <= k < a.len() implies is_white(#[trigger] a[k]) by {
            assert(a[k] == s@[k + i]);
        }
        if j > i {
            assert(a[j - i - 1] == s@[j - 1]);
        }
        lemma_trail_white_at(a, j - i);
        assert(a.subrange(0, a.len() - trail_white(a)) =~= s@.subrange(i as int, j as int));
    }
    copy_range(s, i, j)
}

/// The character sequences held by a sequence of character vectors.
pub open spec fn views(v: Seq<Vec<char>>) -> Seq<Seq<char>> {
    v.map_values(|x: Vec<char>| x@)
}

/// Pieces of `s` between line feeds; always at least one piece.
pub open spec fn split_nl(s: Seq<char>) -> Seq<Seq<char>>
    decreases s.len(),
{
    if s.len() == 0 {
        seq![Seq::empty()]
    } else {
        let prev = split_nl(s.drop_last());
        if s.last() == '\n' {
            prev.push(Seq::empty())
        } else {
            prev.update(prev.len() - 1, prev.last().push(s.last()))
        }
    }
}

proof fn lemma_split_nl_nonempty(s: Seq<char>)
    ensures
        split_nl(s).len() >= 1,
    decreases s.len(),
{
    if s.len() > 0 {
        lemma_split_nl_nonempty(s.drop_last());
    }
}

/// A line that ended in a line feed, without a carriage return before it.
pub open spec fn strip_cr(l: Seq<char>) -> Seq<char> {
    if l.len() > 0 && l.last() == '\r' {
        l.drop_last()
    } else {
        l
    }
}

/// The lines of `s` as `str::lines` yields them: split at `\n` or `\r\n`, with
/// no empty line after a final line feed.
pub open spec fn lines_of(s: Seq<char>) -> Seq<Seq<char>> {
    let p = split_nl(s);
    let body = p.drop_last().map_values(|l: Seq<char>| strip_cr(l));
    if p.last().len() == 0 {
        body
    } else {
        body.push(p.last())
    }
}

fn strip_cr_exec(l: Vec<char>) -> (r: Vec<char>)
    ensures
        r@ == strip_cr(l@),
{
    let mut l = l;
    if l.len() > 0 && l[l.len() - 1] == '\r' {
        l.pop();
    }
    l
}

/// The lines of `s` (see `lines_of`).
pub fn split_lines(s: &Vec<char>) -> (r: Vec<Vec<char>>)
    ensures
        views(r@) == lines_of(s@),
{
    let mut done: Vec<Vec<char>> = Vec::new();
    let mut cur: Vec<char> = Vec::new();
    let mut i: usize = 0;
    while i < s.len()
        invariant
            i <= s@.len(),
            split_nl(s@.take(i as int)).len() >= 1,
            views(done@) == split_nl(s@.take(i as int)).drop_last().map_values(
                |l: Seq<char>| strip_cr(l),
            ),
            cur@ == split_nl(s@.take(i as int)).last(),
        decreases s@.len() - i,
    {
        let c = s[i];
        let ghost prev = split_nl(s@.take(i as int));
        let ghost dv = views(done@);
        proof {
            assert(s@.take(i + 1).drop_last() =~= s@.take(i as int));
            assert(s@.take(i + 1).last() == c);
            assert(prev =~= prev.drop_last().push(prev.last()));
        }
        if c == '\n' {
            let line = strip_cr_exec(cur);
            done.push(line);
            cur = Vec::new();
        } else {
            cur.push(c);
        }
        i = i + 1;
        proof {
            let p = split_nl(s@.take(i as int));
            lemma_split_nl_nonempty(s@.take(i as int));
            if c == '\n' {
                assert(p.drop_last() =~= prev);
                assert(views(done@) =~= dv.push(strip_cr(prev.last())));
            } else {
                assert(p.drop_last() =~= prev.drop_last());
                assert(views(done@) =~= dv);
            }
            assert(views(done@) =~= p.drop_last().map_values(|l: Seq<char>| strip_cr(l)));
        }
    }
    proof {
        assert(s@.take(i as int) =~= s@);
    }
    let ghost dv = views(done@);
    let ghost last = cur@;
    if cur.len() > 0 {
        done.push(cur);
        assert(views(done@) =~= dv.push(last));
    }
    assert(views(done@) =~= lines_of(s@));
    done
}

/// The lines joined with a line feed between each two.
pub open spec fn join_lines(ls: Seq<Seq<char>>) -> Seq<char>
    decreases ls.len(),
{
    if ls.len() == 0 {
        Seq::empty()
    } else if ls.len() == 1 {
        ls[0]
    } else {
        join_lines(ls.drop_last()) + seq!['\n'] + ls.last()
    }
}

/// Appends all of `b` to `a`.
pub(crate) fn extend_chars(a: &mut Vec<char>, b: &Vec<char>)
    ensures
        final(a)@ == old(a)@ + b@,
{
    let mut i: usize = 0;
    while i < b.len()
        invariant
            i <= b@.len(),
            a@ == old(a)@ + b@.take(i as int),
        decreases b@.len() - i,
    {
        a.push(b[i]);
        i = i + 1;
        assert(a@ =~= old(a)@ + b@.take(i as int));
    }
    assert(b@.take(b@.len() as int) =~= b@);
}

/// The lines joined with a line feed between each two.
pub fn join_line_chars(ls: &Vec<Vec<char>>) -> (r: Vec<char>)
    ensures
        r@ == join_lines(views(ls@)),
{
    let mut out: Vec<char> = Vec::new();
    let mut k: usize = 0;
    while k < ls.len()
        invariant
            k <= ls@.len(),
            out@ == join_lines(views(ls@).take(k as int)),
        decreases ls@.len() - k,
    {
        proof {
            assert(views(ls@).take(k + 1).drop_last() =~= views(ls@).take(k as int));
        }
        if k > 0 {
            out.push('\n');
        }
        extend_chars(&mut out, &ls[k]);
        k = k + 1;
        proof {
            let t = views(ls@).take(k as int);
            if k == 1 {
                assert(out@ =~= t[0]);
            } else {
                assert(out@ =~= join_lines(t.drop_last()) + seq!['\n'] + t.last());
            }
        }
    }
    assert(views(ls@).take(ls@.len() as int) =~= views(ls@));
    out
}

/// Code-point (lexicographic) order on character sequences: `a` comes
/// strictly before `b`.
pub open spec fn lex_lt(a: Seq<char>, b: Seq<char>) -> bool
    decreases a.len(),
{
    if a.len() == 0 {
        b.len() > 0
    } else if b.len() == 0 {
        false
    } else if a[0] != b[0] {
        a[0] < b[0]
    } else {
        lex_lt(a.drop_first(), b.drop_first())
    }
}

pub proof fn lemma_lex_irreflexive(a: Seq<char>)
    ensures
        !lex_lt(a, a),
    decreases a.len(),
{
    if a.len() > 0 {
        lemma_lex_irreflexive(a.drop_first());
    }
}

pub proof fn lemma_lex_total(a: Seq<char>, b: Seq<char>)
    ensures
        a == b || lex_lt(a, b) || lex_lt(b, a),
    decreases a.len(),
{
    if a.len() > 0 && b.len() > 0 && a[0] == b[0] {
        lemma_lex_total(a.drop_first(), b.drop_first());
        if a.drop_first() == b.drop_first() {
            assert(a =~= seq![a[0]] + a.drop_first());
            assert(b =~= seq![b[0]] + b.drop_first());
        }
    } else if a.len() == 0 && b.len() == 0 {
        assert(a =~= b);
    }
}

pub proof fn lemma_lex_transitive(a: Seq<char>, b: Seq<char>, c: Seq<char>)
    requires
        lex_lt(a, b),
        lex_lt(b, c),
    ensures
        lex_lt(a, c),
    decreases a.len(),
{
    if a.len() > 0 && b.len() > 0 && c.len() > 0 && a[0] == b[0] && b[0] == c[0] {
        lemma_lex_transitive(a.drop_first(), b.drop_first(), c.drop_first());
    }
}

/// Whether `a` comes strictly before `b` in code-point order.
pub fn chars_lt(a: &Vec<char>, b: &Vec<char>) -> (r: bool)
    ensures
        r == lex_lt(a@, b@),
{
    let mut i: usize = 0;
    assert(a@.skip(0) =~= a@ && b@.skip(0) =~= b@);
    while i < a.len() && i < b.len() && a[i] == b[i]
        invariant
            i <= a@.len(),
            i <= b@.len(),
            lex_lt(a@, b@) == lex_lt(a@.skip(i as int), b@.skip(i as int)),
        decreases a@.len() - i,
    {
        proof {
            let sa = a@.skip(i as int);
            let sb = b@.skip(i as int);
            assert(sa.drop_first() =~= a@.skip(i + 1));
            assert(sb.drop_first() =~= b@.skip(i + 1));
        }
        i = i + 1;
    }
    if i == a.len() {
        i < b.len()
    } else if i == b.len() {
        false
    } else {
        a[i] < b[i]
    }
}

/// Whether string `a` comes strictly before string `b` in code-point order.
pub fn string_lt(a: &String, b: &String) -> (r: bool)
    ensures
        r == lex_lt(a@, b@),
{
    let ca = char_vec(a.as_str());
    let cb = char_vec(b.as_str());
    chars_lt(&ca, &cb)
}

/// `q` occurs in `s` as a contiguous run.
pub open spec fn has_infix(s: Seq<char>, q: Seq<char>) -> bool {
    exists|i: int| 0 <= i && i + q.len() <= s.len() && #[trigger] s.subrange(i, i + q.len()) == q
}

fn matches_at(s: &Vec<char>, q: &Vec<char>, at: usize) -> (r: bool)
    requires
        at + q@.len() <= s@.len(),
    ensures
        r == (s@.subrange(at as int, at + q@.len()) == q@),
{
    let n: usize = s.len();
    let mut k: usize = 0;
    while k < q.len()
        invariant
            n == s@.len(),
            k <= q@.len(),
            at + q@.len() <= s@.len(),
            forall|m: int| 0 <= m < k ==> s@[at + m] == q@[m],
        decreases q@.len() - k,
    {
        assert(at + k < s@.len());
        if s[at + k] != q[k] {
            assert(s@.subrange(at as int, at + q@.len())[k as int] != q@[k as int]);
            return false;
        }
        k = k + 1;
    }
    assert(s@.subrange(at as int, at + q@.len()) =~= q@);
    true
}

/// Whether `q` occurs in `s` as a contiguous run.
pub fn contains_chars(s: &Vec<char>, q: &Vec<char>) -> (r: bool)
    ensures
        r == has_infix(s@, q@),
{
    if q.len() > s.len() {
        return false;
    }
    let last: usize = s.len() - q.len();
    let mut at: usize = 0;
    loop
        invariant
            last == s@.len() - q@.len(),
            at <= last,
            forall|i: int| 0 <= i < at ==> #[trigger] s@.subrange(i, i + q@.len()) != q@,
        decreases last - at,
    {
        if matches_at(s, q, at) {
            return true;
        }
        if at == last {
            assert forall|i: int|
                0 <= i && i + q@.len() <= s@.len() implies #[trigger] s@.subrange(i, i + q@.len())
                != q@ by {
                assert(i <= at);
            }
            return false;
        }
        at = at + 1;
    }
}

} // verus!
