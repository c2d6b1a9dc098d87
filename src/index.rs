//! The library index: how many poems each author wrote, how many versions
//! each language has, and the sorted lists built from them.
use vstd::prelude::*;
use crate::model::{
    Poem, Version, poem_wf, canonical_version, lemma_index_of_key, index_of_key, canonical_key, key_at,
    same_text, canonical_key_string,
};
use crate::text::{
    lex_lt, string_lt, chars_lt, char_vec, lowercase, lower_of, lemma_lex_total,
    lemma_lex_transitive,
};

verus! {

/// The canonical author of a poem.
pub open spec fn author_of(p: Poem) -> Seq<char> {
    canonical_version(p).author@
}

/// How many of the poems have `a` as canonical author.
pub open spec fn author_tally(ps: Seq<Poem>, a: Seq<char>) -> nat
    decreases ps.len(),
{
    if ps.len() == 0 {
        0
    } else {
        author_tally(ps.drop_last(), a) + if author_of(ps.last()) == a {
            1nat
        } else {
            0nat
        }
    }
}

/// How many of the versions are in language `l`.
pub open spec fn version_lang_tally(vs: Seq<(String, Version)>, l: Seq<char>) -> nat
    decreases vs.len(),
{
    if vs.len() == 0 {
        0
    } else {
        version_lang_tally(vs.drop_last(), l) + if vs.last().1.language@ == l {
            1nat
        } else {
            0nat
        }
    }
}

/// How many versions, canonical and variant, of all the poems are in
/// language `l`.
pub open spec fn lang_tally(ps: Seq<Poem>, l: Seq<char>) -> nat
    decreases ps.len(),
{
    if ps.len() == 0 {
        0
    } else {
        lang_tally(ps.drop_last(), l) + version_lang_tally(ps.last().versions@, l)
    }
}

/// The number of versions of all the poems.
pub open spec fn total_versions(ps: Seq<Poem>) -> nat
    decreases ps.len(),
{
    if ps.len() == 0 {
        0
    } else {
        total_versions(ps.drop_last()) + ps.last().versions@.len()
    }
}

/// The keys of a table are distinct.
pub open spec fn distinct_keys(t: Seq<(String, usize)>) -> bool {
    forall|i: int, j: int| 0 <= i < t.len() && 0 <= j < t.len() && i != j ==> t[i].0@ != t[j].0@
}

/// `t` holds one entry for each canonical author of `ps`, with the number of
/// poems by that author.
pub open spec fn author_table(t: Seq<(String, usize)>, ps: Seq<Poem>) -> bool {
    &&& distinct_keys(t)
    &&& forall|i: int| 0 <= i < t.len() ==> (#[trigger] t[i]).1 == author_tally(ps, t[i].0@)
    &&& forall|i: int| 0 <= i < t.len() ==> author_tally(ps, (#[trigger] t[i]).0@) > 0
    &&& forall|k: int| 0 <= k < ps.len() ==> exists|i: int| 0 <= i < t.len() && (#[trigger] t[i]).0@ == author_of(#[trigger] ps[k])
}

/// `t` holds one entry, with its count, for each key that `f` counts at
/// least once.
pub open spec fn tally_table(t: Seq<(String, usize)>, f: spec_fn(Seq<char>) -> nat) -> bool {
    &&& distinct_keys(t)
    &&& forall|i: int| 0 <= i < t.len() ==> (#[trigger] t[i]).1 == f(t[i].0@)
    &&& forall|i: int| 0 <= i < t.len() ==> f((#[trigger] t[i]).0@) > 0
    &&& forall|key: Seq<char>| #[trigger] f(key) > 0 ==> exists|i: int| 0 <= i < t.len() && (#[trigger] t[i]).0@ == key
}

/// `t` holds one entry for each language of any version of `ps`, with the
/// number of versions in that language.
pub open spec fn language_table(t: Seq<(String, usize)>, ps: Seq<Poem>) -> bool {
    tally_table(t, |l: Seq<char>| lang_tally(ps, l))
}

/// Counts one more occurrence of `key`.
fn add_to_tally(
    t: &mut Vec<(String, usize)>,
    key: &String,
    Ghost(f): Ghost<spec_fn(Seq<char>) -> nat>,
    Ghost(g): Ghost<spec_fn(Seq<char>) -> nat>,
)
    requires
        tally_table(old(t)@, f),
        f(key@) < usize::MAX,
        forall|x: Seq<char>| #[trigger] g(x) == f(x) + if x == key@ { 1nat } else { 0nat },
    ensures
        tally_table(final(t)@, g),
{
    let ghost old_t = t@;
    match find_entry(t, key) {
        Some(i) => {
            let c = t[i].1;
            let k = t[i].0.clone();
            t.set(i, (k, c + 1));
            assert forall|q: int| 0 <= q < t@.len() implies (#[trigger] t@[q]).1 == g(t@[q].0@) by {
                if q != i {
                    assert(old_t[q].0@ != old_t[i as int].0@);
                }
            }
            assert forall|x: Seq<char>| #[trigger] g(x) > 0 implies exists|q: int| 0 <= q < t@.len() && (#[trigger] t@[q]).0@ == x by {
                if x == key@ {
                    assert(t@[i as int].0@ == x);
                } else {
                    assert(f(x) > 0);
                    let q = choose|q: int| 0 <= q < old_t.len() && (#[trigger] old_t[q]).0@ == x;
                    assert(t@[q].0@ == x);
                }
            }
        },
        None => {
            let k = key.clone();
            t.push((k, 1));
            assert(f(key@) == 0) by {
                if f(key@) > 0 {
                    let q = choose|q: int| 0 <= q < old_t.len() && (#[trigger] old_t[q]).0@ == key@;
                }
            }
            assert forall|q: int| 0 <= q < t@.len() implies (#[trigger] t@[q]).1 == g(t@[q].0@) by {
                if q < old_t.len() {
                    assert(t@[q] == old_t[q]);
                }
            }
            assert forall|x: Seq<char>| #[trigger] g(x) > 0 implies exists|q: int| 0 <= q < t@.len() && (#[trigger] t@[q]).0@ == x by {
                if x == key@ {
                    assert(t@[old_t.len() as int].0@ == x);
                } else {
                    assert(f(x) > 0);
                    let q = choose|q: int| 0 <= q < old_t.len() && (#[trigger] old_t[q]).0@ == x;
                    assert(t@[q].0@ == x);
                }
            }
        },
    }
}

/// Counts the versions, canonical and variant, in each language, in order of
/// first appearance.
pub fn count_languages(poems: &Vec<Poem>) -> (r: Vec<(String, usize)>)
    requires
        total_versions(poems@) <= usize::MAX,
    ensures
        language_table(r@, poems@),
{
    let mut t: Vec<(String, usize)> = Vec::new();
    let mut k: usize = 0;
    while k < poems.len()
        invariant
            k <= poems@.len(),
            total_versions(poems@) <= usize::MAX,
            tally_table(t@, |l: Seq<char>| lang_tally(poems@.take(k as int), l)),
        decreases poems@.len() - k,
    {
        let ghost ps = poems@.take(k as int);
        let vs = &poems[k].versions;
        proof {
            assert(poems@.take(k + 1).drop_last() =~= ps);
            lemma_total_versions_mono(poems@, k + 1);
        }
        let mut j: usize = 0;
        proof {
            let g0 = |l: Seq<char>| lang_tally(ps, l) + version_lang_tally(vs@.take(0), l);
            let h0 = |l: Seq<char>| lang_tally(poems@.take(k as int), l);
            assert(vs@.take(0) =~= Seq::<(String, Version)>::empty());
            assert(g0 =~= h0);
        }
        while j < vs.len()
            invariant
                k < poems@.len(),
                ps == poems@.take(k as int),
                *vs == poems@[k as int].versions,
                j <= vs@.len(),
                total_versions(poems@.take(k + 1)) <= usize::MAX,
                poems@.take(k + 1).drop_last() == ps,
                tally_table(t@, |l: Seq<char>| lang_tally(ps, l) + version_lang_tally(vs@.take(j as int), l)),
            decreases vs@.len() - j,
        {
            let ghost f = |l: Seq<char>| lang_tally(ps, l) + version_lang_tally(vs@.take(j as int), l);
            let ghost lang = vs@[j as int].1.language@;
            proof {
                assert(vs@.take(j + 1).drop_last() =~= vs@.take(j as int));
                lemma_lang_tally_le(ps, lang);
                lemma_version_lang_tally_le(vs@.take(j as int), lang);
                assert(poems@.take(k + 1).last() == poems@[k as int]);
            }
            let ghost g = |l: Seq<char>| lang_tally(ps, l) + version_lang_tally(vs@.take(j + 1), l);
            proof {
                assert(vs@.take(j + 1).last() == vs@[j as int]);
            }
            add_to_tally(&mut t, &vs[j].1.language, Ghost(f), Ghost(g));
            j = j + 1;
        }
        assert(vs@.take(j as int) =~= vs@);
        k = k + 1;
        proof {
            let g = |l: Seq<char>| lang_tally(poems@.take(k as int), l);
            let h = |l: Seq<char>| lang_tally(ps, l) + version_lang_tally(vs@, l);
            assert(poems@.take(k as int).drop_last() =~= ps);
            assert(g =~= h);
        }
    }
    assert(poems@.take(k as int) =~= poems@);
    t
}

proof fn lemma_author_tally_le(ps: Seq<Poem>, a: Seq<char>)
    ensures
        author_tally(ps, a) <= ps.len(),
    decreases ps.len(),
{
    if ps.len() > 0 {
        lemma_author_tally_le(ps.drop_last(), a);
    }
}

proof fn lemma_version_lang_tally_le(vs: Seq<(String, Version)>, l: Seq<char>)
    ensures
        version_lang_tally(vs, l) <= vs.len(),
    decreases vs.len(),
{
    if vs.len() > 0 {
        lemma_version_lang_tally_le(vs.drop_last(), l);
    }
}

proof fn lemma_lang_tally_le(ps: Seq<Poem>, l: Seq<char>)
    ensures
        lang_tally(ps, l) <= total_versions(ps),
    decreases ps.len(),
{
    if ps.len() > 0 {
        lemma_lang_tally_le(ps.drop_last(), l);
        lemma_version_lang_tally_le(ps.last().versions@, l);
    }
}

proof fn lemma_total_versions_mono(ps: Seq<Poem>, k: int)
    requires
        0 <= k <= ps.len(),
    ensures
        total_versions(ps.take(k)) <= total_versions(ps),
    decreases ps.len() - k,
{
    if k < ps.len() {
        lemma_total_versions_mono(ps, k + 1);
        assert(ps.take(k + 1).drop_last() =~= ps.take(k));
    } else {
        assert(ps.take(k) =~= ps);
    }
}

/// Position of the entry under `key`, if any.
pub(crate) fn find_entry(t: &Vec<(String, usize)>, key: &String) -> (r: Option<usize>)
    ensures
        r is Some ==> r->0 < t@.len() && t@[r->0 as int].0@ == key@,
        r is None ==> forall|i: int| 0 <= i < t@.len() ==> t@[i].0@ != key@,
{
    let mut i: usize = 0;
    while i < t.len()
        invariant
            i <= t@.len(),
            forall|k: int| 0 <= k < i ==> t@[k].0@ != key@,
        decreases t@.len() - i,
    {
        if t[i].0 == *key {
            return Some(i);
        }
        i = i + 1;
    }
    None
}

/// Counts the poems of each canonical author, in order of first appearance.
pub fn count_authors(poems: &Vec<Poem>) -> (r: Vec<(String, usize)>)
    requires
        forall|k: int| 0 <= k < poems@.len() ==> poem_wf(#[trigger] poems@[k]),
    ensures
        author_table(r@, poems@),
{
    let mut t: Vec<(String, usize)> = Vec::new();
    let mut k: usize = 0;
    while k < poems.len()
        invariant
            k <= poems@.len(),
            forall|q: int| 0 <= q < poems@.len() ==> poem_wf(#[trigger] poems@[q]),
            author_table(t@, poems@.take(k as int)),
        decreases poems@.len() - k,
    {
        let ghost ps = poems@.take(k as int);
        let ghost ps1 = poems@.take(k + 1);
        proof {
            assert(ps1.drop_last() =~= ps);
            assert(poem_wf(poems@[k as int]));
            lemma_author_tally_le(ps, author_of(poems@[k as int]));
        }
        let v = poems[k].canonical().unwrap();
        let a = &v.author;
        let ghost old_t = t@;
        match find_entry(&t, a) {
            Some(i) => {
                let c = t[i].1;
                let key = t[i].0.clone();
                t.set(i, (key, c + 1));
                assert forall|q: int| 0 <= q < t@.len() implies (#[trigger] t@[q]).1 == author_tally(ps1, t@[q].0@) by {
                    if q != i {
                        assert(old_t[q].0@ != old_t[i as int].0@);
                    }
                }
                assert forall|q: int| 0 <= q < ps1.len() implies exists|j: int| 0 <= j < t@.len() && (#[trigger] t@[j]).0@ == author_of(#[trigger] ps1[q]) by {
                    if q < k {
                        assert(ps1[q] == ps[q]);
                        let j = choose|j: int| 0 <= j < old_t.len() && (#[trigger] old_t[j]).0@ == author_of(ps[q]);
                        assert(t@[j].0@ == old_t[j].0@);
                    } else {
                        assert(t@[i as int].0@ == author_of(ps1[q]));
                    }
                }
            },
            None => {
                let key = a.clone();
                t.push((key, 1));
                assert forall|q: int| 0 <= q < ps1.len() implies exists|j: int| 0 <= j < t@.len() && (#[trigger] t@[j]).0@ == author_of(#[trigger] ps1[q]) by {
                    if q < k {
                        assert(ps1[q] == ps[q]);
                        let j = choose|j: int| 0 <= j < old_t.len() && (#[trigger] old_t[j]).0@ == author_of(ps[q]);
                        assert(t@[j].0@ == old_t[j].0@);
                    } else {
                        assert(t@[old_t.len() as int].0@ == author_of(ps1[q]));
                    }
                }
                assert(author_tally(ps, a@) == 0) by {
                    if author_tally(ps, a@) > 0 {
                        lemma_tally_witness(ps, a@);
                        let w = choose|w: int| 0 <= w < ps.len() && author_of(ps[w]) == a@;
                        let j = choose|j: int| 0 <= j < old_t.len() && (#[trigger] old_t[j]).0@ == author_of(#[trigger] ps[w]);
                    }
                }
            },
        }
        k = k + 1;
    }
    assert(poems@.take(k as int) =~= poems@);
    t
}

pub proof fn lemma_tally_witness(ps: Seq<Poem>, a: Seq<char>)
    requires
        author_tally(ps, a) > 0,
    ensures
        exists|w: int| 0 <= w < ps.len() && author_of(ps[w]) == a,
    decreases ps.len(),
{
    if author_of(ps.last()) != a {
        lemma_tally_witness(ps.drop_last(), a);
        let w = choose|w: int| 0 <= w < ps.drop_last().len() && author_of(ps.drop_last()[w]) == a;
        assert(ps[w] == ps.drop_last()[w]);
    }
}

/// Every element of `s` comes strictly before every later one under `lt`.
pub open spec fn sorted_by<T>(s: Seq<T>, lt: spec_fn(T, T) -> bool) -> bool {
    forall|i: int, j: int| 0 <= i < j < s.len() ==> lt(s[i], s[j])
}

proof fn lemma_insert_sorted<T>(s: Seq<T>, x: T, p: int, lt: spec_fn(T, T) -> bool)
    requires
        0 <= p <= s.len(),
        sorted_by(s, lt),
        forall|i: int| 0 <= i < p ==> lt(#[trigger] s[i], x),
        forall|i: int| p <= i < s.len() ==> lt(x, #[trigger] s[i]),
    ensures
        sorted_by(s.insert(p, x), lt),
{
    let r = s.insert(p, x);
    assert forall|i: int, j: int| 0 <= i < j < r.len() implies lt(r[i], r[j]) by {
        if j < p {
            assert(r[i] == s[i] && r[j] == s[j]);
        } else if j == p {
            assert(r[i] == s[i]);
        } else if i < p {
            assert(r[i] == s[i] && r[j] == s[j - 1]);
        } else if i == p {
            assert(r[j] == s[j - 1]);
        } else {
            assert(r[i] == s[i - 1] && r[j] == s[j - 1]);
        }
    }
}

/// Code-point order on strings.
pub open spec fn str_lt(a: String, b: String) -> bool {
    lex_lt(a@, b@)
}

/// Inserts `x`, which differs from every element, into the strictly sorted
/// `v`, keeping it sorted.
fn insert_str_sorted(v: &mut Vec<String>, x: String)
    requires
        sorted_by(old(v)@, |a: String, b: String| str_lt(a, b)),
        forall|i: int| 0 <= i < old(v)@.len() ==> (#[trigger] old(v)@[i])@ != x@,
    ensures
        sorted_by(final(v)@, |a: String, b: String| str_lt(a, b)),
        exists|p: int| 0 <= p <= old(v)@.len() && final(v)@ == old(v)@.insert(p, x),
{
    let ghost lt = |a: String, b: String| str_lt(a, b);
    let mut p: usize = 0;
    while p < v.len() && string_lt(&v[p], &x)
        invariant
            p <= v@.len(),
            forall|i: int| 0 <= i < p ==> str_lt(#[trigger] v@[i], x),
        decreases v@.len() - p,
    {
        p = p + 1;
    }
    proof {
        if p < v@.len() {
            lemma_lex_total(v@[p as int]@, x@);
            assert forall|i: int| p <= i < v@.len() implies str_lt(x, #[trigger] v@[i]) by {
                if i > p {
                    assert(lt(v@[p as int], v@[i]));
                    lemma_lex_transitive(x@, v@[p as int]@, v@[i]@);
                }
            }
        }
        assert forall|i: int| 0 <= i < p implies lt(#[trigger] v@[i], x) by {}
        assert forall|i: int| p <= i < v@.len() implies lt(x, #[trigger] v@[i]) by {}
        lemma_insert_sorted(v@, x, p as int, lt);
    }
    v.insert(p, x);
}

/// Key `key` is among the first `n` entries of `t`.
pub open spec fn key_among(t: Seq<(String, usize)>, n: int, key: Seq<char>) -> bool {
    exists|j: int| 0 <= j < n && (#[trigger] t[j]).0@ == key
}

/// Entry `e`, key and count, is among the first `n` entries of `t`.
pub open spec fn entry_among(t: Seq<(String, usize)>, n: int, e: (String, usize)) -> bool {
    exists|j: int| 0 <= j < n && (#[trigger] t[j]).0@ == e.0@ && t[j].1 == e.1
}

/// `key` is one of the strings of `r`.
pub open spec fn listed(r: Seq<String>, key: Seq<char>) -> bool {
    exists|i: int| 0 <= i < r.len() && (#[trigger] r[i])@ == key
}

/// The keys of a table in code-point order.
pub fn sorted_keys(t: &Vec<(String, usize)>) -> (r: Vec<String>)
    requires
        distinct_keys(t@),
    ensures
        r@.len() == t@.len(),
        sorted_by(r@, |a: String, b: String| str_lt(a, b)),
        forall|i: int| 0 <= i < r@.len() ==> key_among(t@, t@.len() as int, (#[trigger] r@[i])@),
        forall|j: int| 0 <= j < t@.len() ==> listed(r@, (#[trigger] t@[j]).0@),
{
    let mut r: Vec<String> = Vec::new();
    let mut k: usize = 0;
    while k < t.len()
        invariant
            k <= t@.len(),
            distinct_keys(t@),
            r@.len() == k,
            sorted_by(r@, |a: String, b: String| str_lt(a, b)),
            forall|i: int| 0 <= i < r@.len() ==> key_among(t@, k as int, (#[trigger] r@[i])@),
            forall|j: int| 0 <= j < k ==> listed(r@, (#[trigger] t@[j]).0@),
        decreases t@.len() - k,
    {
        let x = t[k].0.clone();
        let ghost old_r = r@;
        assert forall|i: int| 0 <= i < old_r.len() implies (#[trigger] old_r[i])@ != x@ by {
            assert(key_among(t@, k as int, old_r[i]@));
            let j = choose|j: int| 0 <= j < k && (#[trigger] t@[j]).0@ == old_r[i]@;
            assert(t@[j].0@ != t@[k as int].0@);
        }
        insert_str_sorted(&mut r, x);
        let ghost p = choose|p: int| 0 <= p <= old_r.len() && r@ == old_r.insert(p, x);
        assert forall|i: int| 0 <= i < r@.len() implies key_among(t@, k + 1, (#[trigger] r@[i])@) by {
            if i < p {
                assert(r@[i] == old_r[i]);
                assert(key_among(t@, k as int, old_r[i]@));
            } else if i == p {
                assert(t@[k as int].0@ == r@[i]@);
            } else {
                assert(r@[i] == old_r[i - 1]);
                assert(key_among(t@, k as int, old_r[i - 1]@));
            }
        }
        assert forall|j: int| 0 <= j < k + 1 implies listed(r@, (#[trigger] t@[j]).0@) by {
            if j < k {
                assert(listed(old_r, t@[j].0@));
                let i = choose|i: int| 0 <= i < old_r.len() && (#[trigger] old_r[i])@ == t@[j].0@;
                if i < p {
                    assert(r@[i] == old_r[i]);
                } else {
                    assert(r@[i + 1] == old_r[i]);
                }
            } else {
                assert(r@[p] == x);
            }
        }
        k = k + 1;
    }
    r
}

/// Language order: more versions first, then code-point order of the code.
pub open spec fn entry_lt(a: (String, usize), b: (String, usize)) -> bool {
    a.1 > b.1 || (a.1 == b.1 && lex_lt(a.0@, b.0@))
}

fn entry_lt_exec(a: &(String, usize), b: &(String, usize)) -> (r: bool)
    ensures
        r == entry_lt(*a, *b),
{
    a.1 > b.1 || (a.1 == b.1 && string_lt(&a.0, &b.0))
}

/// The entries of a table, most counted first, ties in code-point order of
/// the key.
pub fn sorted_by_count(t: &Vec<(String, usize)>) -> (r: Vec<(String, usize)>)
    requires
        distinct_keys(t@),
    ensures
        r@.len() == t@.len(),
        sorted_by(r@, |a: (String, usize), b: (String, usize)| entry_lt(a, b)),
        forall|i: int| 0 <= i < r@.len() ==> entry_among(t@, t@.len() as int, #[trigger] r@[i]),
        forall|j: int| 0 <= j < t@.len() ==> key_among(r@, r@.len() as int, (#[trigger] t@[j]).0@),
{
    let ghost lt = |a: (String, usize), b: (String, usize)| entry_lt(a, b);
    let mut r: Vec<(String, usize)> = Vec::new();
    let mut k: usize = 0;
    while k < t.len()
        invariant
            k <= t@.len(),
            distinct_keys(t@),
            r@.len() == k,
            lt == (|a: (String, usize), b: (String, usize)| entry_lt(a, b)),
            sorted_by(r@, lt),
            forall|i: int| 0 <= i < r@.len() ==> entry_among(t@, k as int, #[trigger] r@[i]),
            forall|j: int| 0 <= j < k ==> key_among(r@, r@.len() as int, (#[trigger] t@[j]).0@),
        decreases t@.len() - k,
    {
        let x = (t[k].0.clone(), t[k].1);
        let ghost old_r = r@;
        assert forall|i: int| 0 <= i < old_r.len() implies (#[trigger] old_r[i]).0@ != x.0@ by {
            assert(entry_among(t@, k as int, old_r[i]));
            let j = choose|j: int| 0 <= j < k && (#[trigger] t@[j]).0@ == old_r[i].0@ && t@[j].1 == old_r[i].1;
            assert(t@[j].0@ != t@[k as int].0@);
        }
        let mut p: usize = 0;
        while p < r.len() && entry_lt_exec(&r[p], &x)
            invariant
                p <= r@.len(),
                r@ == old_r,
                lt == (|a: (String, usize), b: (String, usize)| entry_lt(a, b)),
                forall|i: int| 0 <= i < p ==> entry_lt(#[trigger] r@[i], x),
            decreases r@.len() - p,
        {
            p = p + 1;
        }
        proof {
            if p < r@.len() {
                lemma_lex_total(r@[p as int].0@, x.0@);
                assert(entry_lt(x, r@[p as int]));
                assert forall|i: int| p <= i < r@.len() implies entry_lt(x, #[trigger] r@[i]) by {
                    if i > p {
                        assert(lt(r@[p as int], r@[i]));
                        assert(entry_lt(r@[p as int], r@[i]));
                        if r@[p as int].1 == r@[i].1 && x.1 == r@[p as int].1 {
                            lemma_lex_transitive(x.0@, r@[p as int].0@, r@[i].0@);
                        }
                    }
                }
            }
            assert forall|i: int| 0 <= i < p implies lt(#[trigger] r@[i], x) by {}
            assert forall|i: int| p <= i < r@.len() implies lt(x, #[trigger] r@[i]) by {}
            lemma_insert_sorted(r@, x, p as int, lt);
        }
        r.insert(p, x);
        assert forall|i: int| 0 <= i < r@.len() implies entry_among(t@, k + 1, #[trigger] r@[i]) by {
            if i < p {
                assert(r@[i] == old_r[i]);
                assert(entry_among(t@, k as int, old_r[i]));
            } else if i == p {
                assert(t@[k as int].0@ == r@[i].0@);
            } else {
                assert(r@[i] == old_r[i - 1]);
                assert(entry_among(t@, k as int, old_r[i - 1]));
            }
        }
        assert forall|j: int| 0 <= j < k + 1 implies key_among(r@, r@.len() as int, (#[trigger] t@[j]).0@) by {
            if j < k {
                assert(key_among(old_r, old_r.len() as int, t@[j].0@));
                let i = choose|i: int| 0 <= i < old_r.len() && (#[trigger] old_r[i]).0@ == t@[j].0@;
                if i < p {
                    assert(r@[i] == old_r[i]);
                } else {
                    assert(r@[i + 1] == old_r[i]);
                }
            } else {
                assert(r@[p as int] == x);
            }
        }
        k = k + 1;
    }
    r
}

/// The canonical title of poem `i`, case-folded.
pub open spec fn folded_title(ps: Seq<Poem>, i: int) -> Seq<char> {
    lower_of(canonical_version(ps[i]).title@)
}

/// Title order: case-folded titles in code-point order, equal ones by
/// position in the library.
pub open spec fn title_lt(ps: Seq<Poem>, a: int, b: int) -> bool {
    lex_lt(folded_title(ps, a), folded_title(ps, b)) || (folded_title(ps, a) == folded_title(ps, b)
        && a < b)
}

/// Poem `k` is one of the entries of `r`.
pub open spec fn index_listed(r: Seq<(usize, String)>, k: int) -> bool {
    exists|i: int| 0 <= i < r.len() && (#[trigger] r[i]).0 == k
}

/// Every poem of the library, as its position and canonical title, in title
/// order.
pub fn sorted_titles(poems: &Vec<Poem>) -> (r: Vec<(usize, String)>)
    requires
        forall|k: int| 0 <= k < poems@.len() ==> poem_wf(#[trigger] poems@[k]),
    ensures
        r@.len() == poems@.len(),
        forall|i: int| 0 <= i < r@.len() ==> (#[trigger] r@[i]).0 < poems@.len() && r@[i].1@
            == canonical_version(poems@[r@[i].0 as int]).title@,
        forall|i: int, j: int| 0 <= i < j < r@.len() ==> title_lt(poems@, r@[i].0 as int, r@[j].0 as int),
        forall|k: int| 0 <= k < poems@.len() ==> #[trigger] index_listed(r@, k),
{
    let ghost ps = poems@;
    let mut r: Vec<(usize, String)> = Vec::new();
    let mut lows: Vec<Vec<char>> = Vec::new();
    let mut k: usize = 0;
    while k < poems.len()
        invariant
            ps == poems@,
            forall|q: int| 0 <= q < poems@.len() ==> poem_wf(#[trigger] poems@[q]),
            k <= ps.len(),
            r@.len() == k,
            lows@.len() == k,
            forall|i: int| 0 <= i < r@.len() ==> (#[trigger] r@[i]).0 < k && r@[i].1@
                == canonical_version(ps[r@[i].0 as int]).title@ && lows@[i]@ == folded_title(ps, r@[i].0 as int),
            forall|i: int, j: int| 0 <= i < j < r@.len() ==> title_lt(ps, r@[i].0 as int, r@[j].0 as int),
            forall|q: int| 0 <= q < k ==> #[trigger] index_listed(r@, q),
        decreases ps.len() - k,
    {
        let v = poems[k].canonical().unwrap();
        let low_str = lowercase(v.title.as_str());
        let lk = char_vec(low_str.as_str());
        let mut p: usize = 0;
        while p < r.len() && !chars_lt(&lk, &lows[p])
            invariant
                p <= r@.len(),
                r@.len() == lows@.len(),
                forall|i: int| 0 <= i < p ==> !lex_lt(lk@, (#[trigger] lows@[i])@),
            decreases r@.len() - p,
        {
            p = p + 1;
        }
        let ghost old_r = r@;
        let ghost old_l = lows@;
        proof {
            assert forall|i: int| 0 <= i < p implies title_lt(ps, (#[trigger] old_r[i]).0 as int, k as int) by {
                lemma_lex_total(lk@, old_l[i]@);
            }
            assert forall|i: int| p <= i < old_r.len() implies title_lt(ps, k as int, (#[trigger] old_r[i]).0 as int) by {
                if i > p {
                    assert(title_lt(ps, old_r[p as int].0 as int, old_r[i].0 as int));
                    if lex_lt(folded_title(ps, old_r[p as int].0 as int), folded_title(ps, old_r[i].0 as int)) {
                        lemma_lex_transitive(lk@, old_l[p as int]@, old_l[i]@);
                    }
                }
            }
        }
        r.insert(p, (k, v.title.clone()));
        lows.insert(p, lk);
        proof {
            assert forall|i: int, j: int| 0 <= i < j < r@.len() implies title_lt(ps, r@[i].0 as int, r@[j].0 as int) by {
                if j < p {
                    assert(r@[i] == old_r[i] && r@[j] == old_r[j]);
                } else if j == p {
                    assert(r@[i] == old_r[i]);
                } else if i < p {
                    assert(r@[i] == old_r[i] && r@[j] == old_r[j - 1]);
                } else if i == p {
                    assert(r@[j] == old_r[j - 1]);
                } else {
                    assert(r@[i] == old_r[i - 1] && r@[j] == old_r[j - 1]);
                }
            }
            assert forall|i: int| 0 <= i < r@.len() implies (#[trigger] r@[i]).0 < k + 1 && r@[i].1@
                == canonical_version(ps[r@[i].0 as int]).title@ && lows@[i]@ == folded_title(ps, r@[i].0 as int) by {
                if i < p {
                    assert(r@[i] == old_r[i] && lows@[i] == old_l[i]);
                } else if i > p {
                    assert(r@[i] == old_r[i - 1] && lows@[i] == old_l[i - 1]);
                }
            }
            assert forall|q: int| 0 <= q < k + 1 implies #[trigger] index_listed(r@, q) by {
                if q < k {
                    assert(index_listed(old_r, q));
                    let i = choose|i: int| 0 <= i < old_r.len() && (#[trigger] old_r[i]).0 == q;
                    if i < p {
                        assert(r@[i] == old_r[i]);
                    } else {
                        assert(r@[i + 1] == old_r[i]);
                    }
                } else {
                    assert(r@[p as int].0 == q);
                }
            }
        }
        k = k + 1;
    }
    r
}

/// The key of every variant of a poem (every version but the canonical one),
/// in code-point order, after `canonical`.
pub open spec fn is_variant_key(p: Poem, key: Seq<char>) -> bool {
    key != canonical_key() && exists|j: int| 0 <= j < p.versions@.len() && (#[trigger] p.versions@[j]).0@ == key
}

/// Key `key` is that of one of the first `n` versions other than version `c`.
pub open spec fn variant_among(vs: Seq<(String, Version)>, n: int, c: int, key: Seq<char>) -> bool {
    exists|j: int| 0 <= j < n && j != c && (#[trigger] vs[j]).0@ == key
}

/// The keys a reader cycles through: `canonical`, then the variant keys in
/// code-point order.
pub fn version_keys(poem: &Poem) -> (r: Vec<String>)
    requires
        poem_wf(*poem),
    ensures
        r@.len() == poem.versions@.len(),
        r@[0]@ == canonical_key(),
        sorted_by(r@.drop_first(), |a: String, b: String| str_lt(a, b)),
        forall|i: int| 1 <= i < r@.len() ==> is_variant_key(*poem, (#[trigger] r@[i])@),
        forall|key: Seq<char>| is_variant_key(*poem, key) ==> #[trigger] listed(r@.drop_first(), key),
{
    let ghost vs = poem.versions@;
    let mut sorted: Vec<String> = Vec::new();
    let mut k: usize = 0;
    let ghost ci = index_of_key(vs, canonical_key());
    proof {
        lemma_index_of_key(vs, canonical_key());
    }
    while k < poem.versions.len()
        invariant
            vs == poem.versions@,
            poem_wf(*poem),
            0 <= ci < vs.len(),
            vs[ci].0@ == canonical_key(),
            k <= vs.len(),
            sorted@.len() == (if k > ci { k - 1 } else { k as int }),
            sorted_by(sorted@, |a: String, b: String| str_lt(a, b)),
            forall|i: int| 0 <= i < sorted@.len() ==> variant_among(vs, k as int, ci, (#[trigger] sorted@[i])@),
            forall|j: int| 0 <= j < k && j != ci ==> listed(sorted@, (#[trigger] vs[j]).0@),
        decreases vs.len() - k,
    {
        let ghost old_s = sorted@;
        if !same_text(poem.versions[k].0.as_str(), "canonical") {
            let x = poem.versions[k].0.clone();
            assert(k != ci);
            assert forall|i: int| 0 <= i < old_s.len() implies (#[trigger] old_s[i])@ != x@ by {
                assert(variant_among(vs, k as int, ci, old_s[i]@));
                let j = choose|j: int| 0 <= j < k && j != ci && (#[trigger] vs[j]).0@ == old_s[i]@;
                assert(key_at(vs, j) != key_at(vs, k as int));
            }
            insert_str_sorted(&mut sorted, x);
            let ghost p = choose|p: int| 0 <= p <= old_s.len() && sorted@ == old_s.insert(p, x);
            assert forall|i: int| 0 <= i < sorted@.len() implies variant_among(vs, k + 1, ci, (#[trigger] sorted@[i])@) by {
                if i < p {
                    assert(sorted@[i] == old_s[i]);
                    assert(variant_among(vs, k as int, ci, old_s[i]@));
                } else if i == p {
                    assert(vs[k as int].0@ == sorted@[i]@);
                } else {
                    assert(sorted@[i] == old_s[i - 1]);
                    assert(variant_among(vs, k as int, ci, old_s[i - 1]@));
                }
            }
            assert forall|j: int| 0 <= j < k + 1 && j != ci implies listed(sorted@, (#[trigger] vs[j]).0@) by {
                if j < k {
                    assert(listed(old_s, vs[j].0@));
                    let i = choose|i: int| 0 <= i < old_s.len() && (#[trigger] old_s[i])@ == vs[j].0@;
                    if i < p {
                        assert(sorted@[i] == old_s[i]);
                    } else {
                        assert(sorted@[i + 1] == old_s[i]);
                    }
                } else {
                    assert(sorted@[p] == x);
                }
            }
        } else {
            assert(k == ci) by {
                if k != ci {
                    assert(key_at(vs, k as int) != key_at(vs, ci));
                }
            }
            assert forall|i: int| 0 <= i < sorted@.len() implies variant_among(vs, k + 1, ci, (#[trigger] sorted@[i])@) by {
                assert(variant_among(vs, k as int, ci, sorted@[i]@));
            }
        }
        k = k + 1;
    }
    let mut r: Vec<String> = Vec::new();
    r.push(canonical_key_string());
    let ghost head = r@;
    let mut i: usize = 0;
    while i < sorted.len()
        invariant
            i <= sorted@.len(),
            r@ == head + sorted@.take(i as int),
            head.len() == 1,
        decreases sorted@.len() - i,
    {
        r.push(sorted[i].clone());
        i = i + 1;
        assert(r@ =~= head + sorted@.take(i as int));
    }
    assert(sorted@.take(i as int) =~= sorted@);
    assert(r@.drop_first() =~= sorted@);
    assert forall|q: int| 1 <= q < r@.len() implies is_variant_key(*poem, (#[trigger] r@[q])@) by {
        assert(r@[q] == sorted@[q - 1]);
        assert(variant_among(vs, k as int, ci, sorted@[q - 1]@));
        let j = choose|j: int| 0 <= j < k && j != ci && (#[trigger] vs[j]).0@ == sorted@[q - 1]@;
        assert(key_at(vs, j) != key_at(vs, ci));
    }
    assert forall|key: Seq<char>| is_variant_key(*poem, key) implies #[trigger] listed(r@.drop_first(), key) by {
        let j = choose|j: int| 0 <= j < vs.len() && (#[trigger] vs[j]).0@ == key;
        assert(j != ci);
    }
    r
}

} // verus!
