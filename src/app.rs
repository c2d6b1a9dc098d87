//! The navigation state: which poem and version are shown, which list is
//! open and where its cursor stands, the active filter and the search.
use vstd::prelude::*;
use crate::model::{
    Poem, Version, poem_wf, canonical_version, canonical_key, resolved_version, index_of_key,
    lemma_index_of_key, key_at, same_text, canonical_key_string,
};
use crate::index::{
    author_of, author_table, language_table, total_versions, sorted_titles, sorted_keys,
    sorted_by_count, count_authors, count_languages, sorted_by, str_lt, entry_lt, key_among,
    entry_among, listed, title_lt, index_listed, lang_tally, author_tally,
    version_keys, is_variant_key,
};
use crate::text::{lex_lt, lower_of, lowercase, char_vec, contains_chars, has_infix, lines_of};
use crate::layout::{rendered, rendered_line_count};

verus! {

/// The screens of the reader.
#[derive(Clone, Copy, Debug, PartialEq, Eq, Structural)]
pub enum AppMode {
    Viewing,
    Menu,
    AuthorList,
    LanguageList,
    TitleList,
    FilteredList,
    Search,
    VersionSelect,
}

/// Number of entries of the main menu.
pub const MENU_ITEMS: usize = 5;

/// The state of the reader.
pub struct App {
    pub poems: Vec<Poem>,
    pub current_poem: usize,
    pub current_version: String,
    pub mode: AppMode,
    pub previous_mode: Option<AppMode>,
    pub scroll_position: u16,
    pub viewport_height: Option<u16>,
    pub author_counts: Vec<(String, usize)>,
    pub author_list_state: Option<usize>,
    pub language_counts: Vec<(String, usize)>,
    pub language_list_state: Option<usize>,
    pub title_list_state: Option<usize>,
    pub filtered_list_state: Option<usize>,
    pub menu_state: Option<usize>,
    pub filtered_poems: Option<Vec<usize>>,
    pub filter_language: Option<String>,
    pub search_query: String,
    pub search_list_state: Option<usize>,
    pub search_results: Vec<usize>,
    pub version_list_state: Option<usize>,
}

/// Every poem may be shown.
pub open spec fn poems_wf(ps: Seq<Poem>) -> bool {
    forall|k: int| 0 <= k < ps.len() ==> poem_wf(#[trigger] ps[k])
}

/// A list cursor, when set, points into a list of `len` entries.
pub open spec fn cursor_valid(sel: Option<usize>, len: nat) -> bool {
    sel matches Some(i) ==> i < len
}

/// Every index points into a library of `n` poems.
pub open spec fn indices_valid(v: Seq<usize>, n: nat) -> bool {
    forall|i: int| 0 <= i < v.len() ==> (#[trigger] v[i]) < n
}

/// The cursor after moving down a list of `len` entries, wrapping around.
pub open spec fn cycle_next(sel: Option<usize>, len: nat) -> Option<usize> {
    if len == 0 {
        None
    } else {
        match sel {
            Some(i) => Some(
                if i + 1 >= len {
                    0
                } else {
                    (i + 1) as usize
                },
            ),
            None => Some(0),
        }
    }
}

/// The cursor after moving up a list of `len` entries, wrapping around.
pub open spec fn cycle_prev(sel: Option<usize>, len: nat) -> Option<usize> {
    if len == 0 {
        None
    } else {
        match sel {
            Some(i) => Some(
                if i == 0 || i >= len {
                    (len - 1) as usize
                } else {
                    (i - 1) as usize
                },
            ),
            None => Some(0),
        }
    }
}

/// Moves a cursor down a list of `len` entries (see `cycle_next`).
pub fn next_index(sel: Option<usize>, len: usize) -> (r: Option<usize>)
    ensures
        r == cycle_next(sel, len as nat),
        r matches Some(i) ==> i < len,
{
    if len == 0 {
        None
    } else {
        match sel {
            Some(i) => {
                if i >= len - 1 {
                    Some(0)
                } else {
                    Some(i + 1)
                }
            },
            None => Some(0),
        }
    }
}

/// Moves a cursor up a list of `len` entries (see `cycle_prev`).
pub fn prev_index(sel: Option<usize>, len: usize) -> (r: Option<usize>)
    ensures
        r == cycle_prev(sel, len as nat),
        r matches Some(i) ==> i < len,
{
    if len == 0 {
        None
    } else {
        match sel {
            Some(i) => {
                if i == 0 || i >= len {
                    Some(len - 1)
                } else {
                    Some(i - 1)
                }
            },
            None => Some(0),
        }
    }
}

/// `r` lists the keys of table `t` in code-point order.
pub open spec fn author_order(t: Seq<(String, usize)>, r: Seq<String>) -> bool {
    &&& r.len() == t.len()
    &&& sorted_by(r, |a: String, b: String| str_lt(a, b))
    &&& forall|i: int| 0 <= i < r.len() ==> key_among(t, t.len() as int, (#[trigger] r[i])@)
    &&& forall|j: int| 0 <= j < t.len() ==> listed(r, (#[trigger] t[j]).0@)
}

/// Language `a` is listed before language `b`: more versions first, then
/// code-point order.
pub open spec fn lang_before(ps: Seq<Poem>, a: String, b: String) -> bool {
    lang_tally(ps, a@) > lang_tally(ps, b@) || (lang_tally(ps, a@) == lang_tally(ps, b@) && lex_lt(
        a@,
        b@,
    ))
}

/// `r` lists the languages of table `t` in language order.
pub open spec fn language_order(ps: Seq<Poem>, t: Seq<(String, usize)>, r: Seq<String>) -> bool {
    &&& r.len() == t.len()
    &&& sorted_by(r, |a: String, b: String| lang_before(ps, a, b))
    &&& forall|i: int| 0 <= i < r.len() ==> key_among(t, t.len() as int, (#[trigger] r[i])@)
    &&& forall|j: int| 0 <= j < t.len() ==> listed(r, (#[trigger] t[j]).0@)
}

/// `r` lists every poem, by position and canonical title, in title order.
pub open spec fn title_order(ps: Seq<Poem>, r: Seq<(usize, String)>) -> bool {
    &&& r.len() == ps.len()
    &&& forall|i: int| 0 <= i < r.len() ==> (#[trigger] r[i]).0 < ps.len() && r[i].1@
        == canonical_version(ps[r[i].0 as int]).title@
    &&& forall|i: int, j: int| 0 <= i < j < r.len() ==> title_lt(ps, r[i].0 as int, r[j].0 as int)
    &&& forall|k: int| 0 <= k < ps.len() ==> #[trigger] index_listed(r, k)
}

/// Positions, in library order, of the poems whose canonical author is `a`.
pub open spec fn poems_by(ps: Seq<Poem>, a: Seq<char>) -> Seq<usize>
    decreases ps.len(),
{
    if ps.len() == 0 {
        Seq::empty()
    } else {
        let prev = poems_by(ps.drop_last(), a);
        if author_of(ps.last()) == a {
            prev.push((ps.len() - 1) as usize)
        } else {
            prev
        }
    }
}

/// Keys, in stored order, of the variants (not the canonical version) in
/// language `l`; for a well-formed poem (`poem_wf`) that is ascending key
/// order.
pub open spec fn variant_matches(vs: Seq<(String, Version)>, l: Seq<char>) -> Seq<Seq<char>>
    decreases vs.len(),
{
    if vs.len() == 0 {
        Seq::empty()
    } else {
        let prev = variant_matches(vs.drop_last(), l);
        if vs.last().0@ != canonical_key() && vs.last().1.language@ == l {
            prev.push(vs.last().0@)
        } else {
            prev
        }
    }
}

/// Keys of the versions of `p` in language `l`: the canonical one first if
/// it matches, then the matching variants.
pub open spec fn poem_lang_keys(p: Poem, l: Seq<char>) -> Seq<Seq<char>> {
    (if canonical_version(p).language@ == l {
        seq![canonical_key()]
    } else {
        Seq::empty()
    }) + variant_matches(p.versions@, l)
}

/// Every (poem, version key) pair of the library in language `l`, poems in
/// library order.
pub open spec fn lang_pairs(ps: Seq<Poem>, l: Seq<char>) -> Seq<(usize, Seq<char>)>
    decreases ps.len(),
{
    if ps.len() == 0 {
        Seq::empty()
    } else {
        lang_pairs(ps.drop_last(), l) + poem_lang_keys(ps.last(), l).map_values(
            |key: Seq<char>| ((ps.len() - 1) as usize, key),
        )
    }
}

/// The key of the version of `p` to show for language `l`: the first of
/// `poem_lang_keys`, or the canonical one where none is in `l`.
pub open spec fn key_in_language(p: Poem, l: Seq<char>) -> Seq<char> {
    if poem_lang_keys(p, l).len() > 0 {
        poem_lang_keys(p, l)[0]
    } else {
        canonical_key()
    }
}

/// The poem matches a case-folded query by canonical title or author.
pub open spec fn poem_matches(p: Poem, q: Seq<char>) -> bool {
    has_infix(lower_of(canonical_version(p).title@), q) || has_infix(
        lower_of(canonical_version(p).author@),
        q,
    )
}

/// Positions, in library order, of the poems matching the case-folded query
/// `q`.
pub open spec fn search_hits(ps: Seq<Poem>, q: Seq<char>) -> Seq<usize>
    decreases ps.len(),
{
    if ps.len() == 0 {
        Seq::empty()
    } else {
        let prev = search_hits(ps.drop_last(), q);
        if poem_matches(ps.last(), q) {
            prev.push((ps.len() - 1) as usize)
        } else {
            prev
        }
    }
}

/// `keys` is the picker's order for `p`: `canonical`, then every variant key
/// once, in code-point order.
pub open spec fn version_keys_of(p: Poem, keys: Seq<String>) -> bool {
    &&& keys.len() == p.versions@.len()
    &&& keys[0]@ == canonical_key()
    &&& sorted_by(keys.drop_first(), |a: String, b: String| str_lt(a, b))
    &&& forall|i: int| 1 <= i < keys.len() ==> is_variant_key(p, (#[trigger] keys[i])@)
    &&& forall|key: Seq<char>| is_variant_key(p, key) ==> #[trigger] listed(keys.drop_first(), key)
}

/// The character sequences of a sequence of strings.
pub open spec fn strs(v: Seq<String>) -> Seq<Seq<char>> {
    v.map_values(|s: String| s@)
}

proof fn lemma_filter_bounds(ps: Seq<Poem>, a: Seq<char>)
    requires
        ps.len() <= usize::MAX,
    ensures
        indices_valid(poems_by(ps, a), ps.len()),
        forall|i: int| 0 <= i < poems_by(ps, a).len() ==> author_of(ps[#[trigger] poems_by(ps, a)[i] as int]) == a,
    decreases ps.len(),
{
    if ps.len() > 0 {
        lemma_filter_bounds(ps.drop_last(), a);
        let prev = poems_by(ps.drop_last(), a);
        let cur = poems_by(ps, a);
        assert forall|i: int| 0 <= i < cur.len() implies author_of(ps[#[trigger] cur[i] as int]) == a by {
            if i < prev.len() {
                assert(cur[i] == prev[i]);
                assert(prev[i] < ps.drop_last().len());
                assert(author_of(ps.drop_last()[prev[i] as int]) == a);
                assert(ps[prev[i] as int] == ps.drop_last()[prev[i] as int]);
            } else {
                assert(author_of(ps.last()) == a);
                assert(cur[i] as int == ps.len() - 1);
            }
        }
    }
}

proof fn lemma_author_present(ps: Seq<Poem>, a: Seq<char>, k: int)
    requires
        0 <= k < ps.len(),
        author_of(ps[k]) == a,
    ensures
        poems_by(ps, a).len() > 0,
    decreases ps.len(),
{
    if k < ps.len() - 1 {
        lemma_author_present(ps.drop_last(), a, k);
    }
}

proof fn lemma_search_bounds(ps: Seq<Poem>, q: Seq<char>)
    ensures
        indices_valid(search_hits(ps, q), ps.len()),
    decreases ps.len(),
{
    if ps.len() > 0 {
        lemma_search_bounds(ps.drop_last(), q);
    }
}

proof fn lemma_lang_pairs_bounds(ps: Seq<Poem>, l: Seq<char>)
    ensures
        forall|i: int| 0 <= i < lang_pairs(ps, l).len() ==> (#[trigger] lang_pairs(ps, l)[i]).0 < ps.len(),
    decreases ps.len(),
{
    if ps.len() > 0 {
        lemma_lang_pairs_bounds(ps.drop_last(), l);
        let prev = lang_pairs(ps.drop_last(), l);
        let cur = lang_pairs(ps, l);
        assert forall|i: int| 0 <= i < cur.len() implies (#[trigger] cur[i]).0 < ps.len() by {
            if i < prev.len() {
                assert(cur[i] == prev[i]);
            }
        }
    }
}

proof fn lemma_vlt_witness(vs: Seq<(String, Version)>, l: Seq<char>)
    requires
        crate::index::version_lang_tally(vs, l) > 0,
    ensures
        exists|j: int| 0 <= j < vs.len() && (#[trigger] vs[j]).1.language@ == l,
    decreases vs.len(),
{
    if vs.last().1.language@ != l {
        lemma_vlt_witness(vs.drop_last(), l);
        let j = choose|j: int| 0 <= j < vs.drop_last().len() && (#[trigger] vs.drop_last()[j]).1.language@ == l;
        assert(vs[j] == vs.drop_last()[j]);
    } else {
        assert(vs[vs.len() - 1].1.language@ == l);
    }
}

/// Some variant (not the canonical version) is stored under `key` and is in
/// language `l`.
pub open spec fn variant_with_lang(vs: Seq<(String, Version)>, key: Seq<char>, l: Seq<char>) -> bool {
    exists|j: int| 0 <= j < vs.len() && (#[trigger] vs[j]).0@ == key && vs[j].1.language@ == l
        && key != canonical_key()
}

proof fn lemma_variant_matches(vs: Seq<(String, Version)>, l: Seq<char>)
    ensures
        forall|i: int| 0 <= i < variant_matches(vs, l).len() ==> variant_with_lang(vs, #[trigger] variant_matches(vs, l)[i], l),
        forall|j: int| 0 <= j < vs.len() && (#[trigger] vs[j]).0@ != canonical_key() && vs[j].1.language@ == l
            ==> variant_matches(vs, l).len() > 0,
    decreases vs.len(),
{
    if vs.len() > 0 {
        let d = vs.drop_last();
        lemma_variant_matches(d, l);
        let prev = variant_matches(d, l);
        let cur = variant_matches(vs, l);
        assert forall|i: int| 0 <= i < cur.len() implies variant_with_lang(vs, #[trigger] cur[i], l) by {
            if i < prev.len() {
                assert(cur[i] == prev[i]);
                assert(variant_with_lang(d, prev[i], l));
                let j = choose|j: int| 0 <= j < d.len() && (#[trigger] d[j]).0@ == prev[i] && d[j].1.language@ == l && prev[i] != canonical_key();
                assert(vs[j] == d[j]);
            } else {
                assert(vs[vs.len() - 1].0@ == cur[i]);
            }
        }
        assert forall|j: int| 0 <= j < vs.len() && (#[trigger] vs[j]).0@ != canonical_key() && vs[j].1.language@ == l
            implies cur.len() > 0 by {
            if j < vs.len() - 1 {
                assert(vs[j] == d[j]);
            }
        }
    }
}

proof fn lemma_poem_lang_keys(p: Poem, l: Seq<char>)
    requires
        poem_wf(p),
    ensures
        poem_has_lang_version(p, l) ==> poem_lang_keys(p, l).len() > 0,
        forall|i: int| 0 <= i < poem_lang_keys(p, l).len() ==> resolved_version(p, #[trigger] poem_lang_keys(p, l)[i]).language@ == l,
{
    let vs = p.versions@;
    lemma_index_of_key(vs, canonical_key());
    lemma_variant_matches(vs, l);
    let ci = index_of_key(vs, canonical_key());
    if poem_has_lang_version(p, l) {
        let j = choose|j: int| 0 <= j < vs.len() && (#[trigger] vs[j]).1.language@ == l;
        if vs[j].0@ == canonical_key() {
            assert(key_at(vs, j) == key_at(vs, ci));
        }
    }
    let keys = poem_lang_keys(p, l);
    let vm = variant_matches(vs, l);
    assert forall|i: int| 0 <= i < keys.len() implies resolved_version(p, #[trigger] keys[i]).language@ == l by {
        let off: int = if canonical_version(p).language@ == l { 1 } else { 0 };
        if i < off {
            assert(keys[i] == canonical_key());
        } else {
            assert(keys[i] == vm[i - off]);
            assert(variant_with_lang(vs, vm[i - off], l));
            let j = choose|j: int| 0 <= j < vs.len() && (#[trigger] vs[j]).0@ == vm[i - off] && vs[j].1.language@ == l && vm[i - off] != canonical_key();
            lemma_index_of_key(vs, vm[i - off]);
            let q = index_of_key(vs, vm[i - off]);
            assert(key_at(vs, q) == key_at(vs, j));
        }
    }
}

/// Some version of the poem, canonical or variant, is in language `l`.
pub open spec fn poem_has_lang_version(p: Poem, l: Seq<char>) -> bool {
    exists|j: int| 0 <= j < p.versions@.len() && (#[trigger] p.versions@[j]).1.language@ == l
}

proof fn lemma_lang_pairs_nonempty(ps: Seq<Poem>, l: Seq<char>)
    requires
        poems_wf(ps),
        lang_tally(ps, l) > 0,
    ensures
        lang_pairs(ps, l).len() > 0,
    decreases ps.len(),
{
    if crate::index::version_lang_tally(ps.last().versions@, l) > 0 {
        lemma_vlt_witness(ps.last().versions@, l);
        assert(poem_wf(ps[ps.len() - 1]));
        lemma_poem_lang_keys(ps.last(), l);
    } else {
        assert forall|k: int| 0 <= k < ps.drop_last().len() implies poem_wf(#[trigger] ps.drop_last()[k]) by {
            assert(ps.drop_last()[k] == ps[k]);
        }
        lemma_lang_pairs_nonempty(ps.drop_last(), l);
    }
}

/// The version keys of `p` in language `l` (see `poem_lang_keys`).
fn poem_lang_keys_exec(p: &Poem, l: &String) -> (r: Vec<String>)
    requires
        poem_wf(*p),
    ensures
        strs(r@) == poem_lang_keys(*p, l@),
{
    let mut r: Vec<String> = Vec::new();
    let c = p.canonical().unwrap();
    if c.language == *l {
        r.push(canonical_key_string());
    }
    let ghost head = strs(r@);
    assert(head =~= (if canonical_version(*p).language@ == l@ { seq![canonical_key()] } else { Seq::<Seq<char>>::empty() }));
    let mut j: usize = 0;
    while j < p.versions.len()
        invariant
            j <= p.versions@.len(),
            strs(r@) == head + variant_matches(p.versions@.take(j as int), l@),
        decreases p.versions@.len() - j,
    {
        proof {
            assert(p.versions@.take(j + 1).drop_last() =~= p.versions@.take(j as int));
        }
        let ghost before = strs(r@);
        if !same_text(p.versions[j].0.as_str(), "canonical") && p.versions[j].1.language == *l {
            r.push(p.versions[j].0.clone());
            assert(strs(r@) =~= before.push(p.versions@[j as int].0@));
        }
        j = j + 1;
        assert(strs(r@) =~= head + variant_matches(p.versions@.take(j as int), l@));
    }
    assert(p.versions@.take(j as int) =~= p.versions@);
    r
}

proof fn lemma_wrap(p: int, n: int)
    requires
        0 <= p < n,
    ensures
        (p + 1) % n == (if p + 1 < n { p + 1 } else { 0 }),
{
    if p + 1 < n {
        vstd::arithmetic::div_mod::lemma_small_mod((p + 1) as nat, n as nat);
    } else {
        vstd::arithmetic::div_mod::lemma_mod_self_0(n);
    }
}

/// Position of the first `x` in `f` at or after `i`, or -1.
pub open spec fn find_from(f: Seq<usize>, x: usize, i: int) -> int
    decreases f.len() - i,
{
    if i < 0 || i >= f.len() {
        -1
    } else if f[i] == x {
        i
    } else {
        find_from(f, x, i + 1)
    }
}

/// Position of the first `x` in `f`, or 0 where there is none.
pub open spec fn position_or_first(f: Seq<usize>, x: usize) -> int {
    if find_from(f, x, 0) < 0 {
        0
    } else {
        find_from(f, x, 0)
    }
}

proof fn lemma_find_from(f: Seq<usize>, x: usize, i: int)
    requires
        0 <= i <= f.len(),
    ensures
        -1 <= find_from(f, x, i) < f.len(),
        find_from(f, x, i) >= 0 ==> find_from(f, x, i) >= i && f[find_from(f, x, i)] == x,
    decreases f.len() - i,
{
    if i < f.len() && f[i] != x {
        lemma_find_from(f, x, i + 1);
    }
}

/// Position of the first `x` in `f`, or 0 where there is none.
fn position_exec(f: &Vec<usize>, x: usize) -> (r: usize)
    ensures
        r == position_or_first(f@, x),
{
    let mut i: usize = 0;
    while i < f.len()
        invariant
            i <= f@.len(),
            find_from(f@, x, 0) == find_from(f@, x, i as int),
        decreases f@.len() - i,
    {
        if f[i] == x {
            return i;
        }
        i = i + 1;
    }
    0
}

/// The poem after `cur`: within the filter `f` if there is one, else in a
/// library of `n` poems, wrapping around.
pub open spec fn poem_after(f: Option<Vec<usize>>, cur: usize, n: nat) -> usize {
    match f {
        Some(v) => v@[(position_or_first(v@, cur) + 1) % (v@.len() as int)],
        None => if n == 0 { cur } else { ((cur + 1) % (n as int)) as usize },
    }
}

/// The poem before `cur`: within the filter `f` if there is one, else in a
/// library of `n` poems, wrapping around.
pub open spec fn poem_before(f: Option<Vec<usize>>, cur: usize, n: nat) -> usize {
    match f {
        Some(v) => if position_or_first(v@, cur) == 0 {
            v@[v@.len() - 1]
        } else {
            v@[position_or_first(v@, cur) - 1]
        },
        None => if n == 0 {
            cur
        } else if cur == 0 {
            (n - 1) as usize
        } else {
            (cur - 1) as usize
        },
    }
}

/// Relies on `rand::thread_rng` and `Rng::gen_range`: a number drawn from
/// `0..n`, which must not be empty.
#[verifier::external_body]
fn random_below(n: usize) -> (r: usize)
    requires
        n > 0,
    ensures
        r < n,
{
    rand::Rng::gen_range(&mut rand::thread_rng(), 0..n)
}

/// The scroll offset after scrolling up by `delta`, stopping at the top.
pub open spec fn scrolled_up(offset: int, delta: int) -> int {
    if offset >= delta {
        offset - delta
    } else {
        0
    }
}

/// The scroll offset after scrolling down by `delta`, stopping at `max`.
pub open spec fn scrolled_down(offset: int, delta: int, max: int) -> int {
    if offset + delta <= max {
        offset + delta
    } else {
        max
    }
}

/// The largest scroll offset for `total` lines in a viewport of `height`
/// lines.
pub open spec fn max_scroll_of(total: int, height: int) -> int {
    if total > height {
        total - height
    } else {
        0
    }
}

/// The largest scroll offset for `total_lines` lines in a viewport of
/// `viewport_height` lines.
pub fn max_scroll(total_lines: usize, viewport_height: usize) -> (r: usize)
    ensures
        r == max_scroll_of(total_lines as int, viewport_height as int),
{
    total_lines.saturating_sub(viewport_height)
}

/// The version after `cur` in the cycle `keys` (`canonical`, then the
/// variants in order), a key outside the cycle counting as `canonical`.
pub open spec fn key_after(keys: Seq<Seq<char>>, cur: Seq<char>) -> Seq<char> {
    let f = find_key_from(keys, cur, 0);
    let p = if f < 0 { 0 } else { f };
    keys[(p + 1) % (keys.len() as int)]
}

/// Position of the first `k` in `keys` at or after `i`, or -1.
pub open spec fn find_key_from(keys: Seq<Seq<char>>, k: Seq<char>, i: int) -> int
    decreases keys.len() - i,
{
    if i < 0 || i >= keys.len() {
        -1
    } else if keys[i] == k {
        i
    } else {
        find_key_from(keys, k, i + 1)
    }
}

proof fn lemma_find_key_from(keys: Seq<Seq<char>>, k: Seq<char>, i: int)
    requires
        0 <= i <= keys.len(),
    ensures
        -1 <= find_key_from(keys, k, i) < keys.len(),
    decreases keys.len() - i,
{
    if i < keys.len() && keys[i] != k {
        lemma_find_key_from(keys, k, i + 1);
    }
}

impl App {
    /// The state's invariant.
    pub open spec fn wf(&self) -> bool {
        let n = self.poems@.len();
        &&& poems_wf(self.poems@)
        &&& n > 0 ==> self.current_poem < n
        &&& author_table(self.author_counts@, self.poems@)
        &&& language_table(self.language_counts@, self.poems@)
        &&& indices_valid(self.search_results@, n)
        &&& self.filtered_poems matches Some(f) ==> f@.len() > 0 && indices_valid(f@, n)
            && f@.contains(self.current_poem)
        &&& cursor_valid(self.title_list_state, n)
        &&& cursor_valid(self.author_list_state, self.author_counts@.len())
        &&& cursor_valid(self.language_list_state, self.language_counts@.len())
        &&& cursor_valid(self.menu_state, MENU_ITEMS as nat)
        &&& cursor_valid(self.search_list_state, self.search_results@.len())
        &&& cursor_valid(
            self.filtered_list_state,
            match self.filtered_poems {
                Some(f) => f@.len(),
                None => 0,
            },
        )
    }

    /// A reader on the main menu, showing nothing yet, the canonical version
    /// selected.
    pub fn new(poems: Vec<Poem>) -> (r: App)
        requires
            poems_wf(poems@),
            total_versions(poems@) <= usize::MAX,
        ensures
            r.wf(),
            r.poems@ == poems@,
            r.current_poem == 0,
            r.current_version@ == canonical_key(),
            r.mode == AppMode::Menu,
            r.previous_mode is None,
            r.scroll_position == 0,
            r.viewport_height is None,
            r.filtered_poems is None,
            r.filter_language is None,
            r.search_query@.len() == 0,
            r.search_results@.len() == 0,
            r.search_list_state is None,
            r.menu_state == Some(0usize),
            r.author_list_state == (if r.author_counts@.len() > 0 { Some(0usize) } else { None }),
            r.language_list_state == (if r.language_counts@.len() > 0 { Some(0usize) } else { None }),
            r.title_list_state == (if poems@.len() > 0 { Some(0usize) } else { None }),
            r.filtered_list_state is None,
            r.version_list_state == (if poems@.len() > 0 { Some(0usize) } else { None }),
    {
        let author_counts = count_authors(&poems);
        let language_counts = count_languages(&poems);
        let first = if poems.len() > 0 { Some(0usize) } else { None };
        let author_list_state = if author_counts.len() > 0 { Some(0usize) } else { None };
        let language_list_state = if language_counts.len() > 0 { Some(0usize) } else { None };
        App {
            poems,
            current_poem: 0,
            current_version: canonical_key_string(),
            mode: AppMode::Menu,
            previous_mode: None,
            scroll_position: 0,
            viewport_height: None,
            author_counts,
            author_list_state,
            language_counts,
            language_list_state,
            title_list_state: first,
            filtered_list_state: None,
            menu_state: Some(0),
            filtered_poems: None,
            filter_language: None,
            search_query: String::new(),
            search_list_state: None,
            search_results: Vec::new(),
            version_list_state: first,
        }
    }

    /// The version on display: the current poem's version under the current
    /// key, or its canonical version where the key names none.
    pub fn get_current_version(&self) -> (r: &Version)
        requires
            self.wf(),
            self.poems@.len() > 0,
        ensures
            *r == resolved_version(self.poems@[self.current_poem as int], self.current_version@),
    {
        self.poems[self.current_poem].resolve_version(self.current_version.as_str())
    }

    /// Every poem, as position and canonical title, in title order.
    pub fn get_sorted_titles(&self) -> (r: Vec<(usize, String)>)
        requires
            self.wf(),
        ensures
            title_order(self.poems@, r@),
    {
        sorted_titles(&self.poems)
    }

    /// Moves the title cursor down.
    pub fn next_title(&mut self)
        ensures
            old(self).wf() ==> final(self).wf(),
            *final(self) == (App { title_list_state: cycle_next(old(self).title_list_state, old(self).poems@.len()), ..*old(self) }),
    {
        self.title_list_state = next_index(self.title_list_state, self.poems.len());
    }

    /// Moves the title cursor up.
    pub fn previous_title(&mut self)
        ensures
            old(self).wf() ==> final(self).wf(),
            *final(self) == (App { title_list_state: cycle_prev(old(self).title_list_state, old(self).poems@.len()), ..*old(self) }),
    {
        self.title_list_state = prev_index(self.title_list_state, self.poems.len());
    }

    /// Opens the poem under the title cursor, alone in its filter, in its
    /// canonical version.
    pub fn select_current_title(&mut self)
        requires
            old(self).wf(),
        ensures
            final(self).wf(),
            match old(self).title_list_state {
                Some(i) if i < old(self).poems@.len() => exists|t: Seq<(usize, String)>|
                    title_order(old(self).poems@, t) && *final(self) == (App {
                        current_poem: t[i as int].0,
                        current_version: final(self).current_version,
                        filtered_poems: final(self).filtered_poems,
                        filtered_list_state: Some(0),
                        previous_mode: Some(AppMode::TitleList),
                        mode: AppMode::Viewing,
                        scroll_position: 0,
                        ..*old(self)
                    }) && final(self).current_version@ == canonical_key() && final(self).filtered_poems is Some
                        && final(self).filtered_poems->0@ == seq![t[i as int].0],
                _ => *final(self) == *old(self),
            },
    {
        if let Some(index) = self.title_list_state {
            if index < self.poems.len() {
                let titles = self.get_sorted_titles();
                let poem_index = titles[index].0;
                let mut only: Vec<usize> = Vec::new();
                only.push(poem_index);
                self.current_poem = poem_index;
                self.current_version = canonical_key_string();
                self.filtered_poems = Some(only);
                self.filtered_list_state = Some(0);
                self.previous_mode = Some(AppMode::TitleList);
                self.mode = AppMode::Viewing;
                self.scroll_position = 0;
                proof {
                    assert(only@ =~= seq![poem_index]);
                    assert(only@[0] == poem_index);
                    assert(titles@[index as int].0 < self.poems@.len());
                }
            }
        }
    }

    /// Moves the author cursor down.
    pub fn next_author(&mut self)
        ensures
            old(self).wf() ==> final(self).wf(),
            *final(self) == (App { author_list_state: cycle_next(old(self).author_list_state, old(self).author_counts@.len()), ..*old(self) }),
    {
        self.author_list_state = next_index(self.author_list_state, self.author_counts.len());
    }

    /// Moves the author cursor up.
    pub fn previous_author(&mut self)
        ensures
            old(self).wf() ==> final(self).wf(),
            *final(self) == (App { author_list_state: cycle_prev(old(self).author_list_state, old(self).author_counts@.len()), ..*old(self) }),
    {
        self.author_list_state = prev_index(self.author_list_state, self.author_counts.len());
    }

    /// The canonical authors, each once, in code-point order.
    pub fn get_sorted_authors(&self) -> (r: Vec<String>)
        requires
            self.wf(),
        ensures
            author_order(self.author_counts@, r@),
    {
        sorted_keys(&self.author_counts)
    }

    /// How many poems have `author` as canonical author.
    pub fn author_count(&self, author: &String) -> (r: usize)
        requires
            self.wf(),
        ensures
            r == author_tally(self.poems@, author@),
    {
        match crate::index::find_entry(&self.author_counts, author) {
            Some(i) => self.author_counts[i].1,
            None => {
                proof {
                    if author_tally(self.poems@, author@) > 0 {
                        crate::index::lemma_tally_witness(self.poems@, author@);
                        let w = choose|w: int| 0 <= w < self.poems@.len() && author_of(self.poems@[w]) == author@;
                        let j = choose|j: int| 0 <= j < self.author_counts@.len() && (#[trigger] self.author_counts@[j]).0@ == author_of(#[trigger] self.poems@[w]);
                    }
                }
                0
            },
        }
    }

    /// How many versions, canonical and variant, are in `language`.
    pub fn language_count(&self, language: &String) -> (r: usize)
        requires
            self.wf(),
        ensures
            r == lang_tally(self.poems@, language@),
    {
        match crate::index::find_entry(&self.language_counts, language) {
            Some(i) => self.language_counts[i].1,
            None => {
                proof {
                    let f = |l: Seq<char>| lang_tally(self.poems@, l);
                    if f(language@) > 0 {
                        let j = choose|j: int| 0 <= j < self.language_counts@.len() && (#[trigger] self.language_counts@[j]).0@ == language@;
                    }
                }
                0
            },
        }
    }

    /// Moves the language cursor down.
    pub fn next_language(&mut self)
        ensures
            old(self).wf() ==> final(self).wf(),
            *final(self) == (App { language_list_state: cycle_next(old(self).language_list_state, old(self).language_counts@.len()), ..*old(self) }),
    {
        self.language_list_state = next_index(self.language_list_state, self.language_counts.len());
    }

    /// Moves the language cursor up.
    pub fn previous_language(&mut self)
        ensures
            old(self).wf() ==> final(self).wf(),
            *final(self) == (App { language_list_state: cycle_prev(old(self).language_list_state, old(self).language_counts@.len()), ..*old(self) }),
    {
        self.language_list_state = prev_index(self.language_list_state, self.language_counts.len());
    }

    /// The languages, each once, most versions first, ties in code-point
    /// order.
    pub fn get_sorted_languages(&self) -> (r: Vec<String>)
        requires
            self.wf(),
        ensures
            language_order(self.poems@, self.language_counts@, r@),
    {
        let ghost ps = self.poems@;
        let ghost t = self.language_counts@;
        let es = sorted_by_count(&self.language_counts);
        let mut r: Vec<String> = Vec::new();
        let mut i: usize = 0;
        while i < es.len()
            invariant
                i <= es@.len(),
                r@.len() == i,
                forall|q: int| 0 <= q < i ==> (#[trigger] r@[q]) == es@[q].0,
            decreases es@.len() - i,
        {
            r.push(es[i].0.clone());
            i = i + 1;
        }
        proof {
            assert forall|q: int| 0 <= q < es@.len() implies (#[trigger] es@[q]).1 == lang_tally(ps, es@[q].0@) by {
                assert(entry_among(t, t.len() as int, es@[q]));
                let j = choose|j: int| 0 <= j < t.len() && (#[trigger] t[j]).0@ == es@[q].0@ && t[j].1 == es@[q].1;
            }
            assert forall|a: int, b: int| 0 <= a < b < r@.len() implies lang_before(ps, r@[a], r@[b]) by {
                assert(entry_lt(es@[a], es@[b]));
                assert(es@[a].1 == lang_tally(ps, es@[a].0@));
                assert(es@[b].1 == lang_tally(ps, es@[b].0@));
            }
            assert forall|q: int| 0 <= q < r@.len() implies key_among(t, t.len() as int, (#[trigger] r@[q])@) by {
                assert(entry_among(t, t.len() as int, es@[q]));
                let j = choose|j: int| 0 <= j < t.len() && (#[trigger] t[j]).0@ == es@[q].0@ && t[j].1 == es@[q].1;
            }
            assert forall|j: int| 0 <= j < t.len() implies listed(r@, (#[trigger] t[j]).0@) by {
                assert(key_among(es@, es@.len() as int, t[j].0@));
                let q = choose|q: int| 0 <= q < es@.len() && (#[trigger] es@[q]).0@ == t[j].0@;
                assert(r@[q] == es@[q].0);
            }
        }
        r
    }

    /// Filters the library to every version in the language under the
    /// cursor and opens that list on the first of them.
    pub fn select_current_language(&mut self)
        requires
            old(self).wf(),
        ensures
            final(self).wf(),
            match old(self).language_list_state {
                Some(i) if i < old(self).language_counts@.len() => exists|r: Seq<String>|
                    language_order(old(self).poems@, old(self).language_counts@, r) && {
                        let pairs = lang_pairs(old(self).poems@, r[i as int]@);
                        &&& pairs.len() > 0
                        &&& final(self).filtered_poems is Some
                        &&& final(self).filtered_poems->0@ == pairs.map_values(|p: (usize, Seq<char>)| p.0)
                        &&& final(self).current_version@ == pairs[0].1
                        &&& final(self).filter_language is Some
                        &&& final(self).filter_language->0@ == r[i as int]@
                        &&& *final(self) == (App {
                            current_poem: pairs[0].0,
                            current_version: final(self).current_version,
                            filtered_poems: final(self).filtered_poems,
                            filter_language: final(self).filter_language,
                            filtered_list_state: Some(0),
                            previous_mode: Some(AppMode::LanguageList),
                            mode: AppMode::FilteredList,
                            scroll_position: 0,
                            ..*old(self)
                        })
                    },
                _ => *final(self) == *old(self),
            },
    {
        if let Some(index) = self.language_list_state {
            if index < self.language_counts.len() {
                let languages = self.get_sorted_languages();
                let language = languages[index].clone();
                let ghost ps = self.poems@;
                let ghost l = language@;
                let mut poems_of: Vec<usize> = Vec::new();
                let mut keys: Vec<String> = Vec::new();
                let mut k: usize = 0;
                while k < self.poems.len()
                    invariant
                        ps == self.poems@,
                        l == language@,
                        poems_wf(ps),
                        k <= ps.len(),
                        poems_of@.len() == keys@.len(),
                        lang_pairs(ps.take(k as int), l) == Seq::new(poems_of@.len(), |q: int| (poems_of@[q], keys@[q]@)),
                    decreases ps.len() - k,
                {
                    proof {
                        assert(ps.take(k + 1).drop_last() =~= ps.take(k as int));
                        assert(poem_wf(ps[k as int]));
                    }
                    let found = poem_lang_keys_exec(&self.poems[k], &language);
                    let ghost before_p = poems_of@;
                    let ghost before_k = keys@;
                    let mut m: usize = 0;
                    while m < found.len()
                        invariant
                            m <= found@.len(),
                            poems_of@ == before_p + Seq::new(m as nat, |_q: int| k),
                            keys@ == before_k + found@.take(m as int),
                            strs(found@) == poem_lang_keys(ps[k as int], l),
                            k < ps.len(),
                        decreases found@.len() - m,
                    {
                        let key = found[m].clone();
                        poems_of.push(k);
                        keys.push(key);
                        m = m + 1;
                        assert(poems_of@ =~= before_p + Seq::new(m as nat, |_q: int| k));
                        assert(keys@ =~= before_k + found@.take(m as int));
                    }
                    assert(found@.take(m as int) =~= found@);
                    k = k + 1;
                    proof {
                        let prev = lang_pairs(ps.take(k - 1), l);
                        let add = poem_lang_keys(ps[k - 1], l).map_values(|key: Seq<char>| ((k - 1) as usize, key));
                        assert(ps.take(k as int).last() == ps[k - 1]);
                        assert(lang_pairs(ps.take(k as int), l) == prev + add);
                        assert(strs(found@) == poem_lang_keys(ps[k - 1], l));
                        let whole = Seq::new(poems_of@.len(), |q: int| (poems_of@[q], keys@[q]@));
                        assert(prev == Seq::new(before_p.len(), |q: int| (before_p[q], before_k[q]@)));
                        assert forall|q: int| 0 <= q < whole.len() implies whole[q] == (prev + add)[q] by {
                            if q < before_p.len() {
                                assert(prev[q] == (before_p[q], before_k[q]@));
                            } else {
                                assert(add[q - before_p.len()] == ((k - 1) as usize, strs(found@)[q - before_p.len()]));
                                assert(keys@[q] == found@[q - before_p.len()]);
                                assert(poems_of@[q] == k - 1);
                            }
                        }
                        assert(whole =~= prev + add);
                    }
                }
                proof {
                    assert(ps.take(k as int) =~= ps);
                    assert(key_among(self.language_counts@, self.language_counts@.len() as int, l));
                    let j = choose|j: int| 0 <= j < self.language_counts@.len() && (#[trigger] self.language_counts@[j]).0@ == l;
                    assert(lang_tally(ps, l) > 0);
                    lemma_lang_pairs_nonempty(ps, l);
                    lemma_lang_pairs_bounds(ps, l);
                    assert(Seq::new(poems_of@.len(), |q: int| (poems_of@[q], keys@[q]@))[0] == (poems_of@[0], keys@[0]@));
                    assert(poems_of@ =~= lang_pairs(ps, l).map_values(|p: (usize, Seq<char>)| p.0));
                    assert(poems_of@.contains(poems_of@[0]));
                    assert forall|q: int| 0 <= q < poems_of@.len() implies (#[trigger] poems_of@[q]) < ps.len() by {
                        assert(lang_pairs(ps, l)[q].0 == poems_of@[q]);
                    }
                }
                self.current_poem = poems_of[0];
                self.current_version = keys[0].clone();
                self.filtered_poems = Some(poems_of);
                self.filter_language = Some(language);
                self.filtered_list_state = Some(0);
                self.previous_mode = Some(AppMode::LanguageList);
                self.mode = AppMode::FilteredList;
                self.scroll_position = 0;
            }
        }
    }

    /// The version of poem `poem_idx` to show for `language`, and whether it
    /// is in that language: the canonical version if it is, else the first
    /// variant that is, else the canonical version.
    pub fn get_version_in_language(&self, poem_idx: usize, language: &str) -> (r: (&Version, bool))
        requires
            self.wf(),
            poem_idx < self.poems@.len(),
        ensures
            *r.0 == resolved_version(self.poems@[poem_idx as int], key_in_language(self.poems@[poem_idx as int], language@)),
            r.1 == (poem_lang_keys(self.poems@[poem_idx as int], language@).len() > 0),
    {
        let poem = &self.poems[poem_idx];
        assert(poem_wf(*poem));
        let l = String::from_str(language);
        let keys = poem_lang_keys_exec(poem, &l);
        if keys.len() > 0 {
            assert(keys@[0]@ == strs(keys@)[0]);
            (poem.resolve_version(keys[0].as_str()), true)
        } else {
            (poem.resolve_version("canonical"), false)
        }
    }

    /// The heading of the filtered list: whose poems, or in which language.
    pub fn get_filtered_list_title(&self) -> (r: String)
        requires
            self.wf(),
        ensures
            match (self.previous_mode, self.author_list_state, self.language_list_state) {
                (Some(AppMode::AuthorList), Some(i), _) if i < self.author_counts@.len() => exists|a: Seq<String>|
                    author_order(self.author_counts@, a) && r@ == "Poems by "@ + a[i as int]@,
                (Some(AppMode::LanguageList), _, Some(i)) if i < self.language_counts@.len() => exists|a: Seq<String>|
                    language_order(self.poems@, self.language_counts@, a) && r@ == "Poems in "@ + a[i as int]@,
                (Some(AppMode::TitleList), _, _) => r@ == "Search Results"@,
                _ => r@ == "Filtered Poems"@,
            },
    {
        match self.previous_mode {
            Some(AppMode::AuthorList) => {
                if let Some(index) = self.author_list_state {
                    if index < self.author_counts.len() {
                        let authors = self.get_sorted_authors();
                        return String::from_str("Poems by ").concat(authors[index].as_str());
                    }
                }
            },
            Some(AppMode::LanguageList) => {
                if let Some(index) = self.language_list_state {
                    if index < self.language_counts.len() {
                        let languages = self.get_sorted_languages();
                        return String::from_str("Poems in ").concat(languages[index].as_str());
                    }
                }
            },
            Some(AppMode::TitleList) => {
                return String::from_str("Search Results");
            },
            _ => {},
        }
        String::from_str("Filtered Poems")
    }

    /// Scrolls up by `delta` lines, stopping at the top.
    pub fn scroll_up(&mut self, delta: u16)
        ensures
            old(self).wf() ==> final(self).wf(),
            *final(self) == (App { scroll_position: scrolled_up(old(self).scroll_position as int, delta as int) as u16, ..*old(self) }),
    {
        self.scroll_position = self.scroll_position.saturating_sub(delta);
    }

    /// Scrolls down by `delta` lines, stopping at `max_scroll`.
    pub fn scroll_down(&mut self, delta: u16, max_scroll: u16)
        ensures
            old(self).wf() ==> final(self).wf(),
            *final(self) == (App { scroll_position: scrolled_down(old(self).scroll_position as int, delta as int, max_scroll as int) as u16, ..*old(self) }),
    {
        let s = self.scroll_position.saturating_add(delta);
        self.scroll_position = if s < max_scroll { s } else { max_scroll };
    }

    /// Scrolls down by `delta` lines through a text of `total_lines` lines
    /// shown `viewport_height` lines at a time.
    pub fn scroll_down_within(&mut self, delta: u16, total_lines: usize, viewport_height: usize)
        ensures
            old(self).wf() ==> final(self).wf(),
            *final(self) == (App { scroll_position: scrolled_down(old(self).scroll_position as int, delta as int,
                if max_scroll_of(total_lines as int, viewport_height as int) > u16::MAX { u16::MAX as int }
                else { max_scroll_of(total_lines as int, viewport_height as int) }) as u16, ..*old(self) }),
    {
        let m = max_scroll(total_lines, viewport_height);
        let m16: u16 = if m > 65535 { 65535 } else { m as u16 };
        self.scroll_down(delta, m16);
    }

    /// Scrolls the poem on display down by `delta` lines, stopping where its
    /// last line reaches the bottom of the viewport; nothing happens before
    /// the viewport's height is known.
    pub fn scroll_down_in_view(&mut self, delta: u16)
        requires
            old(self).wf(),
            old(self).poems@.len() > 0,
        ensures
            *final(self) == (match old(self).viewport_height {
                Some(h) => App { scroll_position: scrolled_down(old(self).scroll_position as int, delta as int, {
                    let m = max_scroll_of(lines_of(rendered(resolved_version(old(self).poems@[old(self).current_poem as int], old(self).current_version@), h as nat)).len() as int, h as int);
                    if m > u16::MAX { u16::MAX as int } else { m }
                }) as u16, ..*old(self) },
                None => *old(self),
            }),
    {
        if let Some(h) = self.viewport_height {
            let total = rendered_line_count(self.get_current_version(), h as usize);
            self.scroll_down_within(delta, total, h as usize);
        }
    }

    /// Shows the next poem: the next one of the filter, or of the library,
    /// wrapping around.
    pub fn next_poem(&mut self)
        requires
            old(self).wf(),
        ensures
            final(self).wf(),
            *final(self) == (App { current_poem: poem_after(old(self).filtered_poems, old(self).current_poem, old(self).poems@.len()), ..*old(self) }),
    {
        match &self.filtered_poems {
            Some(indices) => {
                let pos = position_exec(indices, self.current_poem);
                proof {
                    lemma_find_from(indices@, self.current_poem, 0);
                }
                proof {
                    lemma_wrap(pos as int, indices@.len() as int);
                }
                let next = if pos < indices.len() - 1 { pos + 1 } else { 0 };
                let poem = indices[next];
                self.current_poem = poem;
                assert(self.filtered_poems->0@[next as int] == poem);
            },
            None => {
                if self.poems.len() > 0 {
                    proof {
                        lemma_wrap(self.current_poem as int, self.poems@.len() as int);
                    }
                    self.current_poem = if self.current_poem < self.poems.len() - 1 { self.current_poem + 1 } else { 0 };
                }
            },
        }
    }

    /// Shows the previous poem: the previous one of the filter, or of the
    /// library, wrapping around.
    pub fn previous_poem(&mut self)
        requires
            old(self).wf(),
        ensures
            final(self).wf(),
            *final(self) == (App { current_poem: poem_before(old(self).filtered_poems, old(self).current_poem, old(self).poems@.len()), ..*old(self) }),
    {
        match &self.filtered_poems {
            Some(indices) => {
                let pos = position_exec(indices, self.current_poem);
                proof {
                    lemma_find_from(indices@, self.current_poem, 0);
                }
                let poem = if pos == 0 { indices[indices.len() - 1] } else { indices[pos - 1] };
                self.current_poem = poem;
                assert(self.filtered_poems->0@.contains(poem));
            },
            None => {
                if self.poems.len() > 0 {
                    self.current_poem = if self.current_poem == 0 { self.poems.len() - 1 } else { self.current_poem - 1 };
                }
            },
        }
    }

    /// Moves the cursor of the filtered list down.
    pub fn next_filtered(&mut self)
        ensures
            old(self).wf() ==> final(self).wf(),
            *final(self) == (match old(self).filtered_poems {
                Some(f) => App { filtered_list_state: cycle_next(old(self).filtered_list_state, f@.len()), ..*old(self) },
                None => *old(self),
            }),
    {
        if let Some(indices) = &self.filtered_poems {
            self.filtered_list_state = next_index(self.filtered_list_state, indices.len());
        }
    }

    /// Moves the cursor of the filtered list up.
    pub fn previous_filtered(&mut self)
        ensures
            old(self).wf() ==> final(self).wf(),
            *final(self) == (match old(self).filtered_poems {
                Some(f) => App { filtered_list_state: cycle_prev(old(self).filtered_list_state, f@.len()), ..*old(self) },
                None => *old(self),
            }),
    {
        if let Some(indices) = &self.filtered_poems {
            self.filtered_list_state = prev_index(self.filtered_list_state, indices.len());
        }
    }

    /// Opens the poem under the cursor of the filtered list: in the filter's
    /// language where the list came from the language list, else in its
    /// canonical version.
    pub fn select_current_filtered(&mut self)
        requires
            old(self).wf(),
        ensures
            final(self).wf(),
            match (old(self).filtered_list_state, old(self).filtered_poems) {
                (Some(i), Some(f)) if i < f@.len() => {
                    &&& *final(self) == (App {
                        current_poem: f@[i as int],
                        current_version: final(self).current_version,
                        mode: AppMode::Viewing,
                        scroll_position: 0,
                        ..*old(self)
                    })
                    &&& final(self).current_version@ == (match (old(self).previous_mode, old(self).filter_language) {
                        (Some(AppMode::LanguageList), Some(l)) => key_in_language(old(self).poems@[f@[i as int] as int], l@),
                        _ => canonical_key(),
                    })
                },
                _ => *final(self) == *old(self),
            },
    {
        if let Some(index) = self.filtered_list_state {
            if let Some(indices) = &self.filtered_poems {
                if index < indices.len() {
                    let poem_index = indices[index];
                    assert(self.filtered_poems->0@.contains(poem_index));
                    let key = match (&self.previous_mode, &self.filter_language) {
                        (Some(AppMode::LanguageList), Some(l)) => {
                            assert(poem_wf(self.poems@[poem_index as int]));
                            let keys = poem_lang_keys_exec(&self.poems[poem_index], l);
                            if keys.len() > 0 {
                                assert(keys@[0]@ == strs(keys@)[0]);
                                keys[0].clone()
                            } else {
                                canonical_key_string()
                            }
                        },
                        _ => canonical_key_string(),
                    };
                    self.current_poem = poem_index;
                    self.current_version = key;
                    self.mode = AppMode::Viewing;
                    self.scroll_position = 0;
                }
            }
        }
    }

    /// Enters `new_mode` at the top of its content.
    pub fn set_mode(&mut self, new_mode: AppMode)
        ensures
            old(self).wf() ==> final(self).wf(),
            *final(self) == (App { mode: new_mode, scroll_position: 0, ..*old(self) }),
    {
        self.mode = new_mode;
        self.scroll_position = 0;
    }

    /// Recomputes the search results for the query: the poems whose
    /// canonical title or author contains it, ignoring case, in library
    /// order; none for an empty query. The cursor is cleared when there are
    /// no results and set on the first one when it was unset or out of range.
    pub fn update_search_results(&mut self)
        requires
            old(self).wf(),
        ensures
            final(self).wf(),
            lower_of(old(self).search_query@).len() == 0 ==> final(self).search_results@ == Seq::<usize>::empty(),
            lower_of(old(self).search_query@).len() > 0 ==> final(self).search_results@ == search_hits(old(self).poems@, lower_of(old(self).search_query@)),
            final(self).search_list_state == (if final(self).search_results@.len() == 0 {
                None
            } else {
                match old(self).search_list_state {
                    Some(i) if i < final(self).search_results@.len() => Some(i),
                    _ => Some(0usize),
                }
            }),
            *final(self) == (App { search_results: final(self).search_results, search_list_state: final(self).search_list_state, ..*old(self) }),
    {
        let q = lowercase(self.search_query.as_str());
        let qc = char_vec(q.as_str());
        let mut results: Vec<usize> = Vec::new();
        if qc.len() > 0 {
            let ghost ps = self.poems@;
            let mut k: usize = 0;
            while k < self.poems.len()
                invariant
                    ps == self.poems@,
                    poems_wf(ps),
                    k <= ps.len(),
                    qc@ == lower_of(self.search_query@),
                    results@ == search_hits(ps.take(k as int), qc@),
                decreases ps.len() - k,
            {
                proof {
                    assert(ps.take(k + 1).drop_last() =~= ps.take(k as int));
                    assert(poem_wf(ps[k as int]));
                }
                let v = self.poems[k].canonical().unwrap();
                let t = lowercase(v.title.as_str());
                let a = lowercase(v.author.as_str());
                let tc = char_vec(t.as_str());
                let ac = char_vec(a.as_str());
                if contains_chars(&tc, &qc) || contains_chars(&ac, &qc) {
                    results.push(k);
                }
                k = k + 1;
            }
            proof {
                assert(ps.take(k as int) =~= ps);
                lemma_search_bounds(ps, qc@);
            }
        }
        let n = results.len();
        self.search_list_state = if n == 0 {
            None
        } else {
            match self.search_list_state {
                Some(i) if i < n => Some(i),
                _ => Some(0),
            }
        };
        self.search_results = results;
    }

    /// Opens the search with an empty query.
    pub fn open_search(&mut self)
        requires
            old(self).wf(),
        ensures
            final(self).wf(),
            *final(self) == (App {
                mode: AppMode::Search,
                scroll_position: 0,
                search_query: final(self).search_query,
                search_results: final(self).search_results,
                search_list_state: None,
                ..*old(self)
            }),
            final(self).search_query@.len() == 0,
            final(self).search_results@.len() == 0,
    {
        self.set_mode(AppMode::Search);
        self.search_query = String::new();
        self.search_results = Vec::new();
        self.search_list_state = None;
    }

    /// Appends a character to the query and searches again.
    pub fn search_push(&mut self, c: char)
        requires
            old(self).wf(),
        ensures
            final(self).wf(),
            final(self).search_query@ == old(self).search_query@.push(c),
            final(self).search_results@ == (if lower_of(final(self).search_query@).len() == 0 {
                Seq::<usize>::empty()
            } else {
                search_hits(old(self).poems@, lower_of(final(self).search_query@))
            }),
            final(self).search_list_state == (if final(self).search_results@.len() == 0 {
                None
            } else {
                match old(self).search_list_state {
                    Some(i) if i < final(self).search_results@.len() => Some(i),
                    _ => Some(0usize),
                }
            }),
            *final(self) == (App {
                search_query: final(self).search_query,
                search_results: final(self).search_results,
                search_list_state: final(self).search_list_state,
                ..*old(self)
            }),
    {
        let mut cs = char_vec(self.search_query.as_str());
        cs.push(c);
        self.search_query = crate::text::string_from_chars(&cs);
        self.update_search_results();
    }

    /// Removes the last character of the query, if any, and searches again.
    pub fn search_pop(&mut self)
        requires
            old(self).wf(),
        ensures
            final(self).wf(),
            final(self).search_query@ == (if old(self).search_query@.len() > 0 {
                old(self).search_query@.drop_last()
            } else {
                old(self).search_query@
            }),
            final(self).search_results@ == (if lower_of(final(self).search_query@).len() == 0 {
                Seq::<usize>::empty()
            } else {
                search_hits(old(self).poems@, lower_of(final(self).search_query@))
            }),
            final(self).search_list_state == (if final(self).search_results@.len() == 0 {
                None
            } else {
                match old(self).search_list_state {
                    Some(i) if i < final(self).search_results@.len() => Some(i),
                    _ => Some(0usize),
                }
            }),
            *final(self) == (App {
                search_query: final(self).search_query,
                search_results: final(self).search_results,
                search_list_state: final(self).search_list_state,
                ..*old(self)
            }),
    {
        let mut cs = char_vec(self.search_query.as_str());
        if cs.len() > 0 {
            cs.pop();
        }
        self.search_query = crate::text::string_from_chars(&cs);
        self.update_search_results();
    }

    /// Moves the search cursor down.
    pub fn search_next(&mut self)
        ensures
            old(self).wf() ==> final(self).wf(),
            *final(self) == (App { search_list_state: cycle_next(old(self).search_list_state, old(self).search_results@.len()), ..*old(self) }),
    {
        self.search_list_state = next_index(self.search_list_state, self.search_results.len());
    }

    /// Moves the search cursor up.
    pub fn search_previous(&mut self)
        ensures
            old(self).wf() ==> final(self).wf(),
            *final(self) == (App { search_list_state: cycle_prev(old(self).search_list_state, old(self).search_results@.len()), ..*old(self) }),
    {
        self.search_list_state = prev_index(self.search_list_state, self.search_results.len());
    }

    /// Shows poem `index` on its own, in its canonical version.
    pub fn show_poem(&mut self, index: usize)
        requires
            old(self).wf(),
            index < old(self).poems@.len(),
        ensures
            final(self).wf(),
            *final(self) == (App {
                current_poem: index,
                current_version: final(self).current_version,
                filtered_poems: None,
                filtered_list_state: None,
                mode: AppMode::Viewing,
                scroll_position: 0,
                ..*old(self)
            }),
            final(self).current_version@ == canonical_key(),
    {
        self.current_poem = index;
        self.current_version = canonical_key_string();
        self.filtered_poems = None;
        self.filtered_list_state = None;
        self.set_mode(AppMode::Viewing);
    }

    /// Opens the search result under the cursor.
    pub fn search_select(&mut self)
        requires
            old(self).wf(),
        ensures
            final(self).wf(),
            match old(self).search_list_state {
                Some(i) if i < old(self).search_results@.len() => *final(self) == (App {
                    current_poem: old(self).search_results@[i as int],
                    current_version: final(self).current_version,
                    filtered_poems: None,
                    filtered_list_state: None,
                    mode: AppMode::Viewing,
                    scroll_position: 0,
                    ..*old(self)
                }) && final(self).current_version@ == canonical_key(),
                _ => *final(self) == *old(self),
            },
    {
        if let Some(i) = self.search_list_state {
            if i < self.search_results.len() {
                let index = self.search_results[i];
                self.show_poem(index);
            }
        }
    }

    /// Shows a poem drawn at random from the library.
    pub fn show_random_poem(&mut self)
        requires
            old(self).wf(),
        ensures
            final(self).wf(),
            old(self).poems@.len() == 0 ==> *final(self) == *old(self),
            old(self).poems@.len() > 0 ==> final(self).current_poem < old(self).poems@.len(),
            old(self).poems@.len() > 0 ==> *final(self) == (App {
                current_poem: final(self).current_poem,
                current_version: final(self).current_version,
                filtered_poems: None,
                filtered_list_state: None,
                mode: AppMode::Viewing,
                scroll_position: 0,
                ..*old(self)
            }) && final(self).current_version@ == canonical_key(),
    {
        if self.poems.len() > 0 {
            let i = random_below(self.poems.len());
            self.show_poem(i);
        }
    }

    /// Goes one screen back: from a poem to its list (or the menu), from a
    /// filtered list to the list it came from, from a list to the menu.
    pub fn go_back(&mut self)
        ensures
            old(self).wf() ==> final(self).wf(),
            *final(self) == (match old(self).mode {
                AppMode::Viewing => App {
                    mode: if old(self).filtered_poems is Some { AppMode::FilteredList } else { AppMode::Menu },
                    scroll_position: 0,
                    ..*old(self)
                },
                AppMode::FilteredList => App {
                    mode: match old(self).previous_mode { Some(m) => m, None => AppMode::Menu },
                    scroll_position: 0,
                    ..*old(self)
                },
                AppMode::AuthorList | AppMode::LanguageList | AppMode::TitleList => App {
                    mode: AppMode::Menu,
                    scroll_position: 0,
                    ..*old(self)
                },
                _ => *old(self),
            }),
    {
        match self.mode {
            AppMode::Viewing => {
                if self.filtered_poems.is_some() {
                    self.set_mode(AppMode::FilteredList);
                } else {
                    self.set_mode(AppMode::Menu);
                }
            },
            AppMode::FilteredList => {
                let m = match self.previous_mode {
                    Some(m) => m,
                    None => AppMode::Menu,
                };
                self.set_mode(m);
            },
            AppMode::AuthorList | AppMode::LanguageList | AppMode::TitleList => {
                self.set_mode(AppMode::Menu);
            },
            _ => {},
        }
    }

    /// Leaves the version picker for the poem, or the search for the menu.
    pub fn escape(&mut self)
        ensures
            old(self).wf() ==> final(self).wf(),
            *final(self) == (match old(self).mode {
                AppMode::VersionSelect => App { mode: AppMode::Viewing, scroll_position: 0, ..*old(self) },
                AppMode::Search => App { mode: AppMode::Menu, scroll_position: 0, ..*old(self) },
                _ => *old(self),
            }),
    {
        match self.mode {
            AppMode::VersionSelect => self.set_mode(AppMode::Viewing),
            AppMode::Search => self.set_mode(AppMode::Menu),
            _ => {},
        }
    }

    /// Returns to the main menu.
    pub fn open_menu(&mut self)
        ensures
            old(self).wf() ==> final(self).wf(),
            *final(self) == (App { mode: AppMode::Menu, scroll_position: 0, ..*old(self) }),
    {
        self.set_mode(AppMode::Menu);
    }

    /// Moves the menu cursor down.
    pub fn menu_next(&mut self)
        ensures
            old(self).wf() ==> final(self).wf(),
            *final(self) == (App { menu_state: cycle_next(old(self).menu_state, MENU_ITEMS as nat), ..*old(self) }),
    {
        self.menu_state = next_index(self.menu_state, MENU_ITEMS);
    }

    /// Moves the menu cursor up.
    pub fn menu_previous(&mut self)
        ensures
            old(self).wf() ==> final(self).wf(),
            *final(self) == (App { menu_state: cycle_prev(old(self).menu_state, MENU_ITEMS as nat), ..*old(self) }),
    {
        self.menu_state = prev_index(self.menu_state, MENU_ITEMS);
    }

    /// Opens the menu entry under the cursor: the author, language or title
    /// list, the search, or a random poem.
    pub fn activate_menu(&mut self)
        requires
            old(self).wf(),
        ensures
            final(self).wf(),
            match old(self).menu_state {
                Some(0) => *final(self) == (App { mode: AppMode::AuthorList, scroll_position: 0, ..*old(self) }),
                Some(1) => *final(self) == (App { mode: AppMode::LanguageList, scroll_position: 0, ..*old(self) }),
                Some(2) => *final(self) == (App { mode: AppMode::TitleList, scroll_position: 0, ..*old(self) }),
                Some(3) => *final(self) == (App {
                    mode: AppMode::Search,
                    scroll_position: 0,
                    search_query: final(self).search_query,
                    search_results: final(self).search_results,
                    search_list_state: None,
                    ..*old(self)
                }) && final(self).search_query@.len() == 0 && final(self).search_results@.len() == 0,
                Some(4) => if old(self).poems@.len() == 0 {
                    *final(self) == *old(self)
                } else {
                    final(self).current_poem < old(self).poems@.len() && *final(self) == (App {
                        current_poem: final(self).current_poem,
                        current_version: final(self).current_version,
                        filtered_poems: None,
                        filtered_list_state: None,
                        mode: AppMode::Viewing,
                        scroll_position: 0,
                        ..*old(self)
                    }) && final(self).current_version@ == canonical_key()
                },
                _ => *final(self) == *old(self),
            },
    {
        match self.menu_state {
            Some(0) => self.set_mode(AppMode::AuthorList),
            Some(1) => self.set_mode(AppMode::LanguageList),
            Some(2) => self.set_mode(AppMode::TitleList),
            Some(3) => self.open_search(),
            Some(4) => self.show_random_poem(),
            _ => {},
        }
    }

    /// Opens the version picker over the poem on display.
    pub fn open_version_picker(&mut self)
        ensures
            old(self).wf() ==> final(self).wf(),
            *final(self) == (if old(self).mode == AppMode::Viewing {
                App { version_list_state: Some(0), mode: AppMode::VersionSelect, scroll_position: 0, ..*old(self) }
            } else {
                *old(self)
            }),
    {
        if self.mode == AppMode::Viewing {
            self.version_list_state = Some(0);
            self.set_mode(AppMode::VersionSelect);
        }
    }

    /// Moves the cursor of the version picker down.
    pub fn next_version_choice(&mut self)
        requires
            old(self).wf(),
            old(self).poems@.len() > 0,
        ensures
            *final(self) == (App { version_list_state: cycle_next(old(self).version_list_state, old(self).poems@[old(self).current_poem as int].versions@.len()), ..*old(self) }),
    {
        let n = self.poems[self.current_poem].versions.len();
        self.version_list_state = next_index(self.version_list_state, n);
    }

    /// Moves the cursor of the version picker up.
    pub fn previous_version_choice(&mut self)
        requires
            old(self).wf(),
            old(self).poems@.len() > 0,
        ensures
            *final(self) == (App { version_list_state: cycle_prev(old(self).version_list_state, old(self).poems@[old(self).current_poem as int].versions@.len()), ..*old(self) }),
    {
        let n = self.poems[self.current_poem].versions.len();
        self.version_list_state = prev_index(self.version_list_state, n);
    }

    /// The keys the version picker offers for the poem on display:
    /// `canonical`, then the variant keys in code-point order.
    pub fn current_version_keys(&self) -> (r: Vec<String>)
        requires
            self.wf(),
            self.poems@.len() > 0,
        ensures
            version_keys_of(self.poems@[self.current_poem as int], r@),
    {
        assert(poem_wf(self.poems@[self.current_poem as int]));
        version_keys(&self.poems[self.current_poem])
    }

    /// Shows the version under the picker's cursor.
    pub fn pick_version(&mut self)
        requires
            old(self).wf(),
            old(self).poems@.len() > 0,
        ensures
            final(self).wf(),
            match old(self).version_list_state {
                Some(i) if i < old(self).poems@[old(self).current_poem as int].versions@.len() => exists|keys: Seq<String>|
                    version_keys_of(old(self).poems@[old(self).current_poem as int], keys) && *final(self) == (App {
                        current_version: keys[i as int],
                        mode: AppMode::Viewing,
                        scroll_position: 0,
                        ..*old(self)
                    }),
                _ => *final(self) == *old(self),
            },
    {
        if let Some(i) = self.version_list_state {
            if i < self.poems[self.current_poem].versions.len() {
                let keys = self.current_version_keys();
                self.current_version = keys[i].clone();
                self.set_mode(AppMode::Viewing);
            }
        }
    }

    /// Shows the next version of the poem in the picker's order, wrapping
    /// around; nothing changes for a poem with a single version.
    pub fn toggle_version(&mut self)
        requires
            old(self).wf(),
            old(self).poems@.len() > 0,
        ensures
            final(self).wf(),
            exists|keys: Seq<String>|
                version_keys_of(old(self).poems@[old(self).current_poem as int], keys) && *final(self) == (App {
                    current_version: final(self).current_version,
                    ..*old(self)
                }) && final(self).current_version@ == (if keys.len() <= 1 {
                    old(self).current_version@
                } else {
                    key_after(strs(keys), old(self).current_version@)
                }),
    {
        let keys = self.current_version_keys();
        if keys.len() > 1 {
            let ghost ks = strs(keys@);
            let mut i: usize = 0;
            let mut pos: usize = 0;
            let mut found = false;
            while i < keys.len() && !found
                invariant
                    i <= keys@.len(),
                    ks == strs(keys@),
                    !found ==> pos == 0 && find_key_from(ks, self.current_version@, 0) == find_key_from(ks, self.current_version@, i as int),
                    found ==> pos < keys@.len() && find_key_from(ks, self.current_version@, 0) == pos,
                decreases keys@.len() - i,
            {
                assert(ks[i as int] == keys@[i as int]@);
                if keys[i] == self.current_version {
                    pos = i;
                    found = true;
                }
                i = i + 1;
            }
            proof {
                lemma_find_key_from(ks, self.current_version@, 0);
                lemma_wrap(pos as int, keys@.len() as int);
                assert(pos as int == (if find_key_from(ks, self.current_version@, 0) < 0 { 0 } else { find_key_from(ks, self.current_version@, 0) }));
            }
            let next = if pos < keys.len() - 1 { pos + 1 } else { 0 };
            self.current_version = keys[next].clone();
            assert(strs(keys@)[next as int] == keys@[next as int]@);
        }
        assert(version_keys_of(self.poems@[self.current_poem as int], keys@));
    }

    /// Filters the library to the poems of the author under the cursor and
    /// opens that list on its first poem.
    pub fn select_current_author(&mut self)
        requires
            old(self).wf(),
        ensures
            final(self).wf(),
            match old(self).author_list_state {
                Some(i) if i < old(self).author_counts@.len() => exists|r: Seq<String>|
                    author_order(old(self).author_counts@, r) && final(self).filtered_poems is Some
                        && final(self).filtered_poems->0@ == poems_by(old(self).poems@, r[i as int]@) && *final(self) == (App {
                        current_poem: final(self).filtered_poems->0@[0],
                        current_version: final(self).current_version,
                        filtered_poems: final(self).filtered_poems,
                        filtered_list_state: Some(0),
                        filter_language: None,
                        previous_mode: Some(AppMode::AuthorList),
                        mode: AppMode::FilteredList,
                        scroll_position: 0,
                        ..*old(self)
                    }) && final(self).current_version@ == canonical_key(),
                _ => *final(self) == *old(self),
            },
    {
        if let Some(index) = self.author_list_state {
            if index < self.author_counts.len() {
                let authors = self.get_sorted_authors();
                let author = &authors[index];
                let mut filtered: Vec<usize> = Vec::new();
                let mut k: usize = 0;
                while k < self.poems.len()
                    invariant
                        k <= self.poems@.len(),
                        poems_wf(self.poems@),
                        filtered@ == poems_by(self.poems@.take(k as int), author@),
                    decreases self.poems@.len() - k,
                {
                    proof {
                        assert(self.poems@.take(k + 1).drop_last() =~= self.poems@.take(k as int));
                        assert(poem_wf(self.poems@[k as int]));
                    }
                    let v = self.poems[k].canonical().unwrap();
                    if v.author == *author {
                        filtered.push(k);
                    }
                    k = k + 1;
                }
                proof {
                    assert(self.poems@.take(k as int) =~= self.poems@);
                    lemma_filter_bounds(self.poems@, author@);
                    assert(key_among(self.author_counts@, self.author_counts@.len() as int, author@));
                    let j = choose|j: int| 0 <= j < self.author_counts@.len() && (#[trigger] self.author_counts@[j]).0@ == author@;
                    assert(author_tally(self.poems@, author@) > 0);
                    crate::index::lemma_tally_witness(self.poems@, author@);
                    let w = choose|w: int| 0 <= w < self.poems@.len() && author_of(self.poems@[w]) == author@;
                    lemma_author_present(self.poems@, author@, w);
                }
                self.current_poem = filtered[0];
                self.current_version = canonical_key_string();
                self.filtered_poems = Some(filtered);
                self.filtered_list_state = Some(0);
                self.filter_language = None;
                self.previous_mode = Some(AppMode::AuthorList);
                self.mode = AppMode::FilteredList;
                self.scroll_position = 0;
            }
        }
    }
}

} // verus!
