//! Properties that relate several operations of the library, stated over the
//! same spec functions as the operations' own contracts.
use vstd::prelude::*;
use crate::model::{
    Poem, poem_wf, canonical_version, canonical_key, resolved_version, has_key, index_of_key,
    lemma_index_of_key, key_at,
};
use crate::app::{
    scrolled_up, scrolled_down, key_in_language, poem_lang_keys, poem_has_lang_version,
    variant_matches, variant_with_lang, key_after, find_key_from, strs, version_keys_of,
};
use crate::index::str_lt;
use crate::text::{lemma_lex_irreflexive, join_lines};
use crate::layout::{
    markup_from, rendered, flag_set, transpose_rev, pad_to, pad_glyph, chunks_of, max_len,
    trimmed_lines, vertical_lines, vertical_rows, vertical_width,
};

verus! {

/// Resolving the key `canonical`, or a key that names no version of the
/// poem, gives the canonical version.
pub proof fn lemma_resolve_falls_back(p: Poem, key: Seq<char>)
    requires
        poem_wf(p),
        key == canonical_key() || !has_key(p, key),
    ensures
        resolved_version(p, key) == canonical_version(p),
{
}

/// Scrolling down then up by the same amount returns to the start when the
/// way down was not cut short at the bottom, and never ends below the start
/// otherwise.
pub proof fn lemma_scroll_down_then_up(offset: int, delta: int, max: int)
    requires
        offset >= 0,
        delta >= 0,
        max >= 0,
    ensures
        offset + delta <= max ==> scrolled_up(scrolled_down(offset, delta, max), delta) == offset,
        scrolled_up(scrolled_down(offset, delta, max), delta) <= offset,
{
}

/// After choosing a language, a poem of the filtered list opens in a version
/// in that language whenever it has one; otherwise in its canonical version.
pub proof fn lemma_language_choice(p: Poem, l: Seq<char>)
    requires
        poem_wf(p),
    ensures
        poem_has_lang_version(p, l) ==> resolved_version(p, key_in_language(p, l)).language@ == l,
        !poem_has_lang_version(p, l) ==> key_in_language(p, l) == canonical_key()
            && resolved_version(p, key_in_language(p, l)) == canonical_version(p),
{
    let vs = p.versions@;
    lemma_index_of_key(vs, canonical_key());
    lemma_variant_matches_witness(vs, l);
    let keys = poem_lang_keys(p, l);
    if poem_has_lang_version(p, l) {
        let j = choose|j: int| 0 <= j < vs.len() && (#[trigger] vs[j]).1.language@ == l;
        let ci = index_of_key(vs, canonical_key());
        if canonical_version(p).language@ == l {
            assert(keys[0] == canonical_key());
        } else {
            if vs[j].0@ == canonical_key() {
                assert(key_at(vs, j) == key_at(vs, ci));
            }
            lemma_variant_in(vs, l, j);
            let vm = variant_matches(vs, l);
            assert(keys =~= vm);
            let key = vm[0];
            let q = choose|q: int| 0 <= q < vs.len() && (#[trigger] vs[q]).0@ == key && vs[q].1.language@ == l && key != canonical_key();
            lemma_index_of_key(vs, key);
            assert(key_at(vs, index_of_key(vs, key)) == key_at(vs, q));
        }
    } else {
        let ci = index_of_key(vs, canonical_key());
        assert(vs[ci].1.language@ != l);
        if variant_matches(vs, l).len() > 0 {
            let key = variant_matches(vs, l)[0];
            let q = choose|q: int| 0 <= q < vs.len() && (#[trigger] vs[q]).0@ == key && vs[q].1.language@ == l && key != canonical_key();
            assert(vs[q].1.language@ == l);
        }
        assert(keys.len() == 0);
    }
}

proof fn lemma_variant_matches_witness(vs: Seq<(String, crate::model::Version)>, l: Seq<char>)
    ensures
        variant_matches(vs, l).len() > 0 ==> variant_with_lang(vs, variant_matches(vs, l)[0], l),
    decreases vs.len(),
{
    if vs.len() > 0 {
        let d = vs.drop_last();
        lemma_variant_matches_witness(d, l);
        let prev = variant_matches(d, l);
        if prev.len() > 0 {
            assert(variant_matches(vs, l)[0] == prev[0]);
            let j = choose|j: int| 0 <= j < d.len() && (#[trigger] d[j]).0@ == prev[0] && d[j].1.language@ == l && prev[0] != canonical_key();
            assert(vs[j] == d[j]);
        } else if variant_matches(vs, l).len() > 0 {
            assert(vs[vs.len() - 1].0@ == variant_matches(vs, l)[0]);
        }
    }
}

proof fn lemma_variant_in(vs: Seq<(String, crate::model::Version)>, l: Seq<char>, j: int)
    requires
        0 <= j < vs.len(),
        vs[j].0@ != canonical_key(),
        vs[j].1.language@ == l,
    ensures
        variant_matches(vs, l).len() > 0,
    decreases vs.len(),
{
    if j < vs.len() - 1 {
        assert(vs.drop_last()[j] == vs[j]);
        lemma_variant_in(vs.drop_last(), l, j);
    }
}

/// The key shown after toggling the version `m` times from `cur`.
pub open spec fn toggled(keys: Seq<Seq<char>>, cur: Seq<char>, m: nat) -> Seq<char>
    decreases m,
{
    if m == 0 {
        cur
    } else {
        key_after(keys, toggled(keys, cur, (m - 1) as nat))
    }
}

proof fn lemma_find_distinct(keys: Seq<Seq<char>>, q: int, i: int)
    requires
        0 <= i <= q < keys.len(),
        forall|a: int, b: int| 0 <= a < b < keys.len() ==> keys[a] != keys[b],
    ensures
        find_key_from(keys, keys[q], i) == q,
    decreases q - i,
{
    if i < q {
        lemma_find_distinct(keys, q, i + 1);
    }
}

proof fn lemma_toggled(keys: Seq<Seq<char>>, p: int, m: nat)
    requires
        0 <= p < keys.len(),
        forall|a: int, b: int| 0 <= a < b < keys.len() ==> keys[a] != keys[b],
    ensures
        toggled(keys, keys[p], m) == keys[(p + m) % (keys.len() as int)],
    decreases m,
{
    let n = keys.len() as int;
    if m == 0 {
        vstd::arithmetic::div_mod::lemma_small_mod(p as nat, n as nat);
    } else {
        lemma_toggled(keys, p, (m - 1) as nat);
        let q = (p + m - 1) % n;
        vstd::arithmetic::div_mod::lemma_mod_bound(p + m - 1, n);
        lemma_find_distinct(keys, q, 0);
        vstd::arithmetic::div_mod::lemma_add_mod_noop(p + m - 1, 1, n);
        if n == 1 {
            assert((p + m) % 1 == 0);
            assert((q + 1) % 1 == 0);
        } else {
            vstd::arithmetic::div_mod::lemma_small_mod(1, n as nat);
        }
    }
}

/// Toggling through the versions of a poem as many times as it has versions
/// comes back to the version shown at the start.
pub proof fn lemma_toggle_cycle(p: Poem, keys: Seq<String>, cur: Seq<char>)
    requires
        poem_wf(p),
        version_keys_of(p, keys),
        strs(keys).contains(cur),
    ensures
        toggled(strs(keys), cur, keys.len()) == cur,
{
    let ks = strs(keys);
    assert forall|a: int, b: int| 0 <= a < b < ks.len() implies ks[a] != ks[b] by {
        if a == 0 {
            assert(crate::index::is_variant_key(p, keys[b]@));
        } else {
            let t = keys.drop_first();
            assert(str_lt(t[a - 1], t[b - 1]));
            if ks[a] == ks[b] {
                lemma_lex_irreflexive(ks[a]);
            }
        }
    }
    let q = choose|q: int| 0 <= q < ks.len() && ks[q] == cur;
    lemma_toggled(ks, q, keys.len());
    vstd::arithmetic::div_mod::lemma_mod_multiples_vanish(1, q, ks.len() as int);
    vstd::arithmetic::div_mod::lemma_small_mod(q as nat, ks.len());
    assert(q + ks.len() == ks.len() * 1 + q);
}

/// The text holds no inline markup: no `*` and no `##`.
pub open spec fn no_markup(s: Seq<char>) -> bool {
    forall|i: int| 0 <= i < s.len() ==> #[trigger] s[i] != '*' && !(s[i] == '#' && i + 1 < s.len()
        && s[i + 1] == '#')
}

proof fn lemma_markup_identity(s: Seq<char>, i: int)
    requires
        0 <= i <= s.len(),
        no_markup(s),
    ensures
        markup_from(s, i) == s.subrange(i, s.len() as int),
    decreases s.len() - i,
{
    if i < s.len() {
        assert(s[i] != '*');
        lemma_markup_identity(s, i + 1);
        assert(seq![s[i]] + s.subrange(i + 1, s.len() as int) =~= s.subrange(i, s.len() as int));
    } else {
        assert(s.subrange(i, s.len() as int) =~= Seq::<char>::empty());
    }
}

/// Rendering a horizontal left-to-right version without epigraph or inline
/// markup gives back its text unchanged.
pub proof fn lemma_plain_round_trip(v: crate::model::Version, viewport_height: nat)
    requires
        !flag_set(v.vertical),
        !flag_set(v.rtl),
        v.epigraph is None,
        no_markup(v.text@),
    ensures
        rendered(v, viewport_height) == v.text@,
{
    lemma_markup_identity(v.text@, 0);
    assert(v.text@.subrange(0, v.text@.len() as int) =~= v.text@);
}

proof fn lemma_columns_prepend(r: Seq<char>, t0: Seq<Seq<char>>, k: nat)
    requires
        k <= r.len(),
        k <= t0.len(),
    ensures
        Seq::new(k, |x: int| seq![r[x]] + t0[x]).flatten().to_multiset() =~= r.take(k as int).to_multiset().add(
            t0.take(k as int).flatten().to_multiset(),
        ),
    decreases k,
{
    broadcast use vstd::seq_lib::lemma_multiset_commutative;
    broadcast use vstd::seq_lib::group_to_multiset_ensures;
    broadcast use vstd::multiset::group_multiset_axioms;
    if k == 0 {
        assert(Seq::new(0, |x: int| seq![r[x]] + t0[x]) =~= Seq::<Seq<char>>::empty());
        assert(r.take(0) =~= Seq::<char>::empty());
        assert(t0.take(0) =~= Seq::<Seq<char>>::empty());
    } else {
        let k1 = (k - 1) as nat;
        lemma_columns_prepend(r, t0, k1);
        let s1 = Seq::new(k1, |x: int| seq![r[x]] + t0[x]);
        let s = Seq::new(k, |x: int| seq![r[x]] + t0[x]);
        assert(s =~= s1.push(seq![r[k1 as int]] + t0[k1 as int]));
        s1.lemma_flatten_push(seq![r[k1 as int]] + t0[k1 as int]);
        assert(r.take(k as int) =~= r.take(k1 as int) + seq![r[k1 as int]]);
        assert(t0.take(k as int) =~= t0.take(k1 as int).push(t0[k1 as int]));
        t0.take(k1 as int).lemma_flatten_push(t0[k1 as int]);
        assert(s.flatten() =~= s1.flatten() + (seq![r[k1 as int]] + t0[k1 as int]));
    }
}

proof fn lemma_transpose_multiset(g: Seq<Seq<char>>, w: nat)
    requires
        forall|k: int| 0 <= k < g.len() ==> (#[trigger] g[k]).len() == w,
    ensures
        transpose_rev(g, w).flatten().to_multiset() =~= g.flatten().to_multiset(),
    decreases g.len(),
{
    broadcast use vstd::seq_lib::lemma_multiset_commutative;
    if g.len() == 0 {
        let e = Seq::<char>::empty();
        let z = Seq::new(w, |x: int| Seq::<Seq<char>>::empty()[x]);
        lemma_columns_prepend(Seq::new(w, |x: int| ' '), Seq::new(w, |x: int| e), 0);
        lemma_all_empty_flatten(w);
        assert forall|x: int| 0 <= x < w implies (#[trigger] transpose_rev(g, w)[x]) =~= e by {}
        assert(transpose_rev(g, w) =~= Seq::new(w, |x: int| e));
    } else {
        let g0 = g.drop_last();
        let r = g.last();
        lemma_transpose_multiset(g0, w);
        let t0 = transpose_rev(g0, w);
        assert forall|x: int| 0 <= x < w implies (#[trigger] transpose_rev(g, w)[x]) =~= seq![r[x]] + t0[x] by {
            let col = transpose_rev(g, w)[x];
            assert forall|k: int| 0 <= k < col.len() implies col[k] == (seq![r[x]] + t0[x])[k] by {
                if k > 0 {
                    assert(g[g.len() - 1 - k] == g0[g0.len() - 1 - (k - 1)]);
                }
            }
        }
        assert(transpose_rev(g, w) =~= Seq::new(w, |x: int| seq![r[x]] + t0[x]));
        lemma_columns_prepend(r, t0, w);
        assert(r.take(w as int) =~= r);
        assert(t0.take(w as int) =~= t0);
        assert(g =~= g0.push(r));
        g0.lemma_flatten_push(r);
    }
}

proof fn lemma_all_empty_flatten(w: nat)
    ensures
        Seq::new(w, |x: int| Seq::<char>::empty()).flatten() =~= Seq::<char>::empty(),
    decreases w,
{
    if w > 0 {
        let s = Seq::new(w, |x: int| Seq::<char>::empty());
        let s1 = Seq::new((w - 1) as nat, |x: int| Seq::<char>::empty());
        lemma_all_empty_flatten((w - 1) as nat);
        assert(s =~= s1.push(Seq::<char>::empty()));
        s1.lemma_flatten_push(Seq::<char>::empty());
    }
}

proof fn lemma_pads_count(n: nat, c: char)
    requires
        c != pad_glyph(),
    ensures
        Seq::new(n, |_k: int| pad_glyph()).to_multiset().count(c) == 0,
{
    broadcast use vstd::seq_lib::to_multiset_contains;
    assert(!Seq::new(n, |_k: int| pad_glyph()).contains(c));
}

proof fn lemma_pad_count(l: Seq<char>, w: nat, c: char)
    requires
        c != pad_glyph(),
    ensures
        pad_to(l, w).to_multiset().count(c) == l.to_multiset().count(c),
{
    broadcast use vstd::seq_lib::lemma_multiset_commutative;
    if l.len() < w {
        lemma_pads_count((w - l.len()) as nat, c);
    }
}

proof fn lemma_padded_rows_count(t: Seq<Seq<char>>, w: nat, c: char)
    requires
        c != pad_glyph(),
    ensures
        t.map_values(|l: Seq<char>| pad_to(l, w)).flatten().to_multiset().count(c)
            == t.flatten().to_multiset().count(c),
    decreases t.len(),
{
    broadcast use vstd::seq_lib::lemma_multiset_commutative;
    if t.len() > 0 {
        let t0 = t.drop_last();
        lemma_padded_rows_count(t0, w, c);
        let m0 = t0.map_values(|l: Seq<char>| pad_to(l, w));
        assert(t.map_values(|l: Seq<char>| pad_to(l, w)) =~= m0.push(pad_to(t.last(), w)));
        m0.lemma_flatten_push(pad_to(t.last(), w));
        assert(t =~= t0.push(t.last()));
        t0.lemma_flatten_push(t.last());
        lemma_pad_count(t.last(), w, c);
    }
}

proof fn lemma_chunks_count(l: Seq<char>, h: nat, c: char)
    requires
        c != pad_glyph(),
        h > 0,
    ensures
        chunks_of(l, h).flatten().to_multiset().count(c) == l.to_multiset().count(c),
        forall|k: int| 0 <= k < chunks_of(l, h).len() ==> (#[trigger] chunks_of(l, h)[k]).len() == h,
    decreases l.len(),
{
    broadcast use vstd::seq_lib::lemma_multiset_commutative;
    if l.len() == 0 {
        assert(l =~= Seq::<char>::empty());
    } else if l.len() <= h {
        lemma_pad_count(l, h, c);
        seq![pad_to(l, h)].lemma_flatten_one_element();
    } else {
        let rest = l.skip(h as int);
        lemma_chunks_count(rest, h, c);
        assert(l =~= l.take(h as int) + rest);
        assert(seq![l.take(h as int)].drop_first() =~= Seq::<Seq<char>>::empty());
        let cs = chunks_of(l, h);
        assert(cs.first() == l.take(h as int));
        assert(cs.drop_first() =~= chunks_of(rest, h));
        assert(cs.flatten() == cs.first() + cs.drop_first().flatten());
    }
}

spec fn segmented(t: Seq<Seq<char>>, h: nat) -> Seq<Seq<char>> {
    t.map_values(|l: Seq<char>| chunks_of(l, h)).flatten()
}

proof fn lemma_segmented_rows_count(t: Seq<Seq<char>>, h: nat, c: char)
    requires
        c != pad_glyph(),
        h > 0,
    ensures
        segmented(t, h).flatten().to_multiset().count(c) == t.flatten().to_multiset().count(c),
        forall|k: int| 0 <= k < segmented(t, h).len() ==> (#[trigger] segmented(t, h)[k]).len() == h,
    decreases t.len(),
{
    broadcast use vstd::seq_lib::lemma_multiset_commutative;
    if t.len() == 0 {
        assert(t.map_values(|l: Seq<char>| chunks_of(l, h)) =~= Seq::<Seq<Seq<char>>>::empty());
    } else {
        let t0 = t.drop_last();
        lemma_segmented_rows_count(t0, h, c);
        lemma_chunks_count(t.last(), h, c);
        let m0 = t0.map_values(|l: Seq<char>| chunks_of(l, h));
        let last = chunks_of(t.last(), h);
        assert(t.map_values(|l: Seq<char>| chunks_of(l, h)) =~= m0.push(last));
        m0.lemma_flatten_push(last);
        vstd::seq_lib::lemma_flatten_concat(m0.flatten(), last);
        assert(t =~= t0.push(t.last()));
        t0.lemma_flatten_push(t.last());
        let rows = m0.flatten() + last;
        assert(segmented(t, h) == rows);
        assert(segmented(t0, h) == m0.flatten());
        assert forall|k: int| 0 <= k < rows.len() implies (#[trigger] rows[k]).len() == h by {
            if k < m0.flatten().len() {
                assert(rows[k] == m0.flatten()[k]);
            } else {
                assert(rows[k] == last[k - m0.flatten().len()]);
            }
        }
    }
}

proof fn lemma_max_len(ls: Seq<Seq<char>>)
    ensures
        forall|k: int| 0 <= k < ls.len() ==> (#[trigger] ls[k]).len() <= max_len(ls),
    decreases ls.len(),
{
    if ls.len() > 0 {
        lemma_max_len(ls.drop_last());
        assert forall|k: int| 0 <= k < ls.len() implies (#[trigger] ls[k]).len() <= max_len(ls) by {
            if k < ls.len() - 1 {
                assert(ls[k] == ls.drop_last()[k]);
            }
        }
    }
}

/// Vertical layout loses and invents no character: apart from the padding
/// glyph, each character occurs in the displayed lines exactly as often as
/// in the trimmed lines of the text, for rectangular and ragged texts, with
/// or without segmentation.
pub proof fn lemma_vertical_keeps_characters(text: Seq<char>, rtl: bool, h: nat, c: char)
    requires
        c != pad_glyph(),
    ensures
        vertical_lines(text, rtl, h).flatten().to_multiset().count(c)
            == trimmed_lines(text).flatten().to_multiset().count(c),
{
    let t = trimmed_lines(text);
    let w = max_len(t);
    let rows = vertical_rows(text, rtl, h);
    let width = vertical_width(text, rtl, h);
    if rtl && 0 < h < w {
        lemma_segmented_rows_count(t, h, c);
        assert(rows == segmented(t, h));
    } else {
        lemma_max_len(t);
        lemma_padded_rows_count(t, w, c);
        assert forall|k: int| 0 <= k < rows.len() implies (#[trigger] rows[k]).len() == width by {
            assert(rows[k] == pad_to(t[k], w));
        }
    }
    lemma_transpose_multiset(rows, width);
}

proof fn lemma_join_count(ls: Seq<Seq<char>>, c: char)
    requires
        c != '\n',
    ensures
        join_lines(ls).to_multiset().count(c) == ls.flatten().to_multiset().count(c),
    decreases ls.len(),
{
    broadcast use vstd::seq_lib::lemma_multiset_commutative;
    broadcast use vstd::seq_lib::group_to_multiset_ensures;
    broadcast use vstd::multiset::group_multiset_axioms;
    if ls.len() == 1 {
        ls.lemma_flatten_one_element();
    } else if ls.len() > 1 {
        let d = ls.drop_last();
        lemma_join_count(d, c);
        assert(ls =~= d.push(ls.last()));
        d.lemma_flatten_push(ls.last());
        assert(seq!['\n'].to_multiset().count(c) == 0) by {
            assert(seq!['\n'] =~= Seq::<char>::empty().push('\n'));
        }
    } else {
        assert(join_lines(ls) =~= ls.flatten());
    }
}

/// The same law on the text that `render_poem_text` returns for a vertical
/// version without epigraph: apart from line feeds and the padding glyph,
/// each character occurs in it exactly as often as in the trimmed lines.
pub proof fn lemma_rendered_vertical_keeps_characters(v: crate::model::Version, h: nat, c: char)
    requires
        flag_set(v.vertical),
        v.epigraph is None,
        c != pad_glyph(),
        c != '\n',
    ensures
        rendered(v, h).to_multiset().count(c) == trimmed_lines(v.text@).flatten().to_multiset().count(c),
{
    lemma_join_count(vertical_lines(v.text@, flag_set(v.rtl), h), c);
    lemma_vertical_keeps_characters(v.text@, flag_set(v.rtl), h, c);
}

/// Opening an entry of a list filtered by language shows a version in that
/// language whenever the poem has one: the version that
/// `select_current_filtered` selects under these conditions.
pub proof fn lemma_filtered_entry_language(a: crate::app::App, i: int)
    requires
        a.wf(),
        a.previous_mode == Some(crate::app::AppMode::LanguageList),
        a.filter_language is Some,
        a.filtered_poems is Some,
        0 <= i < a.filtered_poems->0@.len(),
        poem_has_lang_version(a.poems@[a.filtered_poems->0@[i] as int], a.filter_language->0@),
    ensures
        resolved_version(
            a.poems@[a.filtered_poems->0@[i] as int],
            key_in_language(a.poems@[a.filtered_poems->0@[i] as int], a.filter_language->0@),
        ).language@ == a.filter_language->0@,
{
    let k = a.filtered_poems->0@[i];
    assert(crate::app::indices_valid(a.filtered_poems->0@, a.poems@.len()));
    assert(k < a.poems@.len());
    assert(poem_wf(a.poems@[k as int]));
    lemma_language_choice(a.poems@[k as int], a.filter_language->0@);
}

} // verus!
