//! The text layout engine: inline markup normalisation, bidirectional
//! reordering of right-to-left lines, and vertical (column) layout of
//! vertical scripts.
use vstd::prelude::*;
use crate::model::Version;
use crate::text::{
    char_vec, string_from_chars, trim_chars, split_lines, join_line_chars, extend_chars,
    copy_range, trim_seq, lines_of, join_lines, views,
};

verus! {

/// What `unicode_bidi` shows of a line taken as one bidi paragraph: the line
/// reordered from logical to visual order.
pub uninterp spec fn bidi_visual(line: Seq<char>) -> Seq<char>;

/// Relies on `unicode_bidi::ParagraphBidiInfo::new` and
/// `ParagraphBidiInfo::reorder_line`: the whole line as one paragraph, its
/// direction taken from its first strong character, in display order.
#[verifier::external_body]
fn bidi_reorder(line: &str) -> (r: String)
    ensures
        r@ == bidi_visual(line@),
{
    let info = unicode_bidi::ParagraphBidiInfo::new(line, None);
    info.reorder_line(0..line.len()).into_owned()
}

/// The glyph that pads vertical columns to a common height (U+3000,
/// ideographic space).
pub open spec fn pad_glyph() -> char {
    '\u{3000}'
}

/// The flag is set.
pub open spec fn flag_set(f: Option<bool>) -> bool {
    f == Some(true)
}

fn flag_on(f: Option<bool>) -> (r: bool)
    ensures
        r == flag_set(f),
{
    match f {
        Some(b) => b,
        None => false,
    }
}

// ---------------------------------------------------------------------------
// Inline markup

/// Position of the first line feed at or after `j`, or the length of `s`.
pub open spec fn line_end(s: Seq<char>, j: int) -> int
    decreases s.len() - j,
{
    if j >= s.len() {
        s.len() as int
    } else if s[j] == '\n' {
        j
    } else {
        line_end(s, j + 1)
    }
}

proof fn lemma_line_end(s: Seq<char>, j: int)
    requires
        0 <= j <= s.len(),
    ensures
        j <= line_end(s, j) <= s.len(),
        forall|k: int| j <= k < line_end(s, j) ==> s[k] != '\n',
        line_end(s, j) < s.len() ==> s[line_end(s, j)] == '\n',
    decreases s.len() - j,
{
    if j < s.len() && s[j] != '\n' {
        lemma_line_end(s, j + 1);
    }
}

/// The text that opens a heading.
pub open spec fn heading_open() -> Seq<char> {
    "  ——— **"@
}

/// The text that closes a heading.
pub open spec fn heading_close() -> Seq<char> {
    "** ——— "@
}

/// A `##` heading: its trimmed title in bold between two rules.
pub open spec fn heading(title: Seq<char>) -> Seq<char> {
    heading_open() + trim_seq(title) + heading_close()
}

/// The inline markup of `s` from position `i` on, in canonical form: `##`
/// up to the end of the line becomes a heading, `**` stays the bold marker
/// and a lone `*` becomes the italic marker `_`.
pub open spec fn markup_from(s: Seq<char>, i: int) -> Seq<char>
    decreases s.len() - i,
    via markup_from_decreases
{
    if i < 0 || i >= s.len() {
        Seq::empty()
    } else if s[i] == '#' && i + 1 < s.len() && s[i + 1] == '#' {
        let e = line_end(s, i + 2);
        heading(s.subrange(i + 2, e)) + markup_from(s, e)
    } else if s[i] == '*' {
        if i + 1 < s.len() && s[i + 1] == '*' {
            seq!['*', '*'] + markup_from(s, i + 2)
        } else {
            seq!['_'] + markup_from(s, i + 1)
        }
    } else {
        seq![s[i]] + markup_from(s, i + 1)
    }
}

#[via_fn]
proof fn markup_from_decreases(s: Seq<char>, i: int) {
    if 0 <= i && i + 1 < s.len() {
        lemma_line_end(s, i + 2);
    }
}

/// The whole of `s` in canonical markup.
pub open spec fn markup(s: Seq<char>) -> Seq<char> {
    markup_from(s, 0)
}

/// Rewrites the inline markup of `text` into canonical form (see
/// `markup_from`).
pub fn parse_markdown(text: &str) -> (r: String)
    ensures
        r@ == markup(text@),
{
    let s = char_vec(text);
    let open = char_vec("  ——— **");
    let close = char_vec("** ——— ");
    let mut out: Vec<char> = Vec::new();
    let mut i: usize = 0;
    while i < s.len()
        invariant
            i <= s@.len(),
            s@ == text@,
            open@ == heading_open(),
            close@ == heading_close(),
            out@ + markup_from(s@, i as int) == markup(s@),
        decreases s@.len() - i,
    {
        let c = s[i];
        if c == '#' && i + 1 < s.len() && s[i + 1] == '#' {
            let mut e: usize = i + 2;
            while e < s.len() && s[e] != '\n'
                invariant
                    i + 2 <= e <= s@.len(),
                    line_end(s@, i + 2) == line_end(s@, e as int),
                decreases s@.len() - e,
            {
                e = e + 1;
            }
            let title = copy_range(&s, i + 2, e);
            let t = trim_chars(&title);
            let ghost before = out@;
            extend_chars(&mut out, &open);
            extend_chars(&mut out, &t);
            extend_chars(&mut out, &close);
            assert(out@ =~= before + heading(s@.subrange(i + 2, e as int)));
            i = e;
        } else if c == '*' {
            if i + 1 < s.len() && s[i + 1] == '*' {
                out.push('*');
                out.push('*');
                i = i + 2;
            } else {
                out.push('_');
                i = i + 1;
            }
        } else {
            out.push(c);
            i = i + 1;
        }
    }
    string_from_chars(&out)
}

// ---------------------------------------------------------------------------
// Right-to-left lines

/// A line in display order: empty lines stay empty.
pub open spec fn rtl_line(l: Seq<char>) -> Seq<char> {
    if l.len() == 0 {
        Seq::empty()
    } else {
        bidi_visual(l)
    }
}

/// Each line of `s` reordered for display on its own.
pub open spec fn rtl_text(s: Seq<char>) -> Seq<char> {
    join_lines(lines_of(s).map_values(|l: Seq<char>| rtl_line(l)))
}

/// Reorders each line of `text` for right-to-left display.
pub fn process_rtl_text(text: &Vec<char>) -> (r: Vec<char>)
    ensures
        r@ == rtl_text(text@),
{
    let lines = split_lines(text);
    let mut shown: Vec<Vec<char>> = Vec::new();
    let mut k: usize = 0;
    while k < lines.len()
        invariant
            k <= lines@.len(),
            views(lines@) == lines_of(text@),
            views(shown@) == views(lines@).take(k as int).map_values(|l: Seq<char>| rtl_line(l)),
        decreases lines@.len() - k,
    {
        let ghost before = views(shown@);
        let ghost cur = views(lines@)[k as int];
        assert(cur == lines@[k as int]@);
        if lines[k].len() == 0 {
            let empty: Vec<char> = Vec::new();
            assert(empty@ =~= rtl_line(cur));
            shown.push(empty);
        } else {
            let line = string_from_chars(&lines[k]);
            let visual = bidi_reorder(line.as_str());
            let v = char_vec(visual.as_str());
            assert(v@ == rtl_line(cur));
            shown.push(v);
        }
        assert(views(shown@) =~= before.push(rtl_line(cur)));
        k = k + 1;
        assert(views(shown@) =~= views(lines@).take(k as int).map_values(
            |l: Seq<char>| rtl_line(l),
        ));
    }
    assert(views(lines@).take(k as int) =~= views(lines@));
    join_line_chars(&shown)
}

// ---------------------------------------------------------------------------
// Vertical layout

/// `l` padded on the right with the pad glyph to length `w`.
pub open spec fn pad_to(l: Seq<char>, w: nat) -> Seq<char> {
    if l.len() >= w {
        l
    } else {
        l + Seq::new((w - l.len()) as nat, |_k: int| pad_glyph())
    }
}

/// Length of the longest sequence of `ls`.
pub open spec fn max_len(ls: Seq<Seq<char>>) -> nat
    decreases ls.len(),
{
    if ls.len() == 0 {
        0
    } else if ls.last().len() > max_len(ls.drop_last()) {
        ls.last().len()
    } else {
        max_len(ls.drop_last())
    }
}

/// Reading a grid column by column: output line `x` holds column `x` of the
/// rows, read from the last row up to the first.
pub open spec fn transpose_rev(g: Seq<Seq<char>>, w: nat) -> Seq<Seq<char>> {
    Seq::new(w, |x: int| Seq::new(g.len(), |k: int| g[g.len() - 1 - k][x]))
}

/// `l` cut into consecutive pieces of `h` characters, the last one padded to
/// `h`; an empty line has no piece.
pub open spec fn chunks_of(l: Seq<char>, h: nat) -> Seq<Seq<char>>
    decreases l.len(),
{
    if l.len() == 0 || h == 0 {
        Seq::empty()
    } else if l.len() <= h {
        seq![pad_to(l, h)]
    } else {
        seq![l.take(h as int)] + chunks_of(l.skip(h as int), h)
    }
}

/// The trimmed lines of a text.
pub open spec fn trimmed_lines(text: Seq<char>) -> Seq<Seq<char>> {
    lines_of(text).map_values(|l: Seq<char>| trim_seq(l))
}

/// The rows that a vertical layout reads column by column: the trimmed lines
/// padded to the longest; or, for a right-to-left text whose longest line
/// exceeds a viewport of `h > 0` rows, every line's pieces of `h` characters,
/// in order.
pub open spec fn vertical_rows(text: Seq<char>, rtl: bool, h: nat) -> Seq<Seq<char>> {
    let t = trimmed_lines(text);
    let w = max_len(t);
    if rtl && 0 < h < w {
        t.map_values(|l: Seq<char>| chunks_of(l, h)).flatten()
    } else {
        t.map_values(|l: Seq<char>| pad_to(l, w))
    }
}

/// The number of characters in each row of `vertical_rows`.
pub open spec fn vertical_width(text: Seq<char>, rtl: bool, h: nat) -> nat {
    let w = max_len(trimmed_lines(text));
    if rtl && 0 < h < w {
        h
    } else {
        w
    }
}

/// The display lines of a vertical text: the rows read column by column,
/// bottom row first, so that the first line of the text becomes the
/// rightmost column, read top to bottom.
pub open spec fn vertical_lines(text: Seq<char>, rtl: bool, h: nat) -> Seq<Seq<char>> {
    transpose_rev(vertical_rows(text, rtl, h), vertical_width(text, rtl, h))
}

fn pad_exec(l: Vec<char>, w: usize) -> (r: Vec<char>)
    ensures
        r@ == pad_to(l@, w as nat),
{
    let mut r = l;
    let ghost orig = r@;
    if r.len() >= w {
        return r;
    }
    while r.len() < w
        invariant
            orig.len() <= r@.len() <= w,
            r@ == orig + Seq::new((r@.len() - orig.len()) as nat, |_k: int| pad_glyph()),
        decreases w - r@.len(),
    {
        r.push('\u{3000}');
        assert(r@ =~= orig + Seq::new((r@.len() - orig.len()) as nat, |_k: int| pad_glyph()));
    }
    r
}

/// Cuts `l` into pieces of `h` characters (see `chunks_of`).
fn chunk_line(l: &Vec<char>, h: usize) -> (r: Vec<Vec<char>>)
    requires
        h > 0,
    ensures
        views(r@) == chunks_of(l@, h as nat),
        forall|k: int| 0 <= k < r@.len() ==> (#[trigger] r@[k])@.len() == h,
{
    let mut r: Vec<Vec<char>> = Vec::new();
    let mut start: usize = 0;
    assert(l@.skip(0) =~= l@);
    assert(views(r@) =~= Seq::<Seq<char>>::empty());
    while start < l.len()
        invariant
            h > 0,
            start <= l@.len(),
            views(r@) + chunks_of(l@.skip(start as int), h as nat) == chunks_of(l@, h as nat),
            forall|k: int| 0 <= k < r@.len() ==> (#[trigger] r@[k])@.len() == h,
        decreases l@.len() - start,
    {
        let ghost rest = l@.skip(start as int);
        let ghost before = views(r@);
        if l.len() - start <= h {
            let piece = copy_range(l, start, l.len());
            assert(piece@ =~= rest);
            let padded = pad_exec(piece, h);
            r.push(padded);
            assert(views(r@) =~= before + chunks_of(rest, h as nat));
            start = l.len();
            assert(l@.skip(start as int).len() == 0);
        } else {
            let piece = copy_range(l, start, start + h);
            assert(piece@ =~= rest.take(h as int));
            r.push(piece);
            assert(rest.skip(h as int) =~= l@.skip(start + h));
            start = start + h;
            assert(views(r@) =~= before + seq![rest.take(h as int)]);
        }
    }
    assert(l@.skip(start as int).len() == 0);
    assert(views(r@) + chunks_of(l@.skip(start as int), h as nat) =~= views(r@));
    r
}

/// Reads the rows `g`, each `w` long, column by column (see `transpose_rev`).
fn transpose_rev_exec(g: &Vec<Vec<char>>, w: usize) -> (r: Vec<Vec<char>>)
    requires
        forall|k: int| 0 <= k < g@.len() ==> (#[trigger] g@[k])@.len() == w,
    ensures
        views(r@) == transpose_rev(views(g@), w as nat),
{
    let m = g.len();
    let ghost t = transpose_rev(views(g@), w as nat);
    let mut out: Vec<Vec<char>> = Vec::new();
    let mut x: usize = 0;
    while x < w
        invariant
            x <= w,
            m == g@.len(),
            forall|k: int| 0 <= k < g@.len() ==> (#[trigger] g@[k])@.len() == w,
            t == transpose_rev(views(g@), w as nat),
            views(out@) == t.take(x as int),
        decreases w - x,
    {
        let mut line: Vec<char> = Vec::new();
        let mut k: usize = 0;
        while k < m
            invariant
                x < w,
                k <= m,
                m == g@.len(),
                forall|k: int| 0 <= k < g@.len() ==> (#[trigger] g@[k])@.len() == w,
                line@ == Seq::new(k as nat, |j: int| views(g@)[m - 1 - j][x as int]),
            decreases m - k,
        {
            let row = &g[m - 1 - k];
            line.push(row[x]);
            k = k + 1;
            assert(line@ =~= Seq::new(k as nat, |j: int| views(g@)[m - 1 - j][x as int]));
        }
        let ghost before = views(out@);
        out.push(line);
        x = x + 1;
        assert(views(out@) =~= before.push(t[x - 1]));
        assert(views(out@) =~= t.take(x as int));
    }
    assert(t.take(w as int) =~= t);
    out
}

/// Lays out a vertical text (see `vertical_lines`) for a viewport of
/// `viewport_height` rows.
pub fn vertical_layout(text: &Vec<char>, rtl: bool, viewport_height: usize) -> (r: Vec<Vec<char>>)
    ensures
        views(r@) == vertical_lines(text@, rtl, viewport_height as nat),
{
    let lines = split_lines(text);
    let mut trimmed: Vec<Vec<char>> = Vec::new();
    let mut width: usize = 0;
    let mut k: usize = 0;
    while k < lines.len()
        invariant
            k <= lines@.len(),
            views(lines@) == lines_of(text@),
            views(trimmed@) == trimmed_lines(text@).take(k as int),
            width == max_len(views(trimmed@)),
            forall|i: int| 0 <= i < trimmed@.len() ==> (#[trigger] trimmed@[i])@.len() <= width,
        decreases lines@.len() - k,
    {
        let t = trim_chars(&lines[k]);
        let ghost before = views(trimmed@);
        if t.len() > width {
            width = t.len();
        }
        trimmed.push(t);
        k = k + 1;
        assert(views(trimmed@) =~= before.push(trim_seq(views(lines@)[k - 1])));
        assert(views(trimmed@).drop_last() =~= before);
        assert(views(trimmed@) =~= trimmed_lines(text@).take(k as int));
    }
    assert(trimmed_lines(text@).take(k as int) =~= trimmed_lines(text@));
    let ghost t = trimmed_lines(text@);
    let mut rows: Vec<Vec<char>> = Vec::new();
    let row_width: usize;
    if rtl && 0 < viewport_height && viewport_height < width {
        row_width = viewport_height;
        let ghost chunked = t.map_values(|l: Seq<char>| chunks_of(l, viewport_height as nat));
        let mut i: usize = 0;
        while i < trimmed.len()
            invariant
                i <= trimmed@.len(),
                0 < viewport_height,
                views(trimmed@) == t,
                chunked == t.map_values(|l: Seq<char>| chunks_of(l, viewport_height as nat)),
                views(rows@) == chunked.take(i as int).flatten(),
                forall|j: int| 0 <= j < rows@.len() ==> (#[trigger] rows@[j])@.len() == viewport_height,
            decreases trimmed@.len() - i,
        {
            let pieces = chunk_line(&trimmed[i], viewport_height);
            let ghost before = views(rows@);
            let mut j: usize = 0;
            while j < pieces.len()
                invariant
                    j <= pieces@.len(),
                    views(rows@) == before + views(pieces@).take(j as int),
                    forall|q: int| 0 <= q < pieces@.len() ==> (#[trigger] pieces@[q])@.len() == viewport_height,
                    forall|q: int| 0 <= q < rows@.len() ==> (#[trigger] rows@[q])@.len() == viewport_height,
                decreases pieces@.len() - j,
            {
                let ghost before_j = views(rows@);
                let piece = copy_range(&pieces[j], 0, pieces[j].len());
                assert(piece@ =~= pieces@[j as int]@);
                rows.push(piece);
                j = j + 1;
                assert(views(rows@) =~= before_j.push(views(pieces@)[j - 1]));
                assert(views(pieces@).take(j as int) =~= views(pieces@).take(j - 1).push(
                    views(pieces@)[j - 1],
                ));
                assert(views(rows@) =~= before + views(pieces@).take(j as int));
            }
            assert(views(pieces@).take(j as int) =~= views(pieces@));
            proof {
                assert(chunked.take(i + 1) =~= chunked.take(i as int).push(chunked[i as int]));
                chunked.take(i as int).lemma_flatten_push(chunked[i as int]);
            }
            i = i + 1;
        }
        assert(chunked.take(i as int) =~= chunked);
    } else {
        row_width = width;
        let mut i: usize = 0;
        while i < trimmed.len()
            invariant
                i <= trimmed@.len(),
                views(trimmed@) == t,
                width == max_len(t),
                forall|q: int| 0 <= q < trimmed@.len() ==> (#[trigger] trimmed@[q])@.len() <= width,
                views(rows@) == t.take(i as int).map_values(|l: Seq<char>| pad_to(l, width as nat)),
                forall|j: int| 0 <= j < rows@.len() ==> (#[trigger] rows@[j])@.len() == width,
            decreases trimmed@.len() - i,
        {
            let line = copy_range(&trimmed[i], 0, trimmed[i].len());
            assert(line@ =~= t[i as int]);
            let padded = pad_exec(line, width);
            let ghost before = views(rows@);
            rows.push(padded);
            i = i + 1;
            assert(views(rows@) =~= before.push(pad_to(t[i - 1], width as nat)));
            assert(views(rows@) =~= t.take(i as int).map_values(|l: Seq<char>| pad_to(l, width as nat)));
        }
        assert(t.take(i as int) =~= t);
    }
    transpose_rev_exec(&rows, row_width)
}

// ---------------------------------------------------------------------------
// Whole versions

/// The body of a version as displayed: canonical markup for horizontal
/// left-to-right text; markup then per-line reordering for horizontal
/// right-to-left text; vertical layout, on the raw text, otherwise.
pub open spec fn rendered_body(v: Version, viewport_height: nat) -> Seq<char> {
    if flag_set(v.vertical) {
        join_lines(vertical_lines(v.text@, flag_set(v.rtl), viewport_height))
    } else if flag_set(v.rtl) {
        rtl_text(markup(v.text@))
    } else {
        markup(v.text@)
    }
}

/// A version as displayed: the epigraph, if any, as its own block followed by
/// a blank line, then the body.
pub open spec fn rendered(v: Version, viewport_height: nat) -> Seq<char> {
    match v.epigraph {
        Some(e) => e@ + seq!['\n', '\n'] + rendered_body(v, viewport_height),
        None => rendered_body(v, viewport_height),
    }
}

/// Renders a version for a viewport of `viewport_height` rows (see
/// `rendered`).
pub fn render_poem_text(version: &Version, viewport_height: usize) -> (r: String)
    ensures
        r@ == rendered(*version, viewport_height as nat),
{
    let vertical = flag_on(version.vertical);
    let rtl = flag_on(version.rtl);
    let mut out: Vec<char> = match &version.epigraph {
        Some(e) => {
            let mut o = char_vec(e.as_str());
            o.push('\n');
            o.push('\n');
            o
        },
        None => Vec::new(),
    };
    let ghost head = out@;
    let body: Vec<char>;
    if vertical {
        let text = char_vec(version.text.as_str());
        let lines = vertical_layout(&text, rtl, viewport_height);
        body = join_line_chars(&lines);
    } else if rtl {
        let marked = parse_markdown(version.text.as_str());
        let chars = char_vec(marked.as_str());
        body = process_rtl_text(&chars);
    } else {
        let marked = parse_markdown(version.text.as_str());
        body = char_vec(marked.as_str());
    }
    extend_chars(&mut out, &body);
    assert(version.epigraph is Some ==> head =~= version.epigraph->0@ + seq!['\n', '\n']);
    assert(version.epigraph is None ==> out@ =~= body@);
    string_from_chars(&out)
}

/// Number of display lines of a version rendered for a viewport of
/// `viewport_height` rows.
pub fn rendered_line_count(version: &Version, viewport_height: usize) -> (r: usize)
    ensures
        r == lines_of(rendered(*version, viewport_height as nat)).len(),
{
    let text = render_poem_text(version, viewport_height);
    let chars = char_vec(text.as_str());
    let lines = split_lines(&chars);
    lines.len()
}

/// `author|title`, one character per line, for a title bar that runs down the
/// side of a vertical right-to-left text.
pub open spec fn vertical_title(author: Seq<char>, title: Seq<char>) -> Seq<char> {
    let full = author + seq!['|'] + title;
    join_lines(Seq::new(full.len(), |i: int| seq![full[i]]))
}

/// Lays out `author|title` one character per line (see `vertical_title`).
pub fn render_vertical_rtl_title(author: &str, title: &str) -> (r: String)
    ensures
        r@ == vertical_title(author@, title@),
{
    let mut full = char_vec(author);
    full.push('|');
    let t = char_vec(title);
    extend_chars(&mut full, &t);
    let ghost fs = full@;
    let mut lines: Vec<Vec<char>> = Vec::new();
    let mut i: usize = 0;
    while i < full.len()
        invariant
            i <= full@.len(),
            fs == full@,
            views(lines@) == Seq::new(i as nat, |k: int| seq![fs[k]]),
        decreases full@.len() - i,
    {
        let ghost before = views(lines@);
        let mut one: Vec<char> = Vec::new();
        one.push(full[i]);
        assert(one@ =~= seq![fs[i as int]]);
        lines.push(one);
        i = i + 1;
        assert(views(lines@) =~= before.push(seq![fs[i - 1]]));
        assert(views(lines@) =~= Seq::new(i as nat, |k: int| seq![fs[k]]));
    }
    assert(fs =~= author@ + seq!['|'] + title@);
    let out = join_line_chars(&lines);
    string_from_chars(&out)
}

} // verus!
