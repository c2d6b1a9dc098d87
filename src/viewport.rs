//! Scrollbar geometry for a scrolled text: where the thumb stands and how
//! long it is.
use vstd::prelude::*;

verus! {

/// The thumb of a vertical scrollbar for `total` lines shown `height` at a
/// time from line `offset`: `None` when everything fits or the bar has no
/// room between its two end glyphs; else `(start, length)`, counted in rows
/// of the bar from its top end glyph. The length is the viewport's share of
/// the text, rounded, at least one row and at most the track; the start puts
/// the offset's share of the largest offset on the track, rounded.
pub open spec fn thumb(total: int, height: int, offset: int) -> Option<(int, int)> {
    if total <= height || height < 3 {
        None
    } else {
        let track = height - 2;
        let share = (height * height + total / 2) / total;
        let len = if share < 1 { 1 } else if share > track { track } else { share };
        let max_off = total - height;
        let off = if offset < max_off { offset } else { max_off };
        Some((1 + (off * (track - len) + max_off / 2) / max_off, len))
    }
}

proof fn lemma_rounded_share(off: int, d: int, m: int)
    requires
        0 <= off <= m,
        m > 0,
        d >= 0,
    ensures
        (off * d + m / 2) / m <= d,
{
    let q = (off * d + m / 2) / m;
    vstd::arithmetic::div_mod::lemma_fundamental_div_mod(off * d + m / 2, m);
    vstd::arithmetic::div_mod::lemma_mod_bound(off * d + m / 2, m);
    assert(off * d <= m * d) by (nonlinear_arith)
        requires 0 <= off <= m, d >= 0;
    assert(m / 2 < m);
    assert(m * q <= off * d + m / 2);
    assert(m * q < m * (d + 1)) by (nonlinear_arith)
        requires m * q <= off * d + m / 2, off * d <= m * d, m / 2 < m;
    assert(q < d + 1) by (nonlinear_arith)
        requires m * q < m * (d + 1), m > 0;
}

/// The scrollbar thumb (see `thumb`), or `None` where no scrollbar is drawn.
pub fn scrollbar_thumb(total_lines: usize, viewport_height: usize, scroll_offset: usize) -> (r: Option<(usize, usize)>)
    ensures
        match thumb(total_lines as int, viewport_height as int, scroll_offset as int) {
            Some((s, l)) => r == Some((s as usize, l as usize)) && 1 <= s && 1 <= l && s + l <= viewport_height - 1,
            None => r is None,
        },
{
    if total_lines <= viewport_height || viewport_height < 3 {
        return None;
    }
    let total = total_lines as u128;
    let height = viewport_height as u128;
    let track = height - 2;
    assert(height * height <= 0xffff_ffff_ffff_fffe_0000_0000_0000_0001u128) by (nonlinear_arith)
        requires height <= 0xffff_ffff_ffff_ffffu128;
    let share = (height * height + total / 2) / total;
    let len = if share < 1 { 1 } else if share > track { track } else { share };
    let max_off = total - height;
    let off = if (scroll_offset as u128) < max_off { scroll_offset as u128 } else { max_off };
    assert(off * (track - len) <= max_off * track) by (nonlinear_arith)
        requires off <= max_off, track - len <= track, 0 <= track - len;
    assert(max_off * track <= 0xffff_ffff_ffff_fffe_0000_0000_0000_0001u128) by (nonlinear_arith)
        requires max_off <= 0xffff_ffff_ffff_ffffu128, track <= 0xffff_ffff_ffff_ffffu128;
    let pos = (off * (track - len) + max_off / 2) / max_off;
    proof {
        lemma_rounded_share(off as int, (track - len) as int, max_off as int);
    }
    Some(((1 + pos) as usize, len as usize))
}

} // verus!
