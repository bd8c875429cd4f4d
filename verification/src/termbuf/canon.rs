//! The canonical cell layout, and the writes that keep it.
//!
//! A buffer is canonical when every wide grapheme is one base cell followed
//! by a continuation cell in the same row and style, and every other cell is
//! a one-column base. Diffing and rendering refuse any other layout; the
//! laws here show that the buffer's own writes never produce one.

use vstd::prelude::*;
use crate::geom::{Point, Rect};
use crate::text::cell_width;
use super::diff::{canonical, cell_canonical, lemma_div_mod_step, rendered_width_spec};
use super::{
    cell_char_ok, cell_index, cell_is_empty, char_cell, clear_at, clear_span, continuation_cell, cursor_style,
    empty_cell, fill_empty_spec, fill_range, fill_row, fill_rows, fill_spec, gend, gstart, grapheme_cell,
    overlay_cursor_spec, put_grapheme_spec, put_spec, rendered_text_spec, restyle_range, solid_frame_spec,
    text_fold, text_spec, uniform, CellView, CursorShape, TermBufView, NULL,
};
use crate::geom::{rect_intersect, FrameRects, Line, Size};
use crate::style::ResolvedStyle;
use crate::text::grapheme_clusters;

verus! {

/// A buffer whose cell count is its width times its height.
pub open spec fn sized(v: TermBufView) -> bool {
    v.cells.len() == v.size.w * v.size.h
}

/// A one-column base cell.
pub open spec fn narrow(c: CellView) -> bool {
    !c.continuation && rendered_width_spec(c) == 1
}

/// The column of an index inside its row.
pub(crate) proof fn lemma_row_position(y: int, w: int, i: int)
    requires
        0 < w,
        0 <= y,
        y * w <= i < y * w + w,
    ensures
        i % w == i - y * w,
{
    vstd::arithmetic::div_mod::lemma_fundamental_div_mod_converse(i, w, y, i - y * w);
}

/// The row of a point starts at a multiple of the width, and the row ends
/// inside the buffer.
pub(crate) proof fn lemma_point_row(v: TermBufView, p: Point)
    requires
        sized(v),
        cell_index(v.size, p) is Some,
    ensures
        0 <= p.y * v.size.w,
        p.y * v.size.w + v.size.w <= v.cells.len(),
        (p.y * v.size.w + p.x) % (v.size.w as int) == p.x,
        v.size.w > 0,
{
    let w = v.size.w as int;
    let h = v.size.h as int;
    assert(p.y * w + w <= h * w) by (nonlinear_arith)
        requires
            0 <= p.y < h,
            0 <= w,
    ;
    assert(h * w == w * h) by (nonlinear_arith);
    assert(0 <= p.y * w) by (nonlinear_arith)
        requires
            0 <= p.y,
            0 <= w,
    ;
    lemma_row_position(p.y as int, w, p.y * w + p.x);
}

/// An empty cell and a single-character cell are one column wide.
pub proof fn lemma_narrow_cells(ch: char, style: crate::style::ResolvedStyle)
    requires
        cell_char_ok(ch),
    ensures
        narrow(empty_cell(style)),
        narrow(char_cell(ch, style)),
{
    if ch != NULL {
        assert(rendered_text_spec(char_cell(ch, style)) =~= seq![ch]);
    }
}

/// Replacing one-column base cells by one-column base cells keeps the
/// layout canonical.
proof fn lemma_replace_narrow(old: Seq<CellView>, new: Seq<CellView>, w: int)
    requires
        0 < w,
        old.len() == new.len(),
        (old.len() as int) % w == 0,
        forall|i: int| 0 <= i < old.len() ==> #[trigger] cell_canonical(old, w, i),
        forall|i: int| 0 <= i < old.len() ==> #[trigger] new[i] == old[i] || (narrow(old[i]) && narrow(new[i])),
    ensures
        forall|i: int| 0 <= i < new.len() ==> #[trigger] cell_canonical(new, w, i),
{
    assert forall|i: int| 0 <= i < new.len() implies #[trigger] cell_canonical(new, w, i) by {
        assert(cell_canonical(old, w, i));
        lemma_div_mod_step(i, w);
        if new[i] == old[i] {
            if old[i].continuation {
                assert(new[i - 1] == old[i - 1] || (narrow(old[i - 1]) && narrow(new[i - 1])));
            } else if rendered_width_spec(old[i]) == 2 {
                super::diff::lemma_index_in_row(i, w, old.len() as int);
                assert(new[i + 1] == old[i + 1] || (narrow(old[i + 1]) && narrow(new[i + 1])));
            }
        }
    }
}

/// Facts about the first cell of a grapheme.
proof fn lemma_gstart(cells: Seq<CellView>, lo: int, x: int)
    requires
        lo <= x,
    ensures
        lo <= gstart(cells, lo, x) <= x,
        gstart(cells, lo, x) == lo || !cells[gstart(cells, lo, x)].continuation,
    decreases x - lo,
{
    if x > lo && cells[x].continuation {
        lemma_gstart(cells, lo, x - 1);
    }
}

/// Facts about the end of a grapheme.
proof fn lemma_gend(cells: Seq<CellView>, hi: int, x: int)
    requires
        x <= hi,
    ensures
        x <= gend(cells, hi, x) <= hi,
        gend(cells, hi, x) == hi || !cells[gend(cells, hi, x)].continuation,
    decreases hi - x,
{
    if x < hi && cells[x].continuation {
        lemma_gend(cells, hi, x + 1);
    }
}

/// Clearing the grapheme at a cell of a row keeps the layout canonical,
/// and leaves that cell empty.
pub(crate) proof fn lemma_clear_at(cells: Seq<CellView>, w: int, y: int, x: int, style: crate::style::ResolvedStyle)
    requires
        0 < w,
        0 <= y,
        (cells.len() as int) % w == 0,
        y * w + w <= cells.len(),
        y * w <= x < y * w + w,
        forall|i: int| 0 <= i < cells.len() ==> #[trigger] cell_canonical(cells, w, i),
    ensures
        clear_at(cells, y * w, y * w + w, x, style).len() == cells.len(),
        forall|i: int| 0 <= i < cells.len() ==> #[trigger] cell_canonical(clear_at(cells, y * w, y * w + w, x, style), w, i),
        clear_at(cells, y * w, y * w + w, x, style)[x] == empty_cell(style),
        forall|i: int| 0 <= i < cells.len() ==>
            #[trigger] clear_at(cells, y * w, y * w + w, x, style)[i] == cells[i]
            || clear_at(cells, y * w, y * w + w, x, style)[i] == empty_cell(style),
{
    let lo = y * w;
    let hi = lo + w;
    let a = gstart(cells, lo, x);
    let b = gend(cells, hi, x + 1);
    lemma_gstart(cells, lo, x);
    lemma_gend(cells, hi, x + 1);
    let new = clear_at(cells, lo, hi, x, style);
    assert(narrow(empty_cell(style)));
    assert forall|i: int| 0 <= i < cells.len() implies #[trigger] cell_canonical(new, w, i) by {
        assert(cell_canonical(cells, w, i));
        lemma_div_mod_step(i, w);
        if a <= i < b {
        } else {
            assert(new[i] == cells[i]);
            if cells[i].continuation {
                if a <= i - 1 < b {
                    assert(i == b);
                    if b == hi {
                        assert((y + 1) * w == y * w + w) by (nonlinear_arith);
                        lemma_row_position(y + 1, w, i);
                    }
                }
                assert(new[i - 1] == cells[i - 1]);
            } else if rendered_width_spec(cells[i]) == 2 {
                super::diff::lemma_index_in_row(i, w, cells.len() as int);
                if a <= i + 1 < b {
                    assert(i + 1 == a);
                    if a == lo {
                        assert(y >= 1);
                        assert((y - 1) * w == lo - w) by (nonlinear_arith)
                            requires
                                lo == y * w,
                        ;
                        lemma_row_position(y - 1, w, i);
                    }
                }
                assert(new[i + 1] == cells[i + 1]);
            }
        }
    }
}

/// Clearing the graphemes touched by a span of cells keeps the layout
/// canonical, and leaves the span empty.
proof fn lemma_clear_span(cells: Seq<CellView>, w: int, y: int, x: int, k: int, style: crate::style::ResolvedStyle)
    requires
        0 < w,
        0 <= y,
        0 <= k,
        (cells.len() as int) % w == 0,
        y * w + w <= cells.len(),
        y * w <= x,
        x + k <= y * w + w,
        forall|i: int| 0 <= i < cells.len() ==> #[trigger] cell_canonical(cells, w, i),
    ensures
        clear_span(cells, y * w, y * w + w, x, k, style).len() == cells.len(),
        forall|i: int| 0 <= i < cells.len() ==> #[trigger] cell_canonical(clear_span(cells, y * w, y * w + w, x, k, style), w, i),
        forall|j: int| x <= j < x + k ==> #[trigger] clear_span(cells, y * w, y * w + w, x, k, style)[j] == empty_cell(style),
    decreases k,
{
    if k > 0 {
        lemma_clear_span(cells, w, y, x, k - 1, style);
        let prev = clear_span(cells, y * w, y * w + w, x, k - 1, style);
        lemma_clear_at(prev, w, y, x + k - 1, style);
        let cur = clear_span(cells, y * w, y * w + w, x, k, style);
        assert forall|j: int| x <= j < x + k implies #[trigger] cur[j] == empty_cell(style) by {
            if j < x + k - 1 {
                assert(prev[j] == empty_cell(style));
            }
        }
    }
}

/// Writing a one-column cell keeps a canonical buffer canonical.
pub proof fn lemma_put_narrow(v: TermBufView, p: Point, c: CellView)
    requires
        sized(v),
        canonical(v),
        narrow(c),
    ensures
        sized(put_spec(v, p, c)),
        canonical(put_spec(v, p, c)),
        put_spec(v, p, c).size == v.size,
{
    match cell_index(v.size, p) {
        Some(i) => {
            lemma_point_row(v, p);
            let w = v.size.w as int;
            let y = p.y as int;
            let cleared = clear_at(v.cells, y * w, y * w + w, i, c.style);
            lemma_clear_at(v.cells, w, y, i, c.style);
            let new = cleared.update(i, c);
            assert(narrow(empty_cell(c.style)));
            lemma_replace_narrow(cleared, new, w);
        },
        None => {},
    }
}


/// The base cell of a grapheme renders as many columns as the grapheme
/// occupies, unless the grapheme is empty or the NUL character alone.
proof fn lemma_grapheme_cell_width(g: Seq<char>, style: ResolvedStyle)
    requires
        g.len() > 0,
        g != seq![NULL],
    ensures
        !grapheme_cell(g, style).continuation,
        rendered_width_spec(grapheme_cell(g, style)) == cell_width(g),
{
    let c = grapheme_cell(g, style);
    if g[0] == NULL && g.drop_first().len() == 0 {
        assert(g =~= seq![NULL]);
    }
    assert(seq![g[0]] + g.drop_first() =~= g);
}

/// Writing a grapheme keeps a canonical buffer canonical, for any grapheme
/// that is not empty and not the NUL character alone.
pub proof fn lemma_put_grapheme(v: TermBufView, p: Point, g: Seq<char>, style: ResolvedStyle)
    requires
        sized(v),
        canonical(v),
        g.len() > 0,
        g != seq![NULL],
    ensures
        sized(put_grapheme_spec(v, p, g, style).0),
        canonical(put_grapheme_spec(v, p, g, style).0),
        put_grapheme_spec(v, p, g, style).0.size == v.size,
{
    let width = cell_width(g);
    if width != 0 {
        if let Some(i) = cell_index(v.size, p) {
            if width <= v.size.w - p.x {
                lemma_point_row(v, p);
                let w = v.size.w as int;
                let y = p.y as int;
                let lo = y * w;
                let c1 = clear_span(v.cells, lo, lo + w, i, width as int, style);
                lemma_clear_span(v.cells, w, y, i, width as int, style);
                let c2 = c1.update(i, grapheme_cell(g, style));
                let c3 = fill_range(c2, i + 1, i + width, continuation_cell(style));
                lemma_grapheme_cell_width(g, style);
                assert(narrow(empty_cell(style)));
                if width == 1 {
                    assert(c3 =~= c2);
                    lemma_replace_narrow(c1, c2, w);
                } else {
                    lemma_div_mod_step(i, w);
                    assert forall|j: int| 0 <= j < c3.len() implies #[trigger] cell_canonical(c3, w, j) by {
                        assert(cell_canonical(c1, w, j));
                        lemma_div_mod_step(j, w);
                        if j != i && j != i + 1 {
                            assert(c3[j] == c1[j]);
                            if c1[j].continuation {
                                assert(c3[j - 1] == c1[j - 1]);
                            } else if rendered_width_spec(c1[j]) == 2 {
                                super::diff::lemma_index_in_row(j, w, c1.len() as int);
                                assert(c3[j + 1] == c1[j + 1]);
                            }
                        }
                    }
                }
            }
        }
    }
}

/// Writing one cell at each of a run of points keeps a canonical buffer
/// canonical, for a one-column cell.
proof fn lemma_fill_row(v: TermBufView, y: u32, x0: int, k: int, c: CellView)
    requires
        sized(v),
        canonical(v),
        narrow(c),
    ensures
        sized(fill_row(v, y, x0, k, c)),
        canonical(fill_row(v, y, x0, k, c)),
        fill_row(v, y, x0, k, c).size == v.size,
    decreases k,
{
    if k > 0 {
        lemma_fill_row(v, y, x0, k - 1, c);
        lemma_put_narrow(fill_row(v, y, x0, k - 1, c), Point { x: (x0 + k - 1) as u32, y }, c);
    }
}

/// Filling rows of a rectangle keeps a canonical buffer canonical, for a
/// one-column cell.
proof fn lemma_fill_rows(v: TermBufView, r: Rect, k: int, c: CellView)
    requires
        sized(v),
        canonical(v),
        narrow(c),
    ensures
        sized(fill_rows(v, r, k, c)),
        canonical(fill_rows(v, r, k, c)),
        fill_rows(v, r, k, c).size == v.size,
    decreases k,
{
    if k > 0 {
        lemma_fill_rows(v, r, k - 1, c);
        lemma_fill_row(fill_rows(v, r, k - 1, c), (r.tl.y + k - 1) as u32, r.tl.x as int, r.w as int, c);
    }
}

/// Filling a rectangle keeps a canonical buffer canonical, for a one-column
/// cell.
proof fn lemma_fill(v: TermBufView, r: Rect, c: CellView)
    requires
        sized(v),
        canonical(v),
        narrow(c),
    ensures
        sized(fill_spec(v, r, c)),
        canonical(fill_spec(v, r, c)),
        fill_spec(v, r, c).size == v.size,
{
    if let Some(i) = rect_intersect(super::buffer_rect(v.size), r) {
        lemma_fill_rows(v, i, i.h as int, c);
    }
}

/// Law: writing a single-column character keeps a canonical buffer
/// canonical.
pub proof fn law_put_keeps_canonical(v: TermBufView, p: Point, ch: char, style: ResolvedStyle)
    requires
        sized(v),
        canonical(v),
        cell_char_ok(ch),
    ensures
        canonical(put_spec(v, p, char_cell(ch, style))),
{
    lemma_narrow_cells(ch, style);
    lemma_put_narrow(v, p, char_cell(ch, style));
}

/// Law: writing a grapheme keeps a canonical buffer canonical, for any
/// grapheme that is not empty and not the NUL character alone.
pub proof fn law_put_grapheme_keeps_canonical(v: TermBufView, p: Point, g: Seq<char>, style: ResolvedStyle)
    requires
        sized(v),
        canonical(v),
        g.len() > 0,
        g != seq![NULL],
    ensures
        canonical(put_grapheme_spec(v, p, g, style).0),
{
    lemma_put_grapheme(v, p, g, style);
}

/// Law: filling a rectangle, or a frame, with a single-column character
/// keeps a canonical buffer canonical.
pub proof fn law_fill_keeps_canonical(v: TermBufView, r: Rect, f: FrameRects, ch: char, style: ResolvedStyle)
    requires
        sized(v),
        canonical(v),
        cell_char_ok(ch),
    ensures
        canonical(fill_spec(v, r, char_cell(ch, style))),
        canonical(solid_frame_spec(v, f, char_cell(ch, style))),
{
    let c = char_cell(ch, style);
    lemma_narrow_cells(ch, style);
    lemma_fill(v, r, c);
    let v1 = fill_spec(v, f.top, c);
    lemma_fill(v, f.top, c);
    let v2 = fill_spec(v1, f.left, c);
    lemma_fill(v1, f.left, c);
    let v3 = fill_spec(v2, f.right, c);
    lemma_fill(v2, f.right, c);
    let v4 = fill_spec(v3, f.bottom, c);
    lemma_fill(v3, f.bottom, c);
    let v5 = fill_spec(v4, f.topleft, c);
    lemma_fill(v4, f.topleft, c);
    let v6 = fill_spec(v5, f.topright, c);
    lemma_fill(v5, f.topright, c);
    let v7 = fill_spec(v6, f.bottomleft, c);
    lemma_fill(v6, f.bottomleft, c);
    lemma_fill(v7, f.bottomright, c);
}

/// Law: filling the empty cells with a single-column character keeps a
/// canonical buffer canonical.
pub proof fn law_fill_empty_keeps_canonical(v: TermBufView, ch: char, style: ResolvedStyle)
    requires
        sized(v),
        canonical(v),
        cell_char_ok(ch),
    ensures
        canonical(fill_empty_spec(v, char_cell(ch, style))),
{
    let c = char_cell(ch, style);
    lemma_narrow_cells(ch, style);
    let new = fill_empty_spec(v, c).cells;
    if v.size.w > 0 {
        assert forall|i: int| 0 <= i < v.cells.len() implies #[trigger] new[i] == v.cells[i] || (narrow(v.cells[i]) && narrow(new[i])) by {
            if cell_is_empty(v.cells[i]) {
                assert(narrow(v.cells[i]));
            }
        }
        lemma_replace_narrow(v.cells, new, v.size.w as int);
    }
}

/// Law: a buffer built filled with a single-column character, or empty, is
/// canonical.
pub proof fn law_new_buffers_are_canonical(size: Size, ch: char, style: ResolvedStyle)
    requires
        cell_char_ok(ch),
    ensures
        canonical(uniform(size, char_cell(ch, style))),
        canonical(uniform(size, empty_cell(style))),
{
    lemma_narrow_cells(ch, style);
    lemma_uniform_narrow(size, char_cell(ch, style));
    lemma_uniform_narrow(size, empty_cell(style));
}

/// A buffer of one one-column cell everywhere is canonical.
proof fn lemma_uniform_narrow(size: Size, c: CellView)
    requires
        narrow(c),
    ensures
        canonical(uniform(size, c)),
        sized(uniform(size, c)),
{
    let v = uniform(size, c);
    let w = size.w as int;
    let h = size.h as int;
    assert(0 <= w * h) by (nonlinear_arith)
        requires
            0 <= w,
            0 <= h,
    ;
    if w == 0 {
        assert(w * h == 0);
    } else {
        vstd::arithmetic::div_mod::lemma_mod_multiples_basic(h, w);
        assert(h * w == w * h) by (nonlinear_arith);
        assert forall|i: int| 0 <= i < v.cells.len() implies #[trigger] cell_canonical(v.cells, w, i) by {
            assert(v.cells[i] == c);
        }
    }
}


/// Restyling whole graphemes keeps the layout canonical.
proof fn lemma_restyle(cells: Seq<CellView>, w: int, y: int, x: int, shape: CursorShape)
    requires
        0 < w,
        0 <= y,
        (cells.len() as int) % w == 0,
        y * w + w <= cells.len(),
        y * w <= x < y * w + w,
        forall|i: int| 0 <= i < cells.len() ==> #[trigger] cell_canonical(cells, w, i),
    ensures
        restyle_range(cells, gstart(cells, y * w, x), gend(cells, y * w + w, x + 1), shape).len() == cells.len(),
        forall|i: int| 0 <= i < cells.len() ==>
            #[trigger] cell_canonical(restyle_range(cells, gstart(cells, y * w, x), gend(cells, y * w + w, x + 1), shape), w, i),
{
    let lo = y * w;
    let hi = lo + w;
    let a = gstart(cells, lo, x);
    let b = gend(cells, hi, x + 1);
    lemma_gstart(cells, lo, x);
    lemma_gend(cells, hi, x + 1);
    let new = restyle_range(cells, a, b, shape);
    assert forall|i: int| 0 <= i < cells.len() implies #[trigger] cell_canonical(new, w, i) by {
        assert(cell_canonical(cells, w, i));
        lemma_div_mod_step(i, w);
        assert(rendered_text_spec(new[i]) == rendered_text_spec(cells[i]));
        if cells[i].continuation {
            assert(rendered_text_spec(new[i - 1]) == rendered_text_spec(cells[i - 1]));
            if a <= i < b && !(a <= i - 1 < b) {
                assert(i == a);
                if a == lo {
                    lemma_row_position(y, w, i);
                }
            }
            if a <= i - 1 < b && !(a <= i < b) {
                assert(i == b);
                if b == hi {
                    assert((y + 1) * w == y * w + w) by (nonlinear_arith);
                    lemma_row_position(y + 1, w, i);
                }
            }
        } else if rendered_width_spec(cells[i]) == 2 {
            super::diff::lemma_index_in_row(i, w, cells.len() as int);
        }
    }
}

/// Law: overlaying a cursor keeps a canonical buffer canonical, given that
/// a space is one column wide.
pub proof fn law_overlay_cursor_keeps_canonical(v: TermBufView, p: Point, shape: CursorShape)
    requires
        sized(v),
        canonical(v),
        cell_width(seq![' ']) == 1,
    ensures
        canonical(overlay_cursor_spec(v, p, shape)),
{
    if let Some(i) = cell_index(v.size, p) {
        lemma_point_row(v, p);
        let w = v.size.w as int;
        let y = p.y as int;
        let space = CellView { ch: ' ', suffix: Seq::empty(), style: v.cells[i].style, continuation: false };
        assert(rendered_text_spec(space) =~= seq![' ']);
        let c0 = if cell_is_empty(v.cells[i]) { v.cells.update(i, space) } else { v.cells };
        if cell_is_empty(v.cells[i]) {
            lemma_replace_narrow(v.cells, c0, w);
        }
        lemma_restyle(c0, w, y, i, shape);
    }
}

/// Laying out graphemes keeps a canonical buffer canonical.
proof fn lemma_text_fold(
    v: TermBufView,
    gs: Seq<Seq<char>>,
    k: int,
    y: u32,
    x0: u32,
    offset: int,
    max: int,
    style: ResolvedStyle,
)
    requires
        sized(v),
        canonical(v),
        cell_width(seq![' ']) == 1,
        0 <= k <= gs.len(),
        forall|j: int| 0 <= j < gs.len() ==> (#[trigger] gs[j]).len() > 0 && gs[j] != seq![NULL],
    ensures
        sized(text_fold(v, gs, k, y, x0, offset, max, style).buf),
        canonical(text_fold(v, gs, k, y, x0, offset, max, style).buf),
        text_fold(v, gs, k, y, x0, offset, max, style).buf.size == v.size,
    decreases k,
{
    if k > 0 {
        lemma_text_fold(v, gs, k - 1, y, x0, offset, max, style);
        let st = text_fold(v, gs, k - 1, y, x0, offset, max, style);
        let g = gs[k - 1];
        lemma_narrow_cells(' ', style);
        let w = cell_width(g) as int;
        let np = st.pos + w;
        let nc = super::min_int(np - offset, max);
        lemma_fill_row(st.buf, y, x0 + st.col, nc - st.col, char_cell(' ', style));
        lemma_put_grapheme(st.buf, Point { x: (x0 + st.col) as u32, y }, g, style);
    }
}

/// Law: drawing text on a line keeps a canonical buffer canonical, given
/// that a space is one column wide and that no grapheme of the text is
/// empty or the NUL character alone.
pub proof fn law_text_keeps_canonical(v: TermBufView, l: Line, txt: Seq<char>, style: ResolvedStyle)
    requires
        sized(v),
        canonical(v),
        cell_width(seq![' ']) == 1,
        forall|j: int| 0 <= j < grapheme_clusters(txt).len() ==>
            (#[trigger] grapheme_clusters(txt)[j]).len() > 0 && grapheme_clusters(txt)[j] != seq![NULL],
    ensures
        canonical(text_spec(v, l, txt, style)),
{
    if let Some(isec) = rect_intersect(super::buffer_rect(v.size), Rect { tl: l.tl, w: l.w, h: 1 }) {
        let offset = isec.tl.x - l.tl.x;
        let max = isec.w as int;
        let gs = grapheme_clusters(txt);
        lemma_text_fold(v, gs, gs.len() as int, isec.tl.y, isec.tl.x, offset, max, style);
        let st = text_fold(v, gs, gs.len() as int, isec.tl.y, isec.tl.x, offset, max, style);
        lemma_narrow_cells(' ', style);
        lemma_fill_row(st.buf, isec.tl.y, isec.tl.x + st.col, max - st.col, char_cell(' ', style));
    }
}

} // verus!
