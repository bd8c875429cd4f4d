//! What a terminal shows after the render operations of a diff.
//!
//! The terminal is modelled as a buffer of cells with a current style: a
//! style operation sets the style, and a text operation writes the text's
//! graphemes one after another from its point, each taking as many cells as
//! it is wide, exactly as the buffer's own grapheme writes do. The laws here
//! show that the operations of a diff, replayed on a terminal that shows the
//! previous buffer, leave it showing the current one.

use vstd::prelude::*;
use crate::geom::Point;
use crate::style::ResolvedStyle;
use crate::text::{cell_width, grapheme_clusters};
use super::canon::{lemma_clear_at, lemma_point_row, lemma_put_grapheme, lemma_row_position, narrow, sized};
use super::diff::{
    buffer_row, canonical, cell_canonical, cell_diff, changed_end, diff_spec, lemma_div_mod_step, line_ops, render_spec, rendered_width_spec,
    line_shift_spec, line_shifted, lemma_shift_search, line_pred, row_diff, rows_diff, rows_ops, run_scan, runs_from, styled_run,
    BackendCaps, OpView, MAX_LINE_SHIFT, MAX_ROW_SHIFT, band_shifted, band_pred, band_row, row_shift_spec, inner_shift_spec,
    vacated_rows_ops,
};
use super::{
    cell_is_empty, clear_at, clear_span, continuation_cell, empty_cell, fill_range, gend, gstart, grapheme_cell,
    put_grapheme_spec, rendered_text_spec, row_text, CellView, TermBufView, NULL,
};

verus! {

/// A terminal: the cells it shows and the style its next text takes.
pub struct Terminal {
    /// The cells shown.
    pub screen: TermBufView,
    /// The style of the next text.
    pub pen: ResolvedStyle,
}

/// Write graphemes along row `y` from column `x`, each at the column after
/// the cells of the one before.
pub open spec fn write_graphemes(screen: TermBufView, y: u32, x: int, gs: Seq<Seq<char>>, pen: ResolvedStyle) -> TermBufView
    decreases gs.len(),
{
    if gs.len() == 0 {
        screen
    } else {
        write_graphemes(
            put_grapheme_spec(screen, Point { x: x as u32, y }, gs[0], pen).0,
            y,
            x + cell_width(gs[0]),
            gs.drop_first(),
            pen,
        )
    }
}

/// Shift the cells of row `p.y` from column `p.x` right by `count` (left
/// when negative); the cells this uncovers are blank.
pub open spec fn shift_chars(s: TermBufView, p: Point, count: int, pen: ResolvedStyle) -> TermBufView {
    let w = s.size.w as int;
    let lo = p.y * w;
    let start = p.x as int;
    if p.y >= s.size.h || start >= w || count == 0 {
        s
    } else {
        TermBufView {
            size: s.size,
            cells: Seq::new(s.cells.len(), |i: int|
                if lo + start <= i < lo + w {
                    if start <= i - lo - count < w {
                        s.cells[i - count]
                    } else {
                        empty_cell(pen)
                    }
                } else {
                    s.cells[i]
                }),
        }
    }
}

/// Shift the whole rows `top..=bottom` down by `count` (up when negative);
/// the rows this uncovers are blank.
pub open spec fn shift_lines(s: TermBufView, top: int, bottom: int, count: int, pen: ResolvedStyle) -> TermBufView {
    let w = s.size.w as int;
    let b = if bottom < s.size.h - 1 { bottom } else { s.size.h - 1 };
    if top > b || count == 0 || w == 0 {
        s
    } else {
        TermBufView {
            size: s.size,
            cells: Seq::new(s.cells.len(), |i: int|
                if top <= i / w <= b {
                    if top <= i / w - count <= b {
                        s.cells[i - count * w]
                    } else {
                        empty_cell(pen)
                    }
                } else {
                    s.cells[i]
                }),
        }
    }
}

/// The terminal after one operation: a style sets the pen, text is written
/// grapheme by grapheme, shifts move cells or rows and blank what they
/// uncover, and a flush changes nothing.
pub open spec fn apply_op(t: Terminal, op: OpView) -> Terminal {
    match op {
        OpView::Style(s) => Terminal { screen: t.screen, pen: s },
        OpView::Text(p, txt) => Terminal {
            screen: write_graphemes(t.screen, p.y, p.x as int, grapheme_clusters(txt), t.pen),
            pen: t.pen,
        },
        OpView::ShiftChars(p, count) => Terminal { screen: shift_chars(t.screen, p, count as int, t.pen), pen: t.pen },
        OpView::ShiftLines(top, bottom, count) => Terminal {
            screen: shift_lines(t.screen, top as int, bottom as int, count as int, t.pen),
            pen: t.pen,
        },
        OpView::Flush => t,
    }
}

/// The terminal after a run of operations, in order.
pub open spec fn replay_ops(t: Terminal, ops: Seq<OpView>) -> Terminal
    decreases ops.len(),
{
    if ops.len() == 0 {
        t
    } else {
        replay_ops(apply_op(t, ops[0]), ops.drop_first())
    }
}

/// Whether two cells look the same on a terminal: the same text, style and
/// continuation flag.
pub open spec fn looks_like(a: CellView, b: CellView) -> bool {
    &&& rendered_text_spec(a) == rendered_text_spec(b)
    &&& a.style == b.style
    &&& a.continuation == b.continuation
}

/// Whether a screen shows a buffer: same size and cells that look the same.
pub open spec fn shows(screen: TermBufView, v: TermBufView) -> bool {
    &&& screen.size == v.size
    &&& screen.cells.len() == v.cells.len()
    &&& forall|i: int| 0 <= i < v.cells.len() ==> #[trigger] looks_like(screen.cells[i], v.cells[i])
}

/// Replaying two runs of operations is replaying their concatenation.
pub proof fn lemma_replay_concat(t: Terminal, a: Seq<OpView>, b: Seq<OpView>)
    ensures
        replay_ops(t, a + b) == replay_ops(replay_ops(t, a), b),
    decreases a.len(),
{
    if a.len() == 0 {
        assert(a + b =~= b);
    } else {
        assert((a + b).drop_first() =~= a.drop_first() + b);
        assert((a + b)[0] == a[0]);
        lemma_replay_concat(apply_op(t, a[0]), a.drop_first(), b);
    }
}

/// The screen after writing the grapheme of one cell at a column of a row,
/// in the cell's style.
pub open spec fn write_cell(s: TermBufView, y: int, q: int, c: CellView) -> TermBufView {
    put_grapheme_spec(s, Point { x: q as u32, y: y as u32 }, rendered_text_spec(c), c.style).0
}

/// The text of a base cell is a grapheme that is neither empty nor the NUL
/// character alone, and takes as many cells as the cell renders.
proof fn lemma_cell_text(c: CellView)
    requires
        !c.continuation,
        cell_width(seq![' ']) == 1,
    ensures
        rendered_text_spec(c).len() > 0,
        rendered_text_spec(c) != seq![NULL],
        cell_width(rendered_text_spec(c)) == rendered_width_spec(c),
        looks_like(grapheme_cell(rendered_text_spec(c), c.style), c),
{
    let g = rendered_text_spec(c);
    if cell_is_empty(c) {
        assert(g =~= seq![' ']);
    } else {
        assert(g =~= seq![c.ch] + c.suffix);
        if c.ch == NULL && c.suffix.len() == 0 {
            assert(false);
        }
        if g == seq![NULL] {
            assert(g[0] == NULL);
            assert(c.suffix =~= g.drop_first());
        }
    }
    assert(seq![g[0]] + g.drop_first() =~= g);
}

/// Clearing the grapheme at a cell that no grapheme straddles into from the
/// left clears that cell and, when it is followed by a continuation, that
/// continuation too.
proof fn lemma_clear_at_boundary(cells: Seq<CellView>, w: int, y: int, x: int, style: ResolvedStyle)
    requires
        0 < w,
        0 <= y,
        y * w + w <= cells.len(),
        y * w <= x < y * w + w,
        !cells[x].continuation,
        forall|i: int| 0 <= i < cells.len() ==> #[trigger] cell_canonical(cells, w, i),
    ensures
        clear_at(cells, y * w, y * w + w, x, style) == fill_range(
            cells,
            x,
            if x + 1 < y * w + w && cells[x + 1].continuation { x + 2 } else { x + 1 },
            empty_cell(style),
        ),
{
    let lo = y * w;
    let hi = lo + w;
    assert(gstart(cells, lo, x) == x);
    if x + 1 < hi && cells[x + 1].continuation {
        assert(cell_canonical(cells, w, x + 1));
        if x + 2 < hi {
            assert(cell_canonical(cells, w, x + 2));
            assert(!cells[x + 2].continuation);
        }
        assert(gend(cells, hi, x + 2) == x + 2);
        assert(gend(cells, hi, x + 1) == x + 2);
    } else {
        assert(gend(cells, hi, x + 1) == x + 1);
    }
}


/// The cell at index `j` after writing the grapheme of cell `c` at column
/// `q` of row `y`: the written base cell, its continuation when wide, a
/// cleared cell where a continuation followed the written span, and
/// otherwise the cell as it was.
pub open spec fn written_cell(s: TermBufView, y: int, q: int, c: CellView, j: int) -> CellView {
    let w = s.size.w as int;
    let i = y * w + q;
    let wd = rendered_width_spec(c);
    if j == i {
        grapheme_cell(rendered_text_spec(c), c.style)
    } else if wd == 2 && j == i + 1 {
        continuation_cell(c.style)
    } else if j == i + wd && q + wd < w && s.cells[j].continuation {
        empty_cell(c.style)
    } else {
        s.cells[j]
    }
}

/// Writing the grapheme of a base cell at a column that no grapheme of the
/// screen straddles into from the left changes exactly the cells that
/// `written_cell` describes, and keeps the screen canonical.
proof fn lemma_write_cell(s: TermBufView, y: int, q: int, c: CellView)
    requires
        sized(s),
        canonical(s),
        0 <= y < s.size.h,
        0 <= q,
        1 <= rendered_width_spec(c),
        q + rendered_width_spec(c) <= s.size.w,
        !s.cells[y * s.size.w + q].continuation,
        !c.continuation,
        cell_width(seq![' ']) == 1,
    ensures
        sized(write_cell(s, y, q, c)),
        canonical(write_cell(s, y, q, c)),
        write_cell(s, y, q, c).size == s.size,
        forall|j: int| 0 <= j < s.cells.len() ==> #[trigger] write_cell(s, y, q, c).cells[j] == written_cell(s, y, q, c, j),
{
    let w = s.size.w as int;
    let p = Point { x: q as u32, y: y as u32 };
    let g = rendered_text_spec(c);
    let style = c.style;
    lemma_cell_text(c);
    lemma_point_row(s, p);
    lemma_put_grapheme(s, p, g, style);
    let lo = y * w;
    let hi = lo + w;
    let i = lo + q;
    let wd = cell_width(g) as int;
    let cells = s.cells;
    let e1 = if i + 1 < hi && cells[i + 1].continuation { i + 2 } else { i + 1 };
    lemma_clear_at_boundary(cells, w, y, i, style);
    let first = fill_range(cells, i, e1, empty_cell(style));
    assert(clear_span(cells, lo, hi, i, 0, style) == cells);
    assert(clear_span(cells, lo, hi, i, 1, style) == first);
    let c1 = clear_span(cells, lo, hi, i, wd, style);
    if wd == 2 {
        lemma_clear_at(cells, w, y, i, style);
        assert(!first[i + 1].continuation);
        let e2 = if i + 2 < hi && first[i + 2].continuation { i + 3 } else { i + 2 };
        lemma_clear_at_boundary(first, w, y, i + 1, style);
        assert(c1 == fill_range(first, i + 1, e2, empty_cell(style)));
    }
    let c2 = c1.update(i, grapheme_cell(g, style));
    let c3 = fill_range(c2, i + 1, i + wd, continuation_cell(style));
    assert(write_cell(s, y, q, c).cells == c3);
    assert forall|j: int| 0 <= j < s.cells.len() implies #[trigger] write_cell(s, y, q, c).cells[j] == written_cell(s, y, q, c, j) by {
        if wd == 2 && j == i + 2 && i + 2 < hi && cells[i + 1].continuation {
            assert(cell_canonical(cells, w, i + 2));
        }
    }
}


/// The graphemes of the base cells `a..b` of a row, in order.
pub open spec fn base_texts(row: Seq<CellView>, a: int, b: int) -> Seq<Seq<char>>
    decreases b - a,
{
    if a >= b {
        Seq::empty()
    } else if row[a].continuation {
        base_texts(row, a + 1, b)
    } else {
        seq![rendered_text_spec(row[a])] + base_texts(row, a + 1, b)
    }
}

/// Whether column `a` of a row of width `w` starts a grapheme or ends the
/// row.
pub open spec fn aligned(row: Seq<CellView>, w: int, a: int) -> bool {
    a == w || (0 <= a < w && !row[a].continuation)
}

/// The cells of row `y` of a canonical buffer are laid out canonically.
proof fn lemma_row_canonical(v: TermBufView, y: int, j: int)
    requires
        sized(v),
        canonical(v),
        0 <= y < v.size.h,
        0 <= j < v.size.w,
    ensures
        buffer_row(v, y)[j] == v.cells[y * v.size.w + j],
        cell_canonical(v.cells, v.size.w as int, y * v.size.w + j),
        (y * v.size.w + j) % (v.size.w as int) == j,
        y * v.size.w + v.size.w <= v.cells.len(),
        0 <= y * v.size.w,
{
    lemma_point_row(v, Point { x: j as u32, y: y as u32 });
}

/// Writing the graphemes of an aligned segment of a row of a canonical
/// buffer, in one style shared by the segment, onto a canonical screen
/// where no grapheme straddles into the segment from the left: the segment
/// then looks like the buffer's, a continuation that followed the segment
/// is cleared, and every other cell stays.
proof fn lemma_write_segment(s: TermBufView, cur: TermBufView, y: int, a: int, b: int, pen: ResolvedStyle)
    requires
        sized(s),
        canonical(s),
        sized(cur),
        canonical(cur),
        s.size == cur.size,
        0 <= y < cur.size.h,
        0 <= a <= b <= cur.size.w,
        aligned(buffer_row(cur, y), cur.size.w as int, a),
        aligned(buffer_row(cur, y), cur.size.w as int, b),
        a < b ==> !s.cells[y * cur.size.w + a].continuation,
        forall|j: int| a <= j < b ==> (#[trigger] buffer_row(cur, y)[j]).style == pen,
        cell_width(seq![' ']) == 1,
    ensures
        sized(write_graphemes(s, y as u32, a, base_texts(buffer_row(cur, y), a, b), pen)),
        canonical(write_graphemes(s, y as u32, a, base_texts(buffer_row(cur, y), a, b), pen)),
        write_graphemes(s, y as u32, a, base_texts(buffer_row(cur, y), a, b), pen).size == s.size,
        forall|j: int| a <= j < b ==> #[trigger] looks_like(
            write_graphemes(s, y as u32, a, base_texts(buffer_row(cur, y), a, b), pen).cells[y * cur.size.w + j],
            buffer_row(cur, y)[j],
        ),
        forall|k: int| 0 <= k < s.cells.len() && !(y * cur.size.w + a <= k < y * cur.size.w + b)
            && !(k == y * cur.size.w + b && b < cur.size.w) ==>
            #[trigger] write_graphemes(s, y as u32, a, base_texts(buffer_row(cur, y), a, b), pen).cells[k] == s.cells[k],
        b < cur.size.w ==> write_graphemes(s, y as u32, a, base_texts(buffer_row(cur, y), a, b), pen).cells[y * cur.size.w + b]
            == (if a < b && s.cells[y * cur.size.w + b].continuation { empty_cell(pen) } else { s.cells[y * cur.size.w + b] }),
    decreases b - a,
{
    let w = cur.size.w as int;
    let row = buffer_row(cur, y);
    let gs = base_texts(row, a, b);
    if a < b {
        lemma_row_canonical(cur, y, a);
        let lo = y * w;
        let c = row[a];
        let wd = rendered_width_spec(c);
        lemma_cell_text(c);
        assert(gs[0] == rendered_text_spec(c));
        assert(gs.drop_first() =~= base_texts(row, a + 1, b));
        lemma_write_cell(s, y, a, c);
        let s1 = write_cell(s, y, a, c);
        lemma_div_mod_step(lo + a, w);
        let na = a + wd;
        if wd == 2 {
            lemma_row_canonical(cur, y, a + 1);
            assert(base_texts(row, a + 1, b) == base_texts(row, a + 2, b));
            if a + 2 < w {
                lemma_row_canonical(cur, y, a + 2);
            }
        } else if a + 1 < w {
            lemma_row_canonical(cur, y, a + 1);
        }
        assert(aligned(row, w, na));
        assert(na <= b);
        lemma_write_segment(s1, cur, y, na, b, pen);
        let s2 = write_graphemes(s1, y as u32, na, base_texts(row, na, b), pen);
        assert(write_graphemes(s, y as u32, a, gs, pen) == s2);
        assert forall|j: int| a <= j < b implies #[trigger] looks_like(s2.cells[lo + j], row[j]) by {
            if j < na {
                assert(s1.cells[lo + j] == written_cell(s, y, a, c, lo + j));
                if j == a + 1 {
                    lemma_row_canonical(cur, y, a + 1);
                }
            }
        }
        assert forall|k: int| 0 <= k < s.cells.len() && !(lo + a <= k < lo + b) && !(k == lo + b && b < w)
            implies #[trigger] s2.cells[k] == s.cells[k] by {
            assert(s1.cells[k] == written_cell(s, y, a, c, k));
        }
        if b < w {
            assert(s1.cells[lo + b] == written_cell(s, y, a, c, lo + b));
        }
    }
}


/// The text of the cells `a..b` of a row, concatenated.
pub open spec fn segment_text(row: Seq<CellView>, a: int, b: int) -> Seq<char> {
    row_text(row, a, b - a)
}

/// Whether splitting the text of any stretch of a row that starts and ends
/// at grapheme boundaries into grapheme clusters gives back the graphemes
/// of its cells: no two neighbouring cells' graphemes join into one.
pub open spec fn graphemes_stay_apart(v: TermBufView) -> bool {
    forall|y: int, a: int, b: int|
        0 <= y < v.size.h && 0 <= a < b <= v.size.w && aligned(buffer_row(v, y), v.size.w as int, a)
            && aligned(buffer_row(v, y), v.size.w as int, b)
            ==> #[trigger] grapheme_clusters(segment_text(buffer_row(v, y), a, b)) == base_texts(buffer_row(v, y), a, b)
}

/// Replaying two operations applies one after the other.
proof fn lemma_replay_two(t: Terminal, a: OpView, b: OpView)
    ensures
        replay_ops(t, seq![a, b]) == apply_op(apply_op(t, a), b),
{
    let t1 = apply_op(t, a);
    let t2 = apply_op(t1, b);
    assert(seq![a, b].drop_first() =~= seq![b]);
    assert(seq![b].drop_first() =~= Seq::<OpView>::empty());
    assert(replay_ops(t2, Seq::<OpView>::empty()) == t2);
    assert(replay_ops(t1, seq![b]) == replay_ops(t2, seq![b].drop_first()));
    assert(replay_ops(t, seq![a, b]) == replay_ops(t1, seq![a, b].drop_first()));
}

/// Scanning a styled run from a grapheme boundary stops at a later grapheme
/// boundary no further than the end, having collected the text of the
/// cells it passed, all of which share the run's style.
proof fn lemma_run_scan(
    cur: TermBufView,
    y: int,
    style: ResolvedStyle,
    end: int,
    start: int,
    x: int,
    text: Seq<char>,
    split: bool,
)
    requires
        sized(cur),
        canonical(cur),
        0 <= y < cur.size.h,
        0 <= start <= x <= end <= cur.size.w,
        start < end,
        aligned(buffer_row(cur, y), cur.size.w as int, end),
        text == segment_text(buffer_row(cur, y), start, x),
        forall|j: int| start <= j < x ==> (#[trigger] buffer_row(cur, y)[j]).style == style,
        x == start ==> !split,
        x > start && split ==> rendered_width_spec(buffer_row(cur, y)[x - 1]) > 1 || buffer_row(cur, y)[x - 1].continuation,
        x == start ==> buffer_row(cur, y)[start].style == style && aligned(buffer_row(cur, y), cur.size.w as int, start),
    ensures
        x < run_scan(buffer_row(cur, y), style, end, x, text, split).0 || (x > start && x == run_scan(buffer_row(cur, y), style, end, x, text, split).0),
        run_scan(buffer_row(cur, y), style, end, x, text, split).0 <= end,
        aligned(buffer_row(cur, y), cur.size.w as int, run_scan(buffer_row(cur, y), style, end, x, text, split).0),
        run_scan(buffer_row(cur, y), style, end, x, text, split).1
            == segment_text(buffer_row(cur, y), start, run_scan(buffer_row(cur, y), style, end, x, text, split).0),
        forall|j: int| start <= j < run_scan(buffer_row(cur, y), style, end, x, text, split).0
            ==> (#[trigger] buffer_row(cur, y)[j]).style == style,
    decreases end - x,
{
    let row = buffer_row(cur, y);
    let w = cur.size.w as int;
    if x >= end {
    } else {
        lemma_row_canonical(cur, y, x);
        if split {
            if row[x].continuation {
                assert(row_text(row, start, x + 1 - start) =~= text + rendered_text_spec(row[x]));
                assert(rendered_text_spec(row[x]) =~= Seq::<char>::empty());
                lemma_run_scan(cur, y, style, end, start, x + 1, text, true);
            }
        } else if row[x].style != style {
            if row[x].continuation {
                assert(x > start);
                lemma_row_canonical(cur, y, x - 1);
            }
        } else {
            assert(row_text(row, start, x + 1 - start) == text + rendered_text_spec(row[x]));
            if x + 1 < w {
                lemma_row_canonical(cur, y, x + 1);
            }
            if row[x].continuation && x + 1 < end && !row[x + 1].continuation {
            }
            lemma_run_scan(cur, y, style, end, start, x + 1, text + rendered_text_spec(row[x]), rendered_width_spec(row[x]) > 1);
        }
    }
}


/// The text of cells starting at a base cell is not empty.
proof fn lemma_row_text_nonempty(cells: Seq<CellView>, lo: int, k: int)
    requires
        k >= 1,
        !cells[lo].continuation,
        cell_width(seq![' ']) == 1,
    ensures
        row_text(cells, lo, k).len() > 0,
    decreases k,
{
    if k == 1 {
        lemma_cell_text(cells[lo]);
    } else {
        lemma_row_text_nonempty(cells, lo, k - 1);
    }
}

/// Replaying the styled runs that render the cells `x..end` of a row of a
/// canonical buffer whose graphemes stay apart, onto a canonical screen
/// where no grapheme straddles into column `x` from the left: the cells
/// then look like the buffer's, a continuation that followed them is
/// cleared, and every other cell stays.
proof fn lemma_runs(t: Terminal, cur: TermBufView, y: int, x: int, end: int)
    requires
        sized(t.screen),
        canonical(t.screen),
        sized(cur),
        canonical(cur),
        t.screen.size == cur.size,
        graphemes_stay_apart(cur),
        cell_width(seq![' ']) == 1,
        0 <= y < cur.size.h,
        0 <= x < end <= cur.size.w,
        aligned(buffer_row(cur, y), cur.size.w as int, x),
        aligned(buffer_row(cur, y), cur.size.w as int, end),
        !t.screen.cells[y * cur.size.w + x].continuation,
    ensures
        sized(replay_ops(t, runs_from(buffer_row(cur, y), y as u32, x, end)).screen),
        canonical(replay_ops(t, runs_from(buffer_row(cur, y), y as u32, x, end)).screen),
        replay_ops(t, runs_from(buffer_row(cur, y), y as u32, x, end)).screen.size == cur.size,
        forall|j: int| x <= j < end ==> #[trigger] looks_like(
            replay_ops(t, runs_from(buffer_row(cur, y), y as u32, x, end)).screen.cells[y * cur.size.w + j],
            buffer_row(cur, y)[j],
        ),
        forall|k: int| 0 <= k < t.screen.cells.len() && !(y * cur.size.w + x <= k < y * cur.size.w + end)
            && !(k == y * cur.size.w + end && end < cur.size.w) ==>
            #[trigger] replay_ops(t, runs_from(buffer_row(cur, y), y as u32, x, end)).screen.cells[k] == t.screen.cells[k],
        end < cur.size.w ==> replay_ops(t, runs_from(buffer_row(cur, y), y as u32, x, end)).screen.cells[y * cur.size.w + end]
            == (if t.screen.cells[y * cur.size.w + end].continuation {
                empty_cell(buffer_row(cur, y)[end - 1].style)
            } else {
                t.screen.cells[y * cur.size.w + end]
            }),
    decreases end - x,
{
    let w = cur.size.w as int;
    let lo = y * w;
    let row = buffer_row(cur, y);
    let style = row[x].style;
    assert(row_text(row, x, 0) =~= Seq::<char>::empty());
    lemma_run_scan(cur, y, style, end, x, x, Seq::empty(), false);
    let scan = run_scan(row, style, end, x, Seq::empty(), false);
    let stop = scan.0;
    lemma_row_canonical(cur, y, x);
    lemma_row_text_nonempty(row, x, stop - x);
    let text = scan.1;
    let run = styled_run(row, y as u32, x, end);
    assert(run.0 == seq![OpView::Style(style), OpView::Text(Point { x: x as u32, y: y as u32 }, text)]);
    assert(run.1 == stop);
    lemma_replay_two(t, OpView::Style(style), OpView::Text(Point { x: x as u32, y: y as u32 }, text));
    assert(grapheme_clusters(segment_text(row, x, stop)) == base_texts(row, x, stop));
    lemma_write_segment(t.screen, cur, y, x, stop, style);
    let t1 = replay_ops(t, run.0);
    assert(t1.screen == write_graphemes(t.screen, y as u32, x, base_texts(row, x, stop), style));
    if stop < end {
        lemma_replay_concat(t, run.0, runs_from(row, y as u32, stop, end));
        lemma_row_canonical(cur, y, stop);
        lemma_runs(t1, cur, y, stop, end);
    }
}


/// Cells that look the same render the same number of columns.
proof fn lemma_looks_like_width(a: CellView, b: CellView)
    requires
        looks_like(a, b),
        cell_width(seq![' ']) == 1,
    ensures
        rendered_width_spec(a) == rendered_width_spec(b),
{
    if !a.continuation {
        if cell_is_empty(a) {
            assert(rendered_text_spec(a) =~= seq![' ']);
        }
        if cell_is_empty(b) {
            assert(rendered_text_spec(b) =~= seq![' ']);
        }
    }
}

/// The end of a run of changed cells of one style lies between its start
/// and the end of the row.
proof fn lemma_changed_end(cur: Seq<CellView>, prev: Seq<CellView>, style: ResolvedStyle, z: int)
    requires
        0 <= z <= cur.len(),
    ensures
        z <= changed_end(cur, prev, style, z) <= cur.len(),
    decreases cur.len() - z,
{
    if 0 <= z < cur.len() && cur[z] != prev[z] && cur[z].style == style {
        lemma_changed_end(cur, prev, style, z + 1);
    }
}

/// Facts about the end of a grapheme within a row.
proof fn lemma_row_gend(cells: Seq<CellView>, hi: int, x: int)
    requires
        x <= hi,
    ensures
        x <= gend(cells, hi, x) <= hi,
        gend(cells, hi, x) == hi || !cells[gend(cells, hi, x)].continuation,
        gend(cells, hi, gend(cells, hi, x)) == gend(cells, hi, x),
    decreases hi - x,
{
    if x < hi && cells[x].continuation {
        lemma_row_gend(cells, hi, x + 1);
    }
}

/// The state of a row while its changed cells are redrawn from column `x`:
/// the columns before `x` look like the current row, and each later column
/// looks like the previous row or is a one-column base where the rows
/// differ.
pub open spec fn redraw_state(screen: TermBufView, cur: TermBufView, prev: TermBufView, y: int, x: int) -> bool {
    let w = cur.size.w as int;
    let lo = y * w;
    &&& forall|j: int| 0 <= j < x ==> #[trigger] looks_like(screen.cells[lo + j], buffer_row(cur, y)[j])
    &&& forall|j: int| x <= j < w ==> #[trigger] looks_like(screen.cells[lo + j], buffer_row(prev, y)[j])
        || (buffer_row(cur, y)[j] != buffer_row(prev, y)[j] && narrow(screen.cells[lo + j]))
}

/// Replaying the redraw of the changed cells of a row from column `x`
/// leaves the whole row looking like the current one and the other rows as
/// they were.
proof fn lemma_cell_diff(t: Terminal, cur: TermBufView, prev: TermBufView, y: int, x: int)
    requires
        sized(t.screen),
        canonical(t.screen),
        sized(cur),
        canonical(cur),
        sized(prev),
        canonical(prev),
        cur.size == prev.size,
        t.screen.size == cur.size,
        graphemes_stay_apart(cur),
        cell_width(seq![' ']) == 1,
        0 <= y < cur.size.h,
        0 <= x <= cur.size.w,
        redraw_state(t.screen, cur, prev, y, x),
    ensures
        sized(replay_ops(t, cell_diff(buffer_row(cur, y), buffer_row(prev, y), y as u32, x).0).screen),
        canonical(replay_ops(t, cell_diff(buffer_row(cur, y), buffer_row(prev, y), y as u32, x).0).screen),
        replay_ops(t, cell_diff(buffer_row(cur, y), buffer_row(prev, y), y as u32, x).0).screen.size == cur.size,
        redraw_state(replay_ops(t, cell_diff(buffer_row(cur, y), buffer_row(prev, y), y as u32, x).0).screen, cur, prev, y, cur.size.w as int),
        forall|k: int| 0 <= k < t.screen.cells.len() && !(y * cur.size.w <= k < y * cur.size.w + cur.size.w) ==>
            #[trigger] replay_ops(t, cell_diff(buffer_row(cur, y), buffer_row(prev, y), y as u32, x).0).screen.cells[k] == t.screen.cells[k],
    decreases cur.size.w - x,
{
    let w = cur.size.w as int;
    let lo = y * w;
    let c = buffer_row(cur, y);
    let p = buffer_row(prev, y);
    let r = t.screen.cells;
    let h = cur.size.h as int;
    assert(0 <= y * w && y * w + w <= w * h) by (nonlinear_arith)
        requires
            0 <= y < h,
            0 <= w,
    ;
    assert(c.len() == w);
    if x < w {
        lemma_row_canonical(cur, y, x);
        lemma_row_canonical(prev, y, x);
        lemma_row_canonical(t.screen, y, x);
        if c[x] == p[x] {
            assert(looks_like(r[lo + x], c[x]));
            assert(cell_diff(c, p, y as u32, x) == cell_diff(c, p, y as u32, x + 1));
            lemma_cell_diff(t, cur, prev, y, x + 1);
        } else {
            let s = gstart(c, 0, x);
            if c[x].continuation {
                lemma_row_canonical(cur, y, x - 1);
                assert(gstart(c, 0, x - 1) == x - 1);
            }
            let style = c[s].style;
            lemma_changed_end(c, p, style, x + 1);
            lemma_changed_end(c, p, style, x);
            let ce = changed_end(c, p, style, x);
            assert(ce == changed_end(c, p, style, x + 1));
            lemma_row_gend(c, w, ce);
            let e = gend(c, w, ce);
            assert(line_ops(c, y as u32, s, e - s) == runs_from(c, y as u32, s, e));
            if c[x].continuation {
                assert(s == x - 1);
                let j = x - 1;
                assert(looks_like(r[lo + j], c[j]));
                assert(!r[lo + s].continuation);
            } else {
                assert(s == x);
                if r[lo + x].continuation {
                    let j = x - 1;
                    lemma_row_canonical(t.screen, y, j);
                    lemma_row_canonical(cur, y, j);
                    assert(looks_like(r[lo + j], c[j]));
                    lemma_looks_like_width(r[lo + j], c[j]);
                    assert(rendered_width_spec(c[j]) == 2);
                    assert(false);
                }
            }
            assert(!r[lo + s].continuation);
            if e < w {
                lemma_row_canonical(cur, y, e);
                lemma_row_canonical(prev, y, e);
                lemma_row_canonical(t.screen, y, e);
            }
            lemma_runs(t, cur, y, s, e);
            let t1 = replay_ops(t, runs_from(c, y as u32, s, e));
            let r1 = t1.screen.cells;
            if e < w && r[lo + e].continuation {
                lemma_row_canonical(t.screen, y, e - 1);
                lemma_row_canonical(prev, y, e - 1);
                assert(looks_like(r[lo + e - 1], p[e - 1]) || (c[e - 1] != p[e - 1] && narrow(r[lo + e - 1])));
                if looks_like(r[lo + e - 1], p[e - 1]) {
                    lemma_looks_like_width(r[lo + e - 1], p[e - 1]);
                }
                assert(c[e] != p[e]);
            }
            assert forall|j: int| 0 <= j < e implies #[trigger] looks_like(r1[lo + j], c[j]) by {
                if j < s {
                    assert(r1[lo + j] == r[lo + j]);
                }
            }
            assert forall|j: int| e <= j < w implies #[trigger] looks_like(r1[lo + j], p[j])
                || (c[j] != p[j] && narrow(r1[lo + j])) by {
                if j > e {
                    assert(r1[lo + j] == r[lo + j]);
                }
            }
            assert(redraw_state(t1.screen, cur, prev, y, e));
            assert(x < e && s < e && e <= w);
            assert(cell_diff(c, p, y as u32, x).0 == line_ops(c, y as u32, s, e - s) + cell_diff(c, p, y as u32, e).0);
            lemma_replay_concat(t, runs_from(c, y as u32, s, e), cell_diff(c, p, y as u32, e).0);
            lemma_cell_diff(t1, cur, prev, y, e);
            assert(replay_ops(t, cell_diff(c, p, y as u32, x).0) == replay_ops(t1, cell_diff(c, p, y as u32, e).0));
        }
    } else {
        assert(cell_diff(c, p, y as u32, x).0 == Seq::<OpView>::empty());
        assert(replay_ops(t, Seq::<OpView>::empty()) == t);
    }
}


/// Replaying the redraw of rows `y0..h` onto a screen whose earlier rows
/// look like the current buffer and whose later rows look like the previous
/// one leaves it showing the current buffer.
proof fn lemma_rows_diff(t: Terminal, cur: TermBufView, prev: TermBufView, y0: int, can_shift: bool)
    requires
        sized(t.screen),
        canonical(t.screen),
        sized(cur),
        canonical(cur),
        sized(prev),
        canonical(prev),
        cur.size == prev.size,
        t.screen.size == cur.size,
        graphemes_stay_apart(cur),
        cell_width(seq![' ']) == 1,
        0 <= y0 <= cur.size.h,
        forall|i: int| 0 <= i < y0 * cur.size.w ==> #[trigger] looks_like(t.screen.cells[i], cur.cells[i]),
        forall|i: int| y0 * cur.size.w <= i < cur.cells.len() ==> #[trigger] looks_like(t.screen.cells[i], prev.cells[i]),
    ensures
        shows(replay_ops(t, rows_diff(cur, prev, y0, cur.size.h as int, can_shift).0).screen, cur),
        sized(replay_ops(t, rows_diff(cur, prev, y0, cur.size.h as int, can_shift).0).screen),
        canonical(replay_ops(t, rows_diff(cur, prev, y0, cur.size.h as int, can_shift).0).screen),
    decreases cur.size.h - y0,
{
    let w = cur.size.w as int;
    let h = cur.size.h as int;
    if y0 >= h {
        assert(y0 * w == w * h) by (nonlinear_arith)
            requires
                y0 == h,
        ;
        assert(rows_diff(cur, prev, y0, h, can_shift).0 == Seq::<OpView>::empty());
        assert(replay_ops(t, Seq::<OpView>::empty()) == t);
    } else {
        let lo = y0 * w;
        assert(0 <= lo && lo + w <= w * h && (y0 + 1) * w == lo + w) by (nonlinear_arith)
            requires
                0 <= y0 < h,
                0 <= w,
                lo == y0 * w,
        ;
        let c = buffer_row(cur, y0);
        let p = buffer_row(prev, y0);
        let rest = rows_diff(cur, prev, y0 + 1, h, can_shift);
        let here = row_diff(c, p, y0 as u32, can_shift);
        assert(rows_diff(cur, prev, y0, h, can_shift).0 == here.0 + rest.0);
        if c == p {
            assert(here.0 == Seq::<OpView>::empty());
            assert(here.0 + rest.0 =~= rest.0);
            assert forall|i: int| 0 <= i < (y0 + 1) * w implies #[trigger] looks_like(t.screen.cells[i], cur.cells[i]) by {
                if i >= lo {
                    assert(cur.cells[i] == c[i - lo]);
                    assert(prev.cells[i] == p[i - lo]);
                }
            }
            lemma_rows_diff(t, cur, prev, y0 + 1, can_shift);
        } else {
            assert forall|j: int| 0 <= j < w implies #[trigger] looks_like(t.screen.cells[lo + j], p[j]) by {
                assert(looks_like(t.screen.cells[lo + j], prev.cells[lo + j]));
            }
            let max = if (MAX_LINE_SHIFT as int) < w - 1 { MAX_LINE_SHIFT as int } else { w - 1 };
            lemma_shift_search(line_pred(c, p), 1, max);
            let detected = if can_shift { line_shift_spec(c, p, MAX_LINE_SHIFT as int) } else { None };
            let shifted = match detected {
                Some(shift) => 0 < (if shift > 0 { shift } else { -shift }) < w,
                None => false,
            };
            if shifted {
                let shift = detected.unwrap();
                assert(here.0 == char_shift_ops(c, y0 as u32, shift));
                lemma_char_shift_row(t, cur, prev, y0, shift);
            } else {
                assert(here.0 == cell_diff(c, p, y0 as u32, 0).0);
                assert forall|j: int| 0 <= j < w implies #[trigger] looks_like(t.screen.cells[lo + j], p[j])
                    || (c[j] != p[j] && narrow(t.screen.cells[lo + j])) by {
                    assert(looks_like(t.screen.cells[lo + j], p[j]));
                }
                assert(redraw_state(t.screen, cur, prev, y0, 0));
                lemma_cell_diff(t, cur, prev, y0, 0);
                let t2 = replay_ops(t, here.0);
                assert forall|j: int| 0 <= j < w implies #[trigger] looks_like(t2.screen.cells[lo + j], c[j]) by {
                    assert(redraw_state(t2.screen, cur, prev, y0, w));
                }
            }
            let t1 = replay_ops(t, here.0);
            lemma_replay_concat(t, here.0, rest.0);
            assert forall|i: int| 0 <= i < (y0 + 1) * w implies #[trigger] looks_like(t1.screen.cells[i], cur.cells[i]) by {
                if i >= lo {
                    let j = i - lo;
                    assert(looks_like(t1.screen.cells[lo + j], c[j]));
                } else {
                    assert(t1.screen.cells[i] == t.screen.cells[i]);
                }
            }
            assert forall|i: int| (y0 + 1) * w <= i < cur.cells.len() implies #[trigger] looks_like(t1.screen.cells[i], prev.cells[i]) by {
                assert(t1.screen.cells[i] == t.screen.cells[i]);
            }
            lemma_rows_diff(t1, cur, prev, y0 + 1, can_shift);
        }
    }
}

/// Replaying the full redraw of rows `y0..h` onto a canonical screen of the
/// same size whose earlier rows look like the buffer leaves it showing the
/// buffer.
proof fn lemma_rows_ops(t: Terminal, cur: TermBufView, y0: int)
    requires
        sized(t.screen),
        canonical(t.screen),
        sized(cur),
        canonical(cur),
        t.screen.size == cur.size,
        graphemes_stay_apart(cur),
        cell_width(seq![' ']) == 1,
        0 <= y0 <= cur.size.h,
        forall|i: int| 0 <= i < y0 * cur.size.w ==> #[trigger] looks_like(t.screen.cells[i], cur.cells[i]),
    ensures
        shows(replay_ops(t, rows_ops(cur, y0, cur.size.h as int, 0, cur.size.w as int)).screen, cur),
        sized(replay_ops(t, rows_ops(cur, y0, cur.size.h as int, 0, cur.size.w as int)).screen),
        canonical(replay_ops(t, rows_ops(cur, y0, cur.size.h as int, 0, cur.size.w as int)).screen),
    decreases cur.size.h - y0,
{
    let w = cur.size.w as int;
    let h = cur.size.h as int;
    if y0 >= h {
        assert(y0 * w == w * h) by (nonlinear_arith)
            requires
                y0 == h,
        ;
        assert(rows_ops(cur, y0, h, 0, w) == Seq::<OpView>::empty());
        assert(replay_ops(t, Seq::<OpView>::empty()) == t);
    } else {
        let lo = y0 * w;
        assert(0 <= lo && lo + w <= w * h && (y0 + 1) * w == lo + w) by (nonlinear_arith)
            requires
                0 <= y0 < h,
                0 <= w,
                lo == y0 * w,
        ;
        let c = buffer_row(cur, y0);
        let here = line_ops(c, y0 as u32, 0, w);
        let rest = rows_ops(cur, y0 + 1, h, 0, w);
        assert(rows_ops(cur, y0, h, 0, w) == here + rest);
        if w == 0 {
            assert(here == Seq::<OpView>::empty());
            assert(here + rest =~= rest);
            lemma_rows_ops(t, cur, y0 + 1);
        } else {
            lemma_row_canonical(cur, y0, 0);
            lemma_row_canonical(t.screen, y0, 0);
            lemma_row_gend(c, w, w);
            assert(gstart(c, 0, 0) == 0);
            assert(here == runs_from(c, y0 as u32, 0, w));
            lemma_runs(t, cur, y0, 0, w);
            let t1 = replay_ops(t, here);
            lemma_replay_concat(t, here, rest);
            assert forall|i: int| 0 <= i < (y0 + 1) * w implies #[trigger] looks_like(t1.screen.cells[i], cur.cells[i]) by {
                if i >= lo {
                    let j = i - lo;
                    assert(looks_like(t1.screen.cells[lo + j], c[j]));
                } else {
                    assert(t1.screen.cells[i] == t.screen.cells[i]);
                }
            }
            lemma_rows_ops(t1, cur, y0 + 1);
        }
    }
}

/// Law: replaying the operations of a diff on a terminal that shows the
/// previous buffer (or, when the size changed, on any canonical terminal
/// screen of the new size) leaves the terminal showing the current buffer.
/// Both buffers are canonical, a space is one column wide, and splitting the
/// text of any stretch of a row of the current buffer gives back its cells'
/// graphemes. For a backend that shifts lines, a shift of the whole screen
/// is covered; a shift of the inside of a frame is not, since it moves the
/// frame's side cells with the rows and leaves those of the uncovered rows
/// blank.
pub proof fn law_diff_replays_to_current(t: Terminal, cur: TermBufView, prev: TermBufView, caps: BackendCaps)
    requires
        sized(cur),
        canonical(cur),
        sized(prev),
        canonical(prev),
        sized(t.screen),
        canonical(t.screen),
        caps.line_shift && cur.size == prev.size ==> row_shift_spec(cur, prev, MAX_ROW_SHIFT as int) is Some
            || inner_shift_spec(cur, prev, MAX_ROW_SHIFT as int) is None,
        graphemes_stay_apart(cur),
        cell_width(seq![' ']) == 1,
        cur.size == prev.size ==> shows(t.screen, prev),
        cur.size != prev.size ==> t.screen.size == cur.size,
    ensures
        shows(replay_ops(t, diff_spec(cur, prev, caps)).screen, cur),
{
    let h = cur.size.h as int;
    let w = cur.size.w as int;
    if cur.size != prev.size {
        assert(0 * cur.size.w == 0);
        lemma_rows_ops(t, cur, 0);
        let ops = rows_ops(cur, 0, h, 0, cur.size.w as int);
        let t1 = replay_ops(t, ops);
        if h > 0 {
            lemma_replay_concat(t, ops, seq![OpView::Flush]);
            assert(seq![OpView::Flush].drop_first() =~= Seq::<OpView>::empty());
            assert(replay_ops(apply_op(t1, OpView::Flush), Seq::<OpView>::empty()) == t1);
        } else {
            assert(ops + Seq::<OpView>::empty() =~= ops);
        }
    } else if caps.line_shift && row_shift_spec(cur, prev, MAX_ROW_SHIFT as int) is Some {
        let shift = row_shift_spec(cur, prev, MAX_ROW_SHIFT as int).unwrap();
        let hm2 = if h >= 2 { h - 2 } else { 0 };
        let max = if (MAX_ROW_SHIFT as int) < hm2 { MAX_ROW_SHIFT as int } else { hm2 };
        lemma_shift_search(band_pred(cur, prev, 0, 0, w, h), 1, max);
        lemma_row_shift_replays(t, cur, prev, shift);
        let ops = seq![OpView::ShiftLines(0, (h - 1) as u32, shift as i32)] + vacated_rows_ops(cur, shift, 0, h, 0, w);
        let t1 = replay_ops(t, ops);
        assert(diff_spec(cur, prev, caps) == ops + seq![OpView::Flush]);
        lemma_replay_concat(t, ops, seq![OpView::Flush]);
        assert(seq![OpView::Flush].drop_first() =~= Seq::<OpView>::empty());
        assert(replay_ops(apply_op(t1, OpView::Flush), Seq::<OpView>::empty()) == t1);
    } else {
        assert(0 * cur.size.w == 0);
        lemma_rows_diff(t, cur, prev, 0, caps.char_shift);
        let d = rows_diff(cur, prev, 0, h, caps.char_shift);
        let t1 = replay_ops(t, d.0);
        if d.1 {
            lemma_replay_concat(t, d.0, seq![OpView::Flush]);
            assert(seq![OpView::Flush].drop_first() =~= Seq::<OpView>::empty());
            assert(replay_ops(apply_op(t1, OpView::Flush), Seq::<OpView>::empty()) == t1);
        } else {
            assert(d.0 + Seq::<OpView>::empty() =~= d.0);
        }
    }
}


/// The cells of a row that is another row shifted sideways.
proof fn lemma_line_shifted(c: Seq<CellView>, p: Seq<CellView>, shift: int)
    requires
        line_shifted(c, p, shift),
    ensures
        c.len() == p.len(),
        forall|j: int| 0 <= j < c.len() && 0 <= j - shift < c.len() ==> #[trigger] c[j] == p[j - shift],
{
    let w = c.len() as int;
    assert forall|j: int| 0 <= j < w && 0 <= j - shift < w implies #[trigger] c[j] == p[j - shift] by {
        if shift > 0 {
            assert(c.subrange(shift, w)[j - shift] == p.subrange(0, w - shift)[j - shift]);
        } else {
            assert(c.subrange(0, w + shift)[j] == p.subrange(-shift, w)[j]);
        }
    }
}

/// The operations that redraw a row that is the previous row shifted
/// sideways: the character shift, then the uncovered cells.
pub open spec fn char_shift_ops(row: Seq<CellView>, y: u32, shift: int) -> Seq<OpView> {
    seq![OpView::ShiftChars(Point { x: 0, y }, shift as i32)] + if shift > 0 {
        line_ops(row, y, 0, shift)
    } else {
        line_ops(row, y, row.len() - (-shift), -shift)
    }
}

/// Replacing one row of a canonical screen by a row whose cells are laid out
/// canonically keeps the screen canonical.
proof fn lemma_row_swap(s: TermBufView, cells: Seq<CellView>, y: int)
    requires
        sized(s),
        canonical(s),
        cells.len() == s.cells.len(),
        0 <= y < s.size.h,
        forall|i: int| 0 <= i < cells.len() && !(y * s.size.w <= i < y * s.size.w + s.size.w) ==> #[trigger] cells[i] == s.cells[i],
        forall|j: int| 0 <= j < s.size.w ==> #[trigger] cell_canonical(cells, s.size.w as int, y * s.size.w + j),
    ensures
        canonical(TermBufView { size: s.size, cells }),
{
    let w = s.size.w as int;
    if w > 0 {
        lemma_row_canonical(s, y, 0);
        let lo = y * w;
        assert forall|i: int| 0 <= i < cells.len() implies #[trigger] cell_canonical(cells, w, i) by {
            if lo <= i < lo + w {
                assert(cell_canonical(cells, w, lo + (i - lo)));
            } else {
                assert(cell_canonical(s.cells, w, i));
                lemma_div_mod_step(i, w);
                if i == lo + w {
                    assert((y + 1) * w == lo + w) by (nonlinear_arith)
                        requires
                            lo == y * w,
                    ;
                    lemma_row_position(y + 1, w, i);
                }
                if i + 1 == lo {
                    assert(y >= 1);
                    assert((y - 1) * w == lo - w) by (nonlinear_arith)
                        requires
                            lo == y * w,
                    ;
                    lemma_row_position(y - 1, w, i);
                }
                if s.cells[i].continuation {
                    assert(cells[i - 1] == s.cells[i - 1]);
                } else if rendered_width_spec(s.cells[i]) == 2 {
                    super::diff::lemma_index_in_row(i, w, s.cells.len() as int);
                    assert(cells[i + 1] == s.cells[i + 1]);
                }
            }
        }
    }
}

/// Replaying the redraw of a row that is the previous row shifted sideways,
/// on a screen whose row looks like the previous one: the cells are
/// shifted, the uncovered ones redrawn, and the row then looks like the
/// current one while every other row stays.
proof fn lemma_char_shift_row(t: Terminal, cur: TermBufView, prev: TermBufView, y: int, shift: int)
    requires
        sized(t.screen),
        canonical(t.screen),
        sized(cur),
        canonical(cur),
        sized(prev),
        canonical(prev),
        cur.size == prev.size,
        t.screen.size == cur.size,
        graphemes_stay_apart(cur),
        cell_width(seq![' ']) == 1,
        0 <= y < cur.size.h,
        line_shifted(buffer_row(cur, y), buffer_row(prev, y), shift),
        -(MAX_LINE_SHIFT as int) <= shift <= MAX_LINE_SHIFT as int,
        forall|j: int| 0 <= j < cur.size.w ==> #[trigger] looks_like(t.screen.cells[y * cur.size.w + j], buffer_row(prev, y)[j]),
    ensures
        sized(replay_ops(t, char_shift_ops(buffer_row(cur, y), y as u32, shift)).screen),
        canonical(replay_ops(t, char_shift_ops(buffer_row(cur, y), y as u32, shift)).screen),
        replay_ops(t, char_shift_ops(buffer_row(cur, y), y as u32, shift)).screen.size == cur.size,
        forall|j: int| 0 <= j < cur.size.w ==> #[trigger] looks_like(
            replay_ops(t, char_shift_ops(buffer_row(cur, y), y as u32, shift)).screen.cells[y * cur.size.w + j],
            buffer_row(cur, y)[j],
        ),
        forall|k: int| 0 <= k < t.screen.cells.len() && !(y * cur.size.w <= k < y * cur.size.w + cur.size.w) ==>
            #[trigger] replay_ops(t, char_shift_ops(buffer_row(cur, y), y as u32, shift)).screen.cells[k] == t.screen.cells[k],
{
    let w = cur.size.w as int;
    let lo = y * w;
    let c = buffer_row(cur, y);
    let p = buffer_row(prev, y);
    let sc = t.screen.cells;
    lemma_row_canonical(cur, y, 0);
    let op = OpView::ShiftChars(Point { x: 0, y: y as u32 }, shift as i32);
    let t1 = apply_op(t, op);
    let s1 = t1.screen;
    assert(s1 == shift_chars(t.screen, Point { x: 0, y: y as u32 }, shift, t.pen));
    let rest = if shift > 0 { line_ops(c, y as u32, 0, shift) } else { line_ops(c, y as u32, w - (-shift), -shift) };
    assert(char_shift_ops(c, y as u32, shift) == seq![op] + rest);
    assert(seq![op].drop_first() =~= Seq::<OpView>::empty());
    assert(seq![op][0] == op);
    assert(replay_ops(t1, Seq::<OpView>::empty()) == t1);
    assert(replay_ops(t, seq![op]) == t1);
    lemma_line_shifted(c, p, shift);
    lemma_replay_concat(t, seq![op], rest);
    assert forall|i: int| 0 <= i < sc.len() && !(lo <= i < lo + w) implies #[trigger] s1.cells[i] == sc[i] by {}
    if shift > 0 {
        let sh = shift;
        assert forall|j: int| 0 <= j < w implies #[trigger] cell_canonical(s1.cells, w, lo + j) by {
            lemma_row_canonical(t.screen, y, j);
            if j >= sh {
                let o = j - sh;
                lemma_row_canonical(t.screen, y, o);
                assert(s1.cells[lo + j] == sc[lo + o]);
                if sc[lo + o].continuation {
                    lemma_row_canonical(t.screen, y, o - 1);
                    assert(s1.cells[lo + j - 1] == sc[lo + o - 1]);
                } else if rendered_width_spec(sc[lo + o]) == 2 {
                    if j == w - 1 {
                        assert(c[w - 1] == p[w - 1 - sh]);
                        assert(looks_like(sc[lo + o], p[o]));
                        lemma_looks_like_width(sc[lo + o], p[o]);
                        lemma_row_canonical(cur, y, w - 1);
                        assert(false);
                    }
                    lemma_row_canonical(t.screen, y, o + 1);
                    assert(s1.cells[lo + j + 1] == sc[lo + o + 1]);
                }
            }
        }
        lemma_row_swap(t.screen, s1.cells, y);
        lemma_row_canonical(prev, y, 0);
        lemma_row_canonical(cur, y, sh);
        assert(c[sh] == p[0]);
        lemma_row_gend(c, w, sh);
        assert(gstart(c, 0, 0) == 0);
        assert(rest == runs_from(c, y as u32, 0, sh));
        assert(s1.cells[lo] == empty_cell(t.pen));
        lemma_runs(t1, cur, y, 0, sh);
        let r = replay_ops(t1, rest).screen;
        assert(s1.cells[lo + sh] == sc[lo]);
        lemma_row_canonical(t.screen, y, 0);
        assert(!sc[lo].continuation);
        assert forall|j: int| 0 <= j < w implies #[trigger] looks_like(r.cells[lo + j], c[j]) by {
            if j >= sh {
                assert(r.cells[lo + j] == s1.cells[lo + j]);
                assert(s1.cells[lo + j] == sc[lo + (j - sh)]);
                assert(c[j] == p[j - sh]);
                assert(looks_like(sc[lo + (j - sh)], p[j - sh]));
            }
        }
    } else {
        let sh = -shift;
        assert forall|j: int| 0 <= j < w implies #[trigger] cell_canonical(s1.cells, w, lo + j) by {
            lemma_row_canonical(t.screen, y, j);
            if j < w - sh {
                let o = j + sh;
                lemma_row_canonical(t.screen, y, o);
                assert(s1.cells[lo + j] == sc[lo + o]);
                if sc[lo + o].continuation {
                    if j == 0 {
                        assert(c[0] == p[sh]);
                        assert(looks_like(sc[lo + o], p[o]));
                        lemma_row_canonical(cur, y, 0);
                        assert(false);
                    }
                    lemma_row_canonical(t.screen, y, o - 1);
                    assert(s1.cells[lo + j - 1] == sc[lo + o - 1]);
                } else if rendered_width_spec(sc[lo + o]) == 2 {
                    lemma_row_canonical(t.screen, y, o + 1);
                    assert(s1.cells[lo + j + 1] == sc[lo + o + 1]);
                }
            }
        }
        lemma_row_swap(t.screen, s1.cells, y);
        let start = w - sh;
        lemma_row_canonical(cur, y, start);
        if c[start].continuation {
            lemma_row_canonical(cur, y, start - 1);
            lemma_row_canonical(prev, y, w - 1);
            assert(c[start - 1] == p[w - 1]);
            assert(false);
        }
        lemma_row_gend(c, w, w);
        assert(gstart(c, 0, start) == start);
        assert(rest == runs_from(c, y as u32, start, w));
        assert(s1.cells[lo + start] == empty_cell(t.pen));
        lemma_runs(t1, cur, y, start, w);
        let r = replay_ops(t1, rest).screen;
        assert forall|j: int| 0 <= j < w implies #[trigger] looks_like(r.cells[lo + j], c[j]) by {
            if j < start {
                assert(r.cells[lo + j] == s1.cells[lo + j]);
                assert(s1.cells[lo + j] == sc[lo + (j + sh)]);
                assert(c[j] == p[j + sh]);
                assert(looks_like(sc[lo + (j + sh)], p[j + sh]));
            }
        }
    }
}


/// The cell at row `y`, column `x` after shifting the whole screen's rows
/// by `shift`.
proof fn lemma_shift_lines_cell(s: TermBufView, shift: int, pen: ResolvedStyle, y: int, x: int)
    requires
        sized(s),
        s.size.h > 0,
        s.size.w > 0,
        shift != 0,
        0 <= y < s.size.h,
        0 <= x < s.size.w,
    ensures
        shift_lines(s, 0, s.size.h - 1, shift, pen).cells.len() == s.cells.len(),
        shift_lines(s, 0, s.size.h - 1, shift, pen).size == s.size,
        0 <= y * s.size.w + x < s.cells.len(),
        shift_lines(s, 0, s.size.h - 1, shift, pen).cells[y * s.size.w + x] == (if 0 <= y - shift < s.size.h {
            s.cells[(y - shift) * s.size.w + x]
        } else {
            empty_cell(pen)
        }),
{
    let w = s.size.w as int;
    let h = s.size.h as int;
    let i = y * w + x;
    lemma_point_row(s, Point { x: x as u32, y: y as u32 });
    vstd::arithmetic::div_mod::lemma_fundamental_div_mod_converse(i, w, y, x);
    assert(i - shift * w == (y - shift) * w + x) by (nonlinear_arith)
        requires
            i == y * w + x,
    ;
}

/// Shifting the whole screen's rows keeps a canonical screen canonical.
proof fn lemma_shift_lines_canonical(s: TermBufView, shift: int, pen: ResolvedStyle)
    requires
        sized(s),
        canonical(s),
        s.size.h > 0,
        s.size.w > 0,
        shift != 0,
    ensures
        sized(shift_lines(s, 0, s.size.h - 1, shift, pen)),
        canonical(shift_lines(s, 0, s.size.h - 1, shift, pen)),
{
    let w = s.size.w as int;
    let h = s.size.h as int;
    let n = shift_lines(s, 0, h - 1, shift, pen);
    lemma_shift_lines_cell(s, shift, pen, 0, 0);
    assert forall|i: int| 0 <= i < n.cells.len() implies #[trigger] cell_canonical(n.cells, w, i) by {
        vstd::arithmetic::div_mod::lemma_fundamental_div_mod(i, w);
        vstd::arithmetic::div_mod::lemma_mod_pos_bound(i, w);
        vstd::arithmetic::div_mod::lemma_div_pos_is_pos(i, w);
        let y = i / w;
        let x = i % w;
        assert(i == y * w + x) by (nonlinear_arith)
            requires
                i == w * y + x,
        ;
        if y >= h {
            assert(y * w >= h * w) by (nonlinear_arith)
                requires
                    y >= h,
                    w > 0,
            ;
            assert(h * w == w * h) by (nonlinear_arith);
            assert(false);
        }
        lemma_shift_lines_cell(s, shift, pen, y, x);
        if 0 <= y - shift < h {
            let src = (y - shift) * w + x;
            lemma_row_canonical(s, y - shift, x);
            if x > 0 {
                lemma_shift_lines_cell(s, shift, pen, y, x - 1);
                lemma_row_canonical(s, y - shift, x - 1);
            }
            if x + 1 < w {
                lemma_shift_lines_cell(s, shift, pen, y, x + 1);
                lemma_row_canonical(s, y - shift, x + 1);
            }
        }
    }
}

/// Replaying the full redraw of rows `y0..y1` onto a canonical screen of the
/// same size: those rows then look like the buffer and every other cell
/// stays.
proof fn lemma_rows_ops_range(t: Terminal, cur: TermBufView, y0: int, y1: int)
    requires
        sized(t.screen),
        canonical(t.screen),
        sized(cur),
        canonical(cur),
        t.screen.size == cur.size,
        graphemes_stay_apart(cur),
        cell_width(seq![' ']) == 1,
        0 <= y0 <= y1 <= cur.size.h,
    ensures
        sized(replay_ops(t, rows_ops(cur, y0, y1, 0, cur.size.w as int)).screen),
        canonical(replay_ops(t, rows_ops(cur, y0, y1, 0, cur.size.w as int)).screen),
        replay_ops(t, rows_ops(cur, y0, y1, 0, cur.size.w as int)).screen.size == cur.size,
        forall|i: int| y0 * cur.size.w <= i < y1 * cur.size.w ==>
            #[trigger] looks_like(replay_ops(t, rows_ops(cur, y0, y1, 0, cur.size.w as int)).screen.cells[i], cur.cells[i]),
        forall|i: int| 0 <= i < cur.cells.len() && !(y0 * cur.size.w <= i < y1 * cur.size.w) ==>
            #[trigger] replay_ops(t, rows_ops(cur, y0, y1, 0, cur.size.w as int)).screen.cells[i] == t.screen.cells[i],
    decreases y1 - y0,
{
    let w = cur.size.w as int;
    let h = cur.size.h as int;
    if y0 >= y1 {
        assert(rows_ops(cur, y0, y1, 0, w) == Seq::<OpView>::empty());
        assert(replay_ops(t, Seq::<OpView>::empty()) == t);
    } else {
        let lo = y0 * w;
        assert(0 <= lo && lo + w <= w * h && (y0 + 1) * w == lo + w && (y0 + 1) * w <= y1 * w) by (nonlinear_arith)
            requires
                0 <= y0 < y1 <= h,
                0 <= w,
                lo == y0 * w,
        ;
        let c = buffer_row(cur, y0);
        let here = line_ops(c, y0 as u32, 0, w);
        let rest = rows_ops(cur, y0 + 1, y1, 0, w);
        assert(rows_ops(cur, y0, y1, 0, w) == here + rest);
        lemma_replay_concat(t, here, rest);
        if w == 0 {
            assert(here == Seq::<OpView>::empty());
            assert(replay_ops(t, here) == t);
            lemma_rows_ops_range(t, cur, y0 + 1, y1);
        } else {
            lemma_row_canonical(cur, y0, 0);
            lemma_row_canonical(t.screen, y0, 0);
            lemma_row_gend(c, w, w);
            assert(gstart(c, 0, 0) == 0);
            assert(here == runs_from(c, y0 as u32, 0, w));
            lemma_runs(t, cur, y0, 0, w);
            let t1 = replay_ops(t, here);
            lemma_rows_ops_range(t1, cur, y0 + 1, y1);
            let r = replay_ops(t1, rest).screen;
            assert forall|i: int| lo <= i < lo + w implies #[trigger] looks_like(r.cells[i], cur.cells[i]) by {
                let j = i - lo;
                assert(looks_like(t1.screen.cells[lo + j], c[j]));
            }
        }
    }
}


/// Replaying a whole-screen row shift and the redraw of the rows it
/// uncovers, on a terminal that shows the previous buffer, leaves it showing
/// the current one.
proof fn lemma_row_shift_replays(t: Terminal, cur: TermBufView, prev: TermBufView, shift: int)
    requires
        sized(cur),
        canonical(cur),
        sized(t.screen),
        canonical(t.screen),
        cur.size == prev.size,
        shows(t.screen, prev),
        graphemes_stay_apart(cur),
        cell_width(seq![' ']) == 1,
        0 < cur.size.h <= i32::MAX,
        band_shifted(cur, prev, 0, 0, cur.size.w as int, cur.size.h as int, shift),
        -(MAX_ROW_SHIFT as int) <= shift <= MAX_ROW_SHIFT,
    ensures
        shows(
            replay_ops(
                t,
                seq![OpView::ShiftLines(0, (cur.size.h - 1) as u32, shift as i32)]
                    + vacated_rows_ops(cur, shift, 0, cur.size.h as int, 0, cur.size.w as int),
            ).screen,
            cur,
        ),
{
    let w = cur.size.w as int;
    let h = cur.size.h as int;
    let op = OpView::ShiftLines(0, (h - 1) as u32, shift as i32);
    let vac = vacated_rows_ops(cur, shift, 0, h, 0, w);
    lemma_replay_concat(t, seq![op], vac);
    assert(seq![op].drop_first() =~= Seq::<OpView>::empty());
    let t1 = apply_op(t, op);
    assert(replay_ops(t1, Seq::<OpView>::empty()) == t1);
    assert(replay_ops(t, seq![op]) == t1);
    assert(t1.screen == shift_lines(t.screen, 0, h - 1, shift, t.pen));
    if w == 0 {
        assert(t1.screen == t.screen);
    } else {
        lemma_shift_lines_canonical(t.screen, shift, t.pen);
        lemma_shift_lines_cell(t.screen, shift, t.pen, 0, 0);
    }
    let (y0, y1) = if shift > 0 { (0, shift) } else { (h + shift, h) };
    assert(vac == rows_ops(cur, y0, y1, 0, w));
    lemma_rows_ops_range(t1, cur, y0, y1);
    let r = replay_ops(t1, vac).screen;
    assert forall|i: int| 0 <= i < cur.cells.len() implies #[trigger] looks_like(r.cells[i], cur.cells[i]) by {
        if !(y0 * w <= i < y1 * w) {
            vstd::arithmetic::div_mod::lemma_fundamental_div_mod(i, w);
            vstd::arithmetic::div_mod::lemma_mod_pos_bound(i, w);
            vstd::arithmetic::div_mod::lemma_div_pos_is_pos(i, w);
            let y = i / w;
            let x = i % w;
            assert(i == y * w + x && y < h && (y < y0 || y >= y1)) by (nonlinear_arith)
                requires
                    i == w * y + x,
                    0 <= x < w,
                    0 <= y,
                    i < w * h,
                    !(y0 * w <= i < y1 * w),
            ;
            assert(0 <= y - shift < h);
            assert(y * w + w <= w * h && (y - shift) * w + w <= w * h && 0 <= (y - shift) * w) by (nonlinear_arith)
                requires
                    0 <= y < h,
                    0 <= y - shift < h,
                    0 < w,
            ;
            lemma_shift_lines_cell(t.screen, shift, t.pen, y, x);
            let j = (y - shift) * w + x;
            assert(0 <= j < w * h && j == (y - shift) * w + x) by (nonlinear_arith)
                requires
                    0 <= y - shift < h,
                    0 <= x < w,
                    j == (y - shift) * w + x,
            ;
            assert(looks_like(t.screen.cells[j], prev.cells[j]));
            assert(band_row(cur, y, 0, w) == band_row(prev, y - shift, 0, w));
            assert(band_row(cur, y, 0, w)[x] == cur.cells[i]);
            assert(band_row(prev, y - shift, 0, w)[x] == prev.cells[j]);
        }
    }
}

} // verus!
