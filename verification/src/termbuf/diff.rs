//! Comparing terminal buffers: shift detection between frames and the
//! minimal redraw that brings a terminal from one frame to the next.

use vstd::prelude::*;
use crate::error::Error;
use crate::geom::{Point, Rect, Size};
use crate::render::RenderBackend;
use crate::script::{decimal, push_decimal};
use crate::style::ResolvedStyle;
use crate::termbuf::{Cell, CellView, TermBuf, TermBufView, cell_is_empty, cells_view, gend, gstart, rendered_text_spec};
use crate::termbuf::{lemma_gend_bounds, lemma_gstart_bounds};
use crate::text::{cell_width, grapheme_width};

verus! {

/// Largest horizontal shift tried within one line.
pub const MAX_LINE_SHIFT: usize = 8;

/// Largest vertical shift tried for whole buffers and inner regions.
pub const MAX_ROW_SHIFT: usize = 4;

/// Compare two cells.
pub fn cell_eq(a: &Cell, b: &Cell) -> (r: bool)
    ensures
        r == (a@ == b@),
{
    a.ch == b.ch && crate::text::string_eq(&a.suffix, &b.suffix) && a.style == b.style && a.continuation == b.continuation
}

/// Compare `len` cells of two runs starting at `ai` and `bi`.
pub fn range_eq(a: &[Cell], ai: usize, b: &[Cell], bi: usize, len: usize) -> (r: bool)
    requires
        ai + len <= a@.len(),
        bi + len <= b@.len(),
    ensures
        r == (cells_view(a@).subrange(ai as int, ai + len) == cells_view(b@).subrange(bi as int, bi + len)),
{
    let na = a.len();
    let nb = b.len();
    let mut k: usize = 0;
    while k < len
        invariant
            na == a@.len(),
            nb == b@.len(),
            ai + len <= a@.len(),
            bi + len <= b@.len(),
            k <= len,
            forall|j: int| 0 <= j < k ==> cells_view(a@).subrange(ai as int, ai + len)[j] == #[trigger] cells_view(b@).subrange(bi as int, bi + len)[j],
        decreases len - k,
    {
        if !cell_eq(&a[ai + k], &b[bi + k]) {
            proof {
                assert(cells_view(a@).subrange(ai as int, ai + len)[k as int] != cells_view(b@).subrange(bi as int, bi + len)[k as int]);
            }
            return false;
        }
        k = k + 1;
    }
    assert(cells_view(a@).subrange(ai as int, ai + len) =~= cells_view(b@).subrange(bi as int, bi + len));
    true
}

// ---------------------------------------------------------------------------
// Shift detection
// ---------------------------------------------------------------------------

/// The first shift among 1, -1, 2, -2, ... from `s` up to `max` in
/// magnitude that a predicate accepts.
pub open spec fn shift_search(p: spec_fn(int) -> bool, s: int, max: int) -> Option<int>
    decreases max - s + 1,
{
    if s <= 0 || s > max {
        None
    } else if p(s) {
        Some(s)
    } else if p(-s) {
        Some(-s)
    } else {
        shift_search(p, s + 1, max)
    }
}

/// A shift the search finds satisfies the predicate and lies within the
/// searched magnitudes.
pub proof fn lemma_shift_search(p: spec_fn(int) -> bool, s: int, max: int)
    ensures
        shift_search(p, s, max) matches Some(v) ==> p(v) && 1 <= s <= (if v > 0 { v } else { -v }) <= max,
    decreases max - s + 1,
{
    if s > 0 && s <= max && !p(s) && !p(-s) {
        lemma_shift_search(p, s + 1, max);
    }
}

/// Whether a line equals the previous line moved right by `shift` cells
/// (left when negative), the vacated cells aside.
pub open spec fn line_shifted(cur: Seq<CellView>, prev: Seq<CellView>, shift: int) -> bool {
    let w = cur.len() as int;
    &&& w > 0 && w == prev.len() && shift != 0
    &&& if shift > 0 {
        shift < w && cur.subrange(shift, w) == prev.subrange(0, w - shift)
    } else {
        -shift < w && cur.subrange(0, w + shift) == prev.subrange(-shift, w)
    }
}

/// The predicate of shifts under which one line matches another.
pub open spec fn line_pred(cur: Seq<CellView>, prev: Seq<CellView>) -> spec_fn(int) -> bool {
    |s: int| line_shifted(cur, prev, s)
}

/// The smallest horizontal shift, at most `max_shift` and less than the
/// width, that turns the previous line into the current one; positive
/// shifts are tried before negative ones of the same size.
pub open spec fn line_shift_spec(cur: Seq<CellView>, prev: Seq<CellView>, max_shift: int) -> Option<int> {
    let w = cur.len() as int;
    if w == 0 || w != prev.len() {
        None
    } else {
        let max = if max_shift < w - 1 { max_shift } else { w - 1 };
        shift_search(line_pred(cur, prev), 1, max)
    }
}

/// The view of an optional shift.
pub open spec fn opt_shift(o: Option<i32>) -> Option<int> {
    match o {
        Some(s) => Some(s as int),
        None => None,
    }
}

/// Check whether the current line matches the previous line shifted by
/// `shift`.
pub fn line_matches_shift(current: &[Cell], prev: &[Cell], shift: i32) -> (r: bool)
    requires
        shift > i32::MIN,
    ensures
        r == line_shifted(cells_view(current@), cells_view(prev@), shift as int),
{
    let width = current.len();
    if width == 0 || width != prev.len() || shift == 0 {
        return false;
    }
    if shift > 0 {
        let s = shift as usize;
        if s >= width {
            return false;
        }
        range_eq(current, s, prev, 0, width - s)
    } else {
        let s = (-shift) as usize;
        if s >= width {
            return false;
        }
        range_eq(current, 0, prev, s, width - s)
    }
}

/// Check whether two lines are identical up to a horizontal shift.
pub fn detect_line_shift(current: &[Cell], prev: &[Cell], max_shift: usize) -> (r: Option<i32>)
    requires
        max_shift <= MAX_LINE_SHIFT,
    ensures
        opt_shift(r) == line_shift_spec(cells_view(current@), cells_view(prev@), max_shift as int),
{
    let ghost cur = cells_view(current@);
    let ghost pv = cells_view(prev@);
    let width = current.len();
    if width == 0 || width != prev.len() {
        return None;
    }
    let max = if max_shift < width - 1 { max_shift } else { width - 1 };
    let mut shift: usize = 1;
    while shift <= max
        invariant
            1 <= shift <= max + 1,
            max <= MAX_LINE_SHIFT,
            max as int == (if max_shift < width - 1 { max_shift as int } else { width - 1 }),
            width == cur.len(),
            cur == cells_view(current@),
            pv == cells_view(prev@),
            shift_search(line_pred(cur, pv), 1, max as int) == shift_search(line_pred(cur, pv), shift as int, max as int),
        decreases max + 1 - shift,
    {
        if line_matches_shift(current, prev, shift as i32) {
            return Some(shift as i32);
        }
        if line_matches_shift(current, prev, -(shift as i32)) {
            return Some(-(shift as i32));
        }
        shift = shift + 1;
    }
    None
}

/// Rows `y*w .. y*w + w` lie inside a buffer of `h` rows.
pub proof fn lemma_row_in_bounds(y: int, h: int, w: int)
    requires
        0 <= y < h,
        0 <= w,
    ensures
        0 <= y * w,
        y * w + w <= h * w,
{
    assert(0 <= y * w) by (nonlinear_arith)
        requires
            0 <= y,
            0 <= w,
    ;
    assert(y * w + w <= h * w) by (nonlinear_arith)
        requires
            y + 1 <= h,
            0 <= w,
    ;
}

/// The cells `x .. x + bw` of row `y` of a buffer.
pub open spec fn band_row(v: TermBufView, y: int, x: int, bw: int) -> Seq<CellView> {
    v.cells.subrange(y * v.size.w + x, y * v.size.w + x + bw)
}

/// Whether the band of columns `x .. x + bw` and rows `y0 .. y0 + bh`
/// of the current buffer equals the same band of the previous buffer moved
/// down by `shift` rows (up when negative), the vacated rows aside.
pub open spec fn band_shifted(cur: TermBufView, prev: TermBufView, x: int, y0: int, bw: int, bh: int, shift: int) -> bool {
    &&& shift != 0
    &&& (if shift > 0 { shift } else { -shift }) < bh
    &&& forall|y: int| y0 <= y < y0 + bh && y0 <= y - shift < y0 + bh ==> #[trigger] band_row(cur, y, x, bw) == band_row(prev, y - shift, x, bw)
}

/// The predicate of shifts under which one band matches another.
pub open spec fn band_pred(cur: TermBufView, prev: TermBufView, x: int, y0: int, bw: int, bh: int) -> spec_fn(int) -> bool {
    |s: int| band_shifted(cur, prev, x, y0, bw, bh, s)
}

/// The smallest vertical shift, at most `max_shift` and at most two less
/// than the band's height, that turns the previous band into the current
/// one; positive shifts are tried before negative ones of the same size.
pub open spec fn band_shift_spec(cur: TermBufView, prev: TermBufView, x: int, y0: int, bw: int, bh: int, max_shift: int) -> Option<int> {
    if bh == 0 || bh > i32::MAX {
        None
    } else {
        let hm2 = if bh >= 2 { bh - 2 } else { 0 };
        let max = if max_shift < hm2 { max_shift } else { hm2 };
        shift_search(band_pred(cur, prev, x, y0, bw, bh), 1, max)
    }
}

/// Whether two buffers of one size are well formed.
pub open spec fn same_shape(cur: TermBufView, prev: TermBufView) -> bool {
    &&& cur.size == prev.size
    &&& cur.cells.len() == cur.size.w * cur.size.h
    &&& prev.cells.len() == prev.size.w * prev.size.h
}

impl TermBuf {
    /// Determine whether a band of two buffers matches for a vertical shift.
    fn band_matches_shift(&self, prev: &TermBuf, x: u32, y0: u32, bw: u32, bh: u32, shift: i32) -> (r: bool)
        requires
            same_shape(self@, prev@),
            x + bw <= self@.size.w,
            y0 + bh <= self@.size.h,
            bh <= i32::MAX,
            -(MAX_ROW_SHIFT as int) <= shift <= MAX_ROW_SHIFT,
        ensures
            r == band_shifted(self@, prev@, x as int, y0 as int, bw as int, bh as int, shift as int),
    {
        let ghost cv = self@;
        let ghost pv = prev@;
        if shift == 0 {
            return false;
        }
        let mag: u32 = if shift > 0 { shift as u32 } else { (-shift) as u32 };
        if mag >= bh {
            return false;
        }
        let width = self.size.w as usize;
        let n = self.cells.len();
        let (lo, hi): (u32, u32) = if shift > 0 { (y0 + mag, y0 + bh) } else { (y0, y0 + bh - mag) };
        let mut y: u32 = lo;
        while y < hi
            invariant
                cv == self@,
                pv == prev@,
                same_shape(cv, pv),
                n == cv.cells.len(),
                n == self.cells@.len(),
                n == prev.cells@.len(),
                width == cv.size.w,
                x + bw <= cv.size.w,
                y0 + bh <= cv.size.h,
                lo <= y <= hi,
                hi <= y0 + bh,
                shift != 0,
                mag == (if shift > 0 { shift as int } else { -shift }),
                mag < bh,
                lo == (if shift > 0 { y0 + mag } else { y0 as int }),
                hi == (if shift > 0 { y0 + bh } else { y0 + bh - mag }),
                forall|q: int| lo <= q < y ==> #[trigger] band_row(cv, q, x as int, bw as int) == band_row(pv, q - shift, x as int, bw as int),
            decreases hi - y,
        {
            let src: u32 = if shift > 0 { y - mag } else { y + mag };
            proof {
                lemma_row_in_bounds(y as int, cv.size.h as int, width as int);
                lemma_row_in_bounds(src as int, cv.size.h as int, width as int);
            }
            let row = y as usize * width + x as usize;
            let prev_row = src as usize * width + x as usize;
            if !range_eq(self.cells.as_slice(), row, prev.cells.as_slice(), prev_row, bw as usize) {
                assert(band_row(cv, y as int, x as int, bw as int) != band_row(pv, y - shift, x as int, bw as int));
                return false;
            }
            y = y + 1;
        }
        true
    }

    /// Find the vertical shift of a band between two buffers.
    fn detect_band_shift(&self, prev: &TermBuf, x: u32, y0: u32, bw: u32, bh: u32, max_shift: usize) -> (r: Option<i32>)
        requires
            same_shape(self@, prev@),
            x + bw <= self@.size.w,
            y0 + bh <= self@.size.h,
            max_shift <= MAX_ROW_SHIFT,
        ensures
            opt_shift(r) == band_shift_spec(self@, prev@, x as int, y0 as int, bw as int, bh as int, max_shift as int),
    {
        if bh == 0 || bh > i32::MAX as u32 {
            return None;
        }
        let hm2: usize = if bh >= 2 { (bh - 2) as usize } else { 0 };
        let max: usize = if max_shift < hm2 { max_shift } else { hm2 };
        let ghost p = band_pred(self@, prev@, x as int, y0 as int, bw as int, bh as int);
        let mut shift: usize = 1;
        while shift <= max
            invariant
                1 <= shift <= max + 1,
                max <= MAX_ROW_SHIFT,
                same_shape(self@, prev@),
                x + bw <= self@.size.w,
                y0 + bh <= self@.size.h,
                bh <= i32::MAX,
                bh > 0,
                hm2 == (if bh >= 2 { bh - 2 } else { 0 }),
                max == (if max_shift < hm2 { max_shift } else { hm2 }),
                p == band_pred(self@, prev@, x as int, y0 as int, bw as int, bh as int),
                shift_search(p, 1, max as int) == shift_search(p, shift as int, max as int),
            decreases max + 1 - shift,
        {
            if self.band_matches_shift(prev, x, y0, bw, bh, shift as i32) {
                return Some(shift as i32);
            }
            if self.band_matches_shift(prev, x, y0, bw, bh, -(shift as i32)) {
                return Some(-(shift as i32));
            }
            shift = shift + 1;
        }
        None
    }
}

/// The vertical shift between two whole buffers.
pub open spec fn row_shift_spec(cur: TermBufView, prev: TermBufView, max_shift: int) -> Option<int> {
    band_shift_spec(cur, prev, 0, 0, cur.size.w as int, cur.size.h as int, max_shift)
}

/// The vertical shift between the insides of a rectangle of two buffers.
pub open spec fn rect_shift_spec(cur: TermBufView, prev: TermBufView, rect: Rect, max_shift: int) -> Option<int> {
    if rect.w == 0 || rect.h == 0 {
        None
    } else {
        band_shift_spec(cur, prev, rect.tl.x as int, rect.tl.y as int, rect.w as int, rect.h as int, max_shift)
    }
}

/// Whether the outer border cells of two buffers match: the top and bottom
/// rows and the first and last cell of every row between them.
pub open spec fn borders_match_spec(cur: TermBufView, prev: TermBufView) -> bool {
    let w = cur.size.w as int;
    let h = cur.size.h as int;
    &&& w > 0 && h > 0
    &&& band_row(cur, 0, 0, w) == band_row(prev, 0, 0, w)
    &&& (h > 1 ==> band_row(cur, h - 1, 0, w) == band_row(prev, h - 1, 0, w))
    &&& (w > 1 && h > 2 ==> forall|y: int| 1 <= y < h - 1 ==> #[trigger] side_cells_match(cur, prev, y))
}

/// Whether the first and last cells of row `y` of two buffers match.
pub open spec fn side_cells_match(cur: TermBufView, prev: TermBufView, y: int) -> bool {
    let w = cur.size.w as int;
    cur.cells[y * w] == prev.cells[y * w] && cur.cells[y * w + w - 1] == prev.cells[y * w + w - 1]
}

/// The inside of a buffer: everything but its outer border.
pub open spec fn inner_rect(size: Size) -> Rect {
    Rect { tl: Point { x: 1, y: 1 }, w: (size.w - 2) as u32, h: (size.h - 2) as u32 }
}

/// The vertical shift of the inside of two buffers whose borders match.
pub open spec fn inner_shift_spec(cur: TermBufView, prev: TermBufView, max_shift: int) -> Option<(Rect, int)> {
    if cur.size.w <= 2 || cur.size.h <= 2 || !borders_match_spec(cur, prev) {
        None
    } else {
        match rect_shift_spec(cur, prev, inner_rect(cur.size), max_shift) {
            Some(s) => Some((inner_rect(cur.size), s)),
            None => None,
        }
    }
}

/// The view of an optional shifted rectangle.
pub open spec fn opt_rect_shift(o: Option<(Rect, i32)>) -> Option<(Rect, int)> {
    match o {
        Some((r, s)) => Some((r, s as int)),
        None => None,
    }
}

impl TermBuf {
    /// Check whether two buffers are identical up to a vertical shift.
    pub fn detect_row_shift(&self, prev: &TermBuf, max_shift: usize) -> (r: Option<i32>)
        requires
            same_shape(self@, prev@),
            max_shift <= MAX_ROW_SHIFT,
        ensures
            opt_shift(r) == row_shift_spec(self@, prev@, max_shift as int),
    {
        self.detect_band_shift(prev, 0, 0, self.size.w, self.size.h, max_shift)
    }

    /// Check whether two buffers are identical up to a vertical shift within
    /// a rectangle.
    pub fn detect_row_shift_in_rect(&self, prev: &TermBuf, rect: Rect, max_shift: usize) -> (r: Option<i32>)
        requires
            same_shape(self@, prev@),
            rect.tl.x + rect.w <= self@.size.w,
            rect.tl.y + rect.h <= self@.size.h,
            max_shift <= MAX_ROW_SHIFT,
        ensures
            opt_shift(r) == rect_shift_spec(self@, prev@, rect, max_shift as int),
    {
        if rect.w == 0 || rect.h == 0 {
            return None;
        }
        self.detect_band_shift(prev, rect.tl.x, rect.tl.y, rect.w, rect.h, max_shift)
    }

    /// Check that the outer border cells match between two buffers.
    pub fn borders_match(&self, prev: &TermBuf) -> (r: bool)
        requires
            same_shape(self@, prev@),
        ensures
            r == borders_match_spec(self@, prev@),
    {
        let ghost cv = self@;
        let ghost pv = prev@;
        let width = self.size.w as usize;
        let height = self.size.h as usize;
        if width == 0 || height == 0 {
            return false;
        }
        let n = self.cells.len();
        proof {
            lemma_row_in_bounds(0, height as int, width as int);
            lemma_row_in_bounds(height - 1, height as int, width as int);
            assert((height as int) * (width as int) == (width as int) * (height as int)) by (nonlinear_arith);
        }
        if !range_eq(self.cells.as_slice(), 0, prev.cells.as_slice(), 0, width) {
            return false;
        }
        if height > 1 {
            let bottom_start = (height - 1) * width;
            if !range_eq(self.cells.as_slice(), bottom_start, prev.cells.as_slice(), bottom_start, width) {
                return false;
            }
        }
        if width > 1 && height > 2 {
            let mut row: usize = 1;
            while row < height - 1
                invariant
                    cv == self@,
                    pv == prev@,
                    same_shape(cv, pv),
                    n == cv.cells.len(),
                    n == self.cells@.len(),
                    n == prev.cells@.len(),
                    width == cv.size.w,
                    height == cv.size.h,
                    width > 1,
                    height > 2,
                    band_row(cv, 0, 0, width as int) == band_row(pv, 0, 0, width as int),
                    band_row(cv, height - 1, 0, width as int) == band_row(pv, height - 1, 0, width as int),
                    1 <= row <= height - 1,
                    forall|y: int| 1 <= y < row ==> #[trigger] side_cells_match(cv, pv, y),
                decreases height - 1 - row,
            {
                proof {
                    lemma_row_in_bounds(row as int, height as int, width as int);
                }
                let row_start = row * width;
                let row_end = row_start + width - 1;
                assert(self.cells@[row_start as int]@ == cv.cells[row_start as int]);
                assert(prev.cells@[row_start as int]@ == pv.cells[row_start as int]);
                assert(self.cells@[row_end as int]@ == cv.cells[row_end as int]);
                assert(prev.cells@[row_end as int]@ == pv.cells[row_end as int]);
                if !cell_eq(&self.cells[row_start], &prev.cells[row_start]) || !cell_eq(&self.cells[row_end], &prev.cells[row_end]) {
                    assert(!side_cells_match(cv, pv, row as int));
                    return false;
                }
                assert(side_cells_match(cv, pv, row as int));
                row = row + 1;
            }
        }
        true
    }

    /// Check whether two buffers have matching borders and a vertically
    /// shifted inside.
    pub fn detect_inner_shift(&self, prev: &TermBuf, max_shift: usize) -> (r: Option<(Rect, i32)>)
        requires
            same_shape(self@, prev@),
            max_shift <= MAX_ROW_SHIFT,
        ensures
            opt_rect_shift(r) == inner_shift_spec(self@, prev@, max_shift as int),
    {
        if self.size.w <= 2 || self.size.h <= 2 {
            return None;
        }
        if !self.borders_match(prev) {
            return None;
        }
        let rect = Rect { tl: Point { x: 1, y: 1 }, w: self.size.w - 2, h: self.size.h - 2 };
        match self.detect_row_shift_in_rect(prev, rect, max_shift) {
            Some(shift) => Some((rect, shift)),
            None => None,
        }
    }
}

// ---------------------------------------------------------------------------
// Canonical cell layout
// ---------------------------------------------------------------------------

/// The number of terminal columns a cell renders: none for a continuation,
/// one for an empty cell, otherwise the display width of its grapheme.
pub open spec fn rendered_width_spec(c: CellView) -> int {
    if c.continuation {
        0
    } else if cell_is_empty(c) {
        1
    } else {
        cell_width(rendered_text_spec(c)) as int
    }
}

/// Return the number of terminal columns a cell renders.
pub fn rendered_width(c: &Cell) -> (r: usize)
    ensures
        r == rendered_width_spec(c@),
{
    if c.continuation {
        return 0;
    }
    if c.is_empty() {
        return 1;
    }
    let t = c.rendered_text();
    grapheme_width(t.as_str())
}

/// Whether the cell at index `i` of a buffer `w` columns wide is laid out
/// canonically: a continuation follows a two-column base of the same style
/// in its row, and a base is at least one column wide and, when two wide, is
/// followed by a continuation in its row.
pub open spec fn cell_canonical(cells: Seq<CellView>, w: int, i: int) -> bool {
    let x = i % w;
    if cells[i].continuation {
        &&& x > 0
        &&& !cells[i - 1].continuation
        &&& rendered_width_spec(cells[i - 1]) == 2
        &&& cells[i - 1].style == cells[i].style
    } else {
        &&& rendered_width_spec(cells[i]) != 0
        &&& (rendered_width_spec(cells[i]) == 2 ==> x + 1 < w && cells[i + 1].continuation)
    }
}

/// Whether a buffer has the canonical base-plus-continuation layout.
pub open spec fn canonical(v: TermBufView) -> bool {
    let w = v.size.w as int;
    if w == 0 {
        v.cells.len() == 0
    } else {
        &&& (v.cells.len() as int) % w == 0
        &&& forall|i: int| 0 <= i < v.cells.len() ==> #[trigger] cell_canonical(v.cells, w, i)
    }
}

/// Build an invariant error naming a cell position.
fn position_error(prefix: &str, x: usize, y: usize) -> (r: Error)
    ensures
        r is Invariant,
{
    let mut m = prefix.to_string();
    push_decimal(&mut m, x);
    m.append(", ");
    push_decimal(&mut m, y);
    m.append(")");
    Error::Invariant(m)
}

impl TermBuf {
    /// Validate the canonical base-plus-continuation cell representation.
    ///
    /// Fails with `Error::Invariant` naming the first offending cell.
    pub fn validate_canonical(&self) -> (r: Result<(), Error>)
        requires
            self.wf(),
        ensures
            r is Ok <==> canonical(self@),
            r matches Err(e) ==> e is Invariant,
    {
        let ghost v = self@;
        let width = self.size.w as usize;
        let n = self.cells.len();
        if width == 0 {
            if n == 0 {
                return Ok(());
            }
            return Err(Error::Invariant("zero-width terminal buffer contains cells".to_string()));
        }
        proof {
            vstd::arithmetic::div_mod::lemma_mod_multiples_basic(v.size.h as int, width as int);
            assert((v.size.h as int) * (width as int) == (width as int) * (v.size.h as int)) by (nonlinear_arith);
        }
        let mut i: usize = 0;
        let mut x: usize = 0;
        let mut y: usize = 0;
        while i < n
            invariant
                v == self@,
                n == v.cells.len(),
                n == self.cells@.len(),
                width == v.size.w,
                width > 0,
                (n as int) % (width as int) == 0,
                i <= n,
                x == (i as int) % (width as int),
                y == (i as int) / (width as int),
                y <= i,
                x <= i,
                forall|j: int| 0 <= j < i ==> #[trigger] cell_canonical(v.cells, width as int, j),
            decreases n - i,
        {
            let cell = &self.cells[i];
            assert(cell@ == v.cells[i as int]);
            proof {
                lemma_div_mod_step(i as int, width as int);
            }
            if cell.continuation {
                let ok = if x > 0 {
                    let base = &self.cells[i - 1];
                    assert(base@ == v.cells[i - 1]);
                    !base.continuation && rendered_width(base) == 2 && base.style == cell.style
                } else {
                    false
                };
                if !ok {
                    assert(!cell_canonical(v.cells, width as int, i as int));
                    return Err(position_error("orphan terminal continuation at (", x, y));
                }
            } else {
                let rw = rendered_width(cell);
                if rw == 0 {
                    assert(!cell_canonical(v.cells, width as int, i as int));
                    return Err(position_error("zero-width terminal base at (", x, y));
                }
                if rw == 2 {
                    let next_ok = if x + 1 < width {
                        assert(i + 1 < n) by {
                            assert((n as int) % (width as int) == 0);
                            lemma_index_in_row(i as int, width as int, n as int);
                        }
                        let next = &self.cells[i + 1];
                        assert(next@ == v.cells[i + 1]);
                        next.continuation
                    } else {
                        false
                    };
                    if !next_ok {
                        assert(!cell_canonical(v.cells, width as int, i as int));
                        return Err(position_error("wide terminal base lacks continuation at (", x, y));
                    }
                }
            }
            assert(cell_canonical(v.cells, width as int, i as int));
            i = i + 1;
            if x + 1 == width {
                x = 0;
                y = y + 1;
            } else {
                x = x + 1;
            }
            proof {
                lemma_div_mod_step((i - 1) as int, width as int);
            }
        }
        if n % width != 0 {
            return Err(Error::Invariant("terminal buffer cell count is not divisible by its width".to_string()));
        }
        Ok(())
    }
}

/// Advancing an index by one advances its column, wrapping to the next row.
pub proof fn lemma_div_mod_step(i: int, w: int)
    requires
        0 <= i,
        0 < w,
    ensures
        0 <= i % w < w,
        i % w <= i,
        (i + 1) % w == (if i % w + 1 == w { 0 } else { i % w + 1 }),
        (i + 1) / w == (if i % w + 1 == w { i / w + 1 } else { i / w }),
{
    vstd::arithmetic::div_mod::lemma_fundamental_div_mod(i, w);
    vstd::arithmetic::div_mod::lemma_mod_pos_bound(i, w);
    vstd::arithmetic::div_mod::lemma_div_pos_is_pos(i, w);
    let q = i / w;
    let r = i % w;
    assert(i == q * w + r) by (nonlinear_arith)
        requires
            i == w * q + r,
    ;
    assert(r <= i) by (nonlinear_arith)
        requires
            i == q * w + r,
            0 <= q,
            0 < w,
    ;
    if r + 1 == w {
        assert(i + 1 == (q + 1) * w + 0) by (nonlinear_arith)
            requires
                i == q * w + r,
                r + 1 == w,
        ;
        vstd::arithmetic::div_mod::lemma_fundamental_div_mod_converse(i + 1, w, q + 1, 0);
    } else {
        vstd::arithmetic::div_mod::lemma_fundamental_div_mod_converse(i + 1, w, q, r + 1);
    }
}

/// In a buffer whose length is a multiple of its width, the cell after one
/// that is not last in its row exists.
pub proof fn lemma_index_in_row(i: int, w: int, n: int)
    requires
        0 <= i < n,
        0 < w,
        i % w + 1 < w,
        n % w == 0,
    ensures
        i + 1 < n,
{
    lemma_div_mod_step(i, w);
}

// ---------------------------------------------------------------------------
// Render operations
// ---------------------------------------------------------------------------

/// One operation on a terminal backend.
#[derive(Debug, PartialEq)]
pub enum RenderOp {
    /// Apply a style to the following text output.
    Style(ResolvedStyle),
    /// Output text at a location.
    Text(Point, String),
    /// Shift the characters of a line from a location: positive counts
    /// insert blanks and shift right, negative counts delete and shift left.
    ShiftChars(Point, i32),
    /// Shift the lines of the inclusive region `top..=bottom`: positive
    /// counts shift content down, negative counts up.
    ShiftLines(u32, u32, i32),
    /// Flush output to the terminal.
    Flush,
}

/// The mathematical form of a render operation.
pub enum OpView {
    /// Apply a style.
    Style(ResolvedStyle),
    /// Output text at a location.
    Text(Point, Seq<char>),
    /// Shift characters within a line.
    ShiftChars(Point, i32),
    /// Shift lines within a region.
    ShiftLines(u32, u32, i32),
    /// Flush.
    Flush,
}

impl View for RenderOp {
    type V = OpView;

    open spec fn view(&self) -> OpView {
        match self {
            RenderOp::Style(s) => OpView::Style(*s),
            RenderOp::Text(p, t) => OpView::Text(*p, t@),
            RenderOp::ShiftChars(p, c) => OpView::ShiftChars(*p, *c),
            RenderOp::ShiftLines(t, b, c) => OpView::ShiftLines(*t, *b, *c),
            RenderOp::Flush => OpView::Flush,
        }
    }
}

/// The views of a run of operations.
pub open spec fn ops_view(v: Seq<RenderOp>) -> Seq<OpView> {
    v.map_values(|o: RenderOp| o@)
}

/// Which optional operations a backend supports.
#[derive(Debug, Clone, Copy, PartialEq, Eq, Structural)]
pub struct BackendCaps {
    /// Shifting characters within a line.
    pub char_shift: bool,
    /// Shifting lines within a region.
    pub line_shift: bool,
}

/// Scan a run of cells that share `style` from `x`, collecting their text;
/// after a wide grapheme the run ends, its continuation cells aside.
pub open spec fn run_scan(row: Seq<CellView>, style: ResolvedStyle, end: int, x: int, text: Seq<char>, split: bool) -> (int, Seq<char>)
    decreases end - x,
{
    if x >= end {
        (x, text)
    } else if split {
        if row[x].continuation {
            run_scan(row, style, end, x + 1, text, true)
        } else {
            (x, text)
        }
    } else if row[x].style != style {
        (x, text)
    } else {
        run_scan(row, style, end, x + 1, text + rendered_text_spec(row[x]), rendered_width_spec(row[x]) > 1)
    }
}

/// The operations that render one run of cells sharing the style of the
/// cell at `start`, and where the next run starts: the style, then the run's
/// text at `start` (a blank when the run renders no text).
pub open spec fn styled_run(row: Seq<CellView>, y: u32, start: int, end: int) -> (Seq<OpView>, int) {
    let style = row[start].style;
    let scanned = run_scan(row, style, end, start, Seq::empty(), false);
    let text = if scanned.1.len() == 0 { seq![' '] } else { scanned.1 };
    (
        seq![OpView::Style(style), OpView::Text(Point { x: start as u32, y }, text)],
        if scanned.0 > start + 1 { scanned.0 } else { start + 1 },
    )
}

/// The operations that render the runs of cells `x..end` of a row.
pub open spec fn runs_from(row: Seq<CellView>, y: u32, x: int, end: int) -> Seq<OpView>
    decreases end - x,
{
    if x >= end {
        Seq::empty()
    } else {
        let r = styled_run(row, y, x, end);
        if r.1 >= end {
            r.0
        } else {
            r.0 + runs_from(row, y, r.1, end)
        }
    }
}

/// The operations that render `len` cells of a row from `start`, widened to
/// whole graphemes.
pub open spec fn line_ops(row: Seq<CellView>, y: u32, start: int, len: int) -> Seq<OpView> {
    let n = row.len() as int;
    if len == 0 || start >= n {
        Seq::empty()
    } else {
        let e0 = if start + len < n { start + len } else { n };
        runs_from(row, y, gstart(row, 0, start), gend(row, n, e0))
    }
}

/// The row `y` of a buffer.
pub open spec fn buffer_row(v: TermBufView, y: int) -> Seq<CellView> {
    band_row(v, y, 0, v.size.w as int)
}

/// The operations that render `len` cells from column `x` of rows
/// `lo..hi`.
pub open spec fn rows_ops(v: TermBufView, lo: int, hi: int, x: int, len: int) -> Seq<OpView>
    decreases hi - lo,
{
    if lo >= hi {
        Seq::empty()
    } else {
        line_ops(buffer_row(v, lo), lo as u32, x, len) + rows_ops(v, lo + 1, hi, x, len)
    }
}

/// The operations that render a whole buffer: every row, then a flush when
/// there was a row.
pub open spec fn render_spec(v: TermBufView) -> Seq<OpView> {
    rows_ops(v, 0, v.size.h as int, 0, v.size.w as int) + if v.size.h > 0 { seq![OpView::Flush] } else { Seq::empty() }
}

impl TermBuf {
    /// Return the first cell of the grapheme containing cell `x` of a row.
    fn row_grapheme_start(row: &[Cell], x: usize) -> (r: usize)
        requires
            x < row@.len(),
        ensures
            r == gstart(cells_view(row@), 0, x as int),
    {
        let mut i = x;
        while i > 0 && row[i].continuation
            invariant
                i <= x,
                x < row@.len(),
                gstart(cells_view(row@), 0, x as int) == gstart(cells_view(row@), 0, i as int),
            decreases i,
        {
            i = i - 1;
        }
        i
    }

    /// Return the end of a range of a row extended over trailing
    /// continuation cells.
    fn row_grapheme_end(row: &[Cell], x: usize) -> (r: usize)
        requires
            x <= row@.len(),
        ensures
            r == gend(cells_view(row@), row@.len() as int, x as int),
    {
        let n = row.len();
        let mut i = x;
        while i < n && row[i].continuation
            invariant
                x <= i <= n,
                n == row@.len(),
                gend(cells_view(row@), n as int, x as int) == gend(cells_view(row@), n as int, i as int),
            decreases n - i,
        {
            i = i + 1;
        }
        i
    }

    /// Append the operations for one run of cells sharing a style, returning
    /// where the next run starts.
    fn push_styled_run(row: &[Cell], y: u32, start: usize, end: usize, ops: &mut Vec<RenderOp>) -> (nx: usize)
        requires
            start < end <= row@.len(),
            row@.len() <= u32::MAX,
        ensures
            ops_view(final(ops)@) == ops_view(old(ops)@) + styled_run(cells_view(row@), y, start as int, end as int).0,
            nx == styled_run(cells_view(row@), y, start as int, end as int).1,
            start < nx <= end,
    {
        let ghost rv = cells_view(row@);
        let style = row[start].style;
        let mut text = String::new();
        let mut x = start;
        let mut split = false;
        assert(text@ =~= Seq::<char>::empty());
        loop
            invariant
                rv == cells_view(row@),
                start <= x <= end,
                end <= row@.len(),
                style == rv[start as int].style,
                run_scan(rv, style, end as int, start as int, Seq::empty(), false) == run_scan(rv, style, end as int, x as int, text@, split),
            ensures
                start <= x <= end,
                run_scan(rv, style, end as int, start as int, Seq::empty(), false) == (x as int, text@),
            decreases end - x,
        {
            if x >= end {
                break;
            }
            let cell = &row[x];
            assert(cell@ == rv[x as int]);
            if split {
                if cell.continuation {
                    x = x + 1;
                    continue;
                }
                break;
            }
            if cell.style != style {
                break;
            }
            let w = rendered_width(cell);
            let t = cell.rendered_text();
            text.append(t.as_str());
            split = w > 1;
            x = x + 1;
        }
        let ghost before = ops@;
        ops.push(RenderOp::Style(style));
        let nx = if x > start + 1 { x } else { start + 1 };
        if text.unicode_len() == 0 {
            let blank = " ".to_string();
            proof {
                reveal_strlit(" ");
            }
            assert(blank@ =~= seq![' ']);
            ops.push(RenderOp::Text(Point { x: start as u32, y }, blank));
        } else {
            ops.push(RenderOp::Text(Point { x: start as u32, y }, text));
        }
        assert(ops_view(ops@) =~= ops_view(before) + styled_run(rv, y, start as int, end as int).0);
        nx
    }

    /// Append the operations that render `len` cells of a row from `start`,
    /// widened to whole graphemes.
    fn push_line_range(row: &[Cell], y: u32, start: usize, len: usize, ops: &mut Vec<RenderOp>)
        requires
            row@.len() <= u32::MAX,
        ensures
            ops_view(final(ops)@) == ops_view(old(ops)@) + line_ops(cells_view(row@), y, start as int, len as int),
    {
        let ghost rv = cells_view(row@);
        let n = row.len();
        if len == 0 || start >= n {
            assert(ops_view(ops@) =~= ops_view(ops@) + Seq::<OpView>::empty());
            return;
        }
        let e0 = if len < n - start { start + len } else { n };
        let s = Self::row_grapheme_start(row, start);
        let e = Self::row_grapheme_end(row, e0);
        proof {
            lemma_gstart_bounds(rv, 0, start as int);
            lemma_gend_bounds(rv, n as int, e0 as int);
        }
        let ghost base = ops_view(ops@);
        let mut x = s;
        while x < e
            invariant
                rv == cells_view(row@),
                n == row@.len(),
                n <= u32::MAX,
                e <= n,
                x <= e,
                ops_view(ops@) + runs_from(rv, y, x as int, e as int) == base + runs_from(rv, y, s as int, e as int),
            decreases e - x,
        {
            let ghost pre = ops_view(ops@);
            let nx = Self::push_styled_run(row, y, x, e, ops);
            proof {
                if nx < e {
                    assert(runs_from(rv, y, x as int, e as int) == styled_run(rv, y, x as int, e as int).0 + runs_from(rv, y, nx as int, e as int));
                } else {
                    assert(runs_from(rv, y, nx as int, e as int) =~= Seq::<OpView>::empty());
                    assert(runs_from(rv, y, x as int, e as int) =~= styled_run(rv, y, x as int, e as int).0 + runs_from(rv, y, nx as int, e as int));
                }
                assert(ops_view(ops@) + runs_from(rv, y, nx as int, e as int) =~= pre + runs_from(rv, y, x as int, e as int));
            }
            x = nx;
        }
        assert(runs_from(rv, y, x as int, e as int) =~= Seq::<OpView>::empty());
        assert(ops_view(ops@) =~= base + runs_from(rv, y, s as int, e as int));
    }
}

// ---------------------------------------------------------------------------
// Diffing buffers
// ---------------------------------------------------------------------------

/// The end of the run of changed cells from `x` that keep `style`.
pub open spec fn changed_end(cur: Seq<CellView>, prev: Seq<CellView>, style: ResolvedStyle, x: int) -> int
    decreases cur.len() - x,
{
    if 0 <= x < cur.len() && cur[x] != prev[x] && cur[x].style == style {
        changed_end(cur, prev, style, x + 1)
    } else {
        x
    }
}

/// The operations that redraw the changed cells of a row from `x`, and
/// whether any were emitted: each run of changed cells sharing a style,
/// widened to whole graphemes, is rendered and skipped past.
pub open spec fn cell_diff(cur: Seq<CellView>, prev: Seq<CellView>, y: u32, x: int) -> (Seq<OpView>, bool)
    decreases cur.len() - x,
{
    let w = cur.len() as int;
    if x < 0 || x >= w {
        (Seq::empty(), false)
    } else if cur[x] == prev[x] {
        cell_diff(cur, prev, y, x + 1)
    } else {
        let s = gstart(cur, 0, x);
        let e = gend(cur, w, changed_end(cur, prev, cur[s].style, x));
        if e <= s || e <= x || e > w {
            cell_diff(cur, prev, y, x + 1)
        } else {
            let rest = cell_diff(cur, prev, y, e);
            (line_ops(cur, y, s, e - s) + rest.0, true)
        }
    }
}

/// The operations that redraw a changed row, and whether any were emitted:
/// none for an unchanged row; a character shift and the vacated cells when
/// the row is a shifted copy of the previous one and the backend can shift;
/// otherwise the changed runs.
pub open spec fn row_diff(cur: Seq<CellView>, prev: Seq<CellView>, y: u32, can_shift: bool) -> (Seq<OpView>, bool) {
    let w = cur.len() as int;
    if cur == prev {
        (Seq::empty(), false)
    } else {
        let detected = if can_shift { line_shift_spec(cur, prev, MAX_LINE_SHIFT as int) } else { None };
        match detected {
            Some(shift) => {
                let gap = if shift > 0 { shift } else { -shift };
                if 0 < gap < w {
                    (
                        seq![OpView::ShiftChars(Point { x: 0, y }, shift as i32)] + if shift > 0 {
                            line_ops(cur, y, 0, gap)
                        } else {
                            line_ops(cur, y, w - gap, gap)
                        },
                        true,
                    )
                } else {
                    cell_diff(cur, prev, y, 0)
                }
            },
            None => cell_diff(cur, prev, y, 0),
        }
    }
}

/// The operations that redraw rows `lo..hi`, and whether any were emitted.
pub open spec fn rows_diff(cur: TermBufView, prev: TermBufView, lo: int, hi: int, can_shift: bool) -> (Seq<OpView>, bool)
    decreases hi - lo,
{
    if lo >= hi {
        (Seq::empty(), false)
    } else {
        let a = row_diff(buffer_row(cur, lo), buffer_row(prev, lo), lo as u32, can_shift);
        let b = rows_diff(cur, prev, lo + 1, hi, can_shift);
        (a.0 + b.0, a.1 || b.1)
    }
}

/// The rows uncovered by shifting `height` rows from `top` by `shift`,
/// rendered over `len` cells from column `x`.
pub open spec fn vacated_rows_ops(v: TermBufView, shift: int, top: int, height: int, x: int, len: int) -> Seq<OpView> {
    let count = if shift > 0 { shift } else { -shift };
    if shift > 0 {
        rows_ops(v, top, top + count, x, len)
    } else {
        rows_ops(v, top + height - count, top + height, x, len)
    }
}

/// The operations that bring a terminal showing `prev` to `cur`. A change of
/// size redraws everything. Otherwise, when the backend can shift lines, a
/// whole-buffer vertical shift, or else a shift of the inside within
/// matching borders, is applied and the vacated rows redrawn. Otherwise each
/// changed row is redrawn, and output is flushed when anything was drawn.
pub open spec fn diff_spec(cur: TermBufView, prev: TermBufView, caps: BackendCaps) -> Seq<OpView> {
    let w = cur.size.w as int;
    let h = cur.size.h as int;
    if cur.size != prev.size {
        render_spec(cur)
    } else if caps.line_shift && row_shift_spec(cur, prev, MAX_ROW_SHIFT as int) is Some {
        let shift = row_shift_spec(cur, prev, MAX_ROW_SHIFT as int).unwrap();
        seq![OpView::ShiftLines(0, (h - 1) as u32, shift as i32)] + vacated_rows_ops(cur, shift, 0, h, 0, w) + seq![OpView::Flush]
    } else if caps.line_shift && inner_shift_spec(cur, prev, MAX_ROW_SHIFT as int) is Some {
        let (rect, shift) = inner_shift_spec(cur, prev, MAX_ROW_SHIFT as int).unwrap();
        seq![OpView::ShiftLines(rect.tl.y, (rect.tl.y + rect.h - 1) as u32, shift as i32)]
            + vacated_rows_ops(cur, shift, rect.tl.y as int, rect.h as int, rect.tl.x as int, rect.w as int)
            + seq![OpView::Flush]
    } else {
        let d = rows_diff(cur, prev, 0, h, caps.char_shift);
        d.0 + if d.1 { seq![OpView::Flush] } else { Seq::empty() }
    }
}

impl TermBuf {
    /// The cells of row `y`.
    fn row_slice(&self, y: u32) -> (r: &[Cell])
        requires
            self.wf(),
            y < self@.size.h,
        ensures
            cells_view(r@) == buffer_row(self@, y as int),
            r@.len() == self@.size.w,
    {
        let width = self.size.w as usize;
        proof {
            lemma_row_in_bounds(y as int, self@.size.h as int, width as int);
            assert((self@.size.h as int) * (width as int) == (width as int) * (self@.size.h as int)) by (nonlinear_arith);
        }
        let n = self.cells.len();
        assert(n == width * self@.size.h);
        let start = y as usize * width;
        let r = vstd::slice::slice_subrange(self.cells.as_slice(), start, start + width);
        assert(cells_view(r@) =~= buffer_row(self@, y as int));
        r
    }

    /// Append the operations that render `len` cells from column `x` of
    /// rows `lo..hi`.
    fn push_rows(&self, lo: u32, hi: u32, x: usize, len: usize, ops: &mut Vec<RenderOp>)
        requires
            self.wf(),
            lo <= hi <= self@.size.h,
        ensures
            ops_view(final(ops)@) == ops_view(old(ops)@) + rows_ops(self@, lo as int, hi as int, x as int, len as int),
    {
        let ghost base = ops_view(ops@);
        let mut y = lo;
        while y < hi
            invariant
                self.wf(),
                lo <= y <= hi,
                hi <= self@.size.h,
                ops_view(ops@) + rows_ops(self@, y as int, hi as int, x as int, len as int) == base + rows_ops(self@, lo as int, hi as int, x as int, len as int),
            decreases hi - y,
        {
            let ghost pre = ops_view(ops@);
            let row = self.row_slice(y);
            Self::push_line_range(row, y, x, len, ops);
            assert(ops_view(ops@) + rows_ops(self@, y + 1, hi as int, x as int, len as int)
                =~= pre + rows_ops(self@, y as int, hi as int, x as int, len as int));
            y = y + 1;
        }
        assert(ops_view(ops@) =~= base + rows_ops(self@, lo as int, hi as int, x as int, len as int));
    }

    /// The operations that render this buffer in full, batching runs of text
    /// with the same style.
    ///
    /// Fails with `Error::Invariant` when the buffer is not canonical.
    pub fn render_ops(&self) -> (r: Result<Vec<RenderOp>, Error>)
        requires
            self.wf(),
        ensures
            r is Ok <==> canonical(self@),
            r matches Err(e) ==> e is Invariant,
            r matches Ok(ops) ==> ops_view(ops@) == render_spec(self@),
    {
        match self.validate_canonical() {
            Ok(()) => {},
            Err(e) => return Err(e),
        }
        let mut ops: Vec<RenderOp> = Vec::new();
        assert(ops_view(ops@) =~= Seq::<OpView>::empty());
        self.push_rows(0, self.size.h, 0, self.size.w as usize, &mut ops);
        if self.size.h > 0 {
            let ghost before = ops_view(ops@);
            ops.push(RenderOp::Flush);
            assert(ops_view(ops@) =~= before + seq![OpView::Flush]);
        } else {
            assert(ops_view(ops@) =~= ops_view(ops@) + Seq::<OpView>::empty());
        }
        Ok(ops)
    }

    /// Append the operations that redraw the changed runs of a row.
    fn push_cell_diff(cur: &[Cell], prev: &[Cell], y: u32, ops: &mut Vec<RenderOp>) -> (wrote: bool)
        requires
            cur@.len() == prev@.len(),
            cur@.len() <= u32::MAX,
        ensures
            ops_view(final(ops)@) == ops_view(old(ops)@) + cell_diff(cells_view(cur@), cells_view(prev@), y, 0).0,
            wrote == cell_diff(cells_view(cur@), cells_view(prev@), y, 0).1,
    {
        let ghost cv = cells_view(cur@);
        let ghost pv = cells_view(prev@);
        let ghost base = ops_view(ops@);
        let width = cur.len();
        let mut x: usize = 0;
        let mut wrote = false;
        while x < width
            invariant
                cv == cells_view(cur@),
                pv == cells_view(prev@),
                width == cv.len(),
                width == pv.len(),
                width <= u32::MAX,
                x <= width,
                ops_view(ops@) + cell_diff(cv, pv, y, x as int).0 == base + cell_diff(cv, pv, y, 0).0,
                cell_diff(cv, pv, y, 0).1 == (wrote || cell_diff(cv, pv, y, x as int).1),
            decreases width - x,
        {
            assert(cur@[x as int]@ == cv[x as int]);
            assert(prev@[x as int]@ == pv[x as int]);
            if cell_eq(&cur[x], &prev[x]) {
                x = x + 1;
                continue;
            }
            let s = Self::row_grapheme_start(cur, x);
            proof {
                lemma_gstart_bounds(cv, 0, x as int);
            }
            assert(cur@[s as int]@ == cv[s as int]);
            let style = cur[s].style;
            let mut end_x = x;
            while end_x < width && !cell_eq(&cur[end_x], &prev[end_x]) && cur[end_x].style == style
                invariant
                    cv == cells_view(cur@),
                    pv == cells_view(prev@),
                    width == cv.len(),
                    width == pv.len(),
                    x <= end_x <= width,
                    changed_end(cv, pv, style, x as int) == changed_end(cv, pv, style, end_x as int),
                decreases width - end_x,
            {
                assert(cur@[end_x as int]@ == cv[end_x as int]);
                assert(prev@[end_x as int]@ == pv[end_x as int]);
                end_x = end_x + 1;
            }
            proof {
                if end_x < width {
                    assert(cur@[end_x as int]@ == cv[end_x as int]);
                    assert(prev@[end_x as int]@ == pv[end_x as int]);
                }
            }
            let e = Self::row_grapheme_end(cur, end_x);
            proof {
                lemma_gend_bounds(cv, width as int, end_x as int);
            }
            if e <= s || e <= x {
                x = x + 1;
                continue;
            }
            let ghost pre = ops_view(ops@);
            Self::push_line_range(cur, y, s, e - s, ops);
            wrote = true;
            assert(ops_view(ops@) + cell_diff(cv, pv, y, e as int).0 =~= pre + cell_diff(cv, pv, y, x as int).0);
            x = e;
        }
        assert(cell_diff(cv, pv, y, x as int).0 =~= Seq::<OpView>::empty());
        assert(ops_view(ops@) =~= base + cell_diff(cv, pv, y, 0).0);
        wrote
    }

    /// Append the operations that redraw a changed row.
    fn push_row_diff(cur: &[Cell], prev: &[Cell], y: u32, can_shift: bool, ops: &mut Vec<RenderOp>) -> (wrote: bool)
        requires
            cur@.len() == prev@.len(),
            cur@.len() <= u32::MAX,
        ensures
            ops_view(final(ops)@) == ops_view(old(ops)@) + row_diff(cells_view(cur@), cells_view(prev@), y, can_shift).0,
            wrote == row_diff(cells_view(cur@), cells_view(prev@), y, can_shift).1,
    {
        let ghost cv = cells_view(cur@);
        let ghost pv = cells_view(prev@);
        let width = cur.len();
        if range_eq(cur, 0, prev, 0, width) {
            assert(cv =~= cv.subrange(0, width as int));
            assert(pv =~= pv.subrange(0, width as int));
            assert(ops_view(ops@) =~= ops_view(ops@) + Seq::<OpView>::empty());
            return false;
        }
        assert(cv =~= cv.subrange(0, width as int));
        assert(pv =~= pv.subrange(0, width as int));
        if can_shift {
            match detect_line_shift(cur, prev, MAX_LINE_SHIFT) {
                Some(shift) => {
                    proof {
                        let mx = if (MAX_LINE_SHIFT as int) < width - 1 { MAX_LINE_SHIFT as int } else { width - 1 };
                        lemma_shift_search(line_pred(cv, pv), 1, mx);
                    }
                    let gap: usize = if shift > 0 { shift as usize } else { (-shift) as usize };
                    if gap > 0 && gap < width {
                        let ghost before = ops_view(ops@);
                        ops.push(RenderOp::ShiftChars(Point { x: 0, y }, shift));
                        if shift > 0 {
                            Self::push_line_range(cur, y, 0, gap, ops);
                        } else {
                            Self::push_line_range(cur, y, width - gap, gap, ops);
                        }
                        assert(ops_view(ops@) =~= before + row_diff(cv, pv, y, can_shift).0);
                        return true;
                    }
                },
                None => {},
            }
        }
        Self::push_cell_diff(cur, prev, y, ops)
    }

    /// Append the redraw of rows uncovered by shifting `height` rows from
    /// `top` by `shift`.
    fn push_vacated_rows(&self, shift: i32, top: u32, height: u32, x: usize, len: usize, ops: &mut Vec<RenderOp>)
        requires
            self.wf(),
            top + height <= self@.size.h,
            shift != 0,
            -(MAX_ROW_SHIFT as int) <= shift <= MAX_ROW_SHIFT,
            (if shift > 0 { shift as int } else { -shift }) < height,
        ensures
            ops_view(final(ops)@) == ops_view(old(ops)@) + vacated_rows_ops(self@, shift as int, top as int, height as int, x as int, len as int),
    {
        let count: u32 = if shift > 0 { shift as u32 } else { (-shift) as u32 };
        if shift > 0 {
            self.push_rows(top, top + count, x, len, ops);
        } else {
            self.push_rows(top + height - count, top + height, x, len, ops);
        }
    }

    /// The operations that bring a terminal showing `prev` to this buffer,
    /// for a backend with the given capabilities.
    ///
    /// Fails with `Error::Invariant` when either buffer is not canonical.
    pub fn diff_ops(&self, prev: &TermBuf, caps: BackendCaps) -> (r: Result<Vec<RenderOp>, Error>)
        requires
            self.wf(),
            prev.wf(),
        ensures
            r is Ok <==> canonical(self@) && canonical(prev@),
            r matches Err(e) ==> e is Invariant,
            r matches Ok(ops) ==> ops_view(ops@) == diff_spec(self@, prev@, caps),
    {
        match self.validate_canonical() {
            Ok(()) => {},
            Err(e) => return Err(e),
        }
        match prev.validate_canonical() {
            Ok(()) => {},
            Err(e) => return Err(e),
        }
        if self.size != prev.size {
            return self.render_ops();
        }
        let mut ops: Vec<RenderOp> = Vec::new();
        assert(ops_view(ops@) =~= Seq::<OpView>::empty());
        if caps.line_shift {
            match self.detect_row_shift(prev, MAX_ROW_SHIFT) {
                Some(shift) => {
                    proof {
                        let bh = self@.size.h as int;
                        let hm2 = if bh >= 2 { bh - 2 } else { 0 };
                        let mx = if (MAX_ROW_SHIFT as int) < hm2 { MAX_ROW_SHIFT as int } else { hm2 };
                        lemma_shift_search(band_pred(self@, prev@, 0, 0, self@.size.w as int, bh), 1, mx);
                    }
                    ops.push(RenderOp::ShiftLines(0, self.size.h - 1, shift));
                    let ghost mid = ops_view(ops@);
                    assert(mid =~= seq![OpView::ShiftLines(0, (self@.size.h - 1) as u32, shift)]);
                    self.push_vacated_rows(shift, 0, self.size.h, 0, self.size.w as usize, &mut ops);
                    let ghost before = ops_view(ops@);
                    ops.push(RenderOp::Flush);
                    assert(ops_view(ops@) =~= before + seq![OpView::Flush]);
                    return Ok(ops);
                },
                None => {},
            }
            match self.detect_inner_shift(prev, MAX_ROW_SHIFT) {
                Some((rect, shift)) => {
                    proof {
                        let bh = rect.h as int;
                        let hm2 = if bh >= 2 { bh - 2 } else { 0 };
                        let mx = if (MAX_ROW_SHIFT as int) < hm2 { MAX_ROW_SHIFT as int } else { hm2 };
                        lemma_shift_search(band_pred(self@, prev@, rect.tl.x as int, rect.tl.y as int, rect.w as int, bh), 1, mx);
                    }
                    ops.push(RenderOp::ShiftLines(rect.tl.y, rect.tl.y + rect.h - 1, shift));
                    self.push_vacated_rows(shift, rect.tl.y, rect.h, rect.tl.x as usize, rect.w as usize, &mut ops);
                    let ghost before = ops_view(ops@);
                    ops.push(RenderOp::Flush);
                    assert(ops_view(ops@) =~= before + seq![OpView::Flush]);
                    return Ok(ops);
                },
                None => {},
            }
        }
        let ghost cv = self@;
        let ghost pvv = prev@;
        let h = self.size.h;
        let mut wrote = false;
        let mut y: u32 = 0;
        while y < h
            invariant
                self.wf(),
                prev.wf(),
                cv == self@,
                pvv == prev@,
                cv.size == pvv.size,
                h == cv.size.h,
                y <= h,
                ops_view(ops@) + rows_diff(cv, pvv, y as int, h as int, caps.char_shift).0 == rows_diff(cv, pvv, 0, h as int, caps.char_shift).0,
                rows_diff(cv, pvv, 0, h as int, caps.char_shift).1 == (wrote || rows_diff(cv, pvv, y as int, h as int, caps.char_shift).1),
            decreases h - y,
        {
            let ghost pre = ops_view(ops@);
            let cur_row = self.row_slice(y);
            let prev_row = prev.row_slice(y);
            let w = Self::push_row_diff(cur_row, prev_row, y, caps.char_shift, &mut ops);
            wrote = wrote || w;
            assert(ops_view(ops@) + rows_diff(cv, pvv, y + 1, h as int, caps.char_shift).0
                =~= pre + rows_diff(cv, pvv, y as int, h as int, caps.char_shift).0);
            y = y + 1;
        }
        if wrote {
            let ghost before = ops_view(ops@);
            ops.push(RenderOp::Flush);
            assert(ops_view(ops@) =~= before + seq![OpView::Flush]);
        } else {
            assert(ops_view(ops@) =~= ops_view(ops@) + Seq::<OpView>::empty());
        }
        Ok(ops)
    }
}

/// Whether operations are only styles, text and flushes: those whose
/// performance a backend records.
pub open spec fn plain_ops(s: Seq<OpView>) -> bool {
    forall|i: int| 0 <= i < s.len() ==> (#[trigger] s[i] is Style || s[i] is Text || s[i] is Flush)
}

/// Whether a backend's record grew by a run of operations, when the run
/// holds only operations that a backend records.
pub open spec fn performed_run(before: Seq<OpView>, after: Seq<OpView>, ops: Seq<OpView>) -> bool {
    plain_ops(ops) ==> after == before + ops
}

/// Joining runs of recorded operations gives such a run.
proof fn lemma_plain_concat(a: Seq<OpView>, b: Seq<OpView>)
    requires
        plain_ops(a),
        plain_ops(b),
    ensures
        plain_ops(a + b),
{
    assert forall|i: int| 0 <= i < (a + b).len() implies (#[trigger] (a + b)[i] is Style || (a + b)[i] is Text || (a + b)[i] is Flush) by {
        if i < a.len() {
            assert((a + b)[i] == a[i]);
        } else {
            assert((a + b)[i] == b[i - a.len()]);
        }
    }
}

/// The runs of a row are styles and text.
proof fn lemma_runs_plain(row: Seq<CellView>, y: u32, x: int, end: int)
    ensures
        plain_ops(runs_from(row, y, x, end)),
    decreases end - x,
{
    if x < end {
        let r = styled_run(row, y, x, end);
        assert(plain_ops(r.0));
        if r.1 < end {
            lemma_runs_plain(row, y, r.1, end);
            lemma_plain_concat(r.0, runs_from(row, y, r.1, end));
        }
    }
}

/// Rendering rows gives styles and text.
proof fn lemma_rows_plain(v: TermBufView, lo: int, hi: int, x: int, len: int)
    ensures
        plain_ops(rows_ops(v, lo, hi, x, len)),
    decreases hi - lo,
{
    if lo < hi {
        let row = buffer_row(v, lo);
        let n = row.len() as int;
        if !(len == 0 || x >= n) {
            let e0 = if x + len < n { x + len } else { n };
            lemma_runs_plain(row, lo as u32, gstart(row, 0, x), gend(row, n, e0));
        }
        lemma_rows_plain(v, lo + 1, hi, x, len);
        lemma_plain_concat(line_ops(row, lo as u32, x, len), rows_ops(v, lo + 1, hi, x, len));
    }
}

/// Law: rendering a whole buffer uses only styles, text and flushes, so a
/// backend records every operation of it.
pub proof fn law_render_is_recorded(v: TermBufView)
    ensures
        plain_ops(render_spec(v)),
{
    lemma_rows_plain(v, 0, v.size.h as int, 0, v.size.w as int);
    let tail = if v.size.h > 0 { seq![OpView::Flush] } else { Seq::<OpView>::empty() };
    lemma_plain_concat(rows_ops(v, 0, v.size.h as int, 0, v.size.w as int), tail);
}

/// Perform operations on a backend in order, stopping at the first error.
pub fn replay<R: RenderBackend>(backend: &mut R, ops: &[RenderOp]) -> (r: Result<(), Error>)
    ensures
        ops@.len() == 0 ==> r is Ok,
        r is Ok ==> performed_run(old(backend).performed(), final(backend).performed(), ops_view(ops@)),
{
    let ghost start = backend.performed();
    let ghost all = ops_view(ops@);
    let mut i: usize = 0;
    while i < ops.len()
        invariant
            i <= ops@.len(),
            all == ops_view(ops@),
            start == old(backend).performed(),
            plain_ops(all) ==> backend.performed() == start + all.subrange(0, i as int),
        decreases ops@.len() - i,
    {
        let ghost before = backend.performed();
        let result = match &ops[i] {
            RenderOp::Style(s) => backend.style(s),
            RenderOp::Text(p, t) => backend.text(*p, t.as_str()),
            RenderOp::ShiftChars(p, c) => backend.shift_chars(*p, *c),
            RenderOp::ShiftLines(t, b, c) => backend.shift_lines(*t, *b, *c),
            RenderOp::Flush => backend.flush(),
        };
        match result {
            Ok(()) => {},
            Err(e) => return Err(e),
        }
        proof {
            if plain_ops(all) {
                assert(all[i as int] is Style || all[i as int] is Text || all[i as int] is Flush);
                assert(all.subrange(0, i + 1) =~= all.subrange(0, i as int).push(all[i as int]));
            }
        }
        i = i + 1;
    }
    assert(all.subrange(0, ops@.len() as int) =~= all);
    Ok(())
}

impl TermBuf {
    /// Diff this terminal buffer against a previous state, emitting the
    /// operations of `diff_ops` to the backend.
    ///
    /// Fails with `Error::Invariant`, before any output, when either buffer
    /// is not canonical, and with the backend's error when an operation
    /// fails.
    pub fn diff<R: RenderBackend>(&self, prev: &TermBuf, backend: &mut R) -> (r: Result<(), Error>)
        requires
            self.wf(),
            prev.wf(),
        ensures
            !(canonical(self@) && canonical(prev@)) ==> (r matches Err(e) && e is Invariant),
            canonical(self@) && canonical(prev@) && (forall|caps: BackendCaps| #[trigger] diff_spec(self@, prev@, caps).len() == 0)
                ==> r is Ok,
            r is Ok ==> exists|caps: BackendCaps| #[trigger] performed_run(old(backend).performed(), final(backend).performed(), diff_spec(self@, prev@, caps)),
    {
        let caps = BackendCaps { char_shift: backend.supports_char_shift(), line_shift: backend.supports_line_shift() };
        match self.diff_ops(prev, caps) {
            Ok(ops) => {
                assert(ops_view(ops@).len() == ops@.len());
                let r = replay(backend, ops.as_slice());
                assert(r is Ok ==> performed_run(old(backend).performed(), backend.performed(), diff_spec(self@, prev@, caps)));
                r
            },
            Err(e) => Err(e),
        }
    }

    /// Render this terminal buffer in full, emitting the operations of
    /// `render_ops` to the backend.
    ///
    /// Fails with `Error::Invariant`, before any output, when the buffer is
    /// not canonical, and with the backend's error when an operation fails.
    pub fn render<R: RenderBackend>(&self, backend: &mut R) -> (r: Result<(), Error>)
        requires
            self.wf(),
        ensures
            !canonical(self@) ==> (r matches Err(e) && e is Invariant),
            canonical(self@) && self@.size.h == 0 ==> r is Ok,
            r is Ok ==> final(backend).performed() == old(backend).performed() + render_spec(self@),
    {
        match self.render_ops() {
            Ok(ops) => {
                proof {
                    if self@.size.h == 0 {
                        assert(rows_ops(self@, 0, 0, 0, self@.size.w as int) == Seq::<OpView>::empty());
                        assert(render_spec(self@) =~= Seq::<OpView>::empty());
                    }
                }
                assert(ops_view(ops@).len() == ops@.len());
                proof {
                    law_render_is_recorded(self@);
                }
                replay(backend, ops.as_slice())
            },
            Err(e) => Err(e),
        }
    }
}


/// Unchanged rows emit nothing.
proof fn lemma_rows_diff_unchanged(v: TermBufView, lo: int, hi: int, can_shift: bool)
    ensures
        rows_diff(v, v, lo, hi, can_shift) == (Seq::<OpView>::empty(), false),
    decreases hi - lo,
{
    if lo < hi {
        lemma_rows_diff_unchanged(v, lo + 1, hi, can_shift);
        assert(Seq::<OpView>::empty() + Seq::<OpView>::empty() =~= Seq::<OpView>::empty());
    }
}

/// Law: diffing a buffer against itself sends nothing to a backend that
/// does not shift lines.
pub proof fn law_unchanged_buffer_sends_nothing(v: TermBufView, caps: BackendCaps)
    requires
        !caps.line_shift,
    ensures
        diff_spec(v, v, caps) == Seq::<OpView>::empty(),
{
    lemma_rows_diff_unchanged(v, 0, v.size.h as int, caps.char_shift);
    assert(Seq::<OpView>::empty() + Seq::<OpView>::empty() =~= Seq::<OpView>::empty());
}

} // verus!
