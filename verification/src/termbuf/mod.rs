//! The terminal buffer: a grid of styled cells that rendering writes into.
//!
//! Each cell holds one grapheme. A grapheme two columns wide occupies a base
//! cell followed by a continuation cell; writing over any part of a grapheme
//! clears the whole grapheme first, so a buffer never holds half a glyph.

use vstd::prelude::*;
use crate::error::Error;
use crate::geom::{rect_contains, rect_intersect, FrameRects, Line, Point, Rect, Size};
use crate::style::{attrs_with, empty_attrs, Attr, AttrSet, Color, ResolvedStyle};
use crate::text::{cell_width, grapheme_clusters, grapheme_width, graphemes_of, push_char, str_to_chars};
use crate::geom::min_int;

pub mod canon;
pub mod diff;
pub mod replay;

verus! {

/// NULL character, marking an empty cell.
pub const NULL: char = '\0';

/// Limits for a materialized visible render target.
#[derive(Clone, Copy, Debug, PartialEq, Eq, Structural)]
pub struct RenderLimits {
    /// Maximum visible render-target width.
    pub max_width: u32,
    /// Maximum visible render-target height.
    pub max_height: u32,
    /// Maximum total number of materialized terminal cells.
    pub max_cells: usize,
}

/// The outcome of validating a target size against limits: the exact cell
/// count, or the first limit that the size breaks.
pub open spec fn cell_count_spec(l: RenderLimits, size: Size) -> Result<usize, Error> {
    if size.w > l.max_width {
        Err(Error::RenderWidthLimit { requested: size.w, limit: l.max_width })
    } else if size.h > l.max_height {
        Err(Error::RenderHeightLimit { requested: size.h, limit: l.max_height })
    } else if size.w * size.h > usize::MAX {
        Err(Error::RenderCellCountOverflow { width: size.w, height: size.h })
    } else if size.w * size.h > l.max_cells {
        Err(Error::RenderCellLimit { requested: (size.w * size.h) as usize, limit: l.max_cells })
    } else {
        Ok((size.w * size.h) as usize)
    }
}

impl RenderLimits {
    /// Construct explicit visible render-target limits.
    pub fn new(max_width: u32, max_height: u32, max_cells: usize) -> (r: Self)
        ensures
            r == (RenderLimits { max_width, max_height, max_cells }),
    {
        RenderLimits { max_width, max_height, max_cells }
    }

    /// Validate a visible target size and return its exact cell count.
    pub fn cell_count(self, size: Size) -> (r: Result<usize, Error>)
        ensures
            r == cell_count_spec(self, size),
    {
        if size.w > self.max_width {
            return Err(Error::RenderWidthLimit { requested: size.w, limit: self.max_width });
        }
        if size.h > self.max_height {
            return Err(Error::RenderHeightLimit { requested: size.h, limit: self.max_height });
        }
        let width = size.w as usize;
        let height = size.h as usize;
        let cells = match width.checked_mul(height) {
            Some(c) => c,
            None => {
                return Err(Error::RenderCellCountOverflow { width: size.w, height: size.h });
            },
        };
        if cells > self.max_cells {
            return Err(Error::RenderCellLimit { requested: cells, limit: self.max_cells });
        }
        Ok(cells)
    }
}

impl Default for RenderLimits {
    fn default() -> (r: Self)
        ensures
            r == (RenderLimits { max_width: 2048, max_height: 2048, max_cells: 1_000_000 }),
    {
        Self::new(2048, 2048, 1_000_000)
    }
}

/// Shapes of the text cursor.
#[derive(Clone, Copy, Debug, PartialEq, Eq, Structural)]
pub enum CursorShape {
    /// A full-cell block.
    Block,
    /// A thin vertical bar.
    Line,
    /// An underscore below the glyph.
    Underscore,
}

/// A terminal cell with glyph and style.
#[derive(Debug, PartialEq)]
pub struct Cell {
    /// Base glyph character.
    pub ch: char,
    /// Additional grapheme characters stored with the base glyph.
    pub suffix: String,
    /// Style applied to the cell.
    pub style: ResolvedStyle,
    /// True when this cell continues a wide glyph from the previous column.
    pub continuation: bool,
}

/// The mathematical form of a cell.
pub struct CellView {
    /// Base glyph character.
    pub ch: char,
    /// Additional grapheme characters.
    pub suffix: Seq<char>,
    /// Style applied to the cell.
    pub style: ResolvedStyle,
    /// Whether the cell continues a wide glyph.
    pub continuation: bool,
}

impl View for Cell {
    type V = CellView;

    open spec fn view(&self) -> CellView {
        CellView { ch: self.ch, suffix: self.suffix@, style: self.style, continuation: self.continuation }
    }
}

impl Clone for Cell {
    fn clone(&self) -> (r: Self)
        ensures
            r == *self,
    {
        Cell { ch: self.ch, suffix: self.suffix.clone(), style: self.style, continuation: self.continuation }
    }
}

/// An empty cell.
pub open spec fn empty_cell(style: ResolvedStyle) -> CellView {
    CellView { ch: NULL, suffix: Seq::empty(), style, continuation: false }
}

/// A continuation cell of a wide glyph.
pub open spec fn continuation_cell(style: ResolvedStyle) -> CellView {
    CellView { ch: NULL, suffix: Seq::empty(), style, continuation: true }
}

/// The cell that a single character writes: empty for NULL, otherwise the
/// glyph.
pub open spec fn char_cell(ch: char, style: ResolvedStyle) -> CellView {
    if ch == NULL {
        empty_cell(style)
    } else {
        CellView { ch, suffix: Seq::empty(), style, continuation: false }
    }
}

/// Whether a cell is empty.
pub open spec fn cell_is_empty(c: CellView) -> bool {
    c.ch == NULL && c.suffix.len() == 0 && !c.continuation
}

/// The text a cell renders: nothing for a continuation, a space for an
/// empty cell, otherwise its grapheme.
pub open spec fn rendered_text_spec(c: CellView) -> Seq<char> {
    if c.continuation {
        Seq::empty()
    } else if cell_is_empty(c) {
        seq![' ']
    } else {
        seq![c.ch] + c.suffix
    }
}

/// Whether a character can stand alone in one cell: NULL, or a character
/// exactly one column wide.
pub open spec fn cell_char_ok(ch: char) -> bool {
    ch == NULL || cell_width(seq![ch]) == 1
}

/// The error for a character that cannot stand alone in one cell.
pub open spec fn cell_char_error(ch: char) -> Error {
    Error::InvalidCellCharacter { ch, width: cell_width(seq![ch]) as usize }
}

impl Cell {
    /// Construct a cell containing a single glyph.
    fn new(ch: char, style: ResolvedStyle) -> (r: Self)
        ensures
            r@ == (CellView { ch, suffix: Seq::empty(), style, continuation: false }),
    {
        Cell { ch, suffix: String::new(), style, continuation: false }
    }

    /// Construct an empty cell.
    fn empty(style: ResolvedStyle) -> (r: Self)
        ensures
            r@ == empty_cell(style),
    {
        Cell { ch: NULL, suffix: String::new(), style, continuation: false }
    }

    /// Construct a continuation cell for a wide glyph.
    fn continuation(style: ResolvedStyle) -> (r: Self)
        ensures
            r@ == continuation_cell(style),
    {
        Cell { ch: NULL, suffix: String::new(), style, continuation: true }
    }

    /// The cell a single character writes.
    fn from_char(ch: char, style: ResolvedStyle) -> (r: Self)
        ensures
            r@ == char_cell(ch, style),
    {
        if ch == NULL {
            Cell::empty(style)
        } else {
            Cell::new(ch, style)
        }
    }

    /// Return true when the cell is empty.
    pub fn is_empty(&self) -> (r: bool)
        ensures
            r == cell_is_empty(self@),
    {
        self.ch == NULL && self.suffix.unicode_len() == 0 && !self.continuation
    }

    /// Return this cell's rendered text.
    pub fn rendered_text(&self) -> (r: String)
        ensures
            r@ == rendered_text_spec(self@),
    {
        let mut out = String::new();
        if self.continuation {
            return out;
        }
        if self.is_empty() {
            push_char(&mut out, ' ');
            assert(out@ =~= seq![' ']);
            return out;
        }
        push_char(&mut out, self.ch);
        out.append(self.suffix.as_str());
        assert(out@ =~= seq![self.ch] + self.suffix@);
        out
    }
}

/// Reject characters that cannot be represented by a single canonical cell.
fn validate_cell_character(ch: char) -> (r: Result<(), Error>)
    ensures
        r is Ok <==> cell_char_ok(ch),
        r matches Err(e) ==> e == cell_char_error(ch),
{
    if ch == NULL {
        return Ok(());
    }
    let mut s = String::new();
    push_char(&mut s, ch);
    assert(s@ =~= seq![ch]);
    let width = grapheme_width(s.as_str());
    if width != 1 {
        return Err(Error::InvalidCellCharacter { ch, width });
    }
    Ok(())
}

/// A 2D terminal buffer of styled cells.
#[derive(Debug, Clone)]
pub struct TermBuf {
    /// Buffer size in cells.
    size: Size,
    /// Backing cell storage, row by row.
    cells: Vec<Cell>,
}

/// The mathematical form of a terminal buffer: its size and its cells in
/// row-major order.
pub struct TermBufView {
    /// Buffer size in cells.
    pub size: Size,
    /// Cells in row-major order.
    pub cells: Seq<CellView>,
}

/// The views of a vector of cells.
pub open spec fn cells_view(v: Seq<Cell>) -> Seq<CellView> {
    v.map_values(|c: Cell| c@)
}

impl View for TermBuf {
    type V = TermBufView;

    closed spec fn view(&self) -> TermBufView {
        TermBufView { size: self.size, cells: cells_view(self.cells@) }
    }
}

/// The index of the cell at a point, if the point lies in the buffer.
pub open spec fn cell_index(size: Size, p: Point) -> Option<int> {
    if p.x < size.w && p.y < size.h {
        Some(p.y * size.w + p.x)
    } else {
        None
    }
}

/// A buffer of the given size with every cell equal to one cell.
pub open spec fn uniform(size: Size, c: CellView) -> TermBufView {
    TermBufView { size, cells: Seq::new((size.w * size.h) as nat, |i: int| c) }
}

/// The outcome of constructing a buffer of `size` filled with `ch`.
pub open spec fn new_buffer_spec(size: Size, ch: char, style: ResolvedStyle, limits: RenderLimits) -> Result<TermBufView, Error> {
    if !cell_char_ok(ch) {
        Err(cell_char_error(ch))
    } else {
        match cell_count_spec(limits, size) {
            Ok(_) => Ok(uniform(size, char_cell(ch, style))),
            Err(e) => Err(e),
        }
    }
}

/// The style of a buffer built by `TermBuf::empty`.
pub open spec fn default_style() -> ResolvedStyle {
    ResolvedStyle { fg: Color::White, bg: Color::Black, attrs: empty_attrs() }
}

/// Grow a vector to the requested capacity.
///
/// Trusted: calls `Vec::try_reserve_exact`, which std documents as never
/// changing the contents; whether the reservation succeeds depends on the
/// allocator, so nothing is said of the result.
#[verifier::external_body]
fn try_reserve_cells(v: &mut Vec<Cell>, additional: usize) -> (r: bool)
    ensures
        final(v)@ == old(v)@,
{
    v.try_reserve_exact(additional).is_ok()
}

/// A vector of `count` copies of one cell.
fn repeat_cell(c: &Cell, count: usize) -> (r: Result<Vec<Cell>, Error>)
    ensures
        r matches Ok(v) ==> cells_view(v@) == Seq::new(count as nat, |i: int| c@),
        r matches Err(e) ==> e == (Error::RenderAllocation { cells: count }),
{
    let mut cells: Vec<Cell> = Vec::new();
    if !try_reserve_cells(&mut cells, count) {
        return Err(Error::RenderAllocation { cells: count });
    }
    let mut i: usize = 0;
    while i < count
        invariant
            i <= count,
            cells_view(cells@) == Seq::new(i as nat, |j: int| c@),
        decreases count - i,
    {
        let d = c.clone();
        let ghost before = cells@;
        cells.push(d);
        assert(cells_view(cells@) =~= cells_view(before).push(d@));
        i = i + 1;
        assert(cells_view(cells@) =~= Seq::new(i as nat, |j: int| c@));
    }
    Ok(cells)
}

impl TermBuf {
    /// Well-formedness: one cell per position.
    pub closed spec fn wf(&self) -> bool {
        self.cells@.len() == self.size.w * self.size.h
    }

    /// Construct a buffer filled with the given character and style, under
    /// the default limits.
    pub fn new(size: Size, ch: char, style: ResolvedStyle) -> (r: Result<Self, Error>)
        ensures
            r matches Ok(b) ==> b.wf(),
            r matches Ok(b) ==> Ok::<TermBufView, Error>(b@) == new_buffer_spec(size, ch, style, RenderLimits { max_width: 2048, max_height: 2048, max_cells: 1_000_000 }),
            r matches Err(e) ==> (new_buffer_spec(size, ch, style, RenderLimits { max_width: 2048, max_height: 2048, max_cells: 1_000_000 }) == Err::<TermBufView, Error>(e)
                || e == (Error::RenderAllocation { cells: (size.w * size.h) as usize })),
    {
        Self::new_with_limits(size, ch, style, RenderLimits::default())
    }

    /// Construct a buffer with explicit visible render-target limits.
    ///
    /// Fails when the character does not fit one cell, when the size breaks
    /// a limit, or when the cells cannot be allocated.
    pub fn new_with_limits(size: Size, ch: char, style: ResolvedStyle, limits: RenderLimits) -> (r: Result<Self, Error>)
        ensures
            r matches Ok(b) ==> b.wf(),
            r matches Ok(b) ==> Ok::<TermBufView, Error>(b@) == new_buffer_spec(size, ch, style, limits),
            r matches Err(e) ==> (new_buffer_spec(size, ch, style, limits) == Err::<TermBufView, Error>(e)
                || (new_buffer_spec(size, ch, style, limits) is Ok
                    && e == (Error::RenderAllocation { cells: (size.w * size.h) as usize }))),
    {
        validate_cell_character(ch)?;
        let cell = Cell::from_char(ch, style);
        Self::build(size, cell, limits)
    }

    /// Construct a buffer of copies of one cell.
    fn build(size: Size, cell: Cell, limits: RenderLimits) -> (r: Result<Self, Error>)
        ensures
            r matches Ok(b) ==> b.wf(),
            r matches Ok(b) ==> cell_count_spec(limits, size) is Ok && b@ == uniform(size, cell@),
            r matches Err(e) ==> (cell_count_spec(limits, size) == Err::<usize, Error>(e)
                || (cell_count_spec(limits, size) is Ok
                    && e == (Error::RenderAllocation { cells: (size.w * size.h) as usize }))),
    {
        let count = limits.cell_count(size)?;
        let cells = repeat_cell(&cell, count)?;
        assert(cells_view(cells@).len() == count);
        assert(count == size.w * size.h);
        let r = TermBuf { size, cells };
        assert(r@.cells =~= uniform(size, cell@).cells);
        Ok(r)
    }

    /// Create an empty buffer with the given style, under the default limits.
    pub fn empty_with_style(size: Size, style: ResolvedStyle) -> (r: Result<Self, Error>)
        ensures
            r matches Ok(b) ==> b.wf(),
            r matches Ok(b) ==> b@ == uniform(size, empty_cell(style)),
            r matches Err(e) ==> (cell_count_spec(RenderLimits { max_width: 2048, max_height: 2048, max_cells: 1_000_000 }, size) == Err::<usize, Error>(e)
                || e == (Error::RenderAllocation { cells: (size.w * size.h) as usize })),
            cell_count_spec(RenderLimits { max_width: 2048, max_height: 2048, max_cells: 1_000_000 }, size) is Err ==> r is Err,
    {
        Self::empty_with_style_and_limits(size, style, RenderLimits::default())
    }

    /// Create an empty buffer with explicit visible render-target limits.
    pub fn empty_with_style_and_limits(size: Size, style: ResolvedStyle, limits: RenderLimits) -> (r: Result<Self, Error>)
        ensures
            r matches Ok(b) ==> b.wf(),
            r matches Ok(b) ==> b@ == uniform(size, empty_cell(style)),
            r matches Err(e) ==> (cell_count_spec(limits, size) == Err::<usize, Error>(e)
                || e == (Error::RenderAllocation { cells: (size.w * size.h) as usize })),
            cell_count_spec(limits, size) is Err ==> r is Err,
    {
        Self::build(size, Cell::empty(style), limits)
    }

    /// Create an empty buffer, white on black, under the default limits.
    pub fn empty(size: Size) -> (r: Result<Self, Error>)
        ensures
            r matches Ok(b) ==> b.wf(),
            r matches Ok(b) ==> b@ == uniform(size, empty_cell(default_style())),
            r matches Err(e) ==> (cell_count_spec(RenderLimits { max_width: 2048, max_height: 2048, max_cells: 1_000_000 }, size) == Err::<usize, Error>(e)
                || e == (Error::RenderAllocation { cells: (size.w * size.h) as usize })),
            cell_count_spec(RenderLimits { max_width: 2048, max_height: 2048, max_cells: 1_000_000 }, size) is Err ==> r is Err,
    {
        let style = ResolvedStyle { fg: Color::White, bg: Color::Black, attrs: AttrSet::default() };
        Self::empty_with_style(size, style)
    }

    /// Return the buffer size.
    pub fn size(&self) -> (r: Size)
        requires
            self.wf(),
        ensures
            r == self@.size,
    {
        self.size
    }

    /// Return the buffer bounds as a rectangle.
    pub fn rect(&self) -> (r: Rect)
        requires
            self.wf(),
        ensures
            r == (Rect { tl: Point { x: 0, y: 0 }, w: self@.size.w, h: self@.size.h }),
    {
        self.size.rect()
    }

    /// The number of cells, which is the width times the height.
    pub fn cell_len(&self) -> (r: usize)
        requires
            self.wf(),
        ensures
            r == self@.cells.len(),
            r == self@.size.w * self@.size.h,
    {
        self.cells.len()
    }

    /// Convert a point into a cell index.
    fn idx(&self, p: Point) -> (r: Option<usize>)
        requires
            self.wf(),
        ensures
            r matches Some(i) ==> cell_index(self@.size, p) == Some(i as int) && i < self@.cells.len(),
            r is None ==> cell_index(self@.size, p) is None,
    {
        let n = self.cells.len();
        if p.x < self.size.w && p.y < self.size.h {
            let w = self.size.w as usize;
            let x = p.x as usize;
            let y = p.y as usize;
            proof {
                lemma_index_in_bounds(y as int, x as int, w as int, self.size.h as int);
                assert(y * w + x < n);
                assert(0 <= y * w <= y * w + x);
            }
            Some(y * w + x)
        } else {
            None
        }
    }

    /// Get a cell by position.
    pub fn get(&self, p: Point) -> (r: Option<&Cell>)
        requires
            self.wf(),
        ensures
            r matches Some(c) ==> cell_index(self@.size, p) matches Some(i) && c@ == self@.cells[i],
            r is None ==> cell_index(self@.size, p) is None,
    {
        match self.idx(p) {
            Some(i) => Some(&self.cells[i]),
            None => None,
        }
    }
}

/// A point inside a width-by-height grid has an index inside the grid.
pub proof fn lemma_index_in_bounds(y: int, x: int, w: int, h: int)
    requires
        0 <= x < w,
        0 <= y < h,
    ensures
        0 <= y * w + x < w * h,
        y * w + w <= h * w,
{
    assert(y * w + w <= h * w) by (nonlinear_arith)
        requires
            0 <= y < h,
            0 <= w,
    ;
    assert(h * w == w * h) by (nonlinear_arith);
    assert(0 <= y * w) by (nonlinear_arith)
        requires
            0 <= y,
            0 <= w,
    ;
}

// ---------------------------------------------------------------------------
// Grapheme-aware cell updates
// ---------------------------------------------------------------------------

/// The first cell of the grapheme containing cell `x`, searching back no
/// further than `lo`.
pub open spec fn gstart(cells: Seq<CellView>, lo: int, x: int) -> int
    decreases x - lo,
{
    if x > lo && cells[x].continuation {
        gstart(cells, lo, x - 1)
    } else {
        x
    }
}

/// The end of a range extended over trailing continuation cells, searching
/// no further than `hi`.
pub open spec fn gend(cells: Seq<CellView>, hi: int, x: int) -> int
    decreases hi - x,
{
    if x < hi && cells[x].continuation {
        gend(cells, hi, x + 1)
    } else {
        x
    }
}

/// Replace the cells in `a..b` with `c`.
pub open spec fn fill_range(cells: Seq<CellView>, a: int, b: int, c: CellView) -> Seq<CellView> {
    Seq::new(cells.len(), |i: int| if a <= i < b { c } else { cells[i] })
}

/// Clear the whole grapheme occupying cell `x` of the row `lo..hi`.
pub open spec fn clear_at(cells: Seq<CellView>, lo: int, hi: int, x: int, style: ResolvedStyle) -> Seq<CellView> {
    fill_range(cells, gstart(cells, lo, x), gend(cells, hi, x + 1), empty_cell(style))
}

/// Clear every grapheme touched by cells `x..x+k` of the row `lo..hi`, one
/// cell after another.
pub open spec fn clear_span(cells: Seq<CellView>, lo: int, hi: int, x: int, k: int, style: ResolvedStyle) -> Seq<CellView>
    decreases k,
{
    if k <= 0 {
        cells
    } else {
        clear_at(clear_span(cells, lo, hi, x, k - 1, style), lo, hi, x + k - 1, style)
    }
}

/// Write one cell at a point, first clearing the grapheme it lands on;
/// points outside the buffer leave it unchanged.
pub open spec fn put_spec(v: TermBufView, p: Point, c: CellView) -> TermBufView {
    match cell_index(v.size, p) {
        Some(i) => {
            let lo = p.y * v.size.w;
            TermBufView { size: v.size, cells: clear_at(v.cells, lo, lo + v.size.w, i, c.style).update(i, c) }
        },
        None => v,
    }
}

/// The base cell of a grapheme.
pub open spec fn grapheme_cell(g: Seq<char>, style: ResolvedStyle) -> CellView {
    if g.len() > 0 {
        CellView { ch: g[0], suffix: g.drop_first(), style, continuation: false }
    } else {
        CellView { ch: ' ', suffix: Seq::empty(), style, continuation: false }
    }
}

/// Write a grapheme at a point: nothing happens for a zero-width grapheme,
/// a point outside the buffer, or a grapheme wider than the columns left in
/// the row; otherwise every touched grapheme is cleared, the base cell is
/// written and continuation cells fill the rest of its width. Also returns
/// the number of columns written.
pub open spec fn put_grapheme_spec(v: TermBufView, p: Point, g: Seq<char>, style: ResolvedStyle) -> (TermBufView, usize) {
    let width = cell_width(g);
    if width == 0 {
        (v, 0)
    } else {
        match cell_index(v.size, p) {
            None => (v, 0),
            Some(i) => {
                if width > v.size.w - p.x {
                    (v, 0)
                } else {
                    let lo = p.y * v.size.w;
                    let c1 = clear_span(v.cells, lo, lo + v.size.w, i, width as int, style);
                    let c2 = c1.update(i, grapheme_cell(g, style));
                    (TermBufView { size: v.size, cells: fill_range(c2, i + 1, i + width, continuation_cell(style)) }, width)
                }
            },
        }
    }
}

/// Write one cell at each of the `k` points starting at `(x0, y)`.
pub open spec fn fill_row(v: TermBufView, y: u32, x0: int, k: int, c: CellView) -> TermBufView
    decreases k,
{
    if k <= 0 {
        v
    } else {
        put_spec(fill_row(v, y, x0, k - 1, c), Point { x: (x0 + k - 1) as u32, y }, c)
    }
}

/// Write one cell at each point of the first `k` rows of a rectangle, row
/// by row.
pub open spec fn fill_rows(v: TermBufView, r: Rect, k: int, c: CellView) -> TermBufView
    decreases k,
{
    if k <= 0 {
        v
    } else {
        fill_row(fill_rows(v, r, k - 1, c), (r.tl.y + k - 1) as u32, r.tl.x as int, r.w as int, c)
    }
}

/// The buffer rectangle.
pub open spec fn buffer_rect(size: Size) -> Rect {
    Rect { tl: Point { x: 0, y: 0 }, w: size.w, h: size.h }
}

/// Write one cell at each point of a rectangle that lies in the buffer.
pub open spec fn fill_spec(v: TermBufView, r: Rect, c: CellView) -> TermBufView {
    match rect_intersect(buffer_rect(v.size), r) {
        Some(i) => fill_rows(v, i, i.h as int, c),
        None => v,
    }
}

/// Replace every empty cell with a cell.
pub open spec fn fill_empty_spec(v: TermBufView, c: CellView) -> TermBufView {
    TermBufView { size: v.size, cells: Seq::new(v.cells.len(), |i: int| if cell_is_empty(v.cells[i]) { c } else { v.cells[i] }) }
}

/// The style a cursor of the given shape gives a cell.
pub open spec fn cursor_style(s: ResolvedStyle, shape: CursorShape) -> ResolvedStyle {
    match shape {
        CursorShape::Underscore => ResolvedStyle { attrs: attrs_with(s.attrs, Attr::Underline), ..s },
        _ => ResolvedStyle { fg: s.bg, bg: s.fg, ..s },
    }
}

/// Apply the cursor style to the cells `a..b`.
pub open spec fn restyle_range(cells: Seq<CellView>, a: int, b: int, shape: CursorShape) -> Seq<CellView> {
    Seq::new(cells.len(), |i: int| if a <= i < b {
        CellView { style: cursor_style(cells[i].style, shape), ..cells[i] }
    } else {
        cells[i]
    })
}

/// Overlay a cursor: an empty cell under the cursor first becomes a space,
/// then every cell of the grapheme under the cursor takes the cursor style.
pub open spec fn overlay_cursor_spec(v: TermBufView, p: Point, shape: CursorShape) -> TermBufView {
    match cell_index(v.size, p) {
        None => v,
        Some(i) => {
            let c0 = if cell_is_empty(v.cells[i]) {
                v.cells.update(i, CellView { ch: ' ', suffix: Seq::empty(), style: v.cells[i].style, continuation: false })
            } else {
                v.cells
            };
            let lo = p.y * v.size.w;
            TermBufView { size: v.size, cells: restyle_range(c0, gstart(c0, lo, i), gend(c0, lo + v.size.w, i + 1), shape) }
        },
    }
}

/// Fill the eight parts of a frame, in the order top, left, right, bottom,
/// then the four corners.
pub open spec fn solid_frame_spec(v: TermBufView, f: FrameRects, c: CellView) -> TermBufView {
    let v1 = fill_spec(v, f.top, c);
    let v2 = fill_spec(v1, f.left, c);
    let v3 = fill_spec(v2, f.right, c);
    let v4 = fill_spec(v3, f.bottom, c);
    let v5 = fill_spec(v4, f.topleft, c);
    let v6 = fill_spec(v5, f.topright, c);
    let v7 = fill_spec(v6, f.bottomleft, c);
    fill_spec(v7, f.bottomright, c)
}

pub(crate) proof fn lemma_gstart_bounds(cells: Seq<CellView>, lo: int, x: int)
    requires
        lo <= x,
    ensures
        lo <= gstart(cells, lo, x) <= x,
    decreases x - lo,
{
    if x > lo && cells[x].continuation {
        lemma_gstart_bounds(cells, lo, x - 1);
    }
}

pub(crate) proof fn lemma_gend_bounds(cells: Seq<CellView>, hi: int, x: int)
    requires
        x <= hi,
    ensures
        x <= gend(cells, hi, x) <= hi,
    decreases hi - x,
{
    if x < hi && cells[x].continuation {
        lemma_gend_bounds(cells, hi, x + 1);
    }
}

/// Position of a row in the grid.
proof fn lemma_row_bounds(y: int, w: int, h: int)
    requires
        0 <= y < h,
        0 <= w,
    ensures
        0 <= y * w,
        y * w + w <= w * h,
{
    assert(y * w + w <= h * w) by (nonlinear_arith)
        requires
            0 <= y < h,
            0 <= w,
    ;
    assert(h * w == w * h) by (nonlinear_arith);
    assert(0 <= y * w) by (nonlinear_arith)
        requires
            0 <= y,
            0 <= w,
    ;
}

impl TermBuf {
    /// Replace one cell.
    fn set_cell(&mut self, i: usize, c: Cell)
        requires
            old(self).wf(),
            i < old(self)@.cells.len(),
        ensures
            final(self).wf(),
            final(self)@ == (TermBufView { size: old(self)@.size, cells: old(self)@.cells.update(i as int, c@) }),
    {
        let ghost before = self.cells@;
        self.cells.set(i, c);
        assert(cells_view(self.cells@) =~= cells_view(before).update(i as int, c@));
    }

    /// First cell of the grapheme containing `x`, no further back than `lo`.
    fn grapheme_start(&self, lo: usize, x: usize) -> (r: usize)
        requires
            self.wf(),
            lo <= x < self@.cells.len(),
        ensures
            r == gstart(self@.cells, lo as int, x as int),
            lo <= r <= x,
    {
        let mut i = x;
        while i > lo && self.cells[i].continuation
            invariant
                self.wf(),
                lo <= i <= x,
                x < self@.cells.len(),
                gstart(self@.cells, lo as int, i as int) == gstart(self@.cells, lo as int, x as int),
            decreases i,
        {
            i = i - 1;
        }
        proof {
            lemma_gstart_bounds(self@.cells, lo as int, x as int);
        }
        i
    }

    /// End of a range extended over continuation cells, no further than `hi`.
    fn grapheme_end(&self, hi: usize, x: usize) -> (r: usize)
        requires
            self.wf(),
            x <= hi <= self@.cells.len(),
        ensures
            r == gend(self@.cells, hi as int, x as int),
            x <= r <= hi,
    {
        let mut i = x;
        while i < hi && self.cells[i].continuation
            invariant
                self.wf(),
                x <= i <= hi,
                hi <= self@.cells.len(),
                gend(self@.cells, hi as int, i as int) == gend(self@.cells, hi as int, x as int),
            decreases hi - i,
        {
            i = i + 1;
        }
        proof {
            lemma_gend_bounds(self@.cells, hi as int, x as int);
        }
        i
    }

    /// Replace the cells `a..b` with copies of a cell.
    fn fill_cells(&mut self, a: usize, b: usize, c: &Cell)
        requires
            old(self).wf(),
            a <= b <= old(self)@.cells.len(),
        ensures
            final(self).wf(),
            final(self)@ == (TermBufView { size: old(self)@.size, cells: fill_range(old(self)@.cells, a as int, b as int, c@) }),
    {
        let mut i = a;
        while i < b
            invariant
                self.wf(),
                a <= i <= b,
                b <= self@.cells.len(),
                self@.size == old(self)@.size,
                self@.cells == fill_range(old(self)@.cells, a as int, i as int, c@),
            decreases b - i,
        {
            self.set_cell(i, c.clone());
            i = i + 1;
            assert(self@.cells =~= fill_range(old(self)@.cells, a as int, i as int, c@));
        }
        assert(self@.cells =~= fill_range(old(self)@.cells, a as int, b as int, c@));
    }

    /// Clear the complete grapheme occupying cell `x` of the row `lo..hi`.
    fn clear_grapheme_at(&mut self, lo: usize, hi: usize, x: usize, style: ResolvedStyle)
        requires
            old(self).wf(),
            lo <= x < hi <= old(self)@.cells.len(),
        ensures
            final(self).wf(),
            final(self)@ == (TermBufView { size: old(self)@.size, cells: clear_at(old(self)@.cells, lo as int, hi as int, x as int, style) }),
    {
        let start = self.grapheme_start(lo, x);
        let end = self.grapheme_end(hi, x + 1);
        let empty = Cell::empty(style);
        self.fill_cells(start, end, &empty);
    }

    /// The row bounds of the row holding point `p`.
    fn row_bounds(&self, p: Point) -> (r: (usize, usize, usize))
        requires
            self.wf(),
            cell_index(self@.size, p) is Some,
        ensures
            r.0 == p.y * self@.size.w,
            r.1 == p.y * self@.size.w + self@.size.w,
            r.2 == p.y * self@.size.w + p.x,
            r.0 <= r.2 < r.1 <= self@.cells.len(),
    {
        proof {
            lemma_row_bounds(p.y as int, self.size.w as int, self.size.h as int);
        }
        let n = self.cells.len();
        let w = self.size.w as usize;
        let lo = p.y as usize * w;
        (lo, lo + w, lo + p.x as usize)
    }

    /// Write a cell at a point, clearing the grapheme it lands on.
    fn put_cell(&mut self, p: Point, c: Cell)
        requires
            old(self).wf(),
        ensures
            final(self).wf(),
            final(self)@ == put_spec(old(self)@, p, c@),
    {
        match self.idx(p) {
            None => {},
            Some(i) => {
                let (lo, hi, _) = self.row_bounds(p);
                self.clear_grapheme_at(lo, hi, i, c.style);
                self.set_cell(i, c);
            },
        }
    }

    /// Write a single-cell character at a specific point.
    ///
    /// Fails, leaving the buffer unchanged, when the character does not
    /// occupy exactly one cell.
    pub fn put(&mut self, p: Point, ch: char, style: ResolvedStyle) -> (r: Result<(), Error>)
        requires
            old(self).wf(),
        ensures
            final(self).wf(),
            r is Ok <==> cell_char_ok(ch),
            r matches Err(e) ==> e == cell_char_error(ch) && final(self)@ == old(self)@,
            r is Ok ==> final(self)@ == put_spec(old(self)@, p, char_cell(ch, style)),
    {
        validate_cell_character(ch)?;
        self.put_cell(p, Cell::from_char(ch, style));
        Ok(())
    }

    /// Clear every grapheme touched by the cells `x..x+k` of the row `lo..hi`.
    fn clear_graphemes(&mut self, lo: usize, hi: usize, x: usize, k: usize, style: ResolvedStyle)
        requires
            old(self).wf(),
            lo <= x,
            x + k <= hi <= old(self)@.cells.len(),
        ensures
            final(self).wf(),
            final(self)@ == (TermBufView { size: old(self)@.size, cells: clear_span(old(self)@.cells, lo as int, hi as int, x as int, k as int, style) }),
    {
        let mut j: usize = 0;
        while j < k
            invariant
                self.wf(),
                j <= k,
                lo <= x,
                x + k <= hi <= self@.cells.len(),
                self@.size == old(self)@.size,
                self@.cells == clear_span(old(self)@.cells, lo as int, hi as int, x as int, j as int, style),
            decreases k - j,
        {
            self.clear_grapheme_at(lo, hi, x + j, style);
            j = j + 1;
        }
    }

    /// Write a grapheme cluster and return its terminal cell width.
    ///
    /// Zero-width graphemes, points outside the buffer, and graphemes wider
    /// than the rest of the row write nothing and return 0.
    pub fn put_grapheme(&mut self, p: Point, grapheme: &str, style: ResolvedStyle) -> (r: Result<usize, Error>)
        requires
            old(self).wf(),
        ensures
            final(self).wf(),
            r matches Ok(w) && (final(self)@, w) == put_grapheme_spec(old(self)@, p, grapheme@, style),
    {
        let width = grapheme_width(grapheme);
        if width == 0 {
            return Ok(0);
        }
        let index = match self.idx(p) {
            Some(i) => i,
            None => {
                return Ok(0);
            },
        };
        let available = (self.size.w - p.x) as usize;
        if width > available {
            return Ok(0);
        }
        let (lo, hi, _) = self.row_bounds(p);
        self.clear_graphemes(lo, hi, index, width, style);
        let chars = str_to_chars(grapheme);
        let mut suffix = String::new();
        let mut k: usize = 1;
        while k < chars.len()
            invariant
                self.wf(),
                1 <= k,
                chars@ == grapheme@,
                k <= chars@.len() || chars@.len() == 0,
                chars@.len() > 0 ==> suffix@ == chars@.subrange(1, k as int),
                chars@.len() == 0 ==> suffix@.len() == 0,
            decreases chars@.len() - k,
        {
            push_char(&mut suffix, chars[k]);
            k = k + 1;
            assert(suffix@ =~= chars@.subrange(1, k as int));
        }
        let ch = if chars.len() > 0 { chars[0] } else { ' ' };
        let base = Cell { ch, suffix, style, continuation: false };
        proof {
            if chars@.len() > 0 {
                assert(k == chars@.len());
                assert(chars@.subrange(1, chars@.len() as int) =~= grapheme@.drop_first());
                assert(suffix@ =~= grapheme@.drop_first());
            } else {
                assert(suffix@ =~= Seq::<char>::empty());
            }
            assert(base@ == grapheme_cell(grapheme@, style));
        }
        self.set_cell(index, base);
        let cont = Cell::continuation(style);
        self.fill_cells(index + 1, index + width, &cont);
        Ok(width)
    }

    /// Write a cell at each of the `k` points starting at `(x0, y)`.
    fn fill_row_cells(&mut self, y: u32, x0: u32, k: u32, c: &Cell)
        requires
            old(self).wf(),
            x0 + k <= u32::MAX,
        ensures
            final(self).wf(),
            final(self)@ == fill_row(old(self)@, y, x0 as int, k as int, c@),
    {
        let mut j: u32 = 0;
        while j < k
            invariant
                self.wf(),
                j <= k,
                x0 + k <= u32::MAX,
                self@ == fill_row(old(self)@, y, x0 as int, j as int, c@),
            decreases k - j,
        {
            self.put_cell(Point { x: x0 + j, y }, c.clone());
            j = j + 1;
        }
    }

    /// Write a cell at each point of a rectangle that lies in the buffer.
    fn fill_cells_in(&mut self, r: Rect, c: &Cell)
        requires
            old(self).wf(),
        ensures
            final(self).wf(),
            final(self)@ == fill_spec(old(self)@, r, c@),
    {
        match self.rect().intersect(&r) {
            None => {},
            Some(isec) => {
                let mut j: u32 = 0;
                while j < isec.h
                    invariant
                        self.wf(),
                        j <= isec.h,
                        isec.tl.x + isec.w <= u32::MAX,
                        isec.tl.y + isec.h <= u32::MAX,
                        self@ == fill_rows(old(self)@, isec, j as int, c@),
                    decreases isec.h - j,
                {
                    self.fill_row_cells(isec.tl.y + j, isec.tl.x, isec.w, c);
                    j = j + 1;
                }
            },
        }
    }

    /// Fill a rectangle with a glyph and style.
    ///
    /// Fails, leaving the buffer unchanged, when the character does not
    /// occupy exactly one cell.
    pub fn fill(&mut self, style: &ResolvedStyle, r: Rect, ch: char) -> (res: Result<(), Error>)
        requires
            old(self).wf(),
        ensures
            final(self).wf(),
            res is Ok <==> cell_char_ok(ch),
            res matches Err(e) ==> e == cell_char_error(ch) && final(self)@ == old(self)@,
            res is Ok ==> final(self)@ == fill_spec(old(self)@, r, char_cell(ch, *style)),
    {
        validate_cell_character(ch)?;
        let c = Cell::from_char(ch, *style);
        self.fill_cells_in(r, &c);
        Ok(())
    }

    /// Fill all empty cells with the given character and style.
    pub fn fill_empty(&mut self, ch: char, style: &ResolvedStyle) -> (r: Result<(), Error>)
        requires
            old(self).wf(),
        ensures
            final(self).wf(),
            r is Ok <==> cell_char_ok(ch),
            r matches Err(e) ==> e == cell_char_error(ch) && final(self)@ == old(self)@,
            r is Ok ==> final(self)@ == fill_empty_spec(old(self)@, char_cell(ch, *style)),
    {
        validate_cell_character(ch)?;
        let c = Cell::from_char(ch, *style);
        let n = self.cell_len();
        let mut i: usize = 0;
        while i < n
            invariant
                self.wf(),
                i <= n,
                n == self@.cells.len(),
                self@.size == old(self)@.size,
                self@.cells.len() == old(self)@.cells.len(),
                forall|j: int| 0 <= j < i ==> #[trigger] self@.cells[j] == (if cell_is_empty(old(self)@.cells[j]) { c@ } else { old(self)@.cells[j] }),
                forall|j: int| i <= j < n ==> #[trigger] self@.cells[j] == old(self)@.cells[j],
            decreases n - i,
        {
            let ghost before = self@.cells;
            assert(self@.cells[i as int] == self.cells@[i as int]@);
            if self.cells[i].is_empty() {
                self.set_cell(i, c.clone());
            }
            assert(self@.cells[i as int] == (if cell_is_empty(old(self)@.cells[i as int]) { c@ } else { old(self)@.cells[i as int] }));
            assert(forall|j: int| 0 <= j < self@.cells.len() && j != i ==> self@.cells[j] == before[j]);
            i = i + 1;
        }
        assert(self@.cells =~= fill_empty_spec(old(self)@, c@).cells);
        Ok(())
    }

    /// Overlay a cursor on a cell by adjusting its style.
    pub fn overlay_cursor(&mut self, location: Point, shape: CursorShape)
        requires
            old(self).wf(),
        ensures
            final(self).wf(),
            final(self)@ == overlay_cursor_spec(old(self)@, location, shape),
    {
        let i = match self.idx(location) {
            Some(i) => i,
            None => {
                return;
            },
        };
        if self.cells[i].is_empty() {
            let style = self.cells[i].style;
            self.set_cell(i, Cell::new(' ', style));
        }
        let ghost c0 = self@.cells;
        let (lo, hi, _) = self.row_bounds(location);
        let start = self.grapheme_start(lo, i);
        let end = self.grapheme_end(hi, i + 1);
        let mut k = start;
        while k < end
            invariant
                self.wf(),
                start <= k <= end,
                end <= self@.cells.len(),
                self@.size == old(self)@.size,
                self@.cells == restyle_range(c0, start as int, k as int, shape),
                c0.len() == self@.cells.len(),
            decreases end - k,
        {
            let old_cell = &self.cells[k];
            let mut st = old_cell.style;
            match shape {
                CursorShape::Underscore => {
                    st.attrs = st.attrs.with(Attr::Underline);
                },
                CursorShape::Block | CursorShape::Line => {
                    let fg = st.fg;
                    st.fg = st.bg;
                    st.bg = fg;
                },
            }
            let updated = Cell { ch: old_cell.ch, suffix: old_cell.suffix.clone(), style: st, continuation: old_cell.continuation };
            assert(self@.cells[k as int] == c0[k as int]);
            assert(updated@ == (CellView { style: cursor_style(c0[k as int].style, shape), ..c0[k as int] }));
            self.set_cell(k, updated);
            k = k + 1;
            assert(self@.cells =~= restyle_range(c0, start as int, k as int, shape));
        }
        assert(self@.cells =~= restyle_range(c0, start as int, end as int, shape));
    }

    /// Fill the frame outline with a glyph and style.
    pub fn solid_frame(&mut self, style: &ResolvedStyle, f: FrameRects, ch: char) -> (r: Result<(), Error>)
        requires
            old(self).wf(),
        ensures
            final(self).wf(),
            r is Ok <==> cell_char_ok(ch),
            r matches Err(e) ==> e == cell_char_error(ch) && final(self)@ == old(self)@,
            r is Ok ==> final(self)@ == solid_frame_spec(old(self)@, f, char_cell(ch, *style)),
    {
        self.fill(style, f.top, ch)?;
        self.fill(style, f.left, ch)?;
        self.fill(style, f.right, ch)?;
        self.fill(style, f.bottom, ch)?;
        self.fill(style, f.topleft, ch)?;
        self.fill(style, f.topright, ch)?;
        self.fill(style, f.bottomleft, ch)?;
        self.fill(style, f.bottomright, ch)
    }
}

// ---------------------------------------------------------------------------
// Text layout
// ---------------------------------------------------------------------------

/// Progress of laying out text on a line: the buffer so far, the column of
/// the next grapheme relative to the line start, the number of visible
/// columns written, and whether a grapheme failed to fit.
pub struct TextState {
    /// The buffer so far.
    pub buf: TermBufView,
    /// Column of the next grapheme, relative to the line start.
    pub pos: int,
    /// Visible columns written.
    pub col: int,
    /// Whether layout stopped at a grapheme that did not fit.
    pub stopped: bool,
}

/// Lay out one grapheme. Zero-width graphemes are skipped. A grapheme that
/// starts left of the visible columns is skipped, and the visible part of a
/// wide grapheme cut by the left edge is blanked with spaces. A grapheme
/// that does not fit in the visible columns stops the layout.
pub open spec fn text_step(st: TextState, g: Seq<char>, y: u32, x0: u32, offset: int, max: int, style: ResolvedStyle) -> TextState {
    let w = cell_width(g) as int;
    if st.stopped || w == 0 {
        st
    } else if st.pos < offset {
        let np = st.pos + w;
        if np > offset {
            let nc = min_int(np - offset, max);
            TextState {
                buf: fill_row(st.buf, y, x0 + st.col, nc - st.col, char_cell(' ', style)),
                pos: np,
                col: nc,
                stopped: false,
            }
        } else {
            TextState { buf: st.buf, pos: np, col: st.col, stopped: false }
        }
    } else if st.col + w > max {
        TextState { buf: st.buf, pos: st.pos, col: st.col, stopped: true }
    } else {
        TextState {
            buf: put_grapheme_spec(st.buf, Point { x: (x0 + st.col) as u32, y }, g, style).0,
            pos: st.pos + w,
            col: st.col + w,
            stopped: false,
        }
    }
}

/// Lay out the first `k` graphemes.
pub open spec fn text_fold(v: TermBufView, gs: Seq<Seq<char>>, k: int, y: u32, x0: u32, offset: int, max: int, style: ResolvedStyle) -> TextState
    decreases k,
{
    if k <= 0 {
        TextState { buf: v, pos: 0, col: 0, stopped: false }
    } else {
        text_step(text_fold(v, gs, k - 1, y, x0, offset, max, style), gs[k - 1], y, x0, offset, max, style)
    }
}

/// Draw text on a line, clipped to the buffer: the graphemes are laid out
/// by display width from the start of the line, and the visible columns
/// left after the text are padded with spaces.
pub open spec fn text_spec(v: TermBufView, l: Line, txt: Seq<char>, style: ResolvedStyle) -> TermBufView {
    match rect_intersect(buffer_rect(v.size), Rect { tl: l.tl, w: l.w, h: 1 }) {
        None => v,
        Some(isec) => text_run_spec(v, isec.tl.y, isec.tl.x, isec.tl.x - l.tl.x, isec.w as int, txt, style),
    }
}

/// Lay out text on row `y` from column `x0`: the first `offset` columns of
/// the text are skipped, at most `max` columns are written, and the columns
/// left are padded with spaces.
pub open spec fn text_run_spec(v: TermBufView, y: u32, x0: u32, offset: int, max: int, txt: Seq<char>, style: ResolvedStyle) -> TermBufView {
    let gs = grapheme_clusters(txt);
    let st = text_fold(v, gs, gs.len() as int, y, x0, offset, max, style);
    fill_row(st.buf, y, x0 + st.col, max - st.col, char_cell(' ', style))
}

/// The text of cells `lo..lo+k`, concatenated.
pub open spec fn row_text(cells: Seq<CellView>, lo: int, k: int) -> Seq<char>
    decreases k,
{
    if k <= 0 {
        Seq::empty()
    } else {
        row_text(cells, lo, k - 1) + rendered_text_spec(cells[lo + k - 1])
    }
}

/// The first `k` rows of the screen, joined by newlines.
pub open spec fn screen_rows(v: TermBufView, k: int) -> Seq<char>
    decreases k,
{
    if k <= 0 {
        Seq::empty()
    } else if k == 1 {
        row_text(v.cells, 0, v.size.w as int)
    } else {
        screen_rows(v, k - 1) + seq!['\n'] + row_text(v.cells, (k - 1) * v.size.w, v.size.w as int)
    }
}

impl TermBuf {
    /// Draw text clipped to the given line.
    pub fn text(&mut self, style: &ResolvedStyle, l: Line, txt: &str) -> (r: Result<(), Error>)
        requires
            old(self).wf(),
        ensures
            final(self).wf(),
            r is Ok,
            final(self)@ == text_spec(old(self)@, l, txt@, *style),
    {
        let isec = match self.rect().intersect(&l.rect()) {
            None => {
                return Ok(());
            },
            Some(i) => i,
        };
        self.text_run(style, isec.tl.y, isec.tl.x, (isec.tl.x - l.tl.x) as u64, isec.w, txt);
        Ok(())
    }

    /// Lay out text on row `y` from column `x0`, skipping the first `offset`
    /// columns of the text, writing at most `max` columns and padding the
    /// rest with spaces.
    pub(crate) fn text_run(&mut self, style: &ResolvedStyle, y: u32, x0: u32, offset: u64, max: u32, txt: &str)
        requires
            old(self).wf(),
            x0 + max <= u32::MAX,
        ensures
            final(self).wf(),
            final(self)@ == text_run_spec(old(self)@, y, x0, offset as int, max as int, txt@, *style),
    {
        let offset: u128 = offset as u128;
        let max: u128 = max as u128;
        let gs = graphemes_of(txt);
        let ghost gsv = grapheme_clusters(txt@);
        let space = Cell::from_char(' ', *style);
        let mut pos: u128 = 0;
        let mut col: u128 = 0;
        let mut stopped = false;
        let mut i: usize = 0;
        while i < gs.len()
            invariant
                self.wf(),
                gs@.map_values(|g: String| g@) == gsv,
                i <= gs@.len(),
                offset <= u64::MAX,
                max <= u32::MAX,
                x0 + max <= u32::MAX,
                col <= max,
                pos <= offset ==> col == 0,
                pos <= offset + usize::MAX + col,
                space@ == char_cell(' ', *style),
                ({
                    let st = text_fold(old(self)@, gsv, i as int, y, x0, offset as int, max as int, *style);
                    &&& st.buf == self@
                    &&& st.pos == pos
                    &&& st.col == col
                    &&& st.stopped == stopped
                }),
            decreases gs@.len() - i,
        {
            assert(gs@[i as int]@ == gsv[i as int]);
            let g = &gs[i];
            let w = grapheme_width(g.as_str()) as u128;
            if stopped || w == 0 {
            } else if pos < offset {
                let np = pos + w;
                if np > offset {
                    let nc = if np - offset <= max { np - offset } else { max };
                    self.fill_row_cells(y, (x0 as u128 + col) as u32, (nc - col) as u32, &space);
                    col = nc;
                }
                pos = np;
            } else if col + w > max {
                stopped = true;
            } else {
                let _ = self.put_grapheme(Point { x: (x0 as u128 + col) as u32, y }, g.as_str(), *style);
                pos = pos + w;
                col = col + w;
            }
            i = i + 1;
        }
        self.fill_row_cells(y, (x0 as u128 + col) as u32, (max - col) as u32, &space);
    }

    /// Return the rendered screen as rows of cell strings.
    pub fn rows(&self) -> (r: Vec<Vec<String>>)
        requires
            self.wf(),
        ensures
            r@.len() == self@.size.h,
            forall|y: int| 0 <= y < self@.size.h ==> #[trigger] r@[y]@.len() == self@.size.w,
            forall|y: int, x: int| 0 <= y < self@.size.h && 0 <= x < self@.size.w
                ==> #[trigger] r@[y]@[x]@ == rendered_text_spec(self@.cells[y * self@.size.w + x]),
    {
        let mut rows: Vec<Vec<String>> = Vec::new();
        let mut y: u32 = 0;
        while y < self.size.h
            invariant
                self.wf(),
                y <= self@.size.h,
                rows@.len() == y,
                forall|yy: int| 0 <= yy < y ==> #[trigger] rows@[yy]@.len() == self@.size.w,
                forall|yy: int, x: int| 0 <= yy < y && 0 <= x < self@.size.w
                    ==> #[trigger] rows@[yy]@[x]@ == rendered_text_spec(self@.cells[yy * self@.size.w + x]),
            decreases self@.size.h - y,
        {
            let mut row: Vec<String> = Vec::new();
            let mut x: u32 = 0;
            while x < self.size.w
                invariant
                    self.wf(),
                    y < self@.size.h,
                    x <= self@.size.w,
                    row@.len() == x,
                    forall|xx: int| 0 <= xx < x ==> #[trigger] row@[xx]@ == rendered_text_spec(self@.cells[y * self@.size.w + xx]),
                decreases self@.size.w - x,
            {
                let cell = self.get(Point { x, y }).unwrap();
                row.push(cell.rendered_text());
                x = x + 1;
            }
            rows.push(row);
            y = y + 1;
        }
        rows
    }

    /// Return the rendered screen as newline-joined plain text.
    pub fn screen_text(&self) -> (r: String)
        requires
            self.wf(),
        ensures
            r@ == screen_rows(self@, self@.size.h as int),
    {
        let mut out = String::new();
        let mut y: u32 = 0;
        while y < self.size.h
            invariant
                self.wf(),
                y <= self@.size.h,
                out@ == screen_rows(self@, y as int),
            decreases self@.size.h - y,
        {
            if y > 0 {
                push_char(&mut out, '\n');
            }
            let ghost before = out@;
            let mut x: u32 = 0;
            while x < self.size.w
                invariant
                    self.wf(),
                    y < self@.size.h,
                    x <= self@.size.w,
                    out@ == (if y > 0 { screen_rows(self@, y as int) + seq!['\n'] } else { Seq::empty() })
                        + row_text(self@.cells, y * self@.size.w, x as int),
                decreases self@.size.w - x,
            {
                let cell = self.get(Point { x, y }).unwrap();
                let t = cell.rendered_text();
                out.append(t.as_str());
                x = x + 1;
                proof {
                    assert(y * self@.size.w + x - 1 == y * self@.size.w + (x - 1));
                }
            }
            y = y + 1;
            proof {
                if y == 1 {
                    assert(0 * self@.size.w == 0);
                    assert(out@ =~= screen_rows(self@, 1));
                } else {
                    assert(out@ =~= screen_rows(self@, y as int));
                }
            }
        }
        out
    }
}


/// Rows `0..k` of a rectangle of the screen, joined by newlines.
pub open spec fn rect_rows(v: TermBufView, r: Rect, k: int) -> Seq<char>
    decreases k,
{
    if k <= 0 {
        Seq::empty()
    } else if k == 1 {
        row_text(v.cells, r.tl.y * v.size.w + r.tl.x, r.w as int)
    } else {
        rect_rows(v, r, k - 1) + seq!['\n'] + row_text(v.cells, (r.tl.y + k - 1) * v.size.w + r.tl.x, r.w as int)
    }
}

/// The text inside a rectangle of the screen: its overlap with the screen,
/// row by row, joined by newlines; empty when they do not overlap.
pub open spec fn rect_text(v: TermBufView, rect: Rect) -> Seq<char> {
    match rect_intersect(rect, Rect { tl: Point { x: 0, y: 0 }, w: v.size.w, h: v.size.h }) {
        Some(c) => rect_rows(v, c, c.h as int),
        None => Seq::empty(),
    }
}

impl TermBuf {
    /// Return the rendered text inside a rectangle, clipped to the screen,
    /// one line per row.
    pub fn screen_text_for_rect(&self, rect: Rect) -> (r: String)
        requires
            self.wf(),
        ensures
            r@ == rect_text(self@, rect),
    {
        let screen = self.rect();
        let c = match rect.intersect(&screen) {
            Some(c) => c,
            None => return String::new(),
        };
        let mut out = String::new();
        let mut k: u32 = 0;
        while k < c.h
            invariant
                self.wf(),
                c.tl.x + c.w <= self@.size.w,
                c.tl.y + c.h <= self@.size.h,
                k <= c.h,
                out@ == rect_rows(self@, c, k as int),
            decreases c.h - k,
        {
            if k > 0 {
                push_char(&mut out, '\n');
            }
            let y = c.tl.y + k;
            let ghost before = out@;
            let mut i: u32 = 0;
            while i < c.w
                invariant
                    self.wf(),
                    c.tl.x + c.w <= self@.size.w,
                    c.tl.y + c.h <= self@.size.h,
                    k < c.h,
                    y == c.tl.y + k,
                    i <= c.w,
                    out@ == before + row_text(self@.cells, y * self@.size.w + c.tl.x, i as int),
                decreases c.w - i,
            {
                let cell = self.get(Point { x: c.tl.x + i, y }).unwrap();
                let t = cell.rendered_text();
                out.append(t.as_str());
                proof {
                    assert(y * self@.size.w + (c.tl.x + i) == y * self@.size.w + c.tl.x + i);
                }
                i = i + 1;
            }
            k = k + 1;
            proof {
                if k == 1 {
                    assert(out@ =~= rect_rows(self@, c, 1));
                } else {
                    assert(out@ =~= rect_rows(self@, c, k as int));
                }
            }
        }
        out
    }
}


/// Rows of the whole-screen rectangle are the screen's rows.
proof fn lemma_rect_rows_whole(v: TermBufView, k: int)
    requires
        0 <= k <= v.size.h,
    ensures
        rect_rows(v, Rect { tl: Point { x: 0, y: 0 }, w: v.size.w, h: v.size.h }, k) == screen_rows(v, k),
    decreases k,
{
    if k > 1 {
        lemma_rect_rows_whole(v, k - 1);
    }
}

/// Law: the text inside the whole-screen rectangle is the screen text.
pub proof fn law_whole_screen_rect_text(v: TermBufView)
    requires
        v.size.w > 0,
        v.size.h > 0,
    ensures
        rect_text(v, Rect { tl: Point { x: 0, y: 0 }, w: v.size.w, h: v.size.h }) == screen_rows(v, v.size.h as int),
{
    lemma_rect_rows_whole(v, v.size.h as int);
}


/// A well-formed buffer has as many cells as its width times its height.
pub proof fn lemma_buffer_sized(b: &TermBuf)
    requires
        b.wf(),
    ensures
        canon::sized(b@),
{
}

} // verus!
