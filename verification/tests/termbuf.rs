use canopy::error::Error;
use canopy::geom::{FrameRects, Line, Point, Rect, Size};
use canopy::render::{NopBackend, RenderBackend};
use canopy::style::color::Color;
use canopy::style::{AttrSet, ResolvedStyle};
use canopy::termbuf::diff::{BackendCaps, RenderOp};
use canopy::termbuf::{CursorShape, RenderLimits, TermBuf};
use unicode_segmentation::UnicodeSegmentation;

fn def_style() -> ResolvedStyle {
    ResolvedStyle { fg: Color::White, bg: Color::Black, attrs: AttrSet::default() }
}

fn buf_from_rows(rows: &[&str]) -> TermBuf {
    let height = rows.len() as u32;
    let width = rows.first().map(|row| row.len()).unwrap_or(0) as u32;
    let style = def_style();
    let mut tb = TermBuf::new(Size::new(width, height), ' ', style).expect("test render target should allocate");
    for (y, row) in rows.iter().enumerate() {
        tb.text(&style, Line::new(0, y as u32, width), row).expect("test buffer mutation should succeed");
    }
    tb
}

/// Render a buffer as text, `X` marking empty cells and `>` continuations.
fn marked(tb: &TermBuf) -> Vec<String> {
    let size = tb.size();
    (0..size.h)
        .map(|y| {
            (0..size.w)
                .map(|x| {
                    let cell = tb.get(Point { x, y }).unwrap();
                    if cell.continuation {
                        ">".to_string()
                    } else if cell.is_empty() {
                        "X".to_string()
                    } else {
                        cell.rendered_text()
                    }
                })
                .collect::<String>()
        })
        .collect()
}

struct RecBackend {
    ops: Vec<String>,
}

impl RecBackend {
    fn new() -> Self {
        Self { ops: Vec::new() }
    }
}

impl RenderBackend for RecBackend {
    fn style(&mut self, s: &ResolvedStyle) -> Result<(), Error> {
        self.ops.push(format!("style {s:?}"));
        Ok(())
    }

    fn text(&mut self, loc: Point, txt: &str) -> Result<(), Error> {
        self.ops.push(format!("text {} {} {}", loc.x, loc.y, txt));
        Ok(())
    }

    fn flush(&mut self) -> Result<(), Error> {
        Ok(())
    }
}

struct ShiftBackend {
    shift: Option<(u32, u32, i32)>,
    text_ops: usize,
}

impl RenderBackend for ShiftBackend {
    fn style(&mut self, _s: &ResolvedStyle) -> Result<(), Error> {
        Ok(())
    }

    fn text(&mut self, _loc: Point, _txt: &str) -> Result<(), Error> {
        self.text_ops += 1;
        Ok(())
    }

    fn supports_line_shift(&self) -> bool {
        true
    }

    fn shift_lines(&mut self, top: u32, bottom: u32, count: i32) -> Result<(), Error> {
        self.shift = Some((top, bottom, count));
        Ok(())
    }

    fn flush(&mut self) -> Result<(), Error> {
        Ok(())
    }
}

/// A backend that keeps the first character of each written grapheme,
/// treating every grapheme as one column wide.
struct ReplayBackend {
    rows: Vec<Vec<char>>,
}

impl ReplayBackend {
    fn blank(size: Size) -> Self {
        Self { rows: vec![vec![' '; size.w as usize]; size.h as usize] }
    }

    fn screen_text(&self) -> String {
        self.rows.iter().map(|row| row.iter().collect::<String>()).collect::<Vec<_>>().join("\n")
    }
}

impl RenderBackend for ReplayBackend {
    fn style(&mut self, _style: &ResolvedStyle) -> Result<(), Error> {
        Ok(())
    }

    fn text(&mut self, loc: Point, txt: &str) -> Result<(), Error> {
        let y = loc.y as usize;
        let mut x = loc.x as usize;
        for grapheme in txt.graphemes(true) {
            if x < self.rows[y].len() {
                self.rows[y][x] = grapheme.chars().next().unwrap_or(' ');
            }
            x += 1;
        }
        Ok(())
    }

    fn flush(&mut self) -> Result<(), Error> {
        Ok(())
    }
}

#[test]
fn basic_fill() {
    let mut tb = TermBuf::new(Size::new(4, 2), ' ', def_style()).expect("test render target should allocate");
    tb.fill(&def_style(), Rect::new(1, 0, 2, 2), 'x').expect("test buffer mutation should succeed");
    assert_eq!(marked(&tb), vec![" xx ", " xx "]);
}

#[test]
fn allocation_limits_are_checked_before_reservation() {
    let style = def_style();
    assert!(matches!(
        TermBuf::new_with_limits(Size::new(5, 1), ' ', style, RenderLimits::new(4, 4, 16)),
        Err(Error::RenderWidthLimit { .. })
    ));
    assert!(matches!(
        TermBuf::new_with_limits(Size::new(2, 5), ' ', style, RenderLimits::new(5, 4, 20)),
        Err(Error::RenderHeightLimit { .. })
    ));
    assert!(matches!(
        TermBuf::new_with_limits(Size::new(4, 4), ' ', style, RenderLimits::new(4, 4, 15)),
        Err(Error::RenderCellLimit { .. })
    ));
    assert!(matches!(
        TermBuf::new_with_limits(
            Size::new(u32::MAX, u32::MAX),
            ' ',
            style,
            RenderLimits::new(u32::MAX, u32::MAX, usize::MAX),
        ),
        Err(Error::RenderAllocation { .. } | Error::RenderCellCountOverflow { .. })
    ));
}

#[test]
fn single_cell_apis_reject_non_cell_characters() {
    let style = def_style();
    assert!(matches!(
        TermBuf::new(Size::new(1, 1), '界', style),
        Err(Error::InvalidCellCharacter { width: 2, .. })
    ));
    let mut buf = TermBuf::empty(Size::new(3, 3)).expect("test render target should allocate");
    assert!(matches!(buf.fill(&style, Rect::new(0, 0, 1, 1), '界'), Err(Error::InvalidCellCharacter { width: 2, .. })));
    assert!(matches!(buf.fill_empty('\u{0301}', &style), Err(Error::InvalidCellCharacter { width: 0, .. })));
    assert!(matches!(
        buf.solid_frame(&style, FrameRects::new(buf.rect(), 1), '界'),
        Err(Error::InvalidCellCharacter { width: 2, .. })
    ));
}

#[test]
fn grapheme_replacement_clears_every_touched_grapheme() -> Result<(), Error> {
    let style = def_style();
    let mut buf = TermBuf::new(Size::new(4, 1), '.', style)?;
    assert_eq!(buf.put_grapheme(Point { x: 1, y: 0 }, "界", style)?, 2);
    buf.put(Point { x: 2, y: 0 }, 'x', style)?;
    assert!(buf.get(Point { x: 1, y: 0 }).is_some_and(|c| c.is_empty()));
    assert_eq!(buf.get(Point { x: 2, y: 0 }).map(|cell| cell.ch), Some('x'));

    buf.put(Point { x: 1, y: 0 }, 'a', style)?;
    buf.put(Point { x: 2, y: 0 }, 'b', style)?;
    buf.put_grapheme(Point { x: 1, y: 0 }, "界", style)?;
    assert_eq!(buf.get(Point { x: 1, y: 0 }).map(|cell| cell.ch), Some('界'));
    assert!(buf.get(Point { x: 2, y: 0 }).is_some_and(|cell| cell.continuation));
    buf.validate_canonical()
}

#[test]
fn zero_width_and_right_clipped_graphemes_are_no_ops() -> Result<(), Error> {
    let style = def_style();
    let mut buf = TermBuf::new(Size::new(2, 1), '.', style)?;
    assert_eq!(buf.put_grapheme(Point { x: 0, y: 0 }, "\u{0301}", style)?, 0);
    assert_eq!(buf.screen_text(), "..");
    assert_eq!(buf.put_grapheme(Point { x: 1, y: 0 }, "界", style)?, 0);
    assert_eq!(buf.screen_text(), "..");
    buf.validate_canonical()
}

#[test]
fn cursor_overlay_styles_complete_graphemes() -> Result<(), Error> {
    let style = def_style();
    let mut buf = TermBuf::empty(Size::new(2, 1))?;
    buf.put_grapheme(Point { x: 0, y: 0 }, "界", style)?;
    buf.overlay_cursor(Point { x: 1, y: 0 }, CursorShape::Block);

    let base = buf.get(Point { x: 0, y: 0 }).expect("missing wide base");
    let continuation = buf.get(Point { x: 1, y: 0 }).expect("missing continuation");
    assert_eq!(base.ch, '界');
    assert!(continuation.continuation);
    assert_eq!(base.style, continuation.style);
    assert_eq!(base.style.fg, style.bg);
    assert_eq!(base.style.bg, style.fg);
    buf.validate_canonical()
}

#[test]
fn text_write() {
    let mut tb = TermBuf::new(Size::new(5, 1), ' ', def_style()).expect("test render target should allocate");
    tb.text(&def_style(), Line::new(0, 0, 5), "hi").expect("test buffer mutation should succeed");
    assert_eq!(marked(&tb), vec!["hi   "]);
}

#[test]
fn text_handles_combining_and_wide_graphemes() {
    let style = def_style();
    let mut tb = TermBuf::new(Size::new(12, 1), ' ', style).expect("test render target should allocate");
    tb.text(&style, Line::new(0, 0, 12), "A\u{0301}界👩‍💻B").expect("test buffer mutation should succeed");
    let first = tb.get(Point { x: 0, y: 0 }).expect("missing cell");
    assert!(first.suffix.contains('\u{0301}'));
    let wide = tb.get(Point { x: 1, y: 0 }).expect("missing cell");
    assert_eq!(wide.ch, '界');
    assert!(tb.get(Point { x: 2, y: 0 }).unwrap().continuation);
    tb.validate_canonical().expect("text keeps the buffer canonical");
}

#[test]
fn solid_frame_draw() {
    let mut tb = TermBuf::new(Size::new(4, 4), ' ', def_style()).expect("test render target should allocate");
    let f = FrameRects::new(Rect::new(0, 0, 4, 4), 1);
    tb.solid_frame(&def_style(), f, '#').expect("test buffer mutation should succeed");
    assert_eq!(marked(&tb), vec!["####", "#  #", "#  #", "####"]);
}

#[test]
fn diff_no_change() {
    let style = def_style();
    let tb1 = TermBuf::new(Size::new(3, 1), ' ', style).expect("test render target should allocate");
    let tb2 = TermBuf::new(Size::new(3, 1), ' ', style).expect("test render target should allocate");
    let mut be = RecBackend::new();
    tb2.diff(&tb1, &mut be).unwrap();
    assert!(be.ops.is_empty());
}

#[test]
fn diff_vertical_shift_uses_scroll() {
    let prev = buf_from_rows(&["aaa", "bbb", "ccc"]);
    let cur = buf_from_rows(&["xxx", "aaa", "bbb"]);
    let mut be = ShiftBackend { shift: None, text_ops: 0 };
    cur.diff(&prev, &mut be).unwrap();
    assert_eq!(be.shift.map(|s| s.2), Some(1));
    assert_eq!(be.text_ops, 1);
}

#[test]
fn diff_vertical_shift_uses_scroll_interior() {
    let prev = buf_from_rows(&["#####", "#abc#", "#def#", "#ghi#", "#####"]);
    let cur = buf_from_rows(&["#####", "#xxx#", "#abc#", "#def#", "#####"]);
    let mut be = ShiftBackend { shift: None, text_ops: 0 };
    cur.diff(&prev, &mut be).unwrap();
    assert_eq!(be.shift, Some((1, 3, 1)));
    assert_eq!(be.text_ops, 1);
}

#[test]
fn diff_single_run() {
    let style = def_style();
    let prev = TermBuf::new(Size::new(3, 1), ' ', style).expect("test render target should allocate");
    let mut cur = TermBuf::new(Size::new(3, 1), ' ', style).expect("test render target should allocate");
    cur.text(&style, Line::new(0, 0, 3), "ab").expect("test buffer mutation should succeed");
    let mut be = RecBackend::new();
    cur.diff(&prev, &mut be).unwrap();
    assert_eq!(be.ops.len(), 2);
    assert_eq!(be.ops[0], format!("style {style:?}"));
    assert_eq!(be.ops[1], "text 0 0 ab");
}

#[test]
fn diff_style_changes() {
    let style1 = def_style();
    let mut style2 = style1;
    style2.fg = Color::Red;
    let prev = TermBuf::new(Size::new(2, 1), ' ', style1).expect("test render target should allocate");
    let mut cur = TermBuf::new(Size::new(2, 1), ' ', style1).expect("test render target should allocate");
    cur.fill(&style2, Rect::new(0, 0, 1, 1), 'a').expect("test buffer mutation should succeed");
    cur.fill(&style1, Rect::new(1, 0, 1, 1), 'b').expect("test buffer mutation should succeed");
    let mut be = RecBackend::new();
    cur.diff(&prev, &mut be).unwrap();
    assert_eq!(be.ops.len(), 4);
    assert_eq!(be.ops[0], format!("style {style2:?}"));
    assert_eq!(be.ops[1], "text 0 0 a");
    assert_eq!(be.ops[2], format!("style {style1:?}"));
    assert_eq!(be.ops[3], "text 1 0 b");
}

#[test]
fn diff_multi_line() {
    let style = def_style();
    let prev = TermBuf::new(Size::new(3, 2), ' ', style).expect("test render target should allocate");
    let mut cur = TermBuf::new(Size::new(3, 2), ' ', style).expect("test render target should allocate");
    cur.fill(&style, Rect::new(0, 1, 2, 1), 'x').expect("test buffer mutation should succeed");
    let mut be = RecBackend::new();
    cur.diff(&prev, &mut be).unwrap();
    assert_eq!(be.ops.len(), 2);
    assert_eq!(be.ops[0], format!("style {style:?}"));
    assert_eq!(be.ops[1], "text 0 1 xx");
}

#[test]
fn render_whole_buffer() {
    let style = def_style();
    let mut tb = TermBuf::new(Size::new(3, 1), ' ', style).expect("test render target should allocate");
    tb.text(&style, Line::new(0, 0, 3), "ab").expect("test buffer mutation should succeed");
    let mut be = RecBackend::new();
    tb.render(&mut be).unwrap();
    assert_eq!(be.ops, vec![format!("style {style:?}"), "text 0 0 ab ".to_string()]);
}

#[test]
fn render_repositions_after_wide_graphemes() {
    let style = def_style();
    let mut tb = TermBuf::new(Size::new(8, 1), ' ', style).expect("test render target should allocate");
    tb.text(&style, Line::new(0, 0, 7), "a界bc").expect("test buffer mutation should succeed");
    tb.fill(&style, Rect::new(7, 0, 1, 1), '|').expect("test buffer mutation should succeed");
    let mut backend = ReplayBackend::blank(Size::new(8, 1));
    tb.render(&mut backend).unwrap();
    assert_eq!(backend.screen_text(), "a界 bc  |");
}

#[test]
fn text_overwrites_stale_wide_continuation_cells() {
    let style = def_style();
    let mut tb = TermBuf::new(Size::new(3, 1), ' ', style).expect("test render target should allocate");
    tb.text(&style, Line::new(0, 0, 3), "界a").expect("test buffer mutation should succeed");
    assert_eq!(marked(&tb), vec!["界>a"]);
    tb.text(&style, Line::new(0, 0, 3), "b").expect("test buffer mutation should succeed");
    assert_eq!(marked(&tb), vec!["b  "]);
}

#[test]
fn text_clips_wide_grapheme_without_partial_cell() {
    let style = def_style();
    let mut tb = TermBuf::empty(Size::new(1, 1)).expect("test render target should allocate");
    tb.text(&style, Line::new(0, 0, 1), "界").expect("test buffer mutation should succeed");
    let cell = tb.get(Point { x: 0, y: 0 }).expect("missing cell");
    assert_eq!(cell.ch, ' ');
    assert!(!cell.continuation);
}

#[test]
fn diff_size_change_rerender() {
    let style = def_style();
    let prev = TermBuf::new(Size::new(2, 1), ' ', style).expect("test render target should allocate");
    let mut cur = TermBuf::new(Size::new(3, 1), ' ', style).expect("test render target should allocate");
    cur.text(&style, Line::new(0, 0, 3), "abc").expect("test buffer mutation should succeed");
    let mut be = RecBackend::new();
    cur.diff(&prev, &mut be).unwrap();
    assert_eq!(be.ops, vec![format!("style {style:?}"), "text 0 0 abc".to_string()]);
}

#[test]
fn empty_constructor_uses_canonical_empty_cells() {
    let empty = TermBuf::empty(Size::new(5, 3)).expect("test render target should allocate");
    assert_eq!(empty.size(), Size::new(5, 3));
    assert_eq!(marked(&empty), vec!["XXXXX", "XXXXX", "XXXXX"]);
}

#[test]
fn test_fill_empty() {
    let mut tb = TermBuf::empty(Size::new(5, 3)).expect("test render target should allocate");
    assert_eq!(marked(&tb), vec!["XXXXX", "XXXXX", "XXXXX"]);
    tb.text(&def_style(), Line::new(1, 1, 3), "ABC").expect("test buffer mutation should succeed");
    assert_eq!(marked(&tb), vec!["XXXXX", "XABCX", "XXXXX"]);
    let mut fill_style = def_style();
    fill_style.fg = Color::Red;
    tb.fill_empty('.', &fill_style).expect("test buffer mutation should succeed");
    assert_eq!(marked(&tb), vec![".....", ".ABC.", "....."]);
    assert_eq!(tb.get(Point { x: 0, y: 0 }).unwrap().style.fg, Color::Red);
    assert_eq!(tb.get(Point { x: 1, y: 1 }).unwrap().style.fg, Color::White);
}

#[test]
fn horizontal_shift_is_detected_when_the_backend_shifts_characters() {
    let prev = buf_from_rows(&["abcdef"]);
    let cur = buf_from_rows(&["xabcde"]);
    let ops = cur.diff_ops(&prev, BackendCaps { char_shift: true, line_shift: false }).unwrap();
    assert_eq!(ops[0], RenderOp::ShiftChars(Point { x: 0, y: 0 }, 1));
    assert_eq!(ops[1], RenderOp::Style(def_style()));
    assert_eq!(ops[2], RenderOp::Text(Point { x: 0, y: 0 }, "x".to_string()));
    assert_eq!(ops[3], RenderOp::Flush);
    assert_eq!(ops.len(), 4);
}

#[test]
fn render_ops_flush_once_after_all_rows() {
    let tb = buf_from_rows(&["ab", "cd"]);
    let ops = tb.render_ops().unwrap();
    assert_eq!(
        ops,
        vec![
            RenderOp::Style(def_style()),
            RenderOp::Text(Point { x: 0, y: 0 }, "ab".to_string()),
            RenderOp::Style(def_style()),
            RenderOp::Text(Point { x: 0, y: 1 }, "cd".to_string()),
            RenderOp::Flush,
        ]
    );
    let mut nop = NopBackend::new();
    tb.render(&mut nop).unwrap();
}

#[test]
fn shift_detection_prefers_the_smallest_shift() {
    let prev = buf_from_rows(&["aaa", "bbb", "ccc", "ddd"]);
    let down = buf_from_rows(&["xxx", "aaa", "bbb", "ccc"]);
    assert_eq!(down.detect_row_shift(&prev, 4), Some(1));
    let up = buf_from_rows(&["bbb", "ccc", "ddd", "yyy"]);
    assert_eq!(up.detect_row_shift(&prev, 4), Some(-1));
    let none = buf_from_rows(&["qqq", "rrr", "sss", "ttt"]);
    assert_eq!(none.detect_row_shift(&prev, 4), None);
}

#[test]
fn text_inside_a_rectangle_is_clipped_to_the_screen() {
    let tb = buf_from_rows(&["abcd", "efgh", "ijkl"]);
    assert_eq!(tb.screen_text_for_rect(Rect::new(1, 0, 2, 2)), "bc\nfg");
    assert_eq!(tb.screen_text_for_rect(Rect::new(2, 1, 10, 10)), "gh\nkl");
    assert_eq!(tb.screen_text_for_rect(Rect::new(0, 0, 4, 3)), tb.screen_text());
    assert_eq!(tb.screen_text_for_rect(Rect::new(3, 2, 1, 1)), "l");
    assert_eq!(tb.screen_text_for_rect(Rect::new(4, 0, 2, 2)), "");
    assert_eq!(tb.screen_text_for_rect(Rect::new(0, 0, 0, 3)), "");
}

#[test]
fn graphemes_occupy_at_most_two_cells() -> Result<(), Error> {
    let style = def_style();
    let mut tb = TermBuf::new(Size::new(6, 1), ' ', style)?;
    let dash = "\u{2E3B}";
    let raw = unicode_width::UnicodeWidthStr::width(dash);
    let written = tb.put_grapheme(Point { x: 0, y: 0 }, dash, style)?;
    assert_eq!(written, raw.min(2));
    assert!(tb.validate_canonical().is_ok());
    assert_eq!(tb.put_grapheme(Point { x: 3, y: 0 }, "界", style)?, 2);
    assert_eq!(tb.put_grapheme(Point { x: 5, y: 0 }, "a", style)?, 1);
    assert!(tb.validate_canonical().is_ok());
    Ok(())
}

#[test]
fn every_write_keeps_the_layout_canonical() -> Result<(), Error> {
    let style = def_style();
    let other = ResolvedStyle { fg: Color::Red, bg: Color::Blue, attrs: AttrSet::default() };
    let mut tb = TermBuf::new(Size::new(6, 3), ' ', style)?;
    tb.put_grapheme(Point { x: 1, y: 0 }, "界", style)?;
    assert!(tb.validate_canonical().is_ok());
    tb.put(Point { x: 2, y: 0 }, 'x', other)?;
    assert!(tb.validate_canonical().is_ok());
    tb.put_grapheme(Point { x: 4, y: 1 }, "界", style)?;
    tb.fill(&other, Rect::new(5, 0, 1, 3), '.')?;
    assert!(tb.validate_canonical().is_ok());
    tb.text(&style, Line::new(0, 2, 6), "a界b界")?;
    assert!(tb.validate_canonical().is_ok());
    tb.overlay_cursor(Point { x: 2, y: 2 }, CursorShape::Block);
    assert!(tb.validate_canonical().is_ok());
    tb.fill_empty('~', &other)?;
    assert!(tb.validate_canonical().is_ok());
    Ok(())
}

#[test]
fn an_unchanged_buffer_sends_nothing() -> Result<(), Error> {
    let tb = buf_from_rows(&["ab", "cd"]);
    let ops = tb.diff_ops(&tb, BackendCaps { char_shift: true, line_shift: false })?;
    assert!(ops.is_empty());
    Ok(())
}

/// A terminal that keeps, for each cell, the text, style and continuation
/// flag it shows; text is written grapheme by grapheme, each taking as many
/// cells as it is wide (at most two), clearing any grapheme it overlaps.
struct CellTerminal {
    w: usize,
    cells: Vec<(String, ResolvedStyle, bool)>,
    pen: ResolvedStyle,
}

impl CellTerminal {
    fn showing(tb: &TermBuf) -> Self {
        let size = tb.size();
        let mut cells = Vec::new();
        for y in 0..size.h {
            for x in 0..size.w {
                let c = tb.get(Point { x, y }).unwrap();
                cells.push((c.rendered_text(), c.style, c.continuation));
            }
        }
        Self { w: size.w as usize, cells, pen: def_style() }
    }

    fn clear_at(&mut self, i: usize) {
        let row = i / self.w * self.w;
        let mut start = i;
        while start > row && self.cells[start].2 {
            start -= 1;
        }
        let mut end = i + 1;
        while end < row + self.w && self.cells[end].2 {
            end += 1;
        }
        for k in start..end {
            self.cells[k] = (" ".to_string(), self.pen, false);
        }
    }

    fn apply(&mut self, op: &RenderOp) {
        match op {
            RenderOp::Style(s) => self.pen = *s,
            RenderOp::Text(p, t) => {
                let mut x = p.x as usize;
                for g in t.graphemes(true) {
                    let width = unicode_width::UnicodeWidthStr::width(g).min(2);
                    if width > 0 && x + width <= self.w {
                        let i = p.y as usize * self.w + x;
                        for k in 0..width {
                            self.clear_at(i + k);
                        }
                        self.cells[i] = (g.to_string(), self.pen, false);
                        for k in 1..width {
                            self.cells[i + k] = (String::new(), self.pen, true);
                        }
                    }
                    x += width;
                }
            }
            RenderOp::ShiftLines(top, bottom, count) => {
                let h = self.cells.len() / self.w;
                let top = *top as i64;
                let bottom = (*bottom as i64).min(h as i64 - 1);
                let count = *count as i64;
                let old = self.cells.clone();
                for y in top..=bottom {
                    let src = y - count;
                    for x in 0..self.w {
                        let i = y as usize * self.w + x;
                        self.cells[i] = if top <= src && src <= bottom {
                            old[src as usize * self.w + x].clone()
                        } else {
                            (" ".to_string(), self.pen, false)
                        };
                    }
                }
            }
            _ => {}
        }
    }
}

#[test]
fn replaying_a_diff_shows_the_current_buffer() -> Result<(), Error> {
    let style = def_style();
    let other = ResolvedStyle { fg: Color::Red, bg: Color::Blue, attrs: AttrSet::default() };
    let mut prev = TermBuf::new(Size::new(6, 3), ' ', style)?;
    prev.text(&style, Line::new(0, 0, 6), "a界bcd")?;
    prev.text(&style, Line::new(0, 1, 6), "界界界")?;
    prev.text(&style, Line::new(0, 2, 6), "xyz")?;
    let mut cur = prev.clone();
    cur.put(Point { x: 2, y: 0 }, 'Q', other)?;
    cur.text(&other, Line::new(1, 1, 4), "ab界")?;
    cur.put_grapheme(Point { x: 4, y: 2 }, "界", style)?;
    let ops = cur.diff_ops(&prev, BackendCaps { char_shift: false, line_shift: false })?;
    let mut terminal = CellTerminal::showing(&prev);
    for op in &ops {
        terminal.apply(op);
    }
    let expected = CellTerminal::showing(&cur);
    assert_eq!(terminal.cells, expected.cells);
    Ok(())
}

#[test]
fn replaying_a_whole_screen_shift_shows_the_current_buffer() -> Result<(), Error> {
    let prev = buf_from_rows(&["abc", "def", "ghi", "jkl"]);
    let cur = buf_from_rows(&["xyz", "abc", "def", "ghi"]);
    let ops = cur.diff_ops(&prev, BackendCaps { char_shift: false, line_shift: true })?;
    assert!(ops.contains(&RenderOp::ShiftLines(0, 3, 1)));
    let mut terminal = CellTerminal::showing(&prev);
    for op in &ops {
        terminal.apply(op);
    }
    let expected = CellTerminal::showing(&cur);
    assert_eq!(terminal.cells, expected.cells);
    Ok(())
}
