//! Render backends: the terminal side of rendering.

use vstd::prelude::*;
use crate::error::Error;
use crate::geom::{rect_contains, rect_intersect, Line, Point, Rect};
use crate::path::components;
use crate::style::{ResolvedStyle, StyleManager, StyleManagerView};
use crate::style::effects::Style;
use crate::style::map::{complete, resolve_spec, style_of, Paint, StyleMap};
use crate::termbuf::diff::OpView;
use crate::termbuf::{buffer_rect, cell_char_error, cell_char_ok, char_cell, fill_spec, put_grapheme_spec, put_spec, text_run_spec, TermBuf, TermBufView};
use crate::text::{cell_width, grapheme_width};

verus! {

/// The trait implemented by renderers.
pub trait RenderBackend {
    /// The styles, text and flushes this backend has carried out, in order.
    /// A backend that is verified gives its own record; the default records
    /// nothing, which no verified backend can keep while performing.
    open spec fn performed(&self) -> Seq<OpView> {
        Seq::empty()
    }

    /// Apply a style to the following text output.
    fn style(&mut self, style: &ResolvedStyle) -> (r: Result<(), Error>)
        ensures
            r is Ok ==> final(self).performed() == old(self).performed().push(OpView::Style(*style)),
    ;

    /// Output text to screen. This method is used for all text output.
    fn text(&mut self, loc: Point, txt: &str) -> (r: Result<(), Error>)
        ensures
            r is Ok ==> final(self).performed() == old(self).performed().push(OpView::Text(loc, txt@)),
    ;

    /// Return true if the backend can shift characters within a line.
    fn supports_char_shift(&self) -> (r: bool)
        default_ensures
            !r,
    {
        false
    }

    /// Shift characters within a line starting at the location. Positive
    /// counts insert blanks and shift right, negative counts delete and
    /// shift left.
    fn shift_chars(&mut self, _loc: Point, _count: i32) -> (r: Result<(), Error>)
        default_ensures
            r == Ok::<(), Error>(()),
    {
        Ok(())
    }

    /// Return true if the backend can shift lines within a region.
    fn supports_line_shift(&self) -> (r: bool)
        default_ensures
            !r,
    {
        false
    }

    /// Shift lines within the inclusive `top..=bottom` region. Positive
    /// counts shift content down, negative counts shift content up.
    fn shift_lines(&mut self, _top: u32, _bottom: u32, _count: i32) -> (r: Result<(), Error>)
        default_ensures
            r == Ok::<(), Error>(()),
    {
        Ok(())
    }

    /// Flush output to the terminal.
    fn flush(&mut self) -> (r: Result<(), Error>)
        ensures
            r is Ok ==> final(self).performed() == old(self).performed().push(OpView::Flush),
    ;

    /// Reset the backend to a clean state.
    fn reset(&mut self) -> (r: Result<(), Error>)
        default_ensures
            r == Ok::<(), Error>(()),
    {
        Ok(())
    }
}

/// A render backend that discards all output.
///
/// Rendering through this backend refreshes the terminal buffer without
/// producing user-visible output, so callers can inspect the buffer directly.
pub struct NopBackend {
    /// What the backend was asked to carry out.
    log: Ghost<Seq<OpView>>,
}

impl NopBackend {
    /// Construct a no-op backend.
    pub fn new() -> (r: Self)
        ensures
            r.performed() == Seq::<OpView>::empty(),
    {
        NopBackend { log: Ghost(Seq::empty()) }
    }
}

impl Default for NopBackend {
    fn default() -> (r: Self)
        ensures
            r.performed() == Seq::<OpView>::empty(),
    {
        Self::new()
    }
}

impl RenderBackend for NopBackend {
    closed spec fn performed(&self) -> Seq<OpView> {
        self.log@
    }

    fn style(&mut self, style: &ResolvedStyle) -> (r: Result<(), Error>)
        ensures
            r == Ok::<(), Error>(()),
    {
        self.log = Ghost(self.log@.push(OpView::Style(*style)));
        Ok(())
    }

    fn text(&mut self, loc: Point, txt: &str) -> (r: Result<(), Error>)
        ensures
            r == Ok::<(), Error>(()),
    {
        self.log = Ghost(self.log@.push(OpView::Text(loc, txt@)));
        Ok(())
    }

    fn flush(&mut self) -> (r: Result<(), Error>)
        ensures
            r == Ok::<(), Error>(()),
    {
        self.log = Ghost(self.log@.push(OpView::Flush));
        Ok(())
    }
}

/// Signed offset in cell coordinates, from canvas coordinates to
/// buffer coordinates.
#[derive(Debug, Clone, Copy, PartialEq, Eq, Structural)]
pub struct Offset {
    /// Horizontal offset.
    pub x: i64,
    /// Vertical offset.
    pub y: i64,
}

/// Whether an offset lies between two cell coordinates.
pub open spec fn offset_ok(o: Offset) -> bool {
    -(u32::MAX as int) <= o.x <= u32::MAX && -(u32::MAX as int) <= o.y <= u32::MAX
}

/// A coordinate clamped into the range of cell coordinates.
pub open spec fn clamp_coord(v: int) -> u32 {
    if v < 0 {
        0
    } else if v > u32::MAX {
        u32::MAX
    } else {
        v as u32
    }
}

impl Offset {
    /// Compute the offset that moves a source point onto a destination point.
    pub fn between(dest: Point, src: Point) -> (r: Self)
        ensures
            r.x == dest.x - src.x,
            r.y == dest.y - src.y,
            offset_ok(r),
    {
        Offset { x: dest.x as i64 - src.x as i64, y: dest.y as i64 - src.y as i64 }
    }
}

/// Clamp a coordinate into the range of cell coordinates.
fn clamp_to_coord(v: i64) -> (r: u32)
    ensures
        r == clamp_coord(v as int),
{
    if v < 0 {
        0
    } else if v > u32::MAX as i64 {
        u32::MAX
    } else {
        v as u32
    }
}

/// Translate a point from canvas coordinates to buffer coordinates,
/// clamping into the coordinate range.
pub fn translate_point(origin: Offset, p: Point) -> (r: Point)
    requires
        offset_ok(origin),
    ensures
        r == (Point { x: clamp_coord(p.x + origin.x), y: clamp_coord(p.y + origin.y) }),
{
    Point { x: clamp_to_coord(p.x as i64 + origin.x), y: clamp_to_coord(p.y as i64 + origin.y) }
}

/// Translate a point from buffer coordinates back to canvas coordinates,
/// clamping into the coordinate range.
pub fn untranslate(origin: Offset, p: Point) -> (r: Point)
    requires
        offset_ok(origin),
    ensures
        r == (Point { x: clamp_coord(p.x - origin.x), y: clamp_coord(p.y - origin.y) }),
{
    Point { x: clamp_to_coord(p.x as i64 - origin.x), y: clamp_to_coord(p.y as i64 - origin.y) }
}

/// Translate a rectangle from canvas coordinates to buffer coordinates.
pub fn translate_rect(origin: Offset, rect: Rect) -> (r: Rect)
    requires
        offset_ok(origin),
    ensures
        r == (Rect { tl: Point { x: clamp_coord(rect.tl.x + origin.x), y: clamp_coord(rect.tl.y + origin.y) }, w: rect.w, h: rect.h }),
{
    Rect { tl: translate_point(origin, rect.tl), w: rect.w, h: rect.h }
}

/// Law: translating a point into the buffer and back gives the point again
/// whenever the translated point lies in the coordinate range.
pub proof fn law_untranslate_undoes_translate(origin: Offset, p: Point)
    requires
        offset_ok(origin),
        0 <= p.x + origin.x <= u32::MAX,
        0 <= p.y + origin.y <= u32::MAX,
    ensures
        ({
            let t = Point { x: clamp_coord(p.x + origin.x), y: clamp_coord(p.y + origin.y) };
            Point { x: clamp_coord(t.x - origin.x), y: clamp_coord(t.y - origin.y) } == p
        }),
{
}


/// The buffer point a canvas point lands on.
pub open spec fn to_buffer(origin: Offset, p: Point) -> Point {
    Point { x: clamp_coord(p.x + origin.x), y: clamp_coord(p.y + origin.y) }
}

/// Whether a rectangle holds every cell of another.
pub open spec fn rect_holds(outer: Rect, inner: Rect) -> bool {
    &&& outer.tl.x <= inner.tl.x
    &&& inner.tl.x + inner.w <= outer.tl.x + outer.w
    &&& outer.tl.y <= inner.tl.y
    &&& inner.tl.y + inner.h <= outer.tl.y + outer.h
}

/// The style a name resolves to under a manager's layers.
pub open spec fn named_style(smap: StyleMap, sm: StyleManagerView, name: Seq<char>) -> Style<Paint> {
    style_of(resolve_spec(smap, sm.layers, components(name)))
}

/// Whether a name resolves, under a manager's layers, to a style whose
/// paints are both solid colours.
pub open spec fn resolves_solid(smap: StyleMap, sm: StyleManagerView, name: Seq<char>) -> bool {
    &&& complete(resolve_spec(smap, sm.layers, components(name)))
    &&& named_style(smap, sm, name).fg is Solid
    &&& named_style(smap, sm, name).bg is Solid
}

/// The cell style of a name that resolves to solid paints.
pub open spec fn solid_style(smap: StyleMap, sm: StyleManagerView, name: Seq<char>) -> ResolvedStyle {
    let s = named_style(smap, sm, name);
    ResolvedStyle {
        fg: match s.fg {
            Paint::Solid(c) => c,
            Paint::Gradient(_) => s.fg->Solid_0,
        },
        bg: match s.bg {
            Paint::Solid(c) => c,
            Paint::Gradient(_) => s.bg->Solid_0,
        },
        attrs: s.attrs,
    }
}

/// The buffer after filling the visible part of a canvas rectangle.
pub open spec fn render_fill_spec(v: TermBufView, clip: Rect, origin: Offset, r: Rect, c: char, style: ResolvedStyle) -> TermBufView {
    match rect_intersect(r, clip) {
        None => v,
        Some(i) => fill_spec(v, Rect { tl: to_buffer(origin, i.tl), w: i.w, h: i.h }, char_cell(c, style)),
    }
}

/// The buffer after writing text on the visible part of a canvas line: the
/// columns of the text left of the clip are skipped, the text is truncated
/// at the clip's edge, and the visible columns after it are padded.
pub open spec fn render_text_spec(v: TermBufView, clip: Rect, origin: Offset, l: Line, txt: Seq<char>, style: ResolvedStyle) -> TermBufView {
    match rect_intersect(Rect { tl: l.tl, w: l.w, h: 1 }, clip) {
        None => v,
        Some(i) => {
            let adjusted = Rect { tl: to_buffer(origin, i.tl), w: i.w, h: 1 };
            match rect_intersect(buffer_rect(v.size), adjusted) {
                None => v,
                Some(b) => text_run_spec(v, b.tl.y, b.tl.x, (i.tl.x - l.tl.x) + (b.tl.x - adjusted.tl.x), b.w as int, txt, style),
            }
        },
    }
}

/// A renderer that writes only inside a clip rectangle of the canvas,
/// translated onto a terminal buffer.
pub struct Render<'a> {
    /// The terminal buffer to render to.
    pub buf: &'a mut TermBuf,
    /// The style manager used to apply styles.
    pub style: &'a mut StyleManager,
    /// The style map used to resolve style names to styles.
    pub stylemap: &'a StyleMap,
    /// The rectangle in canvas coordinates that is visible for rendering.
    pub clip: Rect,
    /// Translation offset from canvas coordinates to buffer coordinates.
    pub origin: Offset,
}

impl<'a> Render<'a> {
    /// Construct a renderer that writes into `buf`: `clip` is the visible
    /// rectangle in canvas coordinates, and `screen_origin` is where the
    /// clip's top-left lands in the buffer.
    pub fn new(stylemap: &'a StyleMap, style: &'a mut StyleManager, buf: &'a mut TermBuf, clip: Rect, screen_origin: Point) -> (r: Self)
        ensures
            *r.buf == *old(buf),
            *final(r.buf) == *final(buf),
            *r.style == *old(style),
            *final(r.style) == *final(style),
            *r.stylemap == *stylemap,
            r.clip == clip,
            r.origin.x == screen_origin.x - clip.tl.x,
            r.origin.y == screen_origin.y - clip.tl.y,
            offset_ok(r.origin),
    {
        Render { buf, style, stylemap, clip, origin: Offset::between(screen_origin, clip.tl) }
    }

    /// Resolve a style by name under the manager's layers.
    pub fn resolve_style_name_raw(&self, name: &str) -> (r: Style<Paint>)
        requires
            complete(resolve_spec(*self.stylemap, self.style@.layers, components(name@))),
        ensures
            r == named_style(*self.stylemap, old(self.style)@, name@),
    {
        self.style.get(self.stylemap, name)
    }

    /// Push a style layer.
    pub fn push_layer(&mut self, name: &str)
        ensures
            final(self).style@ == crate::style::push_layer_spec(old(self).style@, name@),
            *final(final(self).style) == *final(old(self).style),
            *final(self).buf == *old(self).buf,
            *final(final(self).buf) == *final(old(self).buf),
            *final(self).stylemap == *old(self).stylemap,
            final(self).clip == old(self).clip,
            final(self).origin == old(self).origin,
    {
        self.style.push_layer(name);
    }

    /// The cell style of a name that resolves to solid paints.
    fn solid(&self, name: &str) -> (r: ResolvedStyle)
        requires
            resolves_solid(*self.stylemap, self.style@, name@),
        ensures
            r == solid_style(*self.stylemap, old(self.style)@, name@),
    {
        let s = self.style.get(self.stylemap, name);
        match (s.fg, s.bg) {
            (Paint::Solid(fg), Paint::Solid(bg)) => ResolvedStyle::new(fg, bg, s.attrs),
            _ => {
                proof {
                    assert(false);
                }
                ResolvedStyle::new(crate::style::Color::Black, crate::style::Color::Black, s.attrs)
            },
        }
    }

    /// Fill a canvas rectangle with a character in a named style; what lies
    /// outside the clip is not written.
    ///
    /// A style whose paints are gradients is sampled per cell with
    /// floating-point interpolation, which this library does not do, so the
    /// named style must resolve to solid paints wherever something is drawn.
    /// Fails, leaving the buffer unchanged, when the character does not
    /// occupy exactly one cell.
    pub fn fill(&mut self, style: &str, r: Rect, c: char) -> (res: Result<(), Error>)
        requires
            old(self).buf.wf(),
            offset_ok(old(self).origin),
            rect_intersect(r, old(self).clip) is Some ==> resolves_solid(*old(self).stylemap, old(self).style@, style@),
        ensures
            final(self).buf.wf(),
            res is Ok <==> (rect_intersect(r, old(self).clip) is None || cell_char_ok(c)),
            res matches Err(e) ==> e == cell_char_error(c) && final(self).buf@ == old(self).buf@,
            res is Ok ==> final(self).buf@ == render_fill_spec(old(self).buf@, old(self).clip, old(self).origin, r, c, solid_style(*old(self).stylemap, old(self).style@, style@)),
            *final(final(self).buf) == *final(old(self).buf),
            *final(self).style == *old(self).style,
            *final(final(self).style) == *final(old(self).style),
            *final(self).stylemap == *old(self).stylemap,
            final(self).clip == old(self).clip,
            final(self).origin == old(self).origin,
    {
        let inter = match r.intersect(&self.clip) {
            None => {
                return Ok(());
            },
            Some(i) => i,
        };
        let resolved = self.solid(style);
        let adjusted = translate_rect(self.origin, inter);
        self.buf.fill(&resolved, adjusted, c)
    }

    /// Write text on a canvas line in a named style: text wider than the
    /// line is truncated, shorter text is padded, and what lies outside the
    /// clip is not written.
    ///
    /// As with `fill`, the named style must resolve to solid paints wherever
    /// something is drawn.
    pub fn text(&mut self, style: &str, l: Line, txt: &str) -> (res: Result<(), Error>)
        requires
            old(self).buf.wf(),
            offset_ok(old(self).origin),
            rect_intersect(Rect { tl: l.tl, w: l.w, h: 1 }, old(self).clip) is Some ==> resolves_solid(*old(self).stylemap, old(self).style@, style@),
        ensures
            final(self).buf.wf(),
            res is Ok,
            final(self).buf@ == render_text_spec(old(self).buf@, old(self).clip, old(self).origin, l, txt@, solid_style(*old(self).stylemap, old(self).style@, style@)),
            *final(final(self).buf) == *final(old(self).buf),
            *final(self).style == *old(self).style,
            *final(final(self).style) == *final(old(self).style),
            *final(self).stylemap == *old(self).stylemap,
            final(self).clip == old(self).clip,
            final(self).origin == old(self).origin,
    {
        let line_rect = Rect::new(l.tl.x, l.tl.y, l.w, 1);
        let inter = match line_rect.intersect(&self.clip) {
            None => {
                return Ok(());
            },
            Some(i) => i,
        };
        let resolved = self.solid(style);
        let skip = inter.tl.x - l.tl.x;
        let adjusted = Rect { tl: translate_point(self.origin, inter.tl), w: inter.w, h: 1 };
        let b = match self.buf.rect().intersect(&adjusted) {
            None => {
                return Ok(());
            },
            Some(b) => b,
        };
        let offset: u64 = skip as u64 + (b.tl.x - adjusted.tl.x) as u64;
        self.buf.text_run(&resolved, b.tl.y, b.tl.x, offset, b.w, txt);
        Ok(())
    }

    /// Write a single cell with a resolved style, if the point is inside
    /// the clip. Fails, leaving the buffer unchanged, when the character
    /// does not occupy exactly one cell.
    pub fn put_cell(&mut self, style: ResolvedStyle, p: Point, ch: char) -> (r: Result<(), Error>)
        requires
            old(self).buf.wf(),
            offset_ok(old(self).origin),
        ensures
            final(self).buf.wf(),
            r is Ok <==> (!rect_contains(old(self).clip, p) || cell_char_ok(ch)),
            r matches Err(e) ==> e == cell_char_error(ch),
            final(self).buf@ == (if rect_contains(old(self).clip, p) && cell_char_ok(ch) {
                put_spec(old(self).buf@, to_buffer(old(self).origin, p), char_cell(ch, style))
            } else {
                old(self).buf@
            }),
            *final(final(self).buf) == *final(old(self).buf),
            *final(self).style == *old(self).style,
            *final(final(self).style) == *final(old(self).style),
            *final(self).stylemap == *old(self).stylemap,
            final(self).clip == old(self).clip,
            final(self).origin == old(self).origin,
    {
        if self.clip.contains_point(p) {
            let adjusted = translate_point(self.origin, p);
            self.buf.put(adjusted, ch, style)?;
        }
        Ok(())
    }

    /// Write a grapheme with a resolved style, continuation cells included,
    /// if all of its cells are inside the clip; a wide grapheme that the
    /// clip cuts is not written at all.
    pub fn put_grapheme(&mut self, style: ResolvedStyle, p: Point, grapheme: &str) -> (r: Result<(), Error>)
        requires
            old(self).buf.wf(),
            offset_ok(old(self).origin),
        ensures
            final(self).buf.wf(),
            r is Ok,
            final(self).buf@ == (if cell_width(grapheme@) > 0 && rect_holds(old(self).clip, Rect { tl: p, w: cell_width(grapheme@) as u32, h: 1 })
                && cell_width(grapheme@) <= u32::MAX {
                put_grapheme_spec(old(self).buf@, to_buffer(old(self).origin, p), grapheme@, style).0
            } else {
                old(self).buf@
            }),
            *final(final(self).buf) == *final(old(self).buf),
            *final(self).style == *old(self).style,
            *final(final(self).style) == *final(old(self).style),
            *final(self).stylemap == *old(self).stylemap,
            final(self).clip == old(self).clip,
            final(self).origin == old(self).origin,
    {
        let width = grapheme_width(grapheme);
        if width == 0 || width as u64 > u32::MAX as u64 {
            return Ok(());
        }
        let w = width as u32;
        let inside = (self.clip.tl.x as u64) <= (p.x as u64)
            && (p.x as u64) + (w as u64) <= (self.clip.tl.x as u64) + (self.clip.w as u64)
            && (self.clip.tl.y as u64) <= (p.y as u64)
            && (p.y as u64) + 1 <= (self.clip.tl.y as u64) + (self.clip.h as u64);
        if inside {
            let adjusted = translate_point(self.origin, p);
            let _ = self.buf.put_grapheme(adjusted, grapheme, style);
        }
        Ok(())
    }
}


/// Law: what a clipped fill or text write draws lies inside the clip: the
/// canvas region it writes is the part of the requested rectangle that the
/// clip holds, and nothing is written when they do not overlap.
pub proof fn law_clipped_region_lies_inside_clip(r: Rect, clip: Rect)
    ensures
        rect_intersect(r, clip) matches Some(i) ==> rect_holds(clip, i) && rect_holds(r, i),
        rect_intersect(r, clip) is None ==> forall|p: Point| !(#[trigger] rect_contains(r, p) && rect_contains(clip, p)),
{
}

} // verus!
