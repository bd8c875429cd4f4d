//! Cell-grid geometry: points, sizes, rectangles and lines.

use vstd::prelude::*;

verus! {

/// A cell position.
#[derive(Debug, Clone, Copy, PartialEq, Eq, Structural)]
pub struct Point {
    /// Column.
    pub x: u32,
    /// Row.
    pub y: u32,
}

/// A width and height in cells.
#[derive(Debug, Clone, Copy, PartialEq, Eq, Structural)]
pub struct Size {
    /// Width.
    pub w: u32,
    /// Height.
    pub h: u32,
}

/// An axis-aligned rectangle of cells.
#[derive(Debug, Clone, Copy, PartialEq, Eq, Structural)]
pub struct Rect {
    /// Top-left corner.
    pub tl: Point,
    /// Width.
    pub w: u32,
    /// Height.
    pub h: u32,
}

/// A horizontal run of cells.
#[derive(Debug, Clone, Copy, PartialEq, Eq, Structural)]
pub struct Line {
    /// Leftmost cell.
    pub tl: Point,
    /// Width.
    pub w: u32,
}

/// The eight parts of a rectangular frame.
#[derive(Debug, Clone, Copy, PartialEq, Eq, Structural)]
pub struct FrameRects {
    /// Top edge, between the corners.
    pub top: Rect,
    /// Bottom edge, between the corners.
    pub bottom: Rect,
    /// Left edge, between the corners.
    pub left: Rect,
    /// Right edge, between the corners.
    pub right: Rect,
    /// Top-left corner.
    pub topleft: Rect,
    /// Top-right corner.
    pub topright: Rect,
    /// Bottom-left corner.
    pub bottomleft: Rect,
    /// Bottom-right corner.
    pub bottomright: Rect,
}

/// Whether a rectangle contains a point.
pub open spec fn rect_contains(r: Rect, p: Point) -> bool {
    r.tl.x <= p.x < r.tl.x + r.w && r.tl.y <= p.y < r.tl.y + r.h
}

/// Smaller of two integers.
pub open spec fn min_int(a: int, b: int) -> int {
    if a <= b { a } else { b }
}

/// Larger of two integers.
pub open spec fn max_int(a: int, b: int) -> int {
    if a >= b { a } else { b }
}

/// The overlap of two rectangles, when it holds at least one cell.
pub open spec fn rect_intersect(a: Rect, b: Rect) -> Option<Rect> {
    let x0 = max_int(a.tl.x as int, b.tl.x as int);
    let y0 = max_int(a.tl.y as int, b.tl.y as int);
    let x1 = min_int(a.tl.x + a.w, b.tl.x + b.w);
    let y1 = min_int(a.tl.y + a.h, b.tl.y + b.h);
    if x1 > x0 && y1 > y0 {
        Some(Rect { tl: Point { x: x0 as u32, y: y0 as u32 }, w: (x1 - x0) as u32, h: (y1 - y0) as u32 })
    } else {
        None
    }
}

impl Point {
    /// Construct a point.
    pub fn new(x: u32, y: u32) -> (r: Self)
        ensures
            r == (Point { x, y }),
    {
        Point { x, y }
    }
}

impl Size {
    /// Construct a size.
    pub fn new(w: u32, h: u32) -> (r: Self)
        ensures
            r == (Size { w, h }),
    {
        Size { w, h }
    }

    /// The rectangle of this size at the origin.
    pub fn rect(&self) -> (r: Rect)
        ensures
            r == (Rect { tl: Point { x: 0, y: 0 }, w: self.w, h: self.h }),
    {
        Rect { tl: Point { x: 0, y: 0 }, w: self.w, h: self.h }
    }
}

impl Rect {
    /// Construct a rectangle.
    pub fn new(x: u32, y: u32, w: u32, h: u32) -> (r: Self)
        ensures
            r == (Rect { tl: Point { x, y }, w, h }),
    {
        Rect { tl: Point { x, y }, w, h }
    }

    /// Whether the rectangle contains a point.
    pub fn contains_point(&self, p: Point) -> (r: bool)
        ensures
            r == rect_contains(*self, p),
    {
        let px = p.x as u64;
        let py = p.y as u64;
        (self.tl.x as u64) <= px && px < (self.tl.x as u64) + (self.w as u64)
            && (self.tl.y as u64) <= py && py < (self.tl.y as u64) + (self.h as u64)
    }

    /// The overlap with another rectangle, if it holds at least one cell.
    pub fn intersect(&self, other: &Rect) -> (r: Option<Rect>)
        ensures
            r == rect_intersect(*self, *other),
    {
        let ax1 = (self.tl.x as u64) + (self.w as u64);
        let bx1 = (other.tl.x as u64) + (other.w as u64);
        let ay1 = (self.tl.y as u64) + (self.h as u64);
        let by1 = (other.tl.y as u64) + (other.h as u64);
        let x0: u64 = if self.tl.x >= other.tl.x { self.tl.x as u64 } else { other.tl.x as u64 };
        let y0: u64 = if self.tl.y >= other.tl.y { self.tl.y as u64 } else { other.tl.y as u64 };
        let x1: u64 = if ax1 <= bx1 { ax1 } else { bx1 };
        let y1: u64 = if ay1 <= by1 { ay1 } else { by1 };
        if x1 > x0 && y1 > y0 {
            Some(Rect {
                tl: Point { x: x0 as u32, y: y0 as u32 },
                w: (x1 - x0) as u32,
                h: (y1 - y0) as u32,
            })
        } else {
            None
        }
    }

}

/// The border width a frame actually uses: the requested width, clamped to
/// half of each side.
pub open spec fn frame_border(r: Rect, border: u32) -> u32 {
    let b1: u32 = if border > r.w / 2 { (r.w / 2) as u32 } else { border };
    if b1 > r.h / 2 { (r.h / 2) as u32 } else { b1 }
}

impl Line {
    /// Construct a line.
    pub fn new(x: u32, y: u32, w: u32) -> (r: Self)
        ensures
            r == (Line { tl: Point { x, y }, w }),
    {
        Line { tl: Point { x, y }, w }
    }

    /// The one-row rectangle covered by the line.
    pub fn rect(&self) -> (r: Rect)
        ensures
            r == (Rect { tl: self.tl, w: self.w, h: 1 }),
    {
        Rect { tl: self.tl, w: self.w, h: 1 }
    }
}

/// The parts of the frame of a given border width around a rectangle.
pub open spec fn frame_spec(r: Rect, border: u32) -> FrameRects {
    let b = frame_border(r, border);
    let x = r.tl.x;
    let y = r.tl.y;
    let inner_w = (r.w - 2 * b) as u32;
    let inner_h = (r.h - 2 * b) as u32;
    let right_x = (x + b + inner_w) as u32;
    let bottom_y = (y + b + inner_h) as u32;
    let inner_x = (x + b) as u32;
    let inner_y = (y + b) as u32;
    FrameRects {
        top: Rect { tl: Point { x: inner_x, y }, w: inner_w, h: b },
        bottom: Rect { tl: Point { x: inner_x, y: bottom_y }, w: inner_w, h: b },
        left: Rect { tl: Point { x, y: inner_y }, w: b, h: inner_h },
        right: Rect { tl: Point { x: right_x, y: inner_y }, w: b, h: inner_h },
        topleft: Rect { tl: Point { x, y }, w: b, h: b },
        topright: Rect { tl: Point { x: right_x, y }, w: b, h: b },
        bottomleft: Rect { tl: Point { x, y: bottom_y }, w: b, h: b },
        bottomright: Rect { tl: Point { x: right_x, y: bottom_y }, w: b, h: b },
    }
}

impl FrameRects {
    /// Split a border of the given width off a rectangle into the eight
    /// parts of a frame. The border is clamped to half of each side so that
    /// opposite edges do not overlap.
    pub fn new(rect: Rect, border: u32) -> (r: FrameRects)
        ensures
            r == frame_spec(rect, border),
    {
        let half_w = rect.w / 2;
        let half_h = rect.h / 2;
        let mut b = border;
        if b > half_w {
            b = half_w;
        }
        if b > half_h {
            b = half_h;
        }
        let x = rect.tl.x;
        let y = rect.tl.y;
        let inner_w = rect.w - 2 * b;
        let inner_h = rect.h - 2 * b;
        let right_x = (x as u64 + b as u64 + inner_w as u64) as u32;
        let bottom_y = (y as u64 + b as u64 + inner_h as u64) as u32;
        let inner_x = (x as u64 + b as u64) as u32;
        let inner_y = (y as u64 + b as u64) as u32;
        FrameRects {
            top: Rect { tl: Point { x: inner_x, y }, w: inner_w, h: b },
            bottom: Rect { tl: Point { x: inner_x, y: bottom_y }, w: inner_w, h: b },
            left: Rect { tl: Point { x, y: inner_y }, w: b, h: inner_h },
            right: Rect { tl: Point { x: right_x, y: inner_y }, w: b, h: inner_h },
            topleft: Rect { tl: Point { x, y }, w: b, h: b },
            topright: Rect { tl: Point { x: right_x, y }, w: b, h: b },
            bottomleft: Rect { tl: Point { x, y: bottom_y }, w: b, h: b },
            bottomright: Rect { tl: Point { x: right_x, y: bottom_y }, w: b, h: b },
        }
    }
}

} // verus!
