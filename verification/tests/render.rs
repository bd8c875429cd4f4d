use canopy::geom::{FrameRects, Line, Point, Rect, Size};
use canopy::render::{translate_point, translate_rect, untranslate, Offset, Render};
use canopy::style::color::Color;
use canopy::style::map::StyleMap;
use canopy::style::{AttrSet, ResolvedStyle, StyleManager};
use canopy::termbuf::{RenderLimits, TermBuf};

#[test]
fn offsets_move_points_and_back() {
    let origin = Offset::between(Point { x: 10, y: 5 }, Point { x: 2, y: 1 });
    assert_eq!(origin, Offset { x: 8, y: 4 });
    let p = Point { x: 3, y: 3 };
    let t = translate_point(origin, p);
    assert_eq!(t, Point { x: 11, y: 7 });
    assert_eq!(untranslate(origin, t), p);
    assert_eq!(
        translate_rect(origin, Rect::new(1, 1, 4, 2)),
        Rect { tl: Point { x: 9, y: 5 }, w: 4, h: 2 }
    );
}

#[test]
fn offsets_clamp_into_the_coordinate_range() {
    let origin = Offset::between(Point { x: 0, y: 0 }, Point { x: 5, y: 5 });
    assert_eq!(translate_point(origin, Point { x: 2, y: 9 }), Point { x: 0, y: 4 });
    let far = Offset::between(Point { x: u32::MAX, y: 0 }, Point { x: 0, y: 0 });
    assert_eq!(translate_point(far, Point { x: 7, y: 0 }), Point { x: u32::MAX, y: 0 });
}

/// Offscreen render target sized to one clip rectangle.
struct TestTarget {
    stylemap: StyleMap,
    style: StyleManager,
    buf: TermBuf,
    clip: Rect,
}

impl TestTarget {
    fn new(clip: Rect) -> Self {
        let buf = TermBuf::new_with_limits(
            Size::new(clip.w, clip.h),
            '\0',
            ResolvedStyle::new(Color::White, Color::Black, AttrSet::default()),
            RenderLimits::default(),
        )
        .expect("test render target should allocate");
        Self { stylemap: StyleMap::new(), style: StyleManager::new(), buf, clip }
    }

    fn render<R>(&mut self, f: impl FnOnce(&mut Render<'_>) -> R) -> R {
        let mut render = Render::new(&self.stylemap, &mut self.style, &mut self.buf, self.clip, Point { x: 0, y: 0 });
        f(&mut render)
    }

    fn default_style(&self) -> ResolvedStyle {
        self.style
            .get(&self.stylemap, "")
            .resolve_solid()
            .expect("default style resolves to solid colors")
    }

    fn assert_matches(&self, expected: &[&str]) {
        assert_eq!(marked(&self.buf), expected);
    }
}

/// The buffer as rows of text, `X` marking empty and continuation cells.
fn marked(tb: &TermBuf) -> Vec<String> {
    let size = tb.size();
    (0..size.h)
        .map(|y| {
            let mut row = String::new();
            let mut x = 0;
            while x < size.w {
                let cell = tb.get(Point { x, y }).unwrap();
                if cell.continuation || cell.is_empty() {
                    row.push('X');
                } else {
                    row.push_str(&cell.rendered_text());
                }
                x += 1;
            }
            row
        })
        .collect()
}

const BLANK10: [&str; 10] = [
    "XXXXXXXXXX", "XXXXXXXXXX", "XXXXXXXXXX", "XXXXXXXXXX", "XXXXXXXXXX",
    "XXXXXXXXXX", "XXXXXXXXXX", "XXXXXXXXXX", "XXXXXXXXXX", "XXXXXXXXXX",
];

#[test]
fn tests_test_part_render_fill_within_bounds() {
    let mut target = TestTarget::new(Rect::new(5, 5, 10, 10));
    target.render(|r| r.fill("default", Rect::new(6, 6, 3, 3), '#')).unwrap();
    target.assert_matches(&[
        "XXXXXXXXXX", "X###XXXXXX", "X###XXXXXX", "X###XXXXXX", "XXXXXXXXXX",
        "XXXXXXXXXX", "XXXXXXXXXX", "XXXXXXXXXX", "XXXXXXXXXX", "XXXXXXXXXX",
    ]);
}

#[test]
fn tests_test_part_render_fill_partial_overlap() {
    let mut target = TestTarget::new(Rect::new(5, 5, 10, 10));
    target.render(|r| r.fill("default", Rect::new(3, 3, 5, 5), '#')).unwrap();
    target.assert_matches(&[
        "###XXXXXXX", "###XXXXXXX", "###XXXXXXX", "XXXXXXXXXX", "XXXXXXXXXX",
        "XXXXXXXXXX", "XXXXXXXXXX", "XXXXXXXXXX", "XXXXXXXXXX", "XXXXXXXXXX",
    ]);
    target.render(|r| r.fill("default", Rect::new(10, 10, 8, 8), 'Y')).unwrap();
    target.assert_matches(&[
        "###XXXXXXX", "###XXXXXXX", "###XXXXXXX", "XXXXXXXXXX", "XXXXXXXXXX",
        "XXXXXYYYYY", "XXXXXYYYYY", "XXXXXYYYYY", "XXXXXYYYYY", "XXXXXYYYYY",
    ]);
}

#[test]
fn tests_test_part_render_fill_outside_render_rect() {
    let mut target = TestTarget::new(Rect::new(5, 5, 10, 10));
    target.render(|r| r.fill("default", Rect::new(0, 0, 3, 3), '#')).unwrap();
    target.render(|r| r.fill("default", Rect::new(16, 16, 3, 3), 'Y')).unwrap();
    target.assert_matches(&BLANK10);
}

#[test]
fn tests_test_shared_render_clips_to_canvas_rect() {
    let stylemap = StyleMap::new();
    let mut style_manager = StyleManager::new();
    let default_style = style_manager
        .get(&stylemap, "")
        .resolve_solid()
        .expect("default style resolves to solid colors");
    let mut target = TermBuf::new(Size::new(6, 4), '\0', default_style).expect("test render target should allocate");
    let clip = Rect::new(2, 1, 2, 2);
    let screen_origin = Point { x: 3, y: 0 };
    {
        let mut render = Render::new(&stylemap, &mut style_manager, &mut target, clip, screen_origin);
        render.fill("default", Rect::new(0, 0, 6, 4), '#').unwrap();
        render.text("default", Line::new(1, 2, 4), "abcd").unwrap();
    }
    assert_eq!(marked(&target), vec!["XXX##X", "XXXbcX", "XXXXXX", "XXXXXX"]);
}

#[test]
fn put_grapheme_clips_wide_glyphs_atomically() {
    let mut target = TestTarget::new(Rect::new(0, 0, 2, 1));
    let style = target.default_style();
    target.render(|r| r.put_grapheme(style, Point { x: 1, y: 0 }, "界")).unwrap();
    target.assert_matches(&["XX"]);
    target.render(|r| r.put_grapheme(style, Point { x: 0, y: 0 }, "界")).unwrap();
    target.assert_matches(&["界X"]);
}

#[test]
fn tests_test_part_render_fill_outside_canvas() {
    let mut target = TestTarget::new(Rect::new(5, 5, 10, 10));
    target.render(|r| r.fill("default", Rect::new(15, 15, 10, 10), '#')).unwrap();
    target.render(|r| r.fill("default", Rect::new(25, 25, 5, 5), 'Y')).unwrap();
    target.render(|r| r.fill("default", Rect::new(19, 19, 2, 2), 'Z')).unwrap();
    target.assert_matches(&BLANK10);
}

#[test]
fn tests_test_part_render_text_within_bounds() {
    let mut target = TestTarget::new(Rect::new(5, 5, 10, 10));
    target.render(|r| r.text("default", Line { tl: Point { x: 6, y: 6 }, w: 5 }, "Hello")).unwrap();
    target.assert_matches(&[
        "XXXXXXXXXX", "XHelloXXXX", "XXXXXXXXXX", "XXXXXXXXXX", "XXXXXXXXXX",
        "XXXXXXXXXX", "XXXXXXXXXX", "XXXXXXXXXX", "XXXXXXXXXX", "XXXXXXXXXX",
    ]);
    target.render(|r| r.text("default", Line { tl: Point { x: 5, y: 5 }, w: 10 }, "1234567890")).unwrap();
    target.assert_matches(&[
        "1234567890", "XHelloXXXX", "XXXXXXXXXX", "XXXXXXXXXX", "XXXXXXXXXX",
        "XXXXXXXXXX", "XXXXXXXXXX", "XXXXXXXXXX", "XXXXXXXXXX", "XXXXXXXXXX",
    ]);
}

#[test]
fn tests_test_part_render_text_partial_overlap() {
    let mut target = TestTarget::new(Rect::new(5, 5, 10, 10));
    target.render(|r| r.text("default", Line { tl: Point { x: 3, y: 6 }, w: 10 }, "1234567890")).unwrap();
    target.assert_matches(&[
        "XXXXXXXXXX", "34567890XX", "XXXXXXXXXX", "XXXXXXXXXX", "XXXXXXXXXX",
        "XXXXXXXXXX", "XXXXXXXXXX", "XXXXXXXXXX", "XXXXXXXXXX", "XXXXXXXXXX",
    ]);
    target.render(|r| r.text("default", Line { tl: Point { x: 10, y: 10 }, w: 8 }, "LongText")).unwrap();
    target.assert_matches(&[
        "XXXXXXXXXX", "34567890XX", "XXXXXXXXXX", "XXXXXXXXXX", "XXXXXXXXXX",
        "XXXXXLongT", "XXXXXXXXXX", "XXXXXXXXXX", "XXXXXXXXXX", "XXXXXXXXXX",
    ]);
}

#[test]
fn tests_test_part_render_text_outside_canvas() {
    let mut target = TestTarget::new(Rect::new(5, 5, 10, 10));
    target.render(|r| r.text("default", Line { tl: Point { x: 15, y: 15 }, w: 10 }, "Text")).unwrap();
    target.render(|r| r.text("default", Line { tl: Point { x: 25, y: 25 }, w: 5 }, "Text")).unwrap();
    target.assert_matches(&BLANK10);
}

#[test]
fn fill_draws_the_parts_of_a_frame() {
    let mut target = TestTarget::new(Rect::new(5, 5, 10, 10));
    let frame = FrameRects::new(Rect::new(6, 6, 8, 8), 1);
    for part in [frame.top, frame.left, frame.right, frame.bottom] {
        target.render(|r| r.fill("default", part, '#')).unwrap();
    }
    target.assert_matches(&[
        "XXXXXXXXXX", "XX######XX", "X#XXXXXX#X", "X#XXXXXX#X", "X#XXXXXX#X",
        "X#XXXXXX#X", "X#XXXXXX#X", "X#XXXXXX#X", "XX######XX", "XXXXXXXXXX",
    ]);
}

/// One text-rendering case: a clip rectangle, a line, and the expected buffer.
struct TextCase {
    name: &'static str,
    clip: Rect,
    line: Line,
    text: &'static str,
    expected: &'static [&'static str],
}

impl TextCase {
    fn run(&self) {
        let mut target = TestTarget::new(self.clip);
        target.render(|r| r.text("default", self.line, self.text)).unwrap();
        assert_eq!(marked(&target.buf), self.expected, "{}", self.name);
    }
}

fn line(x: u32, y: u32, w: u32) -> Line {
    Line { tl: Point { x, y }, w }
}

#[test]
fn text_truncates_pads_and_clips() {
    let clip = Rect::new(0, 0, 5, 5);
    let cases = [
        TextCase { name: "full line", clip, line: line(0, 1, 5), text: "Hello", expected: &["XXXXX", "Hello", "XXXXX", "XXXXX", "XXXXX"] },
        TextCase { name: "overflow", clip, line: line(0, 0, 5), text: "Hello World", expected: &["Hello", "XXXXX", "XXXXX", "XXXXX", "XXXXX"] },
        TextCase { name: "truncation", clip, line: line(0, 0, 2), text: "Hello World", expected: &["HeXXX", "XXXXX", "XXXXX", "XXXXX", "XXXXX"] },
        TextCase { name: "zero width", clip, line: line(0, 0, 0), text: "Hello World", expected: &["XXXXX", "XXXXX", "XXXXX", "XXXXX", "XXXXX"] },
        TextCase { name: "padding", clip, line: line(0, 2, 5), text: "Hi", expected: &["XXXXX", "XXXXX", "Hi   ", "XXXXX", "XXXXX"] },
        TextCase { name: "below the clip", clip, line: line(0, 5, 5), text: "Hi", expected: &["XXXXX", "XXXXX", "XXXXX", "XXXXX", "XXXXX"] },
        TextCase { name: "right of the clip", clip, line: line(10, 0, 5), text: "Hi", expected: &["XXXXX", "XXXXX", "XXXXX", "XXXXX", "XXXXX"] },
    ];
    for case in &cases {
        case.run();
    }
}

#[test]
fn text_clips_against_an_offset_clip_rect() {
    let clip = Rect::new(5, 2, 10, 5);
    let cases = [
        TextCase {
            name: "text starts before the clip",
            clip,
            line: line(0, 2, 15),
            text: "01234567890123456789",
            expected: &["5678901234", "XXXXXXXXXX", "XXXXXXXXXX", "XXXXXXXXXX", "XXXXXXXXXX"],
        },
        TextCase {
            name: "text extends past the clip",
            clip,
            line: line(10, 3, 10),
            text: "01234567890",
            expected: &["XXXXXXXXXX", "XXXXX01234", "XXXXXXXXXX", "XXXXXXXXXX", "XXXXXXXXXX"],
        },
        TextCase {
            name: "text inside the clip",
            clip,
            line: line(7, 3, 5),
            text: "Hello",
            expected: &["XXXXXXXXXX", "XXHelloXXX", "XXXXXXXXXX", "XXXXXXXXXX", "XXXXXXXXXX"],
        },
    ];
    for case in &cases {
        case.run();
    }
}

#[test]
fn tests_test_part_render_multiple_rectangles() {
    let positions = vec![
        (Rect::new(0, 0, 10, 10), "top-left"),
        (Rect::new(10, 10, 10, 10), "center"),
        (Rect::new(20, 20, 10, 10), "bottom-right"),
    ];
    for (index, (render_rect, position)) in positions.into_iter().enumerate() {
        let mut target = TestTarget::new(render_rect);
        let fill_rect = Rect::new(render_rect.tl.x + 1, render_rect.tl.y + 1, 5, 5);
        target.render(|r| r.fill("default", fill_rect, '#')).unwrap();
        target.render(|r| r.fill("default", Rect::new(40, 40, 5, 5), 'Y')).unwrap();
        assert_eq!(position, ["top-left", "center", "bottom-right"][index]);
        target.assert_matches(&[
            "XXXXXXXXXX", "X#####XXXX", "X#####XXXX", "X#####XXXX", "X#####XXXX",
            "X#####XXXX", "XXXXXXXXXX", "XXXXXXXXXX", "XXXXXXXXXX", "XXXXXXXXXX",
        ]);
    }
}

#[test]
fn put_cell_writes_only_inside_the_clip() {
    let mut target = TestTarget::new(Rect::new(2, 2, 3, 1));
    let style = target.default_style();
    target.render(|r| r.put_cell(style, Point { x: 3, y: 2 }, 'a')).unwrap();
    target.render(|r| r.put_cell(style, Point { x: 5, y: 2 }, 'b')).unwrap();
    target.assert_matches(&["XaX"]);
}
