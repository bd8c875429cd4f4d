use canopy::style::color::{rgb_from_hex, Color};
use canopy::style::effects::{
    apply_effects, attr_dim, bold, clear_attrs, italic, set_attrs, swap_fg_bg, underline, AddAttr, ClearAttrs,
    SetAttrs, Style, StyleEffect, SwapFgBg,
};
use canopy::style::{parse_path, Attr, AttrSet, StyleManager};

#[test]
fn rgb_macro_parses_hex_literals() {
    let red: Color = rgb_from_hex("#FF0000").unwrap();
    assert_eq!(red, Color::Rgb { r: 255, g: 0, b: 0 });
    assert_eq!(rgb_from_hex("00FF00").unwrap(), Color::Rgb { r: 0, g: 255, b: 0 });
    assert_eq!(rgb_from_hex("#0000FF").unwrap(), Color::Rgb { r: 0, g: 0, b: 255 });
    assert_eq!(rgb_from_hex("#123456").unwrap(), Color::Rgb { r: 18, g: 52, b: 86 });
    assert_eq!(rgb_from_hex("abcdef").unwrap(), Color::Rgb { r: 171, g: 205, b: 239 });
}

#[test]
fn rgb_from_hex_rejects_malformed_literals() {
    assert_eq!(rgb_from_hex(""), None);
    assert_eq!(rgb_from_hex("#12345"), None);
    assert_eq!(rgb_from_hex("#1234567"), None);
    assert_eq!(rgb_from_hex("#12345g"), None);
    assert_eq!(rgb_from_hex("##12345"), None);
}

#[test]
fn rgb_maps_named_colors() {
    assert_eq!(Color::Black.rgb(), (0, 0, 0));
    assert_eq!(Color::White.rgb(), (255, 255, 255));
    assert_eq!(Color::Red.rgb(), (255, 0, 0));
    assert_eq!(Color::Green.rgb(), (0, 255, 0));
    assert_eq!(Color::Blue.rgb(), (0, 0, 255));
    assert_eq!(Color::Rgb { r: 1, g: 2, b: 3 }.rgb(), (1, 2, 3));
}

#[test]
fn rgb_maps_the_ansi_palette() {
    assert_eq!(Color::AnsiValue(0).rgb(), (0, 0, 0));
    assert_eq!(Color::AnsiValue(15).rgb(), (255, 255, 255));
    assert_eq!(Color::AnsiValue(196).rgb(), (255, 0, 0));
    assert_eq!(Color::AnsiValue(232).rgb(), (8, 8, 8));
}

#[test]
fn test_invert_rgb() {
    let black = Color::Rgb { r: 0, g: 0, b: 0 };
    assert_eq!(black.invert_rgb(), Color::Rgb { r: 255, g: 255, b: 255 });
    let red = Color::Rgb { r: 255, g: 0, b: 0 };
    assert_eq!(red.invert_rgb(), Color::Rgb { r: 0, g: 255, b: 255 });
}

#[test]
fn inverting_twice_gives_back_the_color() {
    let c = Color::Rgb { r: 12, g: 200, b: 99 };
    assert_eq!(c.invert_rgb().invert_rgb(), c);
}

#[test]
fn style_parse_path() {
    assert_eq!(parse_path("/one/two"), vec!["one", "two"]);
    assert_eq!(parse_path("one/two"), vec!["one", "two"]);
    assert!(parse_path("").is_empty());
}

#[test]
fn style_layers_basic() {
    let mut c = StyleManager::new();
    assert!(c.layers().is_empty());
    assert_eq!(*c.layer_levels(), Vec::<usize>::new());
    assert_eq!(c.level(), 0);

    c.pop();
    assert_eq!(c.level(), 0);

    c.push();
    c.push_layer("foo");
    assert_eq!(c.level(), 1);
    assert_eq!(*c.layers(), vec!["foo"]);
    assert_eq!(*c.layer_levels(), vec![1]);
}

#[test]
fn style_layers_nested() {
    let mut c = StyleManager::new();
    c.push();
    c.push_layer("foo");

    c.push();
    c.push();
    c.push_layer("bar");
    assert_eq!(c.level(), 3);
    assert_eq!(*c.layers(), vec!["foo", "bar"]);
    assert_eq!(*c.layer_levels(), vec![1, 3]);

    c.push();
    assert_eq!(c.level(), 4);

    c.pop();
    assert_eq!(c.level(), 3);
    assert_eq!(*c.layers(), vec!["foo", "bar"]);
    assert_eq!(*c.layer_levels(), vec![1, 3]);

    c.pop();
    assert_eq!(c.level(), 2);
    assert_eq!(*c.layers(), vec!["foo"]);
    assert_eq!(*c.layer_levels(), vec![1]);

    c.pop();
    assert_eq!(c.level(), 1);
    assert_eq!(*c.layers(), vec!["foo"]);
    assert_eq!(*c.layer_levels(), vec![1]);

    c.pop();
    assert_eq!(c.level(), 0);
    assert!(c.layers().is_empty());
    assert!(c.layer_levels().is_empty());

    c.pop();
    assert_eq!(c.level(), 0);
    assert!(c.layers().is_empty());
    assert!(c.layer_levels().is_empty());
}

#[test]
fn pop_pops_all_layers_at_level() {
    let mut sm = StyleManager::default();
    sm.reset();
    sm.push();

    sm.push_layer("button");
    sm.push_layer("selected");

    sm.pop();

    assert!(sm.layers().is_empty());
    assert_eq!(*sm.layer_levels(), vec![0]);
}

fn test_style() -> Style<Color> {
    Style {
        fg: Color::Rgb { r: 200, g: 100, b: 50 },
        bg: Color::Rgb { r: 20, g: 20, b: 20 },
        attrs: AttrSet::default(),
    }
}

#[test]
fn test_swap_fg_bg() {
    let style = test_style();
    let swapped = swap_fg_bg().apply(style.clone());
    assert_eq!(swapped.fg, style.bg);
    assert_eq!(swapped.bg, style.fg);
    assert_eq!(swapped.attrs, style.attrs);
    assert_eq!(SwapFgBg.apply(swapped), style);
}

#[test]
fn test_bold_effect() {
    let style = test_style();
    assert!(!style.attrs.bold);
    let bold_style = bold().apply(style);
    assert!(bold_style.attrs.bold);
    assert_eq!(bold_style.fg, Color::Rgb { r: 200, g: 100, b: 50 });
}

#[test]
fn attribute_effects_set_the_named_attribute() {
    assert!(italic().apply(test_style()).attrs.italic);
    assert!(underline().apply(test_style()).attrs.underline);
    let dimmed = attr_dim().apply(test_style());
    assert!(dimmed.attrs.dim);
    assert!(!dimmed.attrs.bold);
    assert_eq!(AddAttr(Attr::Overline).apply(test_style()).attrs, AttrSet::new(Attr::Overline));
}

#[test]
fn clearing_and_replacing_attributes() {
    let styled = bold().apply(italic().apply(test_style()));
    let cleared = clear_attrs().apply(styled.clone());
    assert!(cleared.attrs.is_empty());
    assert_eq!(cleared.fg, styled.fg);
    let replaced = set_attrs(AttrSet::new(Attr::CrossedOut)).apply(styled);
    assert!(replaced.attrs.crossedout);
    assert!(!replaced.attrs.bold);
    assert!(!replaced.attrs.italic);
    assert_eq!(ClearAttrs.apply(replaced.clone()).attrs, AttrSet::default());
    assert_eq!(SetAttrs(AttrSet::default()).apply(replaced).attrs, AttrSet::default());
}

#[test]
fn effect_stacks_apply_in_order() {
    let stack = [AddAttr(Attr::Bold), AddAttr(Attr::Italic)];
    let out = apply_effects(&stack, test_style());
    assert!(out.attrs.bold && out.attrs.italic);
    assert_eq!(apply_effects::<Color, AddAttr>(&[], test_style()), test_style());
    let swaps = [SwapFgBg, SwapFgBg, SwapFgBg];
    let swapped = apply_effects(&swaps, test_style());
    assert_eq!(swapped.fg, Color::Rgb { r: 20, g: 20, b: 20 });
    assert_eq!(swapped.bg, Color::Rgb { r: 200, g: 100, b: 50 });
    let clears = [ClearAttrs];
    assert!(apply_effects(&clears, out).attrs.is_empty());
}

use canopy::style::map::{Paint, PartialStyle, StyleBuilder, StyleMap};

fn solid_style(fg: Color, bg: Color) -> Style<Paint> {
    Style { fg: Paint::solid(fg), bg: Paint::solid(bg), attrs: AttrSet::default() }
}

fn names(parts: &[&str]) -> Vec<String> {
    parts.iter().map(|p| p.to_string()).collect()
}

#[test]
fn style_resolve() {
    let mut smap = StyleMap::new();
    smap.rules()
        .style(
            "",
            StyleBuilder::new().fg(Color::White.into()).bg(Color::Black.into()).attrs(AttrSet::default()).into(),
        )
        .fg("one", Color::Red.into())
        .fg("one/two", Color::Blue.into())
        .fg("one/two/target", Color::Green.into())
        .fg("frame/border", Color::Yellow.into())
        .apply();

    let c = StyleManager::new();

    assert_eq!(
        c.resolve(&smap, &names(&["one", "two"]), &names(&["target", "voing"])),
        solid_style(Color::Green, Color::Black)
    );
    assert_eq!(
        c.resolve(&smap, &names(&["one", "two"]), &names(&["two", "voing"])),
        solid_style(Color::Blue, Color::Black)
    );
    assert_eq!(
        c.resolve(&smap, &names(&["one", "two"]), &names(&["target"])),
        solid_style(Color::Green, Color::Black)
    );
    assert_eq!(
        c.resolve(&smap, &names(&["one", "two"]), &names(&["nonexistent"])),
        solid_style(Color::Blue, Color::Black)
    );
    assert_eq!(
        c.resolve(&smap, &names(&["somelayer"]), &names(&["nonexistent"])),
        solid_style(Color::White, Color::Black)
    );
    assert_eq!(
        c.resolve(&smap, &names(&["one", "two"]), &names(&["frame", "border"])),
        solid_style(Color::Yellow, Color::Black)
    );
    assert_eq!(
        c.resolve(&smap, &names(&["one", "two"]), &names(&["frame", "border"])),
        solid_style(Color::Yellow, Color::Black)
    );
    assert_eq!(
        c.resolve(&smap, &names(&["frame"]), &names(&["border"])),
        solid_style(Color::Yellow, Color::Black)
    );
}

#[test]
fn style_rules_merge_same_path() {
    let mut smap = StyleMap::new();
    smap.rules().fg("test/path", Color::Red.into()).bg("test/path", Color::Blue.into()).apply();

    let c = StyleManager::new();
    let resolved = c.resolve(&smap, &[], &names(&["test", "path"]));

    assert_eq!(resolved.fg.solid_color(), Some(Color::Red));
    assert_eq!(resolved.bg.solid_color(), Some(Color::Blue));
}

#[test]
fn style_rules_later_overrides_earlier() {
    let mut smap = StyleMap::new();
    smap.rules().fg("test", Color::Red.into()).fg("test", Color::Green.into()).apply();

    let c = StyleManager::new();
    let resolved = c.resolve(&smap, &[], &names(&["test"]));

    assert_eq!(resolved.fg.solid_color(), Some(Color::Green));
}

#[test]
fn stylemap_default_is_complete() {
    let smap = StyleMap::default();
    let c = StyleManager::new();
    let resolved = c.get(&smap, "");
    assert_eq!(resolved.fg.solid_color(), Some(Color::White));
    assert_eq!(resolved.bg.solid_color(), Some(Color::Black));
    assert_eq!(resolved.attrs, AttrSet::default());
}

#[test]
fn gradient_paints_have_no_solid_color() {
    assert_eq!(Paint::gradient(3).solid_color(), None);
    assert_eq!(Paint::solid(Color::Red).solid_color(), Some(Color::Red));
    let mixed = Style { fg: Paint::solid(Color::Red), bg: Paint::gradient(0), attrs: AttrSet::default() };
    assert_eq!(mixed.resolve_solid(), None);
    let solid = solid_style(Color::Red, Color::Blue);
    let resolved = solid.resolve_solid().unwrap();
    assert_eq!((resolved.fg, resolved.bg), (Color::Red, Color::Blue));
}

#[test]
fn join_prefers_the_parts_of_the_first_style() {
    let a = PartialStyle::fg(Color::Red.into()).with_attr(Attr::Bold);
    let b = PartialStyle::fg(Color::Blue.into()).with_bg(Color::Black.into()).with_attrs(AttrSet::default());
    let j = a.join(&b);
    assert_eq!(j.fg, Some(Paint::Solid(Color::Red)));
    assert_eq!(j.bg, Some(Paint::Solid(Color::Black)));
    assert_eq!(j.attrs, Some(AttrSet::new(Attr::Bold)));
    assert!(j.is_complete());
    assert!(!a.is_complete());
    assert_eq!(PartialStyle::default().join(&b), b);
    assert_eq!(b.join(&a), b);
}

#[test]
fn builder_attributes_accumulate() {
    let built: PartialStyle = StyleBuilder::new().attr(Attr::Bold).attr(Attr::Italic).into();
    assert_eq!(built.fg, None);
    assert_eq!(built.attrs, Some(AttrSet::new(Attr::Bold).with(Attr::Italic)));
    assert_eq!(StyleBuilder::new().bg(Color::Red.into()).build(), PartialStyle::bg(Color::Red.into()));
}

#[test]
fn add_attr_keeps_the_rest_of_the_style() {
    let mut smap = StyleMap::new();
    smap.rules().fg("frame", Color::Red.into()).apply();
    smap.add_attr("frame", Attr::Bold);
    smap.add_attr("/frame/", Attr::Underline);
    smap.add_attr("fresh", Attr::Italic);
    let c = StyleManager::new();
    let frame = c.get(&smap, "frame");
    assert_eq!(frame.fg, Paint::Solid(Color::Red));
    assert_eq!(frame.bg, Paint::Solid(Color::Black));
    assert_eq!(frame.attrs, AttrSet::new(Attr::Bold).with(Attr::Underline));
    let fresh = c.get(&smap, "fresh");
    assert_eq!(fresh.fg, Paint::Solid(Color::White));
    assert_eq!(fresh.attrs, AttrSet::new(Attr::Italic));
}

#[test]
fn a_rule_attribute_replaces_earlier_attributes() {
    let mut smap = StyleMap::new();
    smap.rules().attr("text", Attr::Bold).attr("text", Attr::Italic).apply();
    let c = StyleManager::new();
    assert_eq!(c.get(&smap, "text").attrs, AttrSet::new(Attr::Italic));
}

#[test]
fn prefixed_rules_and_rules_for_many_paths() {
    let mut smap = StyleMap::new();
    smap.rules()
        .prefix("dialog")
        .fg_all(&["title", "body"], Color::Red.into())
        .bg("", Color::Blue.into())
        .no_prefix()
        .attrs_all(&["dialog/body", "other"], AttrSet::new(Attr::Dim))
        .style_all(&["a", "b"], PartialStyle::fg(Color::Green.into()))
        .apply();
    let c = StyleManager::new();
    let title = c.get(&smap, "dialog/title");
    assert_eq!((title.fg, title.bg), (Paint::Solid(Color::Red), Paint::Solid(Color::Blue)));
    assert_eq!(c.get(&smap, "dialog/body").attrs, AttrSet::new(Attr::Dim));
    assert_eq!(c.get(&smap, "other").attrs, AttrSet::new(Attr::Dim));
    assert_eq!(c.get(&smap, "b").fg, Paint::Solid(Color::Green));
}

#[test]
fn layers_are_searched_before_the_bare_path() {
    let mut smap = StyleMap::new();
    smap.rules().fg("button", Color::Red.into()).fg("dialog/button", Color::Green.into()).apply();
    let mut c = StyleManager::new();
    assert_eq!(c.get(&smap, "button").fg, Paint::Solid(Color::Red));
    c.push();
    c.push_layer("dialog");
    assert_eq!(c.get(&smap, "button").fg, Paint::Solid(Color::Green));
    assert_eq!(c.get(&smap, "button/label").fg, Paint::Solid(Color::Green));
    c.pop();
    assert_eq!(c.get(&smap, "button").fg, Paint::Solid(Color::Red));
}

use canopy::style::effects::{invert_rgb, InvertRgb};
use canopy::style::theme::{canopy_dark, theme};

#[test]
fn the_default_theme_styles_frames_and_help_keys() {
    let smap = canopy_dark();
    let c = StyleManager::new();
    let root = c.get(&smap, "/");
    assert_eq!(root.fg, Paint::Solid(Color::Rgb { r: 0xee, g: 0xee, b: 0xee }));
    assert_eq!(root.bg, Paint::Solid(Color::Rgb { r: 0x0a, g: 0x0a, b: 0x0a }));
    let frame = c.get(&smap, "frame");
    assert_eq!(frame.fg, Paint::Solid(Color::Rgb { r: 0x48, g: 0x48, b: 0x48 }));
    let key = c.get(&smap, "help/footer/key");
    assert_eq!(key.fg, Paint::Solid(Color::Rgb { r: 0x8a, g: 0xad, b: 0xf4 }));
    assert_eq!(key.bg, Paint::Solid(Color::Rgb { r: 0x1a, g: 0x1a, b: 0x1a }));
    assert_eq!(key.attrs, AttrSet::new(Attr::Bold));
    assert_eq!(c.get(&smap, "text/italic").attrs, AttrSet::new(Attr::Italic));
}

#[test]
fn every_palette_shares_the_rule_set() {
    let mut p = canopy::style::Palette {
        fg: Color::White, bg: Color::Black, frame: Color::Red, frame_focused: Color::Green, frame_thumb: Color::Blue,
        frame_title: Color::Yellow, accent: Color::Cyan, muted_fg: Color::Magenta, panel_bg: Color::Grey,
        element_bg: Color::DarkGrey, selection_bg: Color::DarkRed, line_number: Color::DarkGreen, key: Color::DarkBlue,
        blue: Color::Blue, red: Color::Red, magenta: Color::Magenta, violet: Color::DarkMagenta, cyan: Color::Cyan,
        green: Color::Green, yellow: Color::Yellow, orange: Color::DarkYellow,
    };
    let c = StyleManager::new();
    assert_eq!(c.get(&theme(&p), "frame/focused").fg, Paint::Solid(Color::Green));
    p.frame_focused = Color::Red;
    assert_eq!(c.get(&theme(&p), "frame/focused").fg, Paint::Solid(Color::Red));
}

#[test]
fn inverting_a_solid_style() {
    let s = Style { fg: Color::Rgb { r: 10, g: 20, b: 30 }, bg: Color::Black, attrs: AttrSet::default() };
    let e: InvertRgb = invert_rgb();
    let t = e.apply(s);
    assert_eq!(t.fg, Color::Rgb { r: 245, g: 235, b: 225 });
    assert_eq!(t.bg, Color::Rgb { r: 255, g: 255, b: 255 });
}
