//! The built-in themes: one rule set shared by every theme, filled in from
//! a palette of role colours, and the default palette.

use vstd::prelude::*;
use super::{attrs_with, empty_attrs, Attr, AttrSet, Color, Palette};
use super::map::{default_root, merge_spec, pending_style, Paint, PartialStyle, StyleBuilder, StyleMap};

verus! {

/// The rules of the shared theme for a palette, in the order they are given;
/// each merges into an earlier rule for the same path.
pub open spec fn theme_queue(p: Palette) -> Seq<(Seq<char>, PartialStyle)> {
    let q = Seq::<(Seq<char>, PartialStyle)>::empty();
    let q = merge_spec(q, "/"@, PartialStyle { fg: Some(Paint::Solid(p.fg)), bg: Some(Paint::Solid(p.bg)), attrs: Some(empty_attrs()) });
    let q = merge_spec(q, "/frame"@, PartialStyle { fg: Some(Paint::Solid(p.frame)), bg: None, attrs: None });
    let q = merge_spec(q, "/frame/focused"@, PartialStyle { fg: Some(Paint::Solid(p.frame_focused)), bg: None, attrs: None });
    let q = merge_spec(q, "/frame/thumb"@, PartialStyle { fg: Some(Paint::Solid(p.frame_thumb)), bg: None, attrs: None });
    let q = merge_spec(q, "/frame/thumb/active"@, PartialStyle { fg: Some(Paint::Solid(p.frame_focused)), bg: None, attrs: None });
    let q = merge_spec(q, "/frame/title"@, PartialStyle { fg: Some(Paint::Solid(p.frame_title)), bg: None, attrs: None });
    let q = merge_spec(q, "/columns/divider"@, PartialStyle { fg: Some(Paint::Solid(p.frame)), bg: None, attrs: None });
    let q = merge_spec(q, "/columns/thumb"@, PartialStyle { fg: Some(Paint::Solid(p.frame_thumb)), bg: None, attrs: None });
    let q = merge_spec(q, "/columns/thumb/active"@, PartialStyle { fg: Some(Paint::Solid(p.frame_focused)), bg: None, attrs: None });
    let q = merge_spec(q, "/blue"@, PartialStyle { fg: Some(Paint::Solid(p.blue)), bg: None, attrs: None });
    let q = merge_spec(q, "/red"@, PartialStyle { fg: Some(Paint::Solid(p.red)), bg: None, attrs: None });
    let q = merge_spec(q, "/magenta"@, PartialStyle { fg: Some(Paint::Solid(p.magenta)), bg: None, attrs: None });
    let q = merge_spec(q, "/violet"@, PartialStyle { fg: Some(Paint::Solid(p.violet)), bg: None, attrs: None });
    let q = merge_spec(q, "/cyan"@, PartialStyle { fg: Some(Paint::Solid(p.cyan)), bg: None, attrs: None });
    let q = merge_spec(q, "/green"@, PartialStyle { fg: Some(Paint::Solid(p.green)), bg: None, attrs: None });
    let q = merge_spec(q, "/yellow"@, PartialStyle { fg: Some(Paint::Solid(p.yellow)), bg: None, attrs: None });
    let q = merge_spec(q, "/orange"@, PartialStyle { fg: Some(Paint::Solid(p.orange)), bg: None, attrs: None });
    let q = merge_spec(q, "/text/bold"@, PartialStyle { fg: None, bg: None, attrs: Some(attrs_with(empty_attrs(), Attr::Bold)) });
    let q = merge_spec(q, "/text/italic"@, PartialStyle { fg: None, bg: None, attrs: Some(attrs_with(empty_attrs(), Attr::Italic)) });
    let q = merge_spec(q, "/text/underline"@, PartialStyle { fg: None, bg: None, attrs: Some(attrs_with(empty_attrs(), Attr::Underline)) });
    let q = merge_spec(q, "/button/key"@, PartialStyle { fg: Some(Paint::Solid(p.key)), bg: None, attrs: Some(attrs_with(empty_attrs(), Attr::Bold)) });
    let q = merge_spec(q, "/button/focused/border"@, PartialStyle { fg: Some(Paint::Solid(p.frame_focused)), bg: None, attrs: None });
    let q = merge_spec(q, "/button/disabled/border"@, PartialStyle { fg: Some(Paint::Solid(p.muted_fg)), bg: None, attrs: None });
    let q = merge_spec(q, "/button/disabled/text"@, PartialStyle { fg: Some(Paint::Solid(p.muted_fg)), bg: None, attrs: None });
    let q = merge_spec(q, "/button/disabled/key"@, PartialStyle { fg: Some(Paint::Solid(p.muted_fg)), bg: None, attrs: None });
    let q = merge_spec(q, "/selector"@, PartialStyle { fg: Some(Paint::Solid(p.fg)), bg: None, attrs: None });
    let q = merge_spec(q, "/selector/selected"@, PartialStyle { fg: Some(Paint::Solid(p.accent)), bg: None, attrs: None });
    let q = merge_spec(q, "/selector/focus"@, PartialStyle { fg: Some(Paint::Solid(p.bg)), bg: Some(Paint::Solid(p.accent)), attrs: None });
    let q = merge_spec(q, "/selector/focus/selected"@, PartialStyle { fg: Some(Paint::Solid(p.bg)), bg: Some(Paint::Solid(p.cyan)), attrs: None });
    let q = merge_spec(q, "/dropdown"@, PartialStyle { fg: Some(Paint::Solid(p.fg)), bg: None, attrs: None });
    let q = merge_spec(q, "/dropdown/selected"@, PartialStyle { fg: Some(Paint::Solid(p.accent)), bg: None, attrs: None });
    let q = merge_spec(q, "/dropdown/highlight"@, PartialStyle { fg: Some(Paint::Solid(p.bg)), bg: Some(Paint::Solid(p.accent)), attrs: None });
    let q = merge_spec(q, "/tabs/bar"@, PartialStyle { fg: Some(Paint::Solid(p.muted_fg)), bg: Some(Paint::Solid(p.panel_bg)), attrs: None });
    let q = merge_spec(q, "/tabs/tab"@, PartialStyle { fg: Some(Paint::Solid(p.muted_fg)), bg: Some(Paint::Solid(p.element_bg)), attrs: None });
    let q = merge_spec(q, "/tabs/tab/active"@, PartialStyle { fg: Some(Paint::Solid(p.accent)), bg: Some(Paint::Solid(p.selection_bg)), attrs: Some(attrs_with(empty_attrs(), Attr::Bold)) });
    let q = merge_spec(q, "/tabs/tab/active/focused"@, PartialStyle { fg: Some(Paint::Solid(p.bg)), bg: Some(Paint::Solid(p.accent)), attrs: Some(attrs_with(empty_attrs(), Attr::Bold)) });
    let q = merge_spec(q, "/editor/text"@, PartialStyle { fg: Some(Paint::Solid(p.fg)), bg: Some(Paint::Solid(p.bg)), attrs: None });
    let q = merge_spec(q, "/editor/selection"@, PartialStyle { fg: Some(Paint::Solid(p.fg)), bg: Some(Paint::Solid(p.selection_bg)), attrs: None });
    let q = merge_spec(q, "/editor/search/match"@, PartialStyle { fg: Some(Paint::Solid(p.bg)), bg: Some(Paint::Solid(p.yellow)), attrs: None });
    let q = merge_spec(q, "/editor/search/current"@, PartialStyle { fg: Some(Paint::Solid(p.bg)), bg: Some(Paint::Solid(p.orange)), attrs: None });
    let q = merge_spec(q, "/editor/line-number"@, PartialStyle { fg: Some(Paint::Solid(p.line_number)), bg: None, attrs: None });
    let q = merge_spec(q, "/editor/line-number/current"@, PartialStyle { fg: Some(Paint::Solid(p.accent)), bg: None, attrs: None });
    let q = merge_spec(q, "/editor/prompt"@, PartialStyle { fg: Some(Paint::Solid(p.fg)), bg: Some(Paint::Solid(p.panel_bg)), attrs: None });
    let q = merge_spec(q, "/help/panel"@, PartialStyle { fg: Some(Paint::Solid(p.fg)), bg: Some(Paint::Solid(p.panel_bg)), attrs: None });
    let q = merge_spec(q, "/help/frame"@, PartialStyle { fg: None, bg: Some(Paint::Solid(p.panel_bg)), attrs: None });
    let q = merge_spec(q, "/help/frame/focused"@, PartialStyle { fg: None, bg: Some(Paint::Solid(p.panel_bg)), attrs: None });
    let q = merge_spec(q, "/help/frame/thumb"@, PartialStyle { fg: None, bg: Some(Paint::Solid(p.panel_bg)), attrs: None });
    let q = merge_spec(q, "/help/frame/thumb/active"@, PartialStyle { fg: None, bg: Some(Paint::Solid(p.panel_bg)), attrs: None });
    let q = merge_spec(q, "/help/frame/title"@, PartialStyle { fg: None, bg: Some(Paint::Solid(p.panel_bg)), attrs: None });
    let q = merge_spec(q, "/help/key"@, PartialStyle { fg: Some(Paint::Solid(p.key)), bg: Some(Paint::Solid(p.panel_bg)), attrs: Some(attrs_with(empty_attrs(), Attr::Bold)) });
    let q = merge_spec(q, "/help/footer/key"@, PartialStyle { fg: Some(Paint::Solid(p.key)), bg: Some(Paint::Solid(p.panel_bg)), attrs: Some(attrs_with(empty_attrs(), Attr::Bold)) });
    let q = merge_spec(q, "/help/label"@, PartialStyle { fg: Some(Paint::Solid(p.muted_fg)), bg: Some(Paint::Solid(p.panel_bg)), attrs: None });
    let q = merge_spec(q, "/help/fallback"@, PartialStyle { fg: Some(Paint::Solid(p.muted_fg)), bg: Some(Paint::Solid(p.panel_bg)), attrs: None });
    let q = merge_spec(q, "/help/footer"@, PartialStyle { fg: Some(Paint::Solid(p.muted_fg)), bg: Some(Paint::Solid(p.panel_bg)), attrs: None });
    let q = merge_spec(q, "/help/footer/label"@, PartialStyle { fg: Some(Paint::Solid(p.muted_fg)), bg: Some(Paint::Solid(p.panel_bg)), attrs: None });
    let q = merge_spec(q, "/help/indicator"@, PartialStyle { fg: Some(Paint::Solid(p.accent)), bg: Some(Paint::Solid(p.panel_bg)), attrs: None });
    let q = merge_spec(q, "/picker/background"@, PartialStyle { fg: Some(Paint::Solid(p.fg)), bg: Some(Paint::Solid(p.panel_bg)), attrs: None });
    let q = merge_spec(q, "/picker/text"@, PartialStyle { fg: Some(Paint::Solid(p.fg)), bg: Some(Paint::Solid(p.panel_bg)), attrs: None });
    let q = merge_spec(q, "/picker/selection"@, PartialStyle { fg: Some(Paint::Solid(p.bg)), bg: Some(Paint::Solid(p.accent)), attrs: None });
    let q = merge_spec(q, "/picker/selection/dimmed"@, PartialStyle { fg: Some(Paint::Solid(p.fg)), bg: Some(Paint::Solid(p.selection_bg)), attrs: None });
    let q = merge_spec(q, "/picker/placeholder"@, PartialStyle { fg: Some(Paint::Solid(p.muted_fg)), bg: Some(Paint::Solid(p.panel_bg)), attrs: None });
    let q = merge_spec(q, "/picker/filter"@, PartialStyle { fg: Some(Paint::Solid(p.muted_fg)), bg: Some(Paint::Solid(p.element_bg)), attrs: None });
    let q = merge_spec(q, "/picker/filter/text"@, PartialStyle { fg: Some(Paint::Solid(p.muted_fg)), bg: Some(Paint::Solid(p.element_bg)), attrs: None });
    let q = merge_spec(q, "/picker/filter/prompt"@, PartialStyle { fg: Some(Paint::Solid(p.muted_fg)), bg: Some(Paint::Solid(p.element_bg)), attrs: None });
    let q = merge_spec(q, "/picker/filter/active"@, PartialStyle { fg: Some(Paint::Solid(p.fg)), bg: Some(Paint::Solid(p.selection_bg)), attrs: None });
    let q = merge_spec(q, "/picker/filter/active/text"@, PartialStyle { fg: Some(Paint::Solid(p.fg)), bg: Some(Paint::Solid(p.selection_bg)), attrs: None });
    let q = merge_spec(q, "/picker/filter/active/prompt"@, PartialStyle { fg: Some(Paint::Solid(p.key)), bg: Some(Paint::Solid(p.selection_bg)), attrs: Some(attrs_with(empty_attrs(), Attr::Bold)) });
    let q = merge_spec(q, "/picker/frame"@, PartialStyle { fg: None, bg: Some(Paint::Solid(p.panel_bg)), attrs: None });
    let q = merge_spec(q, "/picker/frame/focused"@, PartialStyle { fg: None, bg: Some(Paint::Solid(p.panel_bg)), attrs: None });
    let q = merge_spec(q, "/picker/frame/thumb"@, PartialStyle { fg: None, bg: Some(Paint::Solid(p.panel_bg)), attrs: None });
    let q = merge_spec(q, "/picker/frame/thumb/active"@, PartialStyle { fg: None, bg: Some(Paint::Solid(p.panel_bg)), attrs: None });
    let q = merge_spec(q, "/picker/frame/title"@, PartialStyle { fg: None, bg: Some(Paint::Solid(p.panel_bg)), attrs: None });
    let q = merge_spec(q, "/confirm/background"@, PartialStyle { fg: Some(Paint::Solid(p.fg)), bg: Some(Paint::Solid(p.panel_bg)), attrs: None });
    let q = merge_spec(q, "/confirm/message"@, PartialStyle { fg: Some(Paint::Solid(p.fg)), bg: Some(Paint::Solid(p.panel_bg)), attrs: None });
    let q = merge_spec(q, "/confirm/frame"@, PartialStyle { fg: None, bg: Some(Paint::Solid(p.panel_bg)), attrs: None });
    let q = merge_spec(q, "/confirm/frame/focused"@, PartialStyle { fg: None, bg: Some(Paint::Solid(p.panel_bg)), attrs: None });
    let q = merge_spec(q, "/confirm/frame/thumb"@, PartialStyle { fg: None, bg: Some(Paint::Solid(p.panel_bg)), attrs: None });
    let q = merge_spec(q, "/confirm/frame/thumb/active"@, PartialStyle { fg: None, bg: Some(Paint::Solid(p.panel_bg)), attrs: None });
    let q = merge_spec(q, "/confirm/frame/title"@, PartialStyle { fg: None, bg: Some(Paint::Solid(p.panel_bg)), attrs: None });
    let q = merge_spec(q, "/confirm/button/border"@, PartialStyle { fg: Some(Paint::Solid(p.fg)), bg: Some(Paint::Solid(p.panel_bg)), attrs: None });
    let q = merge_spec(q, "/confirm/button/text"@, PartialStyle { fg: Some(Paint::Solid(p.fg)), bg: Some(Paint::Solid(p.panel_bg)), attrs: None });
    let q = merge_spec(q, "/confirm/button/focused/border"@, PartialStyle { fg: Some(Paint::Solid(p.frame_focused)), bg: Some(Paint::Solid(p.panel_bg)), attrs: None });
    let q = merge_spec(q, "/confirm/button/key"@, PartialStyle { fg: Some(Paint::Solid(p.key)), bg: Some(Paint::Solid(p.panel_bg)), attrs: Some(attrs_with(empty_attrs(), Attr::Bold)) });
    q
}

/// The style a theme stores under a key: that of its last rule for the key,
/// or the default root style under the root.
pub open spec fn theme_style(p: Palette, key: Seq<Seq<char>>) -> Option<PartialStyle> {
    match pending_style(theme_queue(p), key) {
        Some(s) => Some(s),
        None => if key == Seq::<Seq<char>>::empty() {
            Some(default_root())
        } else {
            None
        },
    }
}

/// Build the shared rule set for one palette.
pub fn theme(p: &Palette) -> (r: StyleMap)
    ensures
        forall|k: Seq<Seq<char>>| #[trigger] r.style_at(k) == theme_style(*p, k),
{
    let mut c = StyleMap::new();
    c.rules()
        .style("/", StyleBuilder::new().fg(Paint::Solid(p.fg)).bg(Paint::Solid(p.bg)).attrs(AttrSet::default()).build())
        .fg("/frame", Paint::Solid(p.frame))
        .fg("/frame/focused", Paint::Solid(p.frame_focused))
        .fg("/frame/thumb", Paint::Solid(p.frame_thumb))
        .fg("/frame/thumb/active", Paint::Solid(p.frame_focused))
        .fg("/frame/title", Paint::Solid(p.frame_title))
        .fg("/columns/divider", Paint::Solid(p.frame))
        .fg("/columns/thumb", Paint::Solid(p.frame_thumb))
        .fg("/columns/thumb/active", Paint::Solid(p.frame_focused))
        .fg("/blue", Paint::Solid(p.blue))
        .fg("/red", Paint::Solid(p.red))
        .fg("/magenta", Paint::Solid(p.magenta))
        .fg("/violet", Paint::Solid(p.violet))
        .fg("/cyan", Paint::Solid(p.cyan))
        .fg("/green", Paint::Solid(p.green))
        .fg("/yellow", Paint::Solid(p.yellow))
        .fg("/orange", Paint::Solid(p.orange))
        .attr("/text/bold", Attr::Bold)
        .attr("/text/italic", Attr::Italic)
        .attr("/text/underline", Attr::Underline)
        .style("/button/key", StyleBuilder::new().fg(Paint::Solid(p.key)).attrs(AttrSet::new(Attr::Bold)).build())
        .fg("/button/focused/border", Paint::Solid(p.frame_focused))
        .fg("/button/disabled/border", Paint::Solid(p.muted_fg))
        .fg("/button/disabled/text", Paint::Solid(p.muted_fg))
        .fg("/button/disabled/key", Paint::Solid(p.muted_fg))
        .fg("/selector", Paint::Solid(p.fg))
        .fg("/selector/selected", Paint::Solid(p.accent))
        .style("/selector/focus", StyleBuilder::new().fg(Paint::Solid(p.bg)).bg(Paint::Solid(p.accent)).build())
        .style("/selector/focus/selected", StyleBuilder::new().fg(Paint::Solid(p.bg)).bg(Paint::Solid(p.cyan)).build())
        .fg("/dropdown", Paint::Solid(p.fg))
        .fg("/dropdown/selected", Paint::Solid(p.accent))
        .style("/dropdown/highlight", StyleBuilder::new().fg(Paint::Solid(p.bg)).bg(Paint::Solid(p.accent)).build())
        .style("/tabs/bar", StyleBuilder::new().fg(Paint::Solid(p.muted_fg)).bg(Paint::Solid(p.panel_bg)).build())
        .style("/tabs/tab", StyleBuilder::new().fg(Paint::Solid(p.muted_fg)).bg(Paint::Solid(p.element_bg)).build())
        .style("/tabs/tab/active", StyleBuilder::new().fg(Paint::Solid(p.accent)).bg(Paint::Solid(p.selection_bg)).attrs(AttrSet::new(Attr::Bold)).build())
        .style("/tabs/tab/active/focused", StyleBuilder::new().fg(Paint::Solid(p.bg)).bg(Paint::Solid(p.accent)).attrs(AttrSet::new(Attr::Bold)).build())
        .style("/editor/text", StyleBuilder::new().fg(Paint::Solid(p.fg)).bg(Paint::Solid(p.bg)).build())
        .style("/editor/selection", StyleBuilder::new().fg(Paint::Solid(p.fg)).bg(Paint::Solid(p.selection_bg)).build())
        .style("/editor/search/match", StyleBuilder::new().fg(Paint::Solid(p.bg)).bg(Paint::Solid(p.yellow)).build())
        .style("/editor/search/current", StyleBuilder::new().fg(Paint::Solid(p.bg)).bg(Paint::Solid(p.orange)).build())
        .fg("/editor/line-number", Paint::Solid(p.line_number))
        .fg("/editor/line-number/current", Paint::Solid(p.accent))
        .style("/editor/prompt", StyleBuilder::new().fg(Paint::Solid(p.fg)).bg(Paint::Solid(p.panel_bg)).build())
        .style("/help/panel", StyleBuilder::new().fg(Paint::Solid(p.fg)).bg(Paint::Solid(p.panel_bg)).build())
        .style("/help/frame", StyleBuilder::new().bg(Paint::Solid(p.panel_bg)).build())
        .style("/help/frame/focused", StyleBuilder::new().bg(Paint::Solid(p.panel_bg)).build())
        .style("/help/frame/thumb", StyleBuilder::new().bg(Paint::Solid(p.panel_bg)).build())
        .style("/help/frame/thumb/active", StyleBuilder::new().bg(Paint::Solid(p.panel_bg)).build())
        .style("/help/frame/title", StyleBuilder::new().bg(Paint::Solid(p.panel_bg)).build())
        .style("/help/key", StyleBuilder::new().fg(Paint::Solid(p.key)).bg(Paint::Solid(p.panel_bg)).attrs(AttrSet::new(Attr::Bold)).build())
        .style("/help/footer/key", StyleBuilder::new().fg(Paint::Solid(p.key)).bg(Paint::Solid(p.panel_bg)).attrs(AttrSet::new(Attr::Bold)).build())
        .style("/help/label", StyleBuilder::new().fg(Paint::Solid(p.muted_fg)).bg(Paint::Solid(p.panel_bg)).build())
        .style("/help/fallback", StyleBuilder::new().fg(Paint::Solid(p.muted_fg)).bg(Paint::Solid(p.panel_bg)).build())
        .style("/help/footer", StyleBuilder::new().fg(Paint::Solid(p.muted_fg)).bg(Paint::Solid(p.panel_bg)).build())
        .style("/help/footer/label", StyleBuilder::new().fg(Paint::Solid(p.muted_fg)).bg(Paint::Solid(p.panel_bg)).build())
        .style("/help/indicator", StyleBuilder::new().fg(Paint::Solid(p.accent)).bg(Paint::Solid(p.panel_bg)).build())
        .style("/picker/background", StyleBuilder::new().fg(Paint::Solid(p.fg)).bg(Paint::Solid(p.panel_bg)).build())
        .style("/picker/text", StyleBuilder::new().fg(Paint::Solid(p.fg)).bg(Paint::Solid(p.panel_bg)).build())
        .style("/picker/selection", StyleBuilder::new().fg(Paint::Solid(p.bg)).bg(Paint::Solid(p.accent)).build())
        .style("/picker/selection/dimmed", StyleBuilder::new().fg(Paint::Solid(p.fg)).bg(Paint::Solid(p.selection_bg)).build())
        .style("/picker/placeholder", StyleBuilder::new().fg(Paint::Solid(p.muted_fg)).bg(Paint::Solid(p.panel_bg)).build())
        .style("/picker/filter", StyleBuilder::new().fg(Paint::Solid(p.muted_fg)).bg(Paint::Solid(p.element_bg)).build())
        .style("/picker/filter/text", StyleBuilder::new().fg(Paint::Solid(p.muted_fg)).bg(Paint::Solid(p.element_bg)).build())
        .style("/picker/filter/prompt", StyleBuilder::new().fg(Paint::Solid(p.muted_fg)).bg(Paint::Solid(p.element_bg)).build())
        .style("/picker/filter/active", StyleBuilder::new().fg(Paint::Solid(p.fg)).bg(Paint::Solid(p.selection_bg)).build())
        .style("/picker/filter/active/text", StyleBuilder::new().fg(Paint::Solid(p.fg)).bg(Paint::Solid(p.selection_bg)).build())
        .style("/picker/filter/active/prompt", StyleBuilder::new().fg(Paint::Solid(p.key)).bg(Paint::Solid(p.selection_bg)).attrs(AttrSet::new(Attr::Bold)).build())
        .style("/picker/frame", StyleBuilder::new().bg(Paint::Solid(p.panel_bg)).build())
        .style("/picker/frame/focused", StyleBuilder::new().bg(Paint::Solid(p.panel_bg)).build())
        .style("/picker/frame/thumb", StyleBuilder::new().bg(Paint::Solid(p.panel_bg)).build())
        .style("/picker/frame/thumb/active", StyleBuilder::new().bg(Paint::Solid(p.panel_bg)).build())
        .style("/picker/frame/title", StyleBuilder::new().bg(Paint::Solid(p.panel_bg)).build())
        .style("/confirm/background", StyleBuilder::new().fg(Paint::Solid(p.fg)).bg(Paint::Solid(p.panel_bg)).build())
        .style("/confirm/message", StyleBuilder::new().fg(Paint::Solid(p.fg)).bg(Paint::Solid(p.panel_bg)).build())
        .style("/confirm/frame", StyleBuilder::new().bg(Paint::Solid(p.panel_bg)).build())
        .style("/confirm/frame/focused", StyleBuilder::new().bg(Paint::Solid(p.panel_bg)).build())
        .style("/confirm/frame/thumb", StyleBuilder::new().bg(Paint::Solid(p.panel_bg)).build())
        .style("/confirm/frame/thumb/active", StyleBuilder::new().bg(Paint::Solid(p.panel_bg)).build())
        .style("/confirm/frame/title", StyleBuilder::new().bg(Paint::Solid(p.panel_bg)).build())
        .style("/confirm/button/border", StyleBuilder::new().fg(Paint::Solid(p.fg)).bg(Paint::Solid(p.panel_bg)).build())
        .style("/confirm/button/text", StyleBuilder::new().fg(Paint::Solid(p.fg)).bg(Paint::Solid(p.panel_bg)).build())
        .style("/confirm/button/focused/border", StyleBuilder::new().fg(Paint::Solid(p.frame_focused)).bg(Paint::Solid(p.panel_bg)).build())
        .style("/confirm/button/key", StyleBuilder::new().fg(Paint::Solid(p.key)).bg(Paint::Solid(p.panel_bg)).attrs(AttrSet::new(Attr::Bold)).build())
        .apply();
    c
}

/// The palette of the default theme.
pub open spec fn canopy_dark_palette() -> Palette {
    Palette {
        fg: Color::Rgb { r: 0xee, g: 0xee, b: 0xee },
        bg: Color::Rgb { r: 0x0a, g: 0x0a, b: 0x0a },
        frame: Color::Rgb { r: 0x48, g: 0x48, b: 0x48 },
        frame_focused: Color::Rgb { r: 0x80, g: 0x80, b: 0x80 },
        frame_thumb: Color::Rgb { r: 0x60, g: 0x60, b: 0x60 },
        frame_title: Color::Rgb { r: 0xee, g: 0xee, b: 0xee },
        accent: Color::Rgb { r: 0x8a, g: 0xad, b: 0xf4 },
        muted_fg: Color::Rgb { r: 0xb4, g: 0xb4, b: 0xb4 },
        panel_bg: Color::Rgb { r: 0x1a, g: 0x1a, b: 0x1a },
        element_bg: Color::Rgb { r: 0x28, g: 0x28, b: 0x28 },
        selection_bg: Color::Rgb { r: 0x3c, g: 0x3c, b: 0x3c },
        line_number: Color::Rgb { r: 0x60, g: 0x60, b: 0x60 },
        key: Color::Rgb { r: 0x8a, g: 0xad, b: 0xf4 },
        blue: Color::Rgb { r: 0x5c, g: 0x9c, b: 0xf5 },
        red: Color::Rgb { r: 0xe0, g: 0x6c, b: 0x75 },
        magenta: Color::Rgb { r: 0xe5, g: 0x8f, b: 0xd6 },
        violet: Color::Rgb { r: 0xbb, g: 0x9a, b: 0xf7 },
        cyan: Color::Rgb { r: 0x56, g: 0xb6, b: 0xc2 },
        green: Color::Rgb { r: 0x7f, g: 0xd8, b: 0x8f },
        yellow: Color::Rgb { r: 0xe5, g: 0xc0, b: 0x7b },
        orange: Color::Rgb { r: 0xf5, g: 0xa7, b: 0x42 },
    }
}

/// Build the dark Canopy style map.
pub fn canopy_dark() -> (r: StyleMap)
    ensures
        forall|k: Seq<Seq<char>>| #[trigger] r.style_at(k) == theme_style(canopy_dark_palette(), k),
{
    theme(&Palette {
        fg: Color::Rgb { r: 0xee, g: 0xee, b: 0xee },
        bg: Color::Rgb { r: 0x0a, g: 0x0a, b: 0x0a },
        frame: Color::Rgb { r: 0x48, g: 0x48, b: 0x48 },
        frame_focused: Color::Rgb { r: 0x80, g: 0x80, b: 0x80 },
        frame_thumb: Color::Rgb { r: 0x60, g: 0x60, b: 0x60 },
        frame_title: Color::Rgb { r: 0xee, g: 0xee, b: 0xee },
        accent: Color::Rgb { r: 0x8a, g: 0xad, b: 0xf4 },
        muted_fg: Color::Rgb { r: 0xb4, g: 0xb4, b: 0xb4 },
        panel_bg: Color::Rgb { r: 0x1a, g: 0x1a, b: 0x1a },
        element_bg: Color::Rgb { r: 0x28, g: 0x28, b: 0x28 },
        selection_bg: Color::Rgb { r: 0x3c, g: 0x3c, b: 0x3c },
        line_number: Color::Rgb { r: 0x60, g: 0x60, b: 0x60 },
        key: Color::Rgb { r: 0x8a, g: 0xad, b: 0xf4 },
        blue: Color::Rgb { r: 0x5c, g: 0x9c, b: 0xf5 },
        red: Color::Rgb { r: 0xe0, g: 0x6c, b: 0x75 },
        magenta: Color::Rgb { r: 0xe5, g: 0x8f, b: 0xd6 },
        violet: Color::Rgb { r: 0xbb, g: 0x9a, b: 0xf7 },
        cyan: Color::Rgb { r: 0x56, g: 0xb6, b: 0xc2 },
        green: Color::Rgb { r: 0x7f, g: 0xd8, b: 0x8f },
        yellow: Color::Rgb { r: 0xe5, g: 0xc0, b: 0x7b },
        orange: Color::Rgb { r: 0xf5, g: 0xa7, b: 0x42 },
    })
}

} // verus!
