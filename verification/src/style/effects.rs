//! Style effects: transformations applied to styles during rendering.
//!
//! Effects are stacked and applied in order during render traversal. A style
//! here is generic over its paint, so the effects that only move paints or
//! touch attributes are stated for every kind of paint.

use vstd::prelude::*;
use super::{attrs_with, empty_attrs, Attr, AttrSet, Color};
use super::color::color_rgb;

verus! {

/// A paint-based style: foreground and background paints, and attributes.
#[derive(Debug, PartialEq, Clone)]
pub struct Style<P> {
    /// Foreground paint.
    pub fg: P,
    /// Background paint.
    pub bg: P,
    /// Text attributes.
    pub attrs: AttrSet,
}

/// A style transformation that can be applied during rendering.
pub trait StyleEffect<P>: Sized {
    /// The style this effect makes of a given style.
    spec fn transform(&self, style: Style<P>) -> Style<P>;

    /// Apply this effect to a style, returning the transformed style.
    fn apply(&self, style: Style<P>) -> (r: Style<P>)
        ensures
            r == self.transform(style),
    ;
}

/// Swap foreground and background paints.
#[derive(Debug, Clone, Copy)]
pub struct SwapFgBg;

impl<P> StyleEffect<P> for SwapFgBg {
    open spec fn transform(&self, style: Style<P>) -> Style<P> {
        Style { fg: style.bg, bg: style.fg, attrs: style.attrs }
    }

    fn apply(&self, style: Style<P>) -> (r: Style<P>) {
        Style { fg: style.bg, bg: style.fg, attrs: style.attrs }
    }
}

/// Add a single attribute.
#[derive(Debug, Clone, Copy)]
pub struct AddAttr(pub Attr);

impl<P> StyleEffect<P> for AddAttr {
    open spec fn transform(&self, style: Style<P>) -> Style<P> {
        Style { attrs: attrs_with(style.attrs, self.0), ..style }
    }

    fn apply(&self, style: Style<P>) -> (r: Style<P>) {
        let mut style = style;
        style.attrs = style.attrs.with(self.0);
        style
    }
}

/// Replace the entire attribute set.
#[derive(Debug, Clone, Copy)]
pub struct SetAttrs(pub AttrSet);

impl<P> StyleEffect<P> for SetAttrs {
    open spec fn transform(&self, style: Style<P>) -> Style<P> {
        Style { attrs: self.0, ..style }
    }

    fn apply(&self, style: Style<P>) -> (r: Style<P>) {
        let mut style = style;
        style.attrs = self.0;
        style
    }
}

/// Clear all attributes.
#[derive(Debug, Clone, Copy)]
pub struct ClearAttrs;

impl<P> StyleEffect<P> for ClearAttrs {
    open spec fn transform(&self, style: Style<P>) -> Style<P> {
        Style { attrs: empty_attrs(), ..style }
    }

    fn apply(&self, style: Style<P>) -> (r: Style<P>) {
        let mut style = style;
        style.attrs = AttrSet::default();
        style
    }
}

/// Invert the RGB channels of solid colours (each channel becomes 255 minus
/// itself). Gradient paints are left to the code that holds their stops.
#[derive(Debug, Clone, Copy)]
pub struct InvertRgb;

/// A colour with its RGB channels inverted.
pub open spec fn inverted(c: Color) -> Color {
    Color::Rgb { r: (255 - color_rgb(c).0) as u8, g: (255 - color_rgb(c).1) as u8, b: (255 - color_rgb(c).2) as u8 }
}

impl StyleEffect<Color> for InvertRgb {
    open spec fn transform(&self, style: Style<Color>) -> Style<Color> {
        Style { fg: inverted(style.fg), bg: inverted(style.bg), attrs: style.attrs }
    }

    fn apply(&self, style: Style<Color>) -> (r: Style<Color>) {
        Style { fg: style.fg.invert_rgb(), bg: style.bg.invert_rgb(), attrs: style.attrs }
    }
}

/// An effect that inverts the RGB channels of solid colours.
pub fn invert_rgb() -> (r: InvertRgb) {
    InvertRgb
}

/// An effect that swaps foreground and background paints.
pub fn swap_fg_bg() -> (r: SwapFgBg) {
    SwapFgBg
}

/// An effect that adds the bold attribute.
pub fn bold() -> (r: AddAttr)
    ensures
        r.0 == Attr::Bold,
{
    AddAttr(Attr::Bold)
}

/// An effect that adds the italic attribute.
pub fn italic() -> (r: AddAttr)
    ensures
        r.0 == Attr::Italic,
{
    AddAttr(Attr::Italic)
}

/// An effect that adds the underline attribute.
pub fn underline() -> (r: AddAttr)
    ensures
        r.0 == Attr::Underline,
{
    AddAttr(Attr::Underline)
}

/// An effect that adds the terminal dim attribute.
pub fn attr_dim() -> (r: AddAttr)
    ensures
        r.0 == Attr::Dim,
{
    AddAttr(Attr::Dim)
}

/// An effect that replaces all attributes.
pub fn set_attrs(attrs: AttrSet) -> (r: SetAttrs)
    ensures
        r.0 == attrs,
{
    SetAttrs(attrs)
}

/// An effect that clears all attributes.
pub fn clear_attrs() -> (r: ClearAttrs) {
    ClearAttrs
}

/// A style after a stack of effects, applied from the first to the last.
pub open spec fn effects_applied<P, E: StyleEffect<P>>(effects: Seq<E>, style: Style<P>) -> Style<P>
    decreases effects.len(),
{
    if effects.len() == 0 {
        style
    } else {
        effects.last().transform(effects_applied(effects.drop_last(), style))
    }
}

/// Apply a stack of effects to a style, in order.
pub fn apply_effects<P, E: StyleEffect<P>>(effects: &[E], style: Style<P>) -> (r: Style<P>)
    ensures
        r == effects_applied(effects@, style),
{
    let mut result = style;
    let mut i: usize = 0;
    while i < effects.len()
        invariant
            i <= effects@.len(),
            result == effects_applied(effects@.subrange(0, i as int), style),
        decreases effects@.len() - i,
    {
        let ghost before = effects@.subrange(0, i as int);
        result = effects[i].apply(result);
        proof {
            let after = effects@.subrange(0, i + 1);
            assert(after.drop_last() =~= before);
            assert(after.last() == effects@[i as int]);
        }
        i = i + 1;
    }
    assert(effects@.subrange(0, effects@.len() as int) =~= effects@);
    result
}

/// Law: a stack of effects applied to a style is the first part of the
/// stack applied, then the rest applied to the result.
pub proof fn law_effect_stacks_compose<P, E: StyleEffect<P>>(first: Seq<E>, rest: Seq<E>, style: Style<P>)
    ensures
        effects_applied(first + rest, style) == effects_applied(rest, effects_applied(first, style)),
    decreases rest.len(),
{
    if rest.len() == 0 {
        assert(first + rest =~= first);
    } else {
        law_effect_stacks_compose(first, rest.drop_last(), style);
        assert((first + rest).drop_last() =~= first + rest.drop_last());
        assert((first + rest).last() == rest.last());
    }
}

/// Law: swapping foreground and background twice restores the style.
pub proof fn law_swap_fg_bg_involutive<P>(style: Style<P>)
    ensures
        StyleEffect::<P>::transform(&SwapFgBg, StyleEffect::<P>::transform(&SwapFgBg, style)) == style,
{
}

/// Law: the attribute effects change attributes only, never the paints; a
/// clear or a replacement forgets what came before it, and adding an
/// attribute twice is adding it once.
pub proof fn law_attribute_effects_keep_paints<P>(style: Style<P>, attr: Attr, attrs: AttrSet)
    ensures
        StyleEffect::<P>::transform(&AddAttr(attr), style).fg == style.fg,
        StyleEffect::<P>::transform(&AddAttr(attr), style).bg == style.bg,
        StyleEffect::<P>::transform(&SetAttrs(attrs), style).attrs == attrs,
        StyleEffect::<P>::transform(&ClearAttrs, StyleEffect::<P>::transform(&AddAttr(attr), style))
            == StyleEffect::<P>::transform(&ClearAttrs, style),
        StyleEffect::<P>::transform(&SetAttrs(attrs), StyleEffect::<P>::transform(&ClearAttrs, style))
            == StyleEffect::<P>::transform(&SetAttrs(attrs), style),
        StyleEffect::<P>::transform(&AddAttr(attr), StyleEffect::<P>::transform(&AddAttr(attr), style))
            == StyleEffect::<P>::transform(&AddAttr(attr), style),
{
}

/// Law: inverting a solid style twice gives back the RGB values of its
/// colours and its attributes.
pub proof fn law_invert_twice_restores_rgb(style: Style<Color>)
    ensures
        ({
            let t = StyleEffect::<Color>::transform(&InvertRgb, StyleEffect::<Color>::transform(&InvertRgb, style));
            &&& color_rgb(t.fg) == color_rgb(style.fg)
            &&& color_rgb(t.bg) == color_rgb(style.bg)
            &&& t.attrs == style.attrs
        }),
{
    super::color::law_invert_rgb_involutive(style.fg);
    super::color::law_invert_rgb_involutive(style.bg);
}

} // verus!
