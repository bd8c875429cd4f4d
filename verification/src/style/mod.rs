//! Styles: text attributes, resolved cell styles, and the layered style
//! manager used during rendering.

use vstd::prelude::*;
use crate::path::{components, split_components, strings_view};
use crate::text::owned;

pub mod color;
pub mod effects;
pub mod map;
pub mod theme;

pub use color::Color;

verus! {

/// A text attribute.
#[derive(Debug, PartialEq, Eq, Clone, Copy, Structural)]
pub enum Attr {
    /// Bold text.
    Bold,
    /// Crossed out text.
    CrossedOut,
    /// Dim text.
    Dim,
    /// Italic text.
    Italic,
    /// Overlined text.
    Overline,
    /// Underlined text.
    Underline,
}

/// A set of active text attributes.
#[derive(Debug, PartialEq, Eq, Clone, Copy, Structural)]
pub struct AttrSet {
    /// Bold flag.
    pub bold: bool,
    /// Crossed out flag.
    pub crossedout: bool,
    /// Dim flag.
    pub dim: bool,
    /// Italic flag.
    pub italic: bool,
    /// Overline flag.
    pub overline: bool,
    /// Underline flag.
    pub underline: bool,
}

/// The attribute set with no attribute turned on.
pub open spec fn empty_attrs() -> AttrSet {
    AttrSet { bold: false, crossedout: false, dim: false, italic: false, overline: false, underline: false }
}

/// An attribute set with one more attribute turned on.
pub open spec fn attrs_with(s: AttrSet, attr: Attr) -> AttrSet {
    match attr {
        Attr::Bold => AttrSet { bold: true, ..s },
        Attr::Dim => AttrSet { dim: true, ..s },
        Attr::Italic => AttrSet { italic: true, ..s },
        Attr::CrossedOut => AttrSet { crossedout: true, ..s },
        Attr::Underline => AttrSet { underline: true, ..s },
        Attr::Overline => AttrSet { overline: true, ..s },
    }
}

impl Default for AttrSet {
    fn default() -> (r: Self)
        ensures
            r == empty_attrs(),
    {
        AttrSet { bold: false, crossedout: false, dim: false, italic: false, overline: false, underline: false }
    }
}

impl AttrSet {
    /// Construct a set of text attributes with a single attribute turned on.
    pub fn new(attr: Attr) -> (r: Self)
        ensures
            r == attrs_with(empty_attrs(), attr),
    {
        AttrSet::default().with(attr)
    }

    /// Is this attribute set empty?
    pub fn is_empty(&self) -> (r: bool)
        ensures
            r == (*self == empty_attrs()),
    {
        !(self.bold || self.dim || self.italic || self.crossedout || self.overline || self.underline)
    }

    /// A helper for progressive construction of attribute sets.
    pub fn with(self, attr: Attr) -> (r: Self)
        ensures
            r == attrs_with(self, attr),
    {
        let mut s = self;
        match attr {
            Attr::Bold => s.bold = true,
            Attr::Dim => s.dim = true,
            Attr::Italic => s.italic = true,
            Attr::CrossedOut => s.crossedout = true,
            Attr::Underline => s.underline = true,
            Attr::Overline => s.overline = true,
        };
        s
    }
}

/// Law: adding an attribute is idempotent and order-independent.
pub proof fn law_attrs_with_commutes(s: AttrSet, a: Attr, b: Attr)
    ensures
        attrs_with(attrs_with(s, a), b) == attrs_with(attrs_with(s, b), a),
        attrs_with(attrs_with(s, a), a) == attrs_with(s, a),
{
}

/// A resolved style specification stored in terminal buffers.
#[derive(Debug, PartialEq, Eq, Clone, Copy, Structural)]
pub struct ResolvedStyle {
    /// Foreground color.
    pub fg: Color,
    /// Background color.
    pub bg: Color,
    /// Text attributes.
    pub attrs: AttrSet,
}

impl ResolvedStyle {
    /// Construct a resolved style from components.
    pub fn new(fg: Color, bg: Color, attrs: AttrSet) -> (r: Self)
        ensures
            r == (ResolvedStyle { fg, bg, attrs }),
    {
        ResolvedStyle { fg, bg, attrs }
    }
}

/// The role colours a theme assigns.
///
/// Each field names the role a colour plays, not the colour itself, so the
/// same rule set can render a light theme, a dark theme, or any other
/// palette.
#[derive(Debug, Clone, Copy)]
pub struct Palette {
    /// Default foreground.
    pub fg: Color,
    /// Default background, and the foreground drawn on top of `accent`.
    pub bg: Color,
    /// Inactive frame borders.
    pub frame: Color,
    /// Border of the frame that holds focus.
    pub frame_focused: Color,
    /// Scrollbar thumbs on frame borders.
    pub frame_thumb: Color,
    /// Frame title text.
    pub frame_title: Color,
    /// Primary accent: focus and selection.
    pub accent: Color,
    /// Foreground on panel backgrounds, one step away from `fg`.
    pub muted_fg: Color,
    /// Background of panels such as the help overlay and prompt.
    pub panel_bg: Color,
    /// Background of raised elements set on a panel, such as inactive tabs.
    pub element_bg: Color,
    /// Selection background: editor selections and the active tab.
    pub selection_bg: Color,
    /// Editor line-number gutter.
    pub line_number: Color,
    /// Key names in the help overlay.
    pub key: Color,
    /// Named blue.
    pub blue: Color,
    /// Named red.
    pub red: Color,
    /// Named magenta.
    pub magenta: Color,
    /// Named violet.
    pub violet: Color,
    /// Named cyan, also the focused selected selector background.
    pub cyan: Color,
    /// Named green.
    pub green: Color,
    /// Named yellow, also the search-match background.
    pub yellow: Color,
    /// Named orange, also the current-search-match background.
    pub orange: Color,
}

/// Split a style path into components.
pub fn parse_path(path: &str) -> (r: Vec<String>)
    ensures
        strings_view(r@) == components(path@),
{
    split_components(path)
}

/// Number of trailing entries of `levels` equal to `level`.
pub open spec fn trailing_at(levels: Seq<usize>, level: usize) -> nat
    decreases levels.len(),
{
    if levels.len() > 0 && levels.last() == level {
        trailing_at(levels.drop_last(), level) + 1
    } else {
        0
    }
}

/// Drop up to `k` trailing elements.
pub open spec fn drop_tail<A>(s: Seq<A>, k: nat) -> Seq<A> {
    if k >= s.len() {
        Seq::empty()
    } else {
        s.subrange(0, s.len() - k)
    }
}

/// A hierarchical style manager.
///
/// During rendering, a node may push a name onto the stack of layers tracked
/// by the manager. Layers are maintained for a node and all its descendants:
/// each layer records the render level it was pushed at, and popping a level
/// removes the layers pushed at it.
#[derive(Debug, PartialEq, Eq, Clone)]
pub struct StyleManager {
    /// Current render level.
    level: usize,
    /// Active layer names.
    layers: Vec<String>,
    /// Render levels corresponding to layers.
    layer_levels: Vec<usize>,
}

/// The mathematical state of a style manager: level, layer names and layer
/// levels.
pub struct StyleManagerView {
    /// Current render level.
    pub level: usize,
    /// Active layer names.
    pub layers: Seq<Seq<char>>,
    /// Render levels of the layer records.
    pub layer_levels: Seq<usize>,
}

impl View for StyleManager {
    type V = StyleManagerView;

    closed spec fn view(&self) -> StyleManagerView {
        StyleManagerView {
            level: self.level,
            layers: strings_view(self.layers@),
            layer_levels: self.layer_levels@,
        }
    }
}

/// The state after `push`.
pub open spec fn push_spec(v: StyleManagerView) -> StyleManagerView {
    StyleManagerView { level: (v.level + 1) as usize, layers: v.layers, layer_levels: v.layer_levels }
}

/// The state after `pop`: leave level 0 alone; otherwise drop the layers
/// recorded at the current level and go down one level.
pub open spec fn pop_spec(v: StyleManagerView) -> StyleManagerView {
    if v.level == 0 {
        v
    } else {
        let k = trailing_at(v.layer_levels, v.level);
        StyleManagerView {
            level: (v.level - 1) as usize,
            layers: drop_tail(v.layers, k),
            layer_levels: drop_tail(v.layer_levels, k),
        }
    }
}

/// The state after `push_layer(name)`.
pub open spec fn push_layer_spec(v: StyleManagerView, name: Seq<char>) -> StyleManagerView {
    StyleManagerView { level: v.level, layers: v.layers.push(name), layer_levels: v.layer_levels.push(v.level) }
}

/// Whether layer levels never decrease and never exceed the current level.
pub open spec fn levels_ordered(v: StyleManagerView) -> bool {
    &&& forall|i: int, j: int| 0 <= i <= j < v.layer_levels.len() ==> v.layer_levels[i] <= v.layer_levels[j]
    &&& forall|i: int| 0 <= i < v.layer_levels.len() ==> v.layer_levels[i] <= v.level
}

impl Default for StyleManager {
    fn default() -> (r: Self)
        ensures
            r@.level == 0,
            r@.layers.len() == 0,
            r@.layer_levels.len() == 0,
    {
        Self::new()
    }
}

impl StyleManager {
    /// Construct a new style manager.
    pub fn new() -> (r: Self)
        ensures
            r@.level == 0,
            r@.layers.len() == 0,
            r@.layer_levels.len() == 0,
            levels_ordered(r@),
    {
        StyleManager { level: 0, layers: Vec::new(), layer_levels: Vec::new() }
    }

    /// Reset all layers and levels.
    pub fn reset(&mut self)
        ensures
            final(self)@.level == 0,
            final(self)@.layers.len() == 0,
            final(self)@.layer_levels == seq![0usize],
            levels_ordered(final(self)@),
    {
        self.level = 0;
        self.layers = Vec::new();
        let mut levels: Vec<usize> = Vec::new();
        levels.push(0);
        self.layer_levels = levels;
        assert(self.layer_levels@ =~= seq![0usize]);
    }

    /// Increment the render level.
    pub fn push(&mut self)
        requires
            old(self)@.level < usize::MAX,
        ensures
            final(self)@ == push_spec(old(self)@),
    {
        self.level = self.level + 1;
    }

    /// Decrement the render level and pop any layers at this level.
    pub fn pop(&mut self)
        ensures
            final(self)@ == pop_spec(old(self)@),
    {
        if self.level != 0 {
            let ghost levels0 = self.layer_levels@;
            let ghost layers0 = strings_view(self.layers@);
            let ghost lvl = self.level;
            let n0 = self.layer_levels.len();
            let mut popped: usize = 0;
            while self.layer_levels.len() > 0 && self.layer_levels[self.layer_levels.len() - 1] == self.level
                invariant
                    self.level == lvl,
                    lvl != 0,
                    popped <= levels0.len(),
                    levels0.len() == n0,
                    trailing_at(levels0, lvl) == popped + trailing_at(self.layer_levels@, lvl),
                    self.layer_levels@ == levels0.subrange(0, levels0.len() - popped),
                    strings_view(self.layers@) == drop_tail(layers0, popped as nat),
                decreases self.layer_levels@.len(),
            {
                let ghost before = self.layer_levels@;
                let ghost lb = strings_view(self.layers@);
                self.layers.pop();
                self.layer_levels.pop();
                assert(before.drop_last() =~= self.layer_levels@);
                proof {
                    if lb.len() > 0 {
                        assert(strings_view(self.layers@) =~= lb.drop_last());
                    } else {
                        assert(strings_view(self.layers@) =~= lb);
                    }
                    if popped + 1 >= layers0.len() {
                        assert(strings_view(self.layers@) =~= drop_tail(layers0, (popped + 1) as nat));
                    } else {
                        assert(strings_view(self.layers@) =~= drop_tail(layers0, (popped + 1) as nat));
                    }
                }
                popped = popped + 1;
                assert(self.layer_levels@ =~= levels0.subrange(0, levels0.len() - popped));
            }
            assert(trailing_at(self.layer_levels@, lvl) == 0);
            self.level = self.level - 1;
            assert(self.layer_levels@ =~= drop_tail(levels0, popped as nat));
            assert(self@ == pop_spec(old(self)@));
        }
    }

    /// Push onto the layer stack with the current render level.
    pub fn push_layer(&mut self, name: &str)
        ensures
            final(self)@ == push_layer_spec(old(self)@, name@),
    {
        self.layers.push(owned(name));
        self.layer_levels.push(self.level);
        assert(strings_view(self.layers@) =~= old(self)@.layers.push(name@));
    }

    /// Return the current render level.
    pub fn level(&self) -> (r: usize)
        ensures
            r == self@.level,
    {
        self.level
    }

    /// Return the active layer names.
    pub fn layers(&self) -> (r: &Vec<String>)
        ensures
            strings_view(r@) == self@.layers,
    {
        &self.layers
    }

    /// Return the render levels of the active layers.
    pub fn layer_levels(&self) -> (r: &Vec<usize>)
        ensures
            r@ == self@.layer_levels,
    {
        &self.layer_levels
    }
}

proof fn lemma_trailing_at_bound(levels: Seq<usize>, level: usize)
    ensures
        trailing_at(levels, level) <= levels.len(),
        forall|i: int| levels.len() - trailing_at(levels, level) <= i < levels.len() ==> levels[i] == level,
        trailing_at(levels, level) < levels.len() ==> levels[levels.len() - trailing_at(levels, level) - 1] != level,
    decreases levels.len(),
{
    if levels.len() > 0 && levels.last() == level {
        let d = levels.drop_last();
        lemma_trailing_at_bound(d, level);
        assert forall|i: int| levels.len() - trailing_at(levels, level) <= i < levels.len() implies levels[i] == level by {
            if i < levels.len() - 1 {
                assert(levels[i] == d[i]);
            }
        }
    }
}

/// Law: every operation of the style manager keeps layer levels ordered
/// and no higher than the current level.
pub proof fn law_levels_stay_ordered(v: StyleManagerView, name: Seq<char>)
    requires
        levels_ordered(v),
    ensures
        v.level < usize::MAX ==> levels_ordered(push_spec(v)),
        levels_ordered(pop_spec(v)),
        levels_ordered(push_layer_spec(v, name)),
{
    if v.level != 0 {
        let k = trailing_at(v.layer_levels, v.level);
        lemma_trailing_at_bound(v.layer_levels, v.level);
        let p = pop_spec(v);
        assert forall|i: int| 0 <= i < p.layer_levels.len() implies p.layer_levels[i] <= p.level by {
            let n = v.layer_levels.len();
            assert(p.layer_levels[i] == v.layer_levels[i]);
            assert(v.layer_levels[i] <= v.layer_levels[n - k - 1]);
        }
    }
}

/// Law: entering a render level and leaving it again restores the style
/// manager exactly, when the layer levels are ordered.
pub proof fn law_push_then_pop_restores(v: StyleManagerView)
    requires
        levels_ordered(v),
        v.level < usize::MAX,
    ensures
        pop_spec(push_spec(v)) == v,
{
    let p = push_spec(v);
    if v.layer_levels.len() > 0 {
        assert(v.layer_levels.last() <= v.level);
    }
    assert(trailing_at(p.layer_levels, p.level) == 0);
    assert(drop_tail(v.layers, 0) =~= v.layers);
    assert(drop_tail(v.layer_levels, 0) =~= v.layer_levels);
}

} // verus!
