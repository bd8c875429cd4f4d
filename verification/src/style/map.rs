//! Style maps: partial styles stored under style paths, the rule builder that
//! fills them, and the layered resolution of a style path.
//!
//! A gradient's colours are computed outside this library, so a paint here
//! is either a solid colour or the index under which the caller keeps a
//! gradient; resolution only chooses paints and never reads their colours.

use vstd::prelude::*;
use crate::path::{components, strings_view};
use crate::text::{owned, push_char, string_eq};
use super::{attrs_with, empty_attrs, parse_path, Attr, AttrSet, Color, ResolvedStyle, StyleManager};
use super::effects::Style;

verus! {

/// A paint: a solid colour, or a gradient that the caller keeps under an
/// index.
#[derive(Debug, Clone, Copy, PartialEq, Eq, Structural)]
pub enum Paint {
    /// A single colour.
    Solid(Color),
    /// A gradient, named by the index under which its caller keeps it.
    Gradient(u32),
}

impl Paint {
    /// Construct a solid paint.
    pub fn solid(color: Color) -> (r: Paint)
        ensures
            r == Paint::Solid(color),
    {
        Paint::Solid(color)
    }

    /// Construct a gradient paint from the index of its gradient.
    pub fn gradient(index: u32) -> (r: Paint)
        ensures
            r == Paint::Gradient(index),
    {
        Paint::Gradient(index)
    }

    /// Return the solid colour if this paint is solid.
    pub fn solid_color(&self) -> (r: Option<Color>)
        ensures
            r == (match *self {
                Paint::Solid(c) => Some(c),
                Paint::Gradient(_) => None,
            }),
    {
        match self {
            Paint::Solid(c) => Some(*c),
            Paint::Gradient(_) => None,
        }
    }
}

impl From<Color> for Paint {
    fn from(color: Color) -> (r: Paint) {
        Paint::Solid(color)
    }
}

impl vstd::std_specs::convert::FromSpecImpl<Color> for Paint {
    open spec fn obeys_from_spec() -> bool {
        true
    }

    open spec fn from_spec(color: Color) -> Paint {
        Paint::Solid(color)
    }
}

impl Style<Paint> {
    /// Resolve the style to a solid variant if both paints are solid.
    pub fn resolve_solid(&self) -> (r: Option<ResolvedStyle>)
        ensures
            r == (match (self.fg, self.bg) {
                (Paint::Solid(fg), Paint::Solid(bg)) => Some(ResolvedStyle { fg, bg, attrs: self.attrs }),
                _ => None,
            }),
    {
        match (self.fg, self.bg) {
            (Paint::Solid(fg), Paint::Solid(bg)) => Some(ResolvedStyle::new(fg, bg, self.attrs)),
            _ => None,
        }
    }
}

/// A possibly partial style specification, as stored in a style map.
#[derive(Debug, Clone, Copy, PartialEq, Eq, Structural)]
pub struct PartialStyle {
    /// Optional foreground paint.
    pub fg: Option<Paint>,
    /// Optional background paint.
    pub bg: Option<Paint>,
    /// Optional attributes.
    pub attrs: Option<AttrSet>,
}

/// The partial style that sets nothing.
pub open spec fn no_style() -> PartialStyle {
    PartialStyle { fg: None, bg: None, attrs: None }
}

/// Whether a partial style sets every part.
pub open spec fn complete(s: PartialStyle) -> bool {
    s.fg is Some && s.bg is Some && s.attrs is Some
}

/// Merge two partial styles: each part comes from the first style when it
/// sets it, and from the second otherwise.
pub open spec fn join_spec(a: PartialStyle, b: PartialStyle) -> PartialStyle {
    PartialStyle {
        fg: if a.fg is Some { a.fg } else { b.fg },
        bg: if a.bg is Some { a.bg } else { b.bg },
        attrs: if a.attrs is Some { a.attrs } else { b.attrs },
    }
}

/// The attributes after adding one attribute to optional attributes.
pub open spec fn with_attr_spec(attrs: Option<AttrSet>, attr: Attr) -> AttrSet {
    match attrs {
        Some(a) => attrs_with(a, attr),
        None => attrs_with(empty_attrs(), attr),
    }
}

/// The full style of a complete partial style.
pub open spec fn style_of(s: PartialStyle) -> Style<Paint> {
    Style { fg: s.fg.unwrap(), bg: s.bg.unwrap(), attrs: s.attrs.unwrap() }
}

impl Default for PartialStyle {
    fn default() -> (r: Self)
        ensures
            r == no_style(),
    {
        PartialStyle { fg: None, bg: None, attrs: None }
    }
}

impl PartialStyle {
    /// Create a partial style with only a foreground paint.
    pub fn fg(fg: Paint) -> (r: Self)
        ensures
            r == (PartialStyle { fg: Some(fg), bg: None, attrs: None }),
    {
        PartialStyle { fg: Some(fg), bg: None, attrs: None }
    }

    /// Create a partial style with only a background paint.
    pub fn bg(bg: Paint) -> (r: Self)
        ensures
            r == (PartialStyle { fg: None, bg: Some(bg), attrs: None }),
    {
        PartialStyle { fg: None, bg: Some(bg), attrs: None }
    }

    /// Create a partial style with only attributes.
    pub fn attrs(attrs: AttrSet) -> (r: Self)
        ensures
            r == (PartialStyle { fg: None, bg: None, attrs: Some(attrs) }),
    {
        PartialStyle { fg: None, bg: None, attrs: Some(attrs) }
    }

    /// Resolve a complete partial style into a full style.
    pub fn resolve(&self) -> (r: Style<Paint>)
        requires
            complete(*self),
        ensures
            r == style_of(*self),
    {
        Style { fg: self.fg.unwrap(), bg: self.bg.unwrap(), attrs: self.attrs.unwrap() }
    }

    /// Set the foreground paint.
    pub fn with_fg(self, fg: Paint) -> (r: Self)
        ensures
            r == (PartialStyle { fg: Some(fg), ..self }),
    {
        PartialStyle { fg: Some(fg), ..self }
    }

    /// Set the background paint.
    pub fn with_bg(self, bg: Paint) -> (r: Self)
        ensures
            r == (PartialStyle { bg: Some(bg), ..self }),
    {
        PartialStyle { bg: Some(bg), ..self }
    }

    /// Add a single attribute.
    pub fn with_attr(self, attr: Attr) -> (r: Self)
        ensures
            r == (PartialStyle { attrs: Some(with_attr_spec(self.attrs, attr)), ..self }),
    {
        let attrs = match self.attrs {
            Some(a) => a.with(attr),
            None => AttrSet::new(attr),
        };
        PartialStyle { attrs: Some(attrs), ..self }
    }

    /// Replace the attribute set.
    pub fn with_attrs(self, attrs: AttrSet) -> (r: Self)
        ensures
            r == (PartialStyle { attrs: Some(attrs), ..self }),
    {
        PartialStyle { attrs: Some(attrs), ..self }
    }

    /// Merge two partial styles; the parts this style sets take precedence.
    pub fn join(&self, other: &Self) -> (r: Self)
        ensures
            r == join_spec(*self, *other),
    {
        PartialStyle {
            fg: if self.fg.is_some() { self.fg } else { other.fg },
            bg: if self.bg.is_some() { self.bg } else { other.bg },
            attrs: if self.attrs.is_some() { self.attrs } else { other.attrs },
        }
    }

    /// Return true if all parts are set.
    pub fn is_complete(&self) -> (r: bool)
        ensures
            r == complete(*self),
    {
        self.fg.is_some() && self.bg.is_some() && self.attrs.is_some()
    }
}

/// Law: merging partial styles is associative, the style that sets nothing
/// is its identity on either side, and a complete style absorbs whatever is
/// merged after it.
pub proof fn law_join_is_a_precedence_merge(a: PartialStyle, b: PartialStyle, c: PartialStyle)
    ensures
        join_spec(join_spec(a, b), c) == join_spec(a, join_spec(b, c)),
        join_spec(no_style(), a) == a,
        join_spec(a, no_style()) == a,
        complete(a) ==> join_spec(a, b) == a,
        complete(b) ==> complete(join_spec(a, b)),
{
}

/// A builder for reusable style specifications.
#[derive(Debug, Clone, Copy, PartialEq, Eq, Structural)]
pub struct StyleBuilder {
    /// The partial style being built.
    inner: PartialStyle,
}

impl StyleBuilder {
    /// The partial style built so far.
    pub closed spec fn built(self) -> PartialStyle {
        self.inner
    }

    /// Create an empty style builder.
    pub fn new() -> (r: Self)
        ensures
            r.built() == no_style(),
    {
        StyleBuilder { inner: PartialStyle::default() }
    }

    /// Set the foreground paint.
    pub fn fg(self, paint: Paint) -> (r: Self)
        ensures
            r.built() == (PartialStyle { fg: Some(paint), ..self.built() }),
    {
        StyleBuilder { inner: self.inner.with_fg(paint) }
    }

    /// Set the background paint.
    pub fn bg(self, paint: Paint) -> (r: Self)
        ensures
            r.built() == (PartialStyle { bg: Some(paint), ..self.built() }),
    {
        StyleBuilder { inner: self.inner.with_bg(paint) }
    }

    /// Add a single attribute.
    pub fn attr(self, attr: Attr) -> (r: Self)
        ensures
            r.built() == (PartialStyle { attrs: Some(with_attr_spec(self.built().attrs, attr)), ..self.built() }),
    {
        StyleBuilder { inner: self.inner.with_attr(attr) }
    }

    /// Set all attributes.
    pub fn attrs(self, attrs: AttrSet) -> (r: Self)
        ensures
            r.built() == (PartialStyle { attrs: Some(attrs), ..self.built() }),
    {
        StyleBuilder { inner: self.inner.with_attrs(attrs) }
    }

    /// The partial style this builder holds.
    pub fn build(self) -> (r: PartialStyle)
        ensures
            r == self.built(),
    {
        self.inner
    }
}

impl From<StyleBuilder> for PartialStyle {
    fn from(s: StyleBuilder) -> (r: PartialStyle) {
        s.inner
    }
}

impl vstd::std_specs::convert::FromSpecImpl<StyleBuilder> for PartialStyle {
    open spec fn obeys_from_spec() -> bool {
        true
    }

    open spec fn from_spec(s: StyleBuilder) -> PartialStyle {
        s.built()
    }
}


/// The style stored under a key: that of the most recent entry with the key.
pub open spec fn find_style(es: Seq<(Seq<Seq<char>>, PartialStyle)>, key: Seq<Seq<char>>) -> Option<PartialStyle>
    decreases es.len(),
{
    if es.len() == 0 {
        None
    } else if es.last().0 == key {
        Some(es.last().1)
    } else {
        find_style(es.drop_last(), key)
    }
}

/// The root style of a new map: white on black, with no attribute.
pub open spec fn default_root() -> PartialStyle {
    PartialStyle { fg: Some(Paint::Solid(Color::White)), bg: Some(Paint::Solid(Color::Black)), attrs: Some(empty_attrs()) }
}

/// The style stored under a key after adding an attribute there.
pub open spec fn add_attr_spec(old: Option<PartialStyle>, attr: Attr) -> PartialStyle {
    match old {
        Some(ps) => PartialStyle { attrs: Some(with_attr_spec(ps.attrs, attr)), ..ps },
        None => PartialStyle { fg: None, bg: None, attrs: Some(with_attr_spec(None, attr)) },
    }
}

/// The last entry with a key is the style found under it.
proof fn lemma_find_last(es: Seq<(Seq<Seq<char>>, PartialStyle)>, key: Seq<Seq<char>>, i: int)
    requires
        0 <= i < es.len(),
        es[i].0 == key,
        forall|j: int| i < j < es.len() ==> es[j].0 != key,
    ensures
        find_style(es, key) == Some(es[i].1),
    decreases es.len(),
{
    if i < es.len() - 1 {
        lemma_find_last(es.drop_last(), key, i);
    }
}

/// With no entry for a key, nothing is found under it.
proof fn lemma_find_none(es: Seq<(Seq<Seq<char>>, PartialStyle)>, key: Seq<Seq<char>>)
    requires
        forall|j: int| 0 <= j < es.len() ==> es[j].0 != key,
    ensures
        find_style(es, key) is None,
    decreases es.len(),
{
    if es.len() > 0 {
        lemma_find_none(es.drop_last(), key);
    }
}

/// Replacing an entry whose key is not `key`, by another whose key is not
/// `key`, leaves what is found under `key`.
proof fn lemma_find_update_other(
    es: Seq<(Seq<Seq<char>>, PartialStyle)>,
    i: int,
    e: (Seq<Seq<char>>, PartialStyle),
    key: Seq<Seq<char>>,
)
    requires
        0 <= i < es.len(),
        es[i].0 != key,
        e.0 != key,
    ensures
        find_style(es.update(i, e), key) == find_style(es, key),
    decreases es.len(),
{
    let u = es.update(i, e);
    if i == es.len() - 1 {
        assert(u.drop_last() =~= es.drop_last());
    } else {
        assert(u.drop_last() =~= es.drop_last().update(i, e));
        lemma_find_update_other(es.drop_last(), i, e, key);
    }
}

/// Return whether two keys are equal.
fn keys_equal(a: &Vec<String>, b: &Vec<String>) -> (r: bool)
    ensures
        r == (strings_view(a@) == strings_view(b@)),
{
    if a.len() != b.len() {
        return false;
    }
    let mut i: usize = 0;
    while i < a.len()
        invariant
            a@.len() == b@.len(),
            i <= a@.len(),
            forall|j: int| 0 <= j < i ==> a@[j]@ == b@[j]@,
        decreases a@.len() - i,
    {
        if !string_eq(&a[i], &b[i]) {
            assert(strings_view(a@)[i as int] != strings_view(b@)[i as int]);
            return false;
        }
        i = i + 1;
    }
    assert(strings_view(a@) =~= strings_view(b@));
    true
}

/// A map from style paths to partial styles.
#[derive(Debug)]
pub struct StyleMap {
    /// Styles, each under the components of its path.
    styles: Vec<(Vec<String>, PartialStyle)>,
}

impl StyleMap {
    /// The entries of the map, in insertion order.
    pub closed spec fn entries(&self) -> Seq<(Seq<Seq<char>>, PartialStyle)> {
        self.styles@.map_values(|e: (Vec<String>, PartialStyle)| (strings_view(e.0@), e.1))
    }

    /// The style stored under a key, if any.
    pub closed spec fn style_at(&self, key: Seq<Seq<char>>) -> Option<PartialStyle> {
        find_style(self.entries(), key)
    }

    /// Construct a style map holding the default root style.
    pub fn new() -> (r: Self)
        ensures
            forall|k: Seq<Seq<char>>| #[trigger] r.style_at(k) == if k == Seq::<Seq<char>>::empty() {
                Some(default_root())
            } else {
                None
            },
    {
        let mut m = StyleMap { styles: Vec::new() };
        let root = PartialStyle {
            fg: Some(Paint::Solid(Color::White)),
            bg: Some(Paint::Solid(Color::Black)),
            attrs: Some(AttrSet::default()),
        };
        m.insert_style("/", root);
        proof {
            assert(components("/"@) =~= Seq::<Seq<char>>::empty()) by {
                reveal_strlit("/");
                assert("/"@.drop_last() =~= Seq::<char>::empty());
                assert(crate::path::split_acc("/"@.drop_last()) == (Seq::<Seq<char>>::empty(), Seq::<char>::empty()));
            }
        }
        m
    }

    /// Find the most recent entry with a key.
    fn find_key(&self, key: &Vec<String>) -> (r: Option<usize>)
        ensures
            r matches Some(i) ==> i < self.entries().len() && self.entries()[i as int].0 == strings_view(key@)
                && forall|j: int| i < j < self.entries().len() ==> self.entries()[j].0 != strings_view(key@),
            r is None ==> forall|j: int| 0 <= j < self.entries().len() ==> self.entries()[j].0 != strings_view(key@),
    {
        let mut i = self.styles.len();
        while i > 0
            invariant
                i <= self.styles@.len(),
                forall|j: int| i <= j < self.entries().len() ==> self.entries()[j].0 != strings_view(key@),
            decreases i,
        {
            i = i - 1;
            if keys_equal(&self.styles[i].0, key) {
                return Some(i);
            }
        }
        None
    }

    /// Store a style under a key, replacing what was there.
    fn insert_key(&mut self, key: Vec<String>, style: PartialStyle)
        ensures
            forall|k: Seq<Seq<char>>| #[trigger] final(self).style_at(k) == if k == strings_view(key@) {
                Some(style)
            } else {
                old(self).style_at(k)
            },
    {
        let ghost kv = strings_view(key@);
        let ghost es = self.entries();
        match self.find_key(&key) {
            Some(i) => {
                self.styles.set(i, (key, style));
                proof {
                    let e = (kv, style);
                    assert(self.entries() =~= es.update(i as int, e));
                    assert forall|k: Seq<Seq<char>>| #[trigger] self.style_at(k) == if k == kv {
                        Some(style)
                    } else {
                        find_style(es, k)
                    } by {
                        if k == kv {
                            lemma_find_last(es.update(i as int, e), k, i as int);
                        } else {
                            lemma_find_update_other(es, i as int, e, k);
                        }
                    }
                }
            },
            None => {
                self.styles.push((key, style));
                proof {
                    assert(self.entries() =~= es.push((kv, style)));
                    assert forall|k: Seq<Seq<char>>| #[trigger] self.style_at(k) == if k == kv {
                        Some(style)
                    } else {
                        find_style(es, k)
                    } by {
                        assert(es.push((kv, style)).drop_last() =~= es);
                    }
                }
            },
        }
    }

    /// Store a style under the components of a path.
    fn insert_style(&mut self, path: &str, style: PartialStyle)
        ensures
            forall|k: Seq<Seq<char>>| #[trigger] final(self).style_at(k) == if k == components(path@) {
                Some(style)
            } else {
                old(self).style_at(k)
            },
    {
        let key = parse_path(path);
        self.insert_key(key, style);
    }

    /// Add a style attribute at a path, keeping the rest of the style there.
    pub fn add_attr(&mut self, path: &str, attr: Attr)
        ensures
            forall|k: Seq<Seq<char>>| #[trigger] final(self).style_at(k) == if k == components(path@) {
                Some(add_attr_spec(old(self).style_at(k), attr))
            } else {
                old(self).style_at(k)
            },
    {
        let key = parse_path(path);
        let ghost kv = strings_view(key@);
        let ghost es = self.entries();
        let updated = match self.find_key(&key) {
            Some(i) => {
                proof {
                    lemma_find_last(es, kv, i as int);
                }
                self.styles[i].1.with_attr(attr)
            },
            None => {
                proof {
                    lemma_find_none(es, kv);
                }
                PartialStyle::default().with_attr(attr)
            },
        };
        self.insert_key(key, updated);
    }
}

impl Default for StyleMap {
    fn default() -> (r: Self)
        ensures
            forall|k: Seq<Seq<char>>| #[trigger] r.style_at(k) == if k == Seq::<Seq<char>>::empty() {
                Some(default_root())
            } else {
                None
            },
    {
        Self::new()
    }
}

/// The full path of a rule: the prefix and the path joined by `/`, or
/// whichever of them is not empty.
pub open spec fn make_path_spec(prefix: Option<Seq<char>>, path: Seq<char>) -> Seq<char> {
    match prefix {
        Some(p) => if p.len() > 0 && path.len() > 0 {
            p + seq!['/'] + path
        } else if p.len() > 0 {
            p
        } else {
            path
        },
        None => path,
    }
}

/// The character views of pending rules.
pub open spec fn pending_view(v: Seq<(String, PartialStyle)>) -> Seq<(Seq<char>, PartialStyle)> {
    v.map_values(|e: (String, PartialStyle)| (e.0@, e.1))
}

/// The character views of string slices.
pub open spec fn strs_view(v: Seq<&str>) -> Seq<Seq<char>> {
    v.map_values(|s: &str| s@)
}

/// The index of the first pending rule for a path, or -1.
pub open spec fn pending_index(p: Seq<(Seq<char>, PartialStyle)>, path: Seq<char>) -> int
    decreases p.len(),
{
    if p.len() == 0 {
        -1
    } else {
        let r = pending_index(p.drop_last(), path);
        if r >= 0 {
            r
        } else if p.last().0 == path {
            p.len() - 1
        } else {
            -1
        }
    }
}

/// The pending rules after merging a style into them: a rule already held
/// for the path takes the new style over its own; otherwise the rule is
/// added at the end.
pub open spec fn merge_spec(p: Seq<(Seq<char>, PartialStyle)>, path: Seq<char>, style: PartialStyle) -> Seq<(Seq<char>, PartialStyle)> {
    let i = pending_index(p, path);
    if i >= 0 {
        p.update(i, (path, join_spec(style, p[i].1)))
    } else {
        p.push((path, style))
    }
}

/// The pending rules after merging one style for each of several paths,
/// in order.
pub open spec fn merge_all(
    p: Seq<(Seq<char>, PartialStyle)>,
    prefix: Option<Seq<char>>,
    paths: Seq<Seq<char>>,
    style: PartialStyle,
) -> Seq<(Seq<char>, PartialStyle)>
    decreases paths.len(),
{
    if paths.len() == 0 {
        p
    } else {
        merge_spec(merge_all(p, prefix, paths.drop_last(), style), make_path_spec(prefix, paths.last()), style)
    }
}

/// The style that the last pending rule for a key gives, if any.
pub open spec fn pending_style(p: Seq<(Seq<char>, PartialStyle)>, key: Seq<Seq<char>>) -> Option<PartialStyle>
    decreases p.len(),
{
    if p.len() == 0 {
        None
    } else if components(p.last().0) == key {
        Some(p.last().1)
    } else {
        pending_style(p.drop_last(), key)
    }
}

/// The first rule for a path is found where a scan from the front meets it.
proof fn lemma_pending_found(p: Seq<(Seq<char>, PartialStyle)>, path: Seq<char>, i: int, n: int)
    requires
        0 <= i < n <= p.len(),
        pending_index(p.subrange(0, i), path) == -1,
        p[i].0 == path,
    ensures
        pending_index(p.subrange(0, n), path) == i,
    decreases n,
{
    assert(p.subrange(0, n).drop_last() =~= p.subrange(0, n - 1));
    if n > i + 1 {
        lemma_pending_found(p, path, i, n - 1);
    }
}

/// Append the characters of a string slice to a string.
fn append_str(s: &mut String, t: &str)
    ensures
        final(s)@ == old(s)@ + t@,
{
    let chars = crate::text::str_to_chars(t);
    let mut i: usize = 0;
    while i < chars.len()
        invariant
            i <= chars@.len(),
            chars@ == t@,
            s@ == old(s)@ + t@.subrange(0, i as int),
        decreases chars@.len() - i,
    {
        push_char(s, chars[i]);
        i = i + 1;
        assert(s@ =~= old(s)@ + t@.subrange(0, i as int));
    }
    assert(t@.subrange(0, t@.len() as int) =~= t@);
}

/// The character view of an optional prefix.
pub open spec fn prefix_view_of(prefix: Option<String>) -> Option<Seq<char>> {
    match prefix {
        Some(p) => Some(p@),
        None => None,
    }
}

/// Combine an optional prefix with a path.
fn make_full_path(prefix: &Option<String>, path: &str) -> (r: String)
    ensures
        r@ == make_path_spec(prefix_view_of(*prefix), path@),
{
    match prefix {
        Some(p) => {
            let ps = p.as_str();
            let plen = ps.unicode_len();
            let path_len = path.unicode_len();
            if plen > 0 && path_len > 0 {
                let mut r = owned(ps);
                push_char(&mut r, '/');
                append_str(&mut r, path);
                r
            } else if plen > 0 {
                owned(ps)
            } else {
                owned(path)
            }
        },
        None => owned(path),
    }
}

/// Merge a style for a path into pending rules.
fn merge_into(pending: &mut Vec<(String, PartialStyle)>, path: String, style: PartialStyle)
    ensures
        pending_view(final(pending)@) == merge_spec(pending_view(old(pending)@), path@, style),
{
    let ghost p = pending_view(pending@);
    let mut i: usize = 0;
    while i < pending.len()
        invariant
            i <= pending@.len(),
            pending_view(pending@) == p,
            pending_view(old(pending)@) == p,
            pending_index(p.subrange(0, i as int), path@) == -1,
        decreases pending@.len() - i,
    {
        if string_eq(&pending[i].0, &path) {
            let existing = pending[i].1;
            let merged = style.join(&existing);
            proof {
                lemma_pending_found(p, path@, i as int, p.len() as int);
                assert(p.subrange(0, p.len() as int) =~= p);
            }
            pending.set(i, (path, merged));
            proof {
                assert(pending_view(pending@) =~= p.update(i as int, (path@, join_spec(style, p[i as int].1))));
            }
            return;
        }
        proof {
            assert(p.subrange(0, i + 1).drop_last() =~= p.subrange(0, i as int));
        }
        i = i + 1;
    }
    proof {
        assert(p.subrange(0, p.len() as int) =~= p);
    }
    pending.push((path, style));
    proof {
        assert(pending_view(pending@) =~= p.push((path@, style)));
    }
}

/// A fluent builder that collects style rules for a style map and commits
/// them all at once.
pub struct StyleRules<'a> {
    /// The target style map.
    map: &'a mut StyleMap,
    /// Optional path prefix for subsequent rules.
    prefix: Option<String>,
    /// Accumulated rules to be committed.
    pending: Vec<(String, PartialStyle)>,
}

impl StyleMap {
    /// Begin a chain of rules for this map.
    pub fn rules(&mut self) -> (r: StyleRules<'_>)
        ensures
            *r.target() == *old(self),
            *final(self) == *final(r.target()),
            r.prefix_view() is None,
            r.queued() == Seq::<(Seq<char>, PartialStyle)>::empty(),
    {
        let r = StyleRules { map: self, prefix: None, pending: Vec::new() };
        assert(pending_view(r.pending@) =~= Seq::<(Seq<char>, PartialStyle)>::empty());
        r
    }
}

impl<'a> StyleRules<'a> {
    /// The style map the rules are for.
    pub closed spec fn target(&self) -> &'a mut StyleMap {
        self.map
    }

    /// The current path prefix.
    pub closed spec fn prefix_view(&self) -> Option<Seq<char>> {
        prefix_view_of(self.prefix)
    }

    /// The rules collected so far, in order, with their full paths.
    pub closed spec fn queued(&self) -> Seq<(Seq<char>, PartialStyle)> {
        pending_view(self.pending@)
    }

    /// Merge one style for one path.
    fn merge_one(self, path: &str, style: PartialStyle) -> (r: Self)
        ensures
            *r.target() == *old(self.target()),
            *final(r.target()) == *final(self.target()),
            r.prefix_view() == self.prefix_view(),
            r.queued() == merge_spec(self.queued(), make_path_spec(self.prefix_view(), path@), style),
    {
        let StyleRules { map, prefix, mut pending } = self;
        let full = make_full_path(&prefix, path);
        merge_into(&mut pending, full, style);
        StyleRules { map, prefix, pending }
    }

    /// Merge one style for each of several paths.
    fn merge_each(self, paths: &[&str], style: PartialStyle) -> (r: Self)
        ensures
            *r.target() == *old(self.target()),
            *final(r.target()) == *final(self.target()),
            r.prefix_view() == self.prefix_view(),
            r.queued() == merge_all(self.queued(), self.prefix_view(), strs_view(paths@), style),
    {
        let StyleRules { map, prefix, mut pending } = self;
        let ghost q0 = pending_view(pending@);
        let ghost sv = strs_view(paths@);
        let mut i: usize = 0;
        while i < paths.len()
            invariant
                i <= paths@.len(),
                sv == strs_view(paths@),
                pending_view(pending@) == merge_all(q0, prefix_view_of(prefix), sv.subrange(0, i as int), style),
            decreases paths@.len() - i,
        {
            let full = make_full_path(&prefix, paths[i]);
            merge_into(&mut pending, full, style);
            proof {
                assert(sv.subrange(0, i + 1).drop_last() =~= sv.subrange(0, i as int));
            }
            i = i + 1;
        }
        proof {
            assert(sv.subrange(0, sv.len() as int) =~= sv);
        }
        StyleRules { map, prefix, pending }
    }

    /// Set the foreground paint for a path, merged with an earlier rule for
    /// the same path.
    pub fn fg(self, path: &str, paint: Paint) -> (r: Self)
        ensures
            *r.target() == *old(self.target()),
            *final(r.target()) == *final(self.target()),
            r.prefix_view() == self.prefix_view(),
            r.queued() == merge_spec(self.queued(), make_path_spec(self.prefix_view(), path@), PartialStyle { fg: Some(paint), bg: None, attrs: None }),
    {
        self.merge_one(path, PartialStyle::fg(paint))
    }

    /// Set the background paint for a path, merged with an earlier rule for
    /// the same path.
    pub fn bg(self, path: &str, paint: Paint) -> (r: Self)
        ensures
            *r.target() == *old(self.target()),
            *final(r.target()) == *final(self.target()),
            r.prefix_view() == self.prefix_view(),
            r.queued() == merge_spec(self.queued(), make_path_spec(self.prefix_view(), path@), PartialStyle { fg: None, bg: Some(paint), attrs: None }),
    {
        self.merge_one(path, PartialStyle::bg(paint))
    }

    /// Set a single attribute for a path; the attributes of an earlier rule
    /// for the same path are replaced.
    pub fn attr(self, path: &str, attr: Attr) -> (r: Self)
        ensures
            *r.target() == *old(self.target()),
            *final(r.target()) == *final(self.target()),
            r.prefix_view() == self.prefix_view(),
            r.queued() == merge_spec(self.queued(), make_path_spec(self.prefix_view(), path@), PartialStyle { fg: None, bg: None, attrs: Some(attrs_with(empty_attrs(), attr)) }),
    {
        self.merge_one(path, PartialStyle::attrs(AttrSet::new(attr)))
    }

    /// Set all attributes for a path, merged with an earlier rule for the
    /// same path.
    pub fn attrs(self, path: &str, attrs: AttrSet) -> (r: Self)
        ensures
            *r.target() == *old(self.target()),
            *final(r.target()) == *final(self.target()),
            r.prefix_view() == self.prefix_view(),
            r.queued() == merge_spec(self.queued(), make_path_spec(self.prefix_view(), path@), PartialStyle { fg: None, bg: None, attrs: Some(attrs) }),
    {
        self.merge_one(path, PartialStyle::attrs(attrs))
    }

    /// Apply a style to a path, merged with an earlier rule for the same
    /// path; the new parts take precedence.
    pub fn style(self, path: &str, style: PartialStyle) -> (r: Self)
        ensures
            *r.target() == *old(self.target()),
            *final(r.target()) == *final(self.target()),
            r.prefix_view() == self.prefix_view(),
            r.queued() == merge_spec(self.queued(), make_path_spec(self.prefix_view(), path@), style),
    {
        self.merge_one(path, style)
    }

    /// Set the foreground paint for several paths.
    pub fn fg_all(self, paths: &[&str], paint: Paint) -> (r: Self)
        ensures
            *r.target() == *old(self.target()),
            *final(r.target()) == *final(self.target()),
            r.prefix_view() == self.prefix_view(),
            r.queued() == merge_all(self.queued(), self.prefix_view(), strs_view(paths@), PartialStyle { fg: Some(paint), bg: None, attrs: None }),
    {
        self.merge_each(paths, PartialStyle::fg(paint))
    }

    /// Set the background paint for several paths.
    pub fn bg_all(self, paths: &[&str], paint: Paint) -> (r: Self)
        ensures
            *r.target() == *old(self.target()),
            *final(r.target()) == *final(self.target()),
            r.prefix_view() == self.prefix_view(),
            r.queued() == merge_all(self.queued(), self.prefix_view(), strs_view(paths@), PartialStyle { fg: None, bg: Some(paint), attrs: None }),
    {
        self.merge_each(paths, PartialStyle::bg(paint))
    }

    /// Set a single attribute for several paths.
    pub fn attr_all(self, paths: &[&str], attr: Attr) -> (r: Self)
        ensures
            *r.target() == *old(self.target()),
            *final(r.target()) == *final(self.target()),
            r.prefix_view() == self.prefix_view(),
            r.queued() == merge_all(self.queued(), self.prefix_view(), strs_view(paths@), PartialStyle { fg: None, bg: None, attrs: Some(attrs_with(empty_attrs(), attr)) }),
    {
        self.merge_each(paths, PartialStyle::attrs(AttrSet::new(attr)))
    }

    /// Set all attributes for several paths.
    pub fn attrs_all(self, paths: &[&str], attrs: AttrSet) -> (r: Self)
        ensures
            *r.target() == *old(self.target()),
            *final(r.target()) == *final(self.target()),
            r.prefix_view() == self.prefix_view(),
            r.queued() == merge_all(self.queued(), self.prefix_view(), strs_view(paths@), PartialStyle { fg: None, bg: None, attrs: Some(attrs) }),
    {
        self.merge_each(paths, PartialStyle::attrs(attrs))
    }

    /// Apply a style to several paths.
    pub fn style_all(self, paths: &[&str], style: PartialStyle) -> (r: Self)
        ensures
            *r.target() == *old(self.target()),
            *final(r.target()) == *final(self.target()),
            r.prefix_view() == self.prefix_view(),
            r.queued() == merge_all(self.queued(), self.prefix_view(), strs_view(paths@), style),
    {
        self.merge_each(paths, style)
    }

    /// Set a path prefix for the rules that follow, replacing any earlier
    /// prefix.
    pub fn prefix(self, prefix: &str) -> (r: Self)
        ensures
            *r.target() == *old(self.target()),
            *final(r.target()) == *final(self.target()),
            r.prefix_view() == Some(prefix@),
            r.queued() == self.queued(),
    {
        let StyleRules { map, prefix: _, pending } = self;
        StyleRules { map, prefix: Some(owned(prefix)), pending }
    }

    /// Clear the path prefix.
    pub fn no_prefix(self) -> (r: Self)
        ensures
            *r.target() == *old(self.target()),
            *final(r.target()) == *final(self.target()),
            r.prefix_view() is None,
            r.queued() == self.queued(),
    {
        let StyleRules { map, prefix: _, pending } = self;
        StyleRules { map, prefix: None, pending }
    }

    /// Commit the collected rules to the style map, in order: each stores
    /// its style under the components of its path.
    pub fn apply(self)
        ensures
            forall|k: Seq<Seq<char>>| #[trigger] (*final(self.target())).style_at(k) == match pending_style(self.queued(), k) {
                Some(s) => Some(s),
                None => (*old(self.target())).style_at(k),
            },
    {
        let StyleRules { map, prefix: _, pending } = self;
        let ghost q = pending_view(pending@);
        let ghost m0 = *map;
        let mut i: usize = 0;
        while i < pending.len()
            invariant
                i <= pending@.len(),
                pending_view(pending@) == q,
                forall|k: Seq<Seq<char>>| #[trigger] map.style_at(k) == match pending_style(q.subrange(0, i as int), k) {
                    Some(s) => Some(s),
                    None => m0.style_at(k),
                },
            decreases pending@.len() - i,
        {
            map.insert_style(pending[i].0.as_str(), pending[i].1);
            proof {
                assert(q.subrange(0, i + 1).drop_last() =~= q.subrange(0, i as int));
            }
            i = i + 1;
        }
        proof {
            assert(q.subrange(0, q.len() as int) =~= q);
        }
    }
}

/// The key of a path suffix under the layers that remain after dropping the
/// last `i` of them.
pub open spec fn layered_key(layers: Seq<Seq<char>>, suffix: Seq<Seq<char>>, i: int) -> Seq<Seq<char>> {
    layers.subrange(0, layers.len() - i) + suffix
}

/// A partial style merged with a style that may have been found.
pub open spec fn join_found(a: PartialStyle, f: Option<PartialStyle>) -> PartialStyle {
    match f {
        Some(c) => join_spec(a, c),
        None => a,
    }
}

/// The merge of the styles stored for a suffix under the first `n` layer
/// chains tried: all the layers, then one fewer, and so on.
pub open spec fn lookup_upto(m: StyleMap, layers: Seq<Seq<char>>, suffix: Seq<Seq<char>>, n: nat) -> PartialStyle
    decreases n,
{
    if n == 0 {
        no_style()
    } else {
        join_found(lookup_upto(m, layers, suffix, (n - 1) as nat), m.style_at(layered_key(layers, suffix, n - 1)))
    }
}

/// The style a suffix finds along the layer chain, down to no layer at all.
pub open spec fn lookup_spec(m: StyleMap, layers: Seq<Seq<char>>, suffix: Seq<Seq<char>>) -> PartialStyle {
    lookup_upto(m, layers, suffix, layers.len() + 1)
}

/// The merge of the lookups of the first `n` suffixes tried: the whole
/// path, then the path without its last component, and so on.
pub open spec fn resolve_upto(m: StyleMap, layers: Seq<Seq<char>>, path: Seq<Seq<char>>, n: nat) -> PartialStyle
    decreases n,
{
    if n == 0 {
        no_style()
    } else {
        join_spec(resolve_upto(m, layers, path, (n - 1) as nat), lookup_spec(m, layers, path.subrange(0, path.len() - (n - 1))))
    }
}

/// The style a path resolves to under a layer stack: each part comes from
/// the first stored style that sets it, trying the whole path and then ever
/// shorter prefixes of it, each along the layer chain from all the layers to
/// none.
pub open spec fn resolve_spec(m: StyleMap, layers: Seq<Seq<char>>, path: Seq<Seq<char>>) -> PartialStyle {
    resolve_upto(m, layers, path, path.len() + 1)
}

/// Once a lookup is complete, trying more layer chains changes nothing.
proof fn lemma_lookup_settles(m: StyleMap, layers: Seq<Seq<char>>, suffix: Seq<Seq<char>>, n: nat, n2: nat)
    requires
        complete(lookup_upto(m, layers, suffix, n)),
        n <= n2,
    ensures
        lookup_upto(m, layers, suffix, n2) == lookup_upto(m, layers, suffix, n),
    decreases n2 - n,
{
    if n2 > n {
        lemma_lookup_settles(m, layers, suffix, n, (n2 - 1) as nat);
    }
}

/// Once a resolution is complete, trying more suffixes changes nothing.
proof fn lemma_resolve_settles(m: StyleMap, layers: Seq<Seq<char>>, path: Seq<Seq<char>>, n: nat, n2: nat)
    requires
        complete(resolve_upto(m, layers, path, n)),
        n <= n2,
    ensures
        resolve_upto(m, layers, path, n2) == resolve_upto(m, layers, path, n),
    decreases n2 - n,
{
    if n2 > n {
        lemma_resolve_settles(m, layers, path, n, (n2 - 1) as nat);
    }
}

/// Return whether a key is a suffix under the first `p` layers.
fn key_is_layered(key: &Vec<String>, layers: &[String], p: usize, suffix: &[String]) -> (r: bool)
    requires
        p <= layers@.len(),
    ensures
        r == (strings_view(key@) == strings_view(layers@).subrange(0, p as int) + strings_view(suffix@)),
{
    let ghost want = strings_view(layers@).subrange(0, p as int) + strings_view(suffix@);
    if key.len() < p || key.len() - p != suffix.len() {
        assert(strings_view(key@).len() != want.len());
        return false;
    }
    let mut j: usize = 0;
    while j < key.len()
        invariant
            p <= layers@.len(),
            key@.len() == p + suffix@.len(),
            want == strings_view(layers@).subrange(0, p as int) + strings_view(suffix@),
            j <= key@.len(),
            forall|k: int| 0 <= k < j ==> key@[k]@ == want[k],
        decreases key@.len() - j,
    {
        let same = if j < p {
            string_eq(&key[j], &layers[j])
        } else {
            string_eq(&key[j], &suffix[j - p])
        };
        if !same {
            assert(strings_view(key@)[j as int] != want[j as int]);
            return false;
        }
        j = j + 1;
    }
    assert(strings_view(key@) =~= want);
    true
}

impl StyleMap {
    /// Find the most recent entry whose key is a suffix under the first `p`
    /// layers.
    fn find_layered(&self, layers: &[String], p: usize, suffix: &[String]) -> (r: Option<usize>)
        requires
            p <= layers@.len(),
        ensures
            r matches Some(i) ==> i < self.styles@.len()
                && self.style_at(strings_view(layers@).subrange(0, p as int) + strings_view(suffix@)) == Some(self.styles@[i as int].1),
            r is None ==> self.style_at(strings_view(layers@).subrange(0, p as int) + strings_view(suffix@)) is None,
    {
        let ghost key = strings_view(layers@).subrange(0, p as int) + strings_view(suffix@);
        let ghost es = self.entries();
        let mut i = self.styles.len();
        while i > 0
            invariant
                i <= self.styles@.len(),
                p <= layers@.len(),
                es == self.entries(),
                key == strings_view(layers@).subrange(0, p as int) + strings_view(suffix@),
                forall|j: int| i <= j < es.len() ==> es[j].0 != key,
            decreases i,
        {
            i = i - 1;
            if key_is_layered(&self.styles[i].0, layers, p, suffix) {
                proof {
                    lemma_find_last(es, key, i as int);
                }
                return Some(i);
            }
        }
        proof {
            lemma_find_none(es, key);
        }
        None
    }
}

impl StyleManager {
    /// Look up one path suffix along the layer chain.
    fn lookup(&self, smap: &StyleMap, layers: &[String], suffix: &[String]) -> (r: PartialStyle)
        ensures
            r == lookup_spec(*smap, strings_view(layers@), strings_view(suffix@)),
    {
        let ghost lv = strings_view(layers@);
        let ghost sv = strings_view(suffix@);
        let n = layers.len();
        let mut ret = PartialStyle::default();
        let mut i: usize = 0;
        loop
            invariant_except_break
                i <= n,
                n == layers@.len(),
                lv == strings_view(layers@),
                sv == strings_view(suffix@),
                ret == lookup_upto(*smap, lv, sv, i as nat),
            ensures
                ret == lookup_spec(*smap, lv, sv),
            decreases n - i,
        {
            if let Some(idx) = smap.find_layered(layers, n - i, suffix) {
                ret = ret.join(&smap.styles[idx].1);
            }
            assert(ret == lookup_upto(*smap, lv, sv, (i + 1) as nat));
            if ret.is_complete() || i == n {
                proof {
                    if complete(ret) {
                        lemma_lookup_settles(*smap, lv, sv, (i + 1) as nat, (n + 1) as nat);
                    }
                }
                break;
            }
            i = i + 1;
        }
        ret
    }

    /// Resolve a style path under a layer specification, ignoring the
    /// manager's own layers.
    pub fn resolve(&self, smap: &StyleMap, layers: &[String], path: &[String]) -> (r: Style<Paint>)
        requires
            complete(resolve_spec(*smap, strings_view(layers@), strings_view(path@))),
        ensures
            r == style_of(resolve_spec(*smap, strings_view(layers@), strings_view(path@))),
    {
        let ghost lv = strings_view(layers@);
        let ghost pv = strings_view(path@);
        let n = path.len();
        let mut ret = PartialStyle::default();
        let mut j: usize = 0;
        loop
            invariant_except_break
                j <= n,
                n == path@.len(),
                lv == strings_view(layers@),
                pv == strings_view(path@),
                ret == resolve_upto(*smap, lv, pv, j as nat),
            ensures
                ret == resolve_spec(*smap, lv, pv),
            decreases n - j,
        {
            let suffix = vstd::slice::slice_subrange(path, 0, n - j);
            assert(strings_view(suffix@) =~= pv.subrange(0, pv.len() - j));
            let found = self.lookup(smap, layers, suffix);
            ret = ret.join(&found);
            assert(ret == resolve_upto(*smap, lv, pv, (j + 1) as nat));
            if ret.is_complete() || j == n {
                proof {
                    if complete(ret) {
                        lemma_resolve_settles(*smap, lv, pv, (j + 1) as nat, (n + 1) as nat);
                    }
                }
                break;
            }
            j = j + 1;
        }
        ret.resolve()
    }

    /// Resolve a style path under the manager's layers.
    pub fn get(&self, smap: &StyleMap, path: &str) -> (r: Style<Paint>)
        requires
            complete(resolve_spec(*smap, self@.layers, components(path@))),
        ensures
            r == style_of(resolve_spec(*smap, self@.layers, components(path@))),
    {
        let parsed = parse_path(path);
        self.resolve(smap, self.layers().as_slice(), parsed.as_slice())
    }
}

/// Law: a path always resolves when the map's root style is complete,
/// whatever the layers and the path, since the root is the last key tried.
pub proof fn law_complete_root_resolves_every_path(m: StyleMap, layers: Seq<Seq<char>>, path: Seq<Seq<char>>)
    requires
        m.style_at(Seq::<Seq<char>>::empty()) matches Some(root) && complete(root),
    ensures
        complete(resolve_spec(m, layers, path)),
{
    let root = m.style_at(Seq::<Seq<char>>::empty()).unwrap();
    let n = path.len();
    assert(path.subrange(0, path.len() - n) =~= Seq::<Seq<char>>::empty());
    assert(layered_key(layers, Seq::<Seq<char>>::empty(), layers.len() as int) =~= Seq::<Seq<char>>::empty());
    let last = lookup_spec(m, layers, Seq::<Seq<char>>::empty());
    assert(last == join_spec(lookup_upto(m, layers, Seq::<Seq<char>>::empty(), layers.len()), root));
    assert(complete(last));
    assert(resolve_spec(m, layers, path) == join_spec(resolve_upto(m, layers, path, n), last));
}

/// Law: a complete style stored under the whole path beneath all the
/// layers is exactly what the path resolves to.
pub proof fn law_most_specific_style_wins(m: StyleMap, layers: Seq<Seq<char>>, path: Seq<Seq<char>>)
    requires
        m.style_at(layers + path) matches Some(s) && complete(s),
    ensures
        resolve_spec(m, layers, path) == m.style_at(layers + path).unwrap(),
{
    let s = m.style_at(layers + path).unwrap();
    assert(layered_key(layers, path, 0) =~= layers + path);
    assert(join_spec(no_style(), s) == s);
    assert(lookup_upto(m, layers, path, 0) == no_style());
    assert(lookup_upto(m, layers, path, 1) == s);
    lemma_lookup_settles(m, layers, path, 1, layers.len() + 1);
    assert(path.subrange(0, path.len() as int) =~= path);
    assert(lookup_spec(m, layers, path) == s);
    assert(resolve_upto(m, layers, path, 0) == no_style());
    assert(resolve_upto(m, layers, path, 1) == s);
    lemma_resolve_settles(m, layers, path, 1, path.len() + 1);
}


/// Every layer chain tried before the `i`-th finds nothing for the suffix,
/// so the lookup so far is empty.
proof fn lemma_lookup_empty_before(m: StyleMap, layers: Seq<Seq<char>>, suffix: Seq<Seq<char>>, i: nat)
    requires
        i <= layers.len() + 1,
        forall|j: int| 0 <= j < i ==> #[trigger] m.style_at(layers.subrange(0, layers.len() - j) + suffix) is None,
    ensures
        lookup_upto(m, layers, suffix, i) == no_style(),
    decreases i,
{
    if i > 0 {
        lemma_lookup_empty_before(m, layers, suffix, (i - 1) as nat);
        assert(m.style_at(layers.subrange(0, layers.len() - (i - 1)) + suffix) is None);
    }
}

/// Law: a path is looked up along the layer chain from all the layers down
/// to none. Dropping the last `i` layers gives the key
/// `layers[0..len - i] + path`; if that is the first key of the chain with a
/// stored style, and the style is complete, the path resolves to it, even
/// though a shorter chain or a shorter path also has a style.
pub proof fn law_first_layer_chain_with_a_style_wins(m: StyleMap, layers: Seq<Seq<char>>, path: Seq<Seq<char>>, i: int)
    requires
        0 <= i <= layers.len(),
        forall|j: int| 0 <= j < i ==> #[trigger] m.style_at(layers.subrange(0, layers.len() - j) + path) is None,
        m.style_at(layers.subrange(0, layers.len() - i) + path) matches Some(s) && complete(s),
    ensures
        resolve_spec(m, layers, path) == m.style_at(layers.subrange(0, layers.len() - i) + path).unwrap(),
{
    let s = m.style_at(layers.subrange(0, layers.len() - i) + path).unwrap();
    lemma_lookup_empty_before(m, layers, path, i as nat);
    assert(layered_key(layers, path, i) == layers.subrange(0, layers.len() - i) + path);
    assert(join_spec(no_style(), s) == s);
    assert(lookup_upto(m, layers, path, (i + 1) as nat) == s);
    lemma_lookup_settles(m, layers, path, (i + 1) as nat, layers.len() + 1);
    assert(path.subrange(0, path.len() as int) =~= path);
    assert(lookup_spec(m, layers, path) == s);
    assert(resolve_upto(m, layers, path, 0) == no_style());
    assert(resolve_upto(m, layers, path, 1) == s);
    lemma_resolve_settles(m, layers, path, 1, path.len() + 1);
}

} // verus!
