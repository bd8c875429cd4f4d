//! Node paths and path filters.
//!
//! A path is a sequence of node names, written `/a/b/c`. A path filter is a
//! pattern over paths: literal components must match exactly, `*` matches one
//! component and `**` matches zero or more. A leading `/` anchors the filter
//! at the root and a trailing `/` anchors it at the end of the path.

use vstd::prelude::*;
use crate::error::Error;
use crate::state::{is_nodename, valid_nodename};
use crate::text::{owned, push_char, str_to_chars, string_eq, string_from_chars};

verus! {

// ---------------------------------------------------------------------------
// Splitting strings on '/'
// ---------------------------------------------------------------------------

/// One step of splitting on `/`: completed components and the component
/// currently being read.
pub open spec fn split_step(acc: (Seq<Seq<char>>, Seq<char>), c: char) -> (Seq<Seq<char>>, Seq<char>) {
    if c == '/' {
        if acc.1.len() > 0 {
            (acc.0.push(acc.1), Seq::empty())
        } else {
            (acc.0, Seq::empty())
        }
    } else {
        (acc.0, acc.1.push(c))
    }
}

/// Split state after reading all of `s`.
pub open spec fn split_acc(s: Seq<char>) -> (Seq<Seq<char>>, Seq<char>)
    decreases s.len(),
{
    if s.len() == 0 {
        (Seq::empty(), Seq::empty())
    } else {
        split_step(split_acc(s.drop_last()), s.last())
    }
}

/// The non-empty `/`-separated components of a string, in order.
pub open spec fn components(s: Seq<char>) -> Seq<Seq<char>> {
    let a = split_acc(s);
    if a.1.len() > 0 {
        a.0.push(a.1)
    } else {
        a.0
    }
}

/// The character views of a vector of strings.
pub open spec fn strings_view(v: Seq<String>) -> Seq<Seq<char>> {
    v.map_values(|x: String| x@)
}

/// Split a string on `/`, dropping empty components.
pub fn split_components(s: &str) -> (r: Vec<String>)
    ensures
        strings_view(r@) == components(s@),
{
    let chars = str_to_chars(s);
    let n = chars.len();
    let mut done: Vec<String> = Vec::new();
    let mut cur: Vec<char> = Vec::new();
    let mut i: usize = 0;
    while i < n
        invariant
            n == chars@.len(),
            chars@ == s@,
            i <= n,
            strings_view(done@) == split_acc(s@.subrange(0, i as int)).0,
            cur@ == split_acc(s@.subrange(0, i as int)).1,
        decreases n - i,
    {
        let c = chars[i];
        assert(s@.subrange(0, i + 1).drop_last() =~= s@.subrange(0, i as int));
        if c == '/' {
            if cur.len() > 0 {
                let part = string_from_chars(cur.as_slice());
                done.push(part);
                assert(strings_view(done@) =~= split_acc(s@.subrange(0, i + 1)).0);
            }
            cur = Vec::new();
        } else {
            cur.push(c);
        }
        i = i + 1;
    }
    assert(s@.subrange(0, n as int) =~= s@);
    if cur.len() > 0 {
        let part = string_from_chars(cur.as_slice());
        done.push(part);
        assert(strings_view(done@) =~= components(s@));
    }
    done
}

// ---------------------------------------------------------------------------
// Paths
// ---------------------------------------------------------------------------

/// A path of node name components.
#[derive(Debug, Clone, PartialEq, Eq)]
pub struct Path {
    /// Stored path components.
    path: Vec<String>,
}

impl View for Path {
    type V = Seq<Seq<char>>;

    closed spec fn view(&self) -> Seq<Seq<char>> {
        strings_view(self.path@)
    }
}

impl Path {
    /// Construct an empty path.
    pub fn empty() -> (r: Self)
        ensures
            r@ == Seq::<Seq<char>>::empty(),
    {
        let r = Self { path: Vec::new() };
        assert(r@ =~= Seq::<Seq<char>>::empty());
        r
    }

    /// Pop an item off the end of the path, modifying it in place. Return
    /// `None` if the path is empty.
    pub fn pop(&mut self) -> (r: Option<String>)
        ensures
            old(self)@.len() == 0 ==> r is None && final(self)@ == old(self)@,
            old(self)@.len() > 0 ==> (r matches Some(s) && s@ == old(self)@.last()
                && final(self)@ == old(self)@.drop_last()),
    {
        let r = self.path.pop();
        proof {
            if old(self)@.len() > 0 {
                assert(self@ =~= old(self)@.drop_last());
            }
        }
        r
    }

    /// Construct a path from a slice of components.
    pub fn new(v: &[&str]) -> (r: Self)
        ensures
            r@.len() == v@.len(),
            forall|i: int| 0 <= i < v@.len() ==> #[trigger] r@[i] == v@[i]@,
    {
        let mut path: Vec<String> = Vec::new();
        let mut i: usize = 0;
        while i < v.len()
            invariant
                i <= v@.len(),
                path@.len() == i,
                forall|j: int| 0 <= j < i ==> #[trigger] path@[j]@ == v@[j]@,
            decreases v@.len() - i,
        {
            path.push(owned(v[i]));
            i = i + 1;
        }
        Self { path }
    }

    /// Parse a `/`-separated path, ignoring empty components.
    pub fn parse(s: &str) -> (r: Self)
        ensures
            r@ == components(s@),
    {
        Self { path: split_components(s) }
    }

    /// Return the number of components.
    pub fn len(&self) -> (r: usize)
        ensures
            r == self@.len(),
    {
        self.path.len()
    }

    /// Return one component.
    pub fn component(&self, i: usize) -> (r: &String)
        requires
            i < self@.len(),
        ensures
            r@ == self@[i as int],
    {
        &self.path[i]
    }

    /// Render the path as `/a/b/c`.
    pub fn to_path_string(&self) -> (r: String)
        ensures
            r@ == join_path(self@),
    {
        let mut out = String::new();
        push_char(&mut out, '/');
        let mut i: usize = 0;
        while i < self.path.len()
            invariant
                i <= self@.len(),
                self@.len() == self.path@.len(),
                out@ == join_path(self@.subrange(0, i as int)),
            decreases self.path@.len() - i,
        {
            if i > 0 {
                push_char(&mut out, '/');
            }
            out.append(self.path[i].as_str());
            assert(self@.subrange(0, i + 1).drop_last() =~= self@.subrange(0, i as int));
            i = i + 1;
        }
        assert(self@.subrange(0, self@.len() as int) =~= self@);
        out
    }
}

/// `/` followed by the components joined with `/`.
pub open spec fn join_path(parts: Seq<Seq<char>>) -> Seq<char>
    decreases parts.len(),
{
    if parts.len() == 0 {
        seq!['/']
    } else if parts.len() == 1 {
        seq!['/'] + parts[0]
    } else {
        join_path(parts.drop_last()) + seq!['/'] + parts.last()
    }
}

impl From<&str> for Path {
    fn from(v: &str) -> (r: Self) {
        Self::parse(v)
    }
}

impl vstd::std_specs::convert::FromSpecImpl<&str> for Path {
    open spec fn obeys_from_spec() -> bool {
        false
    }

    open spec fn from_spec(v: &str) -> Path {
        arbitrary()
    }
}

// ---------------------------------------------------------------------------
// Path filters
// ---------------------------------------------------------------------------

/// Path match metadata used for input precedence.
#[derive(Debug, Clone, Copy, PartialEq, Eq, Structural)]
pub struct PathMatch {
    /// Count of literal segments in the pattern.
    pub literals: usize,
    /// Number of path components matched.
    pub depth: usize,
    /// Whether the match ends at the end of the path and consumed at least
    /// one component.
    pub anchored_end: bool,
}

/// The precedence of a match: literals, then end anchoring, then depth,
/// compared lexicographically.
pub open spec fn score_gt(a: PathMatch, b: PathMatch) -> bool {
    ||| a.literals > b.literals
    ||| a.literals == b.literals && (a.anchored_end && !b.anchored_end)
    ||| a.literals == b.literals && a.anchored_end == b.anchored_end && a.depth > b.depth
}

/// Whether two matches have the same precedence.
pub open spec fn score_eq(a: PathMatch, b: PathMatch) -> bool {
    a.literals == b.literals && a.anchored_end == b.anchored_end && a.depth == b.depth
}

/// The score tuple of a match.
pub open spec fn score_of(m: PathMatch) -> (usize, usize, usize) {
    (m.literals, if m.anchored_end { 1usize } else { 0usize }, m.depth)
}

/// Lexicographic order on score tuples.
pub open spec fn lex_gt(a: (usize, usize, usize), b: (usize, usize, usize)) -> bool {
    a.0 > b.0 || (a.0 == b.0 && (a.1 > b.1 || (a.1 == b.1 && a.2 > b.2)))
}

/// Law: one match outranks another exactly when its score tuple is
/// lexicographically greater, and two matches score the same exactly when
/// their tuples are equal.
pub proof fn law_score_tuple_orders_matches(a: PathMatch, b: PathMatch)
    ensures
        score_gt(a, b) == lex_gt(score_of(a), score_of(b)),
        score_eq(a, b) == (score_of(a) == score_of(b)),
{
}

impl PathMatch {
    /// Score tuple used for match precedence: literals, end anchoring, then
    /// depth, compared lexicographically.
    pub fn score(&self) -> (r: (usize, usize, usize))
        ensures
            r == score_of(*self),
    {
        (self.literals, if self.anchored_end { 1 } else { 0 }, self.depth)
    }

    /// Return true when this match strictly outranks another.
    pub fn outranks(&self, other: &PathMatch) -> (r: bool)
        ensures
            r == score_gt(*self, *other),
    {
        if self.literals != other.literals {
            return self.literals > other.literals;
        }
        if self.anchored_end != other.anchored_end {
            return self.anchored_end;
        }
        self.depth > other.depth
    }

    /// Return true when two matches have the same precedence.
    pub fn same_score(&self, other: &PathMatch) -> (r: bool)
        ensures
            r == score_eq(*self, *other),
    {
        self.literals == other.literals && self.anchored_end == other.anchored_end
            && self.depth == other.depth
    }
}

/// Pattern segment kinds used by the matcher.
#[derive(Debug, Clone, PartialEq, Eq)]
pub enum Segment {
    /// Literal component match.
    Lit(String),
    /// Match exactly one component.
    Any,
    /// Match zero or more components.
    AnyDeep,
}

/// The mathematical form of a pattern segment.
pub enum SegmentView {
    /// Literal component match.
    Lit(Seq<char>),
    /// Match exactly one component.
    Any,
    /// Match zero or more components.
    AnyDeep,
}

impl View for Segment {
    type V = SegmentView;

    open spec fn view(&self) -> SegmentView {
        match self {
            Segment::Lit(s) => SegmentView::Lit(s@),
            Segment::Any => SegmentView::Any,
            Segment::AnyDeep => SegmentView::AnyDeep,
        }
    }
}

/// The segment that one filter component denotes.
pub open spec fn segment_of(part: Seq<char>) -> SegmentView {
    if part == seq!['*'] {
        SegmentView::Any
    } else if part == seq!['*', '*'] {
        SegmentView::AnyDeep
    } else {
        SegmentView::Lit(part)
    }
}

/// Whether a filter component is a literal.
pub open spec fn is_literal_part(part: Seq<char>) -> bool {
    part != seq!['*'] && part != seq!['*', '*']
}

/// The segments of a filter string.
pub open spec fn filter_segments(f: Seq<char>) -> Seq<SegmentView> {
    components(f).map_values(|p: Seq<char>| segment_of(p))
}

/// Number of literal segments among the first `k` components.
pub open spec fn count_literals(parts: Seq<Seq<char>>, k: int) -> nat
    decreases k,
{
    if k <= 0 {
        0
    } else if is_literal_part(parts[k - 1]) {
        count_literals(parts, k - 1) + 1
    } else {
        count_literals(parts, k - 1)
    }
}

/// Number of literal segments of a filter string.
pub open spec fn filter_literals(f: Seq<char>) -> nat {
    count_literals(components(f), components(f).len() as int)
}

/// Whether every literal component of a filter string is a valid node name.
pub open spec fn filter_valid(f: Seq<char>) -> bool {
    forall|i: int| 0 <= i < components(f).len() && #[trigger] is_literal_part(components(f)[i])
        ==> is_nodename(components(f)[i])
}

/// Whether a filter string is anchored at the root.
pub open spec fn filter_anchor_start(f: Seq<char>) -> bool {
    f.len() > 0 && f[0] == '/'
}

/// Whether a filter string is anchored at the end of the path.
pub open spec fn filter_anchor_end(f: Seq<char>) -> bool {
    f.len() > 0 && f.last() == '/'
}

/// Larger of two optional end indices.
pub open spec fn max_end(a: Option<nat>, b: Option<nat>) -> Option<nat> {
    match (a, b) {
        (Some(x), Some(y)) => Some(if x >= y { x } else { y }),
        (Some(x), None) => Some(x),
        (None, Some(y)) => Some(y),
        (None, None) => None,
    }
}

/// The furthest end index reachable by matching segments `si..` against the
/// path starting at component `pi`.
pub open spec fn walk(segs: Seq<SegmentView>, parts: Seq<Seq<char>>, si: nat, pi: nat) -> Option<nat>
    decreases segs.len() - si, parts.len() + 2,
{
    if si >= segs.len() {
        Some(pi)
    } else {
        match segs[si as int] {
            SegmentView::Lit(l) => {
                if pi < parts.len() && parts[pi as int] == l {
                    walk(segs, parts, si + 1, pi + 1)
                } else {
                    None
                }
            },
            SegmentView::Any => {
                if pi < parts.len() {
                    walk(segs, parts, si + 1, pi + 1)
                } else {
                    None
                }
            },
            SegmentView::AnyDeep => {
                if pi <= parts.len() {
                    deep_best(segs, parts, si, pi, parts.len() + 1)
                } else {
                    None
                }
            },
        }
    }
}

/// The furthest end index reachable after a `**` at segment `si` that
/// consumes the components up to some `next` in `lo..hi`.
pub open spec fn deep_best(segs: Seq<SegmentView>, parts: Seq<Seq<char>>, si: nat, lo: nat, hi: nat) -> Option<nat>
    decreases segs.len() - si, hi - lo,
{
    if si >= segs.len() || hi <= lo {
        None
    } else {
        max_end(
            deep_best(segs, parts, si, lo, (hi - 1) as nat),
            walk(segs, parts, si + 1, (hi - 1) as nat),
        )
    }
}

/// The match candidate obtained by starting the pattern at component `start`.
pub open spec fn candidate(f: Seq<char>, parts: Seq<Seq<char>>, start: nat) -> Option<PathMatch> {
    match walk(filter_segments(f), parts, 0, start) {
        Some(end) => {
            if filter_anchor_end(f) && end != parts.len() {
                None
            } else {
                let depth: nat = if end >= start { (end - start) as nat } else { 0 };
                Some(PathMatch {
                    literals: filter_literals(f) as usize,
                    depth: depth as usize,
                    anchored_end: end == parts.len() && depth > 0,
                })
            }
        },
        None => None,
    }
}

/// The best candidate among start positions `0..k`; an earlier start is
/// kept unless a later one strictly outranks it.
pub open spec fn best_upto(f: Seq<char>, parts: Seq<Seq<char>>, k: nat) -> Option<PathMatch>
    decreases k,
{
    if k == 0 {
        None
    } else {
        let b = best_upto(f, parts, (k - 1) as nat);
        match candidate(f, parts, (k - 1) as nat) {
            Some(c) => {
                if b is None || score_gt(c, b.unwrap()) {
                    Some(c)
                } else {
                    b
                }
            },
            None => b,
        }
    }
}

/// The best candidate among the first `k` starts is one of them, and no
/// candidate among them strictly outranks it.
proof fn lemma_best_upto(f: Seq<char>, parts: Seq<Seq<char>>, k: nat)
    ensures
        best_upto(f, parts, k) is None <==> forall|s: nat| s < k ==> #[trigger] candidate(f, parts, s) is None,
        best_upto(f, parts, k) matches Some(m) ==> (exists|s: nat| s < k && #[trigger] candidate(f, parts, s) == Some(m))
            && forall|s: nat| s < k && #[trigger] candidate(f, parts, s) is Some ==> !score_gt(candidate(f, parts, s).unwrap(), m),
    decreases k,
{
    if k > 0 {
        lemma_best_upto(f, parts, (k - 1) as nat);
        let b = best_upto(f, parts, (k - 1) as nat);
        if candidate(f, parts, (k - 1) as nat) is None {
            assert forall|s: nat| s < k && #[trigger] candidate(f, parts, s) is Some implies s < k - 1 by {}
        }
    }
}

/// Law: a filter matches a path exactly when it can be laid over the path
/// from some start that its anchors allow, and then the match is one of
/// those alignments, outranked by none of them.
pub proof fn law_filter_match_is_the_best_alignment(f: Seq<char>, parts: Seq<Seq<char>>)
    ensures
        ({
            let starts: nat = if filter_anchor_start(f) { 1 } else { (parts.len() + 1) as nat };
            &&& filter_match(f, parts) is None <==> forall|s: nat| s < starts ==> #[trigger] candidate(f, parts, s) is None
            &&& filter_match(f, parts) matches Some(m) ==> (exists|s: nat| s < starts && #[trigger] candidate(f, parts, s) == Some(m))
                && forall|s: nat| s < starts && #[trigger] candidate(f, parts, s) is Some ==> !score_gt(candidate(f, parts, s).unwrap(), m)
        }),
{
    lemma_best_upto(f, parts, if filter_anchor_start(f) { 1 } else { (parts.len() + 1) as nat });
}

/// The result of matching a filter string against a path.
pub open spec fn filter_match(f: Seq<char>, parts: Seq<Seq<char>>) -> Option<PathMatch> {
    best_upto(f, parts, if filter_anchor_start(f) { 1 } else { parts.len() + 1 })
}

/// Parsed path pattern.
#[derive(Debug, Clone)]
struct PathPattern {
    /// Require matches to start at the root.
    anchor_start: bool,
    /// Require matches to end at the path terminus.
    anchor_end: bool,
    /// Pattern segments to match.
    segments: Vec<Segment>,
    /// Count of literal segments in the pattern.
    literals: usize,
}

/// A validated path filter used to search node paths.
///
/// Filters support `*` for one component and `**` for zero or more
/// components. Literal components must be valid node names.
#[derive(Debug)]
pub struct PathFilter {
    /// Filter text the filter was built from.
    filter: String,
    /// Parsed path pattern.
    pattern: PathPattern,
}

/// The mathematical form of a vector of segments.
pub open spec fn segments_view(v: Seq<Segment>) -> Seq<SegmentView> {
    v.map_values(|s: Segment| s@)
}

impl PathFilter {
    /// Well-formedness: the parsed pattern is exactly the parse of the
    /// filter string.
    #[verifier::type_invariant]
    closed spec fn wf(self) -> bool {
        &&& segments_view(self.pattern.segments@) == filter_segments(self.filter@)
        &&& self.pattern.anchor_start == filter_anchor_start(self.filter@)
        &&& self.pattern.anchor_end == filter_anchor_end(self.filter@)
        &&& self.pattern.literals == filter_literals(self.filter@)
        &&& filter_valid(self.filter@)
    }
}

impl Clone for PathFilter {
    fn clone(&self) -> (r: Self)
        ensures
            r@ == self@,
    {
        proof {
            use_type_invariant(self);
        }
        PathFilter {
            filter: self.filter.clone(),
            pattern: PathPattern {
                anchor_start: self.pattern.anchor_start,
                anchor_end: self.pattern.anchor_end,
                segments: clone_segments(&self.pattern.segments),
                literals: self.pattern.literals,
            },
        }
    }
}

/// Copy a vector of segments.
fn clone_segments(v: &Vec<Segment>) -> (r: Vec<Segment>)
    ensures
        segments_view(r@) == segments_view(v@),
{
    let mut r: Vec<Segment> = Vec::new();
    let mut i: usize = 0;
    while i < v.len()
        invariant
            i <= v@.len(),
            segments_view(r@) == segments_view(v@.subrange(0, i as int)),
        decreases v@.len() - i,
    {
        let s = match &v[i] {
            Segment::Lit(l) => Segment::Lit(l.clone()),
            Segment::Any => Segment::Any,
            Segment::AnyDeep => Segment::AnyDeep,
        };
        let ghost before = r@;
        r.push(s);
        assert(segments_view(r@) =~= segments_view(before).push(s@));
        i = i + 1;
        assert(segments_view(v@.subrange(0, i as int)) =~= segments_view(v@.subrange(0, (i - 1) as int)).push(v@[(i - 1) as int]@));
    }
    assert(v@.subrange(0, v@.len() as int) =~= v@);
    r
}

impl View for PathFilter {
    type V = Seq<char>;

    closed spec fn view(&self) -> Seq<char> {
        self.filter@
    }
}

/// Return whether a part is `*` or `**`, and which.
fn classify(part: &String) -> (r: u8)
    ensures
        r == 1 <==> part@ == seq!['*'],
        r == 2 <==> part@ == seq!['*', '*'],
        r == 0 <==> is_literal_part(part@),
{
    let v = str_to_chars(part.as_str());
    if v.len() == 1 && v[0] == '*' {
        assert(part@ =~= seq!['*']);
        1
    } else if v.len() == 2 && v[0] == '*' && v[1] == '*' {
        assert(part@ =~= seq!['*', '*']);
        2
    } else {
        0
    }
}

impl PathFilter {
    /// Compile a validated path filter.
    ///
    /// Fails with `Error::Invalid` naming the first literal component that
    /// is not a valid node name.
    pub fn new(path: &str) -> (r: Result<Self, Error>)
        ensures
            r is Ok <==> filter_valid(path@),
            r matches Ok(f) ==> f@ == path@,
            r matches Err(e) ==> (e matches Error::Invalid(s) && exists|i: int|
                0 <= i < components(path@).len() && components(path@)[i] == s@
                && is_literal_part(s@) && !is_nodename(s@)
                && forall|j: int| 0 <= j < i && #[trigger] is_literal_part(components(path@)[j])
                    ==> is_nodename(components(path@)[j])),
    {
        let chars = str_to_chars(path);
        let anchor_start = chars.len() > 0 && chars[0] == '/';
        let anchor_end = chars.len() > 0 && chars[chars.len() - 1] == '/';
        let parts = split_components(path);
        let ghost comps = components(path@);
        let mut segments: Vec<Segment> = Vec::new();
        let mut literals: usize = 0;
        let mut i: usize = 0;
        while i < parts.len()
            invariant
                strings_view(parts@) == comps,
                comps == components(path@),
                i <= parts@.len(),
                segments_view(segments@) == comps.subrange(0, i as int).map_values(|p: Seq<char>| segment_of(p)),
                literals == count_literals(comps, i as int),
                literals <= i,
                forall|j: int| 0 <= j < i && #[trigger] is_literal_part(comps[j]) ==> is_nodename(comps[j]),
            decreases parts@.len() - i,
        {
            let part = &parts[i];
            assert(part@ == comps[i as int]);
            let kind = classify(part);
            let ghost before = segments@;
            assert(comps.subrange(0, i + 1).map_values(|p: Seq<char>| segment_of(p))
                =~= comps.subrange(0, i as int).map_values(|p: Seq<char>| segment_of(p)).push(segment_of(comps[i as int])));
            if kind == 1 {
                segments.push(Segment::Any);
            } else if kind == 2 {
                segments.push(Segment::AnyDeep);
            } else {
                if !valid_nodename(part.as_str()) {
                    return Err(Error::Invalid(part.clone()));
                }
                literals = literals + 1;
                segments.push(Segment::Lit(part.clone()));
            }
            assert(segments@ == before.push(segments@.last()));
            assert(segments_view(segments@) =~= segments_view(before).push(segments@.last()@));
            i = i + 1;
        }
        assert(comps.subrange(0, comps.len() as int) =~= comps);
        let ghost fs = path@;
        assert(chars@ == fs);
        assert(anchor_start == filter_anchor_start(fs));
        assert(anchor_end == filter_anchor_end(fs));
        Ok(Self {
            filter: owned(path),
            pattern: PathPattern { anchor_start, anchor_end, segments, literals },
        })
    }

    /// Compile a filter after normalizing it to a full-path match.
    pub fn normalized(filter: &str) -> (r: Result<Self, Error>)
        ensures
            r is Ok <==> filter_valid(normalize_spec(filter@)),
            r matches Ok(f) ==> f@ == normalize_spec(filter@),
    {
        let n = normalize_filter(filter);
        Self::new(n.as_str())
    }

    /// The empty filter, which matches at every node.
    pub fn match_all() -> (r: Self)
        ensures
            r@ == Seq::<char>::empty(),
    {
        proof {
            reveal_strlit("");
            assert(components(""@) =~= Seq::<Seq<char>>::empty());
        }
        match Self::new("") {
            Ok(f) => f,
            Err(_) => vstd::pervasive::unreached(),
        }
    }

    /// Return the filter text.
    pub fn as_str(&self) -> (r: &str)
        ensures
            r@ == self@,
    {
        self.filter.as_str()
    }

    /// Return the filter text.
    pub fn filter(&self) -> (r: &String)
        ensures
            r@ == self@,
    {
        &self.filter
    }

    /// Check whether the path filter matches a given path, returning match
    /// metadata.
    pub fn check_match(&self, path: &Path) -> (r: Option<PathMatch>)
        ensures
            r == filter_match(self@, path@),
    {
        proof {
            use_type_invariant(self);
        }
        let parts = &path.path;
        let n = parts.len();
        let last_start: usize = if self.pattern.anchor_start { 0 } else { n };
        let mut best: Option<PathMatch> = None;
        let mut start: usize = 0;
        loop
            invariant_except_break
                start <= last_start,
                best == best_upto(self@, path@, start as nat),
            invariant
                n == parts@.len(),
                n == path@.len(),
                parts@ == path.path@,
                last_start <= n,
                last_start == (if filter_anchor_start(self@) { 0 } else { n }),
                segments_view(self.pattern.segments@) == filter_segments(self@),
                self.pattern.anchor_end == filter_anchor_end(self@),
                self.pattern.literals == filter_literals(self@),
            ensures
                best == best_upto(self@, path@, (last_start + 1) as nat),
            decreases last_start - start,
        {
            let end_opt = walk_match_end(&self.pattern.segments, parts, 0, start);
            let cand: Option<PathMatch> = match end_opt {
                Some(end) => {
                    if self.pattern.anchor_end && end != n {
                        None
                    } else {
                        let depth: usize = if end >= start { end - start } else { 0 };
                        Some(PathMatch {
                            literals: self.pattern.literals,
                            depth,
                            anchored_end: end == n && depth > 0,
                        })
                    }
                },
                None => None,
            };
            assert(cand == candidate(self@, path@, start as nat));
            match cand {
                Some(c) => {
                    let replace = match best {
                        None => true,
                        Some(b) => c.outranks(&b),
                    };
                    if replace {
                        best = Some(c);
                    }
                },
                None => {},
            }
            if start == last_start {
                break;
            }
            start = start + 1;
        }
        best
    }
}

/// The view of an optional `usize` end index.
pub open spec fn opt_nat(o: Option<usize>) -> Option<nat> {
    match o {
        Some(x) => Some(x as nat),
        None => None,
    }
}

/// Every end index that `walk` produces lies between its start and the end
/// of the path.
pub proof fn lemma_walk_bounds(segs: Seq<SegmentView>, parts: Seq<Seq<char>>, si: nat, pi: nat)
    requires
        pi <= parts.len(),
    ensures
        walk(segs, parts, si, pi) matches Some(e) ==> pi <= e <= parts.len(),
    decreases segs.len() - si, parts.len() + 2,
{
    if si < segs.len() {
        match segs[si as int] {
            SegmentView::Lit(l) => {
                if pi < parts.len() && parts[pi as int] == l {
                    lemma_walk_bounds(segs, parts, si + 1, pi + 1);
                }
            },
            SegmentView::Any => {
                if pi < parts.len() {
                    lemma_walk_bounds(segs, parts, si + 1, pi + 1);
                }
            },
            SegmentView::AnyDeep => {
                lemma_deep_best_bounds(segs, parts, si, pi, parts.len() + 1);
            },
        }
    }
}

/// Every end index that `deep_best` produces lies between `lo` and the end
/// of the path.
pub proof fn lemma_deep_best_bounds(segs: Seq<SegmentView>, parts: Seq<Seq<char>>, si: nat, lo: nat, hi: nat)
    requires
        hi <= parts.len() + 1,
    ensures
        deep_best(segs, parts, si, lo, hi) matches Some(e) ==> lo <= e <= parts.len(),
    decreases segs.len() - si, hi - lo,
{
    if si < segs.len() && hi > lo {
        lemma_deep_best_bounds(segs, parts, si, lo, (hi - 1) as nat);
        lemma_walk_bounds(segs, parts, si + 1, (hi - 1) as nat);
    }
}

/// Resolve the furthest matching end index for a segment sequence.
fn walk_match_end(segments: &Vec<Segment>, parts: &Vec<String>, seg_idx: usize, part_idx: usize) -> (r: Option<usize>)
    requires
        seg_idx <= segments@.len(),
        part_idx <= parts@.len(),
    ensures
        opt_nat(r) == walk(segments_view(segments@), strings_view(parts@), seg_idx as nat, part_idx as nat),
    decreases segments@.len() - seg_idx,
{
    let ghost segs = segments_view(segments@);
    let ghost ps = strings_view(parts@);
    if seg_idx == segments.len() {
        return Some(part_idx);
    }
    match &segments[seg_idx] {
        Segment::Lit(lit) => {
            if part_idx < parts.len() && string_eq(&parts[part_idx], lit) {
                walk_match_end(segments, parts, seg_idx + 1, part_idx + 1)
            } else {
                None
            }
        },
        Segment::Any => {
            if part_idx < parts.len() {
                walk_match_end(segments, parts, seg_idx + 1, part_idx + 1)
            } else {
                None
            }
        },
        Segment::AnyDeep => {
            let next_seg: usize = seg_idx + 1;
            let mut best: Option<usize> = None;
            let mut next: usize = part_idx;
            loop
                invariant_except_break
                    part_idx <= next <= parts@.len(),
                    opt_nat(best) == deep_best(segs, ps, seg_idx as nat, part_idx as nat, next as nat),
                invariant
                    segs == segments_view(segments@),
                    ps == strings_view(parts@),
                    seg_idx < segments@.len(),
                    next_seg == seg_idx + 1,
                    segs[seg_idx as int] == SegmentView::AnyDeep,
                ensures
                    opt_nat(best) == deep_best(segs, ps, seg_idx as nat, part_idx as nat, (parts@.len() + 1) as nat),
                decreases parts@.len() - next,
            {
                let sub = walk_match_end(segments, parts, next_seg, next);
                best = match (best, sub) {
                    (Some(b), Some(e)) => Some(if b >= e { b } else { e }),
                    (Some(b), None) => Some(b),
                    (None, Some(e)) => Some(e),
                    (None, None) => None,
                };
                if next == parts.len() {
                    break;
                }
                next = next + 1;
            }
            best
        },
    }
}

/// Number of leading `/` characters.
pub open spec fn leading_slashes(s: Seq<char>) -> nat
    decreases s.len(),
{
    if s.len() > 0 && s[0] == '/' {
        leading_slashes(s.drop_first()) + 1
    } else {
        0
    }
}

/// Number of trailing `/` characters.
pub open spec fn trailing_slashes(s: Seq<char>) -> nat
    decreases s.len(),
{
    if s.len() > 0 && s.last() == '/' {
        trailing_slashes(s.drop_last()) + 1
    } else {
        0
    }
}

/// A string with its leading and trailing `/` characters removed.
pub open spec fn trim_slashes(s: Seq<char>) -> Seq<char> {
    if leading_slashes(s) >= s.len() {
        Seq::empty()
    } else {
        s.subrange(leading_slashes(s) as int, s.len() - trailing_slashes(s))
    }
}

/// A filter normalized to match a full path: the trimmed filter between
/// two slashes, or the empty filter when nothing is left after trimming.
pub open spec fn normalize_spec(s: Seq<char>) -> Seq<char> {
    let t = trim_slashes(s);
    if t.len() == 0 {
        Seq::empty()
    } else {
        seq!['/'] + t + seq!['/']
    }
}

proof fn lemma_leading_prefix(s: Seq<char>, k: int)
    requires
        0 <= k <= s.len(),
        forall|i: int| 0 <= i < k ==> s[i] == '/',
        k == s.len() || s[k] != '/',
    ensures
        leading_slashes(s) == k,
    decreases s.len(),
{
    if k > 0 {
        lemma_leading_prefix(s.drop_first(), k - 1);
    }
}

proof fn lemma_trailing_suffix(s: Seq<char>, k: int)
    requires
        0 <= k <= s.len(),
        forall|i: int| s.len() - k <= i < s.len() ==> s[i] == '/',
        k == s.len() || s[s.len() - k - 1] != '/',
    ensures
        trailing_slashes(s) == k,
    decreases s.len(),
{
    if k > 0 {
        lemma_trailing_suffix(s.drop_last(), k - 1);
    }
}

/// Normalize a path filter to match a full path.
pub fn normalize_filter(path_filter: &str) -> (r: String)
    ensures
        r@ == normalize_spec(path_filter@),
{
    let v = str_to_chars(path_filter);
    let n = v.len();
    let mut lo: usize = 0;
    while lo < n && v[lo] == '/'
        invariant
            lo <= n,
            n == v@.len(),
            forall|i: int| 0 <= i < lo ==> v@[i] == '/',
        decreases n - lo,
    {
        lo = lo + 1;
    }
    proof {
        lemma_leading_prefix(v@, lo as int);
    }
    if lo == n {
        let r = String::new();
        assert(r@ =~= normalize_spec(path_filter@));
        return r;
    }
    let mut hi: usize = n;
    while hi > lo && v[hi - 1] == '/'
        invariant
            lo < n,
            lo <= hi <= n,
            n == v@.len(),
            v@[lo as int] != '/',
            forall|i: int| hi <= i < n ==> v@[i] == '/',
        decreases hi,
    {
        hi = hi - 1;
    }
    proof {
        lemma_trailing_suffix(v@, (n - hi) as int);
    }
    let mut out = String::new();
    push_char(&mut out, '/');
    let mut i: usize = lo;
    while i < hi
        invariant
            lo <= i <= hi,
            hi <= n,
            n == v@.len(),
            out@ == seq!['/'] + v@.subrange(lo as int, i as int),
        decreases hi - i,
    {
        push_char(&mut out, v[i]);
        i = i + 1;
        assert(out@ =~= seq!['/'] + v@.subrange(lo as int, i as int));
    }
    push_char(&mut out, '/');
    assert(out@ =~= normalize_spec(path_filter@));
    out
}

// ---------------------------------------------------------------------------
// Laws of path matching
// ---------------------------------------------------------------------------

proof fn lemma_split_two_stars()
    ensures
        components(seq!['*', '*']) == seq![seq!['*', '*']],
{
    let s = seq!['*', '*'];
    assert(s.drop_last() =~= seq!['*']);
    assert(s.drop_last().drop_last() =~= Seq::<char>::empty());
    assert(split_acc(Seq::<char>::empty()) == (Seq::<Seq<char>>::empty(), Seq::<char>::empty()));
    assert(split_acc(seq!['*']).1 =~= seq!['*']);
    assert(split_acc(s).1 =~= seq!['*', '*']);
    assert(split_acc(s).0 =~= Seq::<Seq<char>>::empty());
    assert(components(s) =~= seq![seq!['*', '*']]);
}

proof fn lemma_deep_best_tail(parts: Seq<Seq<char>>, lo: nat, hi: nat)
    requires
        lo < hi,
    ensures
        deep_best(seq![SegmentView::AnyDeep], parts, 0, lo, hi) == Some((hi - 1) as nat),
    decreases hi - lo,
{
    let segs = seq![SegmentView::AnyDeep];
    assert(walk(segs, parts, 1, (hi - 1) as nat) == Some((hi - 1) as nat));
    if hi - 1 > lo {
        lemma_deep_best_tail(parts, lo, (hi - 1) as nat);
    }
}

proof fn lemma_any_deep_best(parts: Seq<Seq<char>>, k: nat)
    requires
        1 <= k <= parts.len() + 1,
        parts.len() <= usize::MAX,
    ensures
        best_upto(seq!['*', '*'], parts, k) == Some(PathMatch {
            literals: 0,
            depth: parts.len() as usize,
            anchored_end: parts.len() > 0,
        }),
    decreases k,
{
    let f = seq!['*', '*'];
    lemma_split_two_stars();
    assert(filter_segments(f) =~= seq![SegmentView::AnyDeep]);
    assert(!is_literal_part(seq!['*', '*']));
    assert(count_literals(components(f), 0) == 0);
    assert(filter_literals(f) == 0);
    let start = (k - 1) as nat;
    lemma_deep_best_tail(parts, start, parts.len() + 1);
    assert(walk(filter_segments(f), parts, 0, start) == Some(parts.len()));
    let c = PathMatch {
        literals: 0,
        depth: (parts.len() - start) as usize,
        anchored_end: parts.len() - start > 0,
    };
    assert(candidate(f, parts, start) == Some(c));
    if k > 1 {
        lemma_any_deep_best(parts, (k - 1) as nat);
        let b = best_upto(f, parts, (k - 1) as nat).unwrap();
        assert(!score_gt(c, b));
    } else {
        assert(best_upto(f, parts, 0) is None);
    }
}

/// Law: the filter `**` matches every path, consuming all of it.
pub proof fn law_any_deep_matches_every_path(parts: Seq<Seq<char>>)
    requires
        parts.len() < usize::MAX,
    ensures
        filter_match(seq!['*', '*'], parts) == Some(PathMatch {
            literals: 0,
            depth: parts.len() as usize,
            anchored_end: parts.len() > 0,
        }),
{
    lemma_any_deep_best(parts, parts.len() + 1);
}

/// Appending a run of non-`/` characters extends the current component.
proof fn lemma_split_append_plain(s: Seq<char>, t: Seq<char>)
    requires
        forall|i: int| 0 <= i < t.len() ==> t[i] != '/',
    ensures
        split_acc(s + t).0 == split_acc(s).0,
        split_acc(s + t).1 == split_acc(s).1 + t,
    decreases t.len(),
{
    if t.len() == 0 {
        assert(s + t =~= s);
        assert(split_acc(s).1 + t =~= split_acc(s).1);
    } else {
        lemma_split_append_plain(s, t.drop_last());
        assert((s + t).drop_last() =~= s + t.drop_last());
        assert(split_acc(s).1 + t.drop_last() + seq![t.last()] =~= split_acc(s).1 + t);
    }
}

/// Whether every component is a node name.
pub open spec fn all_nodenames(parts: Seq<Seq<char>>) -> bool {
    forall|i: int| 0 <= i < parts.len() ==> is_nodename(#[trigger] parts[i])
}

/// The filter `/c1/c2/.../cn/` that matches exactly the path of the given
/// components.
pub open spec fn anchored_literal_filter(parts: Seq<Seq<char>>) -> Seq<char> {
    join_path(parts) + seq!['/']
}

proof fn lemma_nodename_no_slash(s: Seq<char>)
    requires
        is_nodename(s),
    ensures
        forall|i: int| 0 <= i < s.len() ==> s[i] != '/',
        is_literal_part(s),
{
    assert(crate::state::is_nodename_char(s[0]));
    if s == seq!['*'] {
        assert(s[0] == '*');
    }
    if s == seq!['*', '*'] {
        assert(s[0] == '*');
    }
    assert forall|i: int| 0 <= i < s.len() implies s[i] != '/' by {
        assert(crate::state::is_nodename_char(s[i]));
    }
}

proof fn lemma_split_join(parts: Seq<Seq<char>>)
    requires
        parts.len() >= 1,
        all_nodenames(parts),
    ensures
        split_acc(join_path(parts)).0 == parts.drop_last(),
        split_acc(join_path(parts)).1 == parts.last(),
    decreases parts.len(),
{
    lemma_nodename_no_slash(parts.last());
    if parts.len() == 1 {
        let s = seq!['/'];
        assert(s.drop_last() =~= Seq::<char>::empty());
        assert(s.last() == '/');
        assert(split_acc(Seq::<char>::empty()).0 =~= Seq::<Seq<char>>::empty());
        assert(split_acc(Seq::<char>::empty()).1 =~= Seq::<char>::empty());
        assert(split_acc(s).0 =~= Seq::<Seq<char>>::empty());
        assert(split_acc(s).1 =~= Seq::<char>::empty());
        lemma_split_append_plain(s, parts[0]);
        assert(parts.drop_last() =~= Seq::<Seq<char>>::empty());
        assert(Seq::<char>::empty() + parts[0] =~= parts[0]);
    } else {
        let init = parts.drop_last();
        assert(all_nodenames(init)) by {
            assert forall|i: int| 0 <= i < init.len() implies is_nodename(#[trigger] init[i]) by {
                assert(init[i] == parts[i]);
            }
        }
        lemma_split_join(init);
        lemma_nodename_no_slash(init.last());
        let s = join_path(init) + seq!['/'];
        assert(s.drop_last() =~= join_path(init));
        assert(split_acc(s).0 =~= init.drop_last().push(init.last()));
        assert(init.drop_last().push(init.last()) =~= init);
        lemma_split_append_plain(s, parts.last());
        assert(Seq::<char>::empty() + parts.last() =~= parts.last());
        assert(join_path(parts) == s + parts.last());
    }
}

proof fn lemma_join_path_starts_with_slash(parts: Seq<Seq<char>>)
    ensures
        join_path(parts).len() >= 1,
        join_path(parts)[0] == '/',
    decreases parts.len(),
{
    if parts.len() >= 2 {
        lemma_join_path_starts_with_slash(parts.drop_last());
    }
}

proof fn lemma_components_anchored(parts: Seq<Seq<char>>)
    requires
        parts.len() >= 1,
        all_nodenames(parts),
    ensures
        components(anchored_literal_filter(parts)) == parts,
{
    lemma_split_join(parts);
    let f = anchored_literal_filter(parts);
    assert(f.drop_last() =~= join_path(parts));
    assert(parts.drop_last().push(parts.last()) =~= parts);
}

proof fn lemma_count_all_literals(parts: Seq<Seq<char>>, k: int)
    requires
        0 <= k <= parts.len(),
        all_nodenames(parts),
    ensures
        count_literals(parts, k) == k,
    decreases k,
{
    if k > 0 {
        lemma_nodename_no_slash(parts[k - 1]);
        lemma_count_all_literals(parts, k - 1);
    }
}

proof fn lemma_walk_literals(parts: Seq<Seq<char>>, i: nat)
    requires
        i <= parts.len(),
        all_nodenames(parts),
    ensures
        walk(parts.map_values(|p: Seq<char>| segment_of(p)), parts, i, i) == Some(parts.len()),
    decreases parts.len() - i,
{
    if i < parts.len() {
        lemma_nodename_no_slash(parts[i as int]);
        lemma_walk_literals(parts, i + 1);
    }
}

/// Law: a filter that spells out a path between two slashes matches that
/// path with every component counted as a literal and the match anchored at
/// the end.
pub proof fn law_literal_path_matches_when_anchored(parts: Seq<Seq<char>>)
    requires
        parts.len() >= 1,
        parts.len() < usize::MAX,
        all_nodenames(parts),
    ensures
        filter_valid(anchored_literal_filter(parts)),
        filter_match(anchored_literal_filter(parts), parts) == Some(PathMatch {
            literals: parts.len() as usize,
            depth: parts.len() as usize,
            anchored_end: true,
        }),
{
    let f = anchored_literal_filter(parts);
    lemma_components_anchored(parts);
    lemma_count_all_literals(parts, parts.len() as int);
    lemma_walk_literals(parts, 0);
    lemma_join_path_starts_with_slash(parts);
    assert(f[0] == '/');
    assert(f.last() == '/');
    assert(filter_segments(f) == parts.map_values(|p: Seq<char>| segment_of(p)));
    assert(filter_literals(f) == parts.len());
    assert(walk(filter_segments(f), parts, 0, 0) == Some(parts.len()));
    assert(filter_anchor_start(f));
    assert(filter_anchor_end(f));
    let m = PathMatch { literals: parts.len() as usize, depth: parts.len() as usize, anchored_end: true };
    assert(candidate(f, parts, 0) == Some(m));
    assert(best_upto(f, parts, 0) is None);
    assert(best_upto(f, parts, 1) == Some(m));
}

} // verus!
