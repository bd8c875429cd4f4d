//! The input binding registry: application bindings, framework-owned
//! binding groups, input modes and exclusive frames, and the resolver that
//! picks the binding an input triggers at a node.

use vstd::prelude::*;
use crate::commands::{ActionView, CommandAction, clone_strings};
use crate::error::Error;
use crate::event::{InputSpec, normalize_input};
use crate::id::NodeId;
use crate::path::{Path, PathFilter, PathMatch, filter_match, filter_valid, score_eq, score_gt, strings_view};
use crate::script::LuauFunctionId;
use crate::text::{blank, is_blank, owned, str_eq, str_to_chars, string_eq};

verus! {

// ---------------------------------------------------------------------------
// Identifiers and groups
// ---------------------------------------------------------------------------

/// Monotonic identifier for a binding.
#[derive(Debug, Clone, Copy, PartialEq, Eq, Hash, Structural)]
pub struct BindingId(u64);

impl BindingId {
    /// The numeric identifier.
    pub closed spec fn value(self) -> u64 {
        self.0
    }

    /// Return the numeric binding identifier.
    pub fn as_u64(self) -> (r: u64)
        ensures
            r == self.value(),
    {
        self.0
    }

    /// Reconstruct a binding identifier from its numeric form.
    pub fn from_u64(id: u64) -> (r: Self)
        ensures
            r.value() == id,
    {
        BindingId(id)
    }

    /// Law: an identifier is its numeric value, so identifiers with the same
    /// value are the same identifier, and converting to a number and back
    /// gives the identifier again.
    pub proof fn law_value_identifies(a: BindingId, b: BindingId)
        ensures
            a.value() == b.value() <==> a == b,
    {
    }
}

/// Stable name for one framework-owned binding group.
#[derive(Clone, Copy, Debug, PartialEq, Eq, Hash)]
pub struct FrameworkBindingGroup(&'static str);

impl View for FrameworkBindingGroup {
    type V = Seq<char>;

    closed spec fn view(&self) -> Seq<char> {
        self.0@
    }
}

impl FrameworkBindingGroup {
    /// Construct a framework binding group.
    pub fn new(name: &'static str) -> (r: Self)
        ensures
            r@ == name@,
    {
        FrameworkBindingGroup(name)
    }

    /// Return the diagnostic group name.
    pub fn as_str(self) -> (r: &'static str)
        ensures
            r@ == self@,
    {
        self.0
    }

    /// Compare two groups by name.
    pub fn same_as(self, other: FrameworkBindingGroup) -> (r: bool)
        ensures
            r == (self@ == other@),
    {
        str_eq(self.0, other.0)
    }
}

/// Opaque token for one active exclusive binding frame.
#[derive(Clone, Copy, Debug, PartialEq, Eq, Hash, Structural)]
pub struct ExclusiveFrameToken(u64);

impl ExclusiveFrameToken {
    /// The numeric token.
    pub closed spec fn value(self) -> u64 {
        self.0
    }
}

// ---------------------------------------------------------------------------
// Owners, scopes, targets and phases
// ---------------------------------------------------------------------------

/// Owner of one binding record.
#[derive(Clone, Copy, Debug, PartialEq, Eq, Hash)]
pub enum BindingOwner {
    /// Application-owned binding that script APIs can mutate.
    Application,
    /// Framework-owned binding in a private group.
    Framework(FrameworkBindingGroup),
}

/// The mathematical form of an owner.
pub enum OwnerView {
    /// Application-owned.
    Application,
    /// Owned by the framework group with this name.
    Framework(Seq<char>),
}

impl View for BindingOwner {
    type V = OwnerView;

    open spec fn view(&self) -> OwnerView {
        match self {
            BindingOwner::Application => OwnerView::Application,
            BindingOwner::Framework(g) => OwnerView::Framework(g@),
        }
    }
}

impl BindingOwner {
    /// Compare two owners.
    pub fn same_as(&self, other: &BindingOwner) -> (r: bool)
        ensures
            r == (self@ == other@),
    {
        match (self, other) {
            (BindingOwner::Application, BindingOwner::Application) => true,
            (BindingOwner::Framework(a), BindingOwner::Framework(b)) => a.same_as(*b),
            _ => false,
        }
    }
}

/// Resolution scope for one binding.
#[derive(Debug, PartialEq, Eq, Hash)]
pub enum BindingScope {
    /// Highest-priority application tier.
    Global,
    /// Named application mode.
    Mode(String),
    /// Default application mode.
    Default,
    /// Framework-only exclusive group.
    Exclusive(FrameworkBindingGroup),
}

/// The mathematical form of a scope.
pub enum ScopeView {
    /// Global tier.
    Global,
    /// Named mode.
    Mode(Seq<char>),
    /// Default tier.
    Default,
    /// Exclusive framework group with this name.
    Exclusive(Seq<char>),
}

impl View for BindingScope {
    type V = ScopeView;

    open spec fn view(&self) -> ScopeView {
        match self {
            BindingScope::Global => ScopeView::Global,
            BindingScope::Mode(m) => ScopeView::Mode(m@),
            BindingScope::Default => ScopeView::Default,
            BindingScope::Exclusive(g) => ScopeView::Exclusive(g@),
        }
    }
}

/// The label of a scope.
pub open spec fn scope_label(s: ScopeView) -> Seq<char> {
    match s {
        ScopeView::Global => "global"@,
        ScopeView::Mode(_) => "mode"@,
        ScopeView::Default => "default"@,
        ScopeView::Exclusive(_) => "exclusive"@,
    }
}

impl BindingScope {
    /// Return the named mode, if this is a mode scope.
    pub fn mode(&self) -> (r: Option<&str>)
        ensures
            match self@ {
                ScopeView::Mode(m) => r matches Some(s) && s@ == m,
                _ => r is None,
            },
    {
        match self {
            BindingScope::Mode(m) => Some(m.as_str()),
            _ => None,
        }
    }

    /// Return a stable scripting and diagnostic label.
    pub fn label(&self) -> (r: &'static str)
        ensures
            r@ == scope_label(self@),
    {
        match self {
            BindingScope::Global => "global",
            BindingScope::Mode(_) => "mode",
            BindingScope::Default => "default",
            BindingScope::Exclusive(_) => "exclusive",
        }
    }

    /// Compare two scopes.
    pub fn same_as(&self, other: &BindingScope) -> (r: bool)
        ensures
            r == (self@ == other@),
    {
        match (self, other) {
            (BindingScope::Global, BindingScope::Global) => true,
            (BindingScope::Mode(a), BindingScope::Mode(b)) => string_eq(a, b),
            (BindingScope::Default, BindingScope::Default) => true,
            (BindingScope::Exclusive(a), BindingScope::Exclusive(b)) => a.same_as(*b),
            _ => false,
        }
    }
}

impl Clone for BindingScope {
    fn clone(&self) -> (r: Self)
        ensures
            r@ == self@,
    {
        match self {
            BindingScope::Global => BindingScope::Global,
            BindingScope::Mode(m) => BindingScope::Mode(m.clone()),
            BindingScope::Default => BindingScope::Default,
            BindingScope::Exclusive(g) => BindingScope::Exclusive(*g),
        }
    }
}

/// Action executed by a binding.
#[derive(Debug, PartialEq)]
pub enum BindingTarget {
    /// Stored Luau callback.
    Script(LuauFunctionId),
    /// Rust command invocation.
    Command(CommandAction),
}

/// The mathematical form of a target.
pub enum TargetView {
    /// A stored callback.
    Script(LuauFunctionId),
    /// A command action.
    Command(ActionView),
}

impl View for BindingTarget {
    type V = TargetView;

    open spec fn view(&self) -> TargetView {
        match self {
            BindingTarget::Script(f) => TargetView::Script(*f),
            BindingTarget::Command(a) => TargetView::Command(a@),
        }
    }
}

/// The label of a target.
pub open spec fn target_label(t: TargetView) -> Seq<char> {
    match t {
        TargetView::Script(_) => "script"@,
        TargetView::Command(_) => "command"@,
    }
}

impl BindingTarget {
    /// Return a stable target-kind label.
    pub fn label(&self) -> (r: &'static str)
        ensures
            r@ == target_label(self@),
    {
        match self {
            BindingTarget::Script(_) => "script",
            BindingTarget::Command(_) => "command",
        }
    }

    /// Compare two targets.
    pub fn same_as(&self, other: &BindingTarget) -> (r: bool)
        ensures
            r == (self@ == other@),
    {
        match (self, other) {
            (BindingTarget::Script(a), BindingTarget::Script(b)) => *a == *b,
            (BindingTarget::Command(a), BindingTarget::Command(b)) => a.same_as(b),
            _ => false,
        }
    }
}

impl Clone for BindingTarget {
    fn clone(&self) -> (r: Self)
        ensures
            r@ == self@,
    {
        match self {
            BindingTarget::Script(f) => BindingTarget::Script(*f),
            BindingTarget::Command(a) => BindingTarget::Command(a.clone()),
        }
    }
}

/// Binding phase relative to widget input handling.
#[derive(Clone, Copy, Debug, PartialEq, Eq, Structural)]
pub enum BindingPhase {
    /// Execute before the focused widget.
    BeforeWidget,
    /// Execute only after the widget ignores the input.
    AfterWidget,
}

// ---------------------------------------------------------------------------
// Records and the registry
// ---------------------------------------------------------------------------

/// One complete binding record used by routing and introspection.
#[derive(Debug)]
pub struct BindingRecord {
    /// Stable binding identifier.
    pub id: BindingId,
    /// Normalized input selector.
    pub input: InputSpec,
    /// Record owner.
    pub owner: BindingOwner,
    /// Resolution scope.
    pub scope: BindingScope,
    /// Required user-facing description.
    pub description: String,
    /// Optional diagnostic source.
    pub source: Option<String>,
    /// Binding target.
    pub target: BindingTarget,
    /// Monotonic insertion order.
    pub insertion_id: u64,
    /// Routing phase relative to the focused widget.
    pub phase: BindingPhase,
    /// Compiled path filter; the empty filter matches every node.
    path_matcher: PathFilter,
}

/// The mathematical form of a binding record.
pub struct RecordView {
    /// Identifier.
    pub id: BindingId,
    /// Normalized input.
    pub input: InputSpec,
    /// Owner.
    pub owner: OwnerView,
    /// Scope.
    pub scope: ScopeView,
    /// Description.
    pub description: Seq<char>,
    /// Diagnostic source.
    pub source: Option<Seq<char>>,
    /// Target.
    pub target: TargetView,
    /// Insertion order.
    pub insertion_id: u64,
    /// Phase.
    pub phase: BindingPhase,
    /// Path filter text.
    pub path: Seq<char>,
}

/// The view of an optional string.
pub open spec fn opt_string_view(o: Option<String>) -> Option<Seq<char>> {
    match o {
        Some(s) => Some(s@),
        None => None,
    }
}

impl View for BindingRecord {
    type V = RecordView;

    closed spec fn view(&self) -> RecordView {
        RecordView {
            id: self.id,
            input: self.input,
            owner: self.owner@,
            scope: self.scope@,
            description: self.description@,
            source: opt_string_view(self.source),
            target: self.target@,
            insertion_id: self.insertion_id,
            phase: self.phase,
            path: self.path_matcher@,
        }
    }
}

/// Copy an optional string.
fn clone_opt_string(o: &Option<String>) -> (r: Option<String>)
    ensures
        opt_string_view(r) == opt_string_view(*o),
{
    match o {
        Some(s) => Some(s.clone()),
        None => None,
    }
}

impl BindingRecord {
    /// Return the text of the path filter.
    pub fn path_filter(&self) -> (r: &str)
        ensures
            r@ == self@.path,
    {
        self.path_matcher.as_str()
    }
}

impl Clone for BindingRecord {
    fn clone(&self) -> (r: Self)
        ensures
            r@ == self@,
    {
        BindingRecord {
            id: self.id,
            input: self.input,
            owner: self.owner,
            scope: self.scope.clone(),
            description: self.description.clone(),
            source: clone_opt_string(&self.source),
            target: self.target.clone(),
            insertion_id: self.insertion_id,
            phase: self.phase,
            path_matcher: self.path_matcher.clone(),
        }
    }
}

/// The views of a run of records.
pub open spec fn records_view(v: Seq<BindingRecord>) -> Seq<RecordView> {
    v.map_values(|r: BindingRecord| r@)
}

/// Winner returned by the shared resolver.
#[derive(Debug)]
pub struct ResolvedBinding {
    /// Binding identifier.
    pub id: BindingId,
    /// Target to execute.
    pub target: BindingTarget,
    /// Routing phase.
    pub phase: BindingPhase,
    /// User-facing description.
    pub description: String,
}

/// Binding selector used by application mutation APIs.
#[derive(Debug, Clone, Default, PartialEq, Eq)]
pub struct BindingSelector<'a> {
    /// Optional scope to match.
    pub scope: Option<BindingScope>,
    /// Optional exact path filter string to match.
    pub path_filter: Option<&'a str>,
}

/// Options for registering one binding.
#[derive(Debug, Clone)]
pub struct BindingOptions {
    /// Path filter; bindings without one match at every node.
    pub path: Option<PathFilter>,
    /// Resolution scope.
    pub scope: BindingScope,
    /// Required user-facing description.
    pub description: String,
    /// Optional diagnostic source.
    pub source: Option<String>,
    /// Routing phase.
    pub phase: BindingPhase,
}

/// The path filter text of binding options: empty when there is none.
pub open spec fn options_path(o: &BindingOptions) -> Seq<char> {
    match o.path {
        Some(f) => f@,
        None => Seq::empty(),
    }
}

/// Exclusive bindings that stay active while no frame is pushed.
#[derive(Clone, Copy, Debug, PartialEq, Eq)]
pub enum ModalBindings {
    /// Admit only the bindings of this framework group.
    Framework(FrameworkBindingGroup),
}

/// Application-owned state restored after a failed startup script.
#[derive(Debug)]
pub struct ApplicationBindingSnapshot {
    /// Application records captured at the start of an attempt.
    records: Vec<BindingRecord>,
    /// Application mode stack captured at the start of an attempt.
    mode_stack: Vec<String>,
}

/// The mathematical form of a snapshot.
pub struct SnapshotView {
    /// Captured application records.
    pub records: Seq<RecordView>,
    /// Captured mode stack.
    pub modes: Seq<Seq<char>>,
}

impl View for ApplicationBindingSnapshot {
    type V = SnapshotView;

    closed spec fn view(&self) -> SnapshotView {
        SnapshotView { records: records_view(self.records@), modes: strings_view(self.mode_stack@) }
    }
}

/// One active exclusive binding frame.
#[derive(Clone, Copy, Debug)]
struct ExclusiveFrame {
    /// Unique token used for ordered removal.
    token: ExclusiveFrameToken,
    /// Framework group admitted by this frame.
    group: FrameworkBindingGroup,
    /// Node that owns the frame.
    owner: NodeId,
}

/// The mathematical form of an exclusive frame.
pub struct FrameView {
    /// Token.
    pub token: ExclusiveFrameToken,
    /// Group name.
    pub group: Seq<char>,
    /// Owning node.
    pub owner: NodeId,
}

impl View for ExclusiveFrame {
    type V = FrameView;

    closed spec fn view(&self) -> FrameView {
        FrameView { token: self.token, group: self.group@, owner: self.owner }
    }
}

/// Registry for application bindings, framework controls, and active modes.
#[derive(Debug)]
pub struct InputMap {
    /// Flat application and framework binding records.
    records: Vec<BindingRecord>,
    /// Active application modes in push order.
    mode_stack: Vec<String>,
    /// Active exclusive framework frames in push order.
    exclusive_frames: Vec<ExclusiveFrame>,
    /// Exclusive group active while no frame is pushed.
    modal: Option<FrameworkBindingGroup>,
    /// Next binding identifier.
    next_id: u64,
    /// Next insertion-order identifier.
    next_insertion_id: u64,
    /// Next exclusive-frame token.
    next_token: u64,
}

/// The mathematical form of the registry.
pub struct InputMapView {
    /// Records in insertion order.
    pub records: Seq<RecordView>,
    /// Mode stack, oldest first.
    pub modes: Seq<Seq<char>>,
    /// Exclusive frames, oldest first.
    pub frames: Seq<FrameView>,
    /// Modal exclusive group.
    pub modal: Option<Seq<char>>,
    /// Next binding identifier.
    pub next_id: u64,
    /// Next insertion identifier.
    pub next_insertion: u64,
    /// Next frame token.
    pub next_token: u64,
}

/// The view of an optional group.
pub open spec fn opt_group_view(o: Option<FrameworkBindingGroup>) -> Option<Seq<char>> {
    match o {
        Some(g) => Some(g@),
        None => None,
    }
}

impl View for InputMap {
    type V = InputMapView;

    closed spec fn view(&self) -> InputMapView {
        InputMapView {
            records: records_view(self.records@),
            modes: strings_view(self.mode_stack@),
            frames: self.exclusive_frames@.map_values(|f: ExclusiveFrame| f@),
            modal: opt_group_view(self.modal),
            next_id: self.next_id,
            next_insertion: self.next_insertion_id,
            next_token: self.next_token,
        }
    }
}

// ---------------------------------------------------------------------------
// Invariants
// ---------------------------------------------------------------------------

/// Whether a record is application-owned.
pub open spec fn is_app(r: RecordView) -> bool {
    r.owner is Application
}

/// Whether a record is framework-owned.
pub open spec fn is_framework(r: RecordView) -> bool {
    r.owner is Framework
}

/// Whether an application scope admits a path filter: global bindings need
/// a filter anchored at both ends, modes need a name, and exclusive scopes
/// belong to the framework.
pub open spec fn app_scope_ok(s: ScopeView, path: Seq<char>) -> bool {
    match s {
        ScopeView::Global => path.len() > 0 && path[0] == '/' && path.last() == '/',
        ScopeView::Mode(m) => m.len() > 0,
        ScopeView::Default => true,
        ScopeView::Exclusive(_) => false,
    }
}

/// Well-formedness of one stored record.
pub open spec fn record_ok(r: RecordView) -> bool {
    &&& normalize_input(r.input) == r.input
    &&& match r.owner {
        OwnerView::Application => !(r.scope is Exclusive),
        OwnerView::Framework(g) => r.scope == ScopeView::Exclusive(g) && r.target is Command,
    }
}

/// Records ordered strictly by insertion and by identifier, which are
/// allocated together; identifiers are therefore distinct.
pub open spec fn records_ordered(rs: Seq<RecordView>) -> bool {
    forall|i: int, j: int| 0 <= i < j < rs.len() ==> #[trigger] rs[i].insertion_id < #[trigger] rs[j].insertion_id
        && rs[i].id.value() < rs[j].id.value()
}

/// Well-formedness of the registry.
pub open spec fn map_wf(v: InputMapView) -> bool {
    &&& records_ordered(v.records)
    &&& forall|i: int| 0 <= i < v.records.len() ==> #[trigger] record_ok(v.records[i])
    &&& forall|i: int| 0 <= i < v.records.len() ==> #[trigger] v.records[i].insertion_id < v.next_insertion
    &&& forall|i: int| 0 <= i < v.records.len() ==> (#[trigger] v.records[i]).id.value() < v.next_id
    &&& forall|i: int, j: int| 0 <= i < j < v.frames.len() ==> v.frames[i].token != v.frames[j].token
    &&& forall|i: int| 0 <= i < v.frames.len() ==> (#[trigger] v.frames[i]).token.value() < v.next_token
}

impl InputMap {
    /// Well-formedness of the registry.
    pub open spec fn wf(&self) -> bool {
        map_wf(self@)
    }
}

/// The position of the first record with an identifier.
pub open spec fn find_id(rs: Seq<RecordView>, id: BindingId) -> Option<int>
    decreases rs.len(),
{
    if rs.len() == 0 {
        None
    } else {
        match find_id(rs.drop_last(), id) {
            Some(i) => Some(i),
            None => if rs.last().id == id { Some(rs.len() - 1) } else { None },
        }
    }
}

/// The newest mode, or the empty default mode.
pub open spec fn current_mode_spec(modes: Seq<Seq<char>>) -> Seq<char> {
    if modes.len() == 0 {
        Seq::empty()
    } else {
        modes.last()
    }
}

/// The exclusive group that admits bindings: the newest frame's group, else
/// the modal group.
pub open spec fn active_group(v: InputMapView) -> Option<Seq<char>> {
    if v.frames.len() > 0 {
        Some(v.frames.last().group)
    } else {
        v.modal
    }
}

/// The registry with another mode stack.
pub open spec fn with_modes(v: InputMapView, modes: Seq<Seq<char>>) -> InputMapView {
    InputMapView { modes: modes, ..v }
}

/// The registry with other records.
pub open spec fn with_records(v: InputMapView, records: Seq<RecordView>) -> InputMapView {
    InputMapView { records: records, ..v }
}

/// The mode stack after a push: empty names are ignored.
pub open spec fn push_mode_spec(modes: Seq<Seq<char>>, mode: Seq<char>) -> Seq<Seq<char>> {
    if mode.len() == 0 {
        modes
    } else {
        modes.push(mode)
    }
}

/// The mode stack after removing the newest mode.
pub open spec fn pop_mode_spec(modes: Seq<Seq<char>>) -> Seq<Seq<char>> {
    if modes.len() == 0 {
        modes
    } else {
        modes.drop_last()
    }
}

/// The position of the first frame with a token.
pub open spec fn find_token(frames: Seq<FrameView>, token: ExclusiveFrameToken) -> Option<int>
    decreases frames.len(),
{
    if frames.len() == 0 {
        None
    } else {
        match find_token(frames.drop_last(), token) {
            Some(i) => Some(i),
            None => if frames.last().token == token { Some(frames.len() - 1) } else { None },
        }
    }
}

/// Facts about the first position with an identifier.
pub proof fn lemma_find_id(rs: Seq<RecordView>, id: BindingId)
    ensures
        match find_id(rs, id) {
            Some(i) => 0 <= i < rs.len() && rs[i].id == id && forall|j: int| 0 <= j < i ==> rs[j].id != id,
            None => forall|j: int| 0 <= j < rs.len() ==> rs[j].id != id,
        },
    decreases rs.len(),
{
    if rs.len() > 0 {
        let d = rs.drop_last();
        lemma_find_id(d, id);
        assert forall|j: int| 0 <= j < d.len() implies d[j] == rs[j] by {}
    }
}

/// Facts about the first position with a token.
pub proof fn lemma_find_token(frames: Seq<FrameView>, token: ExclusiveFrameToken)
    ensures
        match find_token(frames, token) {
            Some(i) => 0 <= i < frames.len() && frames[i].token == token && forall|j: int| 0 <= j < i ==> frames[j].token != token,
            None => forall|j: int| 0 <= j < frames.len() ==> frames[j].token != token,
        },
    decreases frames.len(),
{
    if frames.len() > 0 {
        let d = frames.drop_last();
        lemma_find_token(d, token);
        assert forall|j: int| 0 <= j < d.len() implies d[j] == frames[j] by {}
    }
}

impl Default for InputMap {
    fn default() -> (r: Self)
        ensures
            r.wf(),
            r@ == empty_map(),
    {
        InputMap::new()
    }
}

/// The empty registry.
pub open spec fn empty_map() -> InputMapView {
    InputMapView {
        records: Seq::empty(),
        modes: Seq::empty(),
        frames: Seq::empty(),
        modal: None,
        next_id: 1,
        next_insertion: 1,
        next_token: 1,
    }
}

impl InputMap {
    /// Construct an empty binding registry.
    pub fn new() -> (r: Self)
        ensures
            r.wf(),
            r@ == empty_map(),
    {
        let r = InputMap {
            records: Vec::new(),
            mode_stack: Vec::new(),
            exclusive_frames: Vec::new(),
            modal: None,
            next_id: 1,
            next_insertion_id: 1,
            next_token: 1,
        };
        assert(r@.records =~= Seq::<RecordView>::empty());
        assert(r@.modes =~= Seq::<Seq<char>>::empty());
        assert(r@.frames =~= Seq::<FrameView>::empty());
        r
    }

    /// Return every record in insertion order.
    pub fn bindings(&self) -> (r: &[BindingRecord])
        ensures
            records_view(r@) == self@.records,
    {
        self.records.as_slice()
    }

    /// Return one binding record by identifier.
    pub fn binding(&self, id: BindingId) -> (r: Option<&BindingRecord>)
        ensures
            match find_id(self@.records, id) {
                Some(i) => r matches Some(b) && b@ == self@.records[i],
                None => r is None,
            },
    {
        proof {
            lemma_find_id(self@.records, id);
        }
        let mut i: usize = 0;
        while i < self.records.len()
            invariant
                i <= self.records@.len(),
                forall|j: int| 0 <= j < i ==> self@.records[j].id != id,
            decreases self.records@.len() - i,
        {
            if self.records[i].id == id {
                proof {
                    lemma_find_id(self@.records, id);
                    assert(self@.records[i as int].id == id);
                }
                return Some(&self.records[i]);
            }
            i = i + 1;
        }
        proof {
            lemma_find_id(self@.records, id);
        }
        None
    }

    /// Set the active input mode, replacing the mode stack; the empty name
    /// selects the default mode.
    pub fn set_mode(&mut self, mode: &str) -> (r: Result<(), Error>)
        requires
            old(self).wf(),
        ensures
            r is Ok,
            final(self).wf(),
            final(self)@ == with_modes(old(self)@, push_mode_spec(Seq::empty(), mode@)),
    {
        self.mode_stack = Vec::new();
        let chars = str_to_chars(mode);
        if chars.len() > 0 {
            self.mode_stack.push(owned(mode));
        }
        proof {
            assert(self@.modes =~= push_mode_spec(Seq::empty(), mode@));
            assert(self@ =~= with_modes(old(self)@, push_mode_spec(Seq::empty(), mode@)));
        }
        Ok(())
    }

    /// Push a named input mode; the empty name is ignored.
    pub fn push_mode(&mut self, mode: &str) -> (r: Result<(), Error>)
        requires
            old(self).wf(),
        ensures
            r is Ok,
            final(self).wf(),
            final(self)@ == with_modes(old(self)@, push_mode_spec(old(self)@.modes, mode@)),
    {
        let chars = str_to_chars(mode);
        if chars.len() > 0 {
            self.mode_stack.push(owned(mode));
        }
        proof {
            assert(self@.modes =~= push_mode_spec(old(self)@.modes, mode@));
            assert(self@ =~= with_modes(old(self)@, push_mode_spec(old(self)@.modes, mode@)));
        }
        Ok(())
    }

    /// Pop the newest input mode and return the mode that is then active.
    pub fn pop_mode(&mut self) -> (r: &str)
        requires
            old(self).wf(),
        ensures
            final(self).wf(),
            final(self)@ == with_modes(old(self)@, pop_mode_spec(old(self)@.modes)),
            r@ == current_mode_spec(final(self)@.modes),
    {
        self.mode_stack.pop();
        proof {
            assert(self@.modes =~= pop_mode_spec(old(self)@.modes));
            assert(self@ =~= with_modes(old(self)@, pop_mode_spec(old(self)@.modes)));
        }
        self.current_mode()
    }

    /// Return the newest active input mode, or the empty default mode.
    pub fn current_mode(&self) -> (r: &str)
        ensures
            r@ == current_mode_spec(self@.modes),
    {
        let n = self.mode_stack.len();
        if n == 0 {
            proof {
                reveal_strlit("");
            }
            ""
        } else {
            self.mode_stack[n - 1].as_str()
        }
    }

    /// Return active non-default modes in resolution order, newest first.
    pub fn active_modes(&self) -> (r: Vec<&str>)
        ensures
            r@.len() == self@.modes.len(),
            forall|i: int| 0 <= i < r@.len() ==> #[trigger] r@[i]@ == self@.modes.reverse()[i],
    {
        let n = self.mode_stack.len();
        let mut r: Vec<&str> = Vec::new();
        let mut k: usize = n;
        while k > 0
            invariant
                k <= n,
                n == self@.modes.len(),
                r@.len() == n - k,
                forall|i: int| 0 <= i < r@.len() ==> #[trigger] r@[i]@ == self@.modes[n - 1 - i],
            decreases k,
        {
            k = k - 1;
            r.push(self.mode_stack[k].as_str());
        }
        r
    }

    /// Push one exclusive frame for its owning node.
    ///
    /// Fails with `InvalidOperation`, leaving the registry unchanged, when
    /// the token space is exhausted.
    pub fn push_exclusive_bindings(&mut self, group: FrameworkBindingGroup, owner: NodeId) -> (r: Result<ExclusiveFrameToken, Error>)
        requires
            old(self).wf(),
        ensures
            final(self).wf(),
            r is Err <==> old(self)@.next_token == u64::MAX,
            r is Err ==> final(self)@ == old(self)@ && r->Err_0 is InvalidOperation,
            r matches Ok(t) ==> t.value() == old(self)@.next_token && final(self)@ == (InputMapView {
                frames: old(self)@.frames.push(FrameView { token: t, group: group@, owner }),
                next_token: (old(self)@.next_token + 1) as u64,
                ..old(self)@
            }),
    {
        if self.next_token == u64::MAX {
            return Err(Error::InvalidOperation("exclusive frame token space exhausted".to_string()));
        }
        let token = ExclusiveFrameToken(self.next_token);
        self.next_token = self.next_token + 1;
        self.exclusive_frames.push(ExclusiveFrame { token, group, owner });
        proof {
            assert(self@.frames =~= old(self)@.frames.push(FrameView { token, group: group@, owner }));
            assert(self@.records =~= old(self)@.records);
            assert(self@.modes =~= old(self)@.modes);
        }
        Ok(token)
    }

    /// Remove one exclusive frame without disturbing newer frames.
    ///
    /// Fails with `InvalidOperation`, leaving the registry unchanged, when no
    /// active frame has the token.
    pub fn pop_exclusive_bindings(&mut self, token: ExclusiveFrameToken) -> (r: Result<(), Error>)
        requires
            old(self).wf(),
        ensures
            final(self).wf(),
            match find_token(old(self)@.frames, token) {
                Some(i) => r is Ok && final(self)@ == (InputMapView { frames: old(self)@.frames.remove(i), ..old(self)@ }),
                None => r matches Err(e) && e is InvalidOperation && final(self)@ == old(self)@,
            },
    {
        proof {
            lemma_find_token(self@.frames, token);
        }
        let mut i: usize = 0;
        while i < self.exclusive_frames.len()
            invariant
                i <= self.exclusive_frames@.len(),
                self@ == old(self)@,
                map_wf(old(self)@),
                forall|j: int| 0 <= j < i ==> self@.frames[j].token != token,
            decreases self.exclusive_frames@.len() - i,
        {
            if self.exclusive_frames[i].token == token {
                proof {
                    assert(self@.frames[i as int].token == token);
                    lemma_find_token(self@.frames, token);
                }
                self.exclusive_frames.remove(i);
                proof {
                    assert(self@.frames =~= old(self)@.frames.remove(i as int));
                    assert(self@.records =~= old(self)@.records);
                    assert(self@.modes =~= old(self)@.modes);
                    let f = old(self)@.frames;
                    assert forall|a: int, b: int| 0 <= a < b < self@.frames.len() implies self@.frames[a].token != self@.frames[b].token by {
                        let a2 = if a < i { a } else { a + 1 };
                        let b2 = if b < i { b } else { b + 1 };
                        assert(self@.frames[a] == f[a2]);
                        assert(self@.frames[b] == f[b2]);
                    }
                    assert forall|a: int| 0 <= a < self@.frames.len() implies (#[trigger] self@.frames[a]).token.value() < self@.next_token by {
                        let a2 = if a < i { a } else { a + 1 };
                        assert(self@.frames[a] == f[a2]);
                    }
                }
                return Ok(());
            }
            i = i + 1;
        }
        proof {
            lemma_find_token(self@.frames, token);
        }
        Err(Error::InvalidOperation("exclusive binding frame token is not active".to_string()))
    }

    /// Replace the exclusive group that is active while no frame is pushed.
    pub fn set_modal_bindings(&mut self, modal: Option<ModalBindings>)
        requires
            old(self).wf(),
        ensures
            final(self).wf(),
            final(self)@ == (InputMapView {
                modal: match modal {
                    Some(ModalBindings::Framework(g)) => Some(g@),
                    None => None,
                },
                ..old(self)@
            }),
    {
        self.modal = match modal {
            Some(ModalBindings::Framework(g)) => Some(g),
            None => None,
        };
        proof {
            assert(self@.records =~= old(self)@.records);
            assert(self@.modes =~= old(self)@.modes);
            assert(self@.frames =~= old(self)@.frames);
        }
    }

    /// Return the active exclusive group: the newest frame's group, else the
    /// modal group.
    pub fn active_exclusive_group(&self) -> (r: Option<FrameworkBindingGroup>)
        ensures
            opt_group_view(r) == active_group(self@),
    {
        let n = self.exclusive_frames.len();
        if n > 0 {
            Some(self.exclusive_frames[n - 1].group)
        } else {
            self.modal
        }
    }
}

// ---------------------------------------------------------------------------
// Resolution
// ---------------------------------------------------------------------------

/// Whether a record takes part in resolution for an input, scope and owner.
pub open spec fn admits(r: RecordView, input: InputSpec, scope: ScopeView, owner: OwnerView) -> bool {
    r.input == input && r.scope == scope && r.owner == owner
}

/// Whether a candidate already held stays ahead of a new one: by path score,
/// then by insertion order.
pub open spec fn stays_ahead(held: RecordView, hm: PathMatch, new: RecordView, nm: PathMatch) -> bool {
    score_gt(hm, nm) || (score_eq(hm, nm) && held.insertion_id > new.insertion_id)
}

/// The best admitted record among the first `k` at a path, with its match.
pub open spec fn best_prefix(
    rs: Seq<RecordView>,
    path: Seq<Seq<char>>,
    input: InputSpec,
    scope: ScopeView,
    owner: OwnerView,
    k: nat,
) -> Option<(int, PathMatch)>
    decreases k,
{
    if k == 0 {
        None
    } else {
        let prev = best_prefix(rs, path, input, scope, owner, (k - 1) as nat);
        let r = rs[k - 1];
        if admits(r, input, scope, owner) {
            match filter_match(r.path, path) {
                Some(m) => match prev {
                    Some((i, pm)) => if stays_ahead(rs[i], pm, r, m) { prev } else { Some((k - 1, m)) },
                    None => Some((k - 1, m)),
                },
                None => prev,
            }
        } else {
            prev
        }
    }
}

/// The best admitted record at a path: the most specific match, and among
/// equally specific matches the latest inserted.
pub open spec fn best_in(rs: Seq<RecordView>, path: Seq<Seq<char>>, input: InputSpec, scope: ScopeView, owner: OwnerView) -> Option<(int, PathMatch)> {
    best_prefix(rs, path, input, scope, owner, rs.len())
}

/// The best application binding in the newest of the first `k` modes that
/// has one.
pub open spec fn modes_best(v: InputMapView, path: Seq<Seq<char>>, input: InputSpec, k: nat) -> Option<(int, PathMatch)>
    decreases k,
{
    if k == 0 {
        None
    } else {
        match best_in(v.records, path, input, ScopeView::Mode(v.modes[k - 1]), OwnerView::Application) {
            Some(b) => Some(b),
            None => modes_best(v, path, input, (k - 1) as nat),
        }
    }
}

/// The record an input triggers at a path. While an exclusive group is
/// active only that group's framework bindings take part; otherwise the
/// global tier wins over the modes, newest mode first, and the modes win
/// over the default tier.
pub open spec fn resolve_spec(v: InputMapView, path: Seq<Seq<char>>, input: InputSpec) -> Option<(int, PathMatch)> {
    let input = normalize_input(input);
    match active_group(v) {
        Some(g) => best_in(v.records, path, input, ScopeView::Exclusive(g), OwnerView::Framework(g)),
        None => match best_in(v.records, path, input, ScopeView::Global, OwnerView::Application) {
            Some(b) => Some(b),
            None => match modes_best(v, path, input, v.modes.len()) {
                Some(b) => Some(b),
                None => best_in(v.records, path, input, ScopeView::Default, OwnerView::Application),
            },
        },
    }
}

/// The view of an optional candidate.
pub open spec fn candidate_view(o: Option<(usize, PathMatch)>) -> Option<(int, PathMatch)> {
    match o {
        Some((i, m)) => Some((i as int, m)),
        None => None,
    }
}

/// Whether a resolved binding carries the fields of a record.
pub open spec fn resolved_from(b: ResolvedBinding, r: RecordView) -> bool {
    &&& b.id == r.id
    &&& b.target@ == r.target
    &&& b.phase == r.phase
    &&& b.description@ == r.description
}

impl InputMap {
    /// Select the best admitted record in one exact scope.
    fn best_in_scope(&self, path: &Path, input: InputSpec, scope: &BindingScope, owner: &BindingOwner) -> (r: Option<(usize, PathMatch)>)
        ensures
            candidate_view(r) == best_in(self@.records, path@, input, scope@, owner@),
            r matches Some((i, _)) ==> i < self@.records.len(),
    {
        let n = self.records.len();
        let mut best: Option<(usize, PathMatch)> = None;
        let mut i: usize = 0;
        while i < n
            invariant
                n == self@.records.len(),
                i <= n,
                candidate_view(best) == best_prefix(self@.records, path@, input, scope@, owner@, i as nat),
                best matches Some((j, _)) ==> j < i,
            decreases n - i,
        {
            let r = &self.records[i];
            assert(r@ == self@.records[i as int]);
            if r.input == input && r.scope.same_as(scope) && r.owner.same_as(owner) {
                match r.path_matcher.check_match(path) {
                    Some(m) => {
                        let keep = match best {
                            None => false,
                            Some((j, pm)) => {
                                assert(self.records@[j as int]@ == self@.records[j as int]);
                                pm.outranks(&m) || (pm.same_score(&m) && self.records[j].insertion_id > r.insertion_id)
                            },
                        };
                        if !keep {
                            best = Some((i, m));
                        }
                    },
                    None => {},
                }
            }
            i = i + 1;
        }
        best
    }

    /// Build the resolved form of one record.
    fn resolved_at(&self, i: usize) -> (r: ResolvedBinding)
        requires
            i < self@.records.len(),
        ensures
            resolved_from(r, self@.records[i as int]),
    {
        let rec = &self.records[i];
        assert(rec@ == self@.records[i as int]);
        ResolvedBinding { id: rec.id, target: rec.target.clone(), phase: rec.phase, description: rec.description.clone() }
    }

    /// The index and match of the record an input triggers at a path.
    fn resolve_index(&self, path: &Path, input: InputSpec) -> (r: Option<(usize, PathMatch)>)
        ensures
            candidate_view(r) == resolve_spec(self@, path@, input),
            r matches Some((i, _)) ==> i < self@.records.len(),
    {
        let input = input.normalize();
        match self.active_exclusive_group() {
            Some(g) => self.best_in_scope(path, input, &BindingScope::Exclusive(g), &BindingOwner::Framework(g)),
            None => {
                match self.best_in_scope(path, input, &BindingScope::Global, &BindingOwner::Application) {
                    Some(b) => Some(b),
                    None => {
                        match self.best_in_modes(path, input) {
                            Some(b) => Some(b),
                            None => self.best_in_scope(path, input, &BindingScope::Default, &BindingOwner::Application),
                        }
                    },
                }
            },
        }
    }

    /// Resolve one input at one route node.
    pub fn resolve_match(&self, path: &Path, input: InputSpec) -> (r: Option<ResolvedBinding>)
        ensures
            match resolve_spec(self@, path@, input) {
                Some((i, _)) => 0 <= i < self@.records.len() && (r matches Some(b) && resolved_from(b, self@.records[i])),
                None => r is None,
            },
    {
        match self.resolve_index(path, input) {
            Some((i, _)) => Some(self.resolved_at(i)),
            None => None,
        }
    }

    /// The best application binding in the newest mode that has one.
    fn best_in_modes(&self, path: &Path, input: InputSpec) -> (r: Option<(usize, PathMatch)>)
        ensures
            candidate_view(r) == modes_best(self@, path@, input, self@.modes.len()),
            r matches Some((i, _)) ==> i < self@.records.len(),
    {
        let n = self.mode_stack.len();
        let mut k: usize = n;
        while k > 0
            invariant
                k <= n,
                n == self@.modes.len(),
                modes_best(self@, path@, input, n as nat) == modes_best(self@, path@, input, k as nat),
            decreases k,
        {
            let scope = BindingScope::Mode(self.mode_stack[k - 1].clone());
            assert(scope@ == ScopeView::Mode(self@.modes[k - 1]));
            match self.best_in_scope(path, input, &scope, &BindingOwner::Application) {
                Some(b) => {
                    return Some(b);
                },
                None => {},
            }
            k = k - 1;
        }
        None
    }
}

// ---------------------------------------------------------------------------
// Removal of application bindings
// ---------------------------------------------------------------------------

/// Which application records a removal selects: every application record
/// that agrees with each part that is present.
pub struct SelectorView {
    /// Normalized input to match.
    pub input: Option<InputSpec>,
    /// Scope to match.
    pub scope: Option<ScopeView>,
    /// Exact path filter text to match.
    pub path: Option<Seq<char>>,
}

/// Whether a selector selects a record. Framework records are never
/// selected.
pub open spec fn selects(sel: SelectorView, r: RecordView) -> bool {
    &&& is_app(r)
    &&& (sel.input matches Some(i) ==> r.input == i)
    &&& (sel.scope matches Some(s) ==> r.scope == s)
    &&& (sel.path matches Some(p) ==> r.path == p)
}

/// The selector of every application record.
pub open spec fn all_application() -> SelectorView {
    SelectorView { input: None, scope: None, path: None }
}

/// The records that satisfy a predicate, in order.
pub open spec fn keep_where(rs: Seq<RecordView>, p: spec_fn(RecordView) -> bool) -> Seq<RecordView>
    decreases rs.len(),
{
    if rs.len() == 0 {
        Seq::empty()
    } else if p(rs.last()) {
        keep_where(rs.drop_last(), p).push(rs.last())
    } else {
        keep_where(rs.drop_last(), p)
    }
}

/// The predicate of records a selector does not select.
pub open spec fn unselected(sel: SelectorView) -> spec_fn(RecordView) -> bool {
    |r: RecordView| !selects(sel, r)
}

/// The records a removal keeps, in order.
pub open spec fn kept(rs: Seq<RecordView>, sel: SelectorView) -> Seq<RecordView> {
    keep_where(rs, unselected(sel))
}

/// The application records, in order.
pub open spec fn app_part(rs: Seq<RecordView>) -> Seq<RecordView> {
    keep_where(rs, |r: RecordView| is_app(r))
}

/// The identifiers and targets a removal takes out, in order.
pub open spec fn taken(rs: Seq<RecordView>, sel: SelectorView) -> Seq<(BindingId, TargetView)>
    decreases rs.len(),
{
    if rs.len() == 0 {
        Seq::empty()
    } else if selects(sel, rs.last()) {
        taken(rs.drop_last(), sel).push((rs.last().id, rs.last().target))
    } else {
        taken(rs.drop_last(), sel)
    }
}

/// The framework records, in order.
pub open spec fn framework_part(rs: Seq<RecordView>) -> Seq<RecordView> {
    kept(rs, all_application())
}

/// The views of removed identifier and target pairs.
pub open spec fn pairs_view(v: Seq<(BindingId, BindingTarget)>) -> Seq<(BindingId, TargetView)> {
    v.map_values(|p: (BindingId, BindingTarget)| (p.0, p.1@))
}

/// The view of an optional borrowed scope.
pub open spec fn opt_scope_view(o: Option<&BindingScope>) -> Option<ScopeView> {
    match o {
        Some(s) => Some(s@),
        None => None,
    }
}

/// The view of an optional string slice.
pub open spec fn opt_str_view(o: Option<&str>) -> Option<Seq<char>> {
    match o {
        Some(s) => Some(s@),
        None => None,
    }
}

/// Every record kept by a predicate is one of the given records and
/// satisfies the predicate.
pub proof fn lemma_keep_where_members(rs: Seq<RecordView>, p: spec_fn(RecordView) -> bool)
    ensures
        keep_where(rs, p).len() <= rs.len(),
        forall|j: int| 0 <= j < keep_where(rs, p).len() ==> rs.contains(#[trigger] keep_where(rs, p)[j]),
        forall|j: int| 0 <= j < keep_where(rs, p).len() ==> p(#[trigger] keep_where(rs, p)[j]),
    decreases rs.len(),
{
    if rs.len() > 0 {
        let d = rs.drop_last();
        lemma_keep_where_members(d, p);
        let k = keep_where(rs, p);
        let kd = keep_where(d, p);
        assert forall|j: int| 0 <= j < k.len() implies rs.contains(#[trigger] k[j]) by {
            if j < kd.len() {
                assert(d.contains(kd[j]));
                let t = choose|t: int| 0 <= t < d.len() && d[t] == kd[j];
                assert(rs[t] == d[t]);
            } else {
                assert(k[j] == rs[rs.len() - 1]);
            }
        }
    }
}

/// Keeping records by a predicate keeps them in order.
pub proof fn lemma_keep_where_ordered(rs: Seq<RecordView>, p: spec_fn(RecordView) -> bool)
    requires
        records_ordered(rs),
    ensures
        records_ordered(keep_where(rs, p)),
    decreases rs.len(),
{
    if rs.len() > 0 {
        let d = rs.drop_last();
        assert forall|i: int, j: int| 0 <= i < j < d.len() implies #[trigger] d[i].insertion_id < #[trigger] d[j].insertion_id
            && d[i].id.value() < d[j].id.value() by {
            assert(d[i] == rs[i] && d[j] == rs[j]);
        }
        lemma_keep_where_ordered(d, p);
        lemma_keep_where_members(d, p);
        let kd = keep_where(d, p);
        let x = rs.last();
        if p(x) {
            let k = keep_where(rs, p);
            assert(k == kd.push(x));
            assert forall|i: int| 0 <= i < kd.len() implies kd[i].insertion_id < x.insertion_id && kd[i].id.value() < x.id.value() by {
                assert(d.contains(kd[i]));
                let t = choose|t: int| 0 <= t < d.len() && d[t] == kd[i];
                assert(rs[t] == d[t]);
                assert(rs[t].insertion_id < rs[rs.len() - 1].insertion_id);
            }
            assert forall|i: int, j: int| 0 <= i < j < k.len() implies #[trigger] k[i].insertion_id < #[trigger] k[j].insertion_id
                && k[i].id.value() < k[j].id.value() by {
                if j < kd.len() {
                    assert(k[i] == kd[i] && k[j] == kd[j]);
                } else {
                    assert(k[i] == kd[i]);
                }
            }
        }
    }
}

/// Removal keeps the registry well formed.
pub proof fn lemma_kept_wf(v: InputMapView, sel: SelectorView)
    requires
        map_wf(v),
    ensures
        map_wf(with_records(v, kept(v.records, sel))),
{
    lemma_keep_where_ordered(v.records, unselected(sel));
    lemma_keep_where_members(v.records, unselected(sel));
    let k = kept(v.records, sel);
    assert forall|j: int| 0 <= j < k.len() implies #[trigger] record_ok(k[j]) && k[j].insertion_id < v.next_insertion && k[j].id.value() < v.next_id by {
        assert(v.records.contains(k[j]));
        let t = choose|t: int| 0 <= t < v.records.len() && v.records[t] == k[j];
        assert(record_ok(v.records[t]));
    }
}

impl InputMap {
    /// Remove the application records a selector selects, returning their
    /// identifiers and targets in order.
    fn remove_selected(&mut self, input: Option<InputSpec>, scope: Option<&BindingScope>, path: Option<&str>) -> (removed: Vec<(BindingId, BindingTarget)>)
        requires
            old(self).wf(),
        ensures
            final(self).wf(),
            final(self)@ == with_records(
                old(self)@,
                kept(old(self)@.records, SelectorView { input, scope: opt_scope_view(scope), path: opt_str_view(path) }),
            ),
            pairs_view(removed@) == taken(old(self)@.records, SelectorView { input, scope: opt_scope_view(scope), path: opt_str_view(path) }),
    {
        let ghost sel = SelectorView { input, scope: opt_scope_view(scope), path: opt_str_view(path) };
        let ghost orig = self@.records;
        let n = self.records.len();
        let mut keep: Vec<BindingRecord> = Vec::new();
        let mut removed: Vec<(BindingId, BindingTarget)> = Vec::new();
        let mut i: usize = 0;
        while i < n
            invariant
                n == orig.len(),
                orig == self@.records,
                sel == (SelectorView { input, scope: opt_scope_view(scope), path: opt_str_view(path) }),
                i <= n,
                records_view(keep@) == kept(orig.subrange(0, i as int), sel),
                pairs_view(removed@) == taken(orig.subrange(0, i as int), sel),
            decreases n - i,
        {
            let r = &self.records[i];
            assert(r@ == orig[i as int]);
            let hit = match r.owner {
                BindingOwner::Application => {
                    let a = match input {
                        Some(x) => r.input == x,
                        None => true,
                    };
                    let b = match scope {
                        Some(s) => r.scope.same_as(s),
                        None => true,
                    };
                    let c = match path {
                        Some(p) => str_eq(r.path_matcher.as_str(), p),
                        None => true,
                    };
                    assert(a == (sel.input matches Some(x) ==> orig[i as int].input == x));
                    assert(b == (sel.scope matches Some(x) ==> orig[i as int].scope == x));
                    assert(c == (sel.path matches Some(x) ==> orig[i as int].path == x));
                    a && b && c
                },
                BindingOwner::Framework(_) => false,
            };
            assert(hit == selects(sel, orig[i as int]));
            let ghost pre = orig.subrange(0, i as int);
            assert(orig.subrange(0, i + 1).drop_last() =~= pre);
            assert(orig.subrange(0, i + 1).last() == orig[i as int]);
            if hit {
                let ghost before = removed@;
                removed.push((r.id, r.target.clone()));
                assert(pairs_view(removed@) =~= pairs_view(before).push((orig[i as int].id, orig[i as int].target)));
            } else {
                let ghost before = keep@;
                keep.push(r.clone());
                assert(records_view(keep@) =~= records_view(before).push(orig[i as int]));
            }
            i = i + 1;
        }
        assert(orig.subrange(0, n as int) =~= orig);
        proof {
            lemma_kept_wf(old(self)@, sel);
        }
        self.records = keep;
        proof {
            assert(self@.records == kept(orig, sel));
            assert(self@.modes =~= old(self)@.modes);
            assert(self@.frames =~= old(self)@.frames);
            assert(self@ =~= with_records(old(self)@, kept(orig, sel)));
        }
        removed
    }

    /// Remove the application bindings for an input that agree with a
    /// selector, returning their identifiers and targets in order.
    pub fn unbind_input(&mut self, input: InputSpec, selector: &BindingSelector) -> (removed: Vec<(BindingId, BindingTarget)>)
        requires
            old(self).wf(),
        ensures
            final(self).wf(),
            final(self)@ == with_records(old(self)@, kept(old(self)@.records, selector_view(input, selector))),
            pairs_view(removed@) == taken(old(self)@.records, selector_view(input, selector)),
    {
        let input = input.normalize();
        let scope = match &selector.scope {
            Some(s) => Some(s),
            None => None,
        };
        self.remove_selected(Some(input), scope, selector.path_filter)
    }

    /// Remove all application bindings and reset the application modes,
    /// returning the removed identifiers and targets in order.
    pub fn clear_application(&mut self) -> (removed: Vec<(BindingId, BindingTarget)>)
        requires
            old(self).wf(),
        ensures
            final(self).wf(),
            final(self)@ == (InputMapView {
                records: framework_part(old(self)@.records),
                modes: Seq::empty(),
                ..old(self)@
            }),
            pairs_view(removed@) == taken(old(self)@.records, all_application()),
    {
        let removed = self.remove_selected(None, None, None);
        self.mode_stack = Vec::new();
        proof {
            assert(self@.modes =~= Seq::<Seq<char>>::empty());
            assert(self@.frames =~= old(self)@.frames);
        }
        removed
    }

    /// Remove one application binding, returning its target; an unknown
    /// identifier removes nothing.
    ///
    /// Fails with `InvalidOperation`, leaving the registry unchanged, when
    /// the binding is framework-owned.
    pub fn unbind(&mut self, id: BindingId) -> (r: Result<Option<BindingTarget>, Error>)
        requires
            old(self).wf(),
        ensures
            final(self).wf(),
            match find_id(old(self)@.records, id) {
                None => r matches Ok(None) && final(self)@ == old(self)@,
                Some(i) => if is_app(old(self)@.records[i]) {
                    &&& r matches Ok(Some(t)) && t@ == old(self)@.records[i].target
                    &&& final(self)@ == with_records(old(self)@, old(self)@.records.remove(i))
                } else {
                    r matches Err(e) && e is InvalidOperation && final(self)@ == old(self)@
                },
            },
    {
        proof {
            lemma_find_id(self@.records, id);
        }
        let n = self.records.len();
        let mut i: usize = 0;
        while i < n
            invariant
                n == self@.records.len(),
                i <= n,
                self@ == old(self)@,
                map_wf(self@),
                forall|j: int| 0 <= j < i ==> self@.records[j].id != id,
            decreases n - i,
        {
            if self.records[i].id == id {
                proof {
                    assert(self@.records[i as int].id == id);
                    lemma_find_id(self@.records, id);
                }
                match self.records[i].owner {
                    BindingOwner::Application => {},
                    BindingOwner::Framework(_) => {
                        assert(!is_app(self@.records[i as int]));
                        return Err(Error::InvalidOperation("binding is framework-owned".to_string()));
                    },
                }
                assert(is_app(self@.records[i as int]));
                let ghost orig = self@.records;
                let rec = self.records.remove(i);
                proof {
                    assert(rec@ == orig[i as int]);
                    assert(self@.records =~= orig.remove(i as int));
                    assert(self@.modes =~= old(self)@.modes);
                    assert(self@.frames =~= old(self)@.frames);
                    let f = orig.remove(i as int);
                    assert forall|a: int| 0 <= a < f.len() implies f[a] == orig[if a < i { a } else { a + 1 }] by {}
                    assert forall|a: int, b: int| 0 <= a < b < f.len() implies f[a].insertion_id < f[b].insertion_id by {
                        assert(f[a] == orig[if a < i { a } else { a + 1 }]);
                        assert(f[b] == orig[if b < i { b } else { b + 1 }]);
                    }
                    assert forall|a: int, b: int| 0 <= a < f.len() && 0 <= b < f.len() && a != b implies f[a].id != f[b].id by {
                        assert(f[a] == orig[if a < i { a } else { a + 1 }]);
                        assert(f[b] == orig[if b < i { b } else { b + 1 }]);
                    }
                    assert forall|a: int| 0 <= a < f.len() implies #[trigger] record_ok(f[a]) && f[a].insertion_id < self@.next_insertion && f[a].id.value() < self@.next_id by {
                        assert(f[a] == orig[if a < i { a } else { a + 1 }]);
                    }
                }
                return Ok(Some(rec.target));
            }
            i = i + 1;
        }
        proof {
            lemma_find_id(self@.records, id);
        }
        Ok(None)
    }
}

/// The selector that an input and a binding selector describe.
pub open spec fn selector_view(input: InputSpec, selector: &BindingSelector) -> SelectorView {
    SelectorView {
        input: Some(normalize_input(input)),
        scope: match selector.scope {
            Some(s) => Some(s@),
            None => None,
        },
        path: opt_str_view(selector.path_filter),
    }
}

// ---------------------------------------------------------------------------
// Registration
// ---------------------------------------------------------------------------

/// The record that a registration stores.
pub open spec fn new_record(
    id: BindingId,
    insertion: u64,
    input: InputSpec,
    owner: OwnerView,
    o: &BindingOptions,
    target: TargetView,
) -> RecordView {
    RecordView {
        id,
        input: normalize_input(input),
        owner,
        scope: o.scope@,
        description: o.description@,
        source: opt_string_view(o.source),
        target,
        insertion_id: insertion,
        phase: o.phase,
        path: options_path(o),
    }
}

/// The application slot of a record: its input, scope and exact path filter.
pub open spec fn slot_of(r: RecordView) -> SelectorView {
    SelectorView { input: Some(r.input), scope: Some(r.scope), path: Some(r.path) }
}

/// The registry with one more record and both counters advanced.
pub open spec fn appended(v: InputMapView, rec: RecordView) -> InputMapView {
    InputMapView {
        records: v.records.push(rec),
        next_id: (v.next_id + 1) as u64,
        next_insertion: (v.next_insertion + 1) as u64,
        ..v
    }
}

/// The registry after an application binding replaces the bindings in its
/// slot.
pub open spec fn replaced(v: InputMapView, rec: RecordView) -> InputMapView {
    appended(with_records(v, kept(v.records, slot_of(rec))), rec)
}

/// Whether the registry has run out of identifiers.
pub open spec fn exhausted(v: InputMapView) -> bool {
    v.next_id == u64::MAX || v.next_insertion == u64::MAX
}

/// Whether an application registration is refused: its scope does not
/// admit its path filter, its description is blank, or the identifiers are
/// exhausted.
pub open spec fn replace_refused(v: InputMapView, o: &BindingOptions) -> bool {
    !app_scope_ok(o.scope@, options_path(o)) || blank(o.description@) || exhausted(v)
}

/// The position of the first framework record of a group for an input and
/// exact path filter.
pub open spec fn find_framework(rs: Seq<RecordView>, g: Seq<char>, input: InputSpec, path: Seq<char>) -> Option<int>
    decreases rs.len(),
{
    if rs.len() == 0 {
        None
    } else {
        match find_framework(rs.drop_last(), g, input, path) {
            Some(i) => Some(i),
            None => {
                let r = rs.last();
                if r.owner == OwnerView::Framework(g) && r.input == input && r.path == path {
                    Some(rs.len() - 1)
                } else {
                    None
                }
            },
        }
    }
}

/// Whether a stored framework record is the same registration.
pub open spec fn same_registration(r: RecordView, o: &BindingOptions, a: ActionView) -> bool {
    &&& r.scope == o.scope@
    &&& r.description == o.description@
    &&& r.target == TargetView::Command(a)
    &&& r.phase == o.phase
}

/// Whether a framework registration is refused: a blank description, a
/// scope other than the group's exclusive scope, a conflicting registration
/// in the same slot, or exhausted identifiers.
pub open spec fn framework_refused(v: InputMapView, g: Seq<char>, input: InputSpec, o: &BindingOptions, a: ActionView) -> bool {
    ||| blank(o.description@)
    ||| o.scope@ != ScopeView::Exclusive(g)
    ||| match find_framework(v.records, g, normalize_input(input), options_path(o)) {
        Some(i) => !same_registration(v.records[i], o, a),
        None => exhausted(v),
    }
}

/// Facts about the first framework record in a slot.
pub proof fn lemma_find_framework(rs: Seq<RecordView>, g: Seq<char>, input: InputSpec, path: Seq<char>)
    ensures
        match find_framework(rs, g, input, path) {
            Some(i) => 0 <= i < rs.len() && rs[i].owner == OwnerView::Framework(g) && rs[i].input == input && rs[i].path == path
                && forall|j: int| 0 <= j < i ==> !(rs[j].owner == OwnerView::Framework(g) && rs[j].input == input && rs[j].path == path),
            None => forall|j: int| 0 <= j < rs.len() ==> !(rs[j].owner == OwnerView::Framework(g) && rs[j].input == input && rs[j].path == path),
        },
    decreases rs.len(),
{
    if rs.len() > 0 {
        let d = rs.drop_last();
        lemma_find_framework(d, g, input, path);
        assert forall|j: int| 0 <= j < d.len() implies d[j] == rs[j] by {}
    }
}

/// Appending a fresh, well-formed record keeps the registry well formed.
pub proof fn lemma_appended_wf(v: InputMapView, rec: RecordView)
    requires
        map_wf(v),
        !exhausted(v),
        rec.id.value() == v.next_id,
        rec.insertion_id == v.next_insertion,
        record_ok(rec),
    ensures
        map_wf(appended(v, rec)),
{
    let a = appended(v, rec);
    assert forall|i: int| 0 <= i < v.records.len() implies #[trigger] a.records[i] == v.records[i] by {}
    assert(a.records[v.records.len() as int] == rec);
    assert forall|i: int, j: int| 0 <= i < j < a.records.len() implies #[trigger] a.records[i].insertion_id < #[trigger] a.records[j].insertion_id
        && a.records[i].id.value() < a.records[j].id.value() by {
        if j < v.records.len() {
            assert(a.records[i] == v.records[i] && a.records[j] == v.records[j]);
        } else {
            assert(a.records[i] == v.records[i]);
            assert(v.records[i].id.value() < v.next_id);
            assert(v.records[i].insertion_id < v.next_insertion);
        }
    }
}

/// Validate an application binding scope against its path filter text:
/// global bindings need a filter anchored at both ends, named modes need a
/// name, and exclusive scopes belong to the framework.
///
/// Fails with `InvalidOperation` when the scope does not admit the filter.
pub fn validate_application_scope(scope: &BindingScope, path_filter: &str) -> (r: Result<(), Error>)
    ensures
        r is Ok <==> app_scope_ok(scope@, path_filter@),
        r matches Err(e) ==> e is InvalidOperation,
{
    match scope {
        BindingScope::Global => {
            let v = str_to_chars(path_filter);
            if !(v.len() > 0 && v[0] == '/' && v[v.len() - 1] == '/') {
                return Err(Error::InvalidOperation("global bindings require a start- and end-anchored path".to_string()));
            }
        },
        BindingScope::Mode(m) => {
            let v = str_to_chars(m.as_str());
            if v.len() == 0 {
                return Err(Error::InvalidOperation("named binding mode cannot be empty".to_string()));
            }
        },
        BindingScope::Default => {},
        BindingScope::Exclusive(_) => {
            return Err(Error::InvalidOperation("application bindings cannot use an exclusive scope".to_string()));
        },
    }
    Ok(())
}

/// Validate required user-facing binding text.
///
/// Fails with `InvalidOperation` when the description is empty once
/// whitespace is trimmed.
pub fn validate_description(description: &str) -> (r: Result<(), Error>)
    ensures
        r is Ok <==> !blank(description@),
        r matches Err(e) ==> e is InvalidOperation,
{
    if is_blank(description) {
        Err(Error::InvalidOperation("binding description cannot be empty".to_string()))
    } else {
        Ok(())
    }
}

impl InputMap {
    /// Store one application binding, replacing the application bindings
    /// with the same input, scope and exact path filter. Returns the new
    /// identifier and the replaced identifiers and targets in order.
    ///
    /// Fails with `InvalidOperation`, leaving the registry unchanged, when
    /// the scope does not admit the path filter (global bindings need a
    /// filter anchored at both ends, modes need a name, exclusive scopes are
    /// the framework's), the description is blank, or the identifiers are
    /// exhausted.
    pub fn replace_application_action(&mut self, input: InputSpec, options: BindingOptions, target: BindingTarget) -> (r: Result<(BindingId, Vec<(BindingId, BindingTarget)>), Error>)
        requires
            old(self).wf(),
        ensures
            final(self).wf(),
            r is Err <==> replace_refused(old(self)@, &options),
            r is Err ==> final(self)@ == old(self)@ && r->Err_0 is InvalidOperation,
            r matches Ok((id, removed)) ==> {
                let rec = new_record(id, old(self)@.next_insertion, input, OwnerView::Application, &options, target@);
                &&& id.value() == old(self)@.next_id
                &&& final(self)@ == replaced(old(self)@, rec)
                &&& pairs_view(removed@) == taken(old(self)@.records, slot_of(rec))
            },
    {
        let path_text: String = match &options.path {
            Some(f) => f.filter().clone(),
            None => String::new(),
        };
        assert(path_text@ == options_path(&options));
        match validate_application_scope(&options.scope, path_text.as_str()) {
            Ok(()) => {},
            Err(e) => return Err(e),
        }
        match validate_description(options.description.as_str()) {
            Ok(()) => {},
            Err(e) => return Err(e),
        }
        if self.next_id == u64::MAX || self.next_insertion_id == u64::MAX {
            return Err(Error::InvalidOperation("binding identifier space exhausted".to_string()));
        }
        let id = BindingId(self.next_id);
        let insertion = self.next_insertion_id;
        let input_n = input.normalize();
        let ghost rec = new_record(id, insertion, input, OwnerView::Application, &options, target@);
        let removed = self.remove_selected(Some(input_n), Some(&options.scope), Some(path_text.as_str()));
        let ghost mid = self@;
        let path_matcher = match options.path {
            Some(f) => f,
            None => PathFilter::match_all(),
        };
        let record = BindingRecord {
            id,
            input: input_n,
            owner: BindingOwner::Application,
            scope: options.scope,
            description: options.description,
            source: options.source,
            target,
            insertion_id: insertion,
            phase: options.phase,
            path_matcher,
        };
        assert(record@ == rec);
        self.records.push(record);
        self.next_id = self.next_id + 1;
        self.next_insertion_id = self.next_insertion_id + 1;
        proof {
            crate::event::law_normalize_input_idempotent(input);
            lemma_appended_wf(mid, rec);
            assert(self@.records =~= mid.records.push(rec));
            assert(self@ =~= appended(mid, rec));
        }
        Ok((id, removed))
    }

    /// Store one framework binding in a group's exclusive scope.
    /// Registering the same binding again returns its identifier and
    /// changes nothing.
    ///
    /// Fails with `InvalidOperation`, leaving the registry unchanged, when
    /// the description is blank, the scope is not the group's exclusive
    /// scope, another registration holds the same group, input and path
    /// filter, or the identifiers are exhausted.
    pub fn bind_framework(&mut self, group: FrameworkBindingGroup, input: InputSpec, options: BindingOptions, action: CommandAction) -> (r: Result<BindingId, Error>)
        requires
            old(self).wf(),
        ensures
            final(self).wf(),
            r is Err <==> framework_refused(old(self)@, group@, input, &options, action@),
            r is Err ==> final(self)@ == old(self)@ && r->Err_0 is InvalidOperation,
            r matches Ok(id) ==> match find_framework(old(self)@.records, group@, normalize_input(input), options_path(&options)) {
                Some(i) => id == old(self)@.records[i].id && final(self)@ == old(self)@,
                None => id.value() == old(self)@.next_id && final(self)@ == appended(
                    old(self)@,
                    new_record(id, old(self)@.next_insertion, input, OwnerView::Framework(group@), &options, TargetView::Command(action@)),
                ),
            },
    {
        match validate_description(options.description.as_str()) {
            Ok(()) => {},
            Err(e) => return Err(e),
        }
        let in_group = match &options.scope {
            BindingScope::Exclusive(g) => g.same_as(group),
            _ => false,
        };
        if !in_group {
            return Err(Error::InvalidOperation("framework bindings use their group's exclusive scope".to_string()));
        }
        let path_text: String = match &options.path {
            Some(f) => f.filter().clone(),
            None => String::new(),
        };
        assert(path_text@ == options_path(&options));
        let input_n = input.normalize();
        let ghost gv = group@;
        let ghost pv = options_path(&options);
        proof {
            lemma_find_framework(self@.records, gv, input_n, pv);
        }
        let n = self.records.len();
        let mut i: usize = 0;
        while i < n
            invariant
                n == self@.records.len(),
                i <= n,
                self@ == old(self)@,
                map_wf(self@),
                !blank(options.description@),
                options.scope@ == ScopeView::Exclusive(gv),
                gv == group@,
                pv == path_text@,
                pv == options_path(&options),
                input_n == normalize_input(input),
                forall|j: int| 0 <= j < i ==> !(self@.records[j].owner == OwnerView::Framework(gv) && self@.records[j].input == input_n && self@.records[j].path == pv),
            decreases n - i,
        {
            let rec = &self.records[i];
            assert(rec@ == self@.records[i as int]);
            let same_slot = rec.owner.same_as(&BindingOwner::Framework(group)) && rec.input == input_n
                && str_eq(rec.path_matcher.as_str(), path_text.as_str());
            if same_slot {
                proof {
                    lemma_find_framework(self@.records, gv, input_n, pv);
                }
                let same = rec.scope.same_as(&options.scope) && string_eq(&rec.description, &options.description)
                    && match &rec.target {
                        BindingTarget::Command(a) => a.same_as(&action),
                        BindingTarget::Script(_) => false,
                    } && rec.phase == options.phase;
                assert(self@.records[i as int].owner == OwnerView::Framework(gv));
                assert(self@.records[i as int].input == input_n);
                assert(self@.records[i as int].path == pv);
                assert(find_framework(self@.records, gv, input_n, pv) == Some(i as int));
                assert(same == same_registration(self@.records[i as int], &options, action@));
                if same {
                    return Ok(rec.id);
                }
                return Err(Error::InvalidOperation("conflicting framework binding".to_string()));
            }
            i = i + 1;
        }
        proof {
            lemma_find_framework(self@.records, gv, input_n, pv);
        }
        if self.next_id == u64::MAX || self.next_insertion_id == u64::MAX {
            return Err(Error::InvalidOperation("binding identifier space exhausted".to_string()));
        }
        let id = BindingId(self.next_id);
        let insertion = self.next_insertion_id;
        let ghost rec = new_record(id, insertion, input, OwnerView::Framework(group@), &options, TargetView::Command(action@));
        let path_matcher = match options.path {
            Some(f) => f,
            None => PathFilter::match_all(),
        };
        let record = BindingRecord {
            id,
            input: input_n,
            owner: BindingOwner::Framework(group),
            scope: options.scope,
            description: options.description,
            source: options.source,
            target: BindingTarget::Command(action),
            insertion_id: insertion,
            phase: options.phase,
            path_matcher,
        };
        assert(record@ == rec);
        self.records.push(record);
        self.next_id = self.next_id + 1;
        self.next_insertion_id = self.next_insertion_id + 1;
        proof {
            crate::event::law_normalize_input_idempotent(input);
            lemma_appended_wf(old(self)@, rec);
            assert(self@.records =~= old(self)@.records.push(rec));
            assert(self@.modes =~= old(self)@.modes);
            assert(self@.frames =~= old(self)@.frames);
            assert(self@ =~= appended(old(self)@, rec));
        }
        Ok(id)
    }
}

// ---------------------------------------------------------------------------
// Diagnostics
// ---------------------------------------------------------------------------

/// The views of a route of paths.
pub open spec fn route_view(route: Seq<Path>) -> Seq<Seq<Seq<char>>> {
    route.map_values(|p: Path| p@)
}

/// The first of the first `k` route paths that a filter matches.
pub open spec fn first_route_match(f: Seq<char>, route: Seq<Seq<Seq<char>>>, k: nat) -> Option<int>
    decreases k,
{
    if k == 0 {
        None
    } else {
        match first_route_match(f, route, (k - 1) as nat) {
            Some(i) => Some(i),
            None => if filter_match(f, route[k - 1]) is Some { Some(k - 1) } else { None },
        }
    }
}

/// The first of the first `k` route paths where an input resolves, with
/// the record and match it resolves to there.
pub open spec fn first_winner(v: InputMapView, route: Seq<Seq<Seq<char>>>, input: InputSpec, k: nat) -> Option<(int, int, PathMatch)>
    decreases k,
{
    if k == 0 {
        None
    } else {
        match first_winner(v, route, input, (k - 1) as nat) {
            Some(w) => Some(w),
            None => match resolve_spec(v, route[k - 1], input) {
                Some((i, m)) => Some((k - 1, i, m)),
                None => None,
            },
        }
    }
}

/// Why a record that its scope admits does or does not win along a route,
/// from the target node to the root.
pub open spec fn route_state(v: InputMapView, id: BindingId, rec: RecordView, route: Seq<Seq<Seq<char>>>) -> Seq<char> {
    match first_route_match(rec.path, route, route.len()) {
        None => "path does not match route"@,
        Some(rr) => match first_winner(v, route, rec.input, route.len()) {
            None => "not eligible in the active scope"@,
            Some((wr, wi, wm)) => if v.records[wi].id == id {
                "effective"@
            } else if wr < rr {
                "shadowed at an earlier route node"@
            } else if v.records[wi].scope != rec.scope {
                "shadowed by a higher-priority scope"@
            } else if score_gt(wm, filter_match(rec.path, route[wr]).unwrap()) {
                "shadowed by a more specific path"@
            } else {
                "shadowed by later insertion"@
            },
        },
    }
}

/// The state of one binding along a route: missing, blocked by an active
/// exclusive group, inactive, or how it fares against the winners.
pub open spec fn diagnostic_spec(v: InputMapView, id: BindingId, route: Seq<Seq<Seq<char>>>) -> Seq<char> {
    match find_id(v.records, id) {
        None => "missing"@,
        Some(k) => {
            let rec = v.records[k];
            match active_group(v) {
                Some(g) => if rec.owner == OwnerView::Framework(g) && rec.scope == ScopeView::Exclusive(g) {
                    route_state(v, id, rec, route)
                } else {
                    "blocked by exclusive group "@ + g
                },
                None => match rec.scope {
                    ScopeView::Exclusive(g) => "inactive exclusive group "@ + g,
                    ScopeView::Mode(m) => if v.modes.contains(m) {
                        route_state(v, id, rec, route)
                    } else {
                        "inactive mode "@ + m
                    },
                    _ => route_state(v, id, rec, route),
                },
            }
        },
    }
}

/// Once some admitted record among the first `k` matches a path, the best
/// among them exists.
pub proof fn lemma_best_prefix_some(
    rs: Seq<RecordView>,
    path: Seq<Seq<char>>,
    input: InputSpec,
    scope: ScopeView,
    owner: OwnerView,
    k: nat,
    j: int,
)
    requires
        0 <= j < k <= rs.len(),
        admits(rs[j], input, scope, owner),
        filter_match(rs[j].path, path) is Some,
    ensures
        best_prefix(rs, path, input, scope, owner, k) is Some,
    decreases k,
{
    if j < k - 1 {
        lemma_best_prefix_some(rs, path, input, scope, owner, (k - 1) as nat, j);
    }
}

/// A mode on the stack with a matching binding makes the mode pass succeed.
pub proof fn lemma_modes_best_some(v: InputMapView, path: Seq<Seq<char>>, input: InputSpec, k: nat, t: int, j: int)
    requires
        0 <= t < k <= v.modes.len(),
        0 <= j < v.records.len(),
        admits(v.records[j], input, ScopeView::Mode(v.modes[t]), OwnerView::Application),
        filter_match(v.records[j].path, path) is Some,
    ensures
        modes_best(v, path, input, k) is Some,
    decreases k,
{
    if t == k - 1 {
        lemma_best_prefix_some(v.records, path, input, ScopeView::Mode(v.modes[t]), OwnerView::Application, v.records.len(), j);
    } else {
        lemma_modes_best_some(v, path, input, (k - 1) as nat, t, j);
    }
}

/// Whether the active scopes admit a record.
pub open spec fn scope_active(v: InputMapView, rec: RecordView) -> bool {
    match active_group(v) {
        Some(g) => rec.owner == OwnerView::Framework(g) && rec.scope == ScopeView::Exclusive(g),
        None => match rec.scope {
            ScopeView::Exclusive(_) => false,
            ScopeView::Mode(m) => v.modes.contains(m),
            _ => true,
        },
    }
}

/// A record whose scope is active resolves to some binding wherever its
/// filter matches.
pub proof fn lemma_resolve_some(v: InputMapView, k: int, path: Seq<Seq<char>>)
    requires
        map_wf(v),
        0 <= k < v.records.len(),
        scope_active(v, v.records[k]),
        filter_match(v.records[k].path, path) is Some,
    ensures
        resolve_spec(v, path, v.records[k].input) is Some,
{
    let rec = v.records[k];
    assert(record_ok(rec));
    let input = normalize_input(rec.input);
    assert(input == rec.input);
    match active_group(v) {
        Some(g) => {
            lemma_best_prefix_some(v.records, path, input, ScopeView::Exclusive(g), OwnerView::Framework(g), v.records.len(), k);
        },
        None => {
            assert(rec.owner == OwnerView::Application);
            match rec.scope {
                ScopeView::Global => {
                    lemma_best_prefix_some(v.records, path, input, ScopeView::Global, OwnerView::Application, v.records.len(), k);
                },
                ScopeView::Mode(m) => {
                    let t = choose|t: int| 0 <= t < v.modes.len() && v.modes[t] == m;
                    lemma_modes_best_some(v, path, input, v.modes.len(), t, k);
                },
                ScopeView::Default => {
                    lemma_best_prefix_some(v.records, path, input, ScopeView::Default, OwnerView::Application, v.records.len(), k);
                },
                ScopeView::Exclusive(_) => {},
            }
        },
    }
}

/// Facts about the first matching route path.
pub proof fn lemma_first_route_match(f: Seq<char>, route: Seq<Seq<Seq<char>>>, k: nat)
    requires
        k <= route.len(),
    ensures
        match first_route_match(f, route, k) {
            Some(i) => 0 <= i < k && filter_match(f, route[i]) is Some && forall|q: int| 0 <= q < i ==> filter_match(f, #[trigger] route[q]) is None,
            None => forall|q: int| 0 <= q < k ==> filter_match(f, #[trigger] route[q]) is None,
        },
    decreases k,
{
    if k > 0 {
        lemma_first_route_match(f, route, (k - 1) as nat);
    }
}

/// Facts about the first route path where an input resolves.
pub proof fn lemma_first_winner(v: InputMapView, route: Seq<Seq<Seq<char>>>, input: InputSpec, k: nat)
    requires
        k <= route.len(),
    ensures
        match first_winner(v, route, input, k) {
            Some((wr, wi, wm)) => 0 <= wr < k && resolve_spec(v, route[wr], input) == Some((wi, wm))
                && forall|q: int| 0 <= q < wr ==> resolve_spec(v, #[trigger] route[q], input) is None,
            None => forall|q: int| 0 <= q < k ==> resolve_spec(v, #[trigger] route[q], input) is None,
        },
    decreases k,
{
    if k > 0 {
        lemma_first_winner(v, route, input, (k - 1) as nat);
    }
}

impl InputMap {
    /// Explain one record's state along a route from the target node to the
    /// root.
    pub fn diagnostic_state(&self, id: BindingId, route: &[Path]) -> (r: String)
        requires
            self.wf(),
        ensures
            r@ == diagnostic_spec(self@, id, route_view(route@)),
    {
        let ghost rv = route_view(route@);
        proof {
            lemma_find_id(self@.records, id);
        }
        let n = self.records.len();
        let mut k: usize = 0;
        while k < n
            invariant
                n == self@.records.len(),
                k <= n,
                forall|j: int| 0 <= j < k ==> self@.records[j].id != id,
            ensures
                k <= n,
                forall|j: int| 0 <= j < k ==> self@.records[j].id != id,
                k < n ==> self@.records[k as int].id == id,
            decreases n - k,
        {
            if self.records[k].id == id {
                assert(self.records@[k as int]@ == self@.records[k as int]);
                break;
            }
            k = k + 1;
        }
        proof {
            lemma_find_id(self@.records, id);
        }
        if k == n {
            return "missing".to_string();
        }
        assert(self.records@[k as int]@ == self@.records[k as int]);
        assert(find_id(self@.records, id) == Some(k as int));
        let rec = &self.records[k];
        match self.active_exclusive_group() {
            Some(g) => {
                let admitted = rec.owner.same_as(&BindingOwner::Framework(g))
                    && match &rec.scope {
                        BindingScope::Exclusive(h) => h.same_as(g),
                        _ => false,
                    };
                if !admitted {
                    let mut out = "blocked by exclusive group ".to_string();
                    out.append(g.as_str());
                    return out;
                }
            },
            None => {
                match &rec.scope {
                    BindingScope::Exclusive(g) => {
                        let mut out = "inactive exclusive group ".to_string();
                        out.append(g.as_str());
                        return out;
                    },
                    BindingScope::Mode(m) => {
                        let mut found = false;
                        let mut t: usize = 0;
                        while t < self.mode_stack.len()
                            invariant
                                t <= self@.modes.len(),
                                found == exists|q: int| 0 <= q < t && self@.modes[q] == m@,
                            decreases self@.modes.len() - t,
                        {
                            assert(self.mode_stack@[t as int]@ == self@.modes[t as int]);
                            if string_eq(&self.mode_stack[t], m) {
                                found = true;
                            }
                            t = t + 1;
                        }
                        if !found {
                            let mut out = "inactive mode ".to_string();
                            out.append(m.as_str());
                            return out;
                        }
                        assert(self@.modes.contains(m@));
                    },
                    _ => {},
                }
            },
        }
        assert(scope_active(self@, self@.records[k as int]));
        self.route_state_exec(k, id, route)
    }

    /// Compare a record whose scope is active with the winners along a
    /// route.
    fn route_state_exec(&self, k: usize, id: BindingId, route: &[Path]) -> (r: String)
        requires
            self.wf(),
            k < self@.records.len(),
            self@.records[k as int].id == id,
            scope_active(self@, self@.records[k as int]),
        ensures
            r@ == route_state(self@, id, self@.records[k as int], route_view(route@)),
    {
        let ghost rv = route_view(route@);
        let ghost recv = self@.records[k as int];
        let rec = &self.records[k];
        assert(rec@ == recv);
        let nr = route.len();
        let mut rr: usize = 0;
        while rr < nr
            invariant
                nr == rv.len(),
                rv == route_view(route@),
                rec@ == recv,
                rr <= nr,
                forall|q: int| 0 <= q < rr ==> filter_match(recv.path, #[trigger] rv[q]) is None,
            ensures
                rr <= nr,
                forall|q: int| 0 <= q < rr ==> filter_match(recv.path, #[trigger] rv[q]) is None,
                rr < nr ==> filter_match(recv.path, rv[rr as int]) is Some,
            decreases nr - rr,
        {
            assert(route@[rr as int]@ == rv[rr as int]);
            if rec.path_matcher.check_match(&route[rr]).is_some() {
                break;
            }
            rr = rr + 1;
        }
        proof {
            lemma_first_route_match(recv.path, rv, rv.len());
        }
        if rr == nr {
            return "path does not match route".to_string();
        }
        assert(first_route_match(recv.path, rv, rv.len()) == Some(rr as int));
        let mut wr: usize = 0;
        let mut winner: Option<(usize, PathMatch)> = None;
        while wr < nr
            invariant_except_break
                winner is None,
            invariant
                nr == rv.len(),
                rv == route_view(route@),
                rec@ == recv,
                wr <= nr,
                forall|q: int| 0 <= q < wr ==> resolve_spec(self@, #[trigger] rv[q], recv.input) is None,
            ensures
                wr <= nr,
                forall|q: int| 0 <= q < wr ==> resolve_spec(self@, #[trigger] rv[q], recv.input) is None,
                winner is None ==> wr == nr,
                winner matches Some((wi, wm)) ==> wr < nr && wi < self@.records.len() && resolve_spec(self@, rv[wr as int], recv.input) == Some((wi as int, wm)),
            decreases nr - wr,
        {
            assert(route@[wr as int]@ == rv[wr as int]);
            let w = self.resolve_index(&route[wr], rec.input);
            if w.is_some() {
                winner = w;
                break;
            }
            wr = wr + 1;
        }
        proof {
            lemma_first_winner(self@, rv, recv.input, rv.len());
            lemma_resolve_some(self@, k as int, rv[rr as int]);
        }
        match winner {
            None => {
                "not eligible in the active scope".to_string()
            },
            Some((wi, wm)) => {
                assert(first_winner(self@, rv, recv.input, rv.len()) == Some((wr as int, wi as int, wm)));
                let wrec = &self.records[wi];
                assert(wrec@ == self@.records[wi as int]);
                if wrec.id == id {
                    return "effective".to_string();
                }
                if wr < rr {
                    return "shadowed at an earlier route node".to_string();
                }
                if !wrec.scope.same_as(&rec.scope) {
                    return "shadowed by a higher-priority scope".to_string();
                }
                assert(wr == rr);
                assert(route@[wr as int]@ == rv[wr as int]);
                match rec.path_matcher.check_match(&route[wr]) {
                    Some(m) => {
                        if wm.outranks(&m) {
                            "shadowed by a more specific path".to_string()
                        } else {
                            "shadowed by later insertion".to_string()
                        }
                    },
                    None => vstd::pervasive::unreached(),
                }
            },
        }
    }
}

// ---------------------------------------------------------------------------
// Snapshots of application state
// ---------------------------------------------------------------------------

/// Whether a snapshot can be restored into a registry: its records are
/// ordered, well-formed application records below the registry's counters,
/// and each lies on the same side of every framework record of the registry
/// in insertion order and in identifier order. A snapshot of the registry's
/// own earlier state has these properties.
pub open spec fn restorable(v: InputMapView, s: SnapshotView) -> bool {
    &&& records_ordered(s.records)
    &&& forall|j: int| 0 <= j < s.records.len() ==> is_app(#[trigger] s.records[j]) && record_ok(s.records[j])
        && s.records[j].insertion_id < v.next_insertion && s.records[j].id.value() < v.next_id
    &&& forall|i: int, j: int| 0 <= i < v.records.len() && 0 <= j < s.records.len() && is_framework(#[trigger] v.records[i]) ==> {
        let f = v.records[i];
        let r = #[trigger] s.records[j];
        (f.insertion_id < r.insertion_id && f.id.value() < r.id.value())
            || (f.insertion_id > r.insertion_id && f.id.value() > r.id.value())
    }
}

/// The registry after a restore: framework records and application records
/// of the snapshot in insertion order, and the snapshot's modes.
pub open spec fn restored(v: InputMapView, s: SnapshotView, records: Seq<RecordView>) -> bool {
    &&& framework_part(records) == framework_part(v.records)
    &&& app_part(records) == s.records
    &&& records_ordered(records)
    &&& records.len() == framework_part(v.records).len() + s.records.len()
}

impl InputMap {
    /// Snapshot only application-owned registry state.
    pub fn snapshot_application(&self) -> (s: ApplicationBindingSnapshot)
        requires
            self.wf(),
        ensures
            s@.records == app_part(self@.records),
            s@.modes == self@.modes,
            restorable(self@, s@),
    {
        let ghost orig = self@.records;
        let n = self.records.len();
        let mut out: Vec<BindingRecord> = Vec::new();
        let mut i: usize = 0;
        while i < n
            invariant
                n == orig.len(),
                orig == self@.records,
                i <= n,
                records_view(out@) == app_part(orig.subrange(0, i as int)),
            decreases n - i,
        {
            let r = &self.records[i];
            assert(r@ == orig[i as int]);
            assert(orig.subrange(0, i + 1).drop_last() =~= orig.subrange(0, i as int));
            assert(orig.subrange(0, i + 1).last() == orig[i as int]);
            match r.owner {
                BindingOwner::Application => {
                    let ghost before = out@;
                    out.push(r.clone());
                    assert(records_view(out@) =~= records_view(before).push(orig[i as int]));
                },
                BindingOwner::Framework(_) => {},
            }
            i = i + 1;
        }
        assert(orig.subrange(0, n as int) =~= orig);
        let s = ApplicationBindingSnapshot { records: out, mode_stack: clone_strings(&self.mode_stack) };
        proof {
            let ap = app_part(orig);
            lemma_keep_where_ordered(orig, |r: RecordView| is_app(r));
            lemma_keep_where_members(orig, |r: RecordView| is_app(r));
            assert(s@.records == ap);
            assert forall|j: int| 0 <= j < ap.len() implies is_app(#[trigger] ap[j]) && record_ok(ap[j])
                && ap[j].insertion_id < self@.next_insertion && ap[j].id.value() < self@.next_id by {
                assert(orig.contains(ap[j]));
                let t = choose|t: int| 0 <= t < orig.len() && orig[t] == ap[j];
                assert(record_ok(orig[t]));
            }
            assert forall|i: int, j: int| 0 <= i < orig.len() && 0 <= j < ap.len() && is_framework(#[trigger] orig[i]) implies {
                let f = orig[i];
                let r = #[trigger] ap[j];
                (f.insertion_id < r.insertion_id && f.id.value() < r.id.value())
                    || (f.insertion_id > r.insertion_id && f.id.value() > r.id.value())
            } by {
                assert(orig.contains(ap[j]));
                let t = choose|t: int| 0 <= t < orig.len() && orig[t] == ap[j];
                assert(is_app(orig[t]));
                assert(t != i);
                if t < i {
                    assert(orig[t].insertion_id < orig[i].insertion_id);
                } else {
                    assert(orig[i].insertion_id < orig[t].insertion_id);
                }
            }
        }
        s
    }
}

/// Whether two records lie in the same order by insertion and by
/// identifier.
pub open spec fn before(a: RecordView, b: RecordView) -> bool {
    a.insertion_id < b.insertion_id && a.id.value() < b.id.value()
}

impl InputMap {
    /// Restore the application records and modes of a snapshot, keeping the
    /// framework records, exclusive frames and modal group; records stay in
    /// insertion order.
    #[verifier::spinoff_prover]
    pub fn restore_application(&mut self, snapshot: ApplicationBindingSnapshot)
        requires
            old(self).wf(),
            restorable(old(self)@, snapshot@),
        ensures
            final(self).wf(),
            restored(old(self)@, snapshot@, final(self)@.records),
            final(self)@ == (InputMapView { records: final(self)@.records, modes: snapshot@.modes, ..old(self)@ }),
    {
        let ghost v0 = self@;
        let ghost sv = snapshot@;
        let _ = self.remove_selected(None, None, None);
        let mut fw: Vec<BindingRecord> = Vec::new();
        std::mem::swap(&mut fw, &mut self.records);
        let ApplicationBindingSnapshot { records: snap, mode_stack } = snapshot;
        let ghost fv = records_view(fw@);
        let ghost snv = records_view(snap@);
        proof {
            assert(fv == framework_part(v0.records));
            assert(snv == sv.records);
            lemma_keep_where_members(v0.records, unselected(all_application()));
            lemma_keep_where_ordered(v0.records, unselected(all_application()));
            assert forall|a: int| 0 <= a < fv.len() implies !is_app(#[trigger] fv[a]) && record_ok(fv[a])
                && fv[a].insertion_id < v0.next_insertion && fv[a].id.value() < v0.next_id by {
                assert(v0.records.contains(fv[a]));
                let t = choose|t: int| 0 <= t < v0.records.len() && v0.records[t] == fv[a];
                assert(record_ok(v0.records[t]));
                assert(unselected(all_application())(fv[a]));
            }
            assert forall|a: int, b: int| 0 <= a < fv.len() && 0 <= b < snv.len() implies before(#[trigger] fv[a], #[trigger] snv[b]) || before(snv[b], fv[a]) by {
                assert(v0.records.contains(fv[a]));
                let t = choose|t: int| 0 <= t < v0.records.len() && v0.records[t] == fv[a];
                assert(is_framework(v0.records[t]));
            }
        }
        let nf = fw.len();
        let ns = snap.len();
        let mut out: Vec<BindingRecord> = Vec::new();
        let mut i: usize = 0;
        let mut j: usize = 0;
        while i < nf || j < ns
            invariant
                nf == fv.len(),
                ns == snv.len(),
                fv == records_view(fw@),
                snv == records_view(snap@),
                records_ordered(fv),
                records_ordered(snv),
                forall|a: int| 0 <= a < fv.len() ==> !is_app(#[trigger] fv[a]) && record_ok(fv[a])
                    && fv[a].insertion_id < v0.next_insertion && fv[a].id.value() < v0.next_id,
                forall|b: int| 0 <= b < snv.len() ==> is_app(#[trigger] snv[b]) && record_ok(snv[b])
                    && snv[b].insertion_id < v0.next_insertion && snv[b].id.value() < v0.next_id,
                forall|a: int, b: int| 0 <= a < fv.len() && 0 <= b < snv.len() ==> before(#[trigger] fv[a], #[trigger] snv[b]) || before(snv[b], fv[a]),
                i <= nf,
                j <= ns,
                records_view(out@).len() == i + j,
                framework_part(records_view(out@)) == fv.subrange(0, i as int),
                app_part(records_view(out@)) == snv.subrange(0, j as int),
                records_ordered(records_view(out@)),
                forall|k: int| 0 <= k < records_view(out@).len() ==> #[trigger] record_ok(records_view(out@)[k])
                    && records_view(out@)[k].insertion_id < v0.next_insertion && records_view(out@)[k].id.value() < v0.next_id,
                records_view(out@).len() > 0 && i < nf ==> before(records_view(out@).last(), fv[i as int]),
                records_view(out@).len() > 0 && j < ns ==> before(records_view(out@).last(), snv[j as int]),
            decreases (nf - i) + (ns - j),
        {
            let take_fw = i < nf && (j >= ns || fw[i].insertion_id < snap[j].insertion_id);
            let ghost o = records_view(out@);
            let ghost x = if take_fw { fv[i as int] } else { snv[j as int] };
            if take_fw {
                assert(fw@[i as int]@ == fv[i as int]);
                out.push(fw[i].clone());
            } else {
                assert(snap@[j as int]@ == snv[j as int]);
                out.push(snap[j].clone());
            }
            proof {
                let o2 = records_view(out@);
                assert(o2 =~= o.push(x));
                assert(o2.drop_last() =~= o);
                assert(o2.last() == x);
                assert forall|k: int| 0 <= k < o.len() implies before(#[trigger] o[k], x) by {
                    if k < o.len() - 1 {
                        assert(before(o[k], o.last()));
                    }
                }
                assert forall|a: int, b: int| 0 <= a < b < o2.len() implies #[trigger] o2[a].insertion_id < #[trigger] o2[b].insertion_id
                    && o2[a].id.value() < o2[b].id.value() by {
                    if b < o.len() {
                        assert(o2[a] == o[a] && o2[b] == o[b]);
                    } else {
                        assert(o2[a] == o[a]);
                        assert(before(o[a], x));
                    }
                }
                assert forall|k: int| 0 <= k < o2.len() implies #[trigger] record_ok(o2[k])
                    && o2[k].insertion_id < v0.next_insertion && o2[k].id.value() < v0.next_id by {
                    if k < o.len() {
                        assert(o2[k] == o[k]);
                    }
                }
                if take_fw {
                    assert(!is_app(x));
                    assert(fv.subrange(0, i + 1) =~= fv.subrange(0, i as int).push(x));
                    if i + 1 < nf {
                        assert(before(fv[i as int], fv[i + 1]));
                    }
                    if j < ns {
                        assert(before(fv[i as int], snv[j as int]) || before(snv[j as int], fv[i as int]));
                    }
                } else {
                    assert(is_app(x));
                    assert(snv.subrange(0, j + 1) =~= snv.subrange(0, j as int).push(x));
                    if j + 1 < ns {
                        assert(before(snv[j as int], snv[j + 1]));
                    }
                    if i < nf {
                        assert(before(fv[i as int], snv[j as int]) || before(snv[j as int], fv[i as int]));
                    }
                }
            }
            if take_fw {
                i = i + 1;
            } else {
                j = j + 1;
            }
        }
        self.records = out;
        self.mode_stack = mode_stack;
        proof {
            assert(fv.subrange(0, nf as int) =~= fv);
            assert(snv.subrange(0, ns as int) =~= snv);
            assert(self@.frames =~= v0.frames);
            assert(self@.records == records_view(out@));
            assert(self@.next_id == v0.next_id);
            assert(self@.next_insertion == v0.next_insertion);
            assert(self@.next_token == v0.next_token);
            assert(map_wf(v0));
            assert(self@.frames == v0.frames);
            assert(records_ordered(self@.records));
            assert(forall|k: int| 0 <= k < self@.records.len() ==> #[trigger] record_ok(self@.records[k]));
            assert forall|k: int| 0 <= k < self@.records.len() implies #[trigger] self@.records[k].insertion_id < self@.next_insertion by {
                assert(record_ok(self@.records[k]));
            }
            assert forall|k: int| 0 <= k < self@.records.len() implies (#[trigger] self@.records[k]).id.value() < self@.next_id by {
                assert(record_ok(self@.records[k]));
            }
        }
    }
}

// ---------------------------------------------------------------------------
// Laws
// ---------------------------------------------------------------------------

/// Whether a candidate beats another: a higher path score, or an equal
/// score and a later insertion.
pub open spec fn beats(a: RecordView, am: PathMatch, b: RecordView, bm: PathMatch) -> bool {
    score_gt(am, bm) || (score_eq(am, bm) && a.insertion_id > b.insertion_id)
}

/// The best of a prefix beats every other admitted, matching record of the
/// prefix, and exists exactly when one of them matches.
proof fn lemma_best_prefix_beats(rs: Seq<RecordView>, path: Seq<Seq<char>>, input: InputSpec, scope: ScopeView, owner: OwnerView, k: nat)
    requires
        records_ordered(rs),
        k <= rs.len(),
    ensures
        match best_prefix(rs, path, input, scope, owner, k) {
            Some((i, m)) => {
                &&& 0 <= i < k
                &&& admits(rs[i], input, scope, owner)
                &&& filter_match(rs[i].path, path) == Some(m)
                &&& forall|j: int| #![trigger rs[j]] 0 <= j < k && j != i && admits(rs[j], input, scope, owner) && filter_match(rs[j].path, path) is Some
                    ==> beats(rs[i], m, rs[j], filter_match(rs[j].path, path).unwrap())
            },
            None => forall|j: int| #![trigger rs[j]] 0 <= j < k && admits(rs[j], input, scope, owner) ==> filter_match(rs[j].path, path) is None,
        },
    decreases k,
{
    if k > 0 {
        lemma_best_prefix_beats(rs, path, input, scope, owner, (k - 1) as nat);
        let prev = best_prefix(rs, path, input, scope, owner, (k - 1) as nat);
        let r = rs[k - 1];
        if admits(r, input, scope, owner) && filter_match(r.path, path) is Some {
            let m = filter_match(r.path, path).unwrap();
            match prev {
                Some((i, pm)) => {
                    if !stays_ahead(rs[i], pm, r, m) {
                        assert(rs[i].insertion_id < rs[k - 1].insertion_id);
                    }
                },
                None => {},
            }
        }
    }
}

/// Law: the record an input resolves to within one scope is the admitted
/// record whose path filter matches most specifically, and among equally
/// specific matches the one inserted last; there is none exactly when no
/// admitted record matches.
pub proof fn law_best_is_most_specific_then_latest(v: InputMapView, path: Seq<Seq<char>>, input: InputSpec, scope: ScopeView, owner: OwnerView)
    requires
        map_wf(v),
    ensures
        match best_in(v.records, path, input, scope, owner) {
            Some((i, m)) => {
                &&& 0 <= i < v.records.len()
                &&& admits(v.records[i], input, scope, owner)
                &&& filter_match(v.records[i].path, path) == Some(m)
                &&& forall|j: int| #![trigger v.records[j]] 0 <= j < v.records.len() && j != i && admits(v.records[j], input, scope, owner)
                    && filter_match(v.records[j].path, path) is Some
                    ==> beats(v.records[i], m, v.records[j], filter_match(v.records[j].path, path).unwrap())
            },
            None => forall|j: int| #![trigger v.records[j]] 0 <= j < v.records.len() && admits(v.records[j], input, scope, owner)
                ==> filter_match(v.records[j].path, path) is None,
        },
{
    lemma_best_prefix_beats(v.records, path, input, scope, owner, v.records.len());
}

/// Law: while an exclusive group is active, an input resolves only to a
/// framework binding of that group, and with no group active only to an
/// application binding.
pub proof fn law_exclusive_group_decides_owner(v: InputMapView, path: Seq<Seq<char>>, input: InputSpec)
    requires
        map_wf(v),
    ensures
        resolve_spec(v, path, input) matches Some((i, _)) ==> match active_group(v) {
            Some(g) => v.records[i].owner == OwnerView::Framework(g) && v.records[i].scope == ScopeView::Exclusive(g),
            None => v.records[i].owner == OwnerView::Application,
        },
{
    let n = normalize_input(input);
    match active_group(v) {
        Some(g) => {
            law_best_is_most_specific_then_latest(v, path, n, ScopeView::Exclusive(g), OwnerView::Framework(g));
        },
        None => {
            law_best_is_most_specific_then_latest(v, path, n, ScopeView::Global, OwnerView::Application);
            law_best_is_most_specific_then_latest(v, path, n, ScopeView::Default, OwnerView::Application);
            lemma_modes_best_application(v, path, n, v.modes.len());
        },
    }
}

/// The mode pass picks application records.
proof fn lemma_modes_best_application(v: InputMapView, path: Seq<Seq<char>>, input: InputSpec, k: nat)
    requires
        map_wf(v),
        k <= v.modes.len(),
    ensures
        modes_best(v, path, input, k) matches Some((i, _)) ==> 0 <= i < v.records.len() && v.records[i].owner == OwnerView::Application,
    decreases k,
{
    if k > 0 {
        law_best_is_most_specific_then_latest(v, path, input, ScopeView::Mode(v.modes[k - 1]), OwnerView::Application);
        lemma_modes_best_application(v, path, input, (k - 1) as nat);
    }
}

/// Law: with no exclusive group active, a global binding that matches wins
/// over every mode and default binding.
pub proof fn law_global_bindings_win(v: InputMapView, path: Seq<Seq<char>>, input: InputSpec, j: int)
    requires
        map_wf(v),
        active_group(v) is None,
        0 <= j < v.records.len(),
        admits(v.records[j], normalize_input(input), ScopeView::Global, OwnerView::Application),
        filter_match(v.records[j].path, path) is Some,
    ensures
        resolve_spec(v, path, input) matches Some((i, _)) && v.records[i].scope == ScopeView::Global,
{
    law_best_is_most_specific_then_latest(v, path, normalize_input(input), ScopeView::Global, OwnerView::Application);
}

/// Removing application records never removes a framework record.
pub proof fn law_removal_keeps_framework_records(rs: Seq<RecordView>, sel: SelectorView)
    ensures
        framework_part(kept(rs, sel)) == framework_part(rs),
    decreases rs.len(),
{
    if rs.len() > 0 {
        let d = rs.drop_last();
        law_removal_keeps_framework_records(d, sel);
        let x = rs.last();
        let k = kept(rs, sel);
        if !selects(sel, x) {
            assert(k.drop_last() =~= kept(d, sel));
            assert(k.last() == x);
        }
    }
}

/// Law: replacing an application binding leaves it the only application
/// binding in its slot (input, scope and exact path filter), and keeps every
/// framework record.
pub proof fn law_replace_leaves_one_binding_per_slot(v: InputMapView, rec: RecordView)
    requires
        map_wf(v),
        is_app(rec),
    ensures
        ({
            let rs = replaced(v, rec).records;
            &&& rs.last() == rec
            &&& forall|j: int| 0 <= j < rs.len() - 1 ==> !selects(slot_of(rec), #[trigger] rs[j])
            &&& framework_part(rs) == framework_part(v.records)
        }),
{
    let sel = slot_of(rec);
    let k = kept(v.records, sel);
    let rs = replaced(v, rec).records;
    lemma_keep_where_members(v.records, unselected(sel));
    assert forall|j: int| 0 <= j < rs.len() - 1 implies !selects(sel, #[trigger] rs[j]) by {
        assert(rs[j] == k[j]);
        assert(unselected(sel)(k[j]));
    }
    law_removal_keeps_framework_records(v.records, sel);
    assert(rs.drop_last() =~= k);
}

/// Law: registering a framework binding a second time with the same
/// arguments is accepted and finds the record the first registration
/// stored, so it returns the same identifier and changes nothing.
pub proof fn law_bind_framework_idempotent(v: InputMapView, id: BindingId, g: Seq<char>, input: InputSpec, o: &BindingOptions, a: ActionView)
    requires
        map_wf(v),
        !framework_refused(v, g, input, o, a),
        find_framework(v.records, g, normalize_input(input), options_path(o)) is None,
        id.value() == v.next_id,
    ensures
        ({
            let v2 = appended(v, new_record(id, v.next_insertion, input, OwnerView::Framework(g), o, TargetView::Command(a)));
            &&& find_framework(v2.records, g, normalize_input(input), options_path(o)) == Some(v.records.len() as int)
            &&& v2.records[v.records.len() as int].id == id
            &&& !framework_refused(v2, g, input, o, a)
        }),
{
    let rec = new_record(id, v.next_insertion, input, OwnerView::Framework(g), o, TargetView::Command(a));
    let v2 = appended(v, rec);
    crate::event::law_normalize_input_idempotent(input);
    lemma_find_framework(v.records, g, normalize_input(input), options_path(o));
    assert(v2.records.drop_last() =~= v.records);
}

/// Law: clearing application state keeps exactly the framework records.
pub proof fn law_clear_keeps_only_framework_records(rs: Seq<RecordView>)
    ensures
        forall|j: int| 0 <= j < framework_part(rs).len() ==> is_framework(#[trigger] framework_part(rs)[j]),
        framework_part(framework_part(rs)) == framework_part(rs),
{
    lemma_keep_where_members(rs, unselected(all_application()));
    assert forall|j: int| 0 <= j < framework_part(rs).len() implies is_framework(#[trigger] framework_part(rs)[j]) by {
        assert(unselected(all_application())(framework_part(rs)[j]));
    }
    law_removal_keeps_framework_records(rs, all_application());
}

/// Law: unbinding an application binding leaves no binding with its
/// identifier.
pub proof fn law_unbind_removes_the_binding(v: InputMapView, id: BindingId)
    requires
        map_wf(v),
        find_id(v.records, id) is Some,
    ensures
        find_id(v.records.remove(find_id(v.records, id).unwrap()), id) is None,
{
    lemma_find_id(v.records, id);
    let i = find_id(v.records, id).unwrap();
    let r = v.records.remove(i);
    lemma_find_id(r, id);
    assert forall|j: int| 0 <= j < r.len() implies r[j].id != id by {
        let j2 = if j < i { j } else { j + 1 };
        assert(r[j] == v.records[j2]);
        if j2 < i {
            assert(v.records[j2].insertion_id < v.records[i].insertion_id);
        } else {
            assert(v.records[i].insertion_id < v.records[j2].insertion_id);
        }
    }
}

/// Law: popping a mode undoes pushing a named mode.
pub proof fn law_pop_mode_undoes_push(modes: Seq<Seq<char>>, mode: Seq<char>)
    requires
        mode.len() > 0,
    ensures
        pop_mode_spec(push_mode_spec(modes, mode)) == modes,
        current_mode_spec(push_mode_spec(modes, mode)) == mode,
{
    assert(modes.push(mode).drop_last() =~= modes);
}

/// Law: popping the token of a frame just pushed restores the frames.
pub proof fn law_pop_exclusive_undoes_push(v: InputMapView, f: FrameView)
    requires
        map_wf(v),
        f.token.value() == v.next_token,
    ensures
        find_token(v.frames.push(f), f.token) == Some(v.frames.len() as int),
        v.frames.push(f).remove(v.frames.len() as int) == v.frames,
{
    let fs = v.frames.push(f);
    assert(fs.drop_last() =~= v.frames);
    lemma_find_token(v.frames, f.token);
    assert forall|j: int| 0 <= j < v.frames.len() implies v.frames[j].token != f.token by {
        assert(v.frames[j].token.value() < v.next_token);
    }
    assert(fs.remove(v.frames.len() as int) =~= v.frames);
}

// ---------------------------------------------------------------------------
// Script bindings
// ---------------------------------------------------------------------------

/// The script callbacks among removed identifier and target pairs, in
/// order.
pub open spec fn script_pairs(v: Seq<(BindingId, TargetView)>) -> Seq<(BindingId, LuauFunctionId)>
    decreases v.len(),
{
    if v.len() == 0 {
        Seq::empty()
    } else {
        let rest = script_pairs(v.drop_last());
        match v.last().1 {
            TargetView::Script(f) => rest.push((v.last().0, f)),
            TargetView::Command(_) => rest,
        }
    }
}

/// Keep the script callbacks of removed identifier and target pairs.
fn script_targets(v: Vec<(BindingId, BindingTarget)>) -> (r: Vec<(BindingId, LuauFunctionId)>)
    ensures
        r@ == script_pairs(pairs_view(v@)),
{
    let ghost pv = pairs_view(v@);
    let mut r: Vec<(BindingId, LuauFunctionId)> = Vec::new();
    let mut i: usize = 0;
    while i < v.len()
        invariant
            i <= v@.len(),
            pv == pairs_view(v@),
            r@ == script_pairs(pv.subrange(0, i as int)),
        decreases v@.len() - i,
    {
        assert(pv.subrange(0, i + 1).drop_last() =~= pv.subrange(0, i as int));
        match &v[i].1 {
            BindingTarget::Script(f) => {
                r.push((v[i].0, *f));
            },
            BindingTarget::Command(_) => {},
        }
        i = i + 1;
    }
    assert(pv.subrange(0, v@.len() as int) =~= pv);
    r
}

/// The record that an application script binding stores.
pub open spec fn script_record(
    id: BindingId,
    insertion: u64,
    scope: ScopeView,
    input: InputSpec,
    path_filter: Seq<char>,
    description: Seq<char>,
    source: Option<Seq<char>>,
    target: LuauFunctionId,
) -> RecordView {
    RecordView {
        id,
        input: normalize_input(input),
        owner: OwnerView::Application,
        scope,
        description,
        source,
        target: TargetView::Script(target),
        insertion_id: insertion,
        phase: BindingPhase::AfterWidget,
        path: path_filter,
    }
}

impl InputMap {
    /// Store or replace one application binding to a script callback, with
    /// a path filter given as text, in the phase after the widget. Returns
    /// the new identifier and the replaced script callbacks.
    ///
    /// Fails with `InvalidOperation` when the scope does not admit the path
    /// filter, the description is blank, or the identifiers are exhausted,
    /// and with `Invalid` when the filter has a literal component that is not
    /// a node name; the registry is then unchanged.
    pub fn replace_application_binding(
        &mut self,
        scope: BindingScope,
        input: InputSpec,
        path_filter: &str,
        description: &str,
        source: Option<String>,
        target: LuauFunctionId,
    ) -> (r: Result<(BindingId, Vec<(BindingId, LuauFunctionId)>), Error>)
        requires
            old(self).wf(),
        ensures
            final(self).wf(),
            r is Err <==> !app_scope_ok(scope@, path_filter@) || blank(description@) || !filter_valid(path_filter@) || exhausted(old(self)@),
            r is Err ==> final(self)@ == old(self)@,
            r matches Err(e) ==> if app_scope_ok(scope@, path_filter@) && !blank(description@) && !filter_valid(path_filter@) {
                e is Invalid
            } else {
                e is InvalidOperation
            },
            r matches Ok((id, removed)) ==> {
                let rec = script_record(id, old(self)@.next_insertion, scope@, input, path_filter@, description@, opt_string_view(source), target);
                &&& id.value() == old(self)@.next_id
                &&& final(self)@ == replaced(old(self)@, rec)
                &&& removed@ == script_pairs(taken(old(self)@.records, slot_of(rec)))
            },
    {
        match validate_application_scope(&scope, path_filter) {
            Ok(()) => {},
            Err(e) => return Err(e),
        }
        match validate_description(description) {
            Ok(()) => {},
            Err(e) => return Err(e),
        }
        let filter = match PathFilter::new(path_filter) {
            Ok(f) => f,
            Err(e) => return Err(e),
        };
        let options = BindingOptions {
            path: Some(filter),
            scope,
            description: owned(description),
            source,
            phase: BindingPhase::AfterWidget,
        };
        match self.replace_application_action(input, options, BindingTarget::Script(target)) {
            Ok((id, removed)) => Ok((id, script_targets(removed))),
            Err(e) => Err(e),
        }
    }

    /// Remove every application binding, returning their script callbacks;
    /// framework bindings and exclusive frames stay.
    pub fn remove_luau_functions(&mut self) -> (removed: Vec<(BindingId, LuauFunctionId)>)
        requires
            old(self).wf(),
        ensures
            final(self).wf(),
            final(self)@ == (InputMapView {
                records: framework_part(old(self)@.records),
                modes: Seq::empty(),
                ..old(self)@
            }),
            removed@ == script_pairs(taken(old(self)@.records, all_application())),
    {
        let removed = self.clear_application();
        script_targets(removed)
    }

    /// Return the identifiers of the application bindings, in insertion
    /// order.
    pub fn binding_ids(&self) -> (r: Vec<BindingId>)
        ensures
            r@ == app_part(self@.records).map_values(|rec: RecordView| rec.id),
    {
        let ghost rs = self@.records;
        let mut r: Vec<BindingId> = Vec::new();
        let mut i: usize = 0;
        while i < self.records.len()
            invariant
                i <= rs.len(),
                rs == self@.records,
                r@ == app_part(rs.subrange(0, i as int)).map_values(|rec: RecordView| rec.id),
            decreases rs.len() - i,
        {
            assert(self.records@[i as int]@ == rs[i as int]);
            assert(rs.subrange(0, i + 1).drop_last() =~= rs.subrange(0, i as int));
            match self.records[i].owner {
                BindingOwner::Application => {
                    r.push(self.records[i].id);
                    assert(r@ =~= app_part(rs.subrange(0, i + 1)).map_values(|rec: RecordView| rec.id));
                },
                BindingOwner::Framework(_) => {},
            }
            i = i + 1;
        }
        assert(rs.subrange(0, rs.len() as int) =~= rs);
        r
    }

    /// Return the script callbacks of application bindings whose identifier
    /// is not in a baseline, in insertion order.
    pub fn targets_not_in(&self, baseline: &[BindingId]) -> (r: Vec<LuauFunctionId>)
        ensures
            r@ == new_targets(self@.records, baseline@),
    {
        let ghost rs = self@.records;
        let mut r: Vec<LuauFunctionId> = Vec::new();
        let mut i: usize = 0;
        while i < self.records.len()
            invariant
                i <= rs.len(),
                rs == self@.records,
                r@ == new_targets(rs.subrange(0, i as int), baseline@),
            decreases rs.len() - i,
        {
            let rec = &self.records[i];
            assert(rec@ == rs[i as int]);
            assert(rs.subrange(0, i + 1).drop_last() =~= rs.subrange(0, i as int));
            let mut known = false;
            let mut j: usize = 0;
            while j < baseline.len()
                invariant
                    j <= baseline@.len(),
                    known == exists|k: int| 0 <= k < j && baseline@[k] == rec.id,
                decreases baseline@.len() - j,
            {
                if baseline[j] == rec.id {
                    known = true;
                }
                j = j + 1;
            }
            match (&rec.owner, &rec.target) {
                (BindingOwner::Application, BindingTarget::Script(f)) => {
                    if !known {
                        r.push(*f);
                    }
                },
                _ => {},
            }
            i = i + 1;
        }
        assert(rs.subrange(0, rs.len() as int) =~= rs);
        r
    }
}

/// The script callbacks of application bindings whose identifier is not in
/// a baseline, in order.
pub open spec fn new_targets(rs: Seq<RecordView>, baseline: Seq<BindingId>) -> Seq<LuauFunctionId>
    decreases rs.len(),
{
    if rs.len() == 0 {
        Seq::empty()
    } else {
        let rest = new_targets(rs.drop_last(), baseline);
        let r = rs.last();
        match r.target {
            TargetView::Script(f) => if is_app(r) && !baseline.contains(r.id) { rest.push(f) } else { rest },
            TargetView::Command(_) => rest,
        }
    }
}

/// Dropping the newest record keeps the rest in order.
proof fn lemma_ordered_drop_last(a: Seq<RecordView>)
    requires
        records_ordered(a),
        a.len() > 0,
    ensures
        records_ordered(a.drop_last()),
{
    let da = a.drop_last();
    assert forall|i: int, j: int| 0 <= i < j < da.len() implies #[trigger] da[i].insertion_id < #[trigger] da[j].insertion_id
        && da[i].id.value() < da[j].id.value() by {
        assert(da[i] == a[i] && da[j] == a[j]);
        assert(a[i].insertion_id < a[j].insertion_id && a[i].id.value() < a[j].id.value());
    }
}

/// The records of a sequence in insertion order, identifiers in order too,
/// are determined by its framework records and its application records.
#[verifier::spinoff_prover]
proof fn lemma_ordered_records_determined(a: Seq<RecordView>, b: Seq<RecordView>)
    requires
        records_ordered(a),
        records_ordered(b),
        framework_part(a) == framework_part(b),
        app_part(a) == app_part(b),
    ensures
        a == b,
    decreases a.len() + b.len(),
{
    let fp = unselected(all_application());
    let ap = |r: RecordView| is_app(r);
    if a.len() == 0 && b.len() == 0 {
        assert(a =~= b);
    } else if a.len() == 0 {
        let y = b.last();
        assert(keep_where(b, fp) == keep_where(b.drop_last(), fp).push(y) || keep_where(b, ap) == keep_where(b.drop_last(), ap).push(y));
        assert(framework_part(a).len() == 0 && app_part(a).len() == 0);
    } else if b.len() == 0 {
        let x = a.last();
        assert(keep_where(a, fp) == keep_where(a.drop_last(), fp).push(x) || keep_where(a, ap) == keep_where(a.drop_last(), ap).push(x));
        assert(framework_part(b).len() == 0 && app_part(b).len() == 0);
    } else {
        let x = a.last();
        let y = b.last();
        let da = a.drop_last();
        let db = b.drop_last();
        lemma_ordered_drop_last(a);
        lemma_ordered_drop_last(b);
        lemma_keep_where_members(da, fp);
        lemma_keep_where_members(da, ap);
        lemma_keep_where_members(db, fp);
        lemma_keep_where_members(db, ap);
        if x != y {
            if is_app(x) && is_app(y) {
                assert(app_part(a).last() == x);
                assert(app_part(b).last() == y);
            } else if !is_app(x) && !is_app(y) {
                assert(fp(x) && fp(y));
                assert(framework_part(a).last() == x);
                assert(framework_part(b).last() == y);
            } else if is_app(x) {
                assert(fp(y));
                assert(framework_part(b).last() == y);
                assert(framework_part(a) == keep_where(da, fp));
                assert(keep_where(da, fp).contains(y));
                assert(da.contains(y));
                let i = choose|i: int| 0 <= i < da.len() && da[i] == y;
                assert(a[i].insertion_id < a[a.len() - 1].insertion_id);
                assert(app_part(b) == keep_where(db, ap));
                assert(app_part(a).last() == x);
                assert(keep_where(db, ap).contains(x));
                assert(db.contains(x));
                let j = choose|j: int| 0 <= j < db.len() && db[j] == x;
                assert(b[j].insertion_id < b[b.len() - 1].insertion_id);
            } else {
                assert(fp(x));
                assert(framework_part(a).last() == x);
                assert(framework_part(b) == keep_where(db, fp));
                assert(keep_where(db, fp).contains(x));
                assert(db.contains(x));
                let j = choose|j: int| 0 <= j < db.len() && db[j] == x;
                assert(b[j].insertion_id < b[b.len() - 1].insertion_id);
                assert(app_part(a) == keep_where(da, ap));
                assert(app_part(b).last() == y);
                assert(keep_where(da, ap).contains(y));
                assert(da.contains(y));
                let i = choose|i: int| 0 <= i < da.len() && da[i] == y;
                assert(a[i].insertion_id < a[a.len() - 1].insertion_id);
            }
        }
        assert(x == y);
        if is_app(x) {
            assert(framework_part(da) == framework_part(a));
            assert(framework_part(db) == framework_part(b));
            assert(app_part(da) == app_part(a).drop_last());
            assert(app_part(db) == app_part(b).drop_last());
        } else {
            assert(fp(x));
            assert(framework_part(da) == framework_part(a).drop_last());
            assert(framework_part(db) == framework_part(b).drop_last());
            assert(app_part(da) == app_part(a));
            assert(app_part(db) == app_part(b));
        }
        lemma_ordered_records_determined(da, db);
        assert(a =~= da.push(x));
        assert(b =~= db.push(y));
    }
}

/// Law: restoring the snapshot of the registry's own application state
/// gives back exactly the records it had.
pub proof fn law_restore_own_snapshot_changes_nothing(v: InputMapView, records: Seq<RecordView>)
    requires
        map_wf(v),
        restored(v, SnapshotView { records: app_part(v.records), modes: v.modes }, records),
    ensures
        records == v.records,
{
    lemma_ordered_records_determined(records, v.records);
}


// ---------------------------------------------------------------------------
// Exclusive frames across tree edits
// ---------------------------------------------------------------------------

/// The frames a predicate keeps, in their order.
pub open spec fn frames_where(frames: Seq<FrameView>, keep: spec_fn(FrameView) -> bool) -> Seq<FrameView>
    decreases frames.len(),
{
    if frames.len() == 0 {
        Seq::empty()
    } else {
        let rest = frames_where(frames.drop_last(), keep);
        if keep(frames.last()) {
            rest.push(frames.last())
        } else {
            rest
        }
    }
}

/// Frames whose owner is one of the given nodes.
pub open spec fn owned_by_one_of(owners: Seq<NodeId>) -> spec_fn(FrameView) -> bool {
    |f: FrameView| owners.contains(f.owner)
}

/// Frames that are not both older than an edit and owned by a replaced
/// widget.
pub open spec fn not_replaced(owners: Seq<NodeId>, before: Seq<ExclusiveFrameToken>) -> spec_fn(FrameView) -> bool {
    |f: FrameView| !before.contains(f.token) || !owners.contains(f.owner)
}

/// The frames kept are frames of the given sequence, and distinct tokens stay
/// distinct.
proof fn lemma_frames_where(frames: Seq<FrameView>, keep: spec_fn(FrameView) -> bool)
    ensures
        forall|i: int| 0 <= i < frames_where(frames, keep).len() ==> frames.contains(#[trigger] frames_where(frames, keep)[i]),
        (forall|i: int, j: int| 0 <= i < j < frames.len() ==> frames[i].token != frames[j].token) ==>
            forall|i: int, j: int| 0 <= i < j < frames_where(frames, keep).len()
                ==> frames_where(frames, keep)[i].token != frames_where(frames, keep)[j].token,
    decreases frames.len(),
{
    if frames.len() > 0 {
        let d = frames.drop_last();
        lemma_frames_where(d, keep);
        let rest = frames_where(d, keep);
        let r = frames_where(frames, keep);
        assert forall|i: int| 0 <= i < r.len() implies frames.contains(#[trigger] r[i]) by {
            if i < rest.len() {
                assert(r[i] == rest[i]);
                assert(d.contains(rest[i]));
                let k = choose|k: int| 0 <= k < d.len() && d[k] == rest[i];
                assert(frames[k] == d[k]);
            } else {
                assert(frames[frames.len() - 1] == r[i]);
            }
        }
        if forall|i: int, j: int| 0 <= i < j < frames.len() ==> frames[i].token != frames[j].token {
            assert forall|i: int, j: int| 0 <= i < j < r.len() implies r[i].token != r[j].token by {
                assert(r[i] == rest[i]);
                if j < rest.len() {
                    assert(r[j] == rest[j]);
                    assert forall|a: int, b: int| 0 <= a < b < d.len() implies d[a].token != d[b].token by {
                        assert(d[a] == frames[a]);
                        assert(d[b] == frames[b]);
                    }
                } else {
                    assert(d.contains(rest[i]));
                    let k = choose|k: int| 0 <= k < d.len() && d[k] == rest[i];
                    assert(frames[k] == d[k]);
                    assert(frames[frames.len() - 1] == r[j]);
                }
            }
        }
    }
}

/// Whether a node is one of the given nodes.
fn contains_node(nodes: &[NodeId], node: NodeId) -> (r: bool)
    ensures
        r == nodes@.contains(node),
{
    let mut i: usize = 0;
    while i < nodes.len()
        invariant
            i <= nodes@.len(),
            forall|j: int| 0 <= j < i ==> nodes@[j] != node,
        decreases nodes@.len() - i,
    {
        if nodes[i] == node {
            return true;
        }
        i = i + 1;
    }
    false
}

/// Whether a token is one of the given tokens.
fn contains_token(tokens: &[ExclusiveFrameToken], token: ExclusiveFrameToken) -> (r: bool)
    ensures
        r == tokens@.contains(token),
{
    let mut i: usize = 0;
    while i < tokens.len()
        invariant
            i <= tokens@.len(),
            forall|j: int| 0 <= j < i ==> tokens@[j] != token,
        decreases tokens@.len() - i,
    {
        if tokens[i] == token {
            return true;
        }
        i = i + 1;
    }
    false
}

impl InputMap {
    /// The frames kept by a predicate, and the registry keeps its invariant.
    fn keep_frames(&mut self, kept: Vec<ExclusiveFrame>, Ghost(keep): Ghost<spec_fn(FrameView) -> bool>)
        requires
            old(self).wf(),
            kept@.map_values(|f: ExclusiveFrame| f@) == frames_where(old(self)@.frames, keep),
        ensures
            final(self).wf(),
            final(self)@ == (InputMapView { frames: frames_where(old(self)@.frames, keep), ..old(self)@ }),
    {
        self.exclusive_frames = kept;
        proof {
            lemma_frames_where(old(self)@.frames, keep);
            assert(self@.records =~= old(self)@.records);
            assert(self@.modes =~= old(self)@.modes);
            let f = old(self)@.frames;
            assert forall|a: int| 0 <= a < self@.frames.len() implies (#[trigger] self@.frames[a]).token.value() < self@.next_token by {
                assert(f.contains(self@.frames[a]));
                let k = choose|k: int| 0 <= k < f.len() && f[k] == self@.frames[a];
                assert(f[k].token.value() < self@.next_token);
            }
        }
    }

    /// Keep only the exclusive frames whose owning node is still attached.
    pub fn retain_exclusive_owners(&mut self, attached: &[NodeId])
        requires
            old(self).wf(),
        ensures
            final(self).wf(),
            final(self)@ == (InputMapView { frames: frames_where(old(self)@.frames, owned_by_one_of(attached@)), ..old(self)@ }),
    {
        let ghost keep = owned_by_one_of(attached@);
        let mut kept: Vec<ExclusiveFrame> = Vec::new();
        let mut i: usize = 0;
        while i < self.exclusive_frames.len()
            invariant
                i <= self.exclusive_frames@.len(),
                kept@.map_values(|f: ExclusiveFrame| f@) == frames_where(self@.frames.subrange(0, i as int), keep),
                keep == owned_by_one_of(attached@),
            decreases self.exclusive_frames@.len() - i,
        {
            let frame = self.exclusive_frames[i];
            let ghost before = self@.frames.subrange(0, i as int);
            if contains_node(attached, frame.owner) {
                kept.push(frame);
            }
            proof {
                let s = self@.frames.subrange(0, i + 1);
                assert(s.drop_last() =~= before);
                assert(s.last() == frame@);
                assert(kept@.map_values(|f: ExclusiveFrame| f@) =~= frames_where(s, keep));
            }
            i = i + 1;
        }
        assert(self@.frames.subrange(0, self@.frames.len() as int) =~= self@.frames);
        self.keep_frames(kept, Ghost(keep));
    }

    /// Return the tokens of the active exclusive frames, oldest first.
    pub fn exclusive_frame_tokens(&self) -> (r: Vec<ExclusiveFrameToken>)
        ensures
            r@ == self@.frames.map_values(|f: FrameView| f.token),
    {
        let mut out: Vec<ExclusiveFrameToken> = Vec::new();
        let mut i: usize = 0;
        while i < self.exclusive_frames.len()
            invariant
                i <= self.exclusive_frames@.len(),
                out@ == self@.frames.subrange(0, i as int).map_values(|f: FrameView| f.token),
            decreases self.exclusive_frames@.len() - i,
        {
            out.push(self.exclusive_frames[i].token);
            proof {
                assert(self@.frames[i as int] == self.exclusive_frames@[i as int]@);
                assert(out@ =~= self@.frames.subrange(0, i + 1).map_values(|f: FrameView| f.token));
            }
            i = i + 1;
        }
        assert(self@.frames.subrange(0, self@.frames.len() as int) =~= self@.frames);
        out
    }

    /// Remove frames that existed before a tree edit and whose owning
    /// widget identity the edit replaced.
    pub fn remove_replaced_exclusive_owners(&mut self, owners: &[NodeId], before: &[ExclusiveFrameToken])
        requires
            old(self).wf(),
        ensures
            final(self).wf(),
            final(self)@ == (InputMapView { frames: frames_where(old(self)@.frames, not_replaced(owners@, before@)), ..old(self)@ }),
    {
        let ghost keep = not_replaced(owners@, before@);
        let mut kept: Vec<ExclusiveFrame> = Vec::new();
        let mut i: usize = 0;
        while i < self.exclusive_frames.len()
            invariant
                i <= self.exclusive_frames@.len(),
                kept@.map_values(|f: ExclusiveFrame| f@) == frames_where(self@.frames.subrange(0, i as int), keep),
                keep == not_replaced(owners@, before@),
            decreases self.exclusive_frames@.len() - i,
        {
            let frame = self.exclusive_frames[i];
            let ghost prefix = self@.frames.subrange(0, i as int);
            if !contains_token(before, frame.token) || !contains_node(owners, frame.owner) {
                kept.push(frame);
            }
            proof {
                let s = self@.frames.subrange(0, i + 1);
                assert(s.drop_last() =~= prefix);
                assert(s.last() == frame@);
                assert(kept@.map_values(|f: ExclusiveFrame| f@) =~= frames_where(s, keep));
            }
            i = i + 1;
        }
        assert(self@.frames.subrange(0, self@.frames.len() as int) =~= self@.frames);
        self.keep_frames(kept, Ghost(keep));
    }

    /// Replace the next binding identifier, returning the previous one.
    /// The new value must stay above every identifier in use.
    pub fn replace_next_id(&mut self, next_id: u64) -> (r: u64)
        requires
            old(self).wf(),
            forall|i: int| 0 <= i < old(self)@.records.len() ==> (#[trigger] old(self)@.records[i]).id.value() < next_id,
        ensures
            final(self).wf(),
            r == old(self)@.next_id,
            final(self)@ == (InputMapView { next_id: next_id, ..old(self)@ }),
    {
        let previous = self.next_id;
        self.next_id = next_id;
        proof {
            assert(self@.records =~= old(self)@.records);
            assert(self@.modes =~= old(self)@.modes);
            assert(self@.frames =~= old(self)@.frames);
        }
        previous
    }
}



// ---------------------------------------------------------------------------
// Snapshots across later operations
// ---------------------------------------------------------------------------

/// Whether one registry state can follow another: the identifier counters
/// never go back, and every framework record is one the earlier state held
/// or was registered after it.
pub open spec fn succeeds(v0: InputMapView, v1: InputMapView) -> bool {
    &&& v0.next_id <= v1.next_id
    &&& v0.next_insertion <= v1.next_insertion
    &&& forall|i: int| 0 <= i < v1.records.len() && is_framework(#[trigger] v1.records[i]) ==>
        v0.records.contains(v1.records[i]) || (v1.records[i].insertion_id >= v0.next_insertion
            && v1.records[i].id.value() >= v0.next_id)
}

/// Law: a snapshot of the application records stays restorable in every
/// state that follows the state it could be restored in.
pub proof fn law_snapshot_stays_restorable(v0: InputMapView, v1: InputMapView, s: SnapshotView)
    requires
        restorable(v0, s),
        succeeds(v0, v1),
    ensures
        restorable(v1, s),
{
    assert forall|i: int, j: int| 0 <= i < v1.records.len() && 0 <= j < s.records.len() && is_framework(#[trigger] v1.records[i]) implies {
        let f = v1.records[i];
        let r = #[trigger] s.records[j];
        (f.insertion_id < r.insertion_id && f.id.value() < r.id.value())
            || (f.insertion_id > r.insertion_id && f.id.value() > r.id.value())
    } by {
        let f = v1.records[i];
        if v0.records.contains(f) {
            let k = choose|k: int| 0 <= k < v0.records.len() && v0.records[k] == f;
            assert(is_framework(v0.records[k]));
        }
    }
}

/// Law: following is transitive.
pub proof fn law_succession_is_transitive(a: InputMapView, b: InputMapView, c: InputMapView)
    requires
        succeeds(a, b),
        succeeds(b, c),
    ensures
        succeeds(a, c),
{
    assert forall|i: int| 0 <= i < c.records.len() && is_framework(#[trigger] c.records[i]) implies
        a.records.contains(c.records[i]) || (c.records[i].insertion_id >= a.next_insertion
            && c.records[i].id.value() >= a.next_id) by {
        let f = c.records[i];
        if b.records.contains(f) {
            let k = choose|k: int| 0 <= k < b.records.len() && b.records[k] == f;
            assert(is_framework(b.records[k]));
        }
    }
}

/// Law: an operation that changes only modes, frames or the modal group,
/// and one that keeps some of the records in order, is followed; so is one
/// that removes a record, appends a registration, or replaces an
/// application slot with a registration.
pub proof fn law_registry_operations_succeed(v: InputMapView, v1: InputMapView, sel: SelectorView, i: int, rec: RecordView)
    ensures
        v1.records == v.records && v1.next_id == v.next_id && v1.next_insertion == v.next_insertion ==> succeeds(v, v1),
        succeeds(v, with_records(v, kept(v.records, sel))),
        succeeds(v, InputMapView { records: framework_part(v.records), modes: Seq::empty(), ..v }),
        0 <= i < v.records.len() ==> succeeds(v, with_records(v, v.records.remove(i))),
        rec.insertion_id == v.next_insertion && rec.id.value() == v.next_id && !exhausted(v) ==> succeeds(v, appended(v, rec))
            && succeeds(v, replaced(v, rec)),
{
    lemma_keep_where_members(v.records, unselected(sel));
    lemma_keep_where_members(v.records, unselected(all_application()));
    if v1.records == v.records {
        assert forall|j: int| 0 <= j < v1.records.len() implies v.records.contains(#[trigger] v1.records[j]) by {
            assert(v.records[j] == v1.records[j]);
        }
    }
    if 0 <= i < v.records.len() {
        let r = v.records.remove(i);
        assert forall|j: int| 0 <= j < r.len() implies v.records.contains(#[trigger] r[j]) by {
            assert(r[j] == v.records[if j < i { j } else { j + 1 }]);
        }
    }
    if rec.insertion_id == v.next_insertion && rec.id.value() == v.next_id && !exhausted(v) {
        let a = v.records.push(rec);
        assert forall|j: int| 0 <= j < a.len() - 1 implies v.records.contains(#[trigger] a[j]) by {
            assert(a[j] == v.records[j]);
        }
        let k = kept(v.records, slot_of(rec));
        lemma_keep_where_members(v.records, unselected(slot_of(rec)));
        let b = k.push(rec);
        assert forall|j: int| 0 <= j < b.len() - 1 implies v.records.contains(#[trigger] b[j]) by {
            assert(b[j] == k[j]);
        }
    }
}

/// A record that satisfies a predicate is among the records it keeps.
proof fn lemma_keep_where_has(rs: Seq<RecordView>, p: spec_fn(RecordView) -> bool, i: int)
    requires
        0 <= i < rs.len(),
        p(rs[i]),
    ensures
        keep_where(rs, p).contains(rs[i]),
    decreases rs.len(),
{
    let k = keep_where(rs, p);
    if i == rs.len() - 1 {
        assert(k[k.len() - 1] == rs[i]);
    } else {
        lemma_keep_where_has(rs.drop_last(), p, i);
        let kd = keep_where(rs.drop_last(), p);
        let t = choose|t: int| 0 <= t < kd.len() && kd[t] == rs[i];
        if p(rs.last()) {
            assert(k[t] == kd[t]);
        }
    }
}

/// Law: a restore is followed: its framework records are those the
/// registry held, and the counters stay.
pub proof fn law_restore_succeeds(v: InputMapView, s: SnapshotView, records: Seq<RecordView>)
    requires
        restored(v, s, records),
    ensures
        succeeds(v, InputMapView { records, modes: s.modes, ..v }),
{
    lemma_keep_where_members(v.records, unselected(all_application()));
    assert forall|i: int| 0 <= i < records.len() && is_framework(#[trigger] records[i]) implies v.records.contains(records[i]) by {
        assert(unselected(all_application())(records[i]));
        lemma_keep_where_has(records, unselected(all_application()), i);
        let fp = framework_part(records);
        let t = choose|t: int| 0 <= t < fp.len() && fp[t] == records[i];
        assert(framework_part(v.records)[t] == records[i]);
    }
}


// ---------------------------------------------------------------------------
// Resolution tiers
// ---------------------------------------------------------------------------

/// The scopes of the application tiers in the order resolution tries them:
/// global, then the modes from the newest to the oldest, then default.
pub open spec fn app_tiers(v: InputMapView) -> Seq<ScopeView> {
    seq![ScopeView::Global] + Seq::new(v.modes.len(), |j: int| ScopeView::Mode(v.modes[v.modes.len() - 1 - j]))
        + seq![ScopeView::Default]
}

/// The best match of an application tier.
pub open spec fn tier_best(v: InputMapView, path: Seq<Seq<char>>, input: InputSpec, scope: ScopeView) -> Option<(int, PathMatch)> {
    best_in(v.records, path, input, scope, OwnerView::Application)
}

/// The newest of the first `n` modes that has a match is what the modes
/// give.
proof fn lemma_modes_best(v: InputMapView, path: Seq<Seq<char>>, input: InputSpec, n: nat)
    requires
        n <= v.modes.len(),
    ensures
        modes_best(v, path, input, n) is None ==> forall|u: int| 0 <= u < n ==> #[trigger] tier_best(v, path, input, ScopeView::Mode(v.modes[u])) is None,
        modes_best(v, path, input, n) matches Some(b) ==> exists|u: int| 0 <= u < n && #[trigger] tier_best(v, path, input, ScopeView::Mode(v.modes[u])) == Some(b)
            && forall|w: int| u < w < n ==> #[trigger] tier_best(v, path, input, ScopeView::Mode(v.modes[w])) is None,
    decreases n,
{
    if n > 0 {
        lemma_modes_best(v, path, input, (n - 1) as nat);
        let top = tier_best(v, path, input, ScopeView::Mode(v.modes[n - 1]));
        if top is None {
            if modes_best(v, path, input, (n - 1) as nat) is Some {
                let b = modes_best(v, path, input, (n - 1) as nat).unwrap();
                let u = choose|u: int| 0 <= u < n - 1 && #[trigger] tier_best(v, path, input, ScopeView::Mode(v.modes[u])) == Some(b)
                    && forall|w: int| u < w < n - 1 ==> #[trigger] tier_best(v, path, input, ScopeView::Mode(v.modes[w])) is None;
                assert forall|w: int| u < w < n implies #[trigger] tier_best(v, path, input, ScopeView::Mode(v.modes[w])) is None by {
                    if w < n - 1 {
                    }
                }
            }
        } else {
            assert(tier_best(v, path, input, ScopeView::Mode(v.modes[n - 1])) == modes_best(v, path, input, n));
        }
    }
}

/// Law: with no exclusive group active, an input resolves to the best match
/// of the first application tier (global, the modes newest first, default)
/// that has a match, and to nothing when none has; with a group active, to
/// the best match among that group's exclusive framework bindings. Within a
/// tier the best match is the most specific, then the latest inserted
/// (`law_best_is_most_specific_then_latest`).
pub proof fn law_resolution_takes_the_first_tier_with_a_match(v: InputMapView, path: Seq<Seq<char>>, input: InputSpec)
    ensures
        ({
            let k = normalize_input(input);
            let tiers = app_tiers(v);
            &&& active_group(v) matches Some(g) ==> resolve_spec(v, path, input) == best_in(v.records, path, k, ScopeView::Exclusive(g), OwnerView::Framework(g))
            &&& active_group(v) is None ==> (resolve_spec(v, path, input) is None <==> forall|t: int| 0 <= t < tiers.len() ==> #[trigger] tier_best(v, path, k, tiers[t]) is None)
            &&& active_group(v) is None ==> (resolve_spec(v, path, input) matches Some(b) ==> exists|t: int| 0 <= t < tiers.len()
                && #[trigger] tier_best(v, path, k, tiers[t]) == Some(b)
                && forall|u: int| 0 <= u < t ==> #[trigger] tier_best(v, path, k, tiers[u]) is None)
        }),
{
    let k = normalize_input(input);
    let tiers = app_tiers(v);
    let n = v.modes.len() as int;
    if active_group(v) is None {
        lemma_modes_best(v, path, k, n as nat);
        assert(tiers.len() == n + 2);
        assert(tiers[0] == ScopeView::Global);
        assert(tiers[n + 1] == ScopeView::Default);
        assert forall|j: int| 0 <= j < n implies #[trigger] tiers[1 + j] == ScopeView::Mode(v.modes[n - 1 - j]) by {}
        let g = tier_best(v, path, k, ScopeView::Global);
        let mb = modes_best(v, path, k, n as nat);
        let d = tier_best(v, path, k, ScopeView::Default);
        if g is Some {
            assert(tier_best(v, path, k, tiers[0]) == g);
        } else if mb is Some {
            let b = mb.unwrap();
            let u = choose|u: int| 0 <= u < n && #[trigger] tier_best(v, path, k, ScopeView::Mode(v.modes[u])) == Some(b)
                && forall|w: int| u < w < n ==> #[trigger] tier_best(v, path, k, ScopeView::Mode(v.modes[w])) is None;
            let t = n - u;
            assert(tiers[1 + (n - 1 - u)] == ScopeView::Mode(v.modes[u]));
            assert(tier_best(v, path, k, tiers[t]) == Some(b));
            assert forall|x: int| 0 <= x < t implies #[trigger] tier_best(v, path, k, tiers[x]) is None by {
                if x > 0 {
                    let j = x - 1;
                    assert(tiers[1 + j] == ScopeView::Mode(v.modes[n - 1 - j]));
                    assert(tier_best(v, path, k, ScopeView::Mode(v.modes[n - 1 - j])) is None);
                }
            }
        } else {
            assert forall|x: int| 0 <= x < n + 1 implies #[trigger] tier_best(v, path, k, tiers[x]) is None by {
                if x > 0 {
                    let j = x - 1;
                    assert(tiers[1 + j] == ScopeView::Mode(v.modes[n - 1 - j]));
                    assert(tier_best(v, path, k, ScopeView::Mode(v.modes[n - 1 - j])) is None);
                }
            }
            if d is Some {
                assert(tier_best(v, path, k, tiers[n + 1]) == d);
            } else {
                assert forall|x: int| 0 <= x < tiers.len() implies #[trigger] tier_best(v, path, k, tiers[x]) is None by {
                    if x == n + 1 {
                    }
                }
            }
        }
    }
}

} // verus!
