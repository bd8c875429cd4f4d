//! The Luau type declarations of the records the script API exchanges, as a
//! table of plain values, and their registration with ruau's module
//! builder.

use vstd::prelude::*;
use ruau::declaration::{Alias, Field, Type};
use ruau::module::Builder;

verus! {

/// A declared Luau type.
pub enum DeclType {
    /// Any value.
    Any,
    /// A boolean.
    Boolean,
    /// A number.
    Number,
    /// A string.
    String,
    /// A type named elsewhere in the declarations.
    Named(&'static str),
    /// One of a set of string literals.
    Literals(Vec<&'static str>),
    /// A table with named fields.
    Table(Vec<DeclField>),
    /// An array of a type.
    Array(Box<DeclType>),
    /// A type or nil.
    Optional(Box<DeclType>),
}

/// A declared field of a table type.
pub struct DeclField {
    /// Field name.
    pub name: &'static str,
    /// Field type.
    pub ty: DeclType,
    /// Documentation, if any.
    pub doc: Option<&'static str>,
}

/// A declared type alias.
pub struct DeclAlias {
    /// Alias name.
    pub name: &'static str,
    /// The type it names.
    pub ty: DeclType,
    /// Documentation, if any.
    pub doc: Option<&'static str>,
}

/// The mathematical form of a declared type.
pub enum TypeView {
    /// Any value.
    Any,
    /// A boolean.
    Boolean,
    /// A number.
    Number,
    /// A string.
    String,
    /// A named type.
    Named(Seq<char>),
    /// One of a set of string literals.
    Literals(Seq<Seq<char>>),
    /// A table with named fields.
    Table(Seq<FieldView>),
    /// An array of a type.
    Array(Box<TypeView>),
    /// A type or nil.
    Optional(Box<TypeView>),
}

/// The mathematical form of a declared field.
pub struct FieldView {
    /// Field name.
    pub name: Seq<char>,
    /// Field type.
    pub ty: TypeView,
    /// Documentation, if any.
    pub doc: Option<Seq<char>>,
}

/// The mathematical form of a declared alias.
pub struct AliasView {
    /// Alias name.
    pub name: Seq<char>,
    /// The type it names.
    pub ty: TypeView,
    /// Documentation, if any.
    pub doc: Option<Seq<char>>,
}

/// The character view of optional documentation.
pub open spec fn doc_view(d: Option<&'static str>) -> Option<Seq<char>> {
    match d {
        Some(s) => Some(s@),
        None => None,
    }
}

/// The mathematical form of a declared type.
pub open spec fn type_view(t: DeclType) -> TypeView
    decreases t, 0nat,
{
    match t {
        DeclType::Any => TypeView::Any,
        DeclType::Boolean => TypeView::Boolean,
        DeclType::Number => TypeView::Number,
        DeclType::String => TypeView::String,
        DeclType::Named(n) => TypeView::Named(n@),
        DeclType::Literals(xs) => TypeView::Literals(xs@.map_values(|x: &'static str| x@)),
        DeclType::Table(fs) => {
            proof {
                assert(decreases_to!(fs => fs@));
            }
            TypeView::Table(fields_view(fs@))
        },
        DeclType::Array(b) => TypeView::Array(Box::new(type_view(*b))),
        DeclType::Optional(b) => TypeView::Optional(Box::new(type_view(*b))),
    }
}

/// The mathematical forms of declared fields, in order.
pub open spec fn fields_view(fs: Seq<DeclField>) -> Seq<FieldView>
    decreases fs, fs.len(),
{
    if fs.len() == 0 {
        Seq::empty()
    } else {
        proof {
            assert(decreases_to!(fs => fs.last()));
            vstd::seq::axiom_seq_len_decreases(fs, fs.drop_last());
        }
        fields_view(fs.drop_last()).push(FieldView { name: fs.last().name@, ty: type_view(fs.last().ty), doc: doc_view(fs.last().doc) })
    }
}

/// The mathematical form of a declared alias.
pub open spec fn alias_view(a: DeclAlias) -> AliasView {
    AliasView { name: a.name@, ty: type_view(a.ty), doc: doc_view(a.doc) }
}

/// The mathematical forms of declared aliases, in order.
pub open spec fn aliases_view(v: Seq<DeclAlias>) -> Seq<AliasView> {
    v.map_values(|a: DeclAlias| alias_view(a))
}

/// An empty set of literals.
fn new_literals() -> (v: Vec<&'static str>)
    ensures
        v@.map_values(|s: &'static str| s@) == Seq::<Seq<char>>::empty(),
{
    let v: Vec<&'static str> = Vec::new();
    assert(v@.map_values(|s: &'static str| s@) =~= Seq::<Seq<char>>::empty());
    v
}

/// An empty list of fields.
fn new_fields() -> (v: Vec<DeclField>)
    ensures
        fields_view(v@) == Seq::<FieldView>::empty(),
{
    Vec::new()
}

/// Append a literal to a set of literals.
fn push_literal(v: &mut Vec<&'static str>, x: &'static str)
    ensures
        final(v)@.map_values(|s: &'static str| s@) == old(v)@.map_values(|s: &'static str| s@).push(x@),
{
    v.push(x);
    assert(v@.map_values(|s: &'static str| s@) =~= old(v)@.map_values(|s: &'static str| s@).push(x@));
}

/// Append a field to a table's fields.
fn push_field(fs: &mut Vec<DeclField>, name: &'static str, ty: DeclType, doc: Option<&'static str>)
    ensures
        fields_view(final(fs)@) == fields_view(old(fs)@).push(FieldView { name: name@, ty: type_view(ty), doc: doc_view(doc) }),
{
    let ghost tv = type_view(ty);
    fs.push(DeclField { name, ty, doc });
    assert(fs@.drop_last() =~= old(fs)@);
}

/// Append an alias to a list of declarations.
fn push_alias(out: &mut Vec<DeclAlias>, name: &'static str, ty: DeclType, doc: Option<&'static str>)
    ensures
        aliases_view(final(out)@) == aliases_view(old(out)@).push(AliasView { name: name@, ty: type_view(ty), doc: doc_view(doc) }),
{
    out.push(DeclAlias { name, ty, doc });
    assert(aliases_view(out@) =~= aliases_view(old(out)@).push(AliasView { name: name@, ty: type_view(ty), doc: doc_view(doc) }));
}

/// The fields of a node summary record, with the type and documentation of
/// its children.
pub open spec fn node_info_fields_spec(children: TypeView, children_doc: Seq<char>) -> Seq<FieldView> {
    Seq::empty()
        .push(FieldView { name: "id"@, ty: TypeView::Named("NodeId"@), doc: Some("Stable node handle for use in other API calls."@) })
        .push(FieldView { name: "name"@, ty: TypeView::String, doc: Some("Widget owner name used in paths and command dispatch."@) })
        .push(FieldView { name: "semantic_identity"@, ty: TypeView::Optional(Box::new(TypeView::Named("SemanticIdentity"@))), doc: Some("Application key and explicit arena scope, if registered."@) })
        .push(FieldView { name: "focused"@, ty: TypeView::Boolean, doc: Some("True when this node currently owns focus."@) })
        .push(FieldView { name: "on_focus_path"@, ty: TypeView::Boolean, doc: Some("True when this node lies on the path to the focused node."@) })
        .push(FieldView { name: "hidden"@, ty: TypeView::Boolean, doc: Some("True when the node's hidden flag is set."@) })
        .push(FieldView { name: "visible"@, ty: TypeView::Boolean, doc: Some("True when the node is visible."@) })
        .push(FieldView { name: "children"@, ty: children, doc: Some(children_doc) })
        .push(FieldView { name: "rect"@, ty: TypeView::Optional(Box::new(TypeView::Named("Rect"@))), doc: Some("Outer rectangle on screen, or nil for zero-sized nodes."@) })
        .push(FieldView { name: "content_rect"@, ty: TypeView::Optional(Box::new(TypeView::Named("Rect"@))), doc: Some("Inner content rectangle after padding, or nil when zero-sized."@) })
        .push(FieldView { name: "canvas"@, ty: TypeView::Named("Size"@), doc: Some("Total scrollable canvas size in content coordinates."@) })
        .push(FieldView { name: "scroll"@, ty: TypeView::Named("Point"@), doc: Some("Current viewport origin within the canvas."@) })
        .push(FieldView { name: "accept_focus"@, ty: TypeView::Boolean, doc: Some("True when the widget reports that it can accept focus."@) })

}

/// The fields of a node summary record, with the type and documentation of
/// its children.
fn node_info_fields(children: DeclType, children_doc: &'static str) -> (r: Vec<DeclField>)
    ensures
        fields_view(r@) == node_info_fields_spec(type_view(children), children_doc@),
{
    proof {
        reveal_with_fuel(type_view, 4);
    }
    let ghost cv = type_view(children);
    let mut fields = new_fields();
    push_field(&mut fields, "id", DeclType::Named("NodeId"), Some("Stable node handle for use in other API calls."));
    push_field(&mut fields, "name", DeclType::String, Some("Widget owner name used in paths and command dispatch."));
    push_field(&mut fields, "semantic_identity", DeclType::Optional(Box::new(DeclType::Named("SemanticIdentity"))), Some("Application key and explicit arena scope, if registered."));
    push_field(&mut fields, "focused", DeclType::Boolean, Some("True when this node currently owns focus."));
    push_field(&mut fields, "on_focus_path", DeclType::Boolean, Some("True when this node lies on the path to the focused node."));
    push_field(&mut fields, "hidden", DeclType::Boolean, Some("True when the node's hidden flag is set."));
    push_field(&mut fields, "visible", DeclType::Boolean, Some("True when the node is visible."));
    push_field(&mut fields, "children", children, Some(children_doc));
    push_field(&mut fields, "rect", DeclType::Optional(Box::new(DeclType::Named("Rect"))), Some("Outer rectangle on screen, or nil for zero-sized nodes."));
    push_field(&mut fields, "content_rect", DeclType::Optional(Box::new(DeclType::Named("Rect"))), Some("Inner content rectangle after padding, or nil when zero-sized."));
    push_field(&mut fields, "canvas", DeclType::Named("Size"), Some("Total scrollable canvas size in content coordinates."));
    push_field(&mut fields, "scroll", DeclType::Named("Point"), Some("Current viewport origin within the canvas."));
    push_field(&mut fields, "accept_focus", DeclType::Boolean, Some("True when the widget reports that it can accept focus."));
    assert(fields_view(fields@) =~= node_info_fields_spec(cv, children_doc@));
    fields
}

/// The framework-owned records and aliases of the script API, followed by
/// the binding, command and observation records.
pub open spec fn framework_spec() -> Seq<AliasView> {
    Seq::empty()
        .push(AliasView { name: "Point"@, ty: TypeView::Table(Seq::empty()
            .push(FieldView { name: "x"@, ty: TypeView::Number, doc: None })
            .push(FieldView { name: "y"@, ty: TypeView::Number, doc: None })
        ), doc: None })
        .push(AliasView { name: "Size"@, ty: TypeView::Table(Seq::empty()
            .push(FieldView { name: "w"@, ty: TypeView::Number, doc: Some("Width in cells."@) })
            .push(FieldView { name: "h"@, ty: TypeView::Number, doc: Some("Height in cells."@) })
        ), doc: None })
        .push(AliasView { name: "Rect"@, ty: TypeView::Table(Seq::empty()
            .push(FieldView { name: "x"@, ty: TypeView::Number, doc: Some("Left edge in cells from the origin."@) })
            .push(FieldView { name: "y"@, ty: TypeView::Number, doc: Some("Top edge in cells from the origin."@) })
            .push(FieldView { name: "w"@, ty: TypeView::Number, doc: Some("Width in cells."@) })
            .push(FieldView { name: "h"@, ty: TypeView::Number, doc: Some("Height in cells."@) })
        ), doc: None })
        .push(AliasView { name: "SemanticIdentity"@, ty: TypeView::Table(Seq::empty()
            .push(FieldView { name: "scope"@, ty: TypeView::Named("NodeId"@), doc: None })
            .push(FieldView { name: "key"@, ty: TypeView::String, doc: None })
        ), doc: None })
        .push(AliasView { name: "NodeInfo"@, ty: TypeView::Table(node_info_fields_spec(TypeView::Array(Box::new(TypeView::Named("NodeId"@))), "Direct child nodes in tree order."@)), doc: Some("Summary information for a node in the widget tree."@) })
        .push(AliasView { name: "TreeNode"@, ty: TypeView::Table(node_info_fields_spec(TypeView::Array(Box::new(TypeView::Named("TreeNode"@))), "Recursive child tree entries in tree order."@)), doc: None })
        .push(AliasView { name: "CommandTarget"@, ty: TypeView::Table(Seq::empty()
            .push(FieldView { name: "kind"@, ty: TypeView::Literals(Seq::empty().push("anchor"@).push("exact"@).push("from"@).push("focus"@)), doc: None })
            .push(FieldView { name: "node"@, ty: TypeView::Optional(Box::new(TypeView::Named("NodeId"@))), doc: Some("Required for exact and from; omitted for anchor and focus."@) })
        ), doc: None })
        .push(AliasView { name: "BindOptions"@, ty: TypeView::Table(Seq::empty()
            .push(FieldView { name: "description"@, ty: TypeView::String, doc: Some("Required user-facing binding description."@) })
            .push(FieldView { name: "mode"@, ty: TypeView::Optional(Box::new(TypeView::String)), doc: Some("Optional input mode. Nil or empty uses the default mode."@) })
            .push(FieldView { name: "path"@, ty: TypeView::Optional(Box::new(TypeView::String)), doc: Some("Optional path filter such as `editor/*`."@) })
            .push(FieldView { name: "phase"@, ty: TypeView::Optional(Box::new(TypeView::Literals(Seq::empty().push("before_widget"@).push("after_widget"@)))), doc: Some("Explicit key dispatch phase. Mouse bindings accept only after_widget."@) })
            .push(FieldView { name: "tier"@, ty: TypeView::Optional(Box::new(TypeView::Literals(Seq::empty().push("global"@)))), doc: Some("Use the global tier. A global binding cannot name a mode."@) })
        ), doc: None })
        .push(AliasView { name: "UnbindSelector"@, ty: TypeView::Table(Seq::empty()
            .push(FieldView { name: "mode"@, ty: TypeView::Optional(Box::new(TypeView::String)), doc: Some("Optional named mode to match."@) })
            .push(FieldView { name: "path"@, ty: TypeView::Optional(Box::new(TypeView::String)), doc: Some("Optional exact path filter to match."@) })
        ), doc: None })
        .push(AliasView { name: "MouseSpec"@, ty: TypeView::String, doc: None })
        .push(AliasView { name: "FixtureInfo"@, ty: TypeView::Table(Seq::empty()
            .push(FieldView { name: "name"@, ty: TypeView::String, doc: Some("Stable fixture name used by automation tooling."@) })
            .push(FieldView { name: "description"@, ty: TypeView::String, doc: Some("Human-readable description of the state the fixture creates."@) })
        ), doc: None })

        + binding_info_spec()
        + command_info_spec()
        + observation_info_spec()
}

/// Append the framework-owned records and aliases of the script API, followed by
/// the binding, command and observation records.
fn push_framework(out: &mut Vec<DeclAlias>)
    ensures
        aliases_view(final(out)@) == aliases_view(old(out)@) + framework_spec(),
{
    proof {
        reveal_with_fuel(type_view, 4);
    }
    let ghost start = aliases_view(out@);
    let mut fields1 = new_fields();
    push_field(&mut fields1, "x", DeclType::Number, None);
    push_field(&mut fields1, "y", DeclType::Number, None);
    push_alias(out, "Point", DeclType::Table(fields1), None);
    let mut fields2 = new_fields();
    push_field(&mut fields2, "w", DeclType::Number, Some("Width in cells."));
    push_field(&mut fields2, "h", DeclType::Number, Some("Height in cells."));
    push_alias(out, "Size", DeclType::Table(fields2), None);
    let mut fields3 = new_fields();
    push_field(&mut fields3, "x", DeclType::Number, Some("Left edge in cells from the origin."));
    push_field(&mut fields3, "y", DeclType::Number, Some("Top edge in cells from the origin."));
    push_field(&mut fields3, "w", DeclType::Number, Some("Width in cells."));
    push_field(&mut fields3, "h", DeclType::Number, Some("Height in cells."));
    push_alias(out, "Rect", DeclType::Table(fields3), None);
    let mut fields4 = new_fields();
    push_field(&mut fields4, "scope", DeclType::Named("NodeId"), None);
    push_field(&mut fields4, "key", DeclType::String, None);
    push_alias(out, "SemanticIdentity", DeclType::Table(fields4), None);
    let node_fields5 = node_info_fields(DeclType::Array(Box::new(DeclType::Named("NodeId"))), "Direct child nodes in tree order.");
    push_alias(out, "NodeInfo", DeclType::Table(node_fields5), Some("Summary information for a node in the widget tree."));
    let node_fields6 = node_info_fields(DeclType::Array(Box::new(DeclType::Named("TreeNode"))), "Recursive child tree entries in tree order.");
    push_alias(out, "TreeNode", DeclType::Table(node_fields6), None);
    let mut fields7 = new_fields();
    let mut literals8 = new_literals();
    push_literal(&mut literals8, "anchor");
    push_literal(&mut literals8, "exact");
    push_literal(&mut literals8, "from");
    push_literal(&mut literals8, "focus");
    push_field(&mut fields7, "kind", DeclType::Literals(literals8), None);
    push_field(&mut fields7, "node", DeclType::Optional(Box::new(DeclType::Named("NodeId"))), Some("Required for exact and from; omitted for anchor and focus."));
    push_alias(out, "CommandTarget", DeclType::Table(fields7), None);
    let mut fields9 = new_fields();
    push_field(&mut fields9, "description", DeclType::String, Some("Required user-facing binding description."));
    push_field(&mut fields9, "mode", DeclType::Optional(Box::new(DeclType::String)), Some("Optional input mode. Nil or empty uses the default mode."));
    push_field(&mut fields9, "path", DeclType::Optional(Box::new(DeclType::String)), Some("Optional path filter such as `editor/*`."));
    let mut literals10 = new_literals();
    push_literal(&mut literals10, "before_widget");
    push_literal(&mut literals10, "after_widget");
    push_field(&mut fields9, "phase", DeclType::Optional(Box::new(DeclType::Literals(literals10))), Some("Explicit key dispatch phase. Mouse bindings accept only after_widget."));
    let mut literals11 = new_literals();
    push_literal(&mut literals11, "global");
    push_field(&mut fields9, "tier", DeclType::Optional(Box::new(DeclType::Literals(literals11))), Some("Use the global tier. A global binding cannot name a mode."));
    push_alias(out, "BindOptions", DeclType::Table(fields9), None);
    let mut fields12 = new_fields();
    push_field(&mut fields12, "mode", DeclType::Optional(Box::new(DeclType::String)), Some("Optional named mode to match."));
    push_field(&mut fields12, "path", DeclType::Optional(Box::new(DeclType::String)), Some("Optional exact path filter to match."));
    push_alias(out, "UnbindSelector", DeclType::Table(fields12), None);
    push_alias(out, "MouseSpec", DeclType::String, None);
    let mut fields13 = new_fields();
    push_field(&mut fields13, "name", DeclType::String, Some("Stable fixture name used by automation tooling."));
    push_field(&mut fields13, "description", DeclType::String, Some("Human-readable description of the state the fixture creates."));
    push_alias(out, "FixtureInfo", DeclType::Table(fields13), None);
    push_binding_info(out);
    push_command_info(out);
    push_observation_info(out);
    assert(aliases_view(out@) =~= start + framework_spec());
}

/// The active-binding discovery record.
pub open spec fn binding_info_spec() -> Seq<AliasView> {
    Seq::empty()
        .push(AliasView { name: "BindingInfo"@, ty: TypeView::Table(Seq::empty()
            .push(FieldView { name: "id"@, ty: TypeView::Number, doc: Some("Stable numeric binding identifier."@) })
            .push(FieldView { name: "input"@, ty: TypeView::String, doc: Some("Normalized key or mouse spec string."@) })
            .push(FieldView { name: "input_type"@, ty: TypeView::Literals(Seq::empty().push("key"@).push("mouse"@)), doc: None })
            .push(FieldView { name: "owner"@, ty: TypeView::String, doc: Some("Application or framework group owner."@) })
            .push(FieldView { name: "scope"@, ty: TypeView::Literals(Seq::empty().push("global"@).push("mode"@).push("default"@).push("exclusive"@)), doc: None })
            .push(FieldView { name: "mode"@, ty: TypeView::Optional(Box::new(TypeView::String)), doc: Some("Named input mode, when the scope is mode."@) })
            .push(FieldView { name: "path"@, ty: TypeView::String, doc: Some("Path filter string used when matching the focused path."@) })
            .push(FieldView { name: "phase"@, ty: TypeView::Optional(Box::new(TypeView::Literals(Seq::empty().push("before_widget"@).push("after_widget"@)))), doc: None })
            .push(FieldView { name: "command"@, ty: TypeView::Optional(Box::new(TypeView::String)), doc: None })
            .push(FieldView { name: "arguments"@, ty: TypeView::Optional(Box::new(TypeView::Any)), doc: None })
            .push(FieldView { name: "command_target"@, ty: TypeView::Optional(Box::new(TypeView::Table(Seq::empty()
                .push(FieldView { name: "kind"@, ty: TypeView::Literals(Seq::empty().push("route"@).push("exact"@).push("from"@).push("focus"@)), doc: None })
                .push(FieldView { name: "node"@, ty: TypeView::Optional(Box::new(TypeView::Named("NodeId"@))), doc: None })
            ))), doc: None })
            .push(FieldView { name: "description"@, ty: TypeView::String, doc: Some("Required user-facing description."@) })
            .push(FieldView { name: "source"@, ty: TypeView::Optional(Box::new(TypeView::String)), doc: Some("Diagnostic source for application bindings."@) })
            .push(FieldView { name: "target"@, ty: TypeView::Literals(Seq::empty().push("script"@).push("command"@)), doc: None })
        ), doc: None })

}

/// Append the active-binding discovery record.
fn push_binding_info(out: &mut Vec<DeclAlias>)
    ensures
        aliases_view(final(out)@) == aliases_view(old(out)@) + binding_info_spec(),
{
    proof {
        reveal_with_fuel(type_view, 4);
    }
    let ghost start = aliases_view(out@);
    let mut fields14 = new_fields();
    push_field(&mut fields14, "id", DeclType::Number, Some("Stable numeric binding identifier."));
    push_field(&mut fields14, "input", DeclType::String, Some("Normalized key or mouse spec string."));
    let mut literals15 = new_literals();
    push_literal(&mut literals15, "key");
    push_literal(&mut literals15, "mouse");
    push_field(&mut fields14, "input_type", DeclType::Literals(literals15), None);
    push_field(&mut fields14, "owner", DeclType::String, Some("Application or framework group owner."));
    let mut literals16 = new_literals();
    push_literal(&mut literals16, "global");
    push_literal(&mut literals16, "mode");
    push_literal(&mut literals16, "default");
    push_literal(&mut literals16, "exclusive");
    push_field(&mut fields14, "scope", DeclType::Literals(literals16), None);
    push_field(&mut fields14, "mode", DeclType::Optional(Box::new(DeclType::String)), Some("Named input mode, when the scope is mode."));
    push_field(&mut fields14, "path", DeclType::String, Some("Path filter string used when matching the focused path."));
    let mut literals17 = new_literals();
    push_literal(&mut literals17, "before_widget");
    push_literal(&mut literals17, "after_widget");
    push_field(&mut fields14, "phase", DeclType::Optional(Box::new(DeclType::Literals(literals17))), None);
    push_field(&mut fields14, "command", DeclType::Optional(Box::new(DeclType::String)), None);
    push_field(&mut fields14, "arguments", DeclType::Optional(Box::new(DeclType::Any)), None);
    let mut fields18 = new_fields();
    let mut literals19 = new_literals();
    push_literal(&mut literals19, "route");
    push_literal(&mut literals19, "exact");
    push_literal(&mut literals19, "from");
    push_literal(&mut literals19, "focus");
    push_field(&mut fields18, "kind", DeclType::Literals(literals19), None);
    push_field(&mut fields18, "node", DeclType::Optional(Box::new(DeclType::Named("NodeId"))), None);
    push_field(&mut fields14, "command_target", DeclType::Optional(Box::new(DeclType::Table(fields18))), None);
    push_field(&mut fields14, "description", DeclType::String, Some("Required user-facing description."));
    push_field(&mut fields14, "source", DeclType::Optional(Box::new(DeclType::String)), Some("Diagnostic source for application bindings."));
    let mut literals20 = new_literals();
    push_literal(&mut literals20, "script");
    push_literal(&mut literals20, "command");
    push_field(&mut fields14, "target", DeclType::Literals(literals20), None);
    push_alias(out, "BindingInfo", DeclType::Table(fields14), None);
    assert(aliases_view(out@) =~= start + binding_info_spec());
}

/// The command discovery records.
pub open spec fn command_info_spec() -> Seq<AliasView> {
    Seq::empty()
        .push(AliasView { name: "CommandParamInfo"@, ty: TypeView::Table(Seq::empty()
            .push(FieldView { name: "name"@, ty: TypeView::String, doc: Some("Parameter name used for named invocation."@) })
            .push(FieldView { name: "kind"@, ty: TypeView::Literals(Seq::empty().push("injected"@).push("user"@)), doc: Some("Whether the parameter is injected or user-supplied."@) })
            .push(FieldView { name: "requirement"@, ty: TypeView::Optional(Box::new(TypeView::Literals(Seq::empty().push("event"@).push("mouse"@).push("list_row"@)))), doc: Some("Injected context kind. Optional parameters do not require its presence."@) })
            .push(FieldView { name: "rust_type"@, ty: TypeView::String, doc: Some("Rust type name from command metadata."@) })
            .push(FieldView { name: "luau_type"@, ty: TypeView::String, doc: Some("Luau type rendered for this parameter."@) })
            .push(FieldView { name: "doc"@, ty: TypeView::Optional(Box::new(TypeView::String)), doc: None })
            .push(FieldView { name: "optional"@, ty: TypeView::Boolean, doc: Some("True when the caller may omit the parameter."@) })
        ), doc: None })
        .push(AliasView { name: "CommandInfo"@, ty: TypeView::Table(Seq::empty()
            .push(FieldView { name: "name"@, ty: TypeView::String, doc: Some("Command name relative to its owner table."@) })
            .push(FieldView { name: "owner"@, ty: TypeView::String, doc: Some("Widget owner name, or the empty string for free commands."@) })
            .push(FieldView { name: "doc"@, ty: TypeView::Optional(Box::new(TypeView::String)), doc: None })
            .push(FieldView { name: "params"@, ty: TypeView::Array(Box::new(TypeView::Named("CommandParamInfo"@))), doc: Some("Parameter metadata in declaration order."@) })
            .push(FieldView { name: "ret"@, ty: TypeView::String, doc: Some("Luau return type rendered for this command."@) })
            .push(FieldView { name: "ret_doc"@, ty: TypeView::Optional(Box::new(TypeView::String)), doc: None })
            .push(FieldView { name: "available"@, ty: TypeView::Boolean, doc: Some("True when the command can resolve from the current script anchor."@) })
            .push(FieldView { name: "target"@, ty: TypeView::Optional(Box::new(TypeView::Named("NodeId"@))), doc: Some("Current target node, when a node command can resolve."@) })
            .push(FieldView { name: "status"@, ty: TypeView::Optional(Box::new(TypeView::Literals(Seq::empty().push("enabled"@).push("disabled"@)))), doc: None })
            .push(FieldView { name: "disabled_reason"@, ty: TypeView::Optional(Box::new(TypeView::String)), doc: None })
            .push(FieldView { name: "missing_requirements"@, ty: TypeView::Array(Box::new(TypeView::Literals(Seq::empty().push("event"@).push("mouse"@).push("list_row"@)))), doc: None })
        ), doc: None })

}

/// Append the command discovery records.
fn push_command_info(out: &mut Vec<DeclAlias>)
    ensures
        aliases_view(final(out)@) == aliases_view(old(out)@) + command_info_spec(),
{
    proof {
        reveal_with_fuel(type_view, 4);
    }
    let ghost start = aliases_view(out@);
    let mut fields21 = new_fields();
    push_field(&mut fields21, "name", DeclType::String, Some("Parameter name used for named invocation."));
    let mut literals22 = new_literals();
    push_literal(&mut literals22, "injected");
    push_literal(&mut literals22, "user");
    push_field(&mut fields21, "kind", DeclType::Literals(literals22), Some("Whether the parameter is injected or user-supplied."));
    let mut literals23 = new_literals();
    push_literal(&mut literals23, "event");
    push_literal(&mut literals23, "mouse");
    push_literal(&mut literals23, "list_row");
    push_field(&mut fields21, "requirement", DeclType::Optional(Box::new(DeclType::Literals(literals23))), Some("Injected context kind. Optional parameters do not require its presence."));
    push_field(&mut fields21, "rust_type", DeclType::String, Some("Rust type name from command metadata."));
    push_field(&mut fields21, "luau_type", DeclType::String, Some("Luau type rendered for this parameter."));
    push_field(&mut fields21, "doc", DeclType::Optional(Box::new(DeclType::String)), None);
    push_field(&mut fields21, "optional", DeclType::Boolean, Some("True when the caller may omit the parameter."));
    push_alias(out, "CommandParamInfo", DeclType::Table(fields21), None);
    let mut fields24 = new_fields();
    push_field(&mut fields24, "name", DeclType::String, Some("Command name relative to its owner table."));
    push_field(&mut fields24, "owner", DeclType::String, Some("Widget owner name, or the empty string for free commands."));
    push_field(&mut fields24, "doc", DeclType::Optional(Box::new(DeclType::String)), None);
    push_field(&mut fields24, "params", DeclType::Array(Box::new(DeclType::Named("CommandParamInfo"))), Some("Parameter metadata in declaration order."));
    push_field(&mut fields24, "ret", DeclType::String, Some("Luau return type rendered for this command."));
    push_field(&mut fields24, "ret_doc", DeclType::Optional(Box::new(DeclType::String)), None);
    push_field(&mut fields24, "available", DeclType::Boolean, Some("True when the command can resolve from the current script anchor."));
    push_field(&mut fields24, "target", DeclType::Optional(Box::new(DeclType::Named("NodeId"))), Some("Current target node, when a node command can resolve."));
    let mut literals25 = new_literals();
    push_literal(&mut literals25, "enabled");
    push_literal(&mut literals25, "disabled");
    push_field(&mut fields24, "status", DeclType::Optional(Box::new(DeclType::Literals(literals25))), None);
    push_field(&mut fields24, "disabled_reason", DeclType::Optional(Box::new(DeclType::String)), None);
    let mut literals26 = new_literals();
    push_literal(&mut literals26, "event");
    push_literal(&mut literals26, "mouse");
    push_literal(&mut literals26, "list_row");
    push_field(&mut fields24, "missing_requirements", DeclType::Array(Box::new(DeclType::Literals(literals26))), None);
    push_alias(out, "CommandInfo", DeclType::Table(fields24), None);
    assert(aliases_view(out@) =~= start + command_info_spec());
}

/// The observation records: the frame snapshot records first, then the
/// screen, route-trace, available-binding and journal records.
pub open spec fn observation_info_spec() -> Seq<AliasView> {
    snapshot_info_spec()
        + Seq::empty()
        .push(AliasView { name: "ScreenCell"@, ty: TypeView::Table(Seq::empty()
            .push(FieldView { name: "x"@, ty: TypeView::Number, doc: None })
            .push(FieldView { name: "y"@, ty: TypeView::Number, doc: None })
            .push(FieldView { name: "text"@, ty: TypeView::String, doc: Some("Rendered grapheme text for this cell."@) })
            .push(FieldView { name: "fg"@, ty: TypeView::String, doc: Some("Resolved foreground color as #rrggbb."@) })
            .push(FieldView { name: "bg"@, ty: TypeView::String, doc: Some("Resolved background color as #rrggbb."@) })
            .push(FieldView { name: "attrs"@, ty: TypeView::Array(Box::new(TypeView::String)), doc: Some("Resolved text attributes such as bold or underline."@) })
            .push(FieldView { name: "continuation"@, ty: TypeView::Boolean, doc: Some("True when this cell continues a wide grapheme."@) })
        ), doc: None })
        .push(AliasView { name: "RouteTraceEntry"@, ty: TypeView::Table(Seq::empty()
            .push(FieldView { name: "phase"@, ty: TypeView::String, doc: None })
            .push(FieldView { name: "node"@, ty: TypeView::Optional(Box::new(TypeView::Named("NodeId"@))), doc: None })
            .push(FieldView { name: "path"@, ty: TypeView::String, doc: Some("Focused path visible to this step."@) })
            .push(FieldView { name: "detail"@, ty: TypeView::String, doc: None })
        ), doc: None })
        .push(AliasView { name: "AvailableBinding"@, ty: TypeView::Table(Seq::empty()
            .push(FieldView { name: "id"@, ty: TypeView::Number, doc: Some("Stable numeric binding identifier."@) })
            .push(FieldView { name: "input"@, ty: TypeView::String, doc: Some("Normalized key spec."@) })
            .push(FieldView { name: "declared_phase"@, ty: TypeView::Optional(Box::new(TypeView::Literals(Seq::empty().push("before_widget"@).push("after_widget"@)))), doc: None })
            .push(FieldView { name: "command"@, ty: TypeView::Optional(Box::new(TypeView::Table(Seq::empty()
                .push(FieldView { name: "command"@, ty: TypeView::String, doc: None })
                .push(FieldView { name: "arguments"@, ty: TypeView::Any, doc: None })
                .push(FieldView { name: "command_target"@, ty: TypeView::Table(Seq::empty()
                    .push(FieldView { name: "kind"@, ty: TypeView::Literals(Seq::empty().push("route"@).push("exact"@).push("from"@).push("focus"@)), doc: None })
                    .push(FieldView { name: "node"@, ty: TypeView::Optional(Box::new(TypeView::Named("NodeId"@))), doc: None })
                ), doc: None })
                .push(FieldView { name: "available"@, ty: TypeView::Boolean, doc: None })
                .push(FieldView { name: "target"@, ty: TypeView::Optional(Box::new(TypeView::Named("NodeId"@))), doc: None })
                .push(FieldView { name: "status"@, ty: TypeView::Optional(Box::new(TypeView::Literals(Seq::empty().push("enabled"@).push("disabled"@)))), doc: None })
                .push(FieldView { name: "disabled_reason"@, ty: TypeView::Optional(Box::new(TypeView::String)), doc: None })
                .push(FieldView { name: "missing_requirements"@, ty: TypeView::Array(Box::new(TypeView::Literals(Seq::empty().push("event"@).push("mouse"@).push("list_row"@)))), doc: None })
            ))), doc: None })
            .push(FieldView { name: "description"@, ty: TypeView::String, doc: None })
            .push(FieldView { name: "owner"@, ty: TypeView::String, doc: Some("Application or framework group owner."@) })
            .push(FieldView { name: "scope"@, ty: TypeView::Literals(Seq::empty().push("global"@).push("mode"@).push("default"@).push("exclusive"@)), doc: None })
            .push(FieldView { name: "mode"@, ty: TypeView::Optional(Box::new(TypeView::String)), doc: Some("Named mode when the scope is mode."@) })
            .push(FieldView { name: "path"@, ty: TypeView::String, doc: None })
            .push(FieldView { name: "route_path"@, ty: TypeView::String, doc: Some("Route path at which this binding wins."@) })
            .push(FieldView { name: "phase"@, ty: TypeView::Literals(Seq::empty().push("before_widget"@).push("after_widget"@)), doc: Some("Phase relative to widget input handling."@) })
            .push(FieldView { name: "source"@, ty: TypeView::Optional(Box::new(TypeView::String)), doc: Some("Diagnostic source when available."@) })
        ), doc: None })
        .push(AliasView { name: "BindingSnapshot"@, ty: TypeView::Table(Seq::empty()
            .push(FieldView { name: "focus"@, ty: TypeView::Named("NodeId"@), doc: None })
            .push(FieldView { name: "focus_path"@, ty: TypeView::String, doc: Some("Path from root to focus."@) })
            .push(FieldView { name: "active_modes"@, ty: TypeView::Array(Box::new(TypeView::String)), doc: Some("Active modes in resolution order."@) })
            .push(FieldView { name: "exclusive_group"@, ty: TypeView::Optional(Box::new(TypeView::String)), doc: Some("Active exclusive framework group."@) })
            .push(FieldView { name: "bindings"@, ty: TypeView::Array(Box::new(TypeView::Named("AvailableBinding"@))), doc: Some("Effective key bindings for the context."@) })
        ), doc: None })
        .push(AliasView { name: "ScriptAssertionInfo"@, ty: TypeView::Table(Seq::empty()
            .push(FieldView { name: "passed"@, ty: TypeView::Boolean, doc: None })
            .push(FieldView { name: "message"@, ty: TypeView::String, doc: None })
        ), doc: None })
        .push(AliasView { name: "ScriptJournalEntry"@, ty: TypeView::Table(Seq::empty()
            .push(FieldView { name: "id"@, ty: TypeView::Number, doc: Some("Monotonic journal id."@) })
            .push(FieldView { name: "origin"@, ty: TypeView::String, doc: Some("Script origin such as eval, config, or startup."@) })
            .push(FieldView { name: "source"@, ty: TypeView::String, doc: None })
            .push(FieldView { name: "ok"@, ty: TypeView::Boolean, doc: Some("True when evaluation completed successfully."@) })
            .push(FieldView { name: "error"@, ty: TypeView::Optional(Box::new(TypeView::String)), doc: Some("Error message when evaluation failed."@) })
            .push(FieldView { name: "logs"@, ty: TypeView::Array(Box::new(TypeView::String)), doc: None })
            .push(FieldView { name: "assertions"@, ty: TypeView::Array(Box::new(TypeView::Named("ScriptAssertionInfo"@))), doc: None })
            .push(FieldView { name: "duration_ms"@, ty: TypeView::Number, doc: Some("Wall-clock duration in milliseconds."@) })
        ), doc: None })

}

/// Append the observation records: the frame snapshot records first, then the
/// screen, route-trace, available-binding and journal records.
fn push_observation_info(out: &mut Vec<DeclAlias>)
    ensures
        aliases_view(final(out)@) == aliases_view(old(out)@) + observation_info_spec(),
{
    proof {
        reveal_with_fuel(type_view, 4);
    }
    let ghost start = aliases_view(out@);
    push_snapshot_info(out);
    let mut fields27 = new_fields();
    push_field(&mut fields27, "x", DeclType::Number, None);
    push_field(&mut fields27, "y", DeclType::Number, None);
    push_field(&mut fields27, "text", DeclType::String, Some("Rendered grapheme text for this cell."));
    push_field(&mut fields27, "fg", DeclType::String, Some("Resolved foreground color as #rrggbb."));
    push_field(&mut fields27, "bg", DeclType::String, Some("Resolved background color as #rrggbb."));
    push_field(&mut fields27, "attrs", DeclType::Array(Box::new(DeclType::String)), Some("Resolved text attributes such as bold or underline."));
    push_field(&mut fields27, "continuation", DeclType::Boolean, Some("True when this cell continues a wide grapheme."));
    push_alias(out, "ScreenCell", DeclType::Table(fields27), None);
    let mut fields28 = new_fields();
    push_field(&mut fields28, "phase", DeclType::String, None);
    push_field(&mut fields28, "node", DeclType::Optional(Box::new(DeclType::Named("NodeId"))), None);
    push_field(&mut fields28, "path", DeclType::String, Some("Focused path visible to this step."));
    push_field(&mut fields28, "detail", DeclType::String, None);
    push_alias(out, "RouteTraceEntry", DeclType::Table(fields28), None);
    let mut fields29 = new_fields();
    push_field(&mut fields29, "id", DeclType::Number, Some("Stable numeric binding identifier."));
    push_field(&mut fields29, "input", DeclType::String, Some("Normalized key spec."));
    let mut literals30 = new_literals();
    push_literal(&mut literals30, "before_widget");
    push_literal(&mut literals30, "after_widget");
    push_field(&mut fields29, "declared_phase", DeclType::Optional(Box::new(DeclType::Literals(literals30))), None);
    let mut fields31 = new_fields();
    push_field(&mut fields31, "command", DeclType::String, None);
    push_field(&mut fields31, "arguments", DeclType::Any, None);
    let mut fields32 = new_fields();
    let mut literals33 = new_literals();
    push_literal(&mut literals33, "route");
    push_literal(&mut literals33, "exact");
    push_literal(&mut literals33, "from");
    push_literal(&mut literals33, "focus");
    push_field(&mut fields32, "kind", DeclType::Literals(literals33), None);
    push_field(&mut fields32, "node", DeclType::Optional(Box::new(DeclType::Named("NodeId"))), None);
    push_field(&mut fields31, "command_target", DeclType::Table(fields32), None);
    push_field(&mut fields31, "available", DeclType::Boolean, None);
    push_field(&mut fields31, "target", DeclType::Optional(Box::new(DeclType::Named("NodeId"))), None);
    let mut literals34 = new_literals();
    push_literal(&mut literals34, "enabled");
    push_literal(&mut literals34, "disabled");
    push_field(&mut fields31, "status", DeclType::Optional(Box::new(DeclType::Literals(literals34))), None);
    push_field(&mut fields31, "disabled_reason", DeclType::Optional(Box::new(DeclType::String)), None);
    let mut literals35 = new_literals();
    push_literal(&mut literals35, "event");
    push_literal(&mut literals35, "mouse");
    push_literal(&mut literals35, "list_row");
    push_field(&mut fields31, "missing_requirements", DeclType::Array(Box::new(DeclType::Literals(literals35))), None);
    push_field(&mut fields29, "command", DeclType::Optional(Box::new(DeclType::Table(fields31))), None);
    push_field(&mut fields29, "description", DeclType::String, None);
    push_field(&mut fields29, "owner", DeclType::String, Some("Application or framework group owner."));
    let mut literals36 = new_literals();
    push_literal(&mut literals36, "global");
    push_literal(&mut literals36, "mode");
    push_literal(&mut literals36, "default");
    push_literal(&mut literals36, "exclusive");
    push_field(&mut fields29, "scope", DeclType::Literals(literals36), None);
    push_field(&mut fields29, "mode", DeclType::Optional(Box::new(DeclType::String)), Some("Named mode when the scope is mode."));
    push_field(&mut fields29, "path", DeclType::String, None);
    push_field(&mut fields29, "route_path", DeclType::String, Some("Route path at which this binding wins."));
    let mut literals37 = new_literals();
    push_literal(&mut literals37, "before_widget");
    push_literal(&mut literals37, "after_widget");
    push_field(&mut fields29, "phase", DeclType::Literals(literals37), Some("Phase relative to widget input handling."));
    push_field(&mut fields29, "source", DeclType::Optional(Box::new(DeclType::String)), Some("Diagnostic source when available."));
    push_alias(out, "AvailableBinding", DeclType::Table(fields29), None);
    let mut fields38 = new_fields();
    push_field(&mut fields38, "focus", DeclType::Named("NodeId"), None);
    push_field(&mut fields38, "focus_path", DeclType::String, Some("Path from root to focus."));
    push_field(&mut fields38, "active_modes", DeclType::Array(Box::new(DeclType::String)), Some("Active modes in resolution order."));
    push_field(&mut fields38, "exclusive_group", DeclType::Optional(Box::new(DeclType::String)), Some("Active exclusive framework group."));
    push_field(&mut fields38, "bindings", DeclType::Array(Box::new(DeclType::Named("AvailableBinding"))), Some("Effective key bindings for the context."));
    push_alias(out, "BindingSnapshot", DeclType::Table(fields38), None);
    let mut fields39 = new_fields();
    push_field(&mut fields39, "passed", DeclType::Boolean, None);
    push_field(&mut fields39, "message", DeclType::String, None);
    push_alias(out, "ScriptAssertionInfo", DeclType::Table(fields39), None);
    let mut fields40 = new_fields();
    push_field(&mut fields40, "id", DeclType::Number, Some("Monotonic journal id."));
    push_field(&mut fields40, "origin", DeclType::String, Some("Script origin such as eval, config, or startup."));
    push_field(&mut fields40, "source", DeclType::String, None);
    push_field(&mut fields40, "ok", DeclType::Boolean, Some("True when evaluation completed successfully."));
    push_field(&mut fields40, "error", DeclType::Optional(Box::new(DeclType::String)), Some("Error message when evaluation failed."));
    push_field(&mut fields40, "logs", DeclType::Array(Box::new(DeclType::String)), None);
    push_field(&mut fields40, "assertions", DeclType::Array(Box::new(DeclType::Named("ScriptAssertionInfo"))), None);
    push_field(&mut fields40, "duration_ms", DeclType::Number, Some("Wall-clock duration in milliseconds."));
    push_alias(out, "ScriptJournalEntry", DeclType::Table(fields40), None);
    assert(aliases_view(out@) =~= start + observation_info_spec());
}

/// The detached frame snapshot records, with their display and clipping
/// semantics.
pub open spec fn snapshot_info_spec() -> Seq<AliasView> {
    Seq::empty()
        .push(AliasView { name: "SemanticActionStatus"@, ty: TypeView::Table(Seq::empty()
            .push(FieldView { name: "kind"@, ty: TypeView::Literals(Seq::empty().push("enabled"@).push("disabled"@)), doc: None })
            .push(FieldView { name: "reason"@, ty: TypeView::Optional(Box::new(TypeView::String)), doc: None })
        ), doc: None })
        .push(AliasView { name: "WidgetSemantics"@, ty: TypeView::Table(Seq::empty()
            .push(FieldView { name: "role"@, ty: TypeView::Optional(Box::new(TypeView::String)), doc: None })
            .push(FieldView { name: "label"@, ty: TypeView::Optional(Box::new(TypeView::String)), doc: None })
            .push(FieldView { name: "value"@, ty: TypeView::Optional(Box::new(TypeView::String)), doc: None })
            .push(FieldView { name: "selected"@, ty: TypeView::Optional(Box::new(TypeView::Boolean)), doc: None })
            .push(FieldView { name: "selected_keys"@, ty: TypeView::Array(Box::new(TypeView::Any)), doc: None })
            .push(FieldView { name: "action_status"@, ty: TypeView::Optional(Box::new(TypeView::Named("SemanticActionStatus"@))), doc: None })
        ), doc: None })
        .push(AliasView { name: "NodeSnapshot"@, ty: TypeView::Table(Seq::empty()
            .push(FieldView { name: "id"@, ty: TypeView::Named("NodeId"@), doc: None })
            .push(FieldView { name: "parent"@, ty: TypeView::Optional(Box::new(TypeView::Named("NodeId"@))), doc: None })
            .push(FieldView { name: "children"@, ty: TypeView::Array(Box::new(TypeView::Named("NodeId"@))), doc: None })
            .push(FieldView { name: "name"@, ty: TypeView::String, doc: None })
            .push(FieldView { name: "semantic_identity"@, ty: TypeView::Optional(Box::new(TypeView::Named("SemanticIdentity"@))), doc: None })
            .push(FieldView { name: "attached"@, ty: TypeView::Boolean, doc: None })
            .push(FieldView { name: "displayed"@, ty: TypeView::Boolean, doc: None })
            .push(FieldView { name: "intersects_viewport"@, ty: TypeView::Boolean, doc: None })
            .push(FieldView { name: "rect"@, ty: TypeView::Optional(Box::new(TypeView::Named("Rect"@))), doc: None })
            .push(FieldView { name: "content_rect"@, ty: TypeView::Optional(Box::new(TypeView::Named("Rect"@))), doc: None })
            .push(FieldView { name: "scroll"@, ty: TypeView::Named("Point"@), doc: None })
            .push(FieldView { name: "canvas"@, ty: TypeView::Named("Size"@), doc: None })
            .push(FieldView { name: "focused"@, ty: TypeView::Boolean, doc: None })
            .push(FieldView { name: "semantics"@, ty: TypeView::Named("WidgetSemantics"@), doc: None })
        ), doc: None })
        .push(AliasView { name: "FrameSnapshot"@, ty: TypeView::Table(Seq::empty()
            .push(FieldView { name: "frame_id"@, ty: TypeView::Number, doc: None })
            .push(FieldView { name: "viewport"@, ty: TypeView::Named("Size"@), doc: None })
            .push(FieldView { name: "focus"@, ty: TypeView::Optional(Box::new(TypeView::Named("NodeId"@))), doc: None })
            .push(FieldView { name: "nodes"@, ty: TypeView::Array(Box::new(TypeView::Named("NodeSnapshot"@))), doc: None })
            .push(FieldView { name: "cells"@, ty: TypeView::Array(Box::new(TypeView::Array(Box::new(TypeView::Named("ScreenCell"@))))), doc: None })
        ), doc: None })

}

/// Append the detached frame snapshot records, with their display and clipping
/// semantics.
fn push_snapshot_info(out: &mut Vec<DeclAlias>)
    ensures
        aliases_view(final(out)@) == aliases_view(old(out)@) + snapshot_info_spec(),
{
    proof {
        reveal_with_fuel(type_view, 4);
    }
    let ghost start = aliases_view(out@);
    let mut fields41 = new_fields();
    let mut literals42 = new_literals();
    push_literal(&mut literals42, "enabled");
    push_literal(&mut literals42, "disabled");
    push_field(&mut fields41, "kind", DeclType::Literals(literals42), None);
    push_field(&mut fields41, "reason", DeclType::Optional(Box::new(DeclType::String)), None);
    push_alias(out, "SemanticActionStatus", DeclType::Table(fields41), None);
    let mut fields43 = new_fields();
    push_field(&mut fields43, "role", DeclType::Optional(Box::new(DeclType::String)), None);
    push_field(&mut fields43, "label", DeclType::Optional(Box::new(DeclType::String)), None);
    push_field(&mut fields43, "value", DeclType::Optional(Box::new(DeclType::String)), None);
    push_field(&mut fields43, "selected", DeclType::Optional(Box::new(DeclType::Boolean)), None);
    push_field(&mut fields43, "selected_keys", DeclType::Array(Box::new(DeclType::Any)), None);
    push_field(&mut fields43, "action_status", DeclType::Optional(Box::new(DeclType::Named("SemanticActionStatus"))), None);
    push_alias(out, "WidgetSemantics", DeclType::Table(fields43), None);
    let mut fields44 = new_fields();
    push_field(&mut fields44, "id", DeclType::Named("NodeId"), None);
    push_field(&mut fields44, "parent", DeclType::Optional(Box::new(DeclType::Named("NodeId"))), None);
    push_field(&mut fields44, "children", DeclType::Array(Box::new(DeclType::Named("NodeId"))), None);
    push_field(&mut fields44, "name", DeclType::String, None);
    push_field(&mut fields44, "semantic_identity", DeclType::Optional(Box::new(DeclType::Named("SemanticIdentity"))), None);
    push_field(&mut fields44, "attached", DeclType::Boolean, None);
    push_field(&mut fields44, "displayed", DeclType::Boolean, None);
    push_field(&mut fields44, "intersects_viewport", DeclType::Boolean, None);
    push_field(&mut fields44, "rect", DeclType::Optional(Box::new(DeclType::Named("Rect"))), None);
    push_field(&mut fields44, "content_rect", DeclType::Optional(Box::new(DeclType::Named("Rect"))), None);
    push_field(&mut fields44, "scroll", DeclType::Named("Point"), None);
    push_field(&mut fields44, "canvas", DeclType::Named("Size"), None);
    push_field(&mut fields44, "focused", DeclType::Boolean, None);
    push_field(&mut fields44, "semantics", DeclType::Named("WidgetSemantics"), None);
    push_alias(out, "NodeSnapshot", DeclType::Table(fields44), None);
    let mut fields45 = new_fields();
    push_field(&mut fields45, "frame_id", DeclType::Number, None);
    push_field(&mut fields45, "viewport", DeclType::Named("Size"), None);
    push_field(&mut fields45, "focus", DeclType::Optional(Box::new(DeclType::Named("NodeId"))), None);
    push_field(&mut fields45, "nodes", DeclType::Array(Box::new(DeclType::Named("NodeSnapshot"))), None);
    push_field(&mut fields45, "cells", DeclType::Array(Box::new(DeclType::Array(Box::new(DeclType::Named("ScreenCell"))))), None);
    push_alias(out, "FrameSnapshot", DeclType::Table(fields45), None);
    assert(aliases_view(out@) =~= start + snapshot_info_spec());
}

/// The declarations of every record and alias the script API exchanges.
pub open spec fn script_declarations_spec() -> Seq<AliasView> {
    framework_spec()
}

/// Return the declarations of every record and alias the script API
/// exchanges, in the order they are registered.
pub fn script_declarations() -> (r: Vec<DeclAlias>)
    ensures
        aliases_view(r@) == script_declarations_spec(),
{
    let mut out: Vec<DeclAlias> = Vec::new();
    assert(aliases_view(out@) =~= Seq::<AliasView>::empty());
    push_framework(&mut out);
    assert(Seq::<AliasView>::empty() + framework_spec() =~= framework_spec());
    out
}

/// A Luau type expression as ruau models it.
#[verifier::external_type_specification]
#[verifier::external_body]
pub struct ExType(Type);

/// A field of a ruau table type.
#[verifier::external_type_specification]
#[verifier::external_body]
pub struct ExField(Field);

/// A ruau type alias declaration.
#[verifier::external_type_specification]
#[verifier::external_body]
pub struct ExAlias(Alias);

/// ruau's builder of a native module's declarations.
#[verifier::external_type_specification]
#[verifier::external_body]
pub struct ExBuilder(Builder);

/// `ruau::declaration::Type::Any`. Trusted; the value is opaque here.
#[verifier::external_body]
fn type_any() -> Type {
    Type::Any
}

/// `ruau::declaration::Type::Boolean`. Trusted; the value is opaque here.
#[verifier::external_body]
fn type_boolean() -> Type {
    Type::Boolean
}

/// `ruau::declaration::Type::Number`. Trusted; the value is opaque here.
#[verifier::external_body]
fn type_number() -> Type {
    Type::Number
}

/// `ruau::declaration::Type::String`. Trusted; the value is opaque here.
#[verifier::external_body]
fn type_string() -> Type {
    Type::String
}

/// `ruau::declaration::Type::named`: a reference to a named type. Trusted;
/// the value is opaque here.
#[verifier::external_body]
fn type_named(name: &'static str) -> Type {
    Type::named(name)
}

/// `ruau::declaration::Type::literals`: the union of the given string
/// literals, in order. Trusted; the value is opaque here.
#[verifier::external_body]
fn type_literals(values: &Vec<&'static str>) -> Type {
    Type::literals(values.iter().copied())
}

/// `ruau::declaration::Type::table`: a table with the given fields, in
/// order. Trusted; the value is opaque here.
#[verifier::external_body]
fn type_table(fields: Vec<Field>) -> Type {
    Type::table(fields)
}

/// `ruau::declaration::Type::array`: an array of the given type. Trusted;
/// the value is opaque here.
#[verifier::external_body]
fn type_array(ty: Type) -> Type {
    ty.array()
}

/// `ruau::declaration::Type::optional`: the given type or nil. Trusted; the
/// value is opaque here.
#[verifier::external_body]
fn type_optional(ty: Type) -> Type {
    ty.optional()
}

/// `ruau::declaration::Field::new`: a field with a name and a type. Trusted;
/// the value is opaque here.
#[verifier::external_body]
fn field_new(name: &'static str, ty: Type) -> Field {
    Field::new(name, ty)
}

/// `ruau::declaration::Field::doc`: the field with documentation attached.
/// Trusted; the value is opaque here.
#[verifier::external_body]
fn field_doc(field: Field, doc: &'static str) -> Field {
    field.doc(doc)
}

/// `ruau::declaration::Alias::new`: an alias of a name for a type. Trusted;
/// the value is opaque here.
#[verifier::external_body]
fn alias_new(name: &'static str, ty: Type) -> Alias {
    Alias::new(name, ty)
}

/// `ruau::declaration::Alias::doc`: the alias with documentation attached.
/// Trusted; the value is opaque here.
#[verifier::external_body]
fn alias_doc(alias: Alias, doc: &'static str) -> Alias {
    alias.doc(doc)
}

/// `ruau::module::Builder::alias`: adds a declaration-only alias to the
/// module. Trusted; the builder is opaque here, so nothing is said of it.
#[verifier::external_body]
fn builder_alias(builder: &mut Builder, alias: Alias) {
    builder.alias(alias);
}

/// ruau's form of a declared type.
fn ruau_type(t: &DeclType) -> Type
    decreases t,
{
    match t {
        DeclType::Any => type_any(),
        DeclType::Boolean => type_boolean(),
        DeclType::Number => type_number(),
        DeclType::String => type_string(),
        DeclType::Named(n) => type_named(n),
        DeclType::Literals(xs) => type_literals(xs),
        DeclType::Table(fs) => {
            let mut fields: Vec<Field> = Vec::new();
            assert(decreases_to!(*t => *fs));
            let mut i: usize = 0;
            while i < fs.len()
                invariant
                    i <= fs.len(),
                    decreases_to!(*t => *fs),
                decreases fs.len() - i,
            {
                proof {
                    assert(decreases_to!(*fs => fs@));
                    assert(decreases_to!(fs@ => fs@[i as int]));
                    assert(decreases_to!(fs@[i as int] => fs@[i as int].ty));
                }
                let f = &fs[i];
                let field = field_new(f.name, ruau_type(&f.ty));
                let field = match f.doc {
                    Some(d) => field_doc(field, d),
                    None => field,
                };
                fields.push(field);
                i = i + 1;
            }
            type_table(fields)
        },
        DeclType::Array(b) => type_array(ruau_type(b)),
        DeclType::Optional(b) => type_optional(ruau_type(b)),
    }
}

/// Register the declarations of every record and alias the script API
/// exchanges with a module's declaration builder, in order.
pub fn register_framework_declarations(builder: &mut Builder) {
    let decls = script_declarations();
    let mut i: usize = 0;
    while i < decls.len()
        decreases decls@.len() - i,
    {
        let a = &decls[i];
        let alias = alias_new(a.name, ruau_type(&a.ty));
        let alias = match a.doc {
            Some(d) => alias_doc(alias, d),
            None => alias,
        };
        builder_alias(builder, alias);
        i = i + 1;
    }
}

} // verus!
