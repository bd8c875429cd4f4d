//! Command invocations that bindings can trigger.

use vstd::prelude::*;
use crate::id::NodeId;
use crate::text::{str_eq, string_eq};

verus! {

/// Stable name of a command, such as `editor::undo`.
#[derive(Clone, Copy, Debug, PartialEq, Eq, Hash)]
pub struct CommandId(pub &'static str);

/// Positional arguments of a command invocation.
#[derive(Debug, Default, PartialEq, Eq)]
pub struct CommandArgs {
    /// Argument values in order.
    pub args: Vec<String>,
}

/// One command with its arguments.
#[derive(Debug, PartialEq, Eq)]
pub struct CommandInvocation {
    /// Command name.
    pub id: CommandId,
    /// Arguments.
    pub args: CommandArgs,
}

/// Which node a command runs against.
#[derive(Clone, Copy, Debug, PartialEq, Eq, Hash, Structural)]
pub enum CommandTarget {
    /// The focused node.
    Focus,
    /// One exact node.
    Exact(NodeId),
}

/// A command invocation with an optional explicit target.
#[derive(Debug, PartialEq, Eq)]
pub struct CommandAction {
    /// Invocation to run.
    pub invocation: CommandInvocation,
    /// Explicit target; the default target when absent.
    pub target: Option<CommandTarget>,
}

/// The mathematical form of a command action.
pub struct ActionView {
    /// Command name.
    pub id: Seq<char>,
    /// Argument values.
    pub args: Seq<Seq<char>>,
    /// Explicit target.
    pub target: Option<CommandTarget>,
}

impl View for CommandAction {
    type V = ActionView;

    open spec fn view(&self) -> ActionView {
        ActionView {
            id: self.invocation.id.0@,
            args: self.invocation.args.args@.map_values(|a: String| a@),
            target: self.target,
        }
    }
}

/// Copy a vector of strings.
pub fn clone_strings(v: &Vec<String>) -> (r: Vec<String>)
    ensures
        r@.map_values(|a: String| a@) == v@.map_values(|a: String| a@),
{
    let mut r: Vec<String> = Vec::new();
    let mut i: usize = 0;
    while i < v.len()
        invariant
            i <= v@.len(),
            r@.map_values(|a: String| a@) == v@.subrange(0, i as int).map_values(|a: String| a@),
        decreases v@.len() - i,
    {
        let ghost before = r@;
        r.push(v[i].clone());
        assert(r@.map_values(|a: String| a@) =~= before.map_values(|a: String| a@).push(v@[i as int]@));
        i = i + 1;
        assert(v@.subrange(0, i as int).map_values(|a: String| a@) =~= v@.subrange(0, (i - 1) as int).map_values(|a: String| a@).push(v@[(i - 1) as int]@));
    }
    assert(v@.subrange(0, v@.len() as int) =~= v@);
    r
}

/// Compare two vectors of strings element by element.
pub fn strings_eq(a: &Vec<String>, b: &Vec<String>) -> (r: bool)
    ensures
        r == (a@.map_values(|s: String| s@) == b@.map_values(|s: String| s@)),
{
    if a.len() != b.len() {
        proof {
            assert(a@.map_values(|s: String| s@).len() != b@.map_values(|s: String| s@).len());
        }
        return false;
    }
    let mut i: usize = 0;
    while i < a.len()
        invariant
            i <= a@.len(),
            a@.len() == b@.len(),
            forall|j: int| 0 <= j < i ==> a@[j]@ == b@[j]@,
        decreases a@.len() - i,
    {
        if !string_eq(&a[i], &b[i]) {
            proof {
                assert(a@.map_values(|s: String| s@)[i as int] != b@.map_values(|s: String| s@)[i as int]);
            }
            return false;
        }
        i = i + 1;
    }
    assert(a@.map_values(|s: String| s@) =~= b@.map_values(|s: String| s@));
    true
}

impl CommandAction {
    /// Build an action for a command with no arguments and no explicit
    /// target.
    pub fn for_command(id: &'static str) -> (r: Self)
        ensures
            r@.id == id@,
            r@.args.len() == 0,
            r@.target is None,
    {
        let r = CommandAction { invocation: CommandInvocation { id: CommandId(id), args: CommandArgs { args: Vec::new() } }, target: None };
        assert(r@.args =~= Seq::<Seq<char>>::empty());
        r
    }

    /// Copy an action.
    pub fn duplicate(&self) -> (r: Self)
        ensures
            r@ == self@,
    {
        CommandAction {
            invocation: CommandInvocation { id: self.invocation.id, args: CommandArgs { args: clone_strings(&self.invocation.args.args) } },
            target: self.target,
        }
    }

    /// Compare two actions.
    pub fn same_as(&self, other: &CommandAction) -> (r: bool)
        ensures
            r == (self@ == other@),
    {
        let ids = str_eq(self.invocation.id.0, other.invocation.id.0);
        let args = strings_eq(&self.invocation.args.args, &other.invocation.args.args);
        let targets = match (self.target, other.target) {
            (None, None) => true,
            (Some(CommandTarget::Focus), Some(CommandTarget::Focus)) => true,
            (Some(CommandTarget::Exact(a)), Some(CommandTarget::Exact(b))) => a.0 == b.0,
            _ => false,
        };
        ids && args && targets
    }
}

impl Clone for CommandAction {
    fn clone(&self) -> (r: Self)
        ensures
            r@ == self@,
    {
        self.duplicate()
    }
}

} // verus!
