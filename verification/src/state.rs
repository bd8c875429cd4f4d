//! Node names.

use vstd::prelude::*;
use crate::error::Error;
use crate::text::{owned, push_char, str_to_chars};
use convert_case::{Case, Casing};

verus! {

/// Whether a character may appear in a node name: a lowercase ASCII letter,
/// an ASCII digit, or an underscore.
pub open spec fn is_nodename_char(c: char) -> bool {
    ('a' <= c && c <= 'z') || ('0' <= c && c <= '9') || c == '_'
}

/// Whether a whole string is a valid node name: non-empty, and made only of
/// node-name characters.
pub open spec fn is_nodename(s: Seq<char>) -> bool {
    s.len() > 0 && forall|i: int| 0 <= i < s.len() ==> #[trigger] is_nodename_char(s[i])
}

/// Return true if the character is valid in a node name.
pub fn valid_nodename_char(c: char) -> (r: bool)
    ensures
        r == is_nodename_char(c),
{
    ('a' <= c && c <= 'z') || ('0' <= c && c <= '9') || c == '_'
}

/// Return true if every character of a run is a node-name character.
pub fn all_nodename_chars(v: &[char]) -> (r: bool)
    ensures
        r == (forall|i: int| 0 <= i < v@.len() ==> #[trigger] is_nodename_char(v@[i])),
{
    let mut i: usize = 0;
    while i < v.len()
        invariant
            i <= v@.len(),
            forall|j: int| 0 <= j < i ==> #[trigger] is_nodename_char(v@[j]),
        decreases v@.len() - i,
    {
        if !valid_nodename_char(v[i]) {
            return false;
        }
        i = i + 1;
    }
    true
}

/// Return true if the full name is valid.
pub fn valid_nodename(name: &str) -> (r: bool)
    ensures
        r == is_nodename(name@),
{
    let v = str_to_chars(name);
    v.len() > 0 && all_nodename_chars(v.as_slice())
}


/// The snake-case form of a string as computed by `convert_case`.
pub uninterp spec fn snake_case(s: Seq<char>) -> Seq<char>;

/// Convert a string to snake case.
///
/// Trusted: calls `convert_case::Casing::to_case` with `Case::Snake`, whose
/// result depends on the input string alone; the contract names that result
/// and claims nothing else about it.
#[verifier::external_body]
fn to_snake_case(s: &str) -> (r: String)
    ensures
        r@ == snake_case(s@),
{
    s.to_case(Case::Snake)
}

/// The node-name characters of a string, in order.
pub open spec fn nodename_chars_of(s: Seq<char>) -> Seq<char> {
    s.filter(|c: char| is_nodename_char(c))
}

/// The name produced from a snake-cased string: its node-name characters,
/// or `node` when none remain.
pub open spec fn munged_name(s: Seq<char>) -> Seq<char> {
    if nodename_chars_of(s).len() == 0 {
        seq!['n', 'o', 'd', 'e']
    } else {
        nodename_chars_of(s)
    }
}

proof fn lemma_filter_all_nodename(s: Seq<char>)
    ensures
        forall|i: int| 0 <= i < nodename_chars_of(s).len() ==> #[trigger] is_nodename_char(nodename_chars_of(s)[i]),
{
    assert forall|i: int| 0 <= i < nodename_chars_of(s).len() implies #[trigger] is_nodename_char(nodename_chars_of(s)[i]) by {
        s.lemma_filter_pred(|c: char| is_nodename_char(c), i);
    }
}

/// A node name, which consists of lowercase ASCII alphanumeric characters,
/// plus underscores.
#[derive(Debug, Clone, PartialEq, Eq, Hash)]
pub struct NodeName {
    /// Stored node name string.
    name: String,
}

impl View for NodeName {
    type V = Seq<char>;

    closed spec fn view(&self) -> Seq<char> {
        self.name@
    }
}

impl NodeName {
    /// Create a new node name, returning an error if the string is not a
    /// valid node name.
    pub fn new(name: &str) -> (r: Result<Self, Error>)
        ensures
            r is Ok <==> is_nodename(name@),
            r matches Ok(n) ==> n@ == name@,
            r matches Err(e) ==> e matches Error::Invalid(s) && s@ == name@,
    {
        if !valid_nodename(name) {
            return Err(Error::Invalid(owned(name)));
        }
        Ok(Self { name: owned(name) })
    }

    /// Build a node name from an already snake-cased string by keeping
    /// only its node-name characters, or `node` when none remain.
    pub fn from_snake_case(raw: &str) -> (r: Self)
        ensures
            r@ == munged_name(raw@),
            is_nodename(r@),
    {
        let chars = str_to_chars(raw);
        let mut out = String::new();
        let mut i: usize = 0;
        while i < chars.len()
            invariant
                chars@ == raw@,
                i <= chars@.len(),
                out@ == nodename_chars_of(raw@.subrange(0, i as int)),
            decreases chars@.len() - i,
        {
            let c = chars[i];
            proof {
                reveal_with_fuel(Seq::<char>::filter, 1);
                assert(raw@.subrange(0, i + 1).drop_last() =~= raw@.subrange(0, i as int));
            }
            if valid_nodename_char(c) {
                push_char(&mut out, c);
            }
            i = i + 1;
        }
        assert(raw@.subrange(0, chars@.len() as int) =~= raw@);
        proof {
            lemma_filter_all_nodename(raw@);
        }
        if out.unicode_len() == 0 {
            let name = owned("node");
            proof {
                reveal_strlit("node");
                assert(name@ =~= seq!['n', 'o', 'd', 'e']);
                assert(is_nodename_char(name@[0]));
                assert(is_nodename_char(name@[1]));
                assert(is_nodename_char(name@[2]));
                assert(is_nodename_char(name@[3]));
            }
            Self { name }
        } else {
            Self { name: out }
        }
    }

    /// Takes a string and munges it into a valid node name: the string is
    /// converted to snake case, then every character that is not valid in a
    /// node name is removed. An empty result becomes `node`.
    pub fn convert(name: &str) -> (r: Self)
        ensures
            r@ == munged_name(snake_case(name@)),
            is_nodename(r@),
    {
        let raw = to_snake_case(name);
        Self::from_snake_case(raw.as_str())
    }

    /// Return the name as a string slice.
    pub fn as_str(&self) -> (r: &str)
        ensures
            r@ == self@,
    {
        self.name.as_str()
    }
}

} // verus!
