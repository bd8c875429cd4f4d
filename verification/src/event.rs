//! Input events that bindings are keyed by: keys and mouse actions.

use vstd::prelude::*;
use crate::text::str_to_chars;

verus! {

/// Keyboard and mouse modifier state.
#[derive(Clone, Copy, Debug, PartialEq, Eq, Hash, Default, Structural)]
pub struct Modifiers {
    /// Control key held.
    pub ctrl: bool,
    /// Alt key held.
    pub alt: bool,
    /// Shift key held.
    pub shift: bool,
}

/// A key code.
#[derive(Clone, Copy, Debug, PartialEq, Eq, Hash, Structural)]
pub enum KeyCode {
    /// A character key.
    Char(char),
    /// Enter.
    Enter,
    /// Escape.
    Esc,
    /// Tab.
    Tab,
    /// Shift-tab.
    BackTab,
    /// Backspace.
    Backspace,
    /// Delete.
    Delete,
    /// Insert.
    Insert,
    /// Home.
    Home,
    /// End.
    End,
    /// Page up.
    PageUp,
    /// Page down.
    PageDown,
    /// Arrow up.
    Up,
    /// Arrow down.
    Down,
    /// Arrow left.
    Left,
    /// Arrow right.
    Right,
    /// A function key.
    F(u8),
}

/// A key press with its modifiers.
#[derive(Clone, Copy, Debug, PartialEq, Eq, Hash, Structural)]
pub struct Key {
    /// Modifier state.
    pub mods: Modifiers,
    /// Key code.
    pub key: KeyCode,
}

/// Whether a character is an ASCII lowercase letter.
pub open spec fn is_ascii_lower(c: char) -> bool {
    'a' <= c && c <= 'z'
}

/// Whether a character is an ASCII uppercase letter.
pub open spec fn is_ascii_upper(c: char) -> bool {
    'A' <= c && c <= 'Z'
}

/// The canonical form of a key: a shifted ASCII letter is its uppercase
/// letter without Shift, and an uppercase ASCII letter carries no Shift.
/// Other keys are unchanged.
pub open spec fn normalize_key(k: Key) -> Key {
    match k.key {
        KeyCode::Char(c) => {
            if is_ascii_lower(c) && k.mods.shift {
                Key { mods: Modifiers { shift: false, ..k.mods }, key: KeyCode::Char(((c as u32) - 32) as char) }
            } else if is_ascii_upper(c) {
                Key { mods: Modifiers { shift: false, ..k.mods }, key: k.key }
            } else {
                k
            }
        },
        _ => k,
    }
}

/// Upper-case one ASCII lowercase letter.
fn ascii_upper(c: char) -> (r: char)
    requires
        is_ascii_lower(c),
    ensures
        r == ((c as u32) - 32) as char,
{
    let u = (c as u32) - 32;
    assert(65 <= u <= 90);
    let b = u as u8;
    b as char
}

impl Key {
    /// A key for a character, with no modifiers.
    pub fn from_char(c: char) -> (r: Key)
        ensures
            r == (Key { mods: Modifiers { ctrl: false, alt: false, shift: false }, key: KeyCode::Char(c) }),
    {
        Key { mods: Modifiers { ctrl: false, alt: false, shift: false }, key: KeyCode::Char(c) }
    }

    /// The same key with Shift held.
    pub fn with_shift(self) -> (r: Key)
        ensures
            r == (Key { mods: Modifiers { shift: true, ..self.mods }, key: self.key }),
    {
        Key { mods: Modifiers { ctrl: self.mods.ctrl, alt: self.mods.alt, shift: true }, key: self.key }
    }

    /// The same key with Control held.
    pub fn with_ctrl(self) -> (r: Key)
        ensures
            r == (Key { mods: Modifiers { ctrl: true, ..self.mods }, key: self.key }),
    {
        Key { mods: Modifiers { ctrl: true, alt: self.mods.alt, shift: self.mods.shift }, key: self.key }
    }

    /// Normalize key variants for matching: shifted ASCII letters become
    /// uppercase letters, and uppercase letters drop Shift.
    pub fn normalize(self) -> (r: Key)
        ensures
            r == normalize_key(self),
    {
        match self.key {
            KeyCode::Char(c) => {
                if 'a' <= c && c <= 'z' && self.mods.shift {
                    Key { mods: Modifiers { ctrl: self.mods.ctrl, alt: self.mods.alt, shift: false }, key: KeyCode::Char(ascii_upper(c)) }
                } else if 'A' <= c && c <= 'Z' {
                    Key { mods: Modifiers { ctrl: self.mods.ctrl, alt: self.mods.alt, shift: false }, key: self.key }
                } else {
                    self
                }
            },
            _ => self,
        }
    }
}

/// Law: normalizing a key twice is the same as normalizing it once.
pub proof fn law_normalize_key_idempotent(k: Key)
    ensures
        normalize_key(normalize_key(k)) == normalize_key(k),
{
    match k.key {
        KeyCode::Char(c) => {
            if is_ascii_lower(c) && k.mods.shift {
                let u = ((c as u32) - 32) as char;
                assert(is_ascii_upper(u));
                assert(!is_ascii_lower(u));
            }
        },
        _ => {},
    }
}

impl From<char> for Key {
    fn from(c: char) -> Key {
        Key::from_char(c)
    }
}

impl vstd::std_specs::convert::FromSpecImpl<char> for Key {
    open spec fn obeys_from_spec() -> bool {
        true
    }

    open spec fn from_spec(c: char) -> Key {
        Key { mods: Modifiers { ctrl: false, alt: false, shift: false }, key: KeyCode::Char(c) }
    }
}

/// A mouse button.
#[derive(Clone, Copy, Debug, PartialEq, Eq, Hash, Structural)]
pub enum Button {
    /// Left button.
    Left,
    /// Right button.
    Right,
    /// Middle button.
    Middle,
    /// No button.
    NoButton,
}

/// A mouse action.
#[derive(Clone, Copy, Debug, PartialEq, Eq, Hash, Structural)]
pub enum MouseAction {
    /// Button pressed.
    Down,
    /// Button released.
    Up,
    /// Moved with a button held.
    Drag,
    /// Moved with no button held.
    Moved,
    /// Wheel scrolled down.
    ScrollDown,
    /// Wheel scrolled up.
    ScrollUp,
    /// Wheel scrolled left.
    ScrollLeft,
    /// Wheel scrolled right.
    ScrollRight,
}

/// A mouse input: an action, the button it involves, and the modifiers.
#[derive(Clone, Copy, Debug, PartialEq, Eq, Hash, Structural)]
pub struct Mouse {
    /// Action.
    pub action: MouseAction,
    /// Button.
    pub button: Button,
    /// Modifier state.
    pub modifiers: Modifiers,
}

/// The action a name denotes.
pub open spec fn action_named(s: Seq<char>) -> Option<MouseAction> {
    if s == seq!['D', 'o', 'w', 'n'] {
        Some(MouseAction::Down)
    } else if s == seq!['U', 'p'] {
        Some(MouseAction::Up)
    } else if s == seq!['D', 'r', 'a', 'g'] {
        Some(MouseAction::Drag)
    } else if s == seq!['M', 'o', 'v', 'e', 'd'] {
        Some(MouseAction::Moved)
    } else if s == seq!['S', 'c', 'r', 'o', 'l', 'l', 'D', 'o', 'w', 'n'] {
        Some(MouseAction::ScrollDown)
    } else if s == seq!['S', 'c', 'r', 'o', 'l', 'l', 'U', 'p'] {
        Some(MouseAction::ScrollUp)
    } else if s == seq!['S', 'c', 'r', 'o', 'l', 'l', 'L', 'e', 'f', 't'] {
        Some(MouseAction::ScrollLeft)
    } else if s == seq!['S', 'c', 'r', 'o', 'l', 'l', 'R', 'i', 'g', 'h', 't'] {
        Some(MouseAction::ScrollRight)
    } else {
        None
    }
}

/// Whether `s` starts with `p`.
pub open spec fn has_prefix(s: Seq<char>, p: Seq<char>) -> bool {
    s.len() >= p.len() && s.subrange(0, p.len() as int) == p
}

/// The button and action spelled by a name such as `LeftDown` or
/// `ScrollUp`: an optional button name followed by an action name.
pub open spec fn button_action_named(s: Seq<char>) -> Option<(Button, MouseAction)> {
    let left = seq!['L', 'e', 'f', 't'];
    let right = seq!['R', 'i', 'g', 'h', 't'];
    let middle = seq!['M', 'i', 'd', 'd', 'l', 'e'];
    if has_prefix(s, left) && action_named(s.subrange(4, s.len() as int)) is Some {
        Some((Button::Left, action_named(s.subrange(4, s.len() as int)).unwrap()))
    } else if has_prefix(s, right) && action_named(s.subrange(5, s.len() as int)) is Some {
        Some((Button::Right, action_named(s.subrange(5, s.len() as int)).unwrap()))
    } else if has_prefix(s, middle) && action_named(s.subrange(6, s.len() as int)) is Some {
        Some((Button::Middle, action_named(s.subrange(6, s.len() as int)).unwrap()))
    } else {
        match action_named(s) {
            Some(a) => Some((Button::NoButton, a)),
            None => None,
        }
    }
}

/// The mouse input spelled by a specification: any of the prefixes
/// `Ctrl+`, `Alt+` and `Shift+`, then a button and action name.
pub open spec fn parse_mouse_spec(s: Seq<char>, mods: Modifiers) -> Option<Mouse>
    decreases s.len(),
{
    let ctrl = seq!['C', 't', 'r', 'l', '+'];
    let alt = seq!['A', 'l', 't', '+'];
    let shift = seq!['S', 'h', 'i', 'f', 't', '+'];
    if has_prefix(s, ctrl) {
        parse_mouse_spec(s.subrange(5, s.len() as int), Modifiers { ctrl: true, ..mods })
    } else if has_prefix(s, alt) {
        parse_mouse_spec(s.subrange(4, s.len() as int), Modifiers { alt: true, ..mods })
    } else if has_prefix(s, shift) {
        parse_mouse_spec(s.subrange(6, s.len() as int), Modifiers { shift: true, ..mods })
    } else {
        match button_action_named(s) {
            Some((b, a)) => Some(Mouse { action: a, button: b, modifiers: mods }),
            None => None,
        }
    }
}

/// Whether `v[start..]` starts with `p`.
fn starts_with_at(v: &Vec<char>, start: usize, p: &[char]) -> (r: bool)
    requires
        start <= v@.len(),
    ensures
        r == has_prefix(v@.subrange(start as int, v@.len() as int), p@),
{
    let n = v.len();
    if n - start < p.len() {
        return false;
    }
    let mut i: usize = 0;
    while i < p.len()
        invariant
            start + p@.len() <= n,
            n == v@.len(),
            i <= p@.len(),
            forall|j: int| 0 <= j < i ==> v@[start + j] == p@[j],
        decreases p@.len() - i,
    {
        if v[start + i] != p[i] {
            assert(v@.subrange(start as int, n as int).subrange(0, p@.len() as int)[i as int] != p@[i as int]);
            return false;
        }
        i = i + 1;
    }
    assert(v@.subrange(start as int, n as int).subrange(0, p@.len() as int) =~= p@);
    true
}

/// Whether `v[start..]` is exactly `p`.
fn equals_at(v: &Vec<char>, start: usize, p: &[char]) -> (r: bool)
    requires
        start <= v@.len(),
    ensures
        r == (v@.subrange(start as int, v@.len() as int) == p@),
{
    let b = v.len() - start == p.len() && starts_with_at(v, start, p);
    proof {
        if v@.len() - start == p@.len() {
            assert(v@.subrange(start as int, v@.len() as int).subrange(0, p@.len() as int)
                =~= v@.subrange(start as int, v@.len() as int));
        }
    }
    b
}

fn action_at(v: &Vec<char>, start: usize) -> (r: Option<MouseAction>)
    requires
        start <= v@.len(),
    ensures
        r == action_named(v@.subrange(start as int, v@.len() as int)),
{
    if equals_at(v, start, &['D', 'o', 'w', 'n']) {
        Some(MouseAction::Down)
    } else if equals_at(v, start, &['U', 'p']) {
        Some(MouseAction::Up)
    } else if equals_at(v, start, &['D', 'r', 'a', 'g']) {
        Some(MouseAction::Drag)
    } else if equals_at(v, start, &['M', 'o', 'v', 'e', 'd']) {
        Some(MouseAction::Moved)
    } else if equals_at(v, start, &['S', 'c', 'r', 'o', 'l', 'l', 'D', 'o', 'w', 'n']) {
        Some(MouseAction::ScrollDown)
    } else if equals_at(v, start, &['S', 'c', 'r', 'o', 'l', 'l', 'U', 'p']) {
        Some(MouseAction::ScrollUp)
    } else if equals_at(v, start, &['S', 'c', 'r', 'o', 'l', 'l', 'L', 'e', 'f', 't']) {
        Some(MouseAction::ScrollLeft)
    } else if equals_at(v, start, &['S', 'c', 'r', 'o', 'l', 'l', 'R', 'i', 'g', 'h', 't']) {
        Some(MouseAction::ScrollRight)
    } else {
        None
    }
}

impl Mouse {
    /// Parse a mouse specification such as `LeftDown`, `ScrollUp` or
    /// `Ctrl+RightDrag`; `None` when the text names no mouse input.
    pub fn parse_spec(spec: &str) -> (r: Option<Mouse>)
        ensures
            r == parse_mouse_spec(spec@, Modifiers { ctrl: false, alt: false, shift: false }),
    {
        let v = str_to_chars(spec);
        let n = v.len();
        let mut start: usize = 0;
        let mut mods = Modifiers { ctrl: false, alt: false, shift: false };
        assert(v@.subrange(0, v@.len() as int) =~= spec@);
        loop
            invariant
                v@ == spec@,
                n == v@.len(),
                start <= v@.len(),
                parse_mouse_spec(spec@, Modifiers { ctrl: false, alt: false, shift: false })
                    == parse_mouse_spec(v@.subrange(start as int, v@.len() as int), mods),
            decreases v@.len() - start,
        {
            let ghost rest = v@.subrange(start as int, v@.len() as int);
            if starts_with_at(&v, start, &['C', 't', 'r', 'l', '+']) {
                assert(rest.subrange(5, rest.len() as int) =~= v@.subrange(start + 5, v@.len() as int));
                mods = Modifiers { ctrl: true, alt: mods.alt, shift: mods.shift };
                start = start + 5;
            } else if starts_with_at(&v, start, &['A', 'l', 't', '+']) {
                assert(rest.subrange(4, rest.len() as int) =~= v@.subrange(start + 4, v@.len() as int));
                mods = Modifiers { ctrl: mods.ctrl, alt: true, shift: mods.shift };
                start = start + 4;
            } else if starts_with_at(&v, start, &['S', 'h', 'i', 'f', 't', '+']) {
                assert(rest.subrange(6, rest.len() as int) =~= v@.subrange(start + 6, v@.len() as int));
                mods = Modifiers { ctrl: mods.ctrl, alt: mods.alt, shift: true };
                start = start + 6;
            } else {
                if starts_with_at(&v, start, &['L', 'e', 'f', 't']) {
                    assert(rest.subrange(4, rest.len() as int) =~= v@.subrange(start + 4, v@.len() as int));
                    if let Some(a) = action_at(&v, start + 4) {
                        return Some(Mouse { action: a, button: Button::Left, modifiers: mods });
                    }
                }
                if starts_with_at(&v, start, &['R', 'i', 'g', 'h', 't']) {
                    assert(rest.subrange(5, rest.len() as int) =~= v@.subrange(start + 5, v@.len() as int));
                    if let Some(a) = action_at(&v, start + 5) {
                        return Some(Mouse { action: a, button: Button::Right, modifiers: mods });
                    }
                }
                if starts_with_at(&v, start, &['M', 'i', 'd', 'd', 'l', 'e']) {
                    assert(rest.subrange(6, rest.len() as int) =~= v@.subrange(start + 6, v@.len() as int));
                    if let Some(a) = action_at(&v, start + 6) {
                        return Some(Mouse { action: a, button: Button::Middle, modifiers: mods });
                    }
                }
                return match action_at(&v, start) {
                    Some(a) => Some(Mouse { action: a, button: Button::NoButton, modifiers: mods }),
                    None => None,
                };
            }
        }
    }
}

/// Input event used for bindings.
///
/// Key inputs are normalized when stored or matched so bindings are
/// resilient to terminal differences in Shift representations.
#[derive(Debug, Clone, Copy, Hash, PartialEq, Eq, Structural)]
pub enum InputSpec {
    /// Mouse input.
    Mouse(Mouse),
    /// Keyboard input.
    Key(Key),
}

/// The canonical form of an input.
pub open spec fn normalize_input(i: InputSpec) -> InputSpec {
    match i {
        InputSpec::Mouse(m) => InputSpec::Mouse(m),
        InputSpec::Key(k) => InputSpec::Key(normalize_key(k)),
    }
}

impl InputSpec {
    /// Normalize key variants for matching.
    pub fn normalize(self) -> (r: Self)
        ensures
            r == normalize_input(self),
    {
        match self {
            InputSpec::Mouse(m) => InputSpec::Mouse(m),
            InputSpec::Key(k) => InputSpec::Key(k.normalize()),
        }
    }
}

/// Law: normalizing an input twice is the same as normalizing it once.
pub proof fn law_normalize_input_idempotent(i: InputSpec)
    ensures
        normalize_input(normalize_input(i)) == normalize_input(i),
{
    match i {
        InputSpec::Key(k) => law_normalize_key_idempotent(k),
        InputSpec::Mouse(_) => {},
    }
}

impl From<Mouse> for InputSpec {
    fn from(m: Mouse) -> InputSpec {
        InputSpec::Mouse(m)
    }
}

impl vstd::std_specs::convert::FromSpecImpl<Mouse> for InputSpec {
    open spec fn obeys_from_spec() -> bool {
        true
    }

    open spec fn from_spec(m: Mouse) -> InputSpec {
        InputSpec::Mouse(m)
    }
}

impl From<Key> for InputSpec {
    fn from(k: Key) -> InputSpec {
        InputSpec::Key(k)
    }
}

impl vstd::std_specs::convert::FromSpecImpl<Key> for InputSpec {
    open spec fn obeys_from_spec() -> bool {
        true
    }

    open spec fn from_spec(k: Key) -> InputSpec {
        InputSpec::Key(k)
    }
}

} // verus!
