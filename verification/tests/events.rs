use canopy::event::{Button, InputSpec, Key, KeyCode, Modifiers, Mouse, MouseAction};

#[test]
fn shifted_and_uppercase_keys_normalize_alike() {
    let shifted = Key::from_char('a').with_shift();
    assert_eq!(shifted.normalize(), Key::from('A').normalize());
    assert_eq!(Key::from('A').with_shift().normalize(), Key::from('A').normalize());
    assert_eq!(InputSpec::Key(shifted).normalize(), InputSpec::Key(Key::from('A')).normalize());
}

#[test]
fn normalizing_twice_changes_nothing() {
    for k in [Key::from('a'), Key::from('a').with_shift(), Key::from('Z').with_ctrl(), Key::from('1').with_shift()] {
        assert_eq!(k.normalize().normalize(), k.normalize());
    }
}

#[test]
fn mouse_specs_parse_modifiers_buttons_and_actions() {
    let m = Mouse::parse_spec("Ctrl+Shift+LeftDown").unwrap();
    assert_eq!(m.button, Button::Left);
    assert_eq!(m.action, MouseAction::Down);
    assert_eq!(m.modifiers, Modifiers { ctrl: true, alt: false, shift: true });
    let s = Mouse::parse_spec("ScrollUp").unwrap();
    assert_eq!(s.button, Button::NoButton);
    assert_eq!(s.action, MouseAction::ScrollUp);
    assert!(Mouse::parse_spec("Sideways").is_none());
    assert!(Mouse::parse_spec("").is_none());
}

#[test]
fn char_keys_have_no_modifiers() {
    let k = Key::from('x');
    assert_eq!(k.key, KeyCode::Char('x'));
    assert_eq!(k.mods, Modifiers::default());
}
