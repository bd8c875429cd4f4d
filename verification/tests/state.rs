use canopy::state::{valid_nodename, valid_nodename_char, NodeName};

#[test]
fn valid_nodename_char_is_ascii() {
    assert!(valid_nodename_char('a'));
    assert!(valid_nodename_char('0'));
    assert!(valid_nodename_char('_'));
    assert!(!valid_nodename_char('A'));
    assert!(!valid_nodename_char('-'));
    assert!(!valid_nodename(""));
}

#[test]
fn nodename_convert() {
    assert_eq!(NodeName::new("foo").unwrap().as_str(), "foo");
    assert!(NodeName::new("Foo").is_err());
    assert_eq!(NodeName::convert("Foo").as_str(), "foo");
    assert_eq!(NodeName::convert("FooBar").as_str(), "foo_bar");
    assert_eq!(NodeName::convert("FooBar Voing").as_str(), "foo_bar_voing");
    assert_eq!(NodeName::convert("").as_str(), "node");
    assert_eq!(NodeName::convert("!!!").as_str(), "node");
}
