use canopy::error::Error;
use canopy::path::{normalize_filter, Path, PathFilter};

fn p(s: &str) -> Path {
    Path::from(s)
}

#[test]
fn pathfilter() -> Result<(), Error> {
    let v = PathFilter::new("")?;
    assert!(v.check_match(&p("/any/thing")).is_some());
    assert!(v.check_match(&p("/")).is_some());

    let v = PathFilter::new("bar")?;
    assert!(v.check_match(&p("/foo/bar")).is_some());
    assert!(v.check_match(&p("/bar/foo")).is_some());
    assert!(v.check_match(&p("/foo/foo")).is_none());

    let v = PathFilter::new("foo/*/bar")?;
    assert!(v.check_match(&p("/foo/oink/bar")).is_some());
    assert!(v.check_match(&p("/oink/foo/oink/bar/oink")).is_some());
    assert!(v.check_match(&p("/foo/bar")).is_none());
    assert!(v.check_match(&p("/foo/oink/oink/bar")).is_none());

    let v = PathFilter::new("/foo")?;
    assert!(v.check_match(&p("/foo")).is_some());
    assert!(v.check_match(&p("/foo/bar")).is_some());
    assert!(v.check_match(&p("/bar/foo/bar")).is_none());

    let v = PathFilter::new("foo/")?;
    assert!(v.check_match(&p("/foo")).is_some());
    assert!(v.check_match(&p("/bar/foo")).is_some());
    assert!(v.check_match(&p("/foo/bar")).is_none());

    let v = PathFilter::new("foo/**/bar")?;
    assert!(v.check_match(&p("/foo/bar")).is_some());
    assert!(v.check_match(&p("/foo/x/bar")).is_some());
    assert!(v.check_match(&p("/foo/x/y/bar")).is_some());
    assert!(v.check_match(&p("/bar/foo/x/bar/x")).is_some());

    let v = PathFilter::new("foo/**/bar/")?;
    assert!(v.check_match(&p("/foo/bar")).is_some());
    assert!(v.check_match(&p("/foo/x/bar")).is_some());
    assert!(v.check_match(&p("/foo/x/bar/x")).is_none());
    Ok(())
}

#[test]
fn path_filters_validate_literal_components() {
    assert!(PathFilter::new("valid_name/**").is_ok());
    assert!(PathFilter::new("invalid-name").is_err());
    assert!(PathFilter::new("InvalidName").is_err());
}

#[test]
fn literal_path_matches_when_anchored() {
    for components in [vec!["a"], vec!["root", "editor"], vec!["x", "y", "zed", "w"]] {
        let join = components.join("/");
        let matcher = PathFilter::new(&format!("/{join}/")).expect("matcher");
        let path = Path::new(&components);
        let m = matcher.check_match(&path).expect("match");
        assert_eq!(m.literals, components.len());
        assert_eq!(m.depth, components.len());
        assert!(m.anchored_end);
    }
}

#[test]
fn any_deep_matches_all_paths() {
    for components in [vec![], vec!["a"], vec!["a", "b", "c"]] {
        let matcher = PathFilter::new("**").expect("matcher");
        let path = Path::new(&components);
        let m = matcher.check_match(&path).expect("match");
        assert_eq!(m.depth, components.len());
    }
}

#[test]
fn anchored_matches_outrank_loose_ones() {
    let loose = PathFilter::new("editor").unwrap().check_match(&p("/root/editor/child")).unwrap();
    assert!(!loose.anchored_end);
    let anchored = PathFilter::new("editor/*/").unwrap().check_match(&p("/root/editor/child")).unwrap();
    assert!(anchored.anchored_end);
    assert!(anchored.outranks(&loose));
    assert!(!loose.outranks(&anchored));
    let literal = PathFilter::new("root/editor").unwrap().check_match(&p("/root/editor")).unwrap();
    let single = PathFilter::new("editor").unwrap().check_match(&p("/root/editor")).unwrap();
    assert_eq!(literal.literals, 2);
    assert!(literal.outranks(&single));
    assert!(single.same_score(&single));
}

#[test]
fn paths_round_trip_through_text() {
    let path = p("/root/editor/child");
    assert_eq!(path.len(), 3);
    assert_eq!(path.to_path_string(), "/root/editor/child");
    let mut q = path.clone();
    assert_eq!(q.pop(), Some("child".to_string()));
    assert_eq!(q.to_path_string(), "/root/editor");
    assert_eq!(Path::empty().len(), 0);
}

#[test]
fn invalid_literal_is_reported() {
    match PathFilter::new("ok/Bad-Name/*") {
        Err(Error::Invalid(name)) => assert_eq!(name, "Bad-Name"),
        other => panic!("unexpected {other:?}"),
    }
}

#[test]
fn filters_normalize_to_full_path_matches() {
    let f = PathFilter::normalized("editor").unwrap();
    assert_eq!(f.as_str(), "/editor/");
    assert_eq!(normalize_filter("//a/b//"), "/a/b/");
    assert_eq!(normalize_filter("///"), "");
}

#[test]
fn score_tuples_rank_literals_then_anchoring_then_depth() -> Result<(), Error> {
    let literal = PathFilter::new("editor/")?.check_match(&p("/root/editor")).unwrap();
    assert_eq!((literal.score().0, literal.score().1), (1, 1));
    assert_eq!(literal.score().2, literal.depth);
    let wildcard = PathFilter::new("")?.check_match(&p("/root/editor")).unwrap();
    assert_eq!(wildcard.score().0, 0);
    assert!(literal.outranks(&wildcard));
    assert!(literal.score() > wildcard.score());
    let loose = PathFilter::new("editor")?.check_match(&p("/root/editor/body")).unwrap();
    assert_eq!(loose.score().0, 1);
    assert_eq!(literal.outranks(&loose), literal.score() > loose.score());
    Ok(())
}
