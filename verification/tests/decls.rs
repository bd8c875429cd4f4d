use canopy::decls::{register_framework_declarations, script_declarations, DeclAlias, DeclType};

fn find<'a>(decls: &'a [DeclAlias], name: &str) -> &'a DeclAlias {
    decls.iter().find(|a| a.name == name).expect("alias is declared")
}

#[test]
fn declarations_start_with_the_point_record() {
    let decls = script_declarations();
    let point = &decls[0];
    assert_eq!(point.name, "Point");
    assert!(point.doc.is_none());
    match &point.ty {
        DeclType::Table(fields) => {
            let names: Vec<&str> = fields.iter().map(|f| f.name).collect();
            assert_eq!(names, vec!["x", "y"]);
            assert!(fields.iter().all(|f| matches!(f.ty, DeclType::Number)));
        }
        _ => panic!("Point is a table"),
    }
}

#[test]
fn declaration_names_are_distinct() {
    let decls = script_declarations();
    for (i, a) in decls.iter().enumerate() {
        for b in &decls[i + 1..] {
            assert_ne!(a.name, b.name);
        }
    }
    for name in ["ScreenCell", "FrameSnapshot", "BindingInfo", "CommandInfo", "AvailableBinding"] {
        find(&decls, name);
    }
}

#[test]
fn node_records_share_their_fields_but_not_their_children() {
    let decls = script_declarations();
    let info = find(&decls, "NodeInfo");
    let tree = find(&decls, "TreeNode");
    assert_eq!(info.doc, Some("Summary information for a node in the widget tree."));
    assert!(tree.doc.is_none());
    let (DeclType::Table(info_fields), DeclType::Table(tree_fields)) = (&info.ty, &tree.ty) else {
        panic!("node records are tables");
    };
    assert_eq!(info_fields.len(), 13);
    assert_eq!(tree_fields.len(), 13);
    for (a, b) in info_fields.iter().zip(tree_fields.iter()) {
        assert_eq!(a.name, b.name);
    }
    let child = |fields: &[canopy::decls::DeclField]| -> String {
        let f = fields.iter().find(|f| f.name == "children").unwrap();
        match &f.ty {
            DeclType::Array(inner) => match inner.as_ref() {
                DeclType::Named(n) => n.to_string(),
                _ => panic!("children are named"),
            },
            _ => panic!("children are an array"),
        }
    };
    assert_eq!(child(info_fields), "NodeId");
    assert_eq!(child(tree_fields), "TreeNode");
}

#[test]
fn literal_unions_keep_their_order() {
    let decls = script_declarations();
    let target = find(&decls, "CommandTarget");
    let DeclType::Table(fields) = &target.ty else { panic!("CommandTarget is a table") };
    match &fields[0].ty {
        DeclType::Literals(xs) => assert_eq!(xs, &vec!["anchor", "exact", "from", "focus"]),
        _ => panic!("kind is a literal union"),
    }
}

#[test]
fn declarations_register_with_a_module_builder() {
    let mut builder = ruau::module::Builder::new("canopy");
    register_framework_declarations(&mut builder);
}
