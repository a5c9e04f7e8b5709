use craptent::{FieldType, PathError, SchemaTree, Value};

fn seg(parts: &[&str]) -> Vec<String> {
    parts.iter().map(|s| s.to_string()).collect()
}

fn no_bits() -> Vec<Option<u64>> {
    Vec::new()
}

fn add_object(tree: &mut SchemaTree, path: &[&str], name: &str) {
    let r = tree.add_field(
        &seg(path),
        &name.to_string(),
        FieldType::Object,
        &String::new(),
        &no_bits(),
    );
    assert_eq!(r, Ok(()));
}

fn add_text(tree: &mut SchemaTree, path: &[&str], name: &str, raw: &str) {
    let r = tree.add_field(
        &seg(path),
        &name.to_string(),
        FieldType::Text,
        &raw.to_string(),
        &no_bits(),
    );
    assert_eq!(r, Ok(()));
}

/// A sample document: {"": {"a": {"b": "old", "c": {"b": "deep"}}}}
fn sample_tree() -> SchemaTree {
    let mut tree = SchemaTree::new();
    add_object(&mut tree, &[""], "a");
    add_text(&mut tree, &["", "a"], "b", "old");
    add_object(&mut tree, &["", "a"], "c");
    add_text(&mut tree, &["", "a", "c"], "b", "deep");
    tree
}

#[test]
fn new_tree_has_empty_top_level_object() {
    let tree = SchemaTree::new();
    assert_eq!(
        tree.root,
        vec![(String::new(), Value::Object(vec![]))]
    );
}

#[test]
fn resolver_finds_the_named_object() {
    let tree = sample_tree();
    let r = tree.resolve_for_write(&seg(&["", "a", "c"]));
    assert_eq!(
        r,
        Ok(&Value::Object(vec![(
            "b".to_string(),
            Value::Text("deep".to_string())
        )]))
    );
}

#[test]
fn resolver_repeat_yields_identical_contents() {
    let tree = sample_tree();
    let first = tree.resolve_for_write(&seg(&["", "a"]));
    let second = tree.resolve_for_write(&seg(&["", "a"]));
    assert_eq!(first, second);
}

#[test]
fn resolver_missing_segment() {
    let tree = sample_tree();
    let r = tree.resolve_for_write(&seg(&["", "zz"]));
    assert_eq!(r, Err(PathError::MissingSegment));
}

#[test]
fn resolver_not_an_object_midway() {
    let tree = sample_tree();
    let r = tree.resolve_for_write(&seg(&["", "a", "b", "x"]));
    assert_eq!(r, Err(PathError::NotAnObject));
}

#[test]
fn add_field_empty_path_is_rejected() {
    let mut tree = SchemaTree::new();
    let r = tree.add_field(
        &seg(&[]),
        &"person".to_string(),
        FieldType::Object,
        &String::new(),
        &no_bits(),
    );
    assert_eq!(r, Err(PathError::MissingSegment));
}

#[test]
fn add_field_requires_parent_added_first() {
    let mut tree = SchemaTree::new();
    let r = tree.add_field(
        &seg(&["person"]),
        &"name".to_string(),
        FieldType::Text,
        &"x".to_string(),
        &no_bits(),
    );
    assert_eq!(r, Err(PathError::MissingSegment));
    add_object(&mut tree, &[""], "person");
    add_text(&mut tree, &["", "person"], "name", "x");
    let r = tree.resolve_for_write(&seg(&["", "person"]));
    assert_eq!(
        r,
        Ok(&Value::Object(vec![(
            "name".to_string(),
            Value::Text("x".to_string())
        )]))
    );
}

#[test]
fn add_field_failure_leaves_tree_unchanged() {
    let mut tree = sample_tree();
    let before = sample_tree();
    let r = tree.add_field(
        &seg(&["", "missing", "parent"]),
        &"f".to_string(),
        FieldType::Bool,
        &"true".to_string(),
        &no_bits(),
    );
    assert_eq!(r, Err(PathError::MissingSegment));
    assert_eq!(tree, before);

    let r = tree.add_field(
        &seg(&["", "a", "b"]),
        &"f".to_string(),
        FieldType::Bool,
        &"true".to_string(),
        &no_bits(),
    );
    assert_eq!(r, Err(PathError::NotAnObject));
    assert_eq!(tree, before);
}

#[test]
fn add_field_overwrites_in_place() {
    let mut tree = sample_tree();
    add_text(&mut tree, &["", "a"], "b", "newer");
    let r = tree.resolve_for_write(&seg(&["", "a"]));
    assert_eq!(
        r,
        Ok(&Value::Object(vec![
            ("b".to_string(), Value::Text("newer".to_string())),
            (
                "c".to_string(),
                Value::Object(vec![("b".to_string(), Value::Text("deep".to_string()))])
            ),
        ]))
    );
}

#[test]
fn inject_first_string_wins() {
    let mut tree = sample_tree();
    let r = tree.inject(&"a.b".to_string(), &"new".to_string());
    assert_eq!(r, Ok(()));
    let a = tree.resolve_for_write(&seg(&["", "a"]));
    assert_eq!(
        a,
        Ok(&Value::Object(vec![
            ("b".to_string(), Value::Text("new".to_string())),
            (
                "c".to_string(),
                Value::Object(vec![("b".to_string(), Value::Text("deep".to_string()))])
            ),
        ]))
    );
}

#[test]
fn inject_reaches_a_deep_string() {
    let mut tree = sample_tree();
    let r = tree.inject(&"a.c.b".to_string(), &"X".to_string());
    assert_eq!(r, Ok(()));
    let c = tree.resolve_for_write(&seg(&["", "a", "c"]));
    assert_eq!(
        c,
        Ok(&Value::Object(vec![(
            "b".to_string(),
            Value::Text("X".to_string())
        )]))
    );
}

#[test]
fn inject_stops_at_first_string_and_ignores_the_rest() {
    let mut tree = sample_tree();
    let before = sample_tree();
    let r = tree.inject(&"a.b.whatever".to_string(), &"won".to_string());
    assert_eq!(r, Ok(()));
    assert_ne!(tree, before);
    let a = tree.resolve_for_write(&seg(&["", "a"]));
    assert_eq!(
        a,
        Ok(&Value::Object(vec![
            ("b".to_string(), Value::Text("won".to_string())),
            (
                "c".to_string(),
                Value::Object(vec![("b".to_string(), Value::Text("deep".to_string()))])
            ),
        ]))
    );
}

#[test]
fn inject_exhausted_path_is_a_silent_no_op() {
    let mut tree = sample_tree();
    let before = sample_tree();
    let r = tree.inject(&"a.c".to_string(), &"ignored".to_string());
    assert_eq!(r, Ok(()));
    assert_eq!(tree, before);
}

#[test]
fn inject_missing_segment() {
    let mut tree = sample_tree();
    let before = sample_tree();
    let r = tree.inject(&"a.zz".to_string(), &"v".to_string());
    assert_eq!(r, Err(PathError::MissingSegment));
    assert_eq!(tree, before);
}

#[test]
fn inject_not_an_object() {
    let mut tree = SchemaTree::new();
    let r = tree.add_field(
        &seg(&[""]),
        &"n".to_string(),
        FieldType::Number,
        &"1".to_string(),
        &vec![Some(1.0f64.to_bits())],
    );
    assert_eq!(r, Ok(()));
    let expected_root = vec![(
        String::new(),
        Value::Object(vec![("n".to_string(), Value::Number(1.0f64.to_bits()))]),
    )];
    assert_eq!(tree.root, expected_root);
    let r = tree.inject(&"n".to_string(), &"v".to_string());
    assert_eq!(r, Err(PathError::NotAnObject));
    assert_eq!(tree.root, expected_root);
}

#[test]
fn inject_empty_segment_fails_lookup() {
    let mut tree = sample_tree();
    let r = tree.inject(&".a".to_string(), &"v".to_string());
    assert_eq!(r, Err(PathError::MissingSegment));
}

#[test]
fn enumerate_new_tree() {
    let tree = SchemaTree::new();
    assert_eq!(tree.enumerate_objects(), vec![seg(&[""])]);
}

#[test]
fn enumerate_is_preorder_and_complete() {
    let tree = sample_tree();
    let paths = tree.enumerate_objects();
    assert_eq!(
        paths,
        vec![seg(&[""]), seg(&["", "a"]), seg(&["", "a", "c"])]
    );
    for p in &paths {
        let r = tree.resolve_for_write(p);
        assert!(matches!(r, Ok(Value::Object(_))));
    }
    for i in 0..paths.len() {
        for j in (i + 1)..paths.len() {
            assert_ne!(paths[i], paths[j]);
        }
    }
}

#[test]
fn enumerate_reflects_later_growth() {
    let mut tree = sample_tree();
    add_object(&mut tree, &["", "a", "c"], "d");
    assert_eq!(
        tree.enumerate_objects(),
        vec![
            seg(&[""]),
            seg(&["", "a"]),
            seg(&["", "a", "c"]),
            seg(&["", "a", "c", "d"]),
        ]
    );
}
