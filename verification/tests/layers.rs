use layertools::classpath::classpath_entries;
use layertools::index::IndexError;
use layertools::layers::{is_requested, layer_names, plan, Layer};
use layertools::tree::{strings_of, Entry, Node};

fn text(s: &str) -> Node {
    Node::Text(s.to_string())
}

fn list(items: Vec<Node>) -> Node {
    Node::List(items)
}

fn mapping(key: Node, value: Node) -> Node {
    Node::Table(vec![Entry { key, value }])
}

fn layer(name: &str, files: &[&str]) -> Layer {
    Layer { name: name.to_string(), files: files.iter().map(|f| f.to_string()).collect() }
}

fn strings(items: &[&str]) -> Vec<String> {
    items.iter().map(|item| item.to_string()).collect()
}

fn three_layers() -> Node {
    list(vec![
        mapping(text("a"), list(vec![text("a/")])),
        mapping(text("b"), list(vec![text("b/"), text("b.txt")])),
        mapping(text("c"), list(vec![])),
    ])
}

#[test]
fn requested_subset_keeps_only_its_layers() {
    assert_eq!(
        plan(&three_layers(), &strings(&["b"])),
        Ok(vec![layer("b", &["b/", "b.txt"])])
    );
}

#[test]
fn empty_request_keeps_all_layers_in_index_order() {
    assert_eq!(
        plan(&three_layers(), &strings(&[])),
        Ok(vec![layer("a", &["a/"]), layer("b", &["b/", "b.txt"]), layer("c", &[])])
    );
}

#[test]
fn request_does_not_reorder_the_index() {
    assert_eq!(
        plan(&three_layers(), &strings(&["c", "a", "missing"])),
        Ok(vec![layer("a", &["a/"]), layer("c", &[])])
    );
    assert_eq!(plan(&three_layers(), &strings(&["missing"])), Ok(vec![]));
}

#[test]
fn index_must_be_a_sequence_of_single_mappings() {
    let none: Vec<String> = Vec::new();
    assert_eq!(plan(&text("a"), &none), Err(IndexError::ExpectedLayerMappings));
    assert_eq!(plan(&Node::Null, &none), Err(IndexError::ExpectedLayerMappings));
    assert_eq!(
        plan(&list(vec![mapping(text("a"), Node::Null), text("b")]), &none),
        Err(IndexError::ExpectedLayerMappings)
    );
    let two_entries = Node::Table(vec![
        Entry { key: text("a"), value: Node::Null },
        Entry { key: text("b"), value: Node::Null },
    ]);
    assert_eq!(plan(&list(vec![two_entries]), &none), Err(IndexError::ExpectedLayerMappings));
    assert_eq!(
        plan(&list(vec![Node::Table(vec![])]), &none),
        Err(IndexError::ExpectedLayerMappings)
    );
    assert_eq!(plan(&list(vec![]), &none), Ok(vec![]));
}

#[test]
fn shape_is_checked_for_layers_that_are_not_requested_too() {
    let tree = list(vec![mapping(text("a"), Node::Null), text("stray")]);
    assert_eq!(plan(&tree, &strings(&["a"])), Err(IndexError::ExpectedLayerMappings));
}

#[test]
fn value_that_is_no_sequence_declares_nothing() {
    let tree = list(vec![
        mapping(text("null"), Node::Null),
        mapping(text("scalar"), text("file")),
        mapping(text("table"), mapping(text("k"), text("v"))),
        mapping(text("mixed"), list(vec![text("x"), Node::Other, Node::Null, text("y")])),
    ]);
    assert_eq!(
        plan(&tree, &strings(&[])),
        Ok(vec![
            layer("null", &[]),
            layer("scalar", &[]),
            layer("table", &[]),
            layer("mixed", &["x", "y"]),
        ])
    );
}

#[test]
fn key_that_is_no_string_names_no_layer() {
    let tree = list(vec![
        mapping(Node::Other, list(vec![text("x")])),
        mapping(text("a"), list(vec![text("y")])),
        mapping(Node::Null, Node::Null),
    ]);
    assert_eq!(plan(&tree, &strings(&[])), Ok(vec![layer("a", &["y"])]));
}

#[test]
fn layer_names_come_in_index_order() {
    assert_eq!(layer_names(&three_layers()), Ok(strings(&["a", "b", "c"])));
    assert_eq!(layer_names(&text("a")), Err(IndexError::ExpectedLayerMappings));
}

#[test]
fn is_requested_tells_members_of_the_request() {
    assert!(is_requested(&"a".to_string(), &strings(&[])));
    assert!(is_requested(&"a".to_string(), &strings(&["b", "a"])));
    assert!(!is_requested(&"a".to_string(), &strings(&["b", "aa", ""])));
}

#[test]
fn classpath_is_listed_in_index_order() {
    let tree = list(vec![text("BOOT-INF/lib/a.jar"), text("BOOT-INF/lib/b.jar")]);
    assert_eq!(
        classpath_entries(&tree),
        Ok(strings(&["BOOT-INF/lib/a.jar", "BOOT-INF/lib/b.jar"]))
    );
}

#[test]
fn classpath_leaves_out_what_is_no_string() {
    let tree = list(vec![text("b.jar"), Node::Other, list(vec![text("x")]), text("a.jar")]);
    assert_eq!(classpath_entries(&tree), Ok(strings(&["b.jar", "a.jar"])));
    assert_eq!(classpath_entries(&list(vec![])), Ok(strings(&[])));
}

#[test]
fn classpath_must_be_a_sequence() {
    assert_eq!(classpath_entries(&text("a.jar")), Err(IndexError::ExpectedSequence));
    assert_eq!(
        classpath_entries(&mapping(text("a"), text("b"))),
        Err(IndexError::ExpectedSequence)
    );
    assert_eq!(classpath_entries(&Node::Null), Err(IndexError::ExpectedSequence));
}

#[test]
fn strings_of_keeps_the_strings() {
    assert_eq!(
        strings_of(&vec![Node::Null, text("a"), text(""), Node::Other, text("b")]),
        strings(&["a", "", "b"])
    );
}
