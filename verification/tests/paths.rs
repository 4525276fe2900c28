use layertools::paths::{
    begins_at_root, begins_with, components_of, ends_with_separator, is_escaping, name_escapes,
};
use std::path::{Component, Path};

fn chars(s: &str) -> Vec<char> {
    s.chars().collect()
}

fn parts(items: &[&str]) -> Vec<Vec<char>> {
    items.iter().map(|item| chars(item)).collect()
}

#[test]
fn parent_pieces_escape() {
    for name in ["..", "../a", "a/..", "a/../b", "a/../../b", "a//../b", "./..", "../"] {
        assert!(name_escapes(name), "{:?}", name);
        assert!(is_escaping(&chars(name)), "{:?}", name);
    }
}

#[test]
fn absolute_paths_escape() {
    for name in ["/", "/a", "//a/b", "/a/"] {
        assert!(name_escapes(name), "{:?}", name);
    }
}

#[test]
fn plain_names_do_not_escape() {
    for name in ["", "a", "a/b", "a/b/", "./a", "a/./b", "..a", "a..", "a/...", ".../b", ". ."] {
        assert!(!name_escapes(name), "{:?}", name);
    }
}

#[test]
fn separator_at_the_end_marks_a_directory() {
    assert!(ends_with_separator(&chars("a/")));
    assert!(ends_with_separator(&chars("/")));
    assert!(ends_with_separator(&chars("a/b//")));
    assert!(!ends_with_separator(&chars("")));
    assert!(!ends_with_separator(&chars("a/b")));
    assert!(!ends_with_separator(&chars("a\\")));
}

#[test]
fn root_at_the_start_marks_an_absolute_path() {
    assert!(begins_at_root(&chars("/a")));
    assert!(begins_at_root(&chars("/")));
    assert!(!begins_at_root(&chars("")));
    assert!(!begins_at_root(&chars("a/")));
}

#[test]
fn components_leave_out_empty_pieces_and_inner_dots() {
    assert_eq!(components_of(&chars("a/b/c.txt")), parts(&["a", "b", "c.txt"]));
    assert_eq!(components_of(&chars("a//b/./c/")), parts(&["a", "b", "c"]));
    assert_eq!(components_of(&chars("./a")), parts(&[".", "a"]));
    assert_eq!(components_of(&chars("/./a")), parts(&["a"]));
    assert_eq!(components_of(&chars("a/.")), parts(&["a"]));
    assert_eq!(components_of(&chars(".")), parts(&["."]));
    assert_eq!(components_of(&chars("")), parts(&[]));
    assert_eq!(components_of(&chars("///")), parts(&[]));
    assert_eq!(components_of(&chars("a/../b")), parts(&["a", "..", "b"]));
}

#[test]
fn components_are_those_of_a_path() {
    let samples = [
        "", ".", "..", "a", "a/", "/a", "./a", "a/./b", "a//b", "a/b/c", "/", "//", "./", "./.",
        "a/.", ".a/b.", "a/../b", "BOOT-INF/lib/x.jar", "./a/./b/./", "a\\b/c",
    ];
    for sample in samples {
        let expected: Vec<Vec<char>> = Path::new(sample)
            .components()
            .filter(|component| !matches!(component, Component::RootDir))
            .map(|component| component.as_os_str().to_str().unwrap().chars().collect())
            .collect();
        assert_eq!(components_of(&chars(sample)), expected, "components of {:?}", sample);
        assert_eq!(begins_at_root(&chars(sample)), Path::new(sample).has_root());
    }
}

#[test]
fn prefix_is_compared_by_components() {
    assert!(begins_with(&parts(&["a", "b"]), &parts(&["a"])));
    assert!(begins_with(&parts(&["a", "b"]), &parts(&["a", "b"])));
    assert!(begins_with(&parts(&["a"]), &parts(&[])));
    assert!(!begins_with(&parts(&["ab", "x"]), &parts(&["a"])));
    assert!(!begins_with(&parts(&["a"]), &parts(&["a", "b"])));
    assert!(!begins_with(&parts(&["b", "a"]), &parts(&["a"])));
}
