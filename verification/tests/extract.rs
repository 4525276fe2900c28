use layertools::extract::{plan_layer, ExtractError, LayerPlan, Lookup, Step};

fn strings(items: &[&str]) -> Vec<String> {
    items.iter().map(|item| item.to_string()).collect()
}

fn copy(member: &str, path: &str) -> Step {
    Step::CopyMember { member: member.to_string(), path: path.to_string() }
}

fn dir(path: &str) -> Step {
    Step::CreateDir { path: path.to_string() }
}

fn enclosed(path: &str) -> Lookup {
    Lookup::Enclosed(path.to_string())
}

fn done(layer: &str, steps: Vec<Step>) -> LayerPlan {
    LayerPlan { layer: layer.to_string(), steps, failure: None }
}

fn failed(layer: &str, steps: Vec<Step>, failure: ExtractError) -> LayerPlan {
    LayerPlan { layer: layer.to_string(), steps, failure: Some(failure) }
}

fn layer_escapes(layer: &str) -> ExtractError {
    ExtractError::LayerEscapes { layer: layer.to_string() }
}

fn entry_escapes(layer: &str, entry: &str) -> ExtractError {
    ExtractError::EntryEscapes { layer: layer.to_string(), entry: entry.to_string() }
}

fn unknown_file(layer: &str, entry: &str) -> ExtractError {
    ExtractError::UnknownFile { layer: layer.to_string(), entry: entry.to_string() }
}

#[test]
fn directory_entry_expands_to_the_files_under_it() {
    let names = strings(&["a/", "a/x.txt", "a/b/y.txt", "c.txt"]);
    let plan = plan_layer("layer", &strings(&["a/"]), &names, &vec![Lookup::Missing]);
    assert_eq!(
        plan,
        done(
            "layer",
            vec![
                Step::CreateRoot,
                dir("a/"),
                copy("a/x.txt", "a/x.txt"),
                copy("a/b/y.txt", "a/b/y.txt"),
            ]
        )
    );
}

#[test]
fn expansion_follows_the_order_of_the_listing() {
    let names = strings(&["a/b/y.txt", "c.txt", "a/x.txt", "a/"]);
    let plan = plan_layer("layer", &strings(&["a/"]), &names, &vec![]);
    assert_eq!(
        plan,
        done(
            "layer",
            vec![
                Step::CreateRoot,
                dir("a/"),
                copy("a/b/y.txt", "a/b/y.txt"),
                copy("a/x.txt", "a/x.txt"),
            ]
        )
    );
}

#[test]
fn directory_entry_matches_whole_components_only() {
    let names = strings(&["ab/x", "a.txt", "b/a/x", "a", "a/", "a//y", "./a/z", "/a/w", "a/b/"]);
    let plan = plan_layer("layer", &strings(&["a/"]), &names, &vec![]);
    assert_eq!(
        plan,
        done("layer", vec![Step::CreateRoot, dir("a/"), copy("a", "a"), copy("a//y", "a//y")])
    );
}

#[test]
fn nested_directory_entry() {
    let names = strings(&["BOOT-INF/lib/a.jar", "BOOT-INF/classes/A.class", "BOOT-INF/lib/"]);
    let plan = plan_layer("deps", &strings(&["BOOT-INF/lib/"]), &names, &vec![]);
    assert_eq!(
        plan,
        done(
            "deps",
            vec![
                Step::CreateRoot,
                dir("BOOT-INF/lib/"),
                copy("BOOT-INF/lib/a.jar", "BOOT-INF/lib/a.jar"),
            ]
        )
    );
}

#[test]
fn directory_without_files_is_still_created() {
    let plan = plan_layer("layer", &strings(&["empty/"]), &strings(&["c.txt"]), &vec![]);
    assert_eq!(plan, done("layer", vec![Step::CreateRoot, dir("empty/")]));
}

#[test]
fn file_entry_is_copied_to_its_enclosed_name() {
    let names = strings(&["c.txt", "d.txt"]);
    let plan = plan_layer("layer", &strings(&["c.txt"]), &names, &vec![enclosed("c.txt")]);
    assert_eq!(plan, done("layer", vec![Step::CreateRoot, copy("c.txt", "c.txt")]));
}

#[test]
fn file_entry_goes_by_the_lookup_not_by_the_listing() {
    let plan =
        plan_layer("layer", &strings(&["c.txt"]), &strings(&[]), &vec![enclosed("other/c.txt")]);
    assert_eq!(plan, done("layer", vec![Step::CreateRoot, copy("c.txt", "other/c.txt")]));
}

#[test]
fn layer_without_entries_creates_its_root() {
    let plan = plan_layer("layer", &strings(&[]), &strings(&["c.txt"]), &vec![]);
    assert_eq!(plan, done("layer", vec![Step::CreateRoot]));
}

#[test]
fn entries_are_planned_in_declared_order() {
    let names = strings(&["a/x", "b/y", "c.txt"]);
    let files = strings(&["b/", "c.txt", "a/"]);
    let lookups = vec![Lookup::Missing, enclosed("c.txt"), Lookup::Missing];
    assert_eq!(
        plan_layer("layer", &files, &names, &lookups),
        done(
            "layer",
            vec![
                Step::CreateRoot,
                dir("b/"),
                copy("b/y", "b/y"),
                copy("c.txt", "c.txt"),
                dir("a/"),
                copy("a/x", "a/x"),
            ]
        )
    );
}

#[test]
fn missing_member_fails_and_names_layer_and_entry() {
    let names = strings(&["a/x"]);
    let files = strings(&["a/", "gone.txt", "a/"]);
    let lookups = vec![Lookup::Missing, Lookup::Missing, Lookup::Missing];
    assert_eq!(
        plan_layer("layer", &files, &names, &lookups),
        failed(
            "layer",
            vec![Step::CreateRoot, dir("a/"), copy("a/x", "a/x")],
            unknown_file("layer", "gone.txt")
        )
    );
}

#[test]
fn entry_without_lookup_counts_as_missing() {
    let files = strings(&["c.txt", "d.txt"]);
    let lookups = vec![enclosed("c.txt")];
    assert_eq!(
        plan_layer("layer", &files, &strings(&["c.txt", "d.txt"]), &lookups),
        failed(
            "layer",
            vec![Step::CreateRoot, copy("c.txt", "c.txt")],
            unknown_file("layer", "d.txt")
        )
    );
}

#[test]
fn member_without_enclosed_name_is_a_traversal() {
    let plan =
        plan_layer("layer", &strings(&["../c.txt"]), &strings(&["../c.txt"]), &vec![Lookup::Unsafe]);
    assert_eq!(plan, failed("layer", vec![Step::CreateRoot], entry_escapes("layer", "../c.txt")));
    assert!(plan.failure.unwrap().is_traversal());
}

#[test]
fn escaping_layer_name_plans_nothing() {
    for layer in ["..", "../evil", "a/../../b", "a/..", "/abs", "/"] {
        let plan = plan_layer(layer, &strings(&["a/", "c.txt"]), &strings(&["a/x"]), &vec![]);
        assert_eq!(plan, failed(layer, vec![], layer_escapes(layer)), "layer {:?}", layer);
        assert!(plan.failure.unwrap().is_traversal());
    }
}

#[test]
fn escaping_directory_entry_stops_the_layer() {
    for entry in ["../", "../a/", "a/../", "a/../../b/", "/", "/etc/"] {
        let files = strings(&["a/", entry, "b/"]);
        let plan = plan_layer("layer", &files, &strings(&["a/x", "b/y"]), &vec![]);
        assert_eq!(
            plan,
            failed(
                "layer",
                vec![Step::CreateRoot, dir("a/"), copy("a/x", "a/x")],
                entry_escapes("layer", entry)
            ),
            "entry {:?}",
            entry
        );
    }
}

#[test]
fn escaping_first_directory_entry_creates_the_root_only() {
    let plan = plan_layer("layer", &strings(&["../a/"]), &strings(&["../a/x"]), &vec![]);
    assert_eq!(plan, failed("layer", vec![Step::CreateRoot], entry_escapes("layer", "../a/")));
}

#[test]
fn unknown_file_is_no_traversal() {
    assert!(!unknown_file("layer", "x").is_traversal());
    assert!(layer_escapes("..").is_traversal());
    assert!(entry_escapes("layer", "../").is_traversal());
}

#[test]
fn opened_member_has_an_enclosed_name_or_is_unsafe() {
    assert_eq!(Lookup::opened(Some("a/b.txt".to_string())), enclosed("a/b.txt"));
    assert_eq!(Lookup::opened(Some(String::new())), enclosed(""));
    assert_eq!(Lookup::opened(None), Lookup::Unsafe);
}
