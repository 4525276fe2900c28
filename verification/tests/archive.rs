use layertools::archive::{
    classpath, classpath_yaml, extract, extract_layer, extract_layers, layers_yaml, list,
    load_index, lookup,
};
use layertools::extract::{ExtractError, LayerPlan, Lookup, Step};
use layertools::index::IndexError;
use layertools::layers::Layer;
use layertools::manifest::{JarManifest, ManifestError};
use layertools::tree::Node;
use std::io::{Cursor, Write};
use zip::write::FileOptions;
use zip::{CompressionMethod, ZipArchive, ZipWriter};

const MANIFEST: &str = "Manifest-Version: 1.0\r
Spring-Boot-Classes: BOOT-INF/classes/\r
Spring-Boot-Lib: BOOT-INF/lib/\r
Spring-Boot-Layers-Index: BOOT-INF/layers.idx\r
Spring-Boot-Classpath-Index: BOOT-INF/classpath.idx\r
";

const LAYERS_INDEX: &str = "- \"dependencies\":
  - \"BOOT-INF/lib/\"
- \"empty\":
- \"application\":
  - \"BOOT-INF/classes/\"
  - \"BOOT-INF/layers.idx\"
";

const CLASSPATH_INDEX: &str = "- \"BOOT-INF/lib/a.jar\"\n- \"BOOT-INF/lib/b.jar\"\n";

fn jar_of(members: &[(&str, &[u8])]) -> Vec<u8> {
    let mut writer = ZipWriter::new(Cursor::new(Vec::new()));
    for (index, (name, content)) in members.iter().enumerate() {
        let method = if index % 2 == 0 {
            CompressionMethod::Stored
        } else {
            CompressionMethod::Deflated
        };
        let options = FileOptions::default().compression_method(method);
        if name.ends_with('/') {
            writer.add_directory(*name, options).unwrap();
        } else {
            writer.start_file(*name, options).unwrap();
            writer.write_all(content).unwrap();
        }
    }
    writer.finish().unwrap().into_inner()
}

fn sample_jar() -> Vec<u8> {
    jar_of(&[
        ("META-INF/", b""),
        ("META-INF/MANIFEST.MF", MANIFEST.as_bytes()),
        ("BOOT-INF/", b""),
        ("BOOT-INF/lib/", b""),
        ("BOOT-INF/lib/a.jar", b"jar a"),
        ("BOOT-INF/lib/b.jar", b"jar b"),
        ("BOOT-INF/classes/", b""),
        ("BOOT-INF/classes/org/example/Main.class", b"class"),
        ("BOOT-INF/layers.idx", LAYERS_INDEX.as_bytes()),
        ("BOOT-INF/classpath.idx", CLASSPATH_INDEX.as_bytes()),
    ])
}

fn strings(items: &[&str]) -> Vec<String> {
    items.iter().map(|item| item.to_string()).collect()
}

fn sample_manifest() -> JarManifest {
    JarManifest {
        layers_index: "BOOT-INF/layers.idx".to_string(),
        classpath_index: "BOOT-INF/classpath.idx".to_string(),
    }
}

fn copy(member: &str) -> Step {
    Step::CopyMember { member: member.to_string(), path: member.to_string() }
}

fn dir(path: &str) -> Step {
    Step::CreateDir { path: path.to_string() }
}

fn sorted(steps: &[Step]) -> Vec<String> {
    let mut shown: Vec<String> = steps.iter().map(|step| format!("{:?}", step)).collect();
    shown.sort();
    shown
}

#[test]
fn manifest_is_read_from_the_jar() {
    let bytes = sample_jar();
    let mut archive = ZipArchive::new(Cursor::new(bytes.as_slice())).unwrap();
    assert_eq!(JarManifest::from_zip(&mut archive), Ok(sample_manifest()));
}

#[test]
fn manifest_is_read_up_to_the_first_unreadable_line() {
    let cut_short = jar_of(&[(
        "META-INF/MANIFEST.MF",
        b"Spring-Boot-Layers-Index: a\nbroken \xff line\nSpring-Boot-Classpath-Index: b\n",
    )]);
    let mut archive = ZipArchive::new(Cursor::new(cut_short.as_slice())).unwrap();
    assert_eq!(JarManifest::from_zip(&mut archive), Err(ManifestError::MissingClasspathIndex));
    let complete = jar_of(&[(
        "META-INF/MANIFEST.MF",
        b"Spring-Boot-Layers-Index: a\nSpring-Boot-Classpath-Index: b\nbroken \xff line\n",
    )]);
    let mut archive = ZipArchive::new(Cursor::new(complete.as_slice())).unwrap();
    assert_eq!(
        JarManifest::from_zip(&mut archive),
        Ok(JarManifest { layers_index: "a".to_string(), classpath_index: "b".to_string() })
    );
}

#[test]
fn jar_without_manifest_is_reported() {
    let bytes = jar_of(&[("BOOT-INF/layers.idx", LAYERS_INDEX.as_bytes())]);
    let mut archive = ZipArchive::new(Cursor::new(bytes.as_slice())).unwrap();
    assert_eq!(JarManifest::from_zip(&mut archive), Err(ManifestError::MissingManifest));
}

#[test]
fn jar_that_is_not_layered_is_reported() {
    let bytes = jar_of(&[("META-INF/MANIFEST.MF", b"Manifest-Version: 1.0\nCreated-By: me\n")]);
    let mut archive = ZipArchive::new(Cursor::new(bytes.as_slice())).unwrap();
    assert_eq!(JarManifest::from_zip(&mut archive), Err(ManifestError::MissingLayersIndex));
}

#[test]
fn layers_of_the_jar_are_listed_in_index_order() {
    let bytes = sample_jar();
    let mut archive = ZipArchive::new(Cursor::new(bytes.as_slice())).unwrap();
    assert_eq!(
        list(&mut archive, &sample_manifest()),
        Ok(strings(&["dependencies", "empty", "application"]))
    );
}

#[test]
fn classpath_of_the_jar_is_listed_in_index_order() {
    let bytes = sample_jar();
    let mut archive = ZipArchive::new(Cursor::new(bytes.as_slice())).unwrap();
    assert_eq!(
        classpath(&mut archive, &sample_manifest()),
        Ok(strings(&["BOOT-INF/lib/a.jar", "BOOT-INF/lib/b.jar"]))
    );
}

#[test]
fn indexes_are_loaded_as_trees() {
    let bytes = sample_jar();
    let mut archive = ZipArchive::new(Cursor::new(bytes.as_slice())).unwrap();
    let expected = Node::List(vec![
        Node::Text("BOOT-INF/lib/a.jar".to_string()),
        Node::Text("BOOT-INF/lib/b.jar".to_string()),
    ]);
    assert_eq!(classpath_yaml(&mut archive, &sample_manifest()), Ok(expected));
    let layers = layers_yaml(&mut archive, &sample_manifest()).unwrap();
    match layers {
        Node::List(entries) => assert_eq!(entries.len(), 3),
        other => panic!("unexpected layer index {:?}", other),
    }
}

#[test]
fn missing_index_member_is_reported() {
    let bytes = sample_jar();
    let mut archive = ZipArchive::new(Cursor::new(bytes.as_slice())).unwrap();
    let manifest = JarManifest {
        layers_index: "BOOT-INF/nothing.idx".to_string(),
        classpath_index: "BOOT-INF/lib/".to_string(),
    };
    assert_eq!(layers_yaml(&mut archive, &manifest), Err(IndexError::MemberNotFound));
    assert_eq!(list(&mut archive, &manifest), Err(IndexError::MemberNotFound));
    assert_eq!(extract(&mut archive, &manifest, &strings(&[])), Err(IndexError::MemberNotFound));
    assert_eq!(load_index(&mut archive, "nothing"), Err(IndexError::MemberNotFound));
}

#[test]
fn index_errors_are_told_apart() {
    let bytes = jar_of(&[
        ("binary.idx", b"- \"a\"\n\xff\xfe"),
        ("broken.idx", b"- \"unterminated"),
        ("two.idx", b"--- a\n--- b\n"),
        ("none.idx", b""),
        ("scalar.idx", b"just a string"),
    ]);
    let mut archive = ZipArchive::new(Cursor::new(bytes.as_slice())).unwrap();
    assert_eq!(load_index(&mut archive, "binary.idx"), Err(IndexError::Unreadable));
    assert_eq!(load_index(&mut archive, "broken.idx"), Err(IndexError::Malformed));
    assert_eq!(load_index(&mut archive, "two.idx"), Err(IndexError::NotSingleDocument));
    assert_eq!(load_index(&mut archive, "none.idx"), Err(IndexError::NotSingleDocument));
    assert_eq!(
        load_index(&mut archive, "scalar.idx"),
        Ok(Node::Text("just a string".to_string()))
    );
    let manifest = JarManifest {
        layers_index: "scalar.idx".to_string(),
        classpath_index: "scalar.idx".to_string(),
    };
    assert_eq!(list(&mut archive, &manifest), Err(IndexError::ExpectedLayerMappings));
    assert_eq!(classpath(&mut archive, &manifest), Err(IndexError::ExpectedSequence));
    assert_eq!(
        extract(&mut archive, &manifest, &strings(&[])),
        Err(IndexError::ExpectedLayerMappings)
    );
}

#[test]
fn index_is_read_from_the_member_that_the_manifest_names() {
    let bytes = jar_of(&[
        ("one.idx", b"- \"from one\"\n"),
        ("two.idx", b"- \"two\":\n  - \"from two\"\n"),
    ]);
    let mut archive = ZipArchive::new(Cursor::new(bytes.as_slice())).unwrap();
    let manifest = JarManifest {
        layers_index: "two.idx".to_string(),
        classpath_index: "one.idx".to_string(),
    };
    assert_eq!(classpath(&mut archive, &manifest), Ok(strings(&["from one"])));
    assert_eq!(list(&mut archive, &manifest), Ok(strings(&["two"])));
    assert_eq!(
        classpath_yaml(&mut archive, &manifest),
        Ok(Node::List(vec![Node::Text("from one".to_string())]))
    );
    let swapped = JarManifest {
        layers_index: "one.idx".to_string(),
        classpath_index: "two.idx".to_string(),
    };
    assert_eq!(list(&mut archive, &swapped), Err(IndexError::ExpectedLayerMappings));
    assert_eq!(classpath(&mut archive, &swapped), Ok(strings(&[])));
}

#[test]
fn index_is_read_whole() {
    let mut text = String::new();
    let mut expected: Vec<String> = Vec::new();
    for number in 0..5000 {
        let entry = format!("BOOT-INF/lib/dependency-{}.jar", number);
        text.push_str(&format!("- \"{}\"\n", entry));
        expected.push(entry);
    }
    let bytes = jar_of(&[("pad", b"x"), ("BOOT-INF/classpath.idx", text.as_bytes())]);
    let mut archive = ZipArchive::new(Cursor::new(bytes.as_slice())).unwrap();
    assert_eq!(classpath(&mut archive, &sample_manifest()), Ok(expected));
}

#[test]
fn lookup_tells_what_the_archive_says() {
    let bytes = jar_of(&[
        ("c.txt", b"c"),
        ("a/b/d.txt", b"d"),
        ("../up.txt", b"up"),
        ("/abs.txt", b"abs"),
        ("a/../../out.txt", b"out"),
        ("a/../in.txt", b"in"),
    ]);
    let mut archive = ZipArchive::new(Cursor::new(bytes.as_slice())).unwrap();
    assert_eq!(lookup(&mut archive, "c.txt"), Lookup::Enclosed("c.txt".to_string()));
    assert_eq!(lookup(&mut archive, "a/b/d.txt"), Lookup::Enclosed("a/b/d.txt".to_string()));
    assert_eq!(lookup(&mut archive, "a/../in.txt"), Lookup::Enclosed("a/../in.txt".to_string()));
    assert_eq!(lookup(&mut archive, "../up.txt"), Lookup::Unsafe);
    assert_eq!(lookup(&mut archive, "/abs.txt"), Lookup::Unsafe);
    assert_eq!(lookup(&mut archive, "a/../../out.txt"), Lookup::Unsafe);
    assert_eq!(lookup(&mut archive, "missing.txt"), Lookup::Missing);
    assert_eq!(lookup(&mut archive, "C.TXT"), Lookup::Missing);
}

#[test]
fn plain_names_have_their_enclosed_name() {
    let names = ["c.txt", "a/b/c.txt", "./d.txt", "a/./e.txt", "a//f.txt", "..g", "h..", "i j.txt"];
    let members: Vec<(&str, &[u8])> = names.iter().map(|name| (*name, &b"x"[..])).collect();
    let bytes = jar_of(&members);
    let mut archive = ZipArchive::new(Cursor::new(bytes.as_slice())).unwrap();
    for name in names {
        assert_eq!(lookup(&mut archive, name), Lookup::Enclosed(name.to_string()), "{:?}", name);
    }
    let plan = extract_layer(&mut archive, "layer", &strings(&names));
    assert_eq!(plan.failure, None);
    let mut expected = vec![Step::CreateRoot];
    expected.extend(names.iter().map(|name| copy(name)));
    assert_eq!(plan.steps, expected);
}

#[test]
fn directory_expansion_is_complete() {
    let bytes = jar_of(&[("a/", b""), ("a/x.txt", b"x"), ("a/b/y.txt", b"y"), ("c.txt", b"c")]);
    let mut archive = ZipArchive::new(Cursor::new(bytes.as_slice())).unwrap();
    let plan = extract_layer(&mut archive, "layer", &strings(&["a/"]));
    assert_eq!(plan.layer, "layer");
    assert_eq!(plan.failure, None);
    assert_eq!(plan.steps.len(), 4);
    assert_eq!(plan.steps[0], Step::CreateRoot);
    assert_eq!(plan.steps[1], dir("a/"));
    assert_eq!(sorted(&plan.steps[2..]), sorted(&[copy("a/x.txt"), copy("a/b/y.txt")]));
}

#[test]
fn file_entry_is_extracted_exactly() {
    let bytes = jar_of(&[("a/x.txt", b"x"), ("c.txt", b"content of c")]);
    let mut archive = ZipArchive::new(Cursor::new(bytes.as_slice())).unwrap();
    let plan = extract_layer(&mut archive, "layer", &strings(&["c.txt"]));
    assert_eq!(
        plan,
        LayerPlan {
            layer: "layer".to_string(),
            steps: vec![Step::CreateRoot, copy("c.txt")],
            failure: None,
        }
    );
}

#[test]
fn missing_member_stops_the_extraction() {
    let bytes = jar_of(&[("a/x.txt", b"x"), ("c.txt", b"c")]);
    let mut archive = ZipArchive::new(Cursor::new(bytes.as_slice())).unwrap();
    let layers = vec![
        Layer { name: "first".to_string(), files: strings(&["c.txt"]) },
        Layer { name: "second".to_string(), files: strings(&["c.txt", "gone.txt", "a/"]) },
        Layer { name: "third".to_string(), files: strings(&["a/"]) },
    ];
    let plans = extract_layers(&mut archive, &layers);
    assert_eq!(
        plans,
        vec![
            LayerPlan {
                layer: "first".to_string(),
                steps: vec![Step::CreateRoot, copy("c.txt")],
                failure: None,
            },
            LayerPlan {
                layer: "second".to_string(),
                steps: vec![Step::CreateRoot, copy("c.txt")],
                failure: Some(ExtractError::UnknownFile {
                    layer: "second".to_string(),
                    entry: "gone.txt".to_string(),
                }),
            },
        ]
    );
}

#[test]
fn traversal_stops_the_extraction() {
    let bytes = jar_of(&[("a/x.txt", b"x"), ("../up.txt", b"up")]);
    let mut archive = ZipArchive::new(Cursor::new(bytes.as_slice())).unwrap();
    let layers = vec![
        Layer { name: "../first".to_string(), files: strings(&["a/"]) },
        Layer { name: "second".to_string(), files: strings(&["a/"]) },
    ];
    assert_eq!(
        extract_layers(&mut archive, &layers),
        vec![LayerPlan {
            layer: "../first".to_string(),
            steps: vec![],
            failure: Some(ExtractError::LayerEscapes { layer: "../first".to_string() }),
        }]
    );
    let plan = extract_layer(&mut archive, "layer", &strings(&["../up.txt"]));
    assert_eq!(plan.steps, vec![Step::CreateRoot]);
    assert_eq!(
        plan.failure,
        Some(ExtractError::EntryEscapes {
            layer: "layer".to_string(),
            entry: "../up.txt".to_string(),
        })
    );
}

#[test]
fn all_layers_are_extracted_in_index_order() {
    let bytes = sample_jar();
    let mut archive = ZipArchive::new(Cursor::new(bytes.as_slice())).unwrap();
    let plans = extract(&mut archive, &sample_manifest(), &strings(&[])).unwrap();
    let layers: Vec<&str> = plans.iter().map(|plan| plan.layer.as_str()).collect();
    assert_eq!(layers, vec!["dependencies", "empty", "application"]);
    assert!(plans.iter().all(|plan| plan.failure.is_none()));
    assert_eq!(plans[0].steps[..2], [Step::CreateRoot, dir("BOOT-INF/lib/")]);
    assert_eq!(
        sorted(&plans[0].steps[2..]),
        sorted(&[copy("BOOT-INF/lib/a.jar"), copy("BOOT-INF/lib/b.jar")])
    );
    assert_eq!(plans[1].steps, vec![Step::CreateRoot]);
    assert_eq!(
        plans[2].steps,
        vec![
            Step::CreateRoot,
            dir("BOOT-INF/classes/"),
            copy("BOOT-INF/classes/org/example/Main.class"),
            copy("BOOT-INF/layers.idx"),
        ]
    );
}

#[test]
fn requested_layers_are_extracted_only() {
    let bytes = sample_jar();
    let mut archive = ZipArchive::new(Cursor::new(bytes.as_slice())).unwrap();
    let plans = extract(&mut archive, &sample_manifest(), &strings(&["application"])).unwrap();
    assert_eq!(plans.len(), 1);
    assert_eq!(plans[0].layer, "application");
    let none = extract(&mut archive, &sample_manifest(), &strings(&["unknown"])).unwrap();
    assert_eq!(none, vec![]);
}
