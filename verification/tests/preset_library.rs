use darkly::brush::default_graph;
use darkly::brush::preset::{read_preset_json, BrushPreset, PresetBundle};
use darkly::brush::preset_library::{sanitize_filename, PresetInfo, PresetLibrary};

fn bundle(name: &str) -> PresetBundle {
    PresetBundle::without_resources(BrushPreset::from_graph(name, default_graph()))
}

#[test]
fn library_insert_list_get() {
    let mut lib = PresetLibrary::new();
    assert!(lib.is_empty());

    lib.insert(bundle("Alpha"));
    lib.insert(bundle("Beta"));

    assert_eq!(lib.len(), 2);

    let list = lib.list();
    assert_eq!(list.len(), 2);
    assert_eq!(list[0].name, "Alpha");
    assert_eq!(list[1].name, "Beta");

    assert!(lib.get("Alpha").is_some());
    assert!(lib.get("Missing").is_none());
}

#[test]
fn library_remove() {
    let mut lib = PresetLibrary::new();
    lib.insert(bundle("ToRemove"));
    assert_eq!(lib.len(), 1);

    assert!(lib.remove("ToRemove"));
    assert!(lib.is_empty());
    assert!(!lib.remove("ToRemove"));
}

#[test]
fn list_is_ordered_by_name_whatever_the_insertion_order() {
    let mut lib = PresetLibrary::default();
    for name in ["delta", "Beta", "alpha", "Charlie", "beta"] {
        lib.insert(bundle(name));
    }
    let names: Vec<String> = lib.list().into_iter().map(|i| i.name).collect();
    // Byte order: upper case before lower case.
    assert_eq!(names, vec!["Beta", "Charlie", "alpha", "beta", "delta"]);
}

#[test]
fn inserting_under_a_held_name_replaces() {
    let mut lib = PresetLibrary::new();
    lib.insert(bundle("Ink"));
    let mut second = bundle("Ink");
    second.preset.author = "someone".into();
    lib.insert(second);
    assert_eq!(lib.len(), 1);
    assert_eq!(lib.get("Ink").unwrap().preset.author, "someone");
    let list: Vec<PresetInfo> = lib.list();
    assert_eq!(list[0].author, "someone");
}

#[test]
fn graph_and_thumbnail_go_by_name() {
    let mut lib = PresetLibrary::new();
    lib.insert(bundle("Ink"));
    assert_eq!(lib.graph("Ink").unwrap().nodes.len(), 4);
    assert!(lib.graph("Nope").is_none());
    assert!(lib.set_thumbnail("Ink", vec![1, 2, 3]));
    assert_eq!(lib.get("Ink").unwrap().thumbnail_png, Some(vec![1, 2, 3]));
    assert!(!lib.set_thumbnail("Nope", vec![]));
}

#[test]
fn library_import_export_round_trip() {
    let mut lib = PresetLibrary::new();
    let name = lib.import_bytes(Ok(bundle("Roundtrip"))).unwrap();
    assert_eq!(name, "Roundtrip");
    assert_eq!(lib.len(), 1);

    let exported = lib.export_bytes("Roundtrip", "{}").unwrap();
    assert_eq!(read_preset_json(&exported).unwrap(), "{}");
    assert_eq!(lib.export_bytes("Nope", "{}").unwrap_err(), "preset 'Nope' not found");
}

#[test]
fn a_failed_import_changes_nothing() {
    let mut lib = PresetLibrary::new();
    assert_eq!(lib.import_bytes(Err("invalid ZIP archive: x".into())).unwrap_err(), "invalid ZIP archive: x");
    assert!(lib.is_empty());
}

#[test]
fn save_names_the_file_after_the_sanitized_preset_name() {
    let mut lib = PresetLibrary::new();
    lib.insert(bundle("a/b:c?"));
    let (file, bytes) = lib.save_to_directory("a/b:c?", "{}").unwrap();
    assert_eq!(file, "a_b_c_.darkly-brush");
    assert_eq!(read_preset_json(&bytes).unwrap(), "{}");
    assert_eq!(lib.save_to_directory("zzz", "{}").unwrap_err(), "preset 'zzz' not found");
}

#[test]
fn sanitize_replaces_only_unsafe_characters() {
    assert_eq!(sanitize_filename("My Brush <v2> \"soft\" | \\x*"), "My Brush _v2_ _soft_ _ _x_");
    assert_eq!(sanitize_filename("ünïcode ok"), "ünïcode ok");
}
