use darkly::archive::write_archive;
use darkly::brush::default_graph;
use darkly::brush::pack::BrushPack;
use darkly::brush::pack_file::{
    check_manifest, check_record_id, from_manifest, read_pack_manifest, read_pack_record, BrushMetadata, PackFile,
    PackManifest, FORMAT_TAG, PACK_VERSION,
};

fn pack() -> BrushPack {
    let mut p = BrushPack::new("p1".into(), "Watercolors".into(), "mdi:water".into(), "#2f7fe0".into(), "#0c1a26".into());
    p.description = "Wet pigment that pools and blends.".into();
    p.members = vec!["a".into(), "b".into()];
    p
}

fn brushes() -> Vec<BrushMetadata> {
    vec![
        BrushMetadata::from_graph("a", "Rough Watercolor", default_graph()),
        BrushMetadata::from_graph("b", "Smooth Watercolor", default_graph()),
    ]
}

fn manifest(format: &str, version: u32, name: &str, icon: &str, primary: &str) -> PackManifest {
    PackManifest {
        format: format.into(),
        version,
        name: name.into(),
        description: String::new(),
        icon: icon.into(),
        primary: primary.into(),
        secondary: "#2fd0c0".into(),
        author: String::new(),
        brushes: vec![],
    }
}

#[test]
fn a_pack_file_copies_the_pack_identity() {
    let f = PackFile::new(&pack(), brushes());
    assert_eq!(f.name, "Watercolors");
    assert_eq!(f.description, "Wet pigment that pools and blends.");
    assert_eq!(f.icon, "mdi:water");
    assert_eq!(f.primary, "#2f7fe0");
    assert!(f.author.is_empty());
    assert_eq!(f.brushes.len(), 2);
    assert_eq!(PackFile::entry_path("a"), "brushes/a.json");
}

#[test]
fn the_manifest_lists_records_in_member_order() {
    let m = PackFile::new(&pack(), brushes()).manifest();
    assert_eq!(m.format, FORMAT_TAG);
    assert_eq!(m.version, PACK_VERSION);
    assert_eq!(m.brushes, vec!["brushes/a.json", "brushes/b.json"]);
    assert!(check_manifest(&m).is_ok());
}

#[test]
fn pack_round_trips_through_bytes() {
    let f = PackFile::new(&pack(), brushes());
    let records = vec![b"{\"id\":\"a\"}".to_vec(), b"{\"id\":\"b\"}".to_vec()];
    let bytes = f.to_bytes(b"{\"format\":\"darkly-brush\"}", &records).unwrap();
    assert_eq!(read_pack_manifest(&bytes).unwrap(), b"{\"format\":\"darkly-brush\"}".to_vec());
    assert_eq!(read_pack_record(&bytes, "brushes/a.json").unwrap(), records[0]);
    assert_eq!(read_pack_record(&bytes, "brushes/b.json").unwrap(), records[1]);
    let back = from_manifest(f.manifest(), brushes());
    assert_eq!(back.name, "Watercolors");
    let ids: Vec<&str> = back.brushes.iter().map(|b| b.id.as_str()).collect();
    assert_eq!(ids, vec!["a", "b"]);
}

#[test]
fn an_invalid_pack_is_not_written() {
    let mut p = pack();
    p.primary = "not-a-color".into();
    let err = PackFile::new(&p, vec![]).to_bytes(b"{}", &vec![]).unwrap_err();
    assert!(err.starts_with("pack primary color"), "got: {err}");
}

#[test]
fn corrupt_pack_zip_returns_error() {
    let err = read_pack_manifest(b"not a zip at all").unwrap_err();
    assert!(err.contains("not a readable brush pack"), "got: {err}");
}

#[test]
fn missing_pack_json_returns_error() {
    let bytes = write_archive(&vec![("something-else.txt".to_string(), b"hello".to_vec())]).unwrap();
    let err = read_pack_manifest(&bytes).unwrap_err();
    assert!(err.contains("missing pack.json"), "got: {err}");
}

#[test]
fn version_mismatch_is_rejected() {
    let err = check_manifest(&manifest(FORMAT_TAG, 2, "Future", "mdi:water", "#2f7fe0")).unwrap_err();
    assert!(err.contains("version 2"), "got: {err}");
    assert_eq!(err, "brush pack 'Future' is version 2, but this build reads version 1");
}

#[test]
fn a_foreign_format_tag_is_rejected() {
    let err = check_manifest(&manifest("darkly-document", 1, "Doc", "mdi:water", "#2f7fe0")).unwrap_err();
    assert!(err.contains("is not a brush pack"), "got: {err}");
}

#[test]
fn a_manifest_naming_a_missing_entry_is_rejected() {
    let bytes = write_archive(&vec![("pack.json".to_string(), b"{}".to_vec())]).unwrap();
    let err = read_pack_record(&bytes, "brushes/gone.json").unwrap_err();
    assert!(err.contains("which the archive lacks"), "got: {err}");
}

#[test]
fn a_malformed_manifest_color_is_rejected() {
    assert!(check_manifest(&manifest(FORMAT_TAG, PACK_VERSION, "Bad", "mdi:water", "not-a-color")).is_err());
}

#[test]
fn an_unqualified_manifest_icon_is_rejected() {
    assert!(check_manifest(&manifest(FORMAT_TAG, PACK_VERSION, "Bad", "star", "#2f7fe0")).is_err());
}

#[test]
fn an_icon_the_renderer_lacks_still_imports() {
    let m = manifest(FORMAT_TAG, PACK_VERSION, "Exotic", "some-collection:nonexistent", "#2f7fe0");
    assert!(check_manifest(&m).is_ok());
    assert_eq!(from_manifest(m, vec![]).name, "Exotic");
}

#[test]
fn a_record_needs_an_id() {
    assert_eq!(check_record_id("brushes/x.json", "  ").unwrap_err(), "brush record 'brushes/x.json' has no id");
    assert!(check_record_id("brushes/x.json", "x").is_ok());
}

#[test]
fn a_translucent_color_round_trips() {
    let mut p = pack();
    p.secondary = "#2a2148cc".into();
    let f = PackFile::new(&p, vec![]);
    assert!(f.to_bytes(b"{}", &vec![]).is_ok());
    assert_eq!(from_manifest(f.manifest(), vec![]).secondary, "#2a2148cc");
}

#[test]
fn a_pack_loads_from_its_parsed_records() {
    let f = PackFile::new(&pack(), brushes());
    let records: Vec<Result<BrushMetadata, String>> = brushes().into_iter().map(Ok).collect();
    let back = PackFile::from_parsed(f.manifest(), records).unwrap();
    assert_eq!(back.name, "Watercolors");
    assert_eq!(back.primary, "#2f7fe0");
    let ids: Vec<&str> = back.brushes.iter().map(|b| b.id.as_str()).collect();
    assert_eq!(ids, vec!["a", "b"]);
    assert_eq!(back.brushes[1].name, "Smooth Watercolor");
}

#[test]
fn the_first_bad_record_fails_the_pack() {
    let m = PackFile::new(&pack(), brushes()).manifest();
    // A blank id before an unparsable record: the blank id is reported.
    let records = vec![
        Ok(BrushMetadata::from_graph(" ", "Blank", default_graph())),
        Err("invalid brush record 'brushes/b.json': expected value".to_string()),
    ];
    assert_eq!(PackFile::from_parsed(m.clone(), records).unwrap_err(), "brush record 'brushes/a.json' has no id");
    let records = vec![Err("invalid brush record 'brushes/a.json': eof".to_string()), Ok(BrushMetadata::from_graph(" ", "Blank", default_graph()))];
    assert_eq!(PackFile::from_parsed(m, records).unwrap_err(), "invalid brush record 'brushes/a.json': eof");
}

#[test]
fn the_manifest_is_checked_before_the_records() {
    let mut m = manifest("not-a-pack", PACK_VERSION, "Odd", "mdi:water", "#2f7fe0");
    m.brushes = vec!["brushes/a.json".into()];
    let records = vec![Err("unreadable".to_string())];
    assert_eq!(PackFile::from_parsed(m, records).unwrap_err(), "'Odd' is not a brush pack (format tag 'not-a-pack')");
}

#[test]
fn pack_of_one_round_trips() {
    // Exporting a single brush is a pack of one.
    let mut p = pack();
    p.members = vec!["a".into()];
    let one = vec![BrushMetadata::from_graph("a", "Ink Pen", default_graph())];
    let f = PackFile::new(&p, one);
    let records = vec![b"{\"id\":\"a\"}".to_vec()];
    let bytes = f.to_bytes(b"{}", &records).unwrap();
    assert_eq!(read_pack_record(&bytes, "brushes/a.json").unwrap(), records[0]);
    let parsed = vec![Ok(BrushMetadata::from_graph("a", "Ink Pen", default_graph()))];
    let back = PackFile::from_parsed(f.manifest(), parsed).unwrap();
    assert_eq!(back.brushes.len(), 1);
    assert_eq!(back.brushes[0].name, "Ink Pen");
}

#[test]
fn an_empty_pack_round_trips() {
    let mut p = pack();
    p.members.clear();
    let f = PackFile::new(&p, vec![]);
    let bytes = f.to_bytes(b"{}", &vec![]).unwrap();
    assert_eq!(read_pack_manifest(&bytes).unwrap(), b"{}".to_vec());
    assert!(PackFile::from_parsed(f.manifest(), vec![]).unwrap().brushes.is_empty());
}
