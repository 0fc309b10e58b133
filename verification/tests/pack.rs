use darkly::brush::pack::{validate_color, validate_icon, validate_pack, validate_shipped_pack, BrushPack, PackMutability};
use darkly::brush::pack_icons::{is_pack_icon, pack_icons, PACK_ICON_FALLBACK};

fn pack(mutability: PackMutability) -> BrushPack {
    BrushPack {
        id: "p".into(),
        name: "P".into(),
        description: String::new(),
        icon: "mdi:brush".into(),
        primary: "#ffffff".into(),
        secondary: "#000000".into(),
        mutability,
        members: vec!["a".into(), "b".into()],
    }
}

#[test]
fn pack_mutability_permits_what_it_says() {
    let cases = [
        (PackMutability::Locked, false, false),
        (PackMutability::Members, true, false),
        (PackMutability::Full, true, true),
    ];
    for (mutability, members, identity) in cases {
        let p = pack(mutability);
        assert_eq!(p.can_edit_members(), members, "{mutability:?} member editability");
        assert_eq!(p.can_edit_identity(), identity, "{mutability:?} identity editability");
    }
}

#[test]
fn adding_a_member_twice_is_idempotent() {
    let mut p = pack(PackMutability::Full);
    p.add("c".into()).unwrap();
    p.add("c".into()).unwrap();
    assert_eq!(p.members, vec!["a", "b", "c"]);
    p.add("a".into()).unwrap();
    assert_eq!(p.members, vec!["a", "b", "c"]);
}

#[test]
fn removing_an_absent_member_is_not_an_error() {
    let mut p = pack(PackMutability::Full);
    p.remove("nope").unwrap();
    assert_eq!(p.members, vec!["a", "b"]);
}

#[test]
fn a_locked_pack_rejects_both_kinds_of_edit() {
    let mut p = pack(PackMutability::Locked);
    assert!(p.add("c".into()).is_err());
    assert!(p.remove("a").is_err());
    assert!(p.ensure_identity_editable().is_err());
    assert_eq!(p.members, vec!["a", "b"]);
}

#[test]
fn favorites_takes_members_but_not_a_rename() {
    let mut p = pack(PackMutability::Members);
    p.add("c".into()).unwrap();
    assert_eq!(p.members, vec!["a", "b", "c"]);
    assert!(p.ensure_identity_editable().is_err());
}

#[test]
fn reorder_moves_a_member_and_clamps_the_index() {
    let mut p = pack(PackMutability::Full);
    p.add("c".into()).unwrap();
    p.reorder("c", 0).unwrap();
    assert_eq!(p.members, vec!["c", "a", "b"]);
    p.reorder("c", 99).unwrap();
    assert_eq!(p.members, vec!["a", "b", "c"]);
    assert!(p.reorder("missing", 0).is_err());
}

#[test]
fn retain_members_drops_ghosts_and_reports_whether_it_did() {
    let mut p = pack(PackMutability::Locked);
    assert!(p.retain_members(|m| m != "b"));
    assert_eq!(p.members, vec!["a"]);
    assert!(!p.retain_members(|_| true));
}

#[test]
fn malformed_pack_color_is_rejected() {
    for bad in ["#xyz", "ff0000", "#ff00", "#gggggg", "", "#1234567"] {
        assert!(validate_color(bad, "c").is_err(), "`{bad}` should be rejected");
    }
    for good in ["#ff0000", "#ff0000aa", "#FFAA33"] {
        assert!(validate_color(good, "c").is_ok(), "`{good}` should be accepted");
    }
}

#[test]
fn pack_icon_must_be_collection_qualified() {
    for bad in ["star", "", ":star", "fa6-solid:"] {
        assert!(validate_icon(bad).is_err(), "`{bad}` should be rejected");
    }
    assert!(validate_icon("fa6-solid:star").is_ok());
    assert!(validate_icon("some-collection:nonexistent").is_ok());
}

#[test]
fn a_shipped_pack_must_name_a_renderable_icon() {
    let mut p = pack(PackMutability::Locked);
    assert!(validate_shipped_pack(&p).is_ok());
    p.icon = "some-collection:nonexistent".into();
    assert!(validate_shipped_pack(&p).is_err());
}

#[test]
fn the_fallback_is_itself_a_pack_icon() {
    assert!(is_pack_icon(PACK_ICON_FALLBACK));
}

#[test]
fn pack_icons_are_collection_qualified_and_unique() {
    let mut seen: Vec<&str> = Vec::new();
    for (name, label) in pack_icons() {
        assert!(name.contains(':'), "`{name}` is not `collection:name` qualified");
        assert!(!label.is_empty(), "`{name}` has no label");
        assert!(!seen.contains(&name), "`{name}` is listed twice");
        seen.push(name);
    }
}

#[test]
fn color_errors_name_the_fault() {
    assert_eq!(validate_color("ff0000", "pack primary color").unwrap_err(), "pack primary color 'ff0000' must start with '#'");
    assert_eq!(validate_color("#ff00", "c").unwrap_err(), "c '#ff00' must have 6 or 8 hex digits, got 4");
    assert_eq!(validate_color("#gggggg", "c").unwrap_err(), "c '#gggggg' contains a non-hex digit");
}

#[test]
fn pack_validation_checks_name_then_icon_then_colors() {
    assert_eq!(validate_pack("  ", "bad", "x", "y").unwrap_err(), "a brush pack needs a name");
    assert!(validate_pack("P", "bad", "#000000", "#000000").unwrap_err().contains("Iconify"));
    assert!(validate_pack("P", "a:b", "#000000", "nope").unwrap_err().starts_with("pack secondary color"));
    assert!(validate_pack("P", "a:b", "#000000", "#ffffffcc").is_ok());
}

#[test]
fn adding_to_a_member_list_is_idempotent_and_removal_converges() {
    let mut p = pack(PackMutability::Full);
    p.add("x".into()).unwrap();
    let once = p.members.clone();
    p.add("x".into()).unwrap();
    assert_eq!(p.members, once);
    p.remove("x").unwrap();
    let after = p.members.clone();
    p.remove("x").unwrap();
    assert_eq!(p.members, after);
    assert!(!p.contains("x"));
}
