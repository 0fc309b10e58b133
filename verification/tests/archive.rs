use darkly::archive::{write_archive, ArchiveWriteError};
use darkly::brush::pipeline::align_up;
use darkly::brush::warp_field::advect_wgsl;

#[test]
fn an_archive_of_no_entries_can_be_written() {
    assert!(write_archive(&vec![]).is_ok());
}

#[test]
fn entries_sharing_a_path_are_refused() {
    let r = write_archive(&vec![("a".to_string(), vec![1]), ("a".to_string(), vec![2])]);
    assert!(matches!(r, Err(ArchiveWriteError::Entry(_))));
}

#[test]
fn align_up_rounds_to_the_next_multiple() {
    assert_eq!(align_up(0, 256), 0);
    assert_eq!(align_up(1, 256), 256);
    assert_eq!(align_up(256, 256), 256);
    assert_eq!(align_up(257, 256), 512);
}

#[test]
fn advect_splices_its_two_arguments() {
    let src = advect_wgsl("off", "copy_origin");
    assert!(src.starts_with("    let nv = off;\n"));
    assert!(src.contains("target_pos + nv - d.copy_origin);"));
    assert!(src.ends_with("return vec4<f32>(prev + nv, 0.0, 0.0);\n"));
}

#[test]
fn distinct_short_entries_are_written() {
    let entries = vec![
        ("a.txt".to_string(), b"alpha".to_vec()),
        ("b/empty".to_string(), Vec::new()),
        ("c.bin".to_string(), vec![0u8; 70000]),
    ];
    assert!(write_archive(&entries).is_ok());
}

#[test]
fn an_overlong_entry_path_is_refused() {
    let entries = vec![("x".repeat(70000), b"data".to_vec())];
    assert!(matches!(write_archive(&entries), Err(ArchiveWriteError::Entry(_))));
}

#[test]
fn align_up_reaches_the_top_of_the_range() {
    assert_eq!(align_up(0, 256), 0);
    assert_eq!(align_up(1, 256), 256);
    assert_eq!(align_up(257, 256), 512);
    assert_eq!(align_up(u64::MAX - 255, 256), u64::MAX - 255);
}
