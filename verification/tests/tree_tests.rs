use chibigit::object::ObjectType;
use chibigit::tree::{parse_tree_content, Mode};
use chibigit::GitError;

fn one_entry(mode: &[u8], name: &[u8], digest: &[u8]) -> Vec<u8> {
    let mut buf = Vec::new();
    buf.extend_from_slice(mode);
    buf.push(b' ');
    buf.extend_from_slice(name);
    buf.push(0);
    buf.extend_from_slice(digest);
    buf
}

#[test]
fn decodes_a_single_regular_file_entry() {
    let digest: Vec<u8> = (0..20).map(|i| (i * 7 + 3) as u8).collect();
    let buf = one_entry(b"100644", b"file.txt", &digest);
    let entries = parse_tree_content(&buf).unwrap();
    assert_eq!(entries.len(), 1);
    assert!(matches!(entries[0].mode, Mode::File));
    assert!(matches!(entries[0].kind, ObjectType::Blob));
    assert_eq!(entries[0].name, "file.txt");
    let hex: String = digest.iter().map(|b| format!("{:02x}", b)).collect();
    assert_eq!(entries[0].get_sha1(), hex);
}

#[test]
fn decodes_records_in_file_order() {
    let d1 = [1u8; 20];
    let d2 = [2u8; 20];
    let mut buf = one_entry(b"40000", b"src", &d1);
    buf.extend_from_slice(&one_entry(b"120000", b"link", &d2));
    let entries = parse_tree_content(&buf).unwrap();
    assert_eq!(entries.len(), 2);
    assert!(matches!(entries[0].mode, Mode::Directory));
    assert!(matches!(entries[0].kind, ObjectType::Tree));
    assert_eq!(entries[0].name, "src");
    assert!(matches!(entries[1].mode, Mode::Symlink));
    assert!(matches!(entries[1].kind, ObjectType::Blob));
    assert_eq!(entries[1].name, "link");
}

#[test]
fn empty_content_is_an_empty_listing() {
    let entries = parse_tree_content(b"").unwrap();
    assert_eq!(entries.len(), 0);
}

#[test]
fn rejects_truncated_digest() {
    let buf = one_entry(b"100644", b"file.txt", &[9u8; 19]);
    assert_eq!(parse_tree_content(&buf).unwrap_err(), GitError::TruncatedTree);
}

#[test]
fn rejects_record_without_space() {
    assert_eq!(parse_tree_content(b"100644").unwrap_err(), GitError::TruncatedTree);
}

#[test]
fn rejects_record_without_nul() {
    assert_eq!(
        parse_tree_content(b"100644 file.txt").unwrap_err(),
        GitError::TruncatedTree
    );
}

#[test]
fn rejects_unknown_mode() {
    let buf = one_entry(b"100999", b"x", &[0u8; 20]);
    assert_eq!(parse_tree_content(&buf).unwrap_err(), GitError::InvalidMode);
    let buf = one_entry(b"100600", b"x", &[0u8; 20]);
    assert_eq!(parse_tree_content(&buf).unwrap_err(), GitError::InvalidMode);
}

#[test]
fn rejects_name_that_is_not_utf8() {
    let buf = one_entry(b"100644", &[0xffu8, 0xfe], &[0u8; 20]);
    assert_eq!(parse_tree_content(&buf).unwrap_err(), GitError::InvalidName);
}

#[test]
fn executable_mode_maps_to_blob() {
    let buf = one_entry(b"100755", b"run.sh", &[5u8; 20]);
    let entries = parse_tree_content(&buf).unwrap();
    assert!(matches!(entries[0].mode, Mode::Executable));
    assert!(matches!(entries[0].kind, ObjectType::Blob));
}

#[test]
fn mode_octal_codes_round_trip() {
    for mode in [Mode::Directory, Mode::File, Mode::Executable, Mode::Symlink] {
        let code = mode.to_octal();
        let back = Mode::from_octal(code).unwrap();
        assert_eq!(back.to_octal(), code);
    }
    assert_eq!(Mode::Directory.to_octal(), 0o040_000);
    assert_eq!(Mode::File.to_octal(), 0o100_644);
    assert_eq!(Mode::Executable.to_octal(), 0o100_755);
    assert_eq!(Mode::Symlink.to_octal(), 0o120_000);
    assert_eq!(Mode::from_octal(0).unwrap_err(), GitError::InvalidMode);
    assert_eq!(Mode::from_octal(0o100_645).unwrap_err(), GitError::InvalidMode);
}
