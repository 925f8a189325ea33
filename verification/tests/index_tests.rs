use chibigit::index::parse_index_content;
use chibigit::tree::Mode;
use chibigit::GitError;

fn push_u32(buf: &mut Vec<u8>, v: u32) {
    buf.extend_from_slice(&v.to_be_bytes());
}

fn push_u16(buf: &mut Vec<u8>, v: u16) {
    buf.extend_from_slice(&v.to_be_bytes());
}

fn header(signature: &[u8], version: u32, entries: u32) -> Vec<u8> {
    let mut buf = Vec::new();
    buf.extend_from_slice(signature);
    push_u32(&mut buf, version);
    push_u32(&mut buf, entries);
    buf
}

struct EntryFields {
    ctime: (u32, u32),
    mtime: (u32, u32),
    device: u32,
    inode: u32,
    mode: u32,
    uid: u32,
    gid: u32,
    size: u32,
    digest: [u8; 20],
    name: Vec<u8>,
}

impl EntryFields {
    fn plain(name: &str) -> EntryFields {
        EntryFields {
            ctime: (1_700_000_000, 0),
            mtime: (1_700_000_001, 500),
            device: 2049,
            inode: 131_072,
            mode: 0o100_644,
            uid: 1000,
            gid: 1000,
            size: 42,
            digest: [0xabu8; 20],
            name: name.as_bytes().to_vec(),
        }
    }

    fn encode(&self) -> Vec<u8> {
        let mut buf = Vec::new();
        push_u32(&mut buf, self.ctime.0);
        push_u32(&mut buf, self.ctime.1);
        push_u32(&mut buf, self.mtime.0);
        push_u32(&mut buf, self.mtime.1);
        push_u32(&mut buf, self.device);
        push_u32(&mut buf, self.inode);
        push_u32(&mut buf, self.mode);
        push_u32(&mut buf, self.uid);
        push_u32(&mut buf, self.gid);
        push_u32(&mut buf, self.size);
        buf.extend_from_slice(&self.digest);
        let name_len = self.name.len() as u16;
        push_u16(&mut buf, name_len);
        buf.extend_from_slice(&self.name);
        let floor = (name_len.wrapping_sub(2)) / 8;
        let padding = if name_len >= 2 {
            (floor + 1) * 8 + 2 - name_len
        } else {
            2 - name_len
        };
        for _ in 0..padding {
            buf.push(0);
        }
        buf
    }
}

#[test]
fn decodes_a_one_entry_index() {
    let mut buf = header(b"DIRC", 2, 1);
    buf.extend_from_slice(&EntryFields::plain("file.txt").encode());
    let state = parse_index_content(&buf).unwrap();
    assert_eq!(state.header.signature, b"DIRC".to_vec());
    assert_eq!(state.header.version, 2);
    assert_eq!(state.header.entries, 1);
    assert_eq!(state.entries.len(), 1);
    let e = &state.entries[0];
    assert_eq!(e.ctime.secs, 1_700_000_000);
    assert_eq!(e.ctime.nanos, 0);
    assert_eq!(e.mtime.secs, 1_700_000_001);
    assert_eq!(e.mtime.nanos, 500);
    assert_eq!(e.device, 2049);
    assert_eq!(e.inode, 131_072);
    assert!(matches!(e.mode, Mode::File));
    assert_eq!(e.uid, 1000);
    assert_eq!(e.gid, 1000);
    assert_eq!(e.size, 42);
    assert_eq!(e.object_id.to_hex(), "ab".repeat(20));
    assert_eq!(e.name_len, 8);
    assert_eq!(e.name, "file.txt");
}

#[test]
fn decodes_entries_in_file_order_and_ignores_extensions() {
    let mut buf = header(b"DIRC", 2, 2);
    buf.extend_from_slice(&EntryFields::plain("a").encode());
    let mut second = EntryFields::plain("some/longer/path.rs");
    second.mode = 0o100_755;
    buf.extend_from_slice(&second.encode());
    buf.extend_from_slice(b"TREE extension bytes that are not parsed");
    let state = parse_index_content(&buf).unwrap();
    assert_eq!(state.entries.len(), 2);
    assert_eq!(state.entries[0].name, "a");
    assert_eq!(state.entries[1].name, "some/longer/path.rs");
    assert!(matches!(state.entries[1].mode, Mode::Executable));
}

#[test]
fn an_empty_index_has_no_entries() {
    let buf = header(b"DIRC", 2, 0);
    let state = parse_index_content(&buf).unwrap();
    assert_eq!(state.entries.len(), 0);
}

#[test]
fn rejects_a_bad_signature() {
    let mut buf = header(b"XXXX", 2, 1);
    buf.extend_from_slice(&EntryFields::plain("file.txt").encode());
    assert_eq!(parse_index_content(&buf).unwrap_err(), GitError::BadSignature);
}

#[test]
fn rejects_an_unsupported_version() {
    let mut buf = header(b"DIRC", 3, 1);
    buf.extend_from_slice(&EntryFields::plain("file.txt").encode());
    assert_eq!(
        parse_index_content(&buf).unwrap_err(),
        GitError::UnsupportedVersion
    );
}

#[test]
fn rejects_a_truncated_entry() {
    let mut buf = header(b"DIRC", 2, 1);
    buf.extend_from_slice(&[0u8; 20]);
    assert_eq!(parse_index_content(&buf).unwrap_err(), GitError::TruncatedIndex);

    let mut cut = header(b"DIRC", 2, 1);
    let entry = EntryFields::plain("file.txt").encode();
    cut.extend_from_slice(&entry[..50]);
    assert_eq!(parse_index_content(&cut).unwrap_err(), GitError::TruncatedIndex);
}

#[test]
fn rejects_a_truncated_header() {
    assert_eq!(parse_index_content(b"DI").unwrap_err(), GitError::TruncatedIndex);
    assert_eq!(parse_index_content(b"DIRC\0\0\0").unwrap_err(), GitError::TruncatedIndex);
}

#[test]
fn rejects_a_missing_entry() {
    let mut buf = header(b"DIRC", 2, 2);
    buf.extend_from_slice(&EntryFields::plain("file.txt").encode());
    assert_eq!(parse_index_content(&buf).unwrap_err(), GitError::TruncatedIndex);
}

#[test]
fn rejects_a_name_shorter_than_declared() {
    let mut buf = header(b"DIRC", 2, 1);
    let entry = EntryFields::plain("file.txt").encode();
    buf.extend_from_slice(&entry[..entry.len() - 4]);
    assert_eq!(parse_index_content(&buf).unwrap_err(), GitError::TruncatedIndex);
}

#[test]
fn rejects_an_out_of_range_nanosecond() {
    let mut buf = header(b"DIRC", 2, 1);
    let mut fields = EntryFields::plain("file.txt");
    fields.ctime = (1_700_000_000, 2_000_000_000);
    buf.extend_from_slice(&fields.encode());
    assert_eq!(
        parse_index_content(&buf).unwrap_err(),
        GitError::InvalidTimestamp
    );
}

#[test]
fn accepts_leap_second_nanoseconds_only_at_a_59th_second() {
    let mut ok = header(b"DIRC", 2, 1);
    let mut fields = EntryFields::plain("file.txt");
    fields.mtime = (59, 1_500_000_000);
    ok.extend_from_slice(&fields.encode());
    let state = parse_index_content(&ok).unwrap();
    assert_eq!(state.entries[0].mtime.nanos, 1_500_000_000);

    let mut bad = header(b"DIRC", 2, 1);
    let mut fields = EntryFields::plain("file.txt");
    fields.mtime = (60, 1_500_000_000);
    bad.extend_from_slice(&fields.encode());
    assert_eq!(
        parse_index_content(&bad).unwrap_err(),
        GitError::InvalidTimestamp
    );
}

#[test]
fn rejects_an_unknown_mode_code() {
    let mut buf = header(b"DIRC", 2, 1);
    let mut fields = EntryFields::plain("file.txt");
    fields.mode = 0o100_600;
    buf.extend_from_slice(&fields.encode());
    assert_eq!(parse_index_content(&buf).unwrap_err(), GitError::InvalidMode);
}

#[test]
fn rejects_a_name_that_is_not_utf8() {
    let mut buf = header(b"DIRC", 2, 1);
    let mut fields = EntryFields::plain("");
    fields.name = vec![0xff, 0xfe, 0xfd];
    buf.extend_from_slice(&fields.encode());
    assert_eq!(parse_index_content(&buf).unwrap_err(), GitError::InvalidName);
}

#[test]
fn padding_lands_each_record_on_an_eight_byte_boundary() {
    for name in ["", "a", "ab", "abc", "abcdefgh", "abcdefghi"] {
        let encoded = EntryFields::plain(name).encode();
        assert_eq!(encoded.len() % 8, 0);
        assert!(encoded.len() >= 62 + name.len() + 1);
        let mut buf = header(b"DIRC", 2, 2);
        buf.extend_from_slice(&encoded);
        buf.extend_from_slice(&EntryFields::plain("second").encode());
        let state = parse_index_content(&buf).unwrap();
        assert_eq!(state.entries[0].name, name);
        assert_eq!(state.entries[1].name, "second");
    }
}
