use std::io::Write;

use chibigit::object::{parse_object_bytes, serialize_object, Object, ObjectType};
use chibigit::store::{
    compress_object, hash_content, hash_object, object_filedir, object_filename,
    parse_object_content,
};
use chibigit::GitError;

fn zlib(bytes: &[u8]) -> Vec<u8> {
    let mut encoder = flate2::write::ZlibEncoder::new(Vec::new(), flate2::Compression::default());
    encoder.write_all(bytes).unwrap();
    encoder.finish().unwrap()
}

#[test]
fn serialize_frames_kind_and_size() {
    let object = Object::new(ObjectType::Blob, b"abc".to_vec());
    assert_eq!(serialize_object(&object), b"blob 3\0abc".to_vec());

    let empty = Object::new(ObjectType::Tree, Vec::new());
    assert_eq!(serialize_object(&empty), b"tree 0\0".to_vec());

    let commit = Object::new(ObjectType::Commit, b"x".to_vec());
    assert_eq!(serialize_object(&commit), b"commit 1\0x".to_vec());
}

#[test]
fn empty_blob_has_the_well_known_digest() {
    let object = Object::new(ObjectType::Blob, Vec::new());
    let id = hash_object(&object);
    assert_eq!(id.to_hex(), "e69de29bb2d1d6434b8b29ae775ad8c2e48c5391");
}

#[test]
fn hash_is_deterministic_and_kind_sensitive() {
    let blob = Object::new(ObjectType::Blob, b"hello".to_vec());
    let blob_again = Object::new(ObjectType::Blob, b"hello".to_vec());
    assert_eq!(hash_object(&blob).to_hex(), hash_object(&blob_again).to_hex());

    let tree = Object::new(ObjectType::Tree, b"hello".to_vec());
    assert_ne!(hash_object(&blob).to_hex(), hash_object(&tree).to_hex());

    let commit = Object::new(ObjectType::Commit, b"hello".to_vec());
    assert_ne!(hash_object(&tree).to_hex(), hash_object(&commit).to_hex());
}

#[test]
fn hash_content_matches_hash_of_serialized_form() {
    let object = Object::new(ObjectType::Blob, b"abc".to_vec());
    let serial = serialize_object(&object);
    assert_eq!(hash_content(&serial).to_hex(), hash_object(&object).to_hex());
}

#[test]
fn store_round_trips_every_kind() {
    for (kind, content) in [
        (ObjectType::Blob, b"hello world\n".to_vec()),
        (ObjectType::Tree, vec![0u8, 1, 2, 254, 255]),
        (ObjectType::Commit, Vec::new()),
    ] {
        let object = Object::new(kind, content.clone());
        let stored = compress_object(&object);
        let back = parse_object_content(&stored).unwrap();
        assert_eq!(back.kind, kind);
        assert_eq!(back.content, content);
    }
}

#[test]
fn writing_the_same_object_twice_is_identical() {
    let a = Object::new(ObjectType::Blob, b"same bytes".to_vec());
    let b = Object::new(ObjectType::Blob, b"same bytes".to_vec());
    assert_eq!(hash_object(&a).to_hex(), hash_object(&b).to_hex());
    assert_eq!(compress_object(&a), compress_object(&b));
    let id_a = hash_object(&a);
    let id_b = hash_object(&b);
    assert_eq!(
        object_filename(".git", &id_a),
        object_filename(".git", &id_b)
    );
}

#[test]
fn object_paths_split_the_digest() {
    let object = Object::new(ObjectType::Blob, Vec::new());
    let id = hash_object(&object);
    assert_eq!(object_filedir(".git", &id), ".git/objects/e6");
    assert_eq!(
        object_filename(".git", &id),
        ".git/objects/e6/9de29bb2d1d6434b8b29ae775ad8c2e48c5391"
    );
}

#[test]
fn parse_rejects_size_mismatch() {
    let r = parse_object_bytes(b"blob 4\0abc");
    assert_eq!(r.unwrap_err(), GitError::SizeMismatch);
    let r = parse_object_bytes(b"blob 2\0abc");
    assert_eq!(r.unwrap_err(), GitError::SizeMismatch);
    let compressed = zlib(b"blob 4\0abc");
    let r = parse_object_content(&compressed);
    assert_eq!(r.unwrap_err(), GitError::SizeMismatch);
}

#[test]
fn parse_rejects_unknown_kind_label() {
    assert_eq!(
        parse_object_bytes(b"blog 3\0abc").unwrap_err(),
        GitError::UnknownObjectKind
    );
    assert_eq!(
        parse_object_bytes(b"blob3\0abc").unwrap_err(),
        GitError::UnknownObjectKind
    );
    assert_eq!(
        parse_object_bytes(b"").unwrap_err(),
        GitError::UnknownObjectKind
    );
}

#[test]
fn parse_rejects_oversized_declared_size() {
    let r = parse_object_bytes(b"blob 4294967296\0abc");
    assert_eq!(r.unwrap_err(), GitError::SizeMismatch);
}

#[test]
fn parse_rejects_undecompressable_bytes() {
    let r = parse_object_content(b"not a zlib stream");
    assert_eq!(r.unwrap_err(), GitError::CorruptObject);
}

#[test]
fn labels_render_lowercase() {
    assert_eq!(ObjectType::Blob.label(), "blob");
    assert_eq!(ObjectType::Tree.label(), "tree");
    assert_eq!(ObjectType::Commit.label(), "commit");
}
