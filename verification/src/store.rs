//! The content-addressable object store: digesting, compressing and
//! locating serialized objects, and parsing stored bytes back into
//! objects. The filesystem itself stays outside; every function here
//! works on the bytes that are written or were read.
use std::io::Read;
use std::io::Write;

use vstd::prelude::*;
use vstd::string::StrSliceExecFns;

use sha1::Digest;

use crate::digest::{hex_of, lemma_hex_of_decodes, ObjectID};
use crate::object::{
    lemma_parse_of_serial, parse_object_bytes, parse_object_spec, serial_of, serialize_object,
    Object, ObjectM,
};
use crate::text::append_str;
use crate::GitError;

verus! {

/// The 20-byte digest that the SHA-1 function assigns to a byte
/// sequence. Named, not defined: the store relies on the outside
/// implementation for its value.
pub uninterp spec fn sha1_of(bytes: Seq<u8>) -> Seq<u8>;

/// The bytes that zlib decompression recovers from a buffer, or `None`
/// when the buffer is not a valid compressed stream. Named, not defined:
/// the store relies on the outside implementation for its value.
pub uninterp spec fn zlib_inflate(bytes: Seq<u8>) -> Option<Seq<u8>>;

/// Relies on the sha1 crate: the digest is a function of the input bytes
/// alone, and is always exactly 20 bytes.
#[verifier::external_body]
fn sha1_digest(content: &[u8]) -> (r: Vec<u8>)
    ensures
        r@ == sha1_of(content@),
        r@.len() == 20,
{
    let mut hasher = sha1::Sha1::new();
    hasher.update(content);
    hasher.finalize().to_vec()
}

/// Relies on flate2's `write::ZlibEncoder`: writing into a `Vec` cannot
/// fail, and the compressed stream decompresses to exactly the input.
#[verifier::external_body]
fn zlib_compress(bytes: &[u8]) -> (r: Vec<u8>)
    ensures
        zlib_inflate(r@) == Some(bytes@),
{
    let mut encoder = flate2::write::ZlibEncoder::new(Vec::new(), flate2::Compression::default());
    encoder.write_all(bytes).unwrap();
    encoder.finish().unwrap()
}

/// Relies on flate2's `read::ZlibDecoder`: what it recovers is a
/// function of the input bytes alone, and a buffer that is not a valid
/// compressed stream fails.
#[verifier::external_body]
fn zlib_decompress(bytes: &[u8]) -> (r: Result<Vec<u8>, GitError>)
    ensures
        match r {
            Ok(v) => zlib_inflate(bytes@) == Some(v@),
            Err(e) => zlib_inflate(bytes@) == None::<Seq<u8>> && e == GitError::CorruptObject,
        },
{
    let mut decoder = flate2::read::ZlibDecoder::new(bytes);
    let mut out = Vec::new();
    match decoder.read_to_end(&mut out) {
        Ok(_) => Ok(out),
        Err(_) => Err(GitError::CorruptObject),
    }
}

/// Digests a raw byte buffer.
pub fn hash_content(content: &[u8]) -> (r: ObjectID)
    ensures
        r@ == sha1_of(content@),
        r.wf(),
{
    let bytes = sha1_digest(content);
    ObjectID::new(bytes)
}

/// The identity of an object: the digest of its serialized form. Pure,
/// no I/O; the kind is part of the digested bytes.
pub fn hash_object(object: &Object) -> (r: ObjectID)
    ensures
        r@ == sha1_of(serial_of(object.kind, object.content@)),
        r.wf(),
{
    let buffer = serialize_object(object);
    hash_content(buffer.as_slice())
}

/// The compressed serialized form of an object: the exact bytes the
/// store persists under the object's digest-derived path.
pub fn compress_object(object: &Object) -> (r: Vec<u8>)
    ensures
        zlib_inflate(r@) == Some(serial_of(object.kind, object.content@)),
{
    let buffer = serialize_object(object);
    zlib_compress(buffer.as_slice())
}

/// What reading stored bytes yields: decompression, then the object
/// parse. A buffer that does not decompress is corrupt.
pub open spec fn read_object_spec(bytes: Seq<u8>) -> Result<ObjectM, GitError> {
    match zlib_inflate(bytes) {
        None => Err(GitError::CorruptObject),
        Some(raw) => parse_object_spec(raw),
    }
}

/// Parses the stored, compressed bytes of an object back into the
/// object: the exact mirror of [`read_object_spec`].
pub fn parse_object_content(content: &[u8]) -> (r: Result<Object, GitError>)
    ensures
        match r {
            Ok(o) => read_object_spec(content@) == Ok::<ObjectM, GitError>(o@),
            Err(e) => read_object_spec(content@) == Err::<ObjectM, GitError>(e),
        },
{
    let raw = match zlib_decompress(content) {
        Ok(v) => v,
        Err(e) => {
            return Err(e);
        },
    };
    parse_object_bytes(raw.as_slice())
}

/// Round trip of the store: reading back the exact bytes that
/// [`compress_object`] produced for an object yields the object again,
/// kind and content byte for byte, for every content whose length fits
/// the declared 32-bit width.
pub proof fn lemma_store_round_trip(o: ObjectM, stored: Seq<u8>)
    requires
        zlib_inflate(stored) == Some(serial_of(o.kind, o.content)),
        o.content.len() <= u32::MAX,
    ensures
        read_object_spec(stored) == Ok::<ObjectM, GitError>(o),
{
    lemma_parse_of_serial(o.kind, o.content);
}

/// Digest determinism: the identity of an object is a function of its
/// kind and content alone, so hashing the same object twice — or writing
/// it twice — always yields the same digest. Immediate from the exact
/// contract of [`hash_object`], stated here as the law it is.
pub proof fn lemma_hash_deterministic(o1: ObjectM, o2: ObjectM)
    requires
        o1.kind == o2.kind,
        o1.content == o2.content,
    ensures
        sha1_of(serial_of(o1.kind, o1.content)) == sha1_of(serial_of(o2.kind, o2.content)),
{
}

/// The path infix between the repository root and a digest's directory.
pub open spec fn objects_prefix() -> Seq<char> {
    seq!['/', 'o', 'b', 'j', 'e', 'c', 't', 's', '/']
}

/// The directory a digest's object file lives in, under `root`.
pub open spec fn object_dir_of(root: Seq<char>, digest: Seq<u8>) -> Seq<char> {
    root + objects_prefix() + hex_of(digest).take(2)
}

/// The path of a digest's object file under `root`: the first two hex
/// characters name the directory, the remaining 38 the file.
pub open spec fn object_path_of(root: Seq<char>, digest: Seq<u8>) -> Seq<char> {
    root + objects_prefix() + hex_of(digest).take(2) + seq!['/'] + hex_of(digest).skip(2)
}

/// The hexadecimal spelling of a digest is ASCII text.
proof fn lemma_hex_ascii(digest: Seq<u8>)
    ensures
        vstd::utf8::is_ascii_chars(hex_of(digest)),
        hex_of(digest).len() == 2 * digest.len(),
{
    lemma_hex_of_decodes(digest);
    assert forall|i: int| 0 <= i < hex_of(digest).len() implies '\0' <= #[trigger] hex_of(
        digest,
    )[i] <= '\u{7f}' by {
        assert(crate::digest::is_lower_hex_digit(hex_of(digest)[i]));
        vstd::utf8::char_is_scalar(hex_of(digest)[i]);
    }
}

/// The objects directory that holds a digest's file, under `root`.
pub fn object_filedir(root: &str, id: &ObjectID) -> (r: String)
    requires
        id.wf(),
    ensures
        r@ == object_dir_of(root@, id@),
{
    let hex = id.to_hex();
    proof {
        lemma_hex_ascii(id@);
    }
    let mut path = root.to_owned();
    append_str(&mut path, "/objects/");
    let two = hex.as_str().substring_ascii(0, 2);
    append_str(&mut path, two);
    proof {
        reveal_strlit("/objects/");
        assert("/objects/"@ =~= objects_prefix());
        assert(hex@.subrange(0, 2) =~= hex_of(id@).take(2));
        assert(path@ =~= object_dir_of(root@, id@));
    }
    path
}

/// The path of a digest's object file under `root`.
pub fn object_filename(root: &str, id: &ObjectID) -> (r: String)
    requires
        id.wf(),
    ensures
        r@ == object_path_of(root@, id@),
{
    let hex = id.to_hex();
    proof {
        lemma_hex_ascii(id@);
    }
    let mut path = root.to_owned();
    append_str(&mut path, "/objects/");
    let two = hex.as_str().substring_ascii(0, 2);
    append_str(&mut path, two);
    append_str(&mut path, "/");
    let tail = hex.as_str().substring_ascii(2, 40);
    append_str(&mut path, tail);
    proof {
        reveal_strlit("/objects/");
        reveal_strlit("/");
        assert("/objects/"@ =~= objects_prefix());
        assert("/"@ =~= seq!['/']);
        assert(hex@.subrange(0, 2) =~= hex_of(id@).take(2));
        assert(hex@.subrange(2, 40) =~= hex_of(id@).skip(2));
        assert(path@ =~= object_path_of(root@, id@));
    }
    path
}

} // verus!
