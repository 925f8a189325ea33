//! The tree decoder: interpreting one object's content as an ordered
//! directory listing. Each record is an octal mode, a space, a name, a
//! NUL and a 20-byte digest; records follow each other until the buffer
//! is exhausted, and no name ordering is imposed or checked.
use vstd::prelude::*;
use vstd::slice::{slice_subrange, slice_to_vec};
use vstd::utf8::{decode_utf8, valid_utf8};

use crate::digest::{hex_of, ObjectID};
use crate::numbers::oct_value;
use crate::numbers::parse_u32_octal;
use crate::object::ObjectType;
use crate::scan::find_byte;
use crate::text::string_from_utf8;
use crate::GitError;

verus! {

/// The closed set of file modes a tree entry or an index entry can
/// carry. Any other numeric code is rejected, never silently coerced.
#[derive(Clone, Copy, Debug, PartialEq, Eq, Structural)]
pub enum Mode {
    Directory,
    File,
    Executable,
    Symlink,
}

/// The numeric code of a mode: 0o040000 for a directory, 0o100644 for a
/// regular file, 0o100755 for an executable, 0o120000 for a symlink.
pub open spec fn mode_code(m: Mode) -> u32 {
    match m {
        Mode::Directory => 0o040_000,
        Mode::File => 0o100_644,
        Mode::Executable => 0o100_755,
        Mode::Symlink => 0o120_000,
    }
}

/// True of the four valid numeric mode codes.
pub open spec fn is_mode_code(v: nat) -> bool {
    v == 0o040_000 || v == 0o100_644 || v == 0o100_755 || v == 0o120_000
}

/// The mode a valid numeric code names.
pub open spec fn mode_of_code(v: nat) -> Mode
    recommends
        is_mode_code(v),
{
    if v == 0o040_000 {
        Mode::Directory
    } else if v == 0o100_644 {
        Mode::File
    } else if v == 0o100_755 {
        Mode::Executable
    } else {
        Mode::Symlink
    }
}

impl Default for Mode {
    /// The default mode is a regular file.
    fn default() -> (r: Self)
        ensures
            r == Mode::File,
    {
        Mode::File
    }
}

impl Mode {
    /// The numeric code of this mode.
    pub fn to_octal(&self) -> (r: u32)
        ensures
            r == mode_code(*self),
    {
        match self {
            Mode::Directory => 0o040_000,
            Mode::File => 0o100_644,
            Mode::Executable => 0o100_755,
            Mode::Symlink => 0o120_000,
        }
    }

    /// Maps a numeric code to its mode. Exactly the four valid codes are
    /// accepted; anything else is `InvalidMode`.
    pub fn from_octal(mode: u32) -> (r: Result<Self, GitError>)
        ensures
            match r {
                Ok(m) => is_mode_code(mode as nat) && m == mode_of_code(mode as nat),
                Err(e) => e == GitError::InvalidMode && !is_mode_code(mode as nat),
            },
    {
        if mode == 0o040_000 {
            Ok(Mode::Directory)
        } else if mode == 0o100_644 {
            Ok(Mode::File)
        } else if mode == 0o100_755 {
            Ok(Mode::Executable)
        } else if mode == 0o120_000 {
            Ok(Mode::Symlink)
        } else {
            Err(GitError::InvalidMode)
        }
    }
}

/// The kind of object a tree entry with this mode references: a
/// directory entry names a tree, every other mode names a blob.
pub open spec fn kind_for_mode(m: Mode) -> ObjectType {
    match m {
        Mode::Directory => ObjectType::Tree,
        _ => ObjectType::Blob,
    }
}

/// One row of a directory listing: a mode, a name and the digest of the
/// referenced object.
#[derive(Debug)]
pub struct TreeEntry {
    pub kind: ObjectType,
    pub mode: Mode,
    pub name: String,
    pub object_id: ObjectID,
}

/// The mathematical value of a [`TreeEntry`].
pub ghost struct TreeEntryM {
    pub kind: ObjectType,
    pub mode: Mode,
    pub name: Seq<char>,
    pub digest: Seq<u8>,
}

impl View for TreeEntry {
    type V = TreeEntryM;

    open spec fn view(&self) -> TreeEntryM {
        TreeEntryM {
            kind: self.kind,
            mode: self.mode,
            name: self.name@,
            digest: self.object_id@,
        }
    }
}

impl TreeEntry {
    /// Builds an entry; the kind is always derived from the mode.
    pub fn new(mode: Mode, name: String, object_id: ObjectID) -> (r: Self)
        ensures
            r.mode == mode,
            r.name == name,
            r.object_id == object_id,
            r.kind == kind_for_mode(mode),
    {
        let kind = match mode {
            Mode::Directory => ObjectType::Tree,
            Mode::File => ObjectType::Blob,
            Mode::Executable => ObjectType::Blob,
            Mode::Symlink => ObjectType::Blob,
        };
        TreeEntry { kind, mode, name, object_id }
    }

    /// The digest of the referenced object, in hexadecimal.
    pub fn get_sha1(&self) -> (r: String)
        ensures
            r@ == hex_of(self.object_id@),
    {
        self.object_id.to_hex()
    }
}

/// The decode of a tree object's content, record by record from the
/// front. Per record: the octal digit run before the first space must be
/// a valid mode code; the bytes before the next NUL are the name, which
/// must be UTF-8; the 20 bytes after it are the digest. A buffer that
/// ends before a space, a NUL or a full digest is truncated; an empty
/// buffer is an empty listing.
pub open spec fn tree_decode_spec(bytes: Seq<u8>) -> Result<Seq<TreeEntryM>, GitError>
    decreases bytes.len(),
    via tree_decode_spec_dec
{
    if bytes.len() == 0 {
        Ok(Seq::<TreeEntryM>::empty())
    } else {
        match bytes.index_of_first(0x20u8) {
            None => Err(GitError::TruncatedTree),
            Some(sp) => {
                let modeval = oct_value(bytes.subrange(0, sp));
                if !is_mode_code(modeval) {
                    Err(GitError::InvalidMode)
                } else {
                    let rest = bytes.skip(sp + 1);
                    match rest.index_of_first(0u8) {
                        None => Err(GitError::TruncatedTree),
                        Some(nl) => {
                            let name_bytes = rest.subrange(0, nl);
                            let after = rest.skip(nl + 1);
                            if after.len() < 20 {
                                Err(GitError::TruncatedTree)
                            } else if !valid_utf8(name_bytes) {
                                Err(GitError::InvalidName)
                            } else {
                                let mode = mode_of_code(modeval);
                                let entry = TreeEntryM {
                                    kind: kind_for_mode(mode),
                                    mode: mode,
                                    name: decode_utf8(name_bytes),
                                    digest: after.take(20),
                                };
                                match tree_decode_spec(after.skip(20)) {
                                    Ok(tail) => Ok(seq![entry] + tail),
                                    Err(e) => Err(e),
                                }
                            }
                        },
                    }
                }
            },
        }
    }
}

#[via_fn]
proof fn tree_decode_spec_dec(bytes: Seq<u8>) {
    if bytes.len() != 0 {
        bytes.index_of_first_ensures(0x20u8);
        if bytes.index_of_first(0x20u8) is Some {
            let sp = bytes.index_of_first(0x20u8)->Some_0;
            let rest = bytes.skip(sp + 1);
            rest.index_of_first_ensures(0u8);
            if rest.index_of_first(0u8) is Some {
                let nl = rest.index_of_first(0u8)->Some_0;
                let after = rest.skip(nl + 1);
                assert(after.len() <= bytes.len() - sp - 1 - nl - 1);
            }
        }
    }
}

/// The values of a sequence of tree entries.
pub open spec fn entries_view(s: Seq<TreeEntry>) -> Seq<TreeEntryM> {
    s.map_values(|e: TreeEntry| e@)
}

/// Decodes a tree object's content into its entries, in the order they
/// occur: the exact mirror of [`tree_decode_spec`], including which
/// error each malformed input yields.
pub fn parse_tree_content(content: &[u8]) -> (r: Result<Vec<TreeEntry>, GitError>)
    ensures
        match r {
            Ok(v) => tree_decode_spec(content@) == Ok::<Seq<TreeEntryM>, GitError>(
                entries_view(v@),
            ),
            Err(e) => tree_decode_spec(content@) == Err::<Seq<TreeEntryM>, GitError>(e),
        },
{
    let n = content.len();
    let mut entries: Vec<TreeEntry> = Vec::new();
    let mut pos: usize = 0;
    proof {
        assert(content@.skip(0) =~= content@);
        assert(entries_view(entries@) =~= Seq::<TreeEntryM>::empty());
    }
    while pos < n
        invariant
            0 <= pos <= n,
            n == content@.len(),
            tree_decode_spec(content@) == (match tree_decode_spec(content@.skip(pos as int)) {
                Ok(t) => Ok::<Seq<TreeEntryM>, GitError>(entries_view(entries@) + t),
                Err(e) => Err::<Seq<TreeEntryM>, GitError>(e),
            }),
        decreases n - pos,
    {
        let ghost sub = content@.skip(pos as int);
        let sp = match find_byte(content, pos, 0x20) {
            Some(i) => i,
            None => {
                return Err(GitError::TruncatedTree);
            },
        };
        let mode_seg = slice_subrange(content, pos, sp);
        proof {
            assert(mode_seg@ =~= sub.subrange(0, sp - pos));
        }
        let modeval = match parse_u32_octal(mode_seg) {
            Some(v) => v,
            None => {
                proof {
                    assert(!is_mode_code(oct_value(sub.subrange(0, sp - pos))));
                }
                return Err(GitError::InvalidMode);
            },
        };
        let mode = match Mode::from_octal(modeval) {
            Ok(m) => m,
            Err(e) => {
                return Err(e);
            },
        };
        let ghost rest = sub.skip(sp - pos + 1);
        proof {
            assert(rest =~= content@.skip(sp + 1));
        }
        let nl = match find_byte(content, sp + 1, 0) {
            Some(i) => i,
            None => {
                return Err(GitError::TruncatedTree);
            },
        };
        let ghost nl_rel = nl - (sp + 1);
        let ghost after = rest.skip(nl_rel + 1);
        proof {
            assert(after =~= content@.skip(nl + 1));
        }
        if n - (nl + 1) < 20 {
            return Err(GitError::TruncatedTree);
        }
        let name_slice = slice_subrange(content, sp + 1, nl);
        proof {
            assert(name_slice@ =~= rest.subrange(0, nl_rel));
        }
        let name = match string_from_utf8(slice_to_vec(name_slice)) {
            Ok(s) => s,
            Err(e) => {
                return Err(e);
            },
        };
        let digest_slice = slice_subrange(content, nl + 1, nl + 21);
        proof {
            assert(digest_slice@ =~= after.take(20));
        }
        let object_id = ObjectID::new(slice_to_vec(digest_slice));
        let entry = TreeEntry::new(mode, name, object_id);
        proof {
            let em = TreeEntryM {
                kind: kind_for_mode(mode),
                mode: mode,
                name: decode_utf8(rest.subrange(0, nl_rel)),
                digest: after.take(20),
            };
            assert(entry@ == em);
            let sub2 = content@.skip(nl + 21);
            assert(after.skip(20) =~= sub2);
            let r2 = tree_decode_spec(sub2);
            assert(tree_decode_spec(sub) == (match r2 {
                Ok(tail) => Ok::<Seq<TreeEntryM>, GitError>(seq![em] + tail),
                Err(e) => Err::<Seq<TreeEntryM>, GitError>(e),
            }));
            assert(entries_view(entries@.push(entry)) =~= entries_view(entries@) + seq![em]);
            if r2 is Ok {
                let tail = r2->Ok_0;
                assert(entries_view(entries@) + (seq![em] + tail) =~= (entries_view(entries@)
                    + seq![em]) + tail);
            }
        }
        entries.push(entry);
        pos = nl + 21;
    }
    proof {
        assert(content@.skip(pos as int) =~= Seq::<u8>::empty());
        assert(tree_decode_spec(content@.skip(pos as int)) == Ok::<Seq<TreeEntryM>, GitError>(
            Seq::<TreeEntryM>::empty(),
        ));
        assert(entries_view(entries@) + Seq::<TreeEntryM>::empty() =~= entries_view(entries@));
    }
    Ok(entries)
}

} // verus!
