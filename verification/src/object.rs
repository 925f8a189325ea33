//! The object codec: a typed object to and from its canonical serialized
//! byte form `"<kind> <size>\0" ++ content`.
use vstd::prelude::*;
use vstd::slice::{slice_subrange, slice_to_vec};

use crate::numbers::{
    dec_repr, dec_value, is_dec_digit, lemma_dec_repr_digits, lemma_dec_repr_value, parse_u32,
    usize_to_dec,
};
use crate::scan::{find_byte, lemma_index_of_first_is};
use crate::text::ascii_chars_of;
use crate::GitError;

verus! {

/// The closed set of object kinds the store knows.
#[derive(Clone, Copy, Debug, PartialEq, Eq, Structural)]
pub enum ObjectType {
    Commit,
    Tree,
    Blob,
}

/// The canonical lowercase label of an object kind, as ASCII bytes: the
/// form used in the serialized object header and in display.
pub open spec fn label_seq(kind: ObjectType) -> Seq<u8> {
    match kind {
        ObjectType::Commit => seq![0x63u8, 0x6f, 0x6d, 0x6d, 0x69, 0x74],
        ObjectType::Tree => seq![0x74u8, 0x72, 0x65, 0x65],
        ObjectType::Blob => seq![0x62u8, 0x6c, 0x6f, 0x62],
    }
}

/// Every label byte is a lowercase ASCII letter; in particular no label
/// byte is a space or a NUL, and every label is non-empty.
pub proof fn lemma_label_bytes(kind: ObjectType)
    ensures
        1 <= label_seq(kind).len() <= 6,
        forall|j: int|
            0 <= j < label_seq(kind).len() ==> 0x61 <= #[trigger] label_seq(kind)[j] <= 0x7a,
{
    match kind {
        ObjectType::Commit => {
            assert forall|j: int| 0 <= j < label_seq(kind).len() implies 0x61
                <= #[trigger] label_seq(kind)[j] <= 0x7a by {
                if j == 0 {
                } else if j == 1 {
                } else if j == 2 {
                } else if j == 3 {
                } else if j == 4 {
                } else {
                    assert(j == 5);
                }
            }
        },
        ObjectType::Tree => {
            assert forall|j: int| 0 <= j < label_seq(kind).len() implies 0x61
                <= #[trigger] label_seq(kind)[j] <= 0x7a by {
                if j == 0 {
                } else if j == 1 {
                } else if j == 2 {
                } else {
                    assert(j == 3);
                }
            }
        },
        ObjectType::Blob => {
            assert forall|j: int| 0 <= j < label_seq(kind).len() implies 0x61
                <= #[trigger] label_seq(kind)[j] <= 0x7a by {
                if j == 0 {
                } else if j == 1 {
                } else if j == 2 {
                } else {
                    assert(j == 3);
                }
            }
        },
    }
}

impl ObjectType {
    /// The canonical lowercase label, for display.
    pub fn label(&self) -> (r: String)
        ensures
            r@ == ascii_chars_of(label_seq(*self)),
    {
        match self {
            ObjectType::Commit => {
                let s = "commit".to_owned();
                proof {
                    reveal_strlit("commit");
                    assert(s@ =~= ascii_chars_of(label_seq(*self)));
                }
                s
            },
            ObjectType::Tree => {
                let s = "tree".to_owned();
                proof {
                    reveal_strlit("tree");
                    assert(s@ =~= ascii_chars_of(label_seq(*self)));
                }
                s
            },
            ObjectType::Blob => {
                let s = "blob".to_owned();
                proof {
                    reveal_strlit("blob");
                    assert(s@ =~= ascii_chars_of(label_seq(*self)));
                }
                s
            },
        }
    }
}

/// A typed, immutable byte payload: the unit the store addresses. Its
/// size is always derived from the content, never stored beside it.
#[derive(Debug)]
pub struct Object {
    pub kind: ObjectType,
    pub content: Vec<u8>,
}

/// The mathematical value of an [`Object`]: its kind and content bytes.
pub ghost struct ObjectM {
    pub kind: ObjectType,
    pub content: Seq<u8>,
}

impl View for Object {
    type V = ObjectM;

    open spec fn view(&self) -> ObjectM {
        ObjectM { kind: self.kind, content: self.content@ }
    }
}

impl Object {
    /// Wraps a kind and content bytes as an object.
    pub fn new(kind: ObjectType, content: Vec<u8>) -> (r: Self)
        ensures
            r.kind == kind,
            r.content@ == content@,
    {
        Object { kind, content }
    }
}

/// The canonical serialized form of kind and content:
/// `"<kind-label> <content-length-decimal>\0" ++ content`. This exact
/// byte sequence is what is digested, compressed and stored.
pub open spec fn serial_of(kind: ObjectType, content: Seq<u8>) -> Seq<u8> {
    label_seq(kind) + seq![0x20u8] + dec_repr(content.len()) + seq![0u8] + content
}

/// True of the three canonical kind labels.
pub open spec fn is_kind_label(label: Seq<u8>) -> bool {
    ||| label == label_seq(ObjectType::Blob)
    ||| label == label_seq(ObjectType::Tree)
    ||| label == label_seq(ObjectType::Commit)
}

/// The kind a canonical label names.
pub open spec fn kind_of_label(label: Seq<u8>) -> ObjectType
    recommends
        is_kind_label(label),
{
    if label == label_seq(ObjectType::Blob) {
        ObjectType::Blob
    } else if label == label_seq(ObjectType::Tree) {
        ObjectType::Tree
    } else {
        ObjectType::Commit
    }
}

/// The parse of a serialized object. The bytes before the first space
/// must be a kind label; the decimal digit run before the first NUL
/// after it declares the size, which must fit the 32-bit width and equal
/// the length of the content after the NUL (with no NUL, the content is
/// empty). Everything after the NUL is the content.
pub open spec fn parse_object_spec(raw: Seq<u8>) -> Result<ObjectM, GitError> {
    match raw.index_of_first(0x20u8) {
        None => Err(GitError::UnknownObjectKind),
        Some(sp) => {
            let label = raw.subrange(0, sp);
            if !is_kind_label(label) {
                Err(GitError::UnknownObjectKind)
            } else {
                let rest = raw.skip(sp + 1);
                let sizeseg = match rest.index_of_first(0u8) {
                    None => rest,
                    Some(nl) => rest.subrange(0, nl),
                };
                let content = match rest.index_of_first(0u8) {
                    None => Seq::<u8>::empty(),
                    Some(nl) => rest.skip(nl + 1),
                };
                if dec_value(sizeseg) > u32::MAX {
                    Err(GitError::SizeMismatch)
                } else if content.len() != dec_value(sizeseg) {
                    Err(GitError::SizeMismatch)
                } else {
                    Ok(ObjectM { kind: kind_of_label(label), content })
                }
            }
        },
    }
}

/// Serializes an object into its canonical byte form. Total: it never
/// fails, whatever the kind or content.
pub fn serialize_object(object: &Object) -> (r: Vec<u8>)
    ensures
        r@ == serial_of(object.kind, object.content@),
{
    let mut buf: Vec<u8> = Vec::new();
    match object.kind {
        ObjectType::Commit => {
            buf.push(0x63);
            buf.push(0x6f);
            buf.push(0x6d);
            buf.push(0x6d);
            buf.push(0x69);
            buf.push(0x74);
        },
        ObjectType::Tree => {
            buf.push(0x74);
            buf.push(0x72);
            buf.push(0x65);
            buf.push(0x65);
        },
        ObjectType::Blob => {
            buf.push(0x62);
            buf.push(0x6c);
            buf.push(0x6f);
            buf.push(0x62);
        },
    }
    proof {
        assert(buf@ =~= label_seq(object.kind));
    }
    buf.push(0x20);
    let mut digits = usize_to_dec(object.content.len());
    buf.append(&mut digits);
    buf.push(0);
    let mut content_copy = slice_to_vec(object.content.as_slice());
    buf.append(&mut content_copy);
    proof {
        assert(buf@ =~= serial_of(object.kind, object.content@));
    }
    buf
}

/// Parses a serialized object; the exact mirror of
/// [`parse_object_spec`], including which error each malformed input
/// yields.
pub fn parse_object_bytes(raw: &[u8]) -> (r: Result<Object, GitError>)
    ensures
        match r {
            Ok(o) => parse_object_spec(raw@) == Ok::<ObjectM, GitError>(o@),
            Err(e) => parse_object_spec(raw@) == Err::<ObjectM, GitError>(e),
        },
{
    proof {
        assert(raw@.skip(0) =~= raw@);
    }
    let sp = match find_byte(raw, 0, 0x20) {
        Some(i) => i,
        None => {
            return Err(GitError::UnknownObjectKind);
        },
    };
    let ghost label = raw@.subrange(0, sp as int);
    proof {
        assert(label_seq(ObjectType::Blob)[0] != label_seq(ObjectType::Tree)[0]);
        assert(label_seq(ObjectType::Blob)[0] != label_seq(ObjectType::Commit)[0]);
        assert(label_seq(ObjectType::Tree)[0] != label_seq(ObjectType::Commit)[0]);
    }
    let kind: ObjectType;
    if sp == 4 && raw[0] == 0x62 && raw[1] == 0x6c && raw[2] == 0x6f && raw[3] == 0x62 {
        kind = ObjectType::Blob;
        proof {
            assert(label =~= label_seq(ObjectType::Blob));
        }
    } else if sp == 4 && raw[0] == 0x74 && raw[1] == 0x72 && raw[2] == 0x65 && raw[3] == 0x65 {
        kind = ObjectType::Tree;
        proof {
            assert(label =~= label_seq(ObjectType::Tree));
        }
    } else if sp == 6 && raw[0] == 0x63 && raw[1] == 0x6f && raw[2] == 0x6d && raw[3] == 0x6d
        && raw[4] == 0x69 && raw[5] == 0x74 {
        kind = ObjectType::Commit;
        proof {
            assert(label =~= label_seq(ObjectType::Commit));
        }
    } else {
        proof {
            assert(!is_kind_label(label)) by {
                if label == label_seq(ObjectType::Blob) {
                    assert(label.len() == 4 && label[0] == 0x62 && label[1] == 0x6c && label[2]
                        == 0x6f && label[3] == 0x62);
                }
                if label == label_seq(ObjectType::Tree) {
                    assert(label.len() == 4 && label[0] == 0x74 && label[1] == 0x72 && label[2]
                        == 0x65 && label[3] == 0x65);
                }
                if label == label_seq(ObjectType::Commit) {
                    assert(label.len() == 6 && label[0] == 0x63 && label[1] == 0x6f && label[2]
                        == 0x6d && label[3] == 0x6d && label[4] == 0x69 && label[5] == 0x74);
                }
            }
        }
        return Err(GitError::UnknownObjectKind);
    }
    proof {
        assert(is_kind_label(label) && kind_of_label(label) == kind);
    }
    let ghost rest = raw@.skip(sp as int + 1);
    match find_byte(raw, sp + 1, 0) {
        None => {
            let seg = slice_subrange(raw, sp + 1, raw.len());
            proof {
                assert(seg@ =~= rest);
            }
            match parse_u32(seg) {
                None => Err(GitError::SizeMismatch),
                Some(v) => {
                    if v != 0 {
                        Err(GitError::SizeMismatch)
                    } else {
                        Ok(Object { kind, content: Vec::new() })
                    }
                },
            }
        },
        Some(nl) => {
            let ghost nl_rel = nl as int - (sp as int + 1);
            proof {
                assert(rest.index_of_first(0u8) == Some(nl_rel));
            }
            let seg = slice_subrange(raw, sp + 1, nl);
            proof {
                assert(seg@ =~= rest.subrange(0, nl_rel));
            }
            let size = match parse_u32(seg) {
                None => {
                    return Err(GitError::SizeMismatch);
                },
                Some(v) => v,
            };
            let content_slice = slice_subrange(raw, nl + 1, raw.len());
            proof {
                assert(content_slice@ =~= rest.skip(nl_rel + 1));
            }
            if content_slice.len() as u64 != size as u64 {
                return Err(GitError::SizeMismatch);
            }
            let content = slice_to_vec(content_slice);
            Ok(Object { kind, content })
        },
    }
}

/// Round trip of the codec: parsing the canonical serialized form of any
/// kind and content yields them back, for every content whose length
/// fits the declared 32-bit width.
pub proof fn lemma_parse_of_serial(kind: ObjectType, content: Seq<u8>)
    requires
        content.len() <= u32::MAX,
    ensures
        parse_object_spec(serial_of(kind, content)) == Ok::<ObjectM, GitError>(
            ObjectM { kind, content },
        ),
{
    let raw = serial_of(kind, content);
    let label = label_seq(kind);
    let sp = label.len() as int;
    lemma_label_bytes(kind);
    lemma_dec_repr_digits(content.len());
    lemma_dec_repr_value(content.len());
    let digits = dec_repr(content.len() as nat);
    assert(raw[sp] == 0x20);
    assert(forall|j: int| 0 <= j < sp ==> raw[j] == label[j]);
    lemma_index_of_first_is(raw, 0x20, sp);
    assert(raw.subrange(0, sp) =~= label);
    assert(kind_of_label(label) == kind) by {
        assert(label_seq(ObjectType::Blob)[0] != label_seq(ObjectType::Tree)[0]);
        assert(label_seq(ObjectType::Blob)[0] != label_seq(ObjectType::Commit)[0]);
        assert(label_seq(ObjectType::Tree)[0] != label_seq(ObjectType::Commit)[0]);
        assert(label_seq(ObjectType::Blob).len() != label_seq(ObjectType::Commit).len());
    }
    let rest = raw.skip(sp + 1);
    assert(rest =~= digits + seq![0u8] + content);
    let nl = digits.len() as int;
    assert(rest[nl] == 0);
    assert(forall|j: int| 0 <= j < nl ==> rest[j] == digits[j]);
    assert(forall|j: int| 0 <= j < nl ==> rest[j] != 0) by {
        assert(forall|j: int| 0 <= j < nl ==> is_dec_digit(#[trigger] digits[j]));
    }
    lemma_index_of_first_is(rest, 0, nl);
    assert(rest.subrange(0, nl) =~= digits);
    assert(rest.skip(nl + 1) =~= content);
}

/// The kind participates in the serialized form: two different kinds
/// never share a serialized byte sequence, whatever their contents, so
/// the digest input always differs between kinds.
pub proof fn lemma_serial_kind_distinct(k1: ObjectType, k2: ObjectType, c1: Seq<u8>, c2: Seq<u8>)
    requires
        k1 != k2,
    ensures
        serial_of(k1, c1) != serial_of(k2, c2),
{
    lemma_label_bytes(k1);
    lemma_label_bytes(k2);
    assert(serial_of(k1, c1)[0] == label_seq(k1)[0]);
    assert(serial_of(k2, c2)[0] == label_seq(k2)[0]);
    assert(label_seq(ObjectType::Blob)[0] == 0x62);
    assert(label_seq(ObjectType::Tree)[0] == 0x74);
    assert(label_seq(ObjectType::Commit)[0] == 0x63);
    assert(label_seq(k1)[0] != label_seq(k2)[0]);
}

} // verus!
