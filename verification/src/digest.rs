//! The content digest and its hexadecimal text form.
//!
//! A digest is exactly 20 raw bytes; its canonical textual form is 40
//! lowercase hexadecimal characters, two per byte, most significant
//! nibble first.
use vstd::prelude::*;
use vstd::string::StrSliceExecFns;

use crate::text::{ascii_chars_of, lemma_ascii_decodes, string_from_utf8};
use crate::GitError;

verus! {

/// The ASCII byte that spells a nibble value in lowercase hexadecimal.
pub open spec fn nibble_byte(n: u8) -> u8
    recommends
        n < 16,
{
    if n < 10 {
        (0x30 + n) as u8
    } else {
        (0x57 + n) as u8
    }
}

/// The lowercase hexadecimal spelling of a byte sequence, as ASCII bytes:
/// two digits per byte, most significant nibble first.
pub open spec fn hex_bytes(bytes: Seq<u8>) -> Seq<u8> {
    Seq::new(
        2 * bytes.len(),
        |i: int|
            if i % 2 == 0 {
                nibble_byte(bytes[i / 2] / 16)
            } else {
                nibble_byte(bytes[i / 2] % 16)
            },
    )
}

/// The lowercase hexadecimal spelling of a byte sequence, as text.
pub open spec fn hex_of(bytes: Seq<u8>) -> Seq<char> {
    ascii_chars_of(hex_bytes(bytes))
}

/// True of the characters `0`-`9`, `a`-`f` and `A`-`F`.
pub open spec fn is_hex_digit(c: char) -> bool {
    let v = c as u32;
    (0x30 <= v <= 0x39) || (0x61 <= v <= 0x66) || (0x41 <= v <= 0x46)
}

/// True of the characters `0`-`9` and `a`-`f`: the canonical spelling.
pub open spec fn is_lower_hex_digit(c: char) -> bool {
    let v = c as u32;
    (0x30 <= v <= 0x39) || (0x61 <= v <= 0x66)
}

/// The nibble value of a hexadecimal digit character.
pub open spec fn hex_digit_val(c: char) -> u8
    recommends
        is_hex_digit(c),
{
    let v = c as u32;
    if 0x30 <= v <= 0x39 {
        (v - 0x30) as u8
    } else if 0x61 <= v <= 0x66 {
        (v - 0x57) as u8
    } else if 0x41 <= v <= 0x46 {
        (v - 0x37) as u8
    } else {
        0
    }
}

/// True when a character sequence is a well-formed digest spelling:
/// exactly 40 hexadecimal digit characters.
pub open spec fn valid_hex_form(s: Seq<char>) -> bool {
    s.len() == 40 && (forall|i: int| 0 <= i < s.len() ==> is_hex_digit(#[trigger] s[i]))
}

/// The bytes that a hexadecimal character sequence spells, two characters
/// per byte.
pub open spec fn hex_decode(s: Seq<char>) -> Seq<u8> {
    Seq::new(
        s.len() / 2,
        |i: int| (16 * hex_digit_val(s[2 * i]) + hex_digit_val(s[2 * i + 1])) as u8,
    )
}

/// A 160-bit content digest: the storage key and identity of an object.
#[derive(Debug, Clone, PartialEq, Eq)]
pub struct ObjectID {
    bytes: Vec<u8>,
}

impl View for ObjectID {
    type V = Seq<u8>;

    closed spec fn view(&self) -> Seq<u8> {
        self.bytes@
    }
}

impl ObjectID {
    /// True of every digest built by this crate: exactly 20 raw bytes.
    pub open spec fn wf(&self) -> bool {
        self@.len() == 20
    }

    /// Wraps 20 raw digest bytes.
    pub fn new(sha1: Vec<u8>) -> (r: Self)
        requires
            sha1@.len() == 20,
        ensures
            r@ == sha1@,
            r.wf(),
    {
        ObjectID { bytes: sha1 }
    }

    /// Parses the 40-character hexadecimal form of a digest. Any other
    /// length, or a non-hexadecimal character, is `MalformedDigest`.
    pub fn from_hex(hex: &str) -> (r: Result<Self, GitError>)
        ensures
            match r {
                Ok(d) => valid_hex_form(hex@) && d@ == hex_decode(hex@) && d.wf(),
                Err(e) => e == GitError::MalformedDigest && !valid_hex_form(hex@),
            },
    {
        let n = hex.unicode_len();
        if n != 40 {
            return Err(GitError::MalformedDigest);
        }
        let mut bytes: Vec<u8> = Vec::new();
        let mut i: usize = 0;
        while i < 20
            invariant
                hex@.len() == 40,
                0 <= i <= 20,
                bytes@.len() == i,
                forall|j: int| 0 <= j < 2 * i ==> is_hex_digit(#[trigger] hex@[j]),
                forall|j: int| 0 <= j < i ==> bytes@[j] == hex_decode(hex@)[j],
            decreases 20 - i,
        {
            let hi = match hex_val(hex.get_char(2 * i)) {
                Some(v) => v,
                None => {
                    return Err(GitError::MalformedDigest);
                },
            };
            let lo = match hex_val(hex.get_char(2 * i + 1)) {
                Some(v) => v,
                None => {
                    return Err(GitError::MalformedDigest);
                },
            };
            bytes.push(16 * hi + lo);
            i = i + 1;
        }
        let d = ObjectID { bytes };
        proof {
            assert(d@ =~= hex_decode(hex@));
        }
        Ok(d)
    }

    /// Renders the digest as 40 lowercase hexadecimal characters.
    pub fn to_hex(&self) -> (r: String)
        ensures
            r@ == hex_of(self@),
    {
        let out = hex_encode(&self.bytes);
        proof {
            assert(forall|i: int| 0 <= i < out@.len() ==> #[trigger] out@[i] < 0x80);
            lemma_ascii_decodes(out@);
        }
        match string_from_utf8(out) {
            Ok(s) => s,
            Err(_) => {
                proof {
                    assert(false);
                }
                String::new()
            },
        }
    }
}

/// The nibble value of a hexadecimal digit character, or `None` for any
/// other character.
fn hex_val(c: char) -> (r: Option<u8>)
    ensures
        match r {
            Some(v) => is_hex_digit(c) && v == hex_digit_val(c) && v < 16,
            None => !is_hex_digit(c),
        },
{
    let v = c as u32;
    if 0x30 <= v && v <= 0x39 {
        Some((v - 0x30) as u8)
    } else if 0x61 <= v && v <= 0x66 {
        Some((v - 0x57) as u8)
    } else if 0x41 <= v && v <= 0x46 {
        Some((v - 0x37) as u8)
    } else {
        None
    }
}

/// Spells a byte sequence in lowercase hexadecimal, as ASCII bytes.
fn hex_encode(bytes: &Vec<u8>) -> (r: Vec<u8>)
    ensures
        r@ =~= hex_bytes(bytes@),
        forall|i: int| 0 <= i < r@.len() ==> #[trigger] r@[i] < 0x80,
{
    let mut out: Vec<u8> = Vec::new();
    let mut i: usize = 0;
    while i < bytes.len()
        invariant
            0 <= i <= bytes@.len(),
            out@.len() == 2 * i,
            forall|j: int| 0 <= j < out@.len() ==> out@[j] == hex_bytes(bytes@)[j],
            forall|j: int| 0 <= j < out@.len() ==> #[trigger] out@[j] < 0x80,
        decreases bytes@.len() - i,
    {
        let b = bytes[i];
        out.push(nibble(b / 16));
        out.push(nibble(b % 16));
        i = i + 1;
    }
    out
}

/// Spells a nibble value as its lowercase hexadecimal digit byte.
fn nibble(n: u8) -> (r: u8)
    requires
        n < 16,
    ensures
        r == nibble_byte(n),
        r < 0x80,
{
    if n < 10 {
        0x30 + n
    } else {
        0x57 + n
    }
}

/// Decoding the hexadecimal spelling of any byte sequence gives the bytes
/// back, and the spelling is made of lowercase hexadecimal digits only.
pub proof fn lemma_hex_of_decodes(bytes: Seq<u8>)
    ensures
        hex_of(bytes).len() == 2 * bytes.len(),
        forall|i: int|
            0 <= i < hex_of(bytes).len() ==> is_lower_hex_digit(#[trigger] hex_of(bytes)[i]),
        hex_decode(hex_of(bytes)) =~= bytes,
{
    assert forall|i: int| 0 <= i < hex_of(bytes).len() implies is_lower_hex_digit(
        #[trigger] hex_of(bytes)[i],
    ) by {
        let b = hex_bytes(bytes)[i];
        assert(b == nibble_byte(bytes[i / 2] / 16) || b == nibble_byte(bytes[i / 2] % 16));
    }
    assert forall|i: int| 0 <= i < bytes.len() implies hex_decode(hex_of(bytes))[i] == bytes[i] by {
        let b = bytes[i];
        let hi = hex_bytes(bytes)[2 * i];
        let lo = hex_bytes(bytes)[2 * i + 1];
        assert(hi == nibble_byte(b / 16));
        assert(lo == nibble_byte(b % 16));
        assert(hex_digit_val(hi as char) == b / 16);
        assert(hex_digit_val(lo as char) == b % 16);
        assert(16 * (b / 16) + (b % 16) == b);
    }
}

/// Round trip of the textual form: spelling the bytes that a valid
/// lowercase hexadecimal string decodes to gives the same string back.
pub proof fn lemma_hex_round_trip(s: Seq<char>)
    requires
        s.len() % 2 == 0,
        forall|i: int| 0 <= i < s.len() ==> is_lower_hex_digit(#[trigger] s[i]),
    ensures
        hex_of(hex_decode(s)) =~= s,
{
    assert forall|i: int| 0 <= i < s.len() implies hex_of(hex_decode(s))[i] == s[i] by {
        let b = hex_decode(s)[i / 2];
        let chi = s[2 * (i / 2)];
        let clo = s[2 * (i / 2) + 1];
        assert(is_lower_hex_digit(chi) && is_lower_hex_digit(clo));
        let hi = hex_digit_val(chi);
        let lo = hex_digit_val(clo);
        assert(hi < 16 && lo < 16);
        assert(b == 16 * hi + lo);
        assert(b / 16 == hi && b % 16 == lo);
        if i % 2 == 0 {
            assert(2 * (i / 2) == i);
            assert(hex_bytes(hex_decode(s))[i] == nibble_byte(hi));
            assert(nibble_byte(hi) as u32 == chi as u32);
            vstd::utf8::char_u32_cast(chi, chi as u32);
            assert(nibble_byte(hi) as char == chi);
        } else {
            assert(2 * (i / 2) + 1 == i);
            assert(hex_bytes(hex_decode(s))[i] == nibble_byte(lo));
            assert(nibble_byte(lo) as u32 == clo as u32);
            vstd::utf8::char_u32_cast(clo, clo as u32);
            assert(nibble_byte(lo) as char == clo);
        }
    }
}

} // verus!
