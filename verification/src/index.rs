//! The staging-index decoder: the fixed binary layout of the staging
//! file, parsed with a bounded forward-only reader. A header names the
//! format and the entry count; each entry is 62 bytes of fixed fields,
//! a name of the length the flags declare, and padding that lands the
//! record on an 8-byte boundary.
use vstd::prelude::*;
use vstd::slice::{slice_subrange, slice_to_vec};
use vstd::utf8::{decode_utf8, valid_utf8};

use crate::digest::ObjectID;
use crate::text::string_from_utf8;
use crate::tree::{is_mode_code, mode_of_code, Mode};
use crate::GitError;

verus! {

/// The big-endian value of the two bytes at `pos`.
pub open spec fn be16(data: Seq<u8>, pos: int) -> nat {
    (data[pos] * 0x100 + data[pos + 1]) as nat
}

/// The big-endian value of the four bytes at `pos`.
pub open spec fn be32(data: Seq<u8>, pos: int) -> nat {
    (data[pos] * 0x1000000 + data[pos + 1] * 0x10000 + data[pos + 2] * 0x100 + data[pos + 3]) as nat
}

/// A second-and-nanosecond timestamp, exactly as the index stores it.
#[derive(Clone, Copy, Debug, PartialEq, Eq, Structural)]
pub struct Timestamp {
    pub secs: u32,
    pub nanos: u32,
}

/// True of the second/nanosecond pairs that name a real instant: the
/// nanosecond field is below one billion, or below two billion on a
/// potential leap second (one whose second count ends in 59).
pub open spec fn valid_timestamp_parts(secs: nat, nanos: nat) -> bool {
    nanos < 1_000_000_000 || (nanos < 2_000_000_000 && secs % 60 == 59)
}

impl Timestamp {
    /// True of every timestamp the decoder lets through.
    pub open spec fn wf(&self) -> bool {
        valid_timestamp_parts(self.secs as nat, self.nanos as nat)
    }
}

/// Relies on chrono's `DateTime::from_timestamp`: a 32-bit number of
/// seconds is always in the representable date range, and the call
/// accepts exactly the nanosecond values below one billion, or below two
/// billion when the second count ends in 59 (a leap second).
#[verifier::external_body]
fn timestamp_in_range(secs: u32, nanos: u32) -> (r: bool)
    ensures
        r == valid_timestamp_parts(secs as nat, nanos as nat),
{
    chrono::DateTime::from_timestamp(secs as i64, nanos).is_some()
}

/// A bounded forward-only reader over a byte buffer: every read reports
/// truncation instead of touching bytes past the end.
pub struct Reader<'a> {
    pub data: &'a [u8],
    pub pos: usize,
}

impl<'a> Reader<'a> {
    /// The cursor never passes the end of the buffer.
    pub open spec fn wf(&self) -> bool {
        self.pos <= self.data@.len()
    }

    /// A reader over the whole of `data`.
    pub fn new(data: &'a [u8]) -> (r: Self)
        ensures
            r.data@ == data@,
            r.pos == 0,
            r.wf(),
    {
        Reader { data, pos: 0 }
    }
}

/// Reads a big-endian unsigned 16-bit value and advances the cursor.
pub fn read_u16(r: &mut Reader) -> (res: Result<u16, GitError>)
    requires
        old(r).wf(),
    ensures
        final(r).wf(),
        final(r).data@ == old(r).data@,
        match res {
            Ok(v) => {
                &&& old(r).pos + 2 <= old(r).data@.len()
                &&& final(r).pos == old(r).pos + 2
                &&& v as nat == be16(old(r).data@, old(r).pos as int)
            },
            Err(e) => {
                &&& e == GitError::TruncatedIndex
                &&& old(r).data@.len() - old(r).pos < 2
                &&& final(r).pos == old(r).pos
            },
        },
{
    if r.data.len() - r.pos < 2 {
        return Err(GitError::TruncatedIndex);
    }
    let b0 = r.data[r.pos];
    let b1 = r.data[r.pos + 1];
    r.pos = r.pos + 2;
    Ok((b0 as u16) * 0x100 + (b1 as u16))
}

/// Reads a big-endian unsigned 32-bit value and advances the cursor.
pub fn read_u32(r: &mut Reader) -> (res: Result<u32, GitError>)
    requires
        old(r).wf(),
    ensures
        final(r).wf(),
        final(r).data@ == old(r).data@,
        match res {
            Ok(v) => {
                &&& old(r).pos + 4 <= old(r).data@.len()
                &&& final(r).pos == old(r).pos + 4
                &&& v as nat == be32(old(r).data@, old(r).pos as int)
            },
            Err(e) => {
                &&& e == GitError::TruncatedIndex
                &&& old(r).data@.len() - old(r).pos < 4
                &&& final(r).pos == old(r).pos
            },
        },
{
    if r.data.len() - r.pos < 4 {
        return Err(GitError::TruncatedIndex);
    }
    let b0 = r.data[r.pos];
    let b1 = r.data[r.pos + 1];
    let b2 = r.data[r.pos + 2];
    let b3 = r.data[r.pos + 3];
    r.pos = r.pos + 4;
    Ok((b0 as u32) * 0x1000000 + (b1 as u32) * 0x10000 + (b2 as u32) * 0x100 + (b3 as u32))
}

/// Reads exactly `n` raw bytes and advances the cursor.
fn read_bytes(r: &mut Reader, n: usize) -> (res: Result<Vec<u8>, GitError>)
    requires
        old(r).wf(),
    ensures
        final(r).wf(),
        final(r).data@ == old(r).data@,
        match res {
            Ok(v) => {
                &&& old(r).pos + n <= old(r).data@.len()
                &&& final(r).pos == old(r).pos + n
                &&& v@ == old(r).data@.subrange(old(r).pos as int, old(r).pos as int + n as int)
            },
            Err(e) => {
                &&& e == GitError::TruncatedIndex
                &&& old(r).data@.len() - old(r).pos < n
                &&& final(r).pos == old(r).pos
            },
        },
{
    if r.data.len() - r.pos < n {
        return Err(GitError::TruncatedIndex);
    }
    let out = slice_to_vec(slice_subrange(r.data, r.pos, r.pos + n));
    r.pos = r.pos + n;
    Ok(out)
}

/// Reads a timestamp: two big-endian 32-bit fields, seconds then
/// nanoseconds; a pair that names no real instant is `InvalidTimestamp`.
pub fn read_timestamp(r: &mut Reader) -> (res: Result<Timestamp, GitError>)
    requires
        old(r).wf(),
    ensures
        final(r).wf(),
        final(r).data@ == old(r).data@,
        match res {
            Ok(ts) => {
                &&& old(r).pos + 8 <= old(r).data@.len()
                &&& final(r).pos == old(r).pos + 8
                &&& ts.secs as nat == be32(old(r).data@, old(r).pos as int)
                &&& ts.nanos as nat == be32(old(r).data@, old(r).pos as int + 4)
                &&& ts.wf()
            },
            Err(e) => {
                ||| (e == GitError::TruncatedIndex && old(r).data@.len() - old(r).pos < 8)
                ||| (e == GitError::InvalidTimestamp && old(r).data@.len() - old(r).pos >= 8
                    && !valid_timestamp_parts(
                    be32(old(r).data@, old(r).pos as int),
                    be32(old(r).data@, old(r).pos as int + 4),
                ))
            },
        },
{
    if r.data.len() - r.pos < 8 {
        return Err(GitError::TruncatedIndex);
    }
    let secs = match read_u32(r) {
        Ok(v) => v,
        Err(e) => {
            return Err(e);
        },
    };
    let nanos = match read_u32(r) {
        Ok(v) => v,
        Err(e) => {
            return Err(e);
        },
    };
    if !timestamp_in_range(secs, nanos) {
        return Err(GitError::InvalidTimestamp);
    }
    Ok(Timestamp { secs, nanos })
}

/// The fixed four signature bytes that begin a staging index.
pub open spec fn dirc_seq() -> Seq<u8> {
    seq![0x44u8, 0x49, 0x52, 0x43]
}

/// True when the four bytes at `pos` are the index signature.
pub open spec fn is_dirc(data: Seq<u8>, pos: int) -> bool {
    data[pos] == 0x44 && data[pos + 1] == 0x49 && data[pos + 2] == 0x52 && data[pos + 3] == 0x43
}

/// The index header: the fixed signature, the format version (only 2 is
/// accepted) and the number of entries that follow.
#[derive(Debug)]
pub struct IndexHeader {
    pub signature: Vec<u8>,
    pub version: u32,
    pub entries: u32,
}

/// The mathematical value of an [`IndexHeader`].
pub ghost struct IndexHeaderM {
    pub signature: Seq<u8>,
    pub version: u32,
    pub entries: u32,
}

impl View for IndexHeader {
    type V = IndexHeaderM;

    open spec fn view(&self) -> IndexHeaderM {
        IndexHeaderM { signature: self.signature@, version: self.version, entries: self.entries }
    }
}

/// The parse of an index header at `pos`: four signature bytes that must
/// be the fixed signature, a big-endian version that must be 2, and a
/// big-endian entry count; a buffer too short for any field is
/// truncated.
pub open spec fn index_header_spec(data: Seq<u8>, pos: int) -> Result<IndexHeaderM, GitError> {
    if data.len() - pos < 4 {
        Err(GitError::TruncatedIndex)
    } else if !is_dirc(data, pos) {
        Err(GitError::BadSignature)
    } else if data.len() - pos < 8 {
        Err(GitError::TruncatedIndex)
    } else if be32(data, pos + 4) != 2 {
        Err(GitError::UnsupportedVersion)
    } else if data.len() - pos < 12 {
        Err(GitError::TruncatedIndex)
    } else {
        Ok(
            IndexHeaderM {
                signature: dirc_seq(),
                version: 2,
                entries: be32(data, pos + 8) as u32,
            },
        )
    }
}

/// Reads and checks an index header: the exact mirror of
/// [`index_header_spec`] at the cursor.
pub fn read_index_header(r: &mut Reader) -> (res: Result<IndexHeader, GitError>)
    requires
        old(r).wf(),
    ensures
        final(r).wf(),
        final(r).data@ == old(r).data@,
        match res {
            Ok(h) => {
                &&& index_header_spec(old(r).data@, old(r).pos as int) == Ok::<
                    IndexHeaderM,
                    GitError,
                >(h@)
                &&& final(r).pos == old(r).pos + 12
            },
            Err(e) => index_header_spec(old(r).data@, old(r).pos as int) == Err::<
                IndexHeaderM,
                GitError,
            >(e),
        },
{
    let signature = match read_bytes(r, 4) {
        Ok(v) => v,
        Err(e) => {
            return Err(e);
        },
    };
    if !(signature[0] == 0x44 && signature[1] == 0x49 && signature[2] == 0x52 && signature[3]
        == 0x43) {
        return Err(GitError::BadSignature);
    }
    let version = match read_u32(r) {
        Ok(v) => v,
        Err(e) => {
            return Err(e);
        },
    };
    if version != 2 {
        return Err(GitError::UnsupportedVersion);
    }
    let entries = match read_u32(r) {
        Ok(v) => v,
        Err(e) => {
            return Err(e);
        },
    };
    let h = IndexHeader { signature, version, entries };
    proof {
        assert(h@.signature =~= dirc_seq());
    }
    Ok(h)
}

/// One staging-index record: file metadata, the digest of the staged
/// content, and the path name.
#[derive(Debug)]
pub struct IndexEntry {
    pub ctime: Timestamp,
    pub mtime: Timestamp,
    pub device: u32,
    pub inode: u32,
    pub mode: Mode,
    pub uid: u32,
    pub gid: u32,
    pub size: u32,
    pub object_id: ObjectID,
    pub name_len: u16,
    pub name: String,
}

/// The mathematical value of an [`IndexEntry`].
pub ghost struct IndexEntryM {
    pub ctime: Timestamp,
    pub mtime: Timestamp,
    pub device: u32,
    pub inode: u32,
    pub mode: Mode,
    pub uid: u32,
    pub gid: u32,
    pub size: u32,
    pub digest: Seq<u8>,
    pub name_len: u16,
    pub name: Seq<char>,
}

impl View for IndexEntry {
    type V = IndexEntryM;

    open spec fn view(&self) -> IndexEntryM {
        IndexEntryM {
            ctime: self.ctime,
            mtime: self.mtime,
            device: self.device,
            inode: self.inode,
            mode: self.mode,
            uid: self.uid,
            gid: self.gid,
            size: self.size,
            digest: self.object_id@,
            name_len: self.name_len,
            name: self.name@,
        }
    }
}

/// The padding that follows a name of `name_len` bytes: with
/// `floor = (name_len - 2) div 8` (flooring division), the record is
/// padded out to `(floor + 1) * 8 + 2` name-and-padding bytes. This
/// exact arithmetic, not a generic round-up, reserves at least one
/// padding byte after every name.
pub open spec fn entry_padding(name_len: int) -> int {
    let floor = (name_len - 2) / 8;
    (floor + 1) * 8 + 2 - name_len
}

/// The length in bytes of a name whose flags field has value `flags`:
/// its low 12 bits.
pub open spec fn flags_name_len(flags: nat) -> nat {
    flags % 0x1000
}

/// The parse of one index entry at `pos`: in order, two timestamps,
/// device, inode, mode, uid, gid and size as big-endian 32-bit fields,
/// 20 digest bytes, the 16-bit flags whose low 12 bits give the name
/// length, then the name, which must be UTF-8. Each check happens when
/// its field is read: a missing field is truncation, a mode or a
/// timestamp is rejected as soon as it is seen.
pub open spec fn index_entry_spec(data: Seq<u8>, pos: int) -> Result<IndexEntryM, GitError> {
    if data.len() - pos < 8 {
        Err(GitError::TruncatedIndex)
    } else if !valid_timestamp_parts(be32(data, pos), be32(data, pos + 4)) {
        Err(GitError::InvalidTimestamp)
    } else if data.len() - pos < 16 {
        Err(GitError::TruncatedIndex)
    } else if !valid_timestamp_parts(be32(data, pos + 8), be32(data, pos + 12)) {
        Err(GitError::InvalidTimestamp)
    } else if data.len() - pos < 28 {
        Err(GitError::TruncatedIndex)
    } else if !is_mode_code(be32(data, pos + 24)) {
        Err(GitError::InvalidMode)
    } else if data.len() - pos < 62 {
        Err(GitError::TruncatedIndex)
    } else {
        let name_len = flags_name_len(be16(data, pos + 60)) as int;
        if data.len() - pos - 62 < name_len {
            Err(GitError::TruncatedIndex)
        } else if !valid_utf8(data.subrange(pos + 62, pos + 62 + name_len)) {
            Err(GitError::InvalidName)
        } else {
            Ok(
                IndexEntryM {
                    ctime: Timestamp {
                        secs: be32(data, pos) as u32,
                        nanos: be32(data, pos + 4) as u32,
                    },
                    mtime: Timestamp {
                        secs: be32(data, pos + 8) as u32,
                        nanos: be32(data, pos + 12) as u32,
                    },
                    device: be32(data, pos + 16) as u32,
                    inode: be32(data, pos + 20) as u32,
                    mode: mode_of_code(be32(data, pos + 24)),
                    uid: be32(data, pos + 28) as u32,
                    gid: be32(data, pos + 32) as u32,
                    size: be32(data, pos + 36) as u32,
                    digest: data.subrange(pos + 40, pos + 60),
                    name_len: flags_name_len(be16(data, pos + 60)) as u16,
                    name: decode_utf8(data.subrange(pos + 62, pos + 62 + name_len)),
                },
            )
        }
    }
}

/// Where the record that starts at `pos` ends: fixed fields, name and
/// padding. The position may pass the end of the buffer; only a further
/// read fails on that.
pub open spec fn index_entry_next(data: Seq<u8>, pos: int) -> int {
    let name_len = flags_name_len(be16(data, pos + 60)) as int;
    pos + 62 + name_len + entry_padding(name_len)
}

/// Every index record's span — 62 fixed bytes, the name, the padding —
/// is a multiple of eight bytes, and at least one padding byte follows
/// the name, for every name length the 12-bit field can hold.
pub proof fn lemma_entry_span_aligned(name_len: int)
    requires
        0 <= name_len < 0x1000,
    ensures
        entry_padding(name_len) >= 1,
        (62 + name_len + entry_padding(name_len)) % 8 == 0,
{
    let floor = (name_len - 2) / 8;
    vstd::arithmetic::div_mod::lemma_fundamental_div_mod(name_len - 2, 8);
    assert(62 + name_len + entry_padding(name_len) == 72 + 8 * floor);
}

/// Reads one index entry at the cursor: the exact mirror of
/// [`index_entry_spec`], leaving the cursor at [`index_entry_next`]
/// (clamped to the end of the buffer, where only a further read fails).
pub fn read_index_entry(r: &mut Reader) -> (res: Result<IndexEntry, GitError>)
    requires
        old(r).wf(),
    ensures
        final(r).wf(),
        final(r).data@ == old(r).data@,
        match res {
            Ok(e) => {
                &&& index_entry_spec(old(r).data@, old(r).pos as int) == Ok::<
                    IndexEntryM,
                    GitError,
                >(e@)
                &&& final(r).pos as int == if index_entry_next(old(r).data@, old(r).pos as int)
                    <= old(r).data@.len() {
                    index_entry_next(old(r).data@, old(r).pos as int)
                } else {
                    old(r).data@.len() as int
                }
            },
            Err(err) => index_entry_spec(old(r).data@, old(r).pos as int) == Err::<
                IndexEntryM,
                GitError,
            >(err),
        },
{
    let ghost data = old(r).data@;
    let ghost pos0 = old(r).pos as int;
    let ctime = match read_timestamp(r) {
        Ok(t) => t,
        Err(e) => {
            return Err(e);
        },
    };
    let mtime = match read_timestamp(r) {
        Ok(t) => t,
        Err(e) => {
            return Err(e);
        },
    };
    let device = match read_u32(r) {
        Ok(v) => v,
        Err(e) => {
            return Err(e);
        },
    };
    let inode = match read_u32(r) {
        Ok(v) => v,
        Err(e) => {
            return Err(e);
        },
    };
    let mode_num = match read_u32(r) {
        Ok(v) => v,
        Err(e) => {
            return Err(e);
        },
    };
    let mode = match Mode::from_octal(mode_num) {
        Ok(m) => m,
        Err(e) => {
            return Err(e);
        },
    };
    let uid = match read_u32(r) {
        Ok(v) => v,
        Err(e) => {
            return Err(e);
        },
    };
    let gid = match read_u32(r) {
        Ok(v) => v,
        Err(e) => {
            return Err(e);
        },
    };
    let size = match read_u32(r) {
        Ok(v) => v,
        Err(e) => {
            return Err(e);
        },
    };
    let sha1 = match read_bytes(r, 20) {
        Ok(v) => v,
        Err(e) => {
            return Err(e);
        },
    };
    let object_id = ObjectID::new(sha1);
    let flags = match read_u16(r) {
        Ok(v) => v,
        Err(e) => {
            return Err(e);
        },
    };
    let name_len = flags & 0x0FFF;
    proof {
        assert(flags & 0x0FFF == flags % 0x1000) by (bit_vector);
    }
    let name_bytes = match read_bytes(r, name_len as usize) {
        Ok(v) => v,
        Err(e) => {
            return Err(e);
        },
    };
    let name = match string_from_utf8(name_bytes) {
        Ok(s) => s,
        Err(e) => {
            return Err(e);
        },
    };
    let padding: u16 = if name_len >= 2 {
        ((name_len - 2) / 8 + 1) * 8 + 2 - name_len
    } else {
        2 - name_len
    };
    proof {
        if name_len >= 2 {
            assert(padding as int == entry_padding(name_len as int));
        } else {
            assert((name_len as int - 2) / 8 == -1);
            assert(padding as int == entry_padding(name_len as int));
        }
    }
    if r.data.len() - r.pos < padding as usize {
        r.pos = r.data.len();
    } else {
        r.pos = r.pos + padding as usize;
    }
    let entry = IndexEntry {
        ctime,
        mtime,
        device,
        inode,
        mode,
        uid,
        gid,
        size,
        object_id,
        name_len,
        name,
    };
    proof {
        assert(entry@.digest =~= data.subrange(pos0 + 40, pos0 + 60));
        assert(index_entry_spec(data, pos0) == Ok::<IndexEntryM, GitError>(entry@));
    }
    Ok(entry)
}

/// The whole staging file: its header and its entries in file order.
#[derive(Debug)]
pub struct IndexState {
    pub header: IndexHeader,
    pub entries: Vec<IndexEntry>,
}

/// The mathematical value of an [`IndexState`].
pub ghost struct IndexStateM {
    pub header: IndexHeaderM,
    pub entries: Seq<IndexEntryM>,
}

impl View for IndexState {
    type V = IndexStateM;

    open spec fn view(&self) -> IndexStateM {
        IndexStateM { header: self.header@, entries: index_entries_view(self.entries@) }
    }
}

/// The values of a sequence of index entries.
pub open spec fn index_entries_view(s: Seq<IndexEntry>) -> Seq<IndexEntryM> {
    s.map_values(|e: IndexEntry| e@)
}

/// The parse of `n` consecutive entries from `pos`: each entry begins
/// where the previous one's padding ended, and the first malformed or
/// truncated entry decides the error.
pub open spec fn index_entries_spec(data: Seq<u8>, pos: int, n: nat) -> Result<
    Seq<IndexEntryM>,
    GitError,
>
    decreases n,
{
    if n == 0 {
        Ok(Seq::<IndexEntryM>::empty())
    } else {
        match index_entry_spec(data, pos) {
            Err(e) => Err(e),
            Ok(e) => match index_entries_spec(data, index_entry_next(data, pos), (n - 1) as nat) {
                Ok(tail) => Ok(seq![e] + tail),
                Err(err) => Err(err),
            },
        }
    }
}

/// The parse of a whole staging file: the header at the start, then
/// exactly as many entries as it declares. Bytes after the last entry
/// (extension sections) are not parsed.
pub open spec fn index_decode_spec(data: Seq<u8>) -> Result<IndexStateM, GitError> {
    match index_header_spec(data, 0) {
        Err(e) => Err(e),
        Ok(h) => match index_entries_spec(data, 12, h.entries as nat) {
            Ok(entries) => Ok(IndexStateM { header: h, entries }),
            Err(e) => Err(e),
        },
    }
}

/// Decodes a staging file buffer into its header and entries: the exact
/// mirror of [`index_decode_spec`], including which error each malformed
/// buffer yields.
pub fn parse_index_content(content: &[u8]) -> (r: Result<IndexState, GitError>)
    ensures
        match r {
            Ok(st) => index_decode_spec(content@) == Ok::<IndexStateM, GitError>(st@),
            Err(e) => index_decode_spec(content@) == Err::<IndexStateM, GitError>(e),
        },
{
    let mut reader = Reader::new(content);
    let header = match read_index_header(&mut reader) {
        Ok(h) => h,
        Err(e) => {
            return Err(e);
        },
    };
    let count = header.entries;
    let ghost h = index_header_spec(content@, 0)->Ok_0;
    let mut entries: Vec<IndexEntry> = Vec::new();
    let mut i: u32 = 0;
    let ghost mut spec_pos: int = 12;
    proof {
        assert(index_entries_view(entries@) =~= Seq::<IndexEntryM>::empty());
    }
    while i < count
        invariant
            0 <= i <= count,
            count == h.entries,
            index_header_spec(content@, 0) == Ok::<IndexHeaderM, GitError>(h),
            header@ == h,
            reader.wf(),
            reader.data@ == content@,
            spec_pos <= content@.len() ==> reader.pos == spec_pos,
            spec_pos > content@.len() ==> reader.pos == content@.len(),
            index_entries_spec(content@, 12, count as nat) == (match index_entries_spec(
                content@,
                spec_pos,
                (count - i) as nat,
            ) {
                Ok(t) => Ok::<Seq<IndexEntryM>, GitError>(index_entries_view(entries@) + t),
                Err(e) => Err::<Seq<IndexEntryM>, GitError>(e),
            }),
        decreases count - i,
    {
        let ghost pos_before = reader.pos as int;
        match read_index_entry(&mut reader) {
            Ok(entry) => {
                proof {
                    assert(index_entry_spec(content@, pos_before) == Ok::<IndexEntryM, GitError>(
                        entry@,
                    ));
                    assert(spec_pos == pos_before);
                    let em = entry@;
                    let next = index_entry_next(content@, spec_pos);
                    let r2 = index_entries_spec(content@, next, (count - i - 1) as nat);
                    assert(index_entries_spec(content@, spec_pos, (count - i) as nat) == (match r2 {
                        Ok(tail) => Ok::<Seq<IndexEntryM>, GitError>(seq![em] + tail),
                        Err(e) => Err::<Seq<IndexEntryM>, GitError>(e),
                    }));
                    assert(index_entries_view(entries@.push(entry)) =~= index_entries_view(
                        entries@,
                    ) + seq![em]);
                    if r2 is Ok {
                        let tail = r2->Ok_0;
                        assert(index_entries_view(entries@) + (seq![em] + tail) =~= (
                        index_entries_view(entries@) + seq![em]) + tail);
                    }
                    spec_pos = next;
                }
                entries.push(entry);
                i = i + 1;
            },
            Err(e) => {
                proof {
                    if spec_pos > content@.len() {
                        assert(index_entry_spec(content@, spec_pos) == Err::<
                            IndexEntryM,
                            GitError,
                        >(GitError::TruncatedIndex));
                        assert(index_entry_spec(content@, pos_before) == Err::<
                            IndexEntryM,
                            GitError,
                        >(GitError::TruncatedIndex));
                        assert(e == GitError::TruncatedIndex);
                    } else {
                        assert(spec_pos == pos_before);
                    }
                    assert(index_entries_spec(content@, spec_pos, (count - i) as nat) == Err::<
                        Seq<IndexEntryM>,
                        GitError,
                    >(e));
                }
                return Err(e);
            },
        }
    }
    proof {
        assert(index_entries_spec(content@, spec_pos, 0) == Ok::<Seq<IndexEntryM>, GitError>(
            Seq::<IndexEntryM>::empty(),
        ));
        assert(index_entries_view(entries@) + Seq::<IndexEntryM>::empty() =~= index_entries_view(
            entries@,
        ));
    }
    let st = IndexState { header, entries };
    Ok(st)
}

} // verus!
