//! The archive container reader: a flat store of member files addressed
//! by a 64-bit hash of their path. The container carries a fixed header,
//! an entry table (path hash, data window, stored and decompressed sizes,
//! compression method) and the members' bytes. Reads decompress on the
//! fly; lookups hash the queried path and scan the table.
use vstd::prelude::*;

use crate::bytes::{data_fits, le32_at, le64_at, read_u32, read_u64, MAX_DATA};
use crate::hash::{hash_str, path_hash};
use crate::Error;

verus! {

/// What a raw-deflate stream decodes to; `None` where the stream is not
/// well formed. Decoding is a pure function of the input bytes.
pub uninterp spec fn inflate_of(data: Seq<u8>) -> Option<Seq<u8>>;

/// Relies on miniz_oxide's `inflate::decompress_to_vec`: decodes a raw
/// deflate stream, succeeding or failing on the input bytes alone.
#[verifier::external_body]
fn inflate(data: &[u8]) -> (r: Option<Vec<u8>>)
    ensures
        r matches Some(v) ==> inflate_of(data@) == Some(v@),
        r is None ==> inflate_of(data@) is None,
{
    miniz_oxide::inflate::decompress_to_vec(data).ok()
}

/// Bytes a member may be stored under: as-is, or as a deflate stream.
pub const METHOD_RAW: u32 = 0;

pub const METHOD_DEFLATE: u32 = 1;

pub open spec fn file_count_of(s: Seq<u8>) -> int {
    le32_at(s, 4) as int
}

pub open spec fn entries_end(s: Seq<u8>) -> int {
    8 + 24 * file_count_of(s)
}

/// Magic "MPAK", a count, and room for the whole entry table.
pub open spec fn header_ok(s: Seq<u8>) -> bool {
    &&& data_fits(s)
    &&& s.len() >= 8
    &&& s[0] == 0x4d
    &&& s[1] == 0x50
    &&& s[2] == 0x41
    &&& s[3] == 0x4b
    &&& entries_end(s) <= s.len()
}

pub open spec fn entry_hash(s: Seq<u8>, i: int) -> u64 {
    le64_at(s, 8 + 24 * i)
}

pub open spec fn entry_offset(s: Seq<u8>, i: int) -> int {
    le32_at(s, 8 + 24 * i + 8) as int
}

pub open spec fn entry_comp_size(s: Seq<u8>, i: int) -> int {
    le32_at(s, 8 + 24 * i + 12) as int
}

pub open spec fn entry_decomp_size(s: Seq<u8>, i: int) -> int {
    le32_at(s, 8 + 24 * i + 16) as int
}

pub open spec fn entry_method(s: Seq<u8>, i: int) -> u32 {
    le32_at(s, 8 + 24 * i + 20)
}

/// One entry's metadata is consistent: its data window lies past the
/// table and inside the container, its method is known, and a raw entry
/// stores exactly its decompressed size.
pub open spec fn entry_ok(s: Seq<u8>, i: int) -> bool {
    &&& entries_end(s) <= entry_offset(s, i)
    &&& entry_offset(s, i) + entry_comp_size(s, i) <= s.len()
    &&& entry_method(s, i) <= METHOD_DEFLATE
    &&& entry_method(s, i) == METHOD_RAW ==> entry_comp_size(s, i) == entry_decomp_size(s, i)
}

pub open spec fn archive_ok(s: Seq<u8>) -> bool {
    &&& header_ok(s)
    &&& forall|i: int| 0 <= i < file_count_of(s) ==> entry_ok(s, i)
}

pub open spec fn entry_bytes(s: Seq<u8>, i: int) -> Seq<u8> {
    s.subrange(entry_offset(s, i), entry_offset(s, i) + entry_comp_size(s, i))
}

/// The content of entry `i`: its stored bytes, raw or inflated; `None`
/// where the stream is bad or the decompressed size disagrees with the
/// table.
pub open spec fn read_spec(s: Seq<u8>, i: int) -> Option<Seq<u8>> {
    if entry_method(s, i) == METHOD_RAW {
        Some(entry_bytes(s, i))
    } else {
        match inflate_of(entry_bytes(s, i)) {
            Some(v) => if v.len() == entry_decomp_size(s, i) {
                Some(v)
            } else {
                None
            },
            None => None,
        }
    }
}

/// The bytes of entry `i`, where the entry is readable; empty where
/// it is not.
pub open spec fn content_of(s: Seq<u8>, i: int) -> Seq<u8> {
    match read_spec(s, i) {
        Some(v) => v,
        None => Seq::empty(),
    }
}

pub open spec fn find_from(s: Seq<u8>, h: u64, j: int) -> Option<int>
    decreases file_count_of(s) - j,
{
    if j < 0 || j >= file_count_of(s) {
        None
    } else if entry_hash(s, j) == h {
        Some(j)
    } else {
        find_from(s, h, j + 1)
    }
}

/// The first entry stored under the path's hash, if any: what a
/// lookup of that path lands on.
pub open spec fn find_hit(s: Seq<u8>, name: Seq<char>) -> Option<int> {
    find_from(s, path_hash(name), 0)
}

/// The first-match characterization a lookup returns is the same
/// thing `find_hit` names.
pub proof fn lemma_find_from_first(s: Seq<u8>, h: u64, j: int, i: int)
    requires
        0 <= j <= i < file_count_of(s),
        entry_hash(s, i) == h,
        forall|k: int| j <= k < i ==> entry_hash(s, k) != h,
    ensures
        find_from(s, h, j) == Some(i),
    decreases i - j,
{
    if j < i {
        lemma_find_from_first(s, h, j + 1, i);
    }
}

pub proof fn lemma_find_from_none(s: Seq<u8>, h: u64, j: int)
    requires
        j >= 0,
        forall|k: int| j <= k < file_count_of(s) ==> entry_hash(s, k) != h,
    ensures
        find_from(s, h, j) is None,
    decreases file_count_of(s) - j,
{
    if j < file_count_of(s) {
        lemma_find_from_none(s, h, j + 1);
    }
}

pub struct PakReader {
    data: Vec<u8>,
}

impl PakReader {
    pub closed spec fn wf(&self) -> bool {
        archive_ok(self.data@)
    }

    pub closed spec fn view(&self) -> Seq<u8> {
        self.data@
    }

    /// Opens a container: `FormatError` on a bad magic or truncated
    /// header or table, `CorruptData` on an inconsistent entry.
    pub fn new(data: Vec<u8>) -> (r: Result<PakReader, Error>)
        ensures
            match r {
                Ok(p) => p@ == data@ && p.wf(),
                Err(Error::FormatError) => !header_ok(data@),
                Err(Error::CorruptData) => header_ok(data@) && !archive_ok(data@),
                Err(_) => false,
            },
    {
        if data.len() > MAX_DATA as usize || data.len() < 8 {
            return Err(Error::FormatError);
        }
        if !(data[0] == 0x4d && data[1] == 0x50 && data[2] == 0x41 && data[3] == 0x4b) {
            return Err(Error::FormatError);
        }
        let count = read_u32(data.as_slice(), 4) as u64;
        if 8 + 24 * count > data.len() as u64 {
            return Err(Error::FormatError);
        }
        let mut i: u64 = 0;
        while i < count
            invariant
                i <= count,
                forall|j: int| 0 <= j < i ==> entry_ok(data@, j),
            decreases count - i,
        {
            let base = (8 + 24 * i) as usize;
            let s = data.as_slice();
            let offset = read_u32(s, base + 8) as u64;
            let comp = read_u32(s, base + 12) as u64;
            let decomp = read_u32(s, base + 16) as u64;
            let method = read_u32(s, base + 20);
            if offset < 8 + 24 * count || offset + comp > data.len() as u64 {
                assert(!entry_ok(data@, i as int));
                return Err(Error::CorruptData);
            }
            if method > METHOD_DEFLATE {
                assert(!entry_ok(data@, i as int));
                return Err(Error::CorruptData);
            }
            if method == METHOD_RAW && comp != decomp {
                assert(!entry_ok(data@, i as int));
                return Err(Error::CorruptData);
            }
            assert(entry_ok(data@, i as int));
            i = i + 1;
        }
        Ok(PakReader { data })
    }

    pub fn get_file_count(&self) -> (r: u32)
        requires
            self.wf(),
        ensures
            r == file_count_of(self@),
    {
        read_u32(self.data.as_slice(), 4)
    }

    /// Reads and decompresses the member at `index`.
    pub fn read_file_at(&self, index: u32) -> (r: Result<Vec<u8>, Error>)
        requires
            self.wf(),
        ensures
            match r {
                Ok(v) => index < file_count_of(self@) && read_spec(self@, index as int) == Some(
                    v@,
                ),
                Err(Error::IndexOutOfRange) => index >= file_count_of(self@),
                Err(Error::CorruptData) => index < file_count_of(self@) && read_spec(
                    self@,
                    index as int,
                ) is None,
                Err(_) => false,
            },
    {
        let count = self.get_file_count();
        if index >= count {
            return Err(Error::IndexOutOfRange);
        }
        assert(entry_ok(self@, index as int));
        let s = self.data.as_slice();
        let base = 8 + 24 * (index as usize);
        let offset = read_u32(s, base + 8) as usize;
        let comp = read_u32(s, base + 12) as usize;
        let decomp = read_u32(s, base + 16) as usize;
        let method = read_u32(s, base + 20);
        let stored = &s[offset..offset + comp];
        assert(stored@ == entry_bytes(self@, index as int));
        if method == METHOD_RAW {
            Ok(vstd::slice::slice_to_vec(stored))
        } else {
            match inflate(stored) {
                Some(v) => {
                    if v.len() == decomp {
                        Ok(v)
                    } else {
                        Err(Error::CorruptData)
                    }
                },
                None => Err(Error::CorruptData),
            }
        }
    }

    /// Hashes `path` and returns the first entry stored under that hash,
    /// with the canonical path; `NotFound` where no entry carries it.
    pub fn find_file(&self, path: &str) -> (r: Result<(u32, String), Error>)
        requires
            self.wf(),
        ensures
            match r {
                Ok((i, p)) => {
                    &&& 0 <= i < file_count_of(self@)
                    &&& entry_hash(self@, i as int) == path_hash(path@)
                    &&& forall|j: int|
                        0 <= j < i ==> entry_hash(self@, j) != path_hash(path@)
                    &&& find_hit(self@, path@) == Some(i as int)
                    &&& p@ == path@
                },
                Err(e) => {
                    &&& e == Error::NotFound
                    &&& forall|j: int|
                        0 <= j < file_count_of(self@) ==> entry_hash(self@, j) != path_hash(path@)
                    &&& find_hit(self@, path@) is None
                },
            },
    {
        let h = hash_str(path);
        let count = self.get_file_count();
        let s = self.data.as_slice();
        let mut i: u32 = 0;
        while i < count
            invariant
                i <= count,
                forall|j: int| 0 <= j < i ==> entry_hash(self@, j) != path_hash(path@),
            decreases count - i,
        {
            let base = 8 + 24 * (i as usize);
            if read_u64(s, base) == h {
                proof {
                    lemma_find_from_first(self@, h, 0, i as int);
                }
                return Ok((i, path.to_owned()));
            }
            i = i + 1;
        }
        proof {
            lemma_find_from_none(self@, path_hash(path@), 0);
        }
        Err(Error::NotFound)
    }

    /// Reads a member whose index a lookup already resolved; the same
    /// content as `read_file_at` on that index.
    pub fn read_file(&self, index: u32) -> (r: Result<Vec<u8>, Error>)
        requires
            self.wf(),
        ensures
            match r {
                Ok(v) => index < file_count_of(self@) && read_spec(self@, index as int) == Some(
                    v@,
                ),
                Err(Error::IndexOutOfRange) => index >= file_count_of(self@),
                Err(Error::CorruptData) => index < file_count_of(self@) && read_spec(
                    self@,
                    index as int,
                ) is None,
                Err(_) => false,
            },
    {
        self.read_file_at(index)
    }
}

/// Two entries that are each the first to carry a hash are one entry:
/// looking a path up and reading the hit returns the very bytes of the
/// entry whose true path it is, as long as no earlier entry shares the
/// hash.
pub proof fn lemma_find_read_round_trip(s: Seq<u8>, h: u64, i: int, j: int)
    requires
        0 <= i,
        0 <= j,
        entry_hash(s, i) == h,
        forall|k: int| 0 <= k < i ==> entry_hash(s, k) != h,
        entry_hash(s, j) == h,
        forall|k: int| 0 <= k < j ==> entry_hash(s, k) != h,
    ensures
        i == j,
        read_spec(s, j) == read_spec(s, i),
{
    if i < j {
        assert(entry_hash(s, i) != h);
    }
    if j < i {
        assert(entry_hash(s, j) != h);
    }
}

} // verus!
