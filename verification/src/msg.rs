//! The text-table format: a header with entry, attribute and language
//! counts, per-attribute tags, and an encrypted tail holding every
//! string. The cipher chains each byte with the previous cipher byte
//! and a fixed 16-byte key; decryption is exact and positional.
use vstd::prelude::*;

use crate::bytes::{data_fits, le32_at, le64_at, lei32_at, read_i32, read_str, read_u32, read_u64,
    str_at, MAX_DATA};
use crate::rcol::{can_parse_strs, strs_match};
use crate::Error;

verus! {

#[derive(Debug)]
pub struct MsgAttributeHeader {
    pub j: i32,
    pub name: String,
}

#[derive(Debug)]
pub struct MsgEntry {
    pub name: String,
    pub attributes: Vec<String>,
    pub content: Vec<String>,
}

#[derive(Debug)]
pub struct Msg {
    pub attribute_headers: Vec<MsgAttributeHeader>,
    pub entries: Vec<MsgEntry>,
}

/// The cipher key, repeating every sixteen bytes.
pub open spec fn msg_key(i: int) -> u8 {
    seq![
        0xcfu8,
        0xceu8,
        0xfbu8,
        0xf8u8,
        0xecu8,
        0x0au8,
        0x33u8,
        0x66u8,
        0x93u8,
        0xa9u8,
        0x1du8,
        0x93u8,
        0x50u8,
        0x39u8,
        0x5fu8,
        0x09u8,
    ][i % 16]
}

/// One decrypted byte: the cipher byte folded with its predecessor and
/// the key.
pub open spec fn decrypt_at(s: Seq<u8>, j: int) -> u8 {
    if j == 0 {
        s[0] ^ msg_key(0)
    } else {
        s[j] ^ s[j - 1] ^ msg_key(j % 16)
    }
}

pub open spec fn decrypt_spec(s: Seq<u8>) -> Seq<u8> {
    Seq::new(s.len(), |j: int| decrypt_at(s, j))
}

/// Decrypts the string section.
pub fn decrypt(data: &[u8]) -> (r: Vec<u8>)
    ensures
        r@ == decrypt_spec(data@),
{
    let key: [u8; 16] = [
        0xcf,
        0xce,
        0xfb,
        0xf8,
        0xec,
        0x0a,
        0x33,
        0x66,
        0x93,
        0xa9,
        0x1d,
        0x93,
        0x50,
        0x39,
        0x5f,
        0x09,
    ];
    let mut out: Vec<u8> = Vec::new();
    let mut prev: u8 = 0;
    let mut j: usize = 0;
    let n = data.len();
    while j < n
        invariant
            j <= n == data@.len(),
            out@.len() == j,
            forall|t: int| 0 <= t < j ==> out@[t] == decrypt_at(data@, t),
            j > 0 ==> prev == data@[j - 1],
            j == 0 ==> prev == 0,
        decreases n - j,
    {
        let cur = data[j];
        let kb = key[j % 16];
        assert(kb == msg_key(j as int));
        out.push(cur ^ prev ^ kb);
        proof {
            if j == 0 {
                lemma_xor_zero(cur, kb);
            }
        }
        prev = cur;
        j = j + 1;
    }
    proof {
        assert(out@ =~= decrypt_spec(data@));
    }
    out
}

proof fn lemma_xor_zero(x: u8, k: u8)
    by (bit_vector)
    ensures
        x ^ 0 ^ k == x ^ k,
{
}

pub open spec fn msg_entry_count(s: Seq<u8>) -> u32 {
    le32_at(s, 16)
}

pub open spec fn msg_attribute_count(s: Seq<u8>) -> u32 {
    le32_at(s, 20)
}

pub open spec fn msg_language_count(s: Seq<u8>) -> u32 {
    le32_at(s, 24)
}

/// The language table lists each language's own index, in order: a
/// fixed identity sequence the format insists on.
pub open spec fn msg_languages_ok(s: Seq<u8>) -> bool {
    forall|i: int|
        0 <= i < msg_language_count(s) ==> #[trigger] le32_at(s, 28 + 4 * i) == i as u32
}

/// Version 17, magic "GMSG", the fixed 0x10 marker, the identity
/// language table, and room for the tables.
pub open spec fn msg_header_ok(s: Seq<u8>) -> bool {
    &&& data_fits(s)
    &&& s.len() >= 28
    &&& le32_at(s, 0) == 17
    &&& s[4] == 0x47
    &&& s[5] == 0x4d
    &&& s[6] == 0x53
    &&& s[7] == 0x47
    &&& le64_at(s, 8) == 0x10
    &&& 28 + 4 * (msg_language_count(s) as int) + 4 * (msg_attribute_count(s) as int) <= s.len()
    &&& msg_languages_ok(s)
}

/// Where the per-attribute tags start, after the language table.
pub open spec fn msg_tags_start(s: Seq<u8>) -> int {
    28 + 4 * (msg_language_count(s) as int)
}

pub open spec fn msg_strings_start(s: Seq<u8>) -> int {
    msg_tags_start(s) + 4 * (msg_attribute_count(s) as int)
}

/// The attribute headers: the tag of attribute `i` sits in the plain
/// header, its name is the `i`-th string of the decrypted section.
pub open spec fn headers_match(
    s: Seq<u8>,
    dec: Seq<u8>,
    pos: int,
    i: int,
    n: int,
    hdrs: Seq<MsgAttributeHeader>,
) -> bool
    decreases n - i,
{
    if i >= n {
        hdrs.len() == 0
    } else {
        &&& hdrs.len() == n - i
        &&& hdrs[0].j == lei32_at(s, msg_tags_start(s) + 4 * i)
        &&& match str_at(dec, pos) {
            Some((cs, p1)) => hdrs[0].name@ == cs && headers_match(
                s,
                dec,
                p1,
                i + 1,
                n,
                hdrs.drop_first(),
            ),
            None => false,
        }
    }
}

/// One entry: its name, one string per attribute, one per language.
pub open spec fn can_parse_entry(dec: Seq<u8>, pos: int, ac: u32, lc: u32) -> Option<int> {
    match str_at(dec, pos) {
        None => None,
        Some((_, p1)) => match can_parse_strs(dec, p1, ac as nat) {
            None => None,
            Some(p2) => can_parse_strs(dec, p2, lc as nat),
        },
    }
}

pub open spec fn entry_matches(dec: Seq<u8>, pos: int, ac: u32, lc: u32, e: &MsgEntry) -> bool {
    match str_at(dec, pos) {
        None => false,
        Some((cs, p1)) => {
            &&& e.name@ == cs
            &&& strs_match(dec, p1, ac as nat, e.attributes@)
            &&& match can_parse_strs(dec, p1, ac as nat) {
                Some(p2) => strs_match(dec, p2, lc as nat, e.content@),
                None => false,
            }
        },
    }
}

pub open spec fn can_parse_entries(dec: Seq<u8>, pos: int, n: nat, ac: u32, lc: u32) -> Option<
    int,
>
    decreases n,
{
    if n == 0 {
        Some(pos)
    } else {
        match can_parse_entry(dec, pos, ac, lc) {
            Some(p1) => can_parse_entries(dec, p1, (n - 1) as nat, ac, lc),
            None => None,
        }
    }
}

pub open spec fn entries_match(
    dec: Seq<u8>,
    pos: int,
    n: nat,
    ac: u32,
    lc: u32,
    es: Seq<MsgEntry>,
) -> bool
    decreases n,
{
    if n == 0 {
        es.len() == 0
    } else {
        &&& es.len() == n
        &&& entry_matches(dec, pos, ac, lc, &es[0])
        &&& match can_parse_entry(dec, pos, ac, lc) {
            Some(p1) => entries_match(dec, p1, (n - 1) as nat, ac, lc, es.drop_first()),
            None => false,
        }
    }
}

/// The whole table: the decrypted section holds the attribute names
/// and then the entries, consumed exactly.
pub open spec fn msg_matches(s: Seq<u8>, m: &Msg) -> bool {
    let dec = decrypt_spec(s.skip(msg_strings_start(s)));
    &&& msg_header_ok(s)
    &&& headers_match(s, dec, 0, 0, msg_attribute_count(s) as int, m.attribute_headers@)
    &&& match can_parse_strs(dec, 0, msg_attribute_count(s) as nat) {
        None => false,
        Some(p1) => {
            &&& entries_match(
                dec,
                p1,
                msg_entry_count(s) as nat,
                msg_attribute_count(s),
                msg_language_count(s),
                m.entries@,
            )
            &&& can_parse_entries(
                dec,
                p1,
                msg_entry_count(s) as nat,
                msg_attribute_count(s),
                msg_language_count(s),
            ) == Some(dec.len() as int)
        },
    }
}

pub open spec fn msg_parseable(s: Seq<u8>) -> bool {
    let dec = decrypt_spec(s.skip(msg_strings_start(s)));
    &&& msg_header_ok(s)
    &&& match can_parse_strs(dec, 0, msg_attribute_count(s) as nat) {
        None => false,
        Some(p1) => can_parse_entries(
            dec,
            p1,
            msg_entry_count(s) as nat,
            msg_attribute_count(s),
            msg_language_count(s),
        ) == Some(dec.len() as int),
    }
}

fn parse_headers(data: &[u8], dec: &[u8], pos: usize, i: u32, n: u32) -> (r: Result<
    (Vec<MsgAttributeHeader>, usize),
    Error,
>)
    requires
        data_fits(data@),
        data_fits(dec@),
        pos <= dec@.len(),
        i <= n,
        n == msg_attribute_count(data@),
        msg_tags_start(data@) + 4 * (n as int) <= data@.len(),
    ensures
        match r {
            Ok((hdrs, end)) => {
                &&& headers_match(data@, dec@, pos as int, i as int, n as int, hdrs@)
                &&& can_parse_strs(dec@, pos as int, (n - i) as nat) == Some(end as int)
                &&& pos <= end <= dec@.len()
            },
            Err(e) => e == Error::CorruptData && can_parse_strs(dec@, pos as int, (n - i) as nat)
                is None,
        },
    decreases n - i,
{
    if i == n {
        return Ok((Vec::new(), pos));
    }
    let lc = read_u32(data, 24) as usize;
    assert(28 + 4 * lc == msg_tags_start(data@));
    let j = read_i32(data, 28 + 4 * lc + 4 * (i as usize));
    let (name, p1) = match read_str(dec, pos) {
        Ok(x) => x,
        Err(e) => return Err(e),
    };
    let (mut hdrs, end) = match parse_headers(data, dec, p1, i + 1, n) {
        Ok(x) => x,
        Err(e) => return Err(e),
    };
    let ghost tail = hdrs@;
    hdrs.insert(0, MsgAttributeHeader { j, name });
    proof {
        assert(hdrs@.drop_first() =~= tail);
    }
    Ok((hdrs, end))
}

fn parse_entry(dec: &[u8], pos: usize, ac: u32, lc: u32) -> (r: Result<(MsgEntry, usize), Error>)
    requires
        data_fits(dec@),
        pos <= dec@.len(),
    ensures
        match r {
            Ok((e, end)) => {
                &&& can_parse_entry(dec@, pos as int, ac, lc) == Some(end as int)
                &&& entry_matches(dec@, pos as int, ac, lc, &e)
                &&& pos <= end <= dec@.len()
            },
            Err(e) => e == Error::CorruptData && can_parse_entry(dec@, pos as int, ac, lc)
                is None,
        },
{
    let (name, p1) = match read_str(dec, pos) {
        Ok(x) => x,
        Err(e) => return Err(e),
    };
    let (attributes, p2) = match crate::rcol::parse_strs(dec, p1, ac) {
        Ok(x) => x,
        Err(e) => return Err(e),
    };
    let (content, p3) = match crate::rcol::parse_strs(dec, p2, lc) {
        Ok(x) => x,
        Err(e) => return Err(e),
    };
    Ok((MsgEntry { name, attributes, content }, p3))
}

fn parse_entries(dec: &[u8], pos: usize, n: u32, ac: u32, lc: u32) -> (r: Result<
    (Vec<MsgEntry>, usize),
    Error,
>)
    requires
        data_fits(dec@),
        pos <= dec@.len(),
    ensures
        match r {
            Ok((es, end)) => {
                &&& can_parse_entries(dec@, pos as int, n as nat, ac, lc) == Some(end as int)
                &&& entries_match(dec@, pos as int, n as nat, ac, lc, es@)
                &&& pos <= end <= dec@.len()
            },
            Err(e) => e == Error::CorruptData && can_parse_entries(dec@, pos as int, n as nat, ac, lc)
                is None,
        },
    decreases n,
{
    if n == 0 {
        return Ok((Vec::new(), pos));
    }
    let (e0, p1) = match parse_entry(dec, pos, ac, lc) {
        Ok(x) => x,
        Err(e) => return Err(e),
    };
    let (mut es, end) = match parse_entries(dec, p1, n - 1, ac, lc) {
        Ok(x) => x,
        Err(e) => return Err(e),
    };
    let ghost tail = es@;
    es.insert(0, e0);
    proof {
        assert(es@.drop_first() =~= tail);
    }
    Ok((es, end))
}

impl Msg {
    /// Reads a text table: checks version, magic, the fixed marker and
    /// the identity language table, decrypts the string section, and
    /// walks the attribute names and entries so that the section is
    /// consumed exactly.
    #[verifier::spinoff_prover]
    #[verifier::rlimit(100)]
    pub fn new(data: &[u8]) -> (r: Result<Msg, Error>)
        ensures
            match r {
                Ok(m) => msg_matches(data@, &m),
                Err(Error::FormatError) => !msg_header_ok(data@),
                Err(Error::CorruptData) => msg_header_ok(data@) && !msg_parseable(data@),
                Err(_) => false,
            },
    {
        if data.len() > MAX_DATA as usize || data.len() < 28 {
            return Err(Error::FormatError);
        }
        if read_u32(data, 0) != 17 {
            return Err(Error::FormatError);
        }
        if !(data[4] == 0x47 && data[5] == 0x4d && data[6] == 0x53 && data[7] == 0x47) {
            return Err(Error::FormatError);
        }
        if read_u64(data, 8) != 0x10 {
            return Err(Error::FormatError);
        }
        let entry_count = read_u32(data, 16);
        let attribute_count = read_u32(data, 20);
        let language_count = read_u32(data, 24);
        if 4 * (language_count as u64) + 4 * (attribute_count as u64) > (data.len() - 28) as u64 {
            return Err(Error::FormatError);
        }
        let mut li: u32 = 0;
        while li < language_count
            invariant
                li <= language_count,
                forall|i: int| 0 <= i < li ==> #[trigger] le32_at(data@, 28 + 4 * i) == i as u32,
            decreases language_count - li,
        {
            if read_u32(data, 28 + 4 * (li as usize)) != li {
                assert(le32_at(data@, 28 + 4 * (li as int)) != li as u32);
                assert(!msg_languages_ok(data@));
                return Err(Error::FormatError);
            }
            li = li + 1;
        }
        let start = 28 + 4 * (language_count as usize) + 4 * (attribute_count as usize);
        let enc = &data[start..data.len()];
        assert(enc@ == data@.skip(msg_strings_start(data@)));
        let dec_vec = decrypt(enc);
        let dec = dec_vec.as_slice();
        let (attribute_headers, p1) = match parse_headers(data, dec, 0, 0, attribute_count) {
            Ok(x) => x,
            Err(e) => return Err(e),
        };
        let (entries, p2) = match parse_entries(dec, p1, entry_count, attribute_count,
            language_count) {
            Ok(x) => x,
            Err(e) => return Err(e),
        };
        if p2 != dec_vec.len() {
            return Err(Error::CorruptData);
        }
        Ok(Msg { attribute_headers, entries })
    }
}

/// Entry `i` reads and announces the text-table magic.
pub open spec fn has_gmsg_magic(s: Seq<u8>, i: int) -> bool {
    &&& crate::pak::read_spec(s, i) is Some
    &&& crate::pak::content_of(s, i).len() >= 8
    &&& crate::pak::content_of(s, i)[4] == 0x47
    &&& crate::pak::content_of(s, i)[5] == 0x4d
    &&& crate::pak::content_of(s, i)[6] == 0x53
    &&& crate::pak::content_of(s, i)[7] == 0x47
}

/// Every text-table member lands either among the decoded tables or
/// among the reported failures.
pub open spec fn msg_sweep_complete(
    s: Seq<u8>,
    decoded: Seq<(u32, Msg)>,
    failures: Seq<(u32, Error)>,
) -> bool {
    forall|i: int|
        0 <= i < crate::pak::file_count_of(s) && has_gmsg_magic(s, i) ==> (exists|k: int|
            0 <= k < decoded.len() && (#[trigger] decoded[k]).0 == i) || (exists|k: int|
            0 <= k < failures.len() && (#[trigger] failures[k]).0 == i)
}

/// Sweeps the archive for text tables: every member carrying the
/// magic is decoded, or reported with the error its bytes dictate.
pub fn scan_msg(pak: &crate::pak::PakReader) -> (r: (Vec<(u32, Msg)>, Vec<(u32, Error)>))
    requires
        pak.wf(),
    ensures
        forall|k: int|
            0 <= k < r.0@.len() ==> (#[trigger] r.0@[k]).0 < crate::pak::file_count_of(pak@)
                && has_gmsg_magic(pak@, r.0@[k].0 as int),
        forall|k: int|
            0 <= k < r.0@.len() ==> msg_matches(
                crate::pak::content_of(pak@, (#[trigger] r.0@[k]).0 as int),
                &r.0@[k].1,
            ),
        forall|k: int|
            0 <= k < r.1@.len() ==> (#[trigger] r.1@[k]).0 < crate::pak::file_count_of(pak@)
                && has_gmsg_magic(pak@, r.1@[k].0 as int),
        forall|k: int|
            0 <= k < r.1@.len() ==> !(msg_header_ok(
                crate::pak::content_of(pak@, (#[trigger] r.1@[k]).0 as int),
            ) && msg_parseable(crate::pak::content_of(pak@, r.1@[k].0 as int))),
        msg_sweep_complete(pak@, r.0@, r.1@),
{
    let count = pak.get_file_count();
    let mut decoded: Vec<(u32, Msg)> = Vec::new();
    let mut failures: Vec<(u32, Error)> = Vec::new();
    let mut i: u32 = 0;
    while i < count
        invariant
            pak.wf(),
            count == crate::pak::file_count_of(pak@),
            i <= count,
            forall|k: int|
                0 <= k < decoded@.len() ==> (#[trigger] decoded@[k]).0 < i && has_gmsg_magic(
                    pak@,
                    decoded@[k].0 as int,
                ),
            forall|k: int|
                0 <= k < decoded@.len() ==> msg_matches(
                    crate::pak::content_of(pak@, (#[trigger] decoded@[k]).0 as int),
                    &decoded@[k].1,
                ),
            forall|k: int|
                0 <= k < failures@.len() ==> (#[trigger] failures@[k]).0 < i && has_gmsg_magic(
                    pak@,
                    failures@[k].0 as int,
                ),
            forall|k: int|
                0 <= k < failures@.len() ==> !(msg_header_ok(
                    crate::pak::content_of(pak@, (#[trigger] failures@[k]).0 as int),
                ) && msg_parseable(crate::pak::content_of(pak@, failures@[k].0 as int))),
            forall|j: int|
                0 <= j < i && has_gmsg_magic(pak@, j) ==> (exists|k: int|
                    0 <= k < decoded@.len() && (#[trigger] decoded@[k]).0 == j) || (exists|k: int|
                    0 <= k < failures@.len() && (#[trigger] failures@[k]).0 == j),
        decreases count - i,
    {
        let ghost pre_d = decoded@;
        let ghost pre_f = failures@;
        match pak.read_file_at(i) {
            Ok(content) => {
                proof {
                    assert(content@ == crate::pak::content_of(pak@, i as int));
                }
                if content.len() >= 8 && content[4] == 0x47 && content[5] == 0x4d && content[6]
                    == 0x53 && content[7] == 0x47 {
                    match Msg::new(content.as_slice()) {
                        Ok(msg) => {
                            decoded.push((i, msg));
                            proof {
                                assert(forall|k: int|
                                    0 <= k < pre_d.len() ==> decoded@[k] == #[trigger] pre_d[k]);
                                assert(decoded@.last().0 == i);
                            }
                        },
                        Err(e) => {
                            failures.push((i, e));
                            proof {
                                assert(forall|k: int|
                                    0 <= k < pre_f.len() ==> failures@[k] == #[trigger] pre_f[k]);
                                assert(failures@.last().0 == i);
                            }
                        },
                    }
                }
            },
            Err(_) => {},
        }
        i = i + 1;
    }
    (decoded, failures)
}

} // verus!
