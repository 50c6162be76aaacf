//! Recovering paths by brute force: members' contents may embed path
//! strings as zero-terminated UTF-16 text. Scanning for a known
//! extension and walking back over the printable run recovers a
//! candidate path, which is then looked up in the archive index.
use vstd::prelude::*;

use crate::bytes::{data_fits, MAX_DATA};
use crate::hash::path_hash;
use crate::pak::{entry_hash, file_count_of, PakReader};
use crate::Error;

verus! {

/// A printable ASCII byte, the only kind a recovered path may hold.
pub open spec fn graphic(b: u8) -> bool {
    0x21 <= b <= 0x7e
}

/// A printable UTF-16 unit with a zero high byte at position `q`.
pub open spec fn printable_pair_at(s: Seq<u8>, q: int) -> bool {
    &&& graphic(s[q])
    &&& s[q + 1] == 0
}

pub open spec fn ascii_graphic_char(c: char) -> bool {
    0x21 <= c as u32 <= 0x7e
}

/// The characters sit in the bytes as little-endian UTF-16 with zero
/// high bytes, closed by a zero unit.
pub open spec fn utf16_ascii_at(s: Seq<u8>, pos: int, cs: Seq<char>) -> bool {
    &&& 0 <= pos
    &&& pos + 2 * cs.len() + 2 <= s.len()
    &&& forall|i: int|
        0 <= i < cs.len() ==> s[pos + 2 * i] as u32 == (#[trigger] cs[i]) as u32 && s[pos + 2 * i
            + 1] == 0
    &&& s[pos + 2 * cs.len()] == 0
    &&& s[pos + 2 * cs.len() + 1] == 0
}

/// A recovered path: printable throughout and ending in a dot and the
/// extension.
pub open spec fn path_shape(cs: Seq<char>, suffix: Seq<char>) -> bool {
    &&& cs.len() >= suffix.len() + 1
    &&& forall|i: int| 0 <= i < cs.len() ==> ascii_graphic_char(#[trigger] cs[i])
    &&& cs.skip(cs.len() - suffix.len() - 1) == seq!['.'] + suffix
}

/// A recovered string is genuine: right shape, and its UTF-16 image
/// stands somewhere in the scanned bytes.
pub open spec fn recovered_ok(s: Seq<u8>, suffix: Seq<char>, p: String) -> bool {
    &&& path_shape(p@, suffix)
    &&& exists|pos: int| utf16_ascii_at(s, pos, p@)
}

/// Scans one member's bytes for embedded paths carrying the given
/// extension. Every returned string is genuine: its zero-terminated
/// UTF-16 image stands somewhere in the bytes, it is printable, and it
/// ends in the dotted extension. (A sweep may still recover only some
/// of the images: what matters downstream is that nothing is made up.)
pub fn find_suffix_paths(content: &[u8], suffix: &str) -> (r: Vec<String>)
    requires
        data_fits(content@),
        suffix@.len() <= 64,
        forall|i: int| 0 <= i < suffix@.len() ==> ascii_graphic_char(#[trigger] suffix@[i]),
    ensures
        forall|k: int| 0 <= k < r@.len() ==> recovered_ok(content@, suffix@, #[trigger] r@[k]),
{
    let slen = suffix.unicode_len();
    let plen = 2 * (slen + 2);
    let mut found: Vec<String> = Vec::new();
    if content.len() < plen {
        return found;
    }
    let mut t: usize = 0;
    while t + plen <= content.len()
        invariant
            data_fits(content@),
            slen == suffix@.len(),
            plen == 2 * (slen + 2),
            plen <= content@.len(),
            t <= content@.len(),
            forall|k: int|
                0 <= k < found@.len() ==> recovered_ok(content@, suffix@, #[trigger] found@[k]),
        decreases content@.len() - t,
    {
        if matches_pattern(content, t, suffix) {
            let path = extract_path(content, t, suffix);
            let ghost pre = found@;
            found.push(path);
            proof {
                assert(forall|k: int| 0 <= k < pre.len() ==> found@[k] == #[trigger] pre[k]);
                assert(recovered_ok(content@, suffix@, found@[pre.len() as int]));
            }
        }
        t = t + 1;
    }
    found
}

/// Whether the dotted extension and its closing zero unit stand at `t`.
fn matches_pattern(content: &[u8], t: usize, suffix: &str) -> (r: bool)
    requires
        data_fits(content@),
        suffix@.len() <= 64,
        t + 2 * (suffix@.len() + 2) <= content@.len(),
        forall|i: int| 0 <= i < suffix@.len() ==> ascii_graphic_char(#[trigger] suffix@[i]),
    ensures
        r ==> utf16_ascii_at(content@, t as int, seq!['.'] + suffix@),
{
    let slen = suffix.unicode_len();
    if !(content[t] == 0x2e && content[t + 1] == 0) {
        return false;
    }
    let mut i: usize = 0;
    while i < slen
        invariant
            data_fits(content@),
            slen == suffix@.len(),
            i <= slen,
            t + 2 * (slen + 2) <= content@.len(),
            content@[t as int] == 0x2e && content@[t + 1] == 0,
            forall|j: int|
                0 <= j < i ==> content@[t + 2 * (j + 1)] as u32 == (#[trigger] suffix@[j]) as u32
                    && content@[t + 2 * (j + 1) + 1] == 0,
        decreases slen - i,
    {
        let c = suffix.get_char(i);
        proof {
            assert(c == suffix@[i as int]);
            assert(ascii_graphic_char(c));
        }
        let cb = (c as u32) as u8;
        proof {
            assert(cb as u32 == suffix@[i as int] as u32);
        }
        if !(content[t + 2 * (i + 1)] == cb && content[t + 2 * (i + 1) + 1] == 0) {
            return false;
        }
        i = i + 1;
    }
    if !(content[t + 2 * (slen + 1)] == 0 && content[t + 2 * (slen + 1) + 1] == 0) {
        return false;
    }
    proof {
        let cs = seq!['.'] + suffix@;
        assert(cs.len() == slen + 1);
        assert(cs[0] == '.');
        assert(forall|i: int| 1 <= i < cs.len() ==> cs[i] == #[trigger] suffix@[i - 1]);
        assert('.' as u32 == 0x2e);
        assert forall|i: int|
            0 <= i < cs.len() implies content@[t + 2 * i] as u32 == (#[trigger] cs[i]) as u32
            && content@[t + 2 * i + 1] == 0 by {
            if i > 0 {
                assert(content@[t + 2 * ((i - 1) + 1)] as u32 == suffix@[i - 1] as u32);
                assert(content@[t + 2 * ((i - 1) + 1) + 1] == 0);
            }
        }
        assert(utf16_ascii_at(content@, t as int, cs));
    }
    true
}

/// Walks back from the matched dot over the printable UTF-16 run and
/// assembles the full path string.
#[verifier::spinoff_prover]
#[verifier::rlimit(80)]
fn extract_path(content: &[u8], t: usize, suffix: &str) -> (r: String)
    requires
        data_fits(content@),
        suffix@.len() <= 64,
        t + 2 * (suffix@.len() + 2) <= content@.len(),
        forall|i: int| 0 <= i < suffix@.len() ==> ascii_graphic_char(#[trigger] suffix@[i]),
        utf16_ascii_at(content@, t as int, seq!['.'] + suffix@),
    ensures
        recovered_ok(content@, suffix@, r),
{
    let mut begin = t;
    let mut stop = false;
    while !stop
        invariant
            data_fits(content@),
            begin <= t,
            begin % 2 == t % 2,
            t + 2 * (suffix@.len() + 2) <= content@.len(),
            forall|p: int|
                begin <= p < t && (p - begin) % 2 == 0 ==> #[trigger] printable_pair_at(
                    content@,
                    p,
                ),
        decreases begin, (if stop { 0int } else { 1int }),
    {
        if begin >= 2 {
            let b = content[begin - 2];
            if 0x21 <= b && b <= 0x7e && content[begin - 1] == 0 {
                begin = begin - 2;
                proof {
                    assert(printable_pair_at(content@, begin as int));
                    assert forall|q: int|
                        begin <= q < t && (q - begin) % 2 == 0 implies #[trigger] printable_pair_at(
                        content@,
                        q,
                    ) by {
                        if q != begin {
                            assert((q - (begin + 2)) % 2 == 0);
                        }
                    }
                }
            } else {
                stop = true;
            }
        } else {
            stop = true;
        }
    }
    let end = t + 2 * (suffix.unicode_len() + 1);
    let mut s = String::new();
    let mut p = begin;
    while p < end
        invariant
            data_fits(content@),
            begin <= p <= end,
            p % 2 == begin % 2,
            begin % 2 == t % 2,
            begin <= t,
            end == t + 2 * (suffix@.len() + 1),
            end + 2 <= content@.len(),
            utf16_ascii_at(content@, t as int, seq!['.'] + suffix@),
            forall|q: int|
                begin <= q < t && (q - begin) % 2 == 0 ==> #[trigger] printable_pair_at(
                    content@,
                    q,
                ),
            s@.len() * 2 == p - begin,
            forall|i: int|
                0 <= i < s@.len() ==> (#[trigger] s@[i]) as u32 == content@[begin + 2 * i] as u32
                    && ascii_graphic_char(s@[i]) && content@[begin + 2 * i + 1] == 0,
        decreases end - p,
    {
        let b = content[p];
        proof {
            if p < t {
                assert(printable_pair_at(content@, p as int));
                assert(graphic(content@[p as int]));
                assert(content@[p + 1] == 0);
            } else {
                let cs = seq!['.'] + suffix@;
                let i = (p - t) / 2;
                assert((p - t) % 2 == 0);
                assert(p == t + 2 * i);
                assert(0 <= i < cs.len());
                assert(content@[t + 2 * i] as u32 == cs[i] as u32);
                assert(content@[t + 2 * i + 1] == 0);
                if i == 0 {
                    assert(cs[0] == '.');
                } else {
                    assert(cs[i] == suffix@[i - 1]);
                    assert(ascii_graphic_char(suffix@[i - 1]));
                }
                assert(ascii_graphic_char(cs[i]));
                assert(graphic(b));
                assert(content@[p + 1] == 0);
            }
        }
        let c = match crate::bytes::char_from_u32(b as u32) {
            Some(c) => c,
            None => {
                proof {
                    assert(false);
                }
                ' '
            },
        };
        proof {
            assert(content@[p + 1] == 0);
        }
        let ghost pre_s = s@;
        crate::bytes::push_char(&mut s, c);
        proof {
            assert(c as u32 == b);
            assert(graphic(b));
            assert(ascii_graphic_char(c));
            assert(s@ == pre_s.push(c));
            assert(forall|i: int| 0 <= i < pre_s.len() ==> s@[i] == #[trigger] pre_s[i]);
            assert(s@[pre_s.len() as int] == c);
            assert(p == begin + 2 * pre_s.len());
        }
        p = p + 2;
    }
    proof {
        let cs = seq!['.'] + suffix@;
        assert(s@.len() == (end - begin) / 2);
        assert forall|i: int|
            0 <= i < cs.len() implies s@[(t - begin) / 2 + i] == #[trigger] cs[i] by {
            assert(content@[t + 2 * i] as u32 == cs[i] as u32);
            assert(s@[(t - begin) / 2 + i] as u32 == content@[begin + 2 * ((t - begin) / 2
                + i)] as u32);
            assert(begin + 2 * ((t - begin) / 2 + i) == t + 2 * i);
            lemma_ascii_char_eq(s@[(t - begin) / 2 + i], cs[i]);
        }
        assert(s@.skip(s@.len() - suffix@.len() - 1) =~= cs);
        assert(path_shape(s@, suffix@));
        assert(utf16_ascii_at(content@, begin as int, s@));
        assert(recovered_ok(content@, suffix@, s));
    }
    s
}

proof fn lemma_ascii_char_eq(a: char, b: char)
    requires
        a as u32 == b as u32,
    ensures
        a == b,
{
    vstd::utf8::char_u32_cast(a, a as u32);
    vstd::utf8::char_u32_cast(b, b as u32);
}

/// Sweeps every member for embedded paths with any of the given
/// extensions and resolves each recovered path in the archive index.
/// Unreadable members are skipped; nothing recovered is made up.
pub fn search_path(pak: &PakReader, suffixes: &Vec<String>) -> (r: Vec<(String, Option<u32>)>)
    requires
        pak.wf(),
        forall|si: int|
            0 <= si < suffixes@.len() ==> (#[trigger] suffixes@[si])@.len() <= 64 && (forall|
                i: int,
            |
                0 <= i < suffixes@[si]@.len() ==> ascii_graphic_char(
                    #[trigger] suffixes@[si]@[i],
                )),
    ensures
        forall|k: int|
            0 <= k < r@.len() ==> match (#[trigger] r@[k]).1 {
                Some(j) => j < file_count_of(pak@) && entry_hash(pak@, j as int) == path_hash(
                    r@[k].0@,
                ),
                None => forall|j: int|
                    0 <= j < file_count_of(pak@) ==> entry_hash(pak@, j) != path_hash(r@[k].0@),
            },
{
    let count = pak.get_file_count();
    let mut out: Vec<(String, Option<u32>)> = Vec::new();
    let mut index: u32 = 0;
    while index < count
        invariant
            pak.wf(),
            count == file_count_of(pak@),
            forall|si: int|
                0 <= si < suffixes@.len() ==> (#[trigger] suffixes@[si])@.len() <= 64 && (forall|
                    i: int,
                |
                    0 <= i < suffixes@[si]@.len() ==> ascii_graphic_char(
                        #[trigger] suffixes@[si]@[i],
                    )),
            forall|k: int|
                0 <= k < out@.len() ==> match (#[trigger] out@[k]).1 {
                    Some(j) => j < file_count_of(pak@) && entry_hash(pak@, j as int) == path_hash(
                        out@[k].0@,
                    ),
                    None => forall|j: int|
                        0 <= j < file_count_of(pak@) ==> entry_hash(pak@, j) != path_hash(
                            out@[k].0@,
                        ),
                },
        decreases count - index,
    {
        let content = match pak.read_file_at(index) {
            Ok(c) => c,
            Err(_) => {
                index = index + 1;
                continue ;
            },
        };
        if content.len() > MAX_DATA as usize {
            index = index + 1;
            continue ;
        }
        let nsuf = suffixes.len();
        let mut si: usize = 0;
        while si < nsuf
            invariant
                pak.wf(),
                count == file_count_of(pak@),
                data_fits(content@),
                nsuf == suffixes@.len(),
                si <= nsuf,
                forall|s2: int|
                    0 <= s2 < suffixes@.len() ==> (#[trigger] suffixes@[s2])@.len() <= 64 && (
                    forall|i: int|
                        0 <= i < suffixes@[s2]@.len() ==> ascii_graphic_char(
                            #[trigger] suffixes@[s2]@[i],
                        )),
                forall|k: int|
                    0 <= k < out@.len() ==> match (#[trigger] out@[k]).1 {
                        Some(j) => j < file_count_of(pak@) && entry_hash(pak@, j as int)
                            == path_hash(out@[k].0@),
                        None => forall|j: int|
                            0 <= j < file_count_of(pak@) ==> entry_hash(pak@, j) != path_hash(
                                out@[k].0@,
                            ),
                    },
            decreases nsuf - si,
        {
            let paths = find_suffix_paths(content.as_slice(), suffixes[si].as_str());
            let npaths = paths.len();
            let mut pi: usize = 0;
            while pi < npaths
                invariant
                    pak.wf(),
                    count == file_count_of(pak@),
                    npaths == paths@.len(),
                    pi <= npaths,
                    forall|k: int|
                        0 <= k < out@.len() ==> match (#[trigger] out@[k]).1 {
                            Some(j) => j < file_count_of(pak@) && entry_hash(pak@, j as int)
                                == path_hash(out@[k].0@),
                            None => forall|j: int|
                                0 <= j < file_count_of(pak@) ==> entry_hash(pak@, j) != path_hash(
                                    out@[k].0@,
                                ),
                        },
                decreases npaths - pi,
            {
                let path = paths[pi].clone();
                let looked = match pak.find_file(path.as_str()) {
                    Ok((j, _)) => Some(j),
                    Err(_) => None,
                };
                out.push((path, looked));
                pi = pi + 1;
            }
            si = si + 1;
        }
        index = index + 1;
    }
    out
}

} // verus!
