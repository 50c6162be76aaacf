//! Little-endian integer reads, length-prefixed UTF-16 strings and decimal
//! rendering: the primitive layer that every format parser consumes.
use vstd::prelude::*;

use crate::Error;

verus! {

/// Largest byte-buffer length the parsers accept; keeps every cursor sum
/// far away from `usize` overflow on any target, 32-bit included.
pub const MAX_DATA: u64 = 0x4000_0000;

pub open spec fn data_fits(s: Seq<u8>) -> bool {
    s.len() <= MAX_DATA
}

pub open spec fn le16_at(s: Seq<u8>, i: int) -> u16
    recommends
        0 <= i,
        i + 2 <= s.len(),
{
    ((s[i] as int) + (s[i + 1] as int) * 0x100) as u16
}

pub open spec fn le32_at(s: Seq<u8>, i: int) -> u32
    recommends
        0 <= i,
        i + 4 <= s.len(),
{
    ((le16_at(s, i) as int) + (le16_at(s, i + 2) as int) * 0x10000) as u32
}

pub open spec fn le64_at(s: Seq<u8>, i: int) -> u64
    recommends
        0 <= i,
        i + 8 <= s.len(),
{
    ((le32_at(s, i) as int) + (le32_at(s, i + 4) as int) * 0x1_0000_0000) as u64
}

pub fn read_u16(data: &[u8], pos: usize) -> (r: u16)
    requires
        data_fits(data@),
        pos + 2 <= data@.len(),
    ensures
        r == le16_at(data@, pos as int),
{
    data[pos] as u16 + (data[pos + 1] as u16) * 0x100
}

pub fn read_u32(data: &[u8], pos: usize) -> (r: u32)
    requires
        data_fits(data@),
        pos + 4 <= data@.len(),
    ensures
        r == le32_at(data@, pos as int),
{
    read_u16(data, pos) as u32 + (read_u16(data, pos + 2) as u32) * 0x10000
}

pub fn read_u64(data: &[u8], pos: usize) -> (r: u64)
    requires
        data_fits(data@),
        pos + 8 <= data@.len(),
    ensures
        r == le64_at(data@, pos as int),
{
    read_u32(data, pos) as u64 + (read_u32(data, pos + 4) as u64) * 0x1_0000_0000
}

/// A little-endian `i32`, read through its two's-complement bits.
pub open spec fn lei32_at(s: Seq<u8>, i: int) -> i32 {
    le32_at(s, i) as i32
}

pub fn read_i32(data: &[u8], pos: usize) -> (r: i32)
    requires
        data_fits(data@),
        pos + 4 <= data@.len(),
    ensures
        r == lei32_at(data@, pos as int),
{
    read_u32(data, pos) as i32
}

/// Relies on std's `String::push`: appends exactly the given character.
#[verifier::external_body]
pub(crate) fn push_char(s: &mut String, c: char)
    ensures
        final(s)@ == old(s)@.push(c),
{
    s.push(c)
}

/// Relies on std's `char::from_u32`: `Some` exactly on Unicode scalar
/// values, and the returned character carries the given code point.
#[verifier::external_body]
pub(crate) fn char_from_u32(v: u32) -> (r: Option<char>)
    ensures
        r matches Some(c) ==> c as u32 == v,
        r is Some <==> (v < 0xD800 || (0xE000 <= v && v < 0x11_0000)),
{
    char::from_u32(v)
}

/// A UTF-16 code unit this library accepts: anything but a surrogate.
pub open spec fn utf16_unit_ok(u: u16) -> bool {
    u < 0xD800 || u >= 0xE000
}

pub open spec fn utf16_char(u: u16) -> char {
    (u as u32) as char
}

pub open spec fn units_at(s: Seq<u8>, pos: int, n: nat) -> Seq<u16> {
    Seq::new(n, |k: int| le16_at(s, pos + 2 * k))
}

pub open spec fn units_ok(us: Seq<u16>) -> bool {
    forall|k: int| 0 <= k < us.len() ==> utf16_unit_ok(#[trigger] us[k])
}

pub open spec fn utf16_chars(us: Seq<u16>) -> Seq<char> {
    us.map_values(|u: u16| utf16_char(u))
}

/// A length-prefixed UTF-16 string: unit count as `u32`, then that many
/// little-endian code units. `None` where the buffer ends too early or a
/// unit is a surrogate.
pub open spec fn str_at(s: Seq<u8>, pos: int) -> Option<(Seq<char>, int)> {
    if pos < 0 || pos + 4 > s.len() {
        None
    } else {
        let n = le32_at(s, pos) as int;
        if pos + 4 + 2 * n > s.len() {
            None
        } else {
            let us = units_at(s, pos + 4, n as nat);
            if units_ok(us) {
                Some((utf16_chars(us), pos + 4 + 2 * n))
            } else {
                None
            }
        }
    }
}

/// Reads one length-prefixed UTF-16 string; fails with `CorruptData`
/// exactly where `str_at` has no value.
pub fn read_str(data: &[u8], pos: usize) -> (r: Result<(String, usize), Error>)
    requires
        data_fits(data@),
        pos <= data@.len(),
    ensures
        match r {
            Ok((out, end)) => {
                &&& str_at(data@, pos as int) matches Some((cs, e)) && cs == out@ && e == end
                &&& pos < end <= data@.len()
            },
            Err(e) => e == Error::CorruptData && str_at(data@, pos as int) is None,
        },
{
    if pos + 4 > data.len() {
        return Err(Error::CorruptData);
    }
    let n = read_u32(data, pos) as usize;
    let base = pos + 4;
    if n > (data.len() - base) / 2 {
        assert(base + 2 * n > data@.len());
        return Err(Error::CorruptData);
    }
    let ghost us = units_at(data@, base as int, n as nat);
    let mut out = String::new();
    let mut k: usize = 0;
    while k < n
        invariant
            data_fits(data@),
            k <= n,
            base + 2 * n <= data@.len(),
            us == units_at(data@, base as int, n as nat),
            units_ok(us.take(k as int)),
            out@ == utf16_chars(us.take(k as int)),
        decreases n - k,
    {
        let u = read_u16(data, base + 2 * k);
        assert(u == us[k as int]);
        match char_from_u32(u as u32) {
            Some(c) => {
                proof {
                    vstd::utf8::char_u32_cast(c, u as u32);
                }
                push_char(&mut out, c);
            },
            None => {
                assert(!utf16_unit_ok(us[k as int]));
                assert(!units_ok(us));
                return Err(Error::CorruptData);
            },
        }
        k = k + 1;
        proof {
            assert(us.take(k as int).drop_last() =~= us.take(k - 1));
            assert(utf16_chars(us.take(k as int)) =~= utf16_chars(us.take(k - 1)).push(
                utf16_char(us[k - 1]),
            ));
        }
    }
    proof {
        assert(us.take(n as int) =~= us);
    }
    Ok((out, base + 2 * n))
}

/// The canonical decimal rendering of `n`.
pub open spec fn dec_rep(n: nat) -> Seq<char>
    decreases n,
{
    let d = (48 + n % 10) as u8 as char;
    if n < 10 {
        seq![d]
    } else {
        dec_rep(n / 10).push(d)
    }
}

/// The decimal rendering of a signed value: a minus sign, then the
/// magnitude.
pub open spec fn sdec_rep(v: int) -> Seq<char> {
    if v < 0 {
        seq!['-'] + dec_rep((-v) as nat)
    } else {
        dec_rep(v as nat)
    }
}

/// Renders `n` in decimal, matching `dec_rep`.
pub fn u64_to_string(n: u64) -> (s: String)
    ensures
        s@ == dec_rep(n as nat),
{
    let mut digits: Vec<char> = Vec::new();
    let mut cur: u64 = n;
    #[verifier::loop_isolation(true)]
    loop
        invariant_except_break
            (digits@.len() == 0 && cur == n) || (cur > 0 && dec_rep(n as nat) == dec_rep(
                cur as nat,
            ) + digits@.reverse()),
        ensures
            dec_rep(n as nat) == digits@.reverse(),
        decreases cur, (if digits@.len() == 0 { 1int } else { 0int }),
    {
        let d = ((48 + (cur % 10) as u8)) as char;
        let ghost old_digits = digits@;
        let entry_cur = cur;
        digits.push(d);
        cur = cur / 10;
        proof {
            assert(digits@.reverse() =~= seq![d] + old_digits.reverse());
            if old_digits.len() == 0 {
                assert(dec_rep(n as nat) =~= dec_rep(n as nat) + old_digits.reverse());
            }
            assert(dec_rep(n as nat) == dec_rep(entry_cur as nat) + old_digits.reverse());
            if entry_cur >= 10 {
                assert(dec_rep(entry_cur as nat) == dec_rep((entry_cur / 10) as nat).push(d));
                assert(dec_rep((entry_cur / 10) as nat) + digits@.reverse() =~= dec_rep(
                    entry_cur as nat,
                ) + old_digits.reverse());
            } else {
                assert(dec_rep(entry_cur as nat) =~= seq![d]);
                assert(dec_rep(entry_cur as nat) + old_digits.reverse() =~= digits@.reverse());
            }
        }
        if cur == 0 {
            break;
        }
    }
    let mut s = String::new();
    let mut i: usize = digits.len();
    proof {
        assert(digits@.subrange(i as int, digits@.len() as int).reverse() =~= Seq::<
            char,
        >::empty());
    }
    while i > 0
        invariant
            i <= digits@.len(),
            s@ == digits@.subrange(i as int, digits@.len() as int).reverse(),
        decreases i,
    {
        i = i - 1;
        push_char(&mut s, digits[i]);
        proof {
            let tail = digits@.subrange(i as int, digits@.len() as int);
            let tail1 = digits@.subrange(i + 1, digits@.len() as int);
            assert(tail.reverse() =~= tail1.reverse().push(digits@[i as int]));
        }
    }
    proof {
        assert(digits@.subrange(0, digits@.len() as int) =~= digits@);
    }
    s
}

/// Renders a signed value in decimal, matching `sdec_rep`.
pub fn i64_to_string(v: i64) -> (s: String)
    requires
        v != i64::MIN,
    ensures
        s@ == sdec_rep(v as int),
{
    if v < 0 {
        let mut s = String::new();
        s.append("-");
        let mag = u64_to_string((-v) as u64);
        s.append(mag.as_str());
        proof {
            reveal_strlit("-");
            assert(("-")@ =~= seq!['-']);
            assert(s@ =~= seq!['-'] + dec_rep((-v) as nat));
        }
        s
    } else {
        u64_to_string(v as u64)
    }
}

} // verus!
