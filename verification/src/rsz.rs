//! The RSZ object-graph deserializer. A block carries a header (root
//! count, tag-table size, absolute data offset), a table of distinct
//! type tags, one tag-table index per root, and a data section. Each
//! root is decoded by walking its class's field schema in declaration
//! order; nested structs inline, sequences carry their count, padding
//! realigns the rebased cursor. The block is atomic: a bad field aborts
//! it whole, and the walk must consume the data section exactly.
use vstd::prelude::*;

use crate::bytes::{
    data_fits, le16_at, le32_at, le64_at, lei32_at, read_i32, read_str, read_u16, read_u32,
    read_u64, str_at, MAX_DATA,
};
use crate::registry::{enum_allowed, enum_check, ClassDef, ElemKind, FieldKind, PrimKind, Registry,
    resolve_spec};
use crate::Error;

verus! {

/// One decoded field value. Floats stay raw bits; padding yields `Unit`.
#[derive(Debug)]
pub enum RszValue {
    U8(u8),
    U16(u16),
    U32(u32),
    U64(u64),
    I32(i32),
    F32Bits(u32),
    Str(String),
    Guid(Vec<u8>),
    Enum(i32),
    Flags(u16),
    Struct(Vec<RszValue>),
    List(Vec<RszValue>),
    Unit,
}

/// One decoded root instance, tagged by the type hash it was read under.
#[derive(Debug)]
pub struct RszRoot {
    pub type_hash: u64,
    pub class: usize,
    pub fields: Vec<RszValue>,
}

/// The position after padding `pos` (rebased by `base`) to boundary `a`.
pub open spec fn align_end(base: int, pos: int, a: int) -> int {
    pos + ((a - ((base + pos) % a)) % a)
}

/// Where a primitive field read at `pos` ends; `None` where the buffer
/// is short, an enumerated value is outside its set, a flag has a bit
/// outside its mask, or a string is malformed.
pub open spec fn can_parse_prim(s: Seq<u8>, pos: int, pk: PrimKind) -> Option<int> {
    match pk {
        PrimKind::U8 => if pos + 1 <= s.len() {
            Some(pos + 1)
        } else {
            None
        },
        PrimKind::U16 => if pos + 2 <= s.len() {
            Some(pos + 2)
        } else {
            None
        },
        PrimKind::U32 => if pos + 4 <= s.len() {
            Some(pos + 4)
        } else {
            None
        },
        PrimKind::U64 => if pos + 8 <= s.len() {
            Some(pos + 8)
        } else {
            None
        },
        PrimKind::I32 => if pos + 4 <= s.len() {
            Some(pos + 4)
        } else {
            None
        },
        PrimKind::F32Bits => if pos + 4 <= s.len() {
            Some(pos + 4)
        } else {
            None
        },
        PrimKind::Str => match str_at(s, pos) {
            Some((_, e)) => Some(e),
            None => None,
        },
        PrimKind::Guid => if pos + 16 <= s.len() {
            Some(pos + 16)
        } else {
            None
        },
        PrimKind::Enum(ek) => if pos + 4 <= s.len() && enum_allowed(ek, lei32_at(s, pos)) {
            Some(pos + 4)
        } else {
            None
        },
        PrimKind::Flags(mask) => if pos + 2 <= s.len() && le16_at(s, pos) & !mask == 0 {
            Some(pos + 2)
        } else {
            None
        },
    }
}

/// Where a field read at `pos` ends. Nested structs may only refer to
/// classes earlier in the registry than the one being walked (`ci`).
pub open spec fn can_parse_field(
    s: Seq<u8>,
    base: int,
    pos: int,
    reg: Seq<ClassDef>,
    k: FieldKind,
    ci: int,
) -> Option<int>
    decreases ci, 2int, 0int,
    when 0 <= ci
{
    match k {
        FieldKind::Prim(pk) => can_parse_prim(s, pos, pk),
        FieldKind::Align(a) => if a < 1 {
            None
        } else {
            let e = align_end(base, pos, a as int);
            if e <= s.len() {
                Some(e)
            } else {
                None
            }
        },
        FieldKind::Struct(c) => if c < ci && c < reg.len() {
            can_parse_fields(s, base, pos, reg, reg[c as int].fields@, c as int)
        } else {
            None
        },
        FieldKind::List(ek) => if pos + 4 <= s.len() {
            can_parse_elems(s, base, pos + 4, reg, ek, le32_at(s, pos) as nat, ci)
        } else {
            None
        },
        FieldKind::Array(n, ek) => can_parse_elems(s, base, pos, reg, ek, n as nat, ci),
    }
}

pub open spec fn can_parse_fields(
    s: Seq<u8>,
    base: int,
    pos: int,
    reg: Seq<ClassDef>,
    flds: Seq<FieldKind>,
    ci: int,
) -> Option<int>
    decreases ci, 3int, flds.len(),
    when 0 <= ci
{
    if flds.len() == 0 {
        Some(pos)
    } else {
        match can_parse_field(s, base, pos, reg, flds[0], ci) {
            Some(p1) => can_parse_fields(s, base, p1, reg, flds.drop_first(), ci),
            None => None,
        }
    }
}

pub open spec fn can_parse_elems(
    s: Seq<u8>,
    base: int,
    pos: int,
    reg: Seq<ClassDef>,
    ek: ElemKind,
    n: nat,
    ci: int,
) -> Option<int>
    decreases ci, 1int, n,
    when 0 <= ci
{
    if n == 0 {
        Some(pos)
    } else {
        match can_parse_elem(s, base, pos, reg, ek, ci) {
            Some(p1) => can_parse_elems(s, base, p1, reg, ek, (n - 1) as nat, ci),
            None => None,
        }
    }
}

pub open spec fn can_parse_elem(
    s: Seq<u8>,
    base: int,
    pos: int,
    reg: Seq<ClassDef>,
    ek: ElemKind,
    ci: int,
) -> Option<int>
    decreases ci, 0int, 0int,
    when 0 <= ci
{
    match ek {
        ElemKind::Prim(pk) => can_parse_prim(s, pos, pk),
        ElemKind::Struct(c) => if c < ci && c < reg.len() {
            can_parse_fields(s, base, pos, reg, reg[c as int].fields@, c as int)
        } else {
            None
        },
    }
}

/// The value a primitive field read at `pos` must carry.
pub open spec fn prim_value_matches(s: Seq<u8>, pos: int, pk: PrimKind, v: RszValue) -> bool {
    match pk {
        PrimKind::U8 => v matches RszValue::U8(x) && pos + 1 <= s.len() && x == s[pos],
        PrimKind::U16 => v matches RszValue::U16(x) && pos + 2 <= s.len() && x == le16_at(s, pos),
        PrimKind::U32 => v matches RszValue::U32(x) && pos + 4 <= s.len() && x == le32_at(s, pos),
        PrimKind::U64 => v matches RszValue::U64(x) && pos + 8 <= s.len() && x == le64_at(s, pos),
        PrimKind::I32 => v matches RszValue::I32(x) && pos + 4 <= s.len() && x == lei32_at(s, pos),
        PrimKind::F32Bits => v matches RszValue::F32Bits(x) && pos + 4 <= s.len() && x == le32_at(
            s,
            pos,
        ),
        PrimKind::Str => v matches RszValue::Str(st) && (str_at(s, pos) matches Some((cs, _))
            && st@ == cs),
        PrimKind::Guid => v matches RszValue::Guid(g) && pos + 16 <= s.len() && g@ == s.subrange(
            pos,
            pos + 16,
        ),
        PrimKind::Enum(ek) => v matches RszValue::Enum(x) && pos + 4 <= s.len() && x == lei32_at(
            s,
            pos,
        ) && enum_allowed(ek, x),
        PrimKind::Flags(mask) => v matches RszValue::Flags(x) && pos + 2 <= s.len() && x == le16_at(
            s,
            pos,
        ) && x & !mask == 0,
    }
}

/// The value a field read at `pos` must carry.
pub open spec fn field_value_matches(
    s: Seq<u8>,
    base: int,
    pos: int,
    reg: Seq<ClassDef>,
    k: FieldKind,
    ci: int,
    v: RszValue,
) -> bool
    decreases ci, 2int, 0int,
    when 0 <= ci
{
    match k {
        FieldKind::Prim(pk) => prim_value_matches(s, pos, pk, v),
        FieldKind::Align(_) => v matches RszValue::Unit,
        FieldKind::Struct(c) => c < ci && c < reg.len() && (v matches RszValue::Struct(fs)
            && fields_values_match(s, base, pos, reg, reg[c as int].fields@, c as int, fs@)),
        FieldKind::List(ek) => pos + 4 <= s.len() && (v matches RszValue::List(es) && es@.len()
            == le32_at(s, pos) && elems_values_match(s, base, pos + 4, reg, ek, ci, es@)),
        FieldKind::Array(n, ek) => v matches RszValue::List(es) && es@.len() == n
            && elems_values_match(s, base, pos, reg, ek, ci, es@),
    }
}

pub open spec fn fields_values_match(
    s: Seq<u8>,
    base: int,
    pos: int,
    reg: Seq<ClassDef>,
    flds: Seq<FieldKind>,
    ci: int,
    vs: Seq<RszValue>,
) -> bool
    decreases ci, 3int, flds.len(),
    when 0 <= ci
{
    if flds.len() == 0 {
        vs.len() == 0
    } else {
        &&& vs.len() == flds.len()
        &&& field_value_matches(s, base, pos, reg, flds[0], ci, vs[0])
        &&& match can_parse_field(s, base, pos, reg, flds[0], ci) {
            Some(p1) => fields_values_match(s, base, p1, reg, flds.drop_first(), ci, vs.drop_first()),
            None => false,
        }
    }
}

pub open spec fn elems_values_match(
    s: Seq<u8>,
    base: int,
    pos: int,
    reg: Seq<ClassDef>,
    ek: ElemKind,
    ci: int,
    vs: Seq<RszValue>,
) -> bool
    decreases ci, 1int, vs.len(),
    when 0 <= ci
{
    if vs.len() == 0 {
        true
    } else {
        &&& elem_value_matches(s, base, pos, reg, ek, ci, vs[0])
        &&& match can_parse_elem(s, base, pos, reg, ek, ci) {
            Some(p1) => elems_values_match(s, base, p1, reg, ek, ci, vs.drop_first()),
            None => false,
        }
    }
}

pub open spec fn elem_value_matches(
    s: Seq<u8>,
    base: int,
    pos: int,
    reg: Seq<ClassDef>,
    ek: ElemKind,
    ci: int,
    v: RszValue,
) -> bool
    decreases ci, 0int, 0int,
    when 0 <= ci
{
    match ek {
        ElemKind::Prim(pk) => prim_value_matches(s, pos, pk, v),
        ElemKind::Struct(c) => c < ci && c < reg.len() && (v matches RszValue::Struct(fs)
            && fields_values_match(s, base, pos, reg, reg[c as int].fields@, c as int, fs@)),
    }
}

fn parse_prim(data: &[u8], pos: usize, pk: PrimKind) -> (r: Result<(RszValue, usize), Error>)
    requires
        data_fits(data@),
        pos <= data@.len(),
    ensures
        match r {
            Ok((v, end)) => {
                &&& can_parse_prim(data@, pos as int, pk) == Some(end as int)
                &&& prim_value_matches(data@, pos as int, pk, v)
                &&& pos <= end <= data@.len()
            },
            Err(e) => e == Error::CorruptData && can_parse_prim(data@, pos as int, pk) is None,
        },
{
    match pk {
        PrimKind::U8 => {
            if pos + 1 > data.len() {
                return Err(Error::CorruptData);
            }
            Ok((RszValue::U8(data[pos]), pos + 1))
        },
        PrimKind::U16 => {
            if pos + 2 > data.len() {
                return Err(Error::CorruptData);
            }
            Ok((RszValue::U16(read_u16(data, pos)), pos + 2))
        },
        PrimKind::U32 => {
            if pos + 4 > data.len() {
                return Err(Error::CorruptData);
            }
            Ok((RszValue::U32(read_u32(data, pos)), pos + 4))
        },
        PrimKind::U64 => {
            if pos + 8 > data.len() {
                return Err(Error::CorruptData);
            }
            Ok((RszValue::U64(read_u64(data, pos)), pos + 8))
        },
        PrimKind::I32 => {
            if pos + 4 > data.len() {
                return Err(Error::CorruptData);
            }
            Ok((RszValue::I32(read_i32(data, pos)), pos + 4))
        },
        PrimKind::F32Bits => {
            if pos + 4 > data.len() {
                return Err(Error::CorruptData);
            }
            Ok((RszValue::F32Bits(read_u32(data, pos)), pos + 4))
        },
        PrimKind::Str => {
            let (st, end) = match read_str(data, pos) {
                Ok(x) => x,
                Err(e) => return Err(e),
            };
            Ok((RszValue::Str(st), end))
        },
        PrimKind::Guid => {
            if pos + 16 > data.len() {
                return Err(Error::CorruptData);
            }
            let g = vstd::slice::slice_to_vec(&data[pos..pos + 16]);
            Ok((RszValue::Guid(g), pos + 16))
        },
        PrimKind::Enum(ek) => {
            if pos + 4 > data.len() {
                return Err(Error::CorruptData);
            }
            let x = read_i32(data, pos);
            if !enum_check(ek, x) {
                return Err(Error::CorruptData);
            }
            Ok((RszValue::Enum(x), pos + 4))
        },
        PrimKind::Flags(mask) => {
            if pos + 2 > data.len() {
                return Err(Error::CorruptData);
            }
            let x = read_u16(data, pos);
            if x & !mask != 0 {
                return Err(Error::CorruptData);
            }
            Ok((RszValue::Flags(x), pos + 2))
        },
    }
}

fn parse_field(
    data: &[u8],
    dbase: u64,
    pos: usize,
    reg: &Registry,
    k: FieldKind,
    ci: usize,
) -> (r: Result<(RszValue, usize), Error>)
    requires
        data_fits(data@),
        pos <= data@.len(),
        dbase <= 2 * MAX_DATA,
        ci <= reg.classes@.len(),
    ensures
        match r {
            Ok((v, end)) => {
                &&& can_parse_field(data@, dbase as int, pos as int, reg.classes@, k, ci as int)
                    == Some(end as int)
                &&& field_value_matches(data@, dbase as int, pos as int, reg.classes@, k, ci as int, v)
                &&& pos <= end <= data@.len()
            },
            Err(e) => e == Error::CorruptData && can_parse_field(
                data@,
                dbase as int,
                pos as int,
                reg.classes@,
                k,
                ci as int,
            ) is None,
        },
    decreases ci, 2int, 0int,
{
    match k {
        FieldKind::Prim(pk) => parse_prim(data, pos, pk),
        FieldKind::Align(a) => {
            if a < 1 {
                return Err(Error::CorruptData);
            }
            let rem = (dbase + pos as u64) % (a as u64);
            let pad = ((a as u64) - rem) % (a as u64);
            let end = pos as u64 + pad;
            if end > data.len() as u64 {
                return Err(Error::CorruptData);
            }
            Ok((RszValue::Unit, end as usize))
        },
        FieldKind::Struct(c) => {
            if !(c < ci && c < reg.classes.len()) {
                return Err(Error::CorruptData);
            }
            proof {
                assert(reg.classes@[c as int].fields@.skip(0) =~= reg.classes@[c as int].fields@);
            }
            let (fs, end) = match parse_fields(data, dbase, pos, reg, c, 0) {
                Ok(x) => x,
                Err(e) => return Err(e),
            };
            Ok((RszValue::Struct(fs), end))
        },
        FieldKind::List(ek) => {
            if pos + 4 > data.len() {
                return Err(Error::CorruptData);
            }
            let n = read_u32(data, pos);
            let (es, end) = match parse_elems(data, dbase, pos + 4, reg, ek, n, ci) {
                Ok(x) => x,
                Err(e) => return Err(e),
            };
            Ok((RszValue::List(es), end))
        },
        FieldKind::Array(n, ek) => {
            let (es, end) = match parse_elems(data, dbase, pos, reg, ek, n, ci) {
                Ok(x) => x,
                Err(e) => return Err(e),
            };
            Ok((RszValue::List(es), end))
        },
    }
}

/// Walks class `ci`'s fields from schema position `fi` on.
fn parse_fields(
    data: &[u8],
    dbase: u64,
    pos: usize,
    reg: &Registry,
    ci: usize,
    fi: usize,
) -> (r: Result<(Vec<RszValue>, usize), Error>)
    requires
        data_fits(data@),
        pos <= data@.len(),
        dbase <= 2 * MAX_DATA,
        ci < reg.classes@.len(),
        fi <= reg.classes@[ci as int].fields@.len(),
    ensures
        match r {
            Ok((vs, end)) => {
                &&& can_parse_fields(
                    data@,
                    dbase as int,
                    pos as int,
                    reg.classes@,
                    reg.classes@[ci as int].fields@.skip(fi as int),
                    ci as int,
                ) == Some(end as int)
                &&& fields_values_match(
                    data@,
                    dbase as int,
                    pos as int,
                    reg.classes@,
                    reg.classes@[ci as int].fields@.skip(fi as int),
                    ci as int,
                    vs@,
                )
                &&& pos <= end <= data@.len()
            },
            Err(e) => e == Error::CorruptData && can_parse_fields(
                data@,
                dbase as int,
                pos as int,
                reg.classes@,
                reg.classes@[ci as int].fields@.skip(fi as int),
                ci as int,
            ) is None,
        },
    decreases ci, 3int, reg.classes@[ci as int].fields@.len() - fi,
{
    let ghost flds = reg.classes@[ci as int].fields@.skip(fi as int);
    if fi == reg.classes[ci].fields.len() {
        proof {
            assert(flds =~= Seq::<FieldKind>::empty());
        }
        return Ok((Vec::new(), pos));
    }
    let k = reg.classes[ci].fields[fi];
    assert(k == flds[0]);
    let (v, p1) = match parse_field(data, dbase, pos, reg, k, ci) {
        Ok(x) => x,
        Err(e) => return Err(e),
    };
    proof {
        assert(flds.drop_first() =~= reg.classes@[ci as int].fields@.skip(fi + 1));
    }
    let (mut vs, end) = match parse_fields(data, dbase, p1, reg, ci, fi + 1) {
        Ok(x) => x,
        Err(e) => return Err(e),
    };
    let ghost tail = vs@;
    vs.insert(0, v);
    proof {
        assert(vs@.drop_first() =~= tail);
        assert(vs@[0] == v);
    }
    Ok((vs, end))
}

fn parse_elems(
    data: &[u8],
    dbase: u64,
    pos: usize,
    reg: &Registry,
    ek: ElemKind,
    n: u32,
    ci: usize,
) -> (r: Result<(Vec<RszValue>, usize), Error>)
    requires
        data_fits(data@),
        pos <= data@.len(),
        dbase <= 2 * MAX_DATA,
        ci <= reg.classes@.len(),
    ensures
        match r {
            Ok((vs, end)) => {
                &&& can_parse_elems(
                    data@,
                    dbase as int,
                    pos as int,
                    reg.classes@,
                    ek,
                    n as nat,
                    ci as int,
                ) == Some(end as int)
                &&& elems_values_match(
                    data@,
                    dbase as int,
                    pos as int,
                    reg.classes@,
                    ek,
                    ci as int,
                    vs@,
                )
                &&& vs@.len() == n
                &&& pos <= end <= data@.len()
            },
            Err(e) => e == Error::CorruptData && can_parse_elems(
                data@,
                dbase as int,
                pos as int,
                reg.classes@,
                ek,
                n as nat,
                ci as int,
            ) is None,
        },
    decreases ci, 1int, n,
{
    if n == 0 {
        return Ok((Vec::new(), pos));
    }
    let (v, p1) = match parse_elem(data, dbase, pos, reg, ek, ci) {
        Ok(x) => x,
        Err(e) => return Err(e),
    };
    let (mut vs, end) = match parse_elems(data, dbase, p1, reg, ek, n - 1, ci) {
        Ok(x) => x,
        Err(e) => return Err(e),
    };
    let ghost tail = vs@;
    vs.insert(0, v);
    proof {
        assert(vs@.drop_first() =~= tail);
        assert(vs@[0] == v);
    }
    Ok((vs, end))
}

fn parse_elem(
    data: &[u8],
    dbase: u64,
    pos: usize,
    reg: &Registry,
    ek: ElemKind,
    ci: usize,
) -> (r: Result<(RszValue, usize), Error>)
    requires
        data_fits(data@),
        pos <= data@.len(),
        dbase <= 2 * MAX_DATA,
        ci <= reg.classes@.len(),
    ensures
        match r {
            Ok((v, end)) => {
                &&& can_parse_elem(data@, dbase as int, pos as int, reg.classes@, ek, ci as int)
                    == Some(end as int)
                &&& elem_value_matches(data@, dbase as int, pos as int, reg.classes@, ek, ci as int, v)
                &&& pos <= end <= data@.len()
            },
            Err(e) => e == Error::CorruptData && can_parse_elem(
                data@,
                dbase as int,
                pos as int,
                reg.classes@,
                ek,
                ci as int,
            ) is None,
        },
    decreases ci, 0int, 0int,
{
    match ek {
        ElemKind::Prim(pk) => parse_prim(data, pos, pk),
        ElemKind::Struct(c) => {
            if !(c < ci && c < reg.classes.len()) {
                return Err(Error::CorruptData);
            }
            proof {
                assert(reg.classes@[c as int].fields@.skip(0) =~= reg.classes@[c as int].fields@);
            }
            let (fs, end) = match parse_fields(data, dbase, pos, reg, c, 0) {
                Ok(x) => x,
                Err(e) => return Err(e),
            };
            Ok((RszValue::Struct(fs), end))
        },
    }
}

/// Header accessors for an RSZ block.
pub open spec fn rsz_root_count(b: Seq<u8>) -> int {
    le32_at(b, 0) as int
}

pub open spec fn rsz_tag_count(b: Seq<u8>) -> int {
    le32_at(b, 4) as int
}

pub open spec fn rsz_data_off(b: Seq<u8>) -> int {
    le64_at(b, 8) as int
}

pub open spec fn rsz_tables_end(b: Seq<u8>) -> int {
    16 + 8 * rsz_tag_count(b) + 4 * rsz_root_count(b)
}

pub open spec fn align16(x: int) -> int {
    x + ((16 - (x % 16)) % 16)
}

pub open spec fn rsz_data_start(b: Seq<u8>) -> int {
    align16(rsz_tables_end(b))
}

pub open spec fn rsz_tag(b: Seq<u8>, t: int) -> u64 {
    le64_at(b, 16 + 8 * t)
}

pub open spec fn rsz_root_tag_index(b: Seq<u8>, i: int) -> int {
    le32_at(b, 16 + 8 * rsz_tag_count(b) + 4 * i) as int
}

pub open spec fn rsz_root_hash(b: Seq<u8>, i: int) -> u64 {
    rsz_tag(b, rsz_root_tag_index(b, i))
}

/// The block's tables are in bounds, its data offset is the tables' end
/// aligned to 16 and rebased by `base`, and every root's tag index
/// points into the tag table.
pub open spec fn rsz_header_ok(b: Seq<u8>, base: int) -> bool {
    &&& data_fits(b)
    &&& b.len() >= 16
    &&& rsz_tables_end(b) <= b.len()
    &&& rsz_data_start(b) <= b.len()
    &&& rsz_data_off(b) == base + rsz_data_start(b)
    &&& forall|i: int|
        0 <= i < rsz_root_count(b) ==> rsz_root_tag_index(b, i) < rsz_tag_count(b)
}

/// A parsed RSZ block: one type hash per root, the data section, and
/// the absolute address the data section starts at (padding inside the
/// section aligns against that address).
pub struct Rsz {
    pub type_hashes: Vec<u64>,
    pub data: Vec<u8>,
    pub data_base: u64,
}

impl Rsz {
    pub open spec fn wf(&self) -> bool {
        &&& data_fits(self.data@)
        &&& self.data_base <= 2 * MAX_DATA
    }

    /// Parses a block's header and tables. `base_offset` is where the
    /// block sits inside its enclosing container, so that the stored
    /// absolute data offset can be checked and padding rebased.
    pub fn new(block: &[u8], base_offset: u64) -> (r: Result<Rsz, Error>)
        requires
            data_fits(block@),
            base_offset <= MAX_DATA,
        ensures
            match r {
                Ok(rsz) => {
                    &&& rsz_header_ok(block@, base_offset as int)
                    &&& rsz.type_hashes@.len() == rsz_root_count(block@)
                    &&& forall|i: int|
                        0 <= i < rsz_root_count(block@) ==> rsz.type_hashes@[i] == rsz_root_hash(
                            block@,
                            i,
                        )
                    &&& rsz.data@ == block@.subrange(rsz_data_start(block@), block@.len() as int)
                    &&& rsz.data_base == base_offset + rsz_data_start(block@)
                    &&& rsz.wf()
                },
                Err(e) => e == Error::CorruptData && !rsz_header_ok(block@, base_offset as int),
            },
    {
        if block.len() < 16 {
            return Err(Error::CorruptData);
        }
        let root_count = read_u32(block, 0) as u64;
        let tag_count = read_u32(block, 4) as u64;
        let data_off = read_u64(block, 8);
        let tables_end = 16 + 8 * tag_count + 4 * root_count;
        if tables_end > block.len() as u64 {
            return Err(Error::CorruptData);
        }
        let data_start = tables_end + ((16 - (tables_end % 16)) % 16);
        if data_start > block.len() as u64 {
            return Err(Error::CorruptData);
        }
        if data_off != base_offset + data_start {
            return Err(Error::CorruptData);
        }
        let mut type_hashes: Vec<u64> = Vec::new();
        let mut i: u64 = 0;
        while i < root_count
            invariant
                i <= root_count,
                type_hashes@.len() == i,
                forall|j: int| 0 <= j < i ==> type_hashes@[j] == rsz_root_hash(block@, j),
                forall|j: int| 0 <= j < i ==> rsz_root_tag_index(block@, j) < rsz_tag_count(block@),
            decreases root_count - i,
        {
            let idx = read_u32(block, (16 + 8 * tag_count + 4 * i) as usize) as u64;
            assert(idx == rsz_root_tag_index(block@, i as int));
            if idx >= tag_count {
                assert(!rsz_header_ok(block@, base_offset as int));
                return Err(Error::CorruptData);
            }
            let hash = read_u64(block, (16 + 8 * idx) as usize);
            type_hashes.push(hash);
            i = i + 1;
        }
        let data = vstd::slice::slice_to_vec(&block[data_start as usize..block.len()]);
        Ok(Rsz { type_hashes, data, data_base: base_offset + data_start })
    }
}

/// The first of the roots' type hashes that the registry cannot
/// resolve, in root order.
pub open spec fn first_unknown(classes: Seq<ClassDef>, hashes: Seq<u64>) -> Option<u64>
    decreases hashes.len(),
{
    if hashes.len() == 0 {
        None
    } else if resolve_spec(classes, hashes[0]) is None {
        Some(hashes[0])
    } else {
        first_unknown(classes, hashes.drop_first())
    }
}

/// Where the roots' sequential walk ends, starting at `pos`.
pub open spec fn can_parse_roots(
    s: Seq<u8>,
    base: int,
    pos: int,
    reg: Seq<ClassDef>,
    hashes: Seq<u64>,
) -> Option<int>
    decreases hashes.len(),
{
    if hashes.len() == 0 {
        Some(pos)
    } else {
        match resolve_spec(reg, hashes[0]) {
            Some(c) => match can_parse_fields(s, base, pos, reg, reg[c].fields@, c) {
                Some(p1) => can_parse_roots(s, base, p1, reg, hashes.drop_first()),
                None => None,
            },
            None => None,
        }
    }
}

/// The decoded roots of a walk from `pos` that ends at `end`: one root
/// per hash, in file order, each carrying its hash, its resolved class
/// and the field values the schema dictates.
pub open spec fn roots_match(
    s: Seq<u8>,
    base: int,
    pos: int,
    reg: Seq<ClassDef>,
    hashes: Seq<u64>,
    roots: Seq<RszRoot>,
    end: int,
) -> bool
    decreases hashes.len(),
{
    if hashes.len() == 0 {
        roots.len() == 0 && end == pos
    } else {
        &&& roots.len() == hashes.len()
        &&& roots[0].type_hash == hashes[0]
        &&& resolve_spec(reg, hashes[0]) == Some(roots[0].class as int)
        &&& roots[0].class < reg.len()
        &&& fields_values_match(
            s,
            base,
            pos,
            reg,
            reg[roots[0].class as int].fields@,
            roots[0].class as int,
            roots[0].fields@,
        )
        &&& match can_parse_fields(
            s,
            base,
            pos,
            reg,
            reg[roots[0].class as int].fields@,
            roots[0].class as int,
        ) {
            Some(p1) => roots_match(s, base, p1, reg, hashes.drop_first(), roots.drop_first(), end),
            None => false,
        }
    }
}

proof fn lemma_roots_match_snoc(
    s: Seq<u8>,
    base: int,
    pos: int,
    reg: Seq<ClassDef>,
    hashes: Seq<u64>,
    roots: Seq<RszRoot>,
    mid: int,
    root: RszRoot,
    end: int,
)
    requires
        roots_match(s, base, pos, reg, hashes, roots, mid),
        resolve_spec(reg, root.type_hash) == Some(root.class as int),
        root.class < reg.len(),
        fields_values_match(
            s,
            base,
            mid,
            reg,
            reg[root.class as int].fields@,
            root.class as int,
            root.fields@,
        ),
        can_parse_fields(s, base, mid, reg, reg[root.class as int].fields@, root.class as int)
            == Some(end),
    ensures
        roots_match(s, base, pos, reg, hashes.push(root.type_hash), roots.push(root), end),
    decreases hashes.len(),
{
    if hashes.len() == 0 {
        assert(hashes.push(root.type_hash).drop_first() =~= Seq::<u64>::empty());
        assert(roots.push(root).drop_first() =~= Seq::<RszRoot>::empty());
        assert(hashes.push(root.type_hash)[0] == root.type_hash);
        assert(roots.push(root)[0] == root);
        assert(roots_match(s, base, end, reg, Seq::<u64>::empty(), Seq::<RszRoot>::empty(), end));
    } else {
        assert(hashes.push(root.type_hash).drop_first() =~= hashes.drop_first().push(
            root.type_hash,
        ));
        assert(roots.push(root).drop_first() =~= roots.drop_first().push(root));
        assert(hashes.push(root.type_hash)[0] == hashes[0]);
        assert(roots.push(root)[0] == roots[0]);
        let c = roots[0].class as int;
        match can_parse_fields(s, base, pos, reg, reg[c].fields@, c) {
            Some(p1) => {
                lemma_roots_match_snoc(
                    s,
                    base,
                    p1,
                    reg,
                    hashes.drop_first(),
                    roots.drop_first(),
                    mid,
                    root,
                    end,
                );
                assert(roots_match(
                    s,
                    base,
                    p1,
                    reg,
                    hashes.push(root.type_hash).drop_first(),
                    roots.push(root).drop_first(),
                    end,
                ));
            },
            None => {},
        }
    }
}

impl Rsz {
    /// Decodes every root against the registry, in file order. The tags
    /// are all resolved first: a miss reports `UnknownType` with the
    /// raw hash. The walk must end exactly at the data section's end;
    /// anything else is `CorruptData` and no roots are returned.
    pub fn deserialize(&self, reg: &Registry) -> (r: Result<Vec<RszRoot>, Error>)
        requires
            self.wf(),
        ensures
            match r {
                Ok(roots) => {
                    &&& first_unknown(reg.classes@, self.type_hashes@) is None
                    &&& roots_match(
                        self.data@,
                        self.data_base as int,
                        0,
                        reg.classes@,
                        self.type_hashes@,
                        roots@,
                        self.data@.len() as int,
                    )
                    &&& roots@.len() == self.type_hashes@.len()
                },
                Err(Error::UnknownType(h)) => first_unknown(reg.classes@, self.type_hashes@)
                    == Some(h),
                Err(Error::CorruptData) => {
                    &&& first_unknown(reg.classes@, self.type_hashes@) is None
                    &&& can_parse_roots(
                        self.data@,
                        self.data_base as int,
                        0,
                        reg.classes@,
                        self.type_hashes@,
                    ) != Some(self.data@.len() as int)
                },
                Err(_) => false,
            },
    {
        let n = self.type_hashes.len();
        let mut classes: Vec<usize> = Vec::new();
        let mut i: usize = 0;
        while i < n
            invariant
                i <= n == self.type_hashes@.len(),
                classes@.len() == i,
                forall|j: int|
                    0 <= j < i ==> resolve_spec(reg.classes@, #[trigger] self.type_hashes@[j])
                        == Some(classes@[j] as int),
                forall|j: int| 0 <= j < i ==> #[trigger] classes@[j] < reg.classes@.len(),
            decreases n - i,
        {
            match reg.resolve(self.type_hashes[i]) {
                Some(c) => classes.push(c),
                None => {
                    proof {
                        lemma_first_unknown_at(reg.classes@, self.type_hashes@, i as int);
                    }
                    return Err(Error::UnknownType(self.type_hashes[i]));
                },
            }
            i = i + 1;
        }
        proof {
            lemma_first_unknown_none(reg.classes@, self.type_hashes@);
        }
        let mut roots: Vec<RszRoot> = Vec::new();
        let mut pos: usize = 0;
        let mut i: usize = 0;
        let data = self.data.as_slice();
        proof {
            assert(self.type_hashes@.skip(0) =~= self.type_hashes@);
            assert(self.type_hashes@.take(0) =~= Seq::<u64>::empty());
        }
        while i < n
            invariant
                i <= n == self.type_hashes@.len(),
                classes@.len() == n,
                pos <= self.data@.len(),
                forall|j: int|
                    0 <= j < n ==> resolve_spec(reg.classes@, #[trigger] self.type_hashes@[j])
                        == Some(classes@[j] as int),
                forall|j: int| 0 <= j < n ==> #[trigger] classes@[j] < reg.classes@.len(),
                can_parse_roots(
                    self.data@,
                    self.data_base as int,
                    0,
                    reg.classes@,
                    self.type_hashes@,
                ) == can_parse_roots(
                    self.data@,
                    self.data_base as int,
                    pos as int,
                    reg.classes@,
                    self.type_hashes@.skip(i as int),
                ),
                roots_match(
                    self.data@,
                    self.data_base as int,
                    0,
                    reg.classes@,
                    self.type_hashes@.take(i as int),
                    roots@,
                    pos as int,
                ),
                roots@.len() == i,
            decreases n - i,
        {
            let ci = classes[i];
            let ghost rest = self.type_hashes@.skip(i as int);
            assert(rest[0] == self.type_hashes@[i as int]);
            match parse_fields(data, self.data_base, pos, reg, ci, 0) {
                Ok((fs, p1)) => {
                    proof {
                        assert(reg.classes@[ci as int].fields@.skip(0) =~= reg.classes@[
                            ci as int].fields@);
                        assert(rest.drop_first() =~= self.type_hashes@.skip(i + 1));
                        lemma_roots_match_snoc(
                            self.data@,
                            self.data_base as int,
                            0,
                            reg.classes@,
                            self.type_hashes@.take(i as int),
                            roots@,
                            pos as int,
                            RszRoot { type_hash: self.type_hashes@[i as int], class: ci, fields: fs },
                            p1 as int,
                        );
                        assert(self.type_hashes@.take(i as int).push(self.type_hashes@[i as int])
                            =~= self.type_hashes@.take(i + 1));
                    }
                    roots.push(RszRoot { type_hash: self.type_hashes[i], class: ci, fields: fs });
                    pos = p1;
                },
                Err(_) => {
                    proof {
                        assert(reg.classes@[ci as int].fields@.skip(0) =~= reg.classes@[
                            ci as int].fields@);
                    }
                    return Err(Error::CorruptData);
                },
            }
            i = i + 1;
        }
        proof {
            assert(self.type_hashes@.skip(n as int) =~= Seq::<u64>::empty());
            assert(self.type_hashes@.take(n as int) =~= self.type_hashes@);
        }
        if pos != self.data.len() {
            return Err(Error::CorruptData);
        }
        Ok(roots)
    }
}

proof fn lemma_first_unknown_at(classes: Seq<ClassDef>, hashes: Seq<u64>, i: int)
    requires
        0 <= i < hashes.len(),
        forall|j: int| 0 <= j < i ==> resolve_spec(classes, #[trigger] hashes[j]) is Some,
        resolve_spec(classes, hashes[i]) is None,
    ensures
        first_unknown(classes, hashes) == Some(hashes[i]),
    decreases i,
{
    if i == 0 {
    } else {
        assert(forall|j: int|
            0 <= j < i - 1 ==> hashes.drop_first()[j] == #[trigger] hashes[j + 1]);
        lemma_first_unknown_at(classes, hashes.drop_first(), i - 1);
    }
}

proof fn lemma_first_unknown_none(classes: Seq<ClassDef>, hashes: Seq<u64>)
    requires
        forall|j: int| 0 <= j < hashes.len() ==> resolve_spec(classes, #[trigger] hashes[j]) is Some,
    ensures
        first_unknown(classes, hashes) is None,
    decreases hashes.len(),
{
    if hashes.len() > 0 {
        assert(forall|j: int|
            0 <= j < hashes.len() - 1 ==> hashes.drop_first()[j] == #[trigger] hashes[j + 1]);
        lemma_first_unknown_none(classes, hashes.drop_first());
    }
}

/// The slot transition of one claim: out of bounds and already-empty
/// slots fail and leave the arena unchanged; a full slot is emptied and
/// its root handed over.
pub open spec fn claim_spec(slots: Seq<Option<RszRoot>>, i: int) -> (Seq<Option<RszRoot>>, Result<
    RszRoot,
    Error,
>) {
    if !(0 <= i < slots.len()) {
        (slots, Err(Error::IndexOutOfRange))
    } else {
        match slots[i] {
            None => (slots, Err(Error::AlreadyClaimed)),
            Some(root) => (slots.update(i, None), Ok(root)),
        }
    }
}

/// The arena of decoded roots. Each slot is taken at most once; after
/// all consumers have claimed, no slot may remain.
pub struct RootArena {
    slots: Vec<Option<RszRoot>>,
}

impl RootArena {
    pub closed spec fn slots_view(&self) -> Seq<Option<RszRoot>> {
        self.slots@
    }

    pub fn new(roots: Vec<RszRoot>) -> (r: RootArena)
        ensures
            r.slots_view().len() == roots@.len(),
            forall|i: int| 0 <= i < roots@.len() ==> r.slots_view()[i] == Some(roots@[i]),
    {
        let mut slots: Vec<Option<RszRoot>> = Vec::new();
        let mut rest = roots;
        let ghost all = rest@;
        proof {
            assert(all.skip(0) =~= all);
        }
        while rest.len() > 0
            invariant
                slots@.len() + rest@.len() == all.len(),
                rest@ =~= all.skip(slots@.len() as int),
                forall|j: int| 0 <= j < slots@.len() ==> slots@[j] == Some(all[j]),
            decreases rest@.len(),
        {
            let ghost k = slots@.len() as int;
            let v = rest.remove(0);
            assert(v == all[k]);
            slots.push(Some(v));
            proof {
                assert(all.skip(k).remove(0) =~= all.skip(k + 1));
            }
        }
        RootArena { slots }
    }

    /// Takes ownership of root `index`, exactly once.
    pub fn claim(&mut self, index: usize) -> (r: Result<RszRoot, Error>)
        ensures
            (final(self).slots_view(), r) == claim_spec(old(self).slots_view(), index as int),
    {
        if index >= self.slots.len() {
            return Err(Error::IndexOutOfRange);
        }
        let slot = self.slots.remove(index);
        match slot {
            None => {
                self.slots.insert(index, None);
                proof {
                    assert(self.slots@ =~= old(self).slots@);
                }
                Err(Error::AlreadyClaimed)
            },
            Some(root) => {
                self.slots.insert(index, None);
                proof {
                    assert(self.slots@ =~= old(self).slots@.update(index as int, None));
                }
                Ok(root)
            },
        }
    }

    /// After resolution every root must have found its one owner: `Ok`
    /// exactly when no slot is left, else `OrphanedRoot`.
    pub fn finish(&self) -> (r: Result<(), Error>)
        ensures
            match r {
                Ok(()) => forall|i: int|
                    0 <= i < self.slots_view().len() ==> self.slots_view()[i] is None,
                Err(e) => e == Error::OrphanedRoot && exists|i: int|
                    0 <= i < self.slots_view().len() && self.slots_view()[i] is Some,
            },
    {
        let mut i: usize = 0;
        while i < self.slots.len()
            invariant
                i <= self.slots@.len(),
                forall|j: int| 0 <= j < i ==> self.slots@[j] is None,
            decreases self.slots@.len() - i,
        {
            if self.slots[i].is_some() {
                return Err(Error::OrphanedRoot);
            }
            i = i + 1;
        }
        Ok(())
    }
}

/// Claiming a root a second time fails with `AlreadyClaimed`: after a
/// successful claim of slot `i`, the very same claim on the resulting
/// arena is refused and changes nothing.
pub proof fn lemma_claim_twice(slots: Seq<Option<RszRoot>>, i: int)
    requires
        claim_spec(slots, i).1 is Ok,
    ensures
        claim_spec(claim_spec(slots, i).0, i).1 == Err::<RszRoot, Error>(Error::AlreadyClaimed),
        claim_spec(claim_spec(slots, i).0, i).0 == claim_spec(slots, i).0,
{
}

} // verus!
