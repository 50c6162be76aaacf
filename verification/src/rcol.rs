//! The collision format: the representative consumer of an embedded
//! RSZ block. A file carries named collider groups (each collider with
//! two bone names, an attribute bit-mask and a shape), group-attachment
//! records, an attribute-name table, extra named records, and exactly
//! one RSZ block. Every collider and attachment starts out holding a
//! root index into that block; resolution claims each referenced root
//! exactly once, and a file that claims a root twice or strands one is
//! rejected.
use vstd::prelude::*;

use crate::bytes::{data_fits, le32_at, le64_at, lei32_at, read_i32, read_str, read_u32, read_u64,
    str_at, MAX_DATA};
use crate::registry::Registry;
use crate::rsz::{claim_spec, first_unknown, roots_match, rsz_data_start, rsz_header_ok, RootArena,
    Rsz, RszRoot};
use crate::shape::{Point, Shape, COORD_BOUND};
use crate::Error;

verus! {

/// A lazy reference to one RSZ root: first the root's index, then, once
/// the block is deserialized and the root claimed, the owned value.
#[derive(Debug)]
pub enum UserData {
    RszRootIndex(usize),
    Data(RszRoot),
}

impl UserData {
    /// The root index a still-unresolved reference carries.
    pub open spec fn index_of(&self) -> int {
        match *self {
            UserData::RszRootIndex(i) => i as int,
            UserData::Data(_) => -1,
        }
    }

    /// Claims this reference's root from the arena, converting it in
    /// place; a second claim of the same root fails.
    pub fn accept(&mut self, arena: &mut RootArena) -> (r: Result<(), Error>)
        requires
            *old(self) is RszRootIndex,
        ensures
            final(arena).slots_view() == claim_spec(
                old(arena).slots_view(),
                old(self).index_of(),
            ).0,
            match r {
                Ok(()) => claim_spec(old(arena).slots_view(), old(self).index_of()).1 matches Ok(
                    root,
                ) && *final(self) == UserData::Data(root),
                Err(e) => claim_spec(old(arena).slots_view(), old(self).index_of()).1 == Err::<
                    RszRoot,
                    Error,
                >(e) && *final(self) == *old(self),
            },
    {
        match self {
            UserData::RszRootIndex(i) => {
                let index = *i;
                match arena.claim(index) {
                    Ok(root) => {
                        *self = UserData::Data(root);
                        Ok(())
                    },
                    Err(e) => Err(e),
                }
            },
            UserData::Data(_) => {
                proof {
                    assert(false);
                }
                Err(Error::AlreadyClaimed)
            },
        }
    }
}

pub struct Collider {
    pub name: String,
    pub bone_a: String,
    pub bone_b: String,
    pub shape: Shape,
    pub user_data: UserData,
    pub attribute_bits: u32,
}

pub struct ColliderGroup {
    pub name: String,
    pub colliders: Vec<Collider>,
}

pub struct GroupAttachment {
    pub user_data: UserData,
    pub name: String,
    pub name_b: String,
    pub p: u32,
    pub collider_group_index: usize,
    pub r: u64,
}

pub struct E {
    pub name: String,
}

pub struct Rcol {
    pub rsz: Rsz,
    pub collider_groups: Vec<ColliderGroup>,
    pub attributes: Vec<String>,
    pub group_attachments: Vec<GroupAttachment>,
    pub es: Vec<E>,
}

/// Attribute bits must stay below the declared attribute count.
pub open spec fn attr_bits_ok(bits: u32, acount: u32) -> bool {
    acount >= 32 || bits >> acount == 0
}

pub open spec fn coord_ok(v: i32) -> bool {
    -COORD_BOUND <= v <= COORD_BOUND
}

pub open spec fn radius_ok(v: i32) -> bool {
    1 <= v <= COORD_BOUND
}

pub open spec fn sphere_ok(s: Seq<u8>, pp: int) -> bool {
    &&& coord_ok(lei32_at(s, pp))
    &&& coord_ok(lei32_at(s, pp + 4))
    &&& coord_ok(lei32_at(s, pp + 8))
    &&& radius_ok(lei32_at(s, pp + 12))
}

pub open spec fn capsule_ok(s: Seq<u8>, pp: int) -> bool {
    &&& coord_ok(lei32_at(s, pp))
    &&& coord_ok(lei32_at(s, pp + 4))
    &&& coord_ok(lei32_at(s, pp + 8))
    &&& coord_ok(lei32_at(s, pp + 12))
    &&& coord_ok(lei32_at(s, pp + 16))
    &&& coord_ok(lei32_at(s, pp + 20))
    &&& radius_ok(lei32_at(s, pp + 24))
}

/// Where one collider record ends: three strings, twelve fixed bytes,
/// then a shape payload picked by the shape tag (an unknown tag keeps a
/// fixed-size opaque payload and is not an error).
pub open spec fn can_parse_collider(s: Seq<u8>, pos: int, acount: u32) -> Option<int> {
    match str_at(s, pos) {
        None => None,
        Some((_, p1)) => match str_at(s, p1) {
            None => None,
            Some((_, p2)) => match str_at(s, p2) {
                None => None,
                Some((_, p3)) => {
                    if p3 + 12 > s.len() {
                        None
                    } else if !attr_bits_ok(le32_at(s, p3), acount) {
                        None
                    } else {
                        let st = le32_at(s, p3 + 8);
                        let pp = p3 + 12;
                        if st == 1 {
                            if pp + 16 <= s.len() && sphere_ok(s, pp) {
                                Some(pp + 16)
                            } else {
                                None
                            }
                        } else if st == 3 {
                            if pp + 28 <= s.len() && capsule_ok(s, pp) {
                                Some(pp + 28)
                            } else {
                                None
                            }
                        } else {
                            if pp + 16 <= s.len() {
                                Some(pp + 16)
                            } else {
                                None
                            }
                        }
                    }
                },
            },
        },
    }
}

pub open spec fn collider_matches(s: Seq<u8>, pos: int, acount: u32, c: &Collider) -> bool {
    match str_at(s, pos) {
        None => false,
        Some((cs0, p1)) => match str_at(s, p1) {
            None => false,
            Some((cs1, p2)) => match str_at(s, p2) {
                None => false,
                Some((cs2, p3)) => {
                    let pp = p3 + 12;
                    let st = le32_at(s, p3 + 8);
                    &&& c.name@ == cs0
                    &&& c.bone_a@ == cs1
                    &&& c.bone_b@ == cs2
                    &&& c.attribute_bits == le32_at(s, p3)
                    &&& attr_bits_ok(c.attribute_bits, acount)
                    &&& c.user_data matches UserData::RszRootIndex(i) && i == le32_at(
                        s,
                        p3 + 4,
                    ) as usize
                    &&& if st == 1 {
                        c.shape == (Shape::Sphere {
                            p: Point {
                                x: lei32_at(s, pp),
                                y: lei32_at(s, pp + 4),
                                z: lei32_at(s, pp + 8),
                            },
                            r: lei32_at(s, pp + 12),
                        })
                    } else if st == 3 {
                        c.shape == (Shape::Capsule {
                            p0: Point {
                                x: lei32_at(s, pp),
                                y: lei32_at(s, pp + 4),
                                z: lei32_at(s, pp + 8),
                            },
                            p1: Point {
                                x: lei32_at(s, pp + 12),
                                y: lei32_at(s, pp + 16),
                                z: lei32_at(s, pp + 20),
                            },
                            r: lei32_at(s, pp + 24),
                        })
                    } else {
                        c.shape == Shape::Unknown
                    }
                },
            },
        },
    }
}

pub open spec fn can_parse_colliders(s: Seq<u8>, pos: int, n: nat, acount: u32) -> Option<int>
    decreases n,
{
    if n == 0 {
        Some(pos)
    } else {
        match can_parse_collider(s, pos, acount) {
            Some(p1) => can_parse_colliders(s, p1, (n - 1) as nat, acount),
            None => None,
        }
    }
}

pub open spec fn colliders_match(
    s: Seq<u8>,
    pos: int,
    n: nat,
    acount: u32,
    cs: Seq<Collider>,
) -> bool
    decreases n,
{
    if n == 0 {
        cs.len() == 0
    } else {
        &&& cs.len() == n
        &&& collider_matches(s, pos, acount, &cs[0])
        &&& match can_parse_collider(s, pos, acount) {
            Some(p1) => colliders_match(s, p1, (n - 1) as nat, acount, cs.drop_first()),
            None => false,
        }
    }
}

pub open spec fn can_parse_group(s: Seq<u8>, pos: int, acount: u32) -> Option<int> {
    match str_at(s, pos) {
        None => None,
        Some((_, p1)) => if p1 + 4 > s.len() {
            None
        } else {
            can_parse_colliders(s, p1 + 4, le32_at(s, p1) as nat, acount)
        },
    }
}

pub open spec fn group_matches(s: Seq<u8>, pos: int, acount: u32, g: &ColliderGroup) -> bool {
    match str_at(s, pos) {
        None => false,
        Some((cs0, p1)) => {
            &&& g.name@ == cs0
            &&& p1 + 4 <= s.len()
            &&& colliders_match(s, p1 + 4, le32_at(s, p1) as nat, acount, g.colliders@)
        },
    }
}

pub open spec fn can_parse_groups(s: Seq<u8>, pos: int, n: nat, acount: u32) -> Option<int>
    decreases n,
{
    if n == 0 {
        Some(pos)
    } else {
        match can_parse_group(s, pos, acount) {
            Some(p1) => can_parse_groups(s, p1, (n - 1) as nat, acount),
            None => None,
        }
    }
}

pub open spec fn groups_match(
    s: Seq<u8>,
    pos: int,
    n: nat,
    acount: u32,
    gs: Seq<ColliderGroup>,
) -> bool
    decreases n,
{
    if n == 0 {
        gs.len() == 0
    } else {
        &&& gs.len() == n
        &&& group_matches(s, pos, acount, &gs[0])
        &&& match can_parse_group(s, pos, acount) {
            Some(p1) => groups_match(s, p1, (n - 1) as nat, acount, gs.drop_first()),
            None => false,
        }
    }
}

/// Two strings, then `p`, an opaque 64-bit value, the collider-group
/// index (bounded by the group count) and the RSZ root index.
pub open spec fn can_parse_attachment(s: Seq<u8>, pos: int, gcount: u32) -> Option<int> {
    match str_at(s, pos) {
        None => None,
        Some((_, p1)) => match str_at(s, p1) {
            None => None,
            Some((_, p2)) => {
                if p2 + 20 > s.len() {
                    None
                } else if le32_at(s, p2 + 12) >= gcount {
                    None
                } else {
                    Some(p2 + 20)
                }
            },
        },
    }
}

pub open spec fn attachment_matches(s: Seq<u8>, pos: int, gcount: u32, a: &GroupAttachment) -> bool {
    match str_at(s, pos) {
        None => false,
        Some((cs0, p1)) => match str_at(s, p1) {
            None => false,
            Some((cs1, p2)) => {
                &&& a.name@ == cs0
                &&& a.name_b@ == cs1
                &&& p2 + 20 <= s.len()
                &&& a.p == le32_at(s, p2)
                &&& a.r == le64_at(s, p2 + 4)
                &&& a.collider_group_index == le32_at(s, p2 + 12) as usize
                &&& a.collider_group_index < gcount
                &&& a.user_data matches UserData::RszRootIndex(i) && i == le32_at(
                    s,
                    p2 + 16,
                ) as usize
            },
        },
    }
}

pub open spec fn can_parse_attachments(s: Seq<u8>, pos: int, n: nat, gcount: u32) -> Option<int>
    decreases n,
{
    if n == 0 {
        Some(pos)
    } else {
        match can_parse_attachment(s, pos, gcount) {
            Some(p1) => can_parse_attachments(s, p1, (n - 1) as nat, gcount),
            None => None,
        }
    }
}

pub open spec fn attachments_match(
    s: Seq<u8>,
    pos: int,
    n: nat,
    gcount: u32,
    atts: Seq<GroupAttachment>,
) -> bool
    decreases n,
{
    if n == 0 {
        atts.len() == 0
    } else {
        &&& atts.len() == n
        &&& attachment_matches(s, pos, gcount, &atts[0])
        &&& match can_parse_attachment(s, pos, gcount) {
            Some(p1) => attachments_match(s, p1, (n - 1) as nat, gcount, atts.drop_first()),
            None => false,
        }
    }
}

pub open spec fn can_parse_strs(s: Seq<u8>, pos: int, n: nat) -> Option<int>
    decreases n,
{
    if n == 0 {
        Some(pos)
    } else {
        match str_at(s, pos) {
            Some((_, p1)) => can_parse_strs(s, p1, (n - 1) as nat),
            None => None,
        }
    }
}

pub open spec fn strs_match(s: Seq<u8>, pos: int, n: nat, vs: Seq<String>) -> bool
    decreases n,
{
    if n == 0 {
        vs.len() == 0
    } else {
        &&& vs.len() == n
        &&& match str_at(s, pos) {
            Some((cs, p1)) => vs[0]@ == cs && strs_match(s, p1, (n - 1) as nat, vs.drop_first()),
            None => false,
        }
    }
}

/// The values of a run of strings, as character sequences, with the
/// position after the run.
pub open spec fn strs_at(s: Seq<u8>, pos: int, n: nat) -> Option<(Seq<Seq<char>>, int)>
    decreases n,
{
    if n == 0 {
        Some((Seq::empty(), pos))
    } else {
        match str_at(s, pos) {
            None => None,
            Some((cs, p1)) => match strs_at(s, p1, (n - 1) as nat) {
                None => None,
                Some((rest, end)) => Some((seq![cs] + rest, end)),
            },
        }
    }
}

/// A parsed string list carries exactly the values `strs_at` names.
pub proof fn lemma_strs_match_at(s: Seq<u8>, pos: int, n: nat, vs: Seq<String>)
    requires
        strs_match(s, pos, n, vs),
    ensures
        strs_at(s, pos, n) matches Some((names, end)) && names.len() == n && (forall|k: int|
            0 <= k < n ==> names[k] == (#[trigger] vs[k])@) && can_parse_strs(s, pos, n) == Some(
            end,
        ),
    decreases n,
{
    if n > 0 {
        match str_at(s, pos) {
            Some((cs, p1)) => {
                lemma_strs_match_at(s, p1, (n - 1) as nat, vs.drop_first());
                let (rest, end) = strs_at(s, p1, (n - 1) as nat)->Some_0;
                assert(strs_at(s, pos, n) == Some((seq![cs] + rest, end)));
                assert forall|k: int| 0 <= k < n implies (seq![cs] + rest)[k] == (
                #[trigger] vs[k])@ by {
                    if k > 0 {
                        assert(rest[k - 1] == vs.drop_first()[k - 1]@);
                    }
                }
            },
            None => {},
        }
    }
}

/// Header accessors: magic "RCOL", then the five counts.
pub open spec fn rc_group_count(s: Seq<u8>) -> u32 {
    le32_at(s, 4)
}

pub open spec fn rc_attachment_count(s: Seq<u8>) -> u32 {
    le32_at(s, 8)
}

pub open spec fn rc_attribute_count(s: Seq<u8>) -> u32 {
    le32_at(s, 12)
}

pub open spec fn rc_e_count(s: Seq<u8>) -> u32 {
    le32_at(s, 16)
}

pub open spec fn rc_rsz_len(s: Seq<u8>) -> int {
    le32_at(s, 20) as int
}

pub open spec fn rcol_header_ok(s: Seq<u8>) -> bool {
    &&& data_fits(s)
    &&& s.len() >= 24
    &&& s[0] == 0x52
    &&& s[1] == 0x43
    &&& s[2] == 0x4f
    &&& s[3] == 0x4c
    &&& rc_attribute_count(s) <= 32
}

/// The whole file body parses: attribute names, extra records, groups
/// and attachments in sequence, and the RSZ block fills the rest of the
/// file exactly.
pub open spec fn rcol_parseable(s: Seq<u8>) -> bool {
    &&& rcol_header_ok(s)
    &&& match can_parse_strs(s, 24, rc_attribute_count(s) as nat) {
        None => false,
        Some(p_attr) => match can_parse_strs(s, p_attr, rc_e_count(s) as nat) {
            None => false,
            Some(p_e) => match can_parse_groups(
                s,
                p_e,
                rc_group_count(s) as nat,
                rc_attribute_count(s),
            ) {
                None => false,
                Some(p_g) => match can_parse_attachments(
                    s,
                    p_g,
                    rc_attachment_count(s) as nat,
                    rc_group_count(s),
                ) {
                    None => false,
                    Some(p_a) => {
                        &&& p_a + rc_rsz_len(s) == s.len()
                        &&& rsz_header_ok(s.subrange(p_a, s.len() as int), p_a)
                    },
                },
            },
        },
    }
}

/// The parsed structure a file's bytes dictate, with every user-data
/// reference still a raw root index.
pub open spec fn rcol_matches(s: Seq<u8>, rc: &Rcol) -> bool {
    &&& rcol_header_ok(s)
    &&& match can_parse_strs(s, 24, rc_attribute_count(s) as nat) {
        None => false,
        Some(p_attr) => {
            &&& strs_match(s, 24, rc_attribute_count(s) as nat, rc.attributes@)
            &&& match can_parse_strs(s, p_attr, rc_e_count(s) as nat) {
                None => false,
                Some(p_e) => {
                    &&& es_match(s, p_attr, rc_e_count(s) as nat, rc.es@)
                    &&& match can_parse_groups(
                        s,
                        p_e,
                        rc_group_count(s) as nat,
                        rc_attribute_count(s),
                    ) {
                        None => false,
                        Some(p_g) => {
                            &&& groups_match(
                                s,
                                p_e,
                                rc_group_count(s) as nat,
                                rc_attribute_count(s),
                                rc.collider_groups@,
                            )
                            &&& match can_parse_attachments(
                                s,
                                p_g,
                                rc_attachment_count(s) as nat,
                                rc_group_count(s),
                            ) {
                                None => false,
                                Some(p_a) => {
                                    &&& attachments_match(
                                        s,
                                        p_g,
                                        rc_attachment_count(s) as nat,
                                        rc_group_count(s),
                                        rc.group_attachments@,
                                    )
                                    &&& p_a + rc_rsz_len(s) == s.len()
                                    &&& rsz_block_matches(
                                        s.subrange(p_a, s.len() as int),
                                        p_a,
                                        &rc.rsz,
                                    )
                                },
                            }
                        },
                    }
                },
            }
        },
    }
}

/// What `Rsz::new` guarantees of the block it parsed, restated over the
/// block's bytes.
pub open spec fn rsz_block_matches(b: Seq<u8>, base: int, rsz: &Rsz) -> bool {
    &&& rsz_header_ok(b, base)
    &&& rsz.type_hashes@.len() == crate::rsz::rsz_root_count(b)
    &&& forall|i: int|
        0 <= i < crate::rsz::rsz_root_count(b) ==> rsz.type_hashes@[i] == crate::rsz::rsz_root_hash(
            b,
            i,
        )
    &&& rsz.data@ == b.subrange(rsz_data_start(b), b.len() as int)
    &&& rsz.data_base == base + rsz_data_start(b)
}

pub open spec fn es_match(s: Seq<u8>, pos: int, n: nat, es: Seq<E>) -> bool
    decreases n,
{
    if n == 0 {
        es.len() == 0
    } else {
        &&& es.len() == n
        &&& match str_at(s, pos) {
            Some((cs, p1)) => es[0].name@ == cs && es_match(s, p1, (n - 1) as nat, es.drop_first()),
            None => false,
        }
    }
}

impl Rcol {
    /// Every collider shape is within the fixed-point range, every
    /// attachment's group index in bounds.
    pub open spec fn shapes_wf(&self) -> bool {
        forall|gi: int, cj: int|
            0 <= gi < self.collider_groups@.len() && 0 <= cj
                < self.collider_groups@[gi].colliders@.len()
                ==> (#[trigger] self.collider_groups@[gi].colliders@[cj]).shape.wf()
    }

    pub open spec fn att_groups_ok(&self) -> bool {
        forall|i: int|
            0 <= i < self.group_attachments@.len()
                ==> (#[trigger] self.group_attachments@[i]).collider_group_index
                < self.collider_groups@.len()
    }

    /// All user-data references still raw root indices.
    pub open spec fn unresolved(&self) -> bool {
        &&& forall|i: int|
            0 <= i < self.group_attachments@.len()
                ==> (#[trigger] self.group_attachments@[i]).user_data is RszRootIndex
        &&& forall|gi: int, cj: int|
            0 <= gi < self.collider_groups@.len() && 0 <= cj
                < self.collider_groups@[gi].colliders@.len()
                ==> (#[trigger] self.collider_groups@[gi].colliders@[cj]).user_data is RszRootIndex
    }

    /// All user-data references resolved into owned values.
    pub open spec fn resolved(&self) -> bool {
        &&& forall|i: int|
            0 <= i < self.group_attachments@.len()
                ==> (#[trigger] self.group_attachments@[i]).user_data is Data
        &&& forall|gi: int, cj: int|
            0 <= gi < self.collider_groups@.len() && 0 <= cj
                < self.collider_groups@[gi].colliders@.len()
                ==> (#[trigger] self.collider_groups@[gi].colliders@[cj]).user_data is Data
    }

    pub open spec fn att_index(&self, i: int) -> int {
        self.group_attachments@[i].user_data.index_of()
    }

    pub open spec fn col_index(&self, gi: int, cj: int) -> int {
        self.collider_groups@[gi].colliders@[cj].user_data.index_of()
    }

    /// No two user-data references name the same root.
    pub open spec fn indices_distinct(&self) -> bool {
        &&& forall|i1: int, i2: int|
            0 <= i1 < i2 < self.group_attachments@.len() ==> self.att_index(i1) != self.att_index(
                i2,
            )
        &&& forall|i: int, gi: int, cj: int|
            0 <= i < self.group_attachments@.len() && 0 <= gi < self.collider_groups@.len() && 0
                <= cj < self.collider_groups@[gi].colliders@.len() ==> self.att_index(i)
                != self.col_index(gi, cj)
        &&& forall|g1: int, c1: int, g2: int, c2: int|
            0 <= g1 < self.collider_groups@.len() && 0 <= c1
                < self.collider_groups@[g1].colliders@.len() && 0 <= g2
                < self.collider_groups@.len() && 0 <= c2
                < self.collider_groups@[g2].colliders@.len() && (g1 != g2 || c1 != c2)
                ==> self.col_index(g1, c1) != self.col_index(g2, c2)
    }

    /// Every user-data reference points below `n`.
    pub open spec fn indices_bounded(&self, n: int) -> bool {
        &&& forall|i: int|
            0 <= i < self.group_attachments@.len() ==> 0 <= #[trigger] self.att_index(i) < n
        &&& forall|gi: int, cj: int|
            0 <= gi < self.collider_groups@.len() && 0 <= cj
                < self.collider_groups@[gi].colliders@.len() ==> 0 <= #[trigger] self.col_index(
                gi,
                cj,
            ) < n
    }

    /// Root `j` is referenced by some collider or attachment.
    pub open spec fn index_covered(&self, j: int) -> bool {
        ||| exists|i: int| 0 <= i < self.group_attachments@.len() && self.att_index(i) == j
        ||| exists|gi: int, cj: int|
            0 <= gi < self.collider_groups@.len() && 0 <= cj
                < self.collider_groups@[gi].colliders@.len() && self.col_index(gi, cj) == j
    }
}

/// Attachment fields other than the user-data reference.
pub open spec fn att_shell_eq(a: &GroupAttachment, b: &GroupAttachment) -> bool {
    &&& a.name == b.name
    &&& a.name_b == b.name_b
    &&& a.p == b.p
    &&& a.r == b.r
    &&& a.collider_group_index == b.collider_group_index
}

/// Collider fields other than the user-data reference.
pub open spec fn col_shell_eq(a: &Collider, b: &Collider) -> bool {
    &&& a.name == b.name
    &&& a.bone_a == b.bone_a
    &&& a.bone_b == b.bone_b
    &&& a.shape == b.shape
    &&& a.attribute_bits == b.attribute_bits
}

/// What resolution leaves behind when it succeeds: the same structure,
/// with each reference replaced by the root it named.
pub open spec fn resolved_values(rc0: &Rcol, rc1: &Rcol, roots: Seq<RszRoot>) -> bool {
    &&& rc1.rsz == rc0.rsz
    &&& rc1.attributes == rc0.attributes
    &&& rc1.es == rc0.es
    &&& rc1.group_attachments@.len() == rc0.group_attachments@.len()
    &&& forall|i: int|
        0 <= i < rc0.group_attachments@.len() ==> att_shell_eq(
            &rc0.group_attachments@[i],
            &rc1.group_attachments@[i],
        ) && (#[trigger] rc1.group_attachments@[i]).user_data == UserData::Data(
            roots[rc0.att_index(i)],
        )
    &&& rc1.collider_groups@.len() == rc0.collider_groups@.len()
    &&& forall|gi: int|
        0 <= gi < rc0.collider_groups@.len() ==> (#[trigger] rc1.collider_groups@[gi]).name
            == rc0.collider_groups@[gi].name && rc1.collider_groups@[gi].colliders@.len()
            == rc0.collider_groups@[gi].colliders@.len()
    &&& forall|gi: int, cj: int|
        0 <= gi < rc0.collider_groups@.len() && 0 <= cj
            < rc0.collider_groups@[gi].colliders@.len() ==> col_shell_eq(
            &rc0.collider_groups@[gi].colliders@[cj],
            &rc1.collider_groups@[gi].colliders@[cj],
        ) && (#[trigger] rc1.collider_groups@[gi].colliders@[cj]).user_data == UserData::Data(
            roots[rc0.col_index(gi, cj)],
        )
}

/// Resolution succeeded: the block's roots decoded, every reference in
/// range, no two references to one root, no root unreferenced, and the
/// values distributed as `resolved_values` says.
pub open spec fn resolve_rel(rc0: &Rcol, rc1: &Rcol, reg: Seq<crate::registry::ClassDef>) -> bool {
    exists|roots: Seq<RszRoot>|
        {
            &&& roots_match(
                rc0.rsz.data@,
                rc0.rsz.data_base as int,
                0,
                reg,
                rc0.rsz.type_hashes@,
                roots,
                rc0.rsz.data@.len() as int,
            )
            &&& rc0.indices_bounded(roots.len() as int)
            &&& rc0.indices_distinct()
            &&& forall|j: int| 0 <= j < roots.len() ==> rc0.index_covered(j)
            &&& resolved_values(rc0, rc1, roots)
        }
}

/// Why resolution failed: an unknown type tag, a corrupt data section,
/// a reference out of range, a root claimed twice, or a root orphaned.
pub open spec fn resolve_err(rc0: &Rcol, reg: Seq<crate::registry::ClassDef>, e: Error) -> bool {
    match e {
        Error::UnknownType(h) => first_unknown(reg, rc0.rsz.type_hashes@) == Some(h),
        Error::CorruptData => first_unknown(reg, rc0.rsz.type_hashes@) is None
            && crate::rsz::can_parse_roots(
            rc0.rsz.data@,
            rc0.rsz.data_base as int,
            0,
            reg,
            rc0.rsz.type_hashes@,
        ) != Some(rc0.rsz.data@.len() as int),
        Error::IndexOutOfRange => exists|roots: Seq<RszRoot>|
            roots_match(
                rc0.rsz.data@,
                rc0.rsz.data_base as int,
                0,
                reg,
                rc0.rsz.type_hashes@,
                roots,
                rc0.rsz.data@.len() as int,
            ) && !rc0.indices_bounded(roots.len() as int),
        Error::AlreadyClaimed => !rc0.indices_distinct(),
        Error::OrphanedRoot => exists|roots: Seq<RszRoot>|
            roots_match(
                rc0.rsz.data@,
                rc0.rsz.data_base as int,
                0,
                reg,
                rc0.rsz.type_hashes@,
                roots,
                rc0.rsz.data@.len() as int,
            ) && exists|j: int| 0 <= j < roots.len() && !rc0.index_covered(j),
        _ => false,
    }
}

pub fn parse_strs(data: &[u8], pos: usize, n: u32) -> (r: Result<(Vec<String>, usize), Error>)
    requires
        data_fits(data@),
        pos <= data@.len(),
    ensures
        match r {
            Ok((vs, end)) => {
                &&& can_parse_strs(data@, pos as int, n as nat) == Some(end as int)
                &&& strs_match(data@, pos as int, n as nat, vs@)
                &&& pos <= end <= data@.len()
            },
            Err(e) => e == Error::CorruptData && can_parse_strs(data@, pos as int, n as nat)
                is None,
        },
    decreases n,
{
    if n == 0 {
        return Ok((Vec::new(), pos));
    }
    let (st, p1) = match read_str(data, pos) {
        Ok(x) => x,
        Err(e) => return Err(e),
    };
    let (mut vs, end) = match parse_strs(data, p1, n - 1) {
        Ok(x) => x,
        Err(e) => return Err(e),
    };
    let ghost tail = vs@;
    vs.insert(0, st);
    proof {
        assert(vs@.drop_first() =~= tail);
    }
    Ok((vs, end))
}

fn parse_es(data: &[u8], pos: usize, n: u32) -> (r: Result<(Vec<E>, usize), Error>)
    requires
        data_fits(data@),
        pos <= data@.len(),
    ensures
        match r {
            Ok((vs, end)) => {
                &&& can_parse_strs(data@, pos as int, n as nat) == Some(end as int)
                &&& es_match(data@, pos as int, n as nat, vs@)
                &&& pos <= end <= data@.len()
            },
            Err(e) => e == Error::CorruptData && can_parse_strs(data@, pos as int, n as nat)
                is None,
        },
    decreases n,
{
    if n == 0 {
        return Ok((Vec::new(), pos));
    }
    let (st, p1) = match read_str(data, pos) {
        Ok(x) => x,
        Err(e) => return Err(e),
    };
    let (mut vs, end) = match parse_es(data, p1, n - 1) {
        Ok(x) => x,
        Err(e) => return Err(e),
    };
    let ghost tail = vs@;
    vs.insert(0, E { name: st });
    proof {
        assert(vs@.drop_first() =~= tail);
    }
    Ok((vs, end))
}

fn parse_collider(data: &[u8], pos: usize, acount: u32) -> (r: Result<(Collider, usize), Error>)
    requires
        data_fits(data@),
        pos <= data@.len(),
    ensures
        match r {
            Ok((c, end)) => {
                &&& can_parse_collider(data@, pos as int, acount) == Some(end as int)
                &&& collider_matches(data@, pos as int, acount, &c)
                &&& c.shape.wf()
                &&& c.user_data is RszRootIndex
                &&& pos <= end <= data@.len()
            },
            Err(e) => e == Error::CorruptData && can_parse_collider(data@, pos as int, acount)
                is None,
        },
{
    let (name, p1) = match read_str(data, pos) {
        Ok(x) => x,
        Err(e) => return Err(e),
    };
    let (bone_a, p2) = match read_str(data, p1) {
        Ok(x) => x,
        Err(e) => return Err(e),
    };
    let (bone_b, p3) = match read_str(data, p2) {
        Ok(x) => x,
        Err(e) => return Err(e),
    };
    if p3 + 12 > data.len() {
        return Err(Error::CorruptData);
    }
    let bits = read_u32(data, p3);
    if !(acount >= 32 || bits >> acount == 0) {
        return Err(Error::CorruptData);
    }
    let root_index = read_u32(data, p3 + 4) as usize;
    let st = read_u32(data, p3 + 8);
    let pp = p3 + 12;
    let shape: Shape;
    let end: usize;
    if st == 1 {
        if pp + 16 > data.len() {
            return Err(Error::CorruptData);
        }
        let x = read_i32(data, pp);
        let y = read_i32(data, pp + 4);
        let z = read_i32(data, pp + 8);
        let rr = read_i32(data, pp + 12);
        if !(-COORD_BOUND <= x && x <= COORD_BOUND && -COORD_BOUND <= y && y <= COORD_BOUND
            && -COORD_BOUND <= z && z <= COORD_BOUND && 1 <= rr && rr <= COORD_BOUND) {
            return Err(Error::CorruptData);
        }
        shape = Shape::Sphere { p: Point { x, y, z }, r: rr };
        end = pp + 16;
    } else if st == 3 {
        if pp + 28 > data.len() {
            return Err(Error::CorruptData);
        }
        let x0 = read_i32(data, pp);
        let y0 = read_i32(data, pp + 4);
        let z0 = read_i32(data, pp + 8);
        let x1 = read_i32(data, pp + 12);
        let y1 = read_i32(data, pp + 16);
        let z1 = read_i32(data, pp + 20);
        let rr = read_i32(data, pp + 24);
        if !(-COORD_BOUND <= x0 && x0 <= COORD_BOUND && -COORD_BOUND <= y0 && y0 <= COORD_BOUND
            && -COORD_BOUND <= z0 && z0 <= COORD_BOUND && -COORD_BOUND <= x1 && x1 <= COORD_BOUND
            && -COORD_BOUND <= y1 && y1 <= COORD_BOUND && -COORD_BOUND <= z1 && z1 <= COORD_BOUND
            && 1 <= rr && rr <= COORD_BOUND) {
            return Err(Error::CorruptData);
        }
        shape = Shape::Capsule {
            p0: Point { x: x0, y: y0, z: z0 },
            p1: Point { x: x1, y: y1, z: z1 },
            r: rr,
        };
        end = pp + 28;
    } else {
        if pp + 16 > data.len() {
            return Err(Error::CorruptData);
        }
        shape = Shape::Unknown;
        end = pp + 16;
    }
    Ok(
        (
            Collider {
                name,
                bone_a,
                bone_b,
                shape,
                user_data: UserData::RszRootIndex(root_index),
                attribute_bits: bits,
            },
            end,
        ),
    )
}

fn parse_colliders(data: &[u8], pos: usize, n: u32, acount: u32) -> (r: Result<
    (Vec<Collider>, usize),
    Error,
>)
    requires
        data_fits(data@),
        pos <= data@.len(),
    ensures
        match r {
            Ok((cs, end)) => {
                &&& can_parse_colliders(data@, pos as int, n as nat, acount) == Some(end as int)
                &&& colliders_match(data@, pos as int, n as nat, acount, cs@)
                &&& forall|i: int|
                    0 <= i < cs@.len() ==> (#[trigger] cs@[i]).shape.wf() && cs@[i].user_data
                        is RszRootIndex
                &&& pos <= end <= data@.len()
            },
            Err(e) => e == Error::CorruptData && can_parse_colliders(
                data@,
                pos as int,
                n as nat,
                acount,
            ) is None,
        },
    decreases n,
{
    if n == 0 {
        return Ok((Vec::new(), pos));
    }
    let (c, p1) = match parse_collider(data, pos, acount) {
        Ok(x) => x,
        Err(e) => return Err(e),
    };
    let (mut cs, end) = match parse_colliders(data, p1, n - 1, acount) {
        Ok(x) => x,
        Err(e) => return Err(e),
    };
    let ghost tail = cs@;
    cs.insert(0, c);
    proof {
        assert(cs@.drop_first() =~= tail);
    }
    Ok((cs, end))
}

fn parse_group(data: &[u8], pos: usize, acount: u32) -> (r: Result<(ColliderGroup, usize), Error>)
    requires
        data_fits(data@),
        pos <= data@.len(),
    ensures
        match r {
            Ok((g, end)) => {
                &&& can_parse_group(data@, pos as int, acount) == Some(end as int)
                &&& group_matches(data@, pos as int, acount, &g)
                &&& forall|i: int|
                    0 <= i < g.colliders@.len() ==> (#[trigger] g.colliders@[i]).shape.wf()
                        && g.colliders@[i].user_data is RszRootIndex
                &&& pos <= end <= data@.len()
            },
            Err(e) => e == Error::CorruptData && can_parse_group(data@, pos as int, acount)
                is None,
        },
{
    let (name, p1) = match read_str(data, pos) {
        Ok(x) => x,
        Err(e) => return Err(e),
    };
    if p1 + 4 > data.len() {
        return Err(Error::CorruptData);
    }
    let n = read_u32(data, p1);
    let (colliders, end) = match parse_colliders(data, p1 + 4, n, acount) {
        Ok(x) => x,
        Err(e) => return Err(e),
    };
    Ok((ColliderGroup { name, colliders }, end))
}

fn parse_groups(data: &[u8], pos: usize, n: u32, acount: u32) -> (r: Result<
    (Vec<ColliderGroup>, usize),
    Error,
>)
    requires
        data_fits(data@),
        pos <= data@.len(),
    ensures
        match r {
            Ok((gs, end)) => {
                &&& can_parse_groups(data@, pos as int, n as nat, acount) == Some(end as int)
                &&& groups_match(data@, pos as int, n as nat, acount, gs@)
                &&& forall|gi: int, cj: int|
                    0 <= gi < gs@.len() && 0 <= cj < gs@[gi].colliders@.len() ==> (
                    #[trigger] gs@[gi].colliders@[cj]).shape.wf() && gs@[gi].colliders@[cj].user_data
                        is RszRootIndex
                &&& pos <= end <= data@.len()
            },
            Err(e) => e == Error::CorruptData && can_parse_groups(
                data@,
                pos as int,
                n as nat,
                acount,
            ) is None,
        },
    decreases n,
{
    if n == 0 {
        return Ok((Vec::new(), pos));
    }
    let (g, p1) = match parse_group(data, pos, acount) {
        Ok(x) => x,
        Err(e) => return Err(e),
    };
    let (mut gs, end) = match parse_groups(data, p1, n - 1, acount) {
        Ok(x) => x,
        Err(e) => return Err(e),
    };
    let ghost tail = gs@;
    gs.insert(0, g);
    proof {
        assert(gs@.drop_first() =~= tail);
        assert(forall|gi: int, cj: int|
            0 <= gi < gs@.len() && 0 <= cj < gs@[gi].colliders@.len() ==> (
            #[trigger] gs@[gi].colliders@[cj]).shape.wf() && gs@[gi].colliders@[cj].user_data
                is RszRootIndex) by {
            assert(forall|gi: int| 1 <= gi < gs@.len() ==> gs@[gi] == tail[gi - 1]);
        }
    }
    Ok((gs, end))
}

fn parse_attachment(data: &[u8], pos: usize, gcount: u32) -> (r: Result<
    (GroupAttachment, usize),
    Error,
>)
    requires
        data_fits(data@),
        pos <= data@.len(),
    ensures
        match r {
            Ok((a, end)) => {
                &&& can_parse_attachment(data@, pos as int, gcount) == Some(end as int)
                &&& attachment_matches(data@, pos as int, gcount, &a)
                &&& a.user_data is RszRootIndex
                &&& a.collider_group_index < gcount
                &&& pos <= end <= data@.len()
            },
            Err(e) => e == Error::CorruptData && can_parse_attachment(data@, pos as int, gcount)
                is None,
        },
{
    let (name, p1) = match read_str(data, pos) {
        Ok(x) => x,
        Err(e) => return Err(e),
    };
    let (name_b, p2) = match read_str(data, p1) {
        Ok(x) => x,
        Err(e) => return Err(e),
    };
    if p2 + 20 > data.len() {
        return Err(Error::CorruptData);
    }
    let p = read_u32(data, p2);
    let rv = read_u64(data, p2 + 4);
    let group_index = read_u32(data, p2 + 12);
    if group_index >= gcount {
        return Err(Error::CorruptData);
    }
    let root_index = read_u32(data, p2 + 16) as usize;
    Ok(
        (
            GroupAttachment {
                user_data: UserData::RszRootIndex(root_index),
                name,
                name_b,
                p,
                collider_group_index: group_index as usize,
                r: rv,
            },
            p2 + 20,
        ),
    )
}

fn parse_attachments(data: &[u8], pos: usize, n: u32, gcount: u32) -> (r: Result<
    (Vec<GroupAttachment>, usize),
    Error,
>)
    requires
        data_fits(data@),
        pos <= data@.len(),
    ensures
        match r {
            Ok((vs, end)) => {
                &&& can_parse_attachments(data@, pos as int, n as nat, gcount) == Some(end as int)
                &&& attachments_match(data@, pos as int, n as nat, gcount, vs@)
                &&& forall|i: int|
                    0 <= i < vs@.len() ==> (#[trigger] vs@[i]).user_data is RszRootIndex
                        && vs@[i].collider_group_index < gcount
                &&& pos <= end <= data@.len()
            },
            Err(e) => e == Error::CorruptData && can_parse_attachments(
                data@,
                pos as int,
                n as nat,
                gcount,
            ) is None,
        },
    decreases n,
{
    if n == 0 {
        return Ok((Vec::new(), pos));
    }
    let (a, p1) = match parse_attachment(data, pos, gcount) {
        Ok(x) => x,
        Err(e) => return Err(e),
    };
    let (mut vs, end) = match parse_attachments(data, p1, n - 1, gcount) {
        Ok(x) => x,
        Err(e) => return Err(e),
    };
    let ghost tail = vs@;
    vs.insert(0, a);
    proof {
        assert(vs@.drop_first() =~= tail);
    }
    Ok((vs, end))
}

impl Rcol {
    /// Reads a collision file. With `deserialize_user_data` the
    /// embedded RSZ block is decoded and every user-data reference
    /// resolved, each root claimed exactly once.
    pub fn new(data: &[u8], deserialize_user_data: bool, reg: &Registry) -> (r: Result<
        Rcol,
        Error,
    >)
        ensures
            match r {
                Ok(rc) => {
                    &&& rc.shapes_wf()
                    &&& rc.att_groups_ok()
                    &&& rc.rsz.wf()
                    &&& if deserialize_user_data {
                        &&& rc.resolved()
                        &&& exists|rc0: Rcol|
                            rcol_matches(data@, &rc0) && resolve_rel(&rc0, &rc, reg.classes@)
                    } else {
                        &&& rc.unresolved()
                        &&& rcol_matches(data@, &rc)
                    }
                },
                Err(Error::FormatError) => !rcol_header_ok(data@),
                Err(Error::CorruptData) => rcol_header_ok(data@) && (!rcol_parseable(data@) || (
                deserialize_user_data && exists|rc0: Rcol|
                    rcol_matches(data@, &rc0) && resolve_err(
                        &rc0,
                        reg.classes@,
                        Error::CorruptData,
                    ))),
                Err(e) => deserialize_user_data && exists|rc0: Rcol|
                    rcol_matches(data@, &rc0) && resolve_err(&rc0, reg.classes@, e),
            },
    {
        if data.len() > MAX_DATA as usize || data.len() < 24 {
            return Err(Error::FormatError);
        }
        if !(data[0] == 0x52 && data[1] == 0x43 && data[2] == 0x4f && data[3] == 0x4c) {
            return Err(Error::FormatError);
        }
        let group_count = read_u32(data, 4);
        let attachment_count = read_u32(data, 8);
        let attribute_count = read_u32(data, 12);
        let e_count = read_u32(data, 16);
        let rsz_len = read_u32(data, 20);
        if attribute_count > 32 {
            return Err(Error::FormatError);
        }
        let (attributes, p_attr) = match parse_strs(data, 24, attribute_count) {
            Ok(x) => x,
            Err(e) => return Err(e),
        };
        let (es, p_e) = match parse_es(data, p_attr, e_count) {
            Ok(x) => x,
            Err(e) => return Err(e),
        };
        let (collider_groups, p_g) = match parse_groups(data, p_e, group_count, attribute_count) {
            Ok(x) => x,
            Err(e) => return Err(e),
        };
        let (group_attachments, p_a) = match parse_attachments(
            data,
            p_g,
            attachment_count,
            group_count,
        ) {
            Ok(x) => x,
            Err(e) => return Err(e),
        };
        if rsz_len as usize != data.len() - p_a {
            return Err(Error::CorruptData);
        }
        let block = &data[p_a..data.len()];
        assert(block@ == data@.subrange(p_a as int, data@.len() as int));
        let rsz = match Rsz::new(block, p_a as u64) {
            Ok(x) => x,
            Err(e) => return Err(e),
        };
        let mut rc = Rcol { rsz, collider_groups, attributes, group_attachments, es };
        assert(rcol_matches(data@, &rc));
        assert(rcol_parseable(data@));
        if deserialize_user_data {
            let ghost rc0 = rc;
            match rc.resolve_user_data(reg) {
                Ok(()) => {},
                Err(e) => {
                    proof {
                        assert(rcol_matches(data@, &rc0) && resolve_err(&rc0, reg.classes@, e));
                    }
                    return Err(e);
                },
            }
        }
        Ok(rc)
    }

    /// Decodes the embedded block and claims each referenced root,
    /// exactly once per reference, attachments first and then the
    /// colliders group by group. On failure the structure is partially
    /// resolved and should be discarded.
    #[verifier::spinoff_prover]
    #[verifier::rlimit(100)]
    pub fn resolve_user_data(&mut self, reg: &Registry) -> (r: Result<(), Error>)
        requires
            old(self).unresolved(),
            old(self).rsz.wf(),
            old(self).shapes_wf(),
            old(self).att_groups_ok(),
        ensures
            match r {
                Ok(()) => {
                    &&& resolve_rel(old(self), final(self), reg.classes@)
                    &&& final(self).resolved()
                    &&& final(self).shapes_wf()
                    &&& final(self).att_groups_ok()
                    &&& final(self).rsz.wf()
                },
                Err(e) => resolve_err(old(self), reg.classes@, e),
            },
    {
        let roots = match self.rsz.deserialize(reg) {
            Ok(x) => x,
            Err(e) => return Err(e),
        };
        let ghost roots_seq = roots@;
        let ghost nr = roots@.len() as int;
        let mut arena = RootArena::new(roots);
        let natts = self.group_attachments.len();
        let ghost rc0 = *self;
        proof {
            assert(rc0 == *old(self));
        }
        let mut i: usize = 0;
        while i < natts
            invariant
                natts == rc0.group_attachments@.len(),
                i <= natts,
                self.rsz == rc0.rsz,
                self.attributes == rc0.attributes,
                self.es == rc0.es,
                self.collider_groups == rc0.collider_groups,
                self.group_attachments@.len() == natts,
                forall|k: int|
                    i <= k < natts ==> #[trigger] self.group_attachments@[k]
                        == rc0.group_attachments@[k],
                forall|k: int|
                    0 <= k < i ==> att_shell_eq(
                        &rc0.group_attachments@[k],
                        &self.group_attachments@[k],
                    ) && (#[trigger] self.group_attachments@[k]).user_data == UserData::Data(
                        roots_seq[rc0.att_index(k)],
                    ),
                forall|k: int| 0 <= k < i ==> 0 <= #[trigger] rc0.att_index(k) < nr,
                forall|k1: int, k2: int|
                    0 <= k1 < k2 < i ==> rc0.att_index(k1) != rc0.att_index(k2),
                arena.slots_view().len() == nr,
                forall|j: int|
                    0 <= j < nr && arena.slots_view()[j] is Some ==> arena.slots_view()[j] == Some(
                        roots_seq[j],
                    ),
                forall|j: int|
                    0 <= j < nr ==> ((#[trigger] arena.slots_view()[j]) is None <==> exists|k: int|
                        0 <= k < i && rc0.att_index(k) == j),
            decreases natts - i,
        {
            let ghost pre = self.group_attachments@;
            let mut att = self.group_attachments.remove(i);
            assert(att == rc0.group_attachments@[i as int]);
            let ghost idx = att.user_data.index_of();
            let res = att.user_data.accept(&mut arena);
            self.group_attachments.insert(i, att);
            proof {
                assert(self.group_attachments@ =~= pre.update(
                    i as int,
                    self.group_attachments@[i as int],
                ));
                assert(rc0.att_index(i as int) == idx);
            }
            match res {
                Ok(()) => {},
                Err(e) => {
                    proof {
                        assert(rc0.att_index(i as int) == idx);
                        if idx < 0 || idx >= nr {
                            assert(e == Error::IndexOutOfRange);
                            assert(!rc0.indices_bounded(nr));
                        } else {
                            assert(e == Error::AlreadyClaimed);
                            let k = choose|k: int| 0 <= k < i && rc0.att_index(k) == idx;
                            assert(rc0.att_index(k) == rc0.att_index(i as int));
                            assert(!rc0.indices_distinct());
                        }
                    }
                    return Err(e);
                },
            }
            i = i + 1;
        }
        let ngroups = self.collider_groups.len();
        let mut gi: usize = 0;
        while gi < ngroups
            invariant
                natts == rc0.group_attachments@.len(),
                ngroups == rc0.collider_groups@.len(),
                gi <= ngroups,
                self.rsz == rc0.rsz,
                self.attributes == rc0.attributes,
                self.es == rc0.es,
                self.group_attachments@.len() == natts,
                forall|k: int|
                    0 <= k < natts ==> att_shell_eq(
                        &rc0.group_attachments@[k],
                        &self.group_attachments@[k],
                    ) && (#[trigger] self.group_attachments@[k]).user_data == UserData::Data(
                        roots_seq[rc0.att_index(k)],
                    ),
                forall|k: int| 0 <= k < natts ==> 0 <= #[trigger] rc0.att_index(k) < nr,
                forall|k1: int, k2: int|
                    0 <= k1 < k2 < natts ==> rc0.att_index(k1) != rc0.att_index(k2),
                self.collider_groups@.len() == ngroups,
                forall|g: int|
                    gi <= g < ngroups ==> #[trigger] self.collider_groups@[g]
                        == rc0.collider_groups@[g],
                forall|g: int|
                    0 <= g < gi ==> (#[trigger] self.collider_groups@[g]).name
                        == rc0.collider_groups@[g].name && self.collider_groups@[g].colliders@.len()
                        == rc0.collider_groups@[g].colliders@.len(),
                forall|g: int, c: int|
                    0 <= g < gi && 0 <= c < rc0.collider_groups@[g].colliders@.len()
                        ==> col_shell_eq(
                        &rc0.collider_groups@[g].colliders@[c],
                        &self.collider_groups@[g].colliders@[c],
                    ) && (#[trigger] self.collider_groups@[g].colliders@[c]).user_data
                        == UserData::Data(roots_seq[rc0.col_index(g, c)]),
                forall|g: int, c: int|
                    0 <= g < gi && 0 <= c < rc0.collider_groups@[g].colliders@.len() ==> 0 <= (
                    #[trigger] rc0.col_index(g, c)) < nr,
                forall|k: int, g: int, c: int|
                    0 <= k < natts && 0 <= g < gi && 0 <= c
                        < rc0.collider_groups@[g].colliders@.len() ==> rc0.att_index(k)
                        != rc0.col_index(g, c),
                forall|g1: int, c1: int, g2: int, c2: int|
                    0 <= g1 < gi && 0 <= c1 < rc0.collider_groups@[g1].colliders@.len() && 0 <= g2
                        < gi && 0 <= c2 < rc0.collider_groups@[g2].colliders@.len() && (g1 != g2
                        || c1 != c2) ==> rc0.col_index(g1, c1) != rc0.col_index(g2, c2),
                arena.slots_view().len() == nr,
                forall|j: int|
                    0 <= j < nr && arena.slots_view()[j] is Some ==> arena.slots_view()[j] == Some(
                        roots_seq[j],
                    ),
                forall|j: int|
                    0 <= j < nr ==> ((#[trigger] arena.slots_view()[j]) is None <==> (exists|k: int|
                        0 <= k < natts && rc0.att_index(k) == j) || (exists|g: int, c: int|
                        0 <= g < gi && 0 <= c < rc0.collider_groups@[g].colliders@.len()
                            && rc0.col_index(g, c) == j)),
            decreases ngroups - gi,
        {
            let ghost pre_groups = self.collider_groups@;
            let mut g = self.collider_groups.remove(gi);
            assert(g == rc0.collider_groups@[gi as int]);
            let ghost old_g = rc0.collider_groups@[gi as int];
            let ncols = g.colliders.len();
            let mut cj: usize = 0;
            let mut err_found: Option<Error> = None;
            while cj < ncols && err_found.is_none()
                invariant
                    cj <= ncols == old_g.colliders@.len(),
                    match err_found {
                        Some(e) => resolve_err(&rc0, reg.classes@, e),
                        None => {
                            &&& g.name == old_g.name
                            &&& g.colliders@.len() == ncols
                            &&& forall|c: int|
                                cj <= c < ncols ==> #[trigger] g.colliders@[c]
                                    == old_g.colliders@[c]
                            &&& forall|c: int|
                                0 <= c < cj ==> col_shell_eq(
                                    &old_g.colliders@[c],
                                    &g.colliders@[c],
                                ) && (#[trigger] g.colliders@[c]).user_data == UserData::Data(
                                    roots_seq[rc0.col_index(gi as int, c)],
                                )
                            &&& forall|c: int|
                                0 <= c < cj ==> 0 <= #[trigger] rc0.col_index(gi as int, c) < nr
                            &&& forall|k: int, c: int|
                                0 <= k < natts && 0 <= c < cj ==> rc0.att_index(k)
                                    != rc0.col_index(gi as int, c)
                            &&& forall|gg: int, c1: int, c2: int|
                                0 <= gg < gi && 0 <= c1
                                    < rc0.collider_groups@[gg].colliders@.len() && 0 <= c2 < cj
                                    ==> rc0.col_index(gg, c1) != rc0.col_index(gi as int, c2)
                            &&& forall|c1: int, c2: int|
                                0 <= c1 < c2 < cj ==> rc0.col_index(gi as int, c1)
                                    != rc0.col_index(gi as int, c2)
                            &&& arena.slots_view().len() == nr
                            &&& forall|j: int|
                                0 <= j < nr && arena.slots_view()[j] is Some
                                    ==> arena.slots_view()[j] == Some(roots_seq[j])
                            &&& forall|j: int|
                                0 <= j < nr ==> ((#[trigger] arena.slots_view()[j]) is None <==> (
                                exists|k: int|
                                    0 <= k < natts && rc0.att_index(k) == j) || (exists|
                                    gg: int,
                                    c: int,
                                |
                                    0 <= gg < gi && 0 <= c
                                        < rc0.collider_groups@[gg].colliders@.len()
                                        && rc0.col_index(gg, c) == j) || (exists|c: int|
                                    0 <= c < cj && rc0.col_index(gi as int, c) == j))
                        },
                    },
                decreases ncols - cj, (if err_found is None { 1int } else { 0int }),
            {
                let ghost pre = g.colliders@;
                let mut c = g.colliders.remove(cj);
                assert(c == old_g.colliders@[cj as int]);
                let ghost idx = c.user_data.index_of();
                let res = c.user_data.accept(&mut arena);
                g.colliders.insert(cj, c);
                proof {
                    assert(g.colliders@ =~= pre.update(cj as int, g.colliders@[cj as int]));
                }
                match res {
                    Ok(()) => {
                        cj = cj + 1;
                    },
                    Err(e) => {
                        proof {
                            if idx < 0 || idx >= nr {
                                assert(e == Error::IndexOutOfRange);
                                assert(rc0.col_index(gi as int, cj as int) == idx);
                                assert(!rc0.indices_bounded(nr));
                            } else {
                                assert(e == Error::AlreadyClaimed);
                                assert(!rc0.indices_distinct());
                            }
                        }
                        err_found = Some(e);
                    },
                }
            }
            self.collider_groups.insert(gi, g);
            proof {
                assert(self.collider_groups@ =~= pre_groups.update(
                    gi as int,
                    self.collider_groups@[gi as int],
                ));
            }
            match err_found {
                Some(e) => return Err(e),
                None => {},
            }
            gi = gi + 1;
        }
        match arena.finish() {
            Ok(()) => {},
            Err(e) => {
                proof {
                    let j = choose|j: int|
                        0 <= j < arena.slots_view().len() && arena.slots_view()[j] is Some;
                    assert(arena.slots_view()[j] is Some);
                    assert(gi == ngroups);
                    assert(0 <= j < nr);
                    assert(!(exists|k: int| 0 <= k < natts && rc0.att_index(k) == j));
                    assert(!(exists|gg: int, c: int|
                        0 <= gg < rc0.collider_groups@.len() && 0 <= c
                            < rc0.collider_groups@[gg].colliders@.len() && rc0.col_index(gg, c)
                            == j));
                    assert(!rc0.index_covered(j));
                }
                return Err(e);
            },
        }
        proof {
            assert(gi == ngroups);
            assert(resolved_values(&rc0, self, roots_seq));
            assert forall|j: int| 0 <= j < nr implies #[trigger] rc0.index_covered(j) by {
                assert(arena.slots_view()[j] is None);
            }
            assert(rc0.indices_distinct());
            assert(rc0.indices_bounded(nr));
            assert(resolve_rel(&rc0, self, reg.classes@));
        }
        Ok(())
    }
}

/// The view of each printed line.
pub open spec fn views_of(ls: Seq<String>) -> Seq<Seq<char>> {
    Seq::new(ls.len(), |i: int| ls[i]@)
}

/// The fixed text of a shape in a listing.
pub open spec fn shape_text(sh: Shape) -> Seq<char> {
    match sh {
        Shape::Sphere { p, r } => "sphere "@ + crate::bytes::sdec_rep(p.x as int) + " "@
            + crate::bytes::sdec_rep(p.y as int) + " "@ + crate::bytes::sdec_rep(p.z as int)
            + " r "@ + crate::bytes::sdec_rep(r as int),
        Shape::Capsule { p0, p1, r } => "capsule "@ + crate::bytes::sdec_rep(p0.x as int) + " "@
            + crate::bytes::sdec_rep(p0.y as int) + " "@ + crate::bytes::sdec_rep(p0.z as int)
            + " "@ + crate::bytes::sdec_rep(p1.x as int) + " "@ + crate::bytes::sdec_rep(
            p1.y as int,
        ) + " "@ + crate::bytes::sdec_rep(p1.z as int) + " r "@ + crate::bytes::sdec_rep(
            r as int,
        ),
        Shape::Unknown => "unknown"@,
    }
}

/// A collider's user data in a listing: the raw root index before
/// resolution, the meat value after it, nothing for other classes.
pub open spec fn col_ud_text(ud: UserData) -> Seq<char> {
    match ud {
        UserData::RszRootIndex(i) => ", root "@ + crate::bytes::dec_rep(i as nat),
        UserData::Data(root) => if <crate::typed::EmHitDamageShapeData as crate::typed::FromRoot>::root_matches(&root) {
            ", meat "@ + crate::bytes::sdec_rep(crate::typed::shape_meat(&root) as int)
        } else {
            Seq::empty()
        },
    }
}

/// An attachment's user data in a listing.
pub open spec fn att_ud_text(ud: UserData) -> Seq<char> {
    match ud {
        UserData::RszRootIndex(i) => ", root "@ + crate::bytes::dec_rep(i as nat),
        UserData::Data(root) => if <crate::typed::EmHitDamageRsData as crate::typed::FromRoot>::root_matches(&root) {
            ", parts "@ + crate::bytes::dec_rep(crate::typed::rs_parts_group(&root) as nat)
        } else {
            Seq::empty()
        },
    }
}

pub open spec fn group_header_line(gi: int, name: Seq<char>) -> Seq<char> {
    "["@ + crate::bytes::dec_rep(gi as nat) + "] "@ + name
}

pub open spec fn collider_line(c: Collider) -> Seq<char> {
    " - "@ + c.name@ + ", "@ + c.bone_a@ + ", "@ + c.bone_b@ + ", /** "@ + crate::bytes::dec_rep(
        c.attribute_bits as nat,
    ) + " **/ "@ + shape_text(c.shape) + col_ud_text(c.user_data)
}

pub open spec fn attribute_line(a: Seq<char>) -> Seq<char> {
    "* "@ + a
}

pub open spec fn attachment_line(a: GroupAttachment) -> Seq<char> {
    ">>>->["@ + crate::bytes::dec_rep(a.collider_group_index as nat) + "] "@ + a.name@ + ", "@
        + a.name_b@ + ", "@ + crate::bytes::dec_rep(a.p as nat) + ", "@ + crate::bytes::dec_rep(
        a.r as nat,
    ) + att_ud_text(a.user_data)
}

pub open spec fn e_line(e: E) -> Seq<char> {
    "##> "@ + e.name@
}

/// One group's block: its header, then one line per collider.
pub open spec fn group_block(g: ColliderGroup, gi: int) -> Seq<Seq<char>> {
    seq![group_header_line(gi, g.name@)] + Seq::new(
        g.colliders@.len(),
        |c: int| collider_line(g.colliders@[c]),
    )
}

pub open spec fn groups_lines(gs: Seq<ColliderGroup>, upto: int) -> Seq<Seq<char>>
    decreases upto,
{
    if upto <= 0 {
        Seq::empty()
    } else {
        groups_lines(gs, upto - 1) + group_block(gs[upto - 1], upto - 1)
    }
}

/// The whole listing: every group with its colliders, every attribute
/// name, every attachment, every extra record, in that order.
pub open spec fn dump_lines_spec(rc: &Rcol) -> Seq<Seq<char>> {
    groups_lines(rc.collider_groups@, rc.collider_groups@.len() as int) + Seq::new(
        rc.attributes@.len(),
        |i: int| attribute_line(rc.attributes@[i]@),
    ) + Seq::new(rc.group_attachments@.len(), |i: int| attachment_line(rc.group_attachments@[i]))
        + Seq::new(rc.es@.len(), |i: int| e_line(rc.es@[i]))
}

impl Rcol {
    /// Renders the listing: one line per group, collider (with its
    /// bones, attribute bits, shape and user data), attribute name,
    /// attachment and extra record, exactly as `dump_lines_spec` lays
    /// it out.
    #[verifier::spinoff_prover]
    #[verifier::rlimit(100)]
    pub fn dump(&self) -> (lines: Vec<String>)
        ensures
            views_of(lines@) == dump_lines_spec(self),
    {
        let mut lines: Vec<String> = Vec::new();
        let ngroups = self.collider_groups.len();
        let mut gi: usize = 0;
        proof {
            assert(views_of(lines@) =~= groups_lines(self.collider_groups@, 0));
        }
        while gi < ngroups
            invariant
                gi <= ngroups == self.collider_groups@.len(),
                views_of(lines@) == groups_lines(self.collider_groups@, gi as int),
            decreases ngroups - gi,
        {
            let g = &self.collider_groups[gi];
            let mut line = String::new();
            line.append("[");
            let ds = crate::bytes::u64_to_string(gi as u64);
            line.append(ds.as_str());
            line.append("] ");
            let nm = g.name.clone();
            line.append(nm.as_str());
            assert(line@ == group_header_line(gi as int, g.name@));
            let ghost pre = lines@;
            lines.push(line);
            proof {
                assert(views_of(lines@) =~= views_of(pre) + seq![
                    group_header_line(gi as int, self.collider_groups@[gi as int].name@),
                ]);
            }
            let ncols = g.colliders.len();
            let mut cj: usize = 0;
            proof {
                assert(Seq::new(0nat, |c: int| collider_line(
                    self.collider_groups@[gi as int].colliders@[c],
                )) =~= Seq::<Seq<char>>::empty());
                assert(views_of(lines@) =~= groups_lines(self.collider_groups@, gi as int)
                    + seq![group_header_line(gi as int, self.collider_groups@[gi as int].name@)]
                    + Seq::new(0nat, |c: int| collider_line(
                    self.collider_groups@[gi as int].colliders@[c],
                )));
            }
            while cj < ncols
                invariant
                    gi < ngroups == self.collider_groups@.len(),
                    cj <= ncols == self.collider_groups@[gi as int].colliders@.len(),
                    views_of(lines@) == groups_lines(self.collider_groups@, gi as int) + seq![
                        group_header_line(gi as int, self.collider_groups@[gi as int].name@),
                    ] + Seq::new(cj as nat, |c: int| collider_line(
                        self.collider_groups@[gi as int].colliders@[c],
                    )),
                decreases ncols - cj,
            {
                let c = &self.collider_groups[gi].colliders[cj];
                let mut cl = String::new();
                cl.append(" - ");
                let cn = c.name.clone();
                cl.append(cn.as_str());
                cl.append(", ");
                let ba = c.bone_a.clone();
                cl.append(ba.as_str());
                cl.append(", ");
                let bb = c.bone_b.clone();
                cl.append(bb.as_str());
                cl.append(", /** ");
                let bits = crate::bytes::u64_to_string(c.attribute_bits as u64);
                cl.append(bits.as_str());
                cl.append(" **/ ");
                match c.shape {
                    Shape::Sphere { p, r } => {
                        cl.append("sphere ");
                        let t = crate::bytes::i64_to_string(p.x as i64);
                        cl.append(t.as_str());
                        cl.append(" ");
                        let t = crate::bytes::i64_to_string(p.y as i64);
                        cl.append(t.as_str());
                        cl.append(" ");
                        let t = crate::bytes::i64_to_string(p.z as i64);
                        cl.append(t.as_str());
                        cl.append(" r ");
                        let t = crate::bytes::i64_to_string(r as i64);
                        cl.append(t.as_str());
                    },
                    Shape::Capsule { p0, p1, r } => {
                        cl.append("capsule ");
                        let t = crate::bytes::i64_to_string(p0.x as i64);
                        cl.append(t.as_str());
                        cl.append(" ");
                        let t = crate::bytes::i64_to_string(p0.y as i64);
                        cl.append(t.as_str());
                        cl.append(" ");
                        let t = crate::bytes::i64_to_string(p0.z as i64);
                        cl.append(t.as_str());
                        cl.append(" ");
                        let t = crate::bytes::i64_to_string(p1.x as i64);
                        cl.append(t.as_str());
                        cl.append(" ");
                        let t = crate::bytes::i64_to_string(p1.y as i64);
                        cl.append(t.as_str());
                        cl.append(" ");
                        let t = crate::bytes::i64_to_string(p1.z as i64);
                        cl.append(t.as_str());
                        cl.append(" r ");
                        let t = crate::bytes::i64_to_string(r as i64);
                        cl.append(t.as_str());
                    },
                    Shape::Unknown => {
                        cl.append("unknown");
                    },
                }
                match &c.user_data {
                    UserData::RszRootIndex(i) => {
                        cl.append(", root ");
                        let t = crate::bytes::u64_to_string(*i as u64);
                        cl.append(t.as_str());
                    },
                    UserData::Data(root) => {
                        let view: Option<crate::typed::EmHitDamageShapeData> =
                            crate::typed::FromRoot::from_root(root);
                        match view {
                            Some(dv) => {
                                cl.append(", meat ");
                                let t = crate::bytes::i64_to_string(dv.meat as i64);
                                cl.append(t.as_str());
                            },
                            None => {},
                        }
                    },
                }
                assert(cl@ == collider_line(self.collider_groups@[gi as int].colliders@[
                    cj as int]));
                let ghost pre2 = lines@;
                lines.push(cl);
                proof {
                    assert(views_of(lines@) =~= views_of(pre2) + seq![
                        collider_line(self.collider_groups@[gi as int].colliders@[cj as int]),
                    ]);
                    assert(Seq::new((cj + 1) as nat, |c2: int| collider_line(
                        self.collider_groups@[gi as int].colliders@[c2],
                    )) =~= Seq::new(cj as nat, |c2: int| collider_line(
                        self.collider_groups@[gi as int].colliders@[c2],
                    )).push(collider_line(self.collider_groups@[gi as int].colliders@[cj as int])));
                    assert(views_of(lines@) =~= groups_lines(self.collider_groups@, gi as int)
                        + seq![
                        group_header_line(gi as int, self.collider_groups@[gi as int].name@),
                    ] + Seq::new((cj + 1) as nat, |c2: int| collider_line(
                        self.collider_groups@[gi as int].colliders@[c2],
                    )));
                }
                cj = cj + 1;
            }
            proof {
                assert(Seq::new(ncols as nat, |c2: int| collider_line(
                    self.collider_groups@[gi as int].colliders@[c2],
                )) =~= Seq::new(self.collider_groups@[gi as int].colliders@.len(), |c2: int| collider_line(
                    self.collider_groups@[gi as int].colliders@[c2],
                )));
                assert(views_of(lines@) =~= groups_lines(self.collider_groups@, gi + 1));
            }
            gi = gi + 1;
        }
        let nattrs = self.attributes.len();
        let mut ai: usize = 0;
        proof {
            assert(views_of(lines@) =~= groups_lines(
                self.collider_groups@,
                self.collider_groups@.len() as int,
            ) + Seq::new(0nat, |i: int| attribute_line(self.attributes@[i]@)));
        }
        while ai < nattrs
            invariant
                ai <= nattrs == self.attributes@.len(),
                views_of(lines@) == groups_lines(
                    self.collider_groups@,
                    self.collider_groups@.len() as int,
                ) + Seq::new(ai as nat, |i: int| attribute_line(self.attributes@[i]@)),
            decreases nattrs - ai,
        {
            let mut al = String::new();
            al.append("* ");
            let an = self.attributes[ai].clone();
            al.append(an.as_str());
            assert(al@ == attribute_line(self.attributes@[ai as int]@));
            let ghost pre = lines@;
            lines.push(al);
            proof {
                assert(views_of(lines@) =~= views_of(pre) + seq![
                    attribute_line(self.attributes@[ai as int]@),
                ]);
                assert(Seq::new((ai + 1) as nat, |i: int| attribute_line(self.attributes@[i]@))
                    =~= Seq::new(ai as nat, |i: int| attribute_line(self.attributes@[i]@)).push(
                    attribute_line(self.attributes@[ai as int]@),
                ));
            }
            ai = ai + 1;
        }
        let natts = self.group_attachments.len();
        let mut ti: usize = 0;
        proof {
            assert(views_of(lines@) =~= groups_lines(
                self.collider_groups@,
                self.collider_groups@.len() as int,
            ) + Seq::new(self.attributes@.len(), |i: int| attribute_line(self.attributes@[i]@))
                + Seq::new(0nat, |i: int| attachment_line(self.group_attachments@[i])));
        }
        while ti < natts
            invariant
                ti <= natts == self.group_attachments@.len(),
                views_of(lines@) == groups_lines(
                    self.collider_groups@,
                    self.collider_groups@.len() as int,
                ) + Seq::new(self.attributes@.len(), |i: int| attribute_line(self.attributes@[i]@))
                    + Seq::new(ti as nat, |i: int| attachment_line(self.group_attachments@[i])),
            decreases natts - ti,
        {
            let a = &self.group_attachments[ti];
            let mut tl = String::new();
            tl.append(">>>->[");
            let di = crate::bytes::u64_to_string(a.collider_group_index as u64);
            tl.append(di.as_str());
            tl.append("] ");
            let an = a.name.clone();
            tl.append(an.as_str());
            tl.append(", ");
            let bn = a.name_b.clone();
            tl.append(bn.as_str());
            tl.append(", ");
            let pv = crate::bytes::u64_to_string(a.p as u64);
            tl.append(pv.as_str());
            tl.append(", ");
            let rv = crate::bytes::u64_to_string(a.r);
            tl.append(rv.as_str());
            match &a.user_data {
                UserData::RszRootIndex(i) => {
                    tl.append(", root ");
                    let t = crate::bytes::u64_to_string(*i as u64);
                    tl.append(t.as_str());
                },
                UserData::Data(root) => {
                    let view: Option<crate::typed::EmHitDamageRsData> =
                        crate::typed::FromRoot::from_root(root);
                    match view {
                        Some(dv) => {
                            tl.append(", parts ");
                            let t = crate::bytes::u64_to_string(dv.parts_group as u64);
                            tl.append(t.as_str());
                        },
                        None => {},
                    }
                },
            }
            assert(tl@ == attachment_line(self.group_attachments@[ti as int]));
            let ghost pre = lines@;
            lines.push(tl);
            proof {
                assert(views_of(lines@) =~= views_of(pre) + seq![
                    attachment_line(self.group_attachments@[ti as int]),
                ]);
                assert(Seq::new((ti + 1) as nat, |i: int| attachment_line(self.group_attachments@[i]))
                    =~= Seq::new(ti as nat, |i: int| attachment_line(self.group_attachments@[i])).push(
                    attachment_line(self.group_attachments@[ti as int]),
                ));
            }
            ti = ti + 1;
        }
        let nes = self.es.len();
        let mut ei: usize = 0;
        proof {
            assert(views_of(lines@) =~= groups_lines(
                self.collider_groups@,
                self.collider_groups@.len() as int,
            ) + Seq::new(self.attributes@.len(), |i: int| attribute_line(self.attributes@[i]@))
                + Seq::new(self.group_attachments@.len(), |i: int| attachment_line(
                self.group_attachments@[i],
            )) + Seq::new(0nat, |i: int| e_line(self.es@[i])));
        }
        while ei < nes
            invariant
                ei <= nes == self.es@.len(),
                views_of(lines@) == groups_lines(
                    self.collider_groups@,
                    self.collider_groups@.len() as int,
                ) + Seq::new(self.attributes@.len(), |i: int| attribute_line(self.attributes@[i]@))
                    + Seq::new(self.group_attachments@.len(), |i: int| attachment_line(
                    self.group_attachments@[i],
                )) + Seq::new(ei as nat, |i: int| e_line(self.es@[i])),
            decreases nes - ei,
        {
            let mut el = String::new();
            el.append("##> ");
            let en = self.es[ei].name.clone();
            el.append(en.as_str());
            assert(el@ == e_line(self.es@[ei as int]));
            let ghost pre = lines@;
            lines.push(el);
            proof {
                assert(views_of(lines@) =~= views_of(pre) + seq![e_line(self.es@[ei as int])]);
                assert(Seq::new((ei + 1) as nat, |i: int| e_line(self.es@[i])) =~= Seq::new(
                    ei as nat,
                    |i: int| e_line(self.es@[i]),
                ).push(e_line(self.es@[ei as int])));
            }
            ei = ei + 1;
        }
        proof {
            assert(views_of(lines@) =~= dump_lines_spec(self));
        }
        lines
    }
}

/// Entry `i` reads and announces the collision magic.
pub open spec fn has_rcol_magic(s: Seq<u8>, i: int) -> bool {
    &&& crate::pak::read_spec(s, i) is Some
    &&& crate::pak::content_of(s, i).len() >= 4
    &&& crate::pak::content_of(s, i)[0] == 0x52
    &&& crate::pak::content_of(s, i)[1] == 0x43
    &&& crate::pak::content_of(s, i)[2] == 0x4f
    &&& crate::pak::content_of(s, i)[3] == 0x4c
}

/// Every collision member that does not parse is reported.
pub open spec fn rcol_sweep_complete(s: Seq<u8>, fs: Seq<(u32, Error)>) -> bool {
    forall|i: int|
        0 <= i < crate::pak::file_count_of(s) && has_rcol_magic(s, i) && !rcol_parseable(
            crate::pak::content_of(s, i),
        ) ==> exists|k: int| 0 <= k < fs.len() && (#[trigger] fs[k]).0 == i
}

/// Sweeps the archive for collision members and reports, per entry
/// carrying the magic, exactly those whose body does not parse.
pub fn scan_rcol(pak: &crate::pak::PakReader, reg: &Registry) -> (failures: Vec<(u32, Error)>)
    requires
        pak.wf(),
    ensures
        forall|k: int|
            0 <= k < failures@.len() ==> (#[trigger] failures@[k]).0 < crate::pak::file_count_of(
                pak@,
            ),
        forall|k: int|
            0 <= k < failures@.len() ==> has_rcol_magic(pak@, (#[trigger] failures@[k]).0 as int),
        forall|k: int|
            0 <= k < failures@.len() ==> !rcol_parseable(
                crate::pak::content_of(pak@, (#[trigger] failures@[k]).0 as int),
            ),
        rcol_sweep_complete(pak@, failures@),
{
    let count = pak.get_file_count();
    let mut failures: Vec<(u32, Error)> = Vec::new();
    let mut i: u32 = 0;
    while i < count
        invariant
            pak.wf(),
            count == crate::pak::file_count_of(pak@),
            i <= count,
            forall|k: int| 0 <= k < failures@.len() ==> (#[trigger] failures@[k]).0 < i,
            forall|k: int|
                0 <= k < failures@.len() ==> has_rcol_magic(
                    pak@,
                    (#[trigger] failures@[k]).0 as int,
                ),
            forall|k: int|
                0 <= k < failures@.len() ==> !rcol_parseable(
                    crate::pak::content_of(pak@, (#[trigger] failures@[k]).0 as int),
                ),
            forall|j: int|
                0 <= j < i && has_rcol_magic(pak@, j) && !rcol_parseable(
                    crate::pak::content_of(pak@, j),
                ) ==> exists|k: int| 0 <= k < failures@.len() && (#[trigger] failures@[k]).0 == j,
        decreases count - i,
    {
        let ghost pre = failures@;
        match pak.read_file_at(i) {
            Ok(content) => {
                proof {
                    assert(content@ == crate::pak::content_of(pak@, i as int));
                }
                if content.len() >= 4 && content[0] == 0x52 && content[1] == 0x43 && content[2]
                    == 0x4f && content[3] == 0x4c {
                    match Rcol::new(content.as_slice(), false, reg) {
                        Ok(_) => {
                            proof {
                                assert(rcol_parseable(crate::pak::content_of(pak@, i as int)));
                            }
                        },
                        Err(e) => {
                            failures.push((i, e));
                            proof {
                                assert(!rcol_parseable(crate::pak::content_of(pak@, i as int)));
                                assert(forall|k: int|
                                    0 <= k < pre.len() ==> failures@[k] == #[trigger] pre[k]);
                                assert(failures@.last().0 == i);
                            }
                        },
                    }
                }
            },
            Err(_) => {},
        }
        i = i + 1;
    }
    failures
}

} // verus!
