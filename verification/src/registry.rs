//! The type schema registry: a table built once at startup that binds
//! each fully-qualified engine class name to its on-disk type hash and
//! its ordered field schema. The hash is a pure function of the name
//! (the same fold the archive uses for paths), so a class is addressed
//! on disk exactly as its name hashes.
use vstd::prelude::*;

use crate::hash::{hash_str, path_hash};

verus! {

/// The closed enumerations the schemas use. Every kind carries its set
/// of admissible raw values; a value outside the set is corrupt data.
#[derive(Debug, Clone, Copy, PartialEq, Eq, Structural)]
pub enum EnumKind {
    CustomShapeType,
    LimitedHitAttr,
    HitSoundAttr,
    BaseHitMarkType,
    QuestRank,
    EnemyRewardPopTypes,
    /// Declared with an open numeric tail: `None` or a random id.
    BrokenPartsTypes,
    BreakLvTypes,
    PartsBreakConditionType,
}

/// The raw values each enumeration admits.
pub open spec fn enum_allowed(k: EnumKind, v: i32) -> bool {
    match k {
        EnumKind::CustomShapeType => 0 <= v <= 5,
        EnumKind::LimitedHitAttr => 0 <= v <= 1,
        EnumKind::HitSoundAttr => 0 <= v <= 13,
        EnumKind::BaseHitMarkType => 0 <= v <= 3,
        EnumKind::QuestRank => 0 <= v <= 1,
        EnumKind::EnemyRewardPopTypes => 0 <= v <= 10,
        EnumKind::BrokenPartsTypes => 0 <= v <= 100,
        EnumKind::BreakLvTypes => 0 <= v <= 1,
        EnumKind::PartsBreakConditionType => 0 <= v <= 1,
    }
}

/// Checks a raw enumerated value against its kind's set.
pub fn enum_check(k: EnumKind, v: i32) -> (r: bool)
    ensures
        r == enum_allowed(k, v),
{
    match k {
        EnumKind::CustomShapeType => 0 <= v && v <= 5,
        EnumKind::LimitedHitAttr => 0 <= v && v <= 1,
        EnumKind::HitSoundAttr => 0 <= v && v <= 13,
        EnumKind::BaseHitMarkType => 0 <= v && v <= 3,
        EnumKind::QuestRank => 0 <= v && v <= 1,
        EnumKind::EnemyRewardPopTypes => 0 <= v && v <= 10,
        EnumKind::BrokenPartsTypes => 0 <= v && v <= 100,
        EnumKind::BreakLvTypes => 0 <= v && v <= 1,
        EnumKind::PartsBreakConditionType => 0 <= v && v <= 1,
    }
}

/// A field that consumes bytes and produces one plain value.
#[derive(Debug, Clone, Copy, PartialEq, Eq, Structural)]
pub enum PrimKind {
    U8,
    U16,
    U32,
    U64,
    I32,
    /// A 32-bit float carried as its raw bits; no arithmetic touches it.
    F32Bits,
    /// A length-prefixed UTF-16 string.
    Str,
    /// A fixed 16-byte identifier.
    Guid,
    /// An enumerated `i32` over a closed set.
    Enum(EnumKind),
    /// Named bits over a 16-bit field; bits outside the mask are corrupt.
    Flags(u16),
}

/// What a sequence or array element may be.
#[derive(Debug, Clone, Copy, PartialEq, Eq, Structural)]
pub enum ElemKind {
    Prim(PrimKind),
    /// A nested class, inlined without its own type tag.
    Struct(usize),
}

/// One entry of a class's ordered field schema.
#[derive(Debug, Clone, Copy, PartialEq, Eq, Structural)]
pub enum FieldKind {
    Prim(PrimKind),
    /// Consume padding until the cursor, rebased by the block's base
    /// offset, sits on the given power-of-two boundary.
    Align(u32),
    /// A nested class, inlined without its own type tag.
    Struct(usize),
    /// A `u32` count followed by that many elements.
    List(ElemKind),
    /// A fixed number of elements, with the count in the schema.
    Array(u32, ElemKind),
}

pub struct ClassDef {
    pub name: String,
    pub hash: u64,
    pub fields: Vec<FieldKind>,
}

/// The compiled-in schema table. Nested `Struct` references only ever
/// point at earlier entries, so the field walk always terminates.
pub struct Registry {
    pub classes: Vec<ClassDef>,
}

/// Every class is filed under the hash of its own name.
pub open spec fn registry_hashes_ok(classes: Seq<ClassDef>) -> bool {
    forall|c: int|
        0 <= c < classes.len() ==> (#[trigger] classes[c]).hash == path_hash(classes[c].name@)
}

/// The first class filed under `hash`, if any.
pub open spec fn resolve_spec(classes: Seq<ClassDef>, hash: u64) -> Option<int>
    decreases classes.len(),
{
    if classes.len() == 0 {
        None
    } else if classes[0].hash == hash {
        Some(0)
    } else {
        match resolve_spec(classes.drop_first(), hash) {
            Some(i) => Some(i + 1),
            None => None,
        }
    }
}

impl Registry {
    fn add_class(&mut self, name: &str, fields: Vec<FieldKind>)
        ensures
            final(self).classes@.len() == old(self).classes@.len() + 1,
            final(self).classes@.subrange(0, old(self).classes@.len() as int) == old(
                self,
            ).classes@,
            final(self).classes@.last().name@ == name@,
            final(self).classes@.last().hash == path_hash(name@),
            final(self).classes@.last().fields@ == fields@,
    {
        let hash = hash_str(name);
        self.classes.push(ClassDef { name: name.to_owned(), hash, fields });
        proof {
            assert(final(self).classes@.subrange(0, old(self).classes@.len() as int)
                =~= old(self).classes@);
        }
    }

    /// Builds the registry: the physics user-data classes the collision
    /// format embeds, and the reward-table classes.
    pub fn new() -> (r: Registry)
        ensures
            registry_hashes_ok(r.classes@),
    {
        let mut r = Registry { classes: Vec::new() };
        // 0
        r.add_class(
            "via.physics.RequestSetColliderUserData",
            vec![FieldKind::Prim(PrimKind::Str), FieldKind::Prim(PrimKind::U32)],
        );
        // 1
        r.add_class("via.physics.UserData", vec![FieldKind::Prim(PrimKind::Str)]);
        // 2
        r.add_class(
            "snow.hit.userdata.EmHitDamageRSData",
            vec![FieldKind::Struct(1), FieldKind::Prim(PrimKind::U16)],
        );
        // 3
        r.add_class(
            "snow.hit.userdata.EmHitDamageShapeData",
            vec![
                FieldKind::Struct(1),
                FieldKind::Prim(PrimKind::Enum(EnumKind::CustomShapeType)),
                FieldKind::Prim(PrimKind::F32Bits),
                FieldKind::Prim(PrimKind::Enum(EnumKind::LimitedHitAttr)),
                FieldKind::Prim(PrimKind::Enum(EnumKind::HitSoundAttr)),
                FieldKind::Prim(PrimKind::F32Bits),
                FieldKind::Prim(PrimKind::I32),
                FieldKind::Prim(PrimKind::Flags(0x7)),
                FieldKind::Prim(PrimKind::Enum(EnumKind::BaseHitMarkType)),
            ],
        );
        // 4
        r.add_class(
            "snow.data.MonsterLotTableUserData.Param",
            vec![
                FieldKind::Prim(PrimKind::I32),
                FieldKind::Prim(PrimKind::Enum(EnumKind::QuestRank)),
                FieldKind::List(ElemKind::Prim(PrimKind::U32)),
                FieldKind::List(ElemKind::Prim(PrimKind::U32)),
                FieldKind::List(ElemKind::Prim(PrimKind::U32)),
                FieldKind::List(ElemKind::Prim(PrimKind::Enum(EnumKind::EnemyRewardPopTypes))),
                FieldKind::List(ElemKind::Prim(PrimKind::U32)),
                FieldKind::List(ElemKind::Prim(PrimKind::U32)),
                FieldKind::List(ElemKind::Prim(PrimKind::U32)),
                FieldKind::List(ElemKind::Prim(PrimKind::U32)),
                FieldKind::List(ElemKind::Prim(PrimKind::U32)),
                FieldKind::List(ElemKind::Prim(PrimKind::U32)),
                FieldKind::List(ElemKind::Prim(PrimKind::Enum(EnumKind::BrokenPartsTypes))),
                FieldKind::List(ElemKind::Prim(PrimKind::Enum(EnumKind::BreakLvTypes))),
                FieldKind::List(ElemKind::Prim(PrimKind::U32)),
                FieldKind::List(ElemKind::Prim(PrimKind::U32)),
                FieldKind::List(ElemKind::Prim(PrimKind::U32)),
                FieldKind::Array(0, ElemKind::Prim(PrimKind::Enum(EnumKind::EnemyRewardPopTypes))),
                FieldKind::List(ElemKind::Prim(PrimKind::Enum(EnumKind::EnemyRewardPopTypes))),
                FieldKind::List(ElemKind::Prim(PrimKind::U32)),
                FieldKind::List(ElemKind::Prim(PrimKind::U32)),
                FieldKind::List(ElemKind::Prim(PrimKind::U32)),
                FieldKind::List(ElemKind::Prim(PrimKind::U32)),
                FieldKind::List(ElemKind::Prim(PrimKind::U32)),
                FieldKind::List(ElemKind::Prim(PrimKind::U32)),
            ],
        );
        // 5
        r.add_class("snow.data.MonsterLotTableUserData", vec![FieldKind::List(ElemKind::Struct(4))]);
        // 6
        r.add_class(
            "snow.enemy.EnemyDropItemInfoData.EnemyDropItemTableData.EnemyDropItemInfo",
            vec![
                FieldKind::Prim(PrimKind::U32),
                FieldKind::Prim(PrimKind::Enum(EnumKind::EnemyRewardPopTypes)),
                FieldKind::Prim(PrimKind::I32),
            ],
        );
        // 7
        r.add_class(
            "snow.enemy.EnemyDropItemInfoData.EnemyDropItemTableData",
            vec![
                FieldKind::Prim(PrimKind::U32),
                FieldKind::List(ElemKind::Struct(6)),
                FieldKind::Prim(PrimKind::I32),
            ],
        );
        // 8
        r.add_class(
            "snow.enemy.EnemyDropItemInfoData",
            vec![
                FieldKind::List(ElemKind::Struct(7)),
                FieldKind::Prim(PrimKind::Enum(EnumKind::EnemyRewardPopTypes)),
            ],
        );
        // 9
        r.add_class(
            "snow.enemy.EnemyPartsBreakRewardData.EnemyPartsBreakRewardInfo.PartsBreakGroupConditionInfo",
            vec![FieldKind::Prim(PrimKind::U16), FieldKind::Prim(PrimKind::U16)],
        );
        // 10
        r.add_class(
            "snow.enemy.EnemyPartsBreakRewardData.EnemyPartsBreakRewardInfo",
            vec![
                FieldKind::List(ElemKind::Struct(9)),
                FieldKind::Prim(PrimKind::Enum(EnumKind::PartsBreakConditionType)),
                FieldKind::Prim(PrimKind::Enum(EnumKind::BrokenPartsTypes)),
            ],
        );
        // 11
        r.add_class(
            "snow.enemy.EnemyPartsBreakRewardData",
            vec![FieldKind::List(ElemKind::Struct(10))],
        );
        // 12
        r.add_class(
            "snow.data.PartsTypeTextUserData.TextInfo",
            vec![
                FieldKind::List(ElemKind::Prim(PrimKind::I32)),
                FieldKind::Align(8),
                FieldKind::Prim(PrimKind::Guid),
                FieldKind::Prim(PrimKind::Guid),
            ],
        );
        // 13
        r.add_class(
            "snow.data.PartsTypeTextUserData.PartsTypeInfo",
            vec![
                FieldKind::Prim(PrimKind::Enum(EnumKind::BrokenPartsTypes)),
                FieldKind::List(ElemKind::Struct(12)),
            ],
        );
        // 14
        r.add_class("snow.data.PartsTypeTextUserData", vec![FieldKind::List(ElemKind::Struct(13))]);
        r
    }

    /// Looks a type hash up: the first class filed under it, or a miss
    /// that callers report as `UnknownType`.
    pub fn resolve(&self, hash: u64) -> (r: Option<usize>)
        ensures
            match r {
                Some(c) => c < self.classes@.len() && resolve_spec(self.classes@, hash) == Some(
                    c as int,
                ),
                None => resolve_spec(self.classes@, hash) is None,
            },
    {
        let mut c: usize = 0;
        while c < self.classes.len()
            invariant
                c <= self.classes@.len(),
                forall|j: int| 0 <= j < c ==> (#[trigger] self.classes@[j]).hash != hash,
            decreases self.classes@.len() - c,
        {
            if self.classes[c].hash == hash {
                proof {
                    lemma_resolve_first(self.classes@, hash, c as int);
                }
                return Some(c);
            }
            c = c + 1;
        }
        proof {
            lemma_resolve_none(self.classes@, hash);
        }
        None
    }
}

proof fn lemma_resolve_first(classes: Seq<ClassDef>, hash: u64, c: int)
    requires
        0 <= c < classes.len(),
        classes[c].hash == hash,
        forall|j: int| 0 <= j < c ==> (#[trigger] classes[j]).hash != hash,
    ensures
        resolve_spec(classes, hash) == Some(c),
    decreases c,
{
    if c == 0 {
    } else {
        lemma_resolve_first(classes.drop_first(), hash, c - 1);
    }
}

proof fn lemma_resolve_none(classes: Seq<ClassDef>, hash: u64)
    requires
        forall|j: int| 0 <= j < classes.len() ==> (#[trigger] classes[j]).hash != hash,
    ensures
        resolve_spec(classes, hash) is None,
    decreases classes.len(),
{
    if classes.len() > 0 {
        lemma_resolve_none(classes.drop_first(), hash);
    }
}

} // verus!
