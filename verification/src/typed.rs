//! Typed views over claimed RSZ roots. A root is an opaque tagged
//! value; a consumer asks for one of the recognized classes and gets
//! `None` when the root's actual type is another one.
use vstd::prelude::*;

use crate::hash::{hash_str, path_hash};
use crate::rcol::UserData;
use crate::rsz::{RszRoot, RszValue};

verus! {

/// A type that can be read out of a claimed root.
pub trait FromRoot: Sized {
    /// The root carries this class: right type hash, right field shape.
    spec fn root_matches(root: &RszRoot) -> bool;

    /// The extracted view carries the root's values.
    spec fn corresponds(root: &RszRoot, v: &Self) -> bool;

    /// Extracts the view, exactly when the root carries this class.
    fn from_root(root: &RszRoot) -> (r: Option<Self>)
        ensures
            r matches Some(v) ==> Self::root_matches(root) && Self::corresponds(root, &v),
            r is None ==> !Self::root_matches(root),
    ;
}

#[derive(Debug)]
pub struct PhysicsUserData {
    pub name: String,
}

#[derive(Debug)]
pub struct EmHitDamageRsData {
    pub base: PhysicsUserData,
    pub parts_group: u16,
}

#[derive(Debug)]
pub struct EmHitDamageShapeData {
    pub base: PhysicsUserData,
    pub custom_shape_type: i32,
    pub ring_radius_bits: u32,
    pub limited_hit_attr: i32,
    pub hit_sound_attr: i32,
    pub hit_pos_correction_bits: u32,
    pub meat: i32,
    pub damage_attr: u16,
    pub base_hit_mark_type: i32,
}

/// The embedded `via.physics.UserData` struct: one name string.
pub open spec fn base_matches(v: RszValue) -> bool {
    v matches RszValue::Struct(fs) && fs@.len() == 1 && fs@[0] is Str
}

pub open spec fn base_name(v: RszValue) -> Seq<char> {
    match v {
        RszValue::Struct(fs) => match fs@[0] {
            RszValue::Str(s) => s@,
            _ => Seq::empty(),
        },
        _ => Seq::empty(),
    }
}

pub open spec fn rs_data_hash() -> u64 {
    path_hash("snow.hit.userdata.EmHitDamageRSData"@)
}

pub open spec fn shape_data_hash() -> u64 {
    path_hash("snow.hit.userdata.EmHitDamageShapeData"@)
}

/// The parts-group value of a damage-RS root.
pub open spec fn rs_parts_group(root: &RszRoot) -> u16 {
    match root.fields@[1] {
        RszValue::U16(x) => x,
        _ => 0,
    }
}

/// The meat value of a damage-shape root.
pub open spec fn shape_meat(root: &RszRoot) -> i32 {
    match root.fields@[6] {
        RszValue::I32(x) => x,
        _ => 0,
    }
}

impl FromRoot for EmHitDamageRsData {
    open spec fn root_matches(root: &RszRoot) -> bool {
        &&& root.type_hash == rs_data_hash()
        &&& root.fields@.len() == 2
        &&& base_matches(root.fields@[0])
        &&& root.fields@[1] is U16
    }

    open spec fn corresponds(root: &RszRoot, v: &Self) -> bool {
        &&& v.base.name@ == base_name(root.fields@[0])
        &&& v.parts_group == rs_parts_group(root)
    }

    fn from_root(root: &RszRoot) -> (r: Option<Self>) {
        if hash_str("snow.hit.userdata.EmHitDamageRSData") != root.type_hash {
            return None;
        }
        if root.fields.len() != 2 {
            return None;
        }
        let name = match &root.fields[0] {
            RszValue::Struct(fs) => {
                if fs.len() != 1 {
                    return None;
                }
                match &fs[0] {
                    RszValue::Str(s) => s.clone(),
                    _ => {
                        return None;
                    },
                }
            },
            _ => {
                return None;
            },
        };
        let parts_group = match &root.fields[1] {
            RszValue::U16(x) => *x,
            _ => {
                return None;
            },
        };
        Some(EmHitDamageRsData { base: PhysicsUserData { name }, parts_group })
    }
}

impl FromRoot for EmHitDamageShapeData {
    open spec fn root_matches(root: &RszRoot) -> bool {
        &&& root.type_hash == shape_data_hash()
        &&& root.fields@.len() == 9
        &&& base_matches(root.fields@[0])
        &&& root.fields@[1] is Enum
        &&& root.fields@[2] is F32Bits
        &&& root.fields@[3] is Enum
        &&& root.fields@[4] is Enum
        &&& root.fields@[5] is F32Bits
        &&& root.fields@[6] is I32
        &&& root.fields@[7] is Flags
        &&& root.fields@[8] is Enum
    }

    open spec fn corresponds(root: &RszRoot, v: &Self) -> bool {
        &&& v.base.name@ == base_name(root.fields@[0])
        &&& root.fields@[1] matches RszValue::Enum(x) && v.custom_shape_type == x
        &&& root.fields@[2] matches RszValue::F32Bits(x) && v.ring_radius_bits == x
        &&& root.fields@[3] matches RszValue::Enum(x) && v.limited_hit_attr == x
        &&& root.fields@[4] matches RszValue::Enum(x) && v.hit_sound_attr == x
        &&& root.fields@[5] matches RszValue::F32Bits(x) && v.hit_pos_correction_bits == x
        &&& v.meat == shape_meat(root)
        &&& root.fields@[7] matches RszValue::Flags(x) && v.damage_attr == x
        &&& root.fields@[8] matches RszValue::Enum(x) && v.base_hit_mark_type == x
    }

    fn from_root(root: &RszRoot) -> (r: Option<Self>) {
        if hash_str("snow.hit.userdata.EmHitDamageShapeData") != root.type_hash {
            return None;
        }
        if root.fields.len() != 9 {
            return None;
        }
        let name = match &root.fields[0] {
            RszValue::Struct(fs) => {
                if fs.len() != 1 {
                    return None;
                }
                match &fs[0] {
                    RszValue::Str(s) => s.clone(),
                    _ => {
                        return None;
                    },
                }
            },
            _ => {
                return None;
            },
        };
        let custom_shape_type = match &root.fields[1] {
            RszValue::Enum(x) => *x,
            _ => {
                return None;
            },
        };
        let ring_radius_bits = match &root.fields[2] {
            RszValue::F32Bits(x) => *x,
            _ => {
                return None;
            },
        };
        let limited_hit_attr = match &root.fields[3] {
            RszValue::Enum(x) => *x,
            _ => {
                return None;
            },
        };
        let hit_sound_attr = match &root.fields[4] {
            RszValue::Enum(x) => *x,
            _ => {
                return None;
            },
        };
        let hit_pos_correction_bits = match &root.fields[5] {
            RszValue::F32Bits(x) => *x,
            _ => {
                return None;
            },
        };
        let meat = match &root.fields[6] {
            RszValue::I32(x) => *x,
            _ => {
                return None;
            },
        };
        let damage_attr = match &root.fields[7] {
            RszValue::Flags(x) => *x,
            _ => {
                return None;
            },
        };
        let base_hit_mark_type = match &root.fields[8] {
            RszValue::Enum(x) => *x,
            _ => {
                return None;
            },
        };
        Some(
            EmHitDamageShapeData {
                base: PhysicsUserData { name },
                custom_shape_type,
                ring_radius_bits,
                limited_hit_attr,
                hit_sound_attr,
                hit_pos_correction_bits,
                meat,
                damage_attr,
                base_hit_mark_type,
            },
        )
    }
}

impl UserData {
    /// The claimed root a resolved reference holds.
    pub open spec fn root_of(&self) -> RszRoot {
        match *self {
            UserData::Data(root) => root,
            UserData::RszRootIndex(_) => vstd::pervasive::arbitrary(),
        }
    }

    /// Reads the claimed value as `T`, returning `None` when the root
    /// carries another type.
    pub fn downcast<T: FromRoot>(self) -> (r: Option<T>)
        requires
            self is Data,
        ensures
            r matches Some(v) ==> T::root_matches(&self.root_of()) && T::corresponds(
                &self.root_of(),
                &v,
            ),
            r is None ==> !T::root_matches(&self.root_of()),
    {
        match self {
            UserData::Data(root) => T::from_root(&root),
            UserData::RszRootIndex(_) => {
                proof {
                    assert(false);
                }
                None
            },
        }
    }

    /// Reads the claimed value as `T` without consuming it.
    pub fn downcast_ref<T: FromRoot>(&self) -> (r: Option<T>)
        requires
            *self is Data,
        ensures
            r matches Some(v) ==> T::root_matches(&self.root_of()) && T::corresponds(
                &self.root_of(),
                &v,
            ),
            r is None ==> !T::root_matches(&self.root_of()),
    {
        match self {
            UserData::Data(root) => T::from_root(root),
            UserData::RszRootIndex(_) => {
                proof {
                    assert(false);
                }
                None
            },
        }
    }
}

} // verus!
