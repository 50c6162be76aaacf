//! Binding colliders to a skeleton: each collider's local-space shape
//! is carried into world space by the accumulated transform of the
//! bone it names. Transforms are fixed point — 4096 is one — and the
//! division floors, so the arithmetic is exact and checked.
use vstd::prelude::*;

use crate::rcol::{Collider, Rcol};
use crate::shape::{lemma_mul_range, Point, Shape, COORD_BOUND};
use crate::Error;

verus! {

/// One in fixed point.
pub const FIXED_ONE: i32 = 4096;

/// Largest magnitude of a rotation-scale entry: eight in fixed point.
pub const MAT_BOUND: i32 = 32768;

/// A named bone with its accumulated transform: a fixed-point 3x3
/// rotation-scale block and a translation in coordinate units.
pub struct Bone {
    pub name: String,
    pub m00: i32,
    pub m01: i32,
    pub m02: i32,
    pub m10: i32,
    pub m11: i32,
    pub m12: i32,
    pub m20: i32,
    pub m21: i32,
    pub m22: i32,
    pub tx: i32,
    pub ty: i32,
    pub tz: i32,
}

impl Bone {
    pub open spec fn wf(&self) -> bool {
        &&& -MAT_BOUND <= self.m00 <= MAT_BOUND
        &&& -MAT_BOUND <= self.m01 <= MAT_BOUND
        &&& -MAT_BOUND <= self.m02 <= MAT_BOUND
        &&& -MAT_BOUND <= self.m10 <= MAT_BOUND
        &&& -MAT_BOUND <= self.m11 <= MAT_BOUND
        &&& -MAT_BOUND <= self.m12 <= MAT_BOUND
        &&& -MAT_BOUND <= self.m20 <= MAT_BOUND
        &&& -MAT_BOUND <= self.m21 <= MAT_BOUND
        &&& -MAT_BOUND <= self.m22 <= MAT_BOUND
        &&& -COORD_BOUND <= self.tx <= COORD_BOUND
        &&& -COORD_BOUND <= self.ty <= COORD_BOUND
        &&& -COORD_BOUND <= self.tz <= COORD_BOUND
    }
}

/// An externally supplied skeleton: bones found by name.
pub struct Skeleton {
    pub bones: Vec<Bone>,
}

impl Skeleton {
    pub open spec fn wf(&self) -> bool {
        forall|i: int| 0 <= i < self.bones@.len() ==> (#[trigger] self.bones@[i]).wf()
    }
}

/// The first bone carrying this name.
pub open spec fn find_bone_spec(bones: Seq<Bone>, name: Seq<char>) -> Option<int>
    decreases bones.len(),
{
    if bones.len() == 0 {
        None
    } else if bones[0].name@ == name {
        Some(0)
    } else {
        match find_bone_spec(bones.drop_first(), name) {
            Some(i) => Some(i + 1),
            None => None,
        }
    }
}

/// One output coordinate: the fixed-point row dot product, floored
/// back to coordinate units, plus the translation.
pub open spec fn tcoord(m0: int, m1: int, m2: int, t: int, x: int, y: int, z: int) -> int {
    (m0 * x + m1 * y + m2 * z) / (FIXED_ONE as int) + t
}

pub open spec fn transform_point_spec(b: &Bone, p: Point) -> (int, int, int) {
    (
        tcoord(b.m00 as int, b.m01 as int, b.m02 as int, b.tx as int, p.x as int, p.y as int, p.z as int),
        tcoord(b.m10 as int, b.m11 as int, b.m12 as int, b.ty as int, p.x as int, p.y as int, p.z as int),
        tcoord(b.m20 as int, b.m21 as int, b.m22 as int, b.tz as int, p.x as int, p.y as int, p.z as int),
    )
}

pub open spec fn in_coord_range(v: int) -> bool {
    -COORD_BOUND <= v <= COORD_BOUND
}

/// What binding does to one collider: an unknown shape passes through;
/// a sphere moves by its first bone, a capsule by both bones; a bone
/// name the skeleton lacks is a hard error, and a transformed point
/// that leaves the fixed-point range is reported as corrupt.
pub open spec fn transform_shape_spec(bones: Seq<Bone>, c: &Collider) -> Result<Shape, Error> {
    match c.shape {
        Shape::Unknown => Ok(Shape::Unknown),
        Shape::Sphere { p, r } => match find_bone_spec(bones, c.bone_a@) {
            None => Err(Error::UnknownBone),
            Some(bi) => {
                let (x, y, z) = transform_point_spec(&bones[bi], p);
                if in_coord_range(x) && in_coord_range(y) && in_coord_range(z) {
                    Ok(Shape::Sphere { p: Point { x: x as i32, y: y as i32, z: z as i32 }, r })
                } else {
                    Err(Error::CorruptData)
                }
            },
        },
        Shape::Capsule { p0, p1, r } => match find_bone_spec(bones, c.bone_a@) {
            None => Err(Error::UnknownBone),
            Some(ba) => match find_bone_spec(bones, c.bone_b@) {
                None => Err(Error::UnknownBone),
                Some(bb) => {
                    let (x0, y0, z0) = transform_point_spec(&bones[ba], p0);
                    let (x1, y1, z1) = transform_point_spec(&bones[bb], p1);
                    if in_coord_range(x0) && in_coord_range(y0) && in_coord_range(z0)
                        && in_coord_range(x1) && in_coord_range(y1) && in_coord_range(z1) {
                        Ok(
                            Shape::Capsule {
                                p0: Point { x: x0 as i32, y: y0 as i32, z: z0 as i32 },
                                p1: Point { x: x1 as i32, y: y1 as i32, z: z1 as i32 },
                                r,
                            },
                        )
                    } else {
                        Err(Error::CorruptData)
                    }
                },
            },
        },
    }
}

impl Skeleton {
    /// Looks a bone up by name: the first hit.
    pub fn find_bone(&self, name: &String) -> (r: Option<usize>)
        ensures
            match r {
                Some(i) => i < self.bones@.len() && find_bone_spec(self.bones@, name@) == Some(
                    i as int,
                ),
                None => find_bone_spec(self.bones@, name@) is None,
            },
    {
        let n = self.bones.len();
        let mut i: usize = 0;
        while i < n
            invariant
                i <= n == self.bones@.len(),
                forall|j: int| 0 <= j < i ==> (#[trigger] self.bones@[j]).name@ != name@,
            decreases n - i,
        {
            if self.bones[i].name == *name {
                proof {
                    lemma_find_bone_first(self.bones@, name@, i as int);
                }
                return Some(i);
            }
            i = i + 1;
        }
        proof {
            lemma_find_bone_none(self.bones@, name@);
        }
        None
    }
}

proof fn lemma_find_bone_first(bones: Seq<Bone>, name: Seq<char>, i: int)
    requires
        0 <= i < bones.len(),
        bones[i].name@ == name,
        forall|j: int| 0 <= j < i ==> (#[trigger] bones[j]).name@ != name,
    ensures
        find_bone_spec(bones, name) == Some(i),
    decreases i,
{
    if i == 0 {
    } else {
        lemma_find_bone_first(bones.drop_first(), name, i - 1);
    }
}

proof fn lemma_find_bone_none(bones: Seq<Bone>, name: Seq<char>)
    requires
        forall|j: int| 0 <= j < bones.len() ==> (#[trigger] bones[j]).name@ != name,
    ensures
        find_bone_spec(bones, name) is None,
    decreases bones.len(),
{
    if bones.len() > 0 {
        lemma_find_bone_none(bones.drop_first(), name);
    }
}

/// Floors a fixed-point product sum back to coordinate units.
fn fixed_floor_div(v: i64) -> (r: i64)
    requires
        -0x1_0000_0000 <= v <= 0x1_0000_0000,
    ensures
        r == v as int / 4096,
{
    if v >= 0 {
        ((v as u64) / 4096) as i64
    } else {
        let a = (-v) as u64;
        let q = (a + 4095) / 4096;
        proof {
            let rem = (a + 4095) as int % 4096;
            vstd::arithmetic::div_mod::lemma_fundamental_div_mod((a + 4095) as int, 4096);
            assert(v as int == (-(q as int)) * 4096 + (4095 - rem)) by {
                assert((a + 4095) as int == 4096 * ((a + 4095) as int / 4096) + rem);
            }
            vstd::arithmetic::div_mod::lemma_fundamental_div_mod_converse(
                v as int,
                4096,
                -(q as int),
                4095 - rem,
            );
        }
        -(q as i64)
    }
}

/// Applies one bone's transform to an in-range point.
fn transform_point(b: &Bone, p: &Point) -> (r: (i64, i64, i64))
    requires
        b.wf(),
        p.wf(),
    ensures
        (r.0 as int, r.1 as int, r.2 as int) == transform_point_spec(b, *p),
        -0x7_0000 <= r.0 <= 0x7_0000,
        -0x7_0000 <= r.1 <= 0x7_0000,
        -0x7_0000 <= r.2 <= 0x7_0000,
{
    let x = p.x as i64;
    let y = p.y as i64;
    let z = p.z as i64;
    proof {
        lemma_mul_range(b.m00 as int, x as int, 0x8000, 0x4000);
        lemma_mul_range(b.m01 as int, y as int, 0x8000, 0x4000);
        lemma_mul_range(b.m02 as int, z as int, 0x8000, 0x4000);
        lemma_mul_range(b.m10 as int, x as int, 0x8000, 0x4000);
        lemma_mul_range(b.m11 as int, y as int, 0x8000, 0x4000);
        lemma_mul_range(b.m12 as int, z as int, 0x8000, 0x4000);
        lemma_mul_range(b.m20 as int, x as int, 0x8000, 0x4000);
        lemma_mul_range(b.m21 as int, y as int, 0x8000, 0x4000);
        lemma_mul_range(b.m22 as int, z as int, 0x8000, 0x4000);
    }
    let sx = b.m00 as i64 * x + b.m01 as i64 * y + b.m02 as i64 * z;
    let sy = b.m10 as i64 * x + b.m11 as i64 * y + b.m12 as i64 * z;
    let sz = b.m20 as i64 * x + b.m21 as i64 * y + b.m22 as i64 * z;
    let qx = fixed_floor_div(sx);
    let qy = fixed_floor_div(sy);
    let qz = fixed_floor_div(sz);
    proof {
        lemma_div_bound(sx as int);
        lemma_div_bound(sy as int);
        lemma_div_bound(sz as int);
    }
    (qx + b.tx as i64, qy + b.ty as i64, qz + b.tz as i64)
}

proof fn lemma_div_bound(v: int)
    requires
        -0x6000_0000 <= v <= 0x6000_0000,
    ensures
        -0x6_0000 <= v / 4096 <= 0x6_0000,
{
    vstd::arithmetic::div_mod::lemma_div_is_ordered(-0x6000_0000, v, 4096);
    vstd::arithmetic::div_mod::lemma_div_is_ordered(v, 0x6000_0000, 4096);
}

impl Rcol {
    /// Carries every collider's shape into world space using the bone
    /// its record names; capsules need both named bones. A missing
    /// bone is a hard error; so is a shape that leaves the fixed-point
    /// range. On failure the structure is partially bound and should
    /// be discarded.
    pub fn apply_skeleton(&mut self, skel: &Skeleton) -> (r: Result<(), Error>)
        requires
            old(self).shapes_wf(),
            skel.wf(),
        ensures
            match r {
                Ok(()) => {
                    &&& final(self).shapes_wf()
                    &&& final(self).collider_groups@.len() == old(self).collider_groups@.len()
                    &&& forall|gi: int|
                        0 <= gi < old(self).collider_groups@.len() ==> (#[trigger] final(self).collider_groups@[gi]).name == old(self).collider_groups@[gi].name
                            && final(self).collider_groups@[gi].colliders@.len() == old(self).collider_groups@[gi].colliders@.len()
                    &&& forall|gi: int, cj: int|
                        0 <= gi < old(self).collider_groups@.len() && 0 <= cj < old(self).collider_groups@[gi].colliders@.len() ==> bound_collider_eq(
                            &old(self).collider_groups@[gi].colliders@[cj],
                            &(#[trigger] final(self).collider_groups@[gi].colliders@[cj]),
                            skel.bones@,
                        )
                    &&& final(self).group_attachments == old(self).group_attachments
                    &&& final(self).attributes == old(self).attributes
                    &&& final(self).es == old(self).es
                    &&& final(self).rsz == old(self).rsz
                },
                Err(e) => exists|gi: int, cj: int|
                    0 <= gi < old(self).collider_groups@.len() && 0 <= cj < old(self).collider_groups@[gi].colliders@.len() && transform_shape_spec(
                        skel.bones@,
                        &old(self).collider_groups@[gi].colliders@[cj],
                    ) == Err::<Shape, Error>(e),
            },
    {
        let ngroups = self.collider_groups.len();
        let ghost rc0 = *self;
        let mut gi: usize = 0;
        while gi < ngroups
            invariant
                ngroups == rc0.collider_groups@.len(),
                gi <= ngroups,
                rc0.shapes_wf(),
                skel.wf(),
                self.rsz == rc0.rsz,
                self.attributes == rc0.attributes,
                self.es == rc0.es,
                self.group_attachments == rc0.group_attachments,
                self.collider_groups@.len() == ngroups,
                forall|g: int|
                    gi <= g < ngroups ==> #[trigger] self.collider_groups@[g]
                        == rc0.collider_groups@[g],
                forall|g: int|
                    0 <= g < gi ==> (#[trigger] self.collider_groups@[g]).name
                        == rc0.collider_groups@[g].name && self.collider_groups@[g].colliders@.len()
                        == rc0.collider_groups@[g].colliders@.len(),
                forall|g: int, c: int|
                    0 <= g < gi && 0 <= c < rc0.collider_groups@[g].colliders@.len()
                        ==> bound_collider_eq(
                        &rc0.collider_groups@[g].colliders@[c],
                        &(#[trigger] self.collider_groups@[g].colliders@[c]),
                        skel.bones@,
                    ) && (#[trigger] self.collider_groups@[g].colliders@[c]).shape.wf(),
            decreases ngroups - gi,
        {
            let ghost pre_groups = self.collider_groups@;
            let mut g = self.collider_groups.remove(gi);
            assert(g == rc0.collider_groups@[gi as int]);
            let ghost old_g = rc0.collider_groups@[gi as int];
            let ncols = g.colliders.len();
            let mut cj: usize = 0;
            let mut err_found: Option<Error> = None;
            while cj < ncols && err_found.is_none()
                invariant
                    cj <= ncols == old_g.colliders@.len(),
                    match err_found {
                        Some(e) => exists|c: int|
                            0 <= c < old_g.colliders@.len() && transform_shape_spec(
                                skel.bones@,
                                &old_g.colliders@[c],
                            ) == Err::<Shape, Error>(e),
                        None => {
                            &&& g.name == old_g.name
                            &&& g.colliders@.len() == ncols
                            &&& forall|c: int|
                                cj <= c < ncols ==> #[trigger] g.colliders@[c]
                                    == old_g.colliders@[c]
                            &&& forall|c: int|
                                0 <= c < cj ==> bound_collider_eq(
                                    &old_g.colliders@[c],
                                    &(#[trigger] g.colliders@[c]),
                                    skel.bones@,
                                ) && (#[trigger] g.colliders@[c]).shape.wf()
                        },
                    },
                decreases ncols - cj, (if err_found is None { 1int } else { 0int }),
            {
                let ghost pre = g.colliders@;
                let mut c = g.colliders.remove(cj);
                assert(c == old_g.colliders@[cj as int]);
                let ghost c0 = old_g.colliders@[cj as int];
                let mut failed: Option<Error> = None;
                let sh = c.shape;
                match sh {
                    Shape::Unknown => {},
                    Shape::Sphere { p, r } => {
                        let pp = p;
                        let rr = r;
                        match skel.find_bone(&c.bone_a) {
                            None => {
                                failed = Some(Error::UnknownBone);
                            },
                            Some(bi) => {
                                let t = transform_point(&skel.bones[bi], &pp);
                                if -COORD_BOUND as i64 <= t.0 && t.0 <= COORD_BOUND as i64
                                    && -COORD_BOUND as i64 <= t.1 && t.1 <= COORD_BOUND as i64
                                    && -COORD_BOUND as i64 <= t.2 && t.2 <= COORD_BOUND as i64 {
                                    c.shape = Shape::Sphere {
                                        p: Point { x: t.0 as i32, y: t.1 as i32, z: t.2 as i32 },
                                        r: rr,
                                    };
                                } else {
                                    failed = Some(Error::CorruptData);
                                }
                            },
                        }
                    },
                    Shape::Capsule { p0, p1, r } => {
                        let pp0 = p0;
                        let pp1 = p1;
                        let rr = r;
                        match skel.find_bone(&c.bone_a) {
                            None => {
                                failed = Some(Error::UnknownBone);
                            },
                            Some(ba) => match skel.find_bone(&c.bone_b) {
                                None => {
                                    failed = Some(Error::UnknownBone);
                                },
                                Some(bb) => {
                                    let t0 = transform_point(&skel.bones[ba], &pp0);
                                    let t1 = transform_point(&skel.bones[bb], &pp1);
                                    if -COORD_BOUND as i64 <= t0.0 && t0.0 <= COORD_BOUND as i64
                                        && -COORD_BOUND as i64 <= t0.1 && t0.1
                                        <= COORD_BOUND as i64 && -COORD_BOUND as i64 <= t0.2 && t0.2
                                        <= COORD_BOUND as i64 && -COORD_BOUND as i64 <= t1.0 && t1.0
                                        <= COORD_BOUND as i64 && -COORD_BOUND as i64 <= t1.1 && t1.1
                                        <= COORD_BOUND as i64 && -COORD_BOUND as i64 <= t1.2 && t1.2
                                        <= COORD_BOUND as i64 {
                                        c.shape = Shape::Capsule {
                                            p0: Point {
                                                x: t0.0 as i32,
                                                y: t0.1 as i32,
                                                z: t0.2 as i32,
                                            },
                                            p1: Point {
                                                x: t1.0 as i32,
                                                y: t1.1 as i32,
                                                z: t1.2 as i32,
                                            },
                                            r: rr,
                                        };
                                    } else {
                                        failed = Some(Error::CorruptData);
                                    }
                                },
                            },
                        }
                    },
                }
                g.colliders.insert(cj, c);
                proof {
                    assert(g.colliders@ =~= pre.update(cj as int, g.colliders@[cj as int]));
                }
                match failed {
                    None => {
                        assert(bound_collider_eq(&c0, &g.colliders@[cj as int], skel.bones@));
                        cj = cj + 1;
                    },
                    Some(e) => {
                        assert(transform_shape_spec(skel.bones@, &c0) == Err::<Shape, Error>(e));
                        err_found = Some(e);
                    },
                }
            }
            self.collider_groups.insert(gi, g);
            proof {
                assert(self.collider_groups@ =~= pre_groups.update(
                    gi as int,
                    self.collider_groups@[gi as int],
                ));
            }
            match err_found {
                Some(e) => {
                    return Err(e);
                },
                None => {},
            }
            gi = gi + 1;
        }
        Ok(())
    }
}

/// One collider after binding: everything but the shape kept, and the
/// shape exactly what the transform dictates.
pub open spec fn bound_collider_eq(a: &Collider, b: &Collider, bones: Seq<Bone>) -> bool {
    &&& b.name == a.name
    &&& b.bone_a == a.bone_a
    &&& b.bone_b == a.bone_b
    &&& b.attribute_bits == a.attribute_bits
    &&& b.user_data == a.user_data
    &&& transform_shape_spec(bones, a) == Ok::<Shape, Error>(b.shape)
}

} // verus!
