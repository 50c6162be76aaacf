//! Classifying points against a resolved collision file: find the
//! attribute that marks ride-only colliders, and assign each point the
//! meat value of the nearest collider whose attributes are not masked
//! out, unless even the nearest is beyond the fixed cutoff.
use vstd::prelude::*;

use crate::rcol::Rcol;
use crate::shape::{beyond_cutoff, beyond_cutoff_exec, norm_dist2_spec, ratio_lt, ratio_lt_exec,
    Point};
use crate::typed::{rs_parts_group, shape_meat, EmHitDamageRsData, EmHitDamageShapeData, FromRoot};
use crate::Error;

verus! {

/// A classified point: the meat value and parts group of its owning
/// collider, or nothing when no plausible owner exists.
#[derive(Debug, Clone, Copy)]
pub struct ColoredVertex {
    pub position: Point,
    pub meat: Option<usize>,
    pub parts_group: Option<usize>,
}

pub open spec fn ride_name() -> Seq<char> {
    "操獣受付中の追加アタリ"@
}

/// The bit of the first attribute named as the ride marker, or 0.
pub open spec fn ride_filter_spec(attrs: Seq<String>, i: int) -> u32
    decreases attrs.len() - i,
{
    if i < 0 || i >= attrs.len() {
        0
    } else if attrs[i]@ == ride_name() {
        1u32 << (i as u32)
    } else {
        ride_filter_spec(attrs, i + 1)
    }
}

/// The running best candidate: its squared normalized distance as a
/// rational, its meat, and its group's parts group.
pub open spec fn better(n: int, d: int, best: Option<(int, int)>) -> bool {
    match best {
        None => true,
        Some((bn, bd)) => ratio_lt(n, d, bn, bd),
    }
}

/// The parts group announced by the last attachment bound to group
/// `gi` that carries damage-RS data, among the first `n` attachments.
pub open spec fn group_parts_upto(rc: &Rcol, gi: int, n: int) -> Option<int>
    decreases n,
{
    if n <= 0 {
        None
    } else {
        let a = rc.group_attachments@[n - 1];
        if a.collider_group_index == gi && a.user_data is Data
            && EmHitDamageRsData::root_matches(&a.user_data.root_of()) {
            Some(rs_parts_group(&a.user_data.root_of()) as int)
        } else {
            group_parts_upto(rc, gi, n - 1)
        }
    }
}

pub open spec fn group_parts(rc: &Rcol, gi: int) -> Option<int> {
    group_parts_upto(rc, gi, rc.group_attachments@.len() as int)
}

/// One collider's effect on the running best: masked-out colliders and
/// colliders without damage-shape data are skipped; an unknown shape is
/// an error; a strictly nearer collider takes over, and a negative meat
/// value is corrupt.
pub open spec fn classify_collider(
    rc: &Rcol,
    filter: u32,
    p: Point,
    gi: int,
    cj: int,
    st: (Option<(int, int)>, Option<int>, Option<int>),
) -> Result<(Option<(int, int)>, Option<int>, Option<int>), Error> {
    let c = rc.collider_groups@[gi].colliders@[cj];
    if c.attribute_bits & filter != 0 {
        Ok(st)
    } else if !EmHitDamageShapeData::root_matches(&c.user_data.root_of()) {
        Ok(st)
    } else {
        match norm_dist2_spec(c.shape, p) {
            None => Err(Error::UnknownShape),
            Some((n, d)) => if better(n, d, st.0) {
                if shape_meat(&c.user_data.root_of()) < 0 {
                    Err(Error::CorruptData)
                } else {
                    Ok(
                        (
                            Some((n, d)),
                            Some(shape_meat(&c.user_data.root_of()) as int),
                            group_parts(rc, gi),
                        ),
                    )
                }
            } else {
                Ok(st)
            },
        }
    }
}

pub open spec fn classify_cols(
    rc: &Rcol,
    filter: u32,
    p: Point,
    gi: int,
    cj: int,
    st: (Option<(int, int)>, Option<int>, Option<int>),
) -> Result<(Option<(int, int)>, Option<int>, Option<int>), Error>
    decreases rc.collider_groups@[gi].colliders@.len() - cj,
{
    if cj < 0 || cj >= rc.collider_groups@[gi].colliders@.len() {
        Ok(st)
    } else {
        match classify_collider(rc, filter, p, gi, cj, st) {
            Err(e) => Err(e),
            Ok(st2) => classify_cols(rc, filter, p, gi, cj + 1, st2),
        }
    }
}

pub open spec fn classify_groups(
    rc: &Rcol,
    filter: u32,
    p: Point,
    gi: int,
    st: (Option<(int, int)>, Option<int>, Option<int>),
) -> Result<(Option<(int, int)>, Option<int>, Option<int>), Error>
    decreases rc.collider_groups@.len() - gi,
{
    if gi < 0 || gi >= rc.collider_groups@.len() {
        Ok(st)
    } else {
        match classify_cols(rc, filter, p, gi, 0, st) {
            Err(e) => Err(e),
            Ok(st2) => classify_groups(rc, filter, p, gi + 1, st2),
        }
    }
}

/// The classification of one point: the nearest unmasked collider's
/// meat and parts group, or nothing when none is near enough.
pub open spec fn classify_point(rc: &Rcol, filter: u32, p: Point) -> Result<
    (Option<int>, Option<int>),
    Error,
> {
    match classify_groups(rc, filter, p, 0, (None, None, None)) {
        Err(e) => Err(e),
        Ok((best, meat, parts)) => match best {
            None => Ok((None, None)),
            Some((n, d)) => if beyond_cutoff(n, d) {
                Ok((None, None))
            } else {
                Ok((meat, parts))
            },
        },
    }
}

/// An executable optional index carries the spec-level optional value.
pub open spec fn opt_eq(a: Option<usize>, b: Option<int>) -> bool {
    match (a, b) {
        (Option::None, Option::None) => true,
        (Option::Some(x), Option::Some(y)) => x as int == y,
        _ => false,
    }
}

impl Rcol {
    /// The bit of the attribute that marks ride-only colliders, or 0
    /// when the attribute table has no such name.
    pub fn get_monster_ride_filter(&self) -> (r: u32)
        requires
            self.attributes@.len() <= 32,
        ensures
            r == ride_filter_spec(self.attributes@, 0),
    {
        let target: String = "操獣受付中の追加アタリ".to_owned();
        let n = self.attributes.len();
        let mut i: usize = 0;
        while i < n
            invariant
                i <= n == self.attributes@.len(),
                target@ == ride_name(),
                ride_filter_spec(self.attributes@, 0) == ride_filter_spec(
                    self.attributes@,
                    i as int,
                ),
            decreases n - i,
        {
            if self.attributes[i] == target {
                return 1u32 << (i as u32);
            }
            i = i + 1;
        }
        0
    }

    /// Classifies each point by its nearest unmasked collider. Fails
    /// with `NotFound` when no ride-marker attribute exists, with
    /// `UnknownShape` or `CorruptData` when a collider that must be
    /// measured cannot be.
    pub fn color_monster_model(&self, positions: &Vec<Point>) -> (r: Result<
        Vec<ColoredVertex>,
        Error,
    >)
        requires
            self.resolved(),
            self.shapes_wf(),
            self.attributes@.len() <= 32,
            forall|k: int| 0 <= k < positions@.len() ==> (#[trigger] positions@[k]).wf(),
        ensures
            match r {
                Ok(vs) => {
                    &&& ride_filter_spec(self.attributes@, 0) != 0
                    &&& vs@.len() == positions@.len()
                    &&& forall|k: int|
                        0 <= k < positions@.len() ==> {
                            let flt = ride_filter_spec(self.attributes@, 0);
                            &&& (#[trigger] vs@[k]).position == positions@[k]
                            &&& classify_point(self, flt, positions@[k]) matches Ok((m, pg))
                                && opt_eq(vs@[k].meat, m) && opt_eq(vs@[k].parts_group, pg)
                        }
                },
                Err(Error::NotFound) => ride_filter_spec(self.attributes@, 0) == 0,
                Err(e) => ride_filter_spec(self.attributes@, 0) != 0 && exists|k: int|
                    0 <= k < positions@.len() && classify_point(
                        self,
                        ride_filter_spec(self.attributes@, 0),
                        positions@[k],
                    ) == Err::<(Option<int>, Option<int>), Error>(e),
            },
    {
        let filter = self.get_monster_ride_filter();
        if filter == 0 {
            return Err(Error::NotFound);
        }
        let mut out: Vec<ColoredVertex> = Vec::new();
        let npoints = positions.len();
        let mut k: usize = 0;
        while k < npoints
            invariant
                k <= npoints == positions@.len(),
                filter == ride_filter_spec(self.attributes@, 0),
                filter != 0,
                out@.len() == k,
                forall|k2: int|
                    0 <= k2 < k ==> {
                        &&& (#[trigger] out@[k2]).position == positions@[k2]
                        &&& classify_point(self, filter, positions@[k2]) matches Ok((m, pg))
                            && opt_eq(out@[k2].meat, m) && opt_eq(out@[k2].parts_group, pg)
                    },
            decreases npoints - k,
        {
            let pos = positions[k];
            let mut best: Option<(u64, u64)> = None;
            let mut meat: Option<usize> = None;
            let mut parts: Option<usize> = None;
            let ngroups = self.collider_groups.len();
            let mut gi: usize = 0;
            while gi < ngroups
                invariant
                    gi <= ngroups == self.collider_groups@.len(),
                    pos == positions@[k as int],
                    pos.wf(),
                    match best {
                        Some((bn, bd)) => bd >= 1,
                        None => true,
                    },
                    classify_groups(self, filter, pos, 0, (None, None, None)) == classify_groups(
                        self,
                        filter,
                        pos,
                        gi as int,
                        st_of(best, meat, parts),
                    ),
                decreases ngroups - gi,
            {
                let mut new_parts: Option<usize> = None;
                let natts = self.group_attachments.len();
                let mut ai: usize = 0;
                while ai < natts
                    invariant
                        ai <= natts == self.group_attachments@.len(),
                        gi < self.collider_groups@.len(),
                        opt_eq(new_parts, group_parts_upto(self, gi as int, ai as int)),
                    decreases natts - ai,
                {
                    let att = &self.group_attachments[ai];
                    if att.collider_group_index == gi {
                        match att.user_data.downcast_ref::<EmHitDamageRsData>() {
                            Some(d) => {
                                new_parts = Some(d.parts_group as usize);
                            },
                            None => {},
                        }
                    }
                    ai = ai + 1;
                }
                assert(opt_eq(new_parts, group_parts(self, gi as int)));
                let ncols = self.collider_groups[gi].colliders.len();
                let mut cj: usize = 0;
                while cj < ncols
                    invariant
                        cj <= ncols == self.collider_groups@[gi as int].colliders@.len(),
                        gi < self.collider_groups@.len(),
                        pos == positions@[k as int],
                        pos.wf(),
                        opt_eq(new_parts, group_parts(self, gi as int)),
                        match best {
                            Some((bn, bd)) => bd >= 1,
                            None => true,
                        },
                        classify_groups(self, filter, pos, 0, (None, None, None)) == (match
                            classify_cols(
                            self,
                            filter,
                            pos,
                            gi as int,
                            cj as int,
                            st_of(best, meat, parts),
                        ) {
                            Err(e) => Err(e),
                            Ok(st2) => classify_groups(self, filter, pos, gi + 1, st2),
                        }),
                    decreases ncols - cj,
                {
                    let c = &self.collider_groups[gi].colliders[cj];
                    if c.attribute_bits & filter == 0 {
                        match c.user_data.downcast_ref::<EmHitDamageShapeData>() {
                            Some(d) => {
                                let nd = match c.shape.distance(&pos) {
                                    Ok(x) => x,
                                    Err(e) => {
                                        assert(classify_point(self, filter, pos) == Err::<
                                            (Option<int>, Option<int>),
                                            Error,
                                        >(e));
                                        return Err(e);
                                    },
                                };
                                let is_better = match best {
                                    None => true,
                                    Some((bn, bd)) => ratio_lt_exec(nd.0, nd.1, bn, bd),
                                };
                                if is_better {
                                    if d.meat < 0 {
                                        assert(classify_point(self, filter, pos) == Err::<
                                            (Option<int>, Option<int>),
                                            Error,
                                        >(Error::CorruptData));
                                        return Err(Error::CorruptData);
                                    }
                                    best = Some(nd);
                                    meat = Some(d.meat as usize);
                                    parts = new_parts;
                                }
                            },
                            None => {},
                        }
                    }
                    cj = cj + 1;
                }
                gi = gi + 1;
            }
            let assigned: (Option<usize>, Option<usize>) = match best {
                None => (None, None),
                Some((n, d)) => {
                    if beyond_cutoff_exec(n, d) {
                        (None, None)
                    } else {
                        (meat, parts)
                    }
                },
            };
            out.push(ColoredVertex { position: pos, meat: assigned.0, parts_group: assigned.1 });
            k = k + 1;
        }
        Ok(out)
    }
}

/// The spec view of the running executable state.
pub open spec fn st_of(best: Option<(u64, u64)>, meat: Option<usize>, parts: Option<usize>) -> (
    Option<(int, int)>,
    Option<int>,
    Option<int>,
) {
    (
        match best {
            Option::None => None,
            Option::Some((n, d)) => Some((n as int, d as int)),
        },
        match meat {
            Option::None => None,
            Option::Some(m) => Some(m as int),
        },
        match parts {
            Option::None => None,
            Option::Some(p) => Some(p as int),
        },
    )
}

/// With every collider masked out, classification assigns nothing: the
/// running state never changes, so every point is left unowned.
pub proof fn lemma_all_excluded_unassigned(rc: &Rcol, filter: u32, p: Point)
    requires
        forall|gi: int, cj: int|
            0 <= gi < rc.collider_groups@.len() && 0 <= cj
                < rc.collider_groups@[gi].colliders@.len() ==> (
            #[trigger] rc.collider_groups@[gi].colliders@[cj]).attribute_bits & filter != 0,
    ensures
        classify_point(rc, filter, p) == Ok::<(Option<int>, Option<int>), Error>((None, None)),
{
    lemma_groups_excluded(rc, filter, p, 0, (None, None, None));
}

proof fn lemma_cols_excluded(
    rc: &Rcol,
    filter: u32,
    p: Point,
    gi: int,
    cj: int,
    st: (Option<(int, int)>, Option<int>, Option<int>),
)
    requires
        0 <= gi < rc.collider_groups@.len(),
        forall|c: int|
            0 <= c < rc.collider_groups@[gi].colliders@.len() ==> (
            #[trigger] rc.collider_groups@[gi].colliders@[c]).attribute_bits & filter != 0,
    ensures
        classify_cols(rc, filter, p, gi, cj, st) == Ok::<
            (Option<(int, int)>, Option<int>, Option<int>),
            Error,
        >(st),
    decreases rc.collider_groups@[gi].colliders@.len() - cj,
{
    if cj < 0 || cj >= rc.collider_groups@[gi].colliders@.len() {
    } else {
        lemma_cols_excluded(rc, filter, p, gi, cj + 1, st);
    }
}

proof fn lemma_groups_excluded(
    rc: &Rcol,
    filter: u32,
    p: Point,
    gi: int,
    st: (Option<(int, int)>, Option<int>, Option<int>),
)
    requires
        forall|g: int, c: int|
            0 <= g < rc.collider_groups@.len() && 0 <= c
                < rc.collider_groups@[g].colliders@.len() ==> (
            #[trigger] rc.collider_groups@[g].colliders@[c]).attribute_bits & filter != 0,
    ensures
        classify_groups(rc, filter, p, gi, st) == Ok::<
            (Option<(int, int)>, Option<int>, Option<int>),
            Error,
        >(st),
    decreases rc.collider_groups@.len() - gi,
{
    if gi < 0 || gi >= rc.collider_groups@.len() {
    } else {
        lemma_cols_excluded(rc, filter, p, gi, 0, st);
        lemma_groups_excluded(rc, filter, p, gi + 1, st);
    }
}

} // verus!
