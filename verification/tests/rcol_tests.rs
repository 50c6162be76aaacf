use mhrice::classify::ColoredVertex;
use mhrice::hash::hash_str;
use mhrice::pak::PakReader;
use mhrice::rcol::{scan_rcol, Rcol, UserData};
use mhrice::registry::Registry;
use mhrice::shape::{Point, Shape};
use mhrice::skeleton::{Bone, Skeleton};
use mhrice::typed::{EmHitDamageRsData, EmHitDamageShapeData};
use mhrice::Error;

fn w16(v: &mut Vec<u8>, x: u16) {
    v.extend_from_slice(&x.to_le_bytes());
}

fn w32(v: &mut Vec<u8>, x: u32) {
    v.extend_from_slice(&x.to_le_bytes());
}

fn wi32(v: &mut Vec<u8>, x: i32) {
    v.extend_from_slice(&x.to_le_bytes());
}

fn w64(v: &mut Vec<u8>, x: u64) {
    v.extend_from_slice(&x.to_le_bytes());
}

fn wstr(v: &mut Vec<u8>, s: &str) {
    let units: Vec<u16> = s.encode_utf16().collect();
    w32(v, units.len() as u32);
    for u in units {
        w16(v, u);
    }
}

fn build_block(base: u64, tags: &[u64], root_tag_idx: &[u32], data: &[u8]) -> Vec<u8> {
    let tables_end = 16 + 8 * tags.len() + 4 * root_tag_idx.len();
    let data_start = (tables_end + 15) / 16 * 16;
    let mut b = vec![];
    w32(&mut b, root_tag_idx.len() as u32);
    w32(&mut b, tags.len() as u32);
    w64(&mut b, base + data_start as u64);
    for t in tags {
        w64(&mut b, *t);
    }
    for i in root_tag_idx {
        w32(&mut b, *i);
    }
    while b.len() < data_start {
        b.push(0);
    }
    b.extend_from_slice(data);
    b
}

fn sphere_shape(x: i32, y: i32, z: i32, r: i32) -> Vec<u8> {
    let mut v = vec![];
    w32(&mut v, 1);
    wi32(&mut v, x);
    wi32(&mut v, y);
    wi32(&mut v, z);
    wi32(&mut v, r);
    v
}

fn capsule_shape(p0: (i32, i32, i32), p1: (i32, i32, i32), r: i32) -> Vec<u8> {
    let mut v = vec![];
    w32(&mut v, 3);
    wi32(&mut v, p0.0);
    wi32(&mut v, p0.1);
    wi32(&mut v, p0.2);
    wi32(&mut v, p1.0);
    wi32(&mut v, p1.1);
    wi32(&mut v, p1.2);
    wi32(&mut v, r);
    v
}

fn unknown_shape() -> Vec<u8> {
    let mut v = vec![];
    w32(&mut v, 7);
    v.extend_from_slice(&[0u8; 16]);
    v
}

struct ColDesc {
    name: &'static str,
    bone_a: &'static str,
    bone_b: &'static str,
    bits: u32,
    root: u32,
    shape: Vec<u8>,
}

struct AttDesc {
    name: &'static str,
    name_b: &'static str,
    p: u32,
    r: u64,
    group: u32,
    root: u32,
}

fn build_rcol(
    attrs: &[&str],
    es: &[&str],
    groups: &[(&str, Vec<ColDesc>)],
    atts: &[AttDesc],
    tags: &[u64],
    root_tag_idx: &[u32],
    rsz_data: &[u8],
) -> Vec<u8> {
    let mut body = vec![];
    for a in attrs {
        wstr(&mut body, a);
    }
    for e in es {
        wstr(&mut body, e);
    }
    for (gname, cols) in groups {
        wstr(&mut body, gname);
        w32(&mut body, cols.len() as u32);
        for c in cols {
            wstr(&mut body, c.name);
            wstr(&mut body, c.bone_a);
            wstr(&mut body, c.bone_b);
            w32(&mut body, c.bits);
            w32(&mut body, c.root);
            body.extend_from_slice(&c.shape);
        }
    }
    for a in atts {
        wstr(&mut body, a.name);
        wstr(&mut body, a.name_b);
        w32(&mut body, a.p);
        w64(&mut body, a.r);
        w32(&mut body, a.group);
        w32(&mut body, a.root);
    }
    let base = 24 + body.len();
    let block = build_block(base as u64, tags, root_tag_idx, rsz_data);
    let mut out = vec![b'R', b'C', b'O', b'L'];
    w32(&mut out, groups.len() as u32);
    w32(&mut out, atts.len() as u32);
    w32(&mut out, attrs.len() as u32);
    w32(&mut out, es.len() as u32);
    w32(&mut out, block.len() as u32);
    out.extend_from_slice(&body);
    out.extend_from_slice(&block);
    out
}

fn shape_data_bytes(name: &str, meat: i32) -> Vec<u8> {
    let mut data = vec![];
    wstr(&mut data, name);
    w32(&mut data, 0); // custom shape type
    w32(&mut data, 0x3f800000);
    w32(&mut data, 0);
    w32(&mut data, 0);
    w32(&mut data, 0);
    wi32(&mut data, meat);
    w16(&mut data, 0);
    w32(&mut data, 0);
    data
}

fn rs_data_bytes(name: &str, parts: u16) -> Vec<u8> {
    let mut data = vec![];
    wstr(&mut data, name);
    w16(&mut data, parts);
    data
}

const RIDE: &str = "操獣受付中の追加アタリ";

/// One group with one sphere collider (root 1), one attachment (root 0).
fn simple_rcol_bytes() -> Vec<u8> {
    let t_rs = hash_str("snow.hit.userdata.EmHitDamageRSData");
    let t_shape = hash_str("snow.hit.userdata.EmHitDamageShapeData");
    let mut data = rs_data_bytes("rsdata", 9);
    data.extend_from_slice(&shape_data_bytes("shapedata", 3));
    build_rcol(
        &[RIDE, "spare"],
        &["extra"],
        &[(
            "body",
            vec![ColDesc {
                name: "c0",
                bone_a: "b0",
                bone_b: "b1",
                bits: 0,
                root: 1,
                shape: sphere_shape(0, 0, 0, 5),
            }],
        )],
        &[AttDesc { name: "att", name_b: "attb", p: 4, r: 8, group: 0, root: 0 }],
        &[t_rs, t_shape],
        &[0, 1],
        &data,
    )
}

#[test]
fn parse_without_resolution_keeps_indices() {
    let reg = Registry::new();
    let rc = Rcol::new(&simple_rcol_bytes(), false, &reg).unwrap();
    assert_eq!(rc.attributes, vec![RIDE.to_string(), "spare".to_string()]);
    assert_eq!(rc.es.len(), 1);
    assert_eq!(rc.collider_groups.len(), 1);
    let c = &rc.collider_groups[0].colliders[0];
    assert_eq!(c.name, "c0");
    assert_eq!(c.bone_a, "b0");
    assert!(matches!(c.shape, Shape::Sphere { p: Point { x: 0, y: 0, z: 0 }, r: 5 }));
    assert!(matches!(c.user_data, UserData::RszRootIndex(1)));
    let a = &rc.group_attachments[0];
    assert_eq!(a.collider_group_index, 0);
    assert!(matches!(a.user_data, UserData::RszRootIndex(0)));
}

#[test]
fn resolution_claims_each_root_into_its_owner() {
    let reg = Registry::new();
    let rc = Rcol::new(&simple_rcol_bytes(), true, &reg).unwrap();
    let shape_data: EmHitDamageShapeData =
        rc.collider_groups[0].colliders[0].user_data.downcast_ref().unwrap();
    assert_eq!(shape_data.meat, 3);
    assert_eq!(shape_data.base.name, "shapedata");
    let rs: EmHitDamageRsData = rc.group_attachments[0].user_data.downcast_ref().unwrap();
    assert_eq!(rs.parts_group, 9);
    // asking for the wrong type yields nothing
    let wrong: Option<EmHitDamageRsData> =
        rc.collider_groups[0].colliders[0].user_data.downcast_ref();
    assert!(wrong.is_none());
}

#[test]
fn claiming_one_root_twice_is_already_claimed() {
    // collider and attachment both name root 0
    let t_rs = hash_str("snow.hit.userdata.EmHitDamageRSData");
    let data = rs_data_bytes("rsdata", 1);
    let bytes = build_rcol(
        &[],
        &[],
        &[(
            "g",
            vec![ColDesc {
                name: "c",
                bone_a: "a",
                bone_b: "b",
                bits: 0,
                root: 0,
                shape: unknown_shape(),
            }],
        )],
        &[AttDesc { name: "x", name_b: "y", p: 0, r: 0, group: 0, root: 0 }],
        &[t_rs],
        &[0],
        &data,
    );
    let reg = Registry::new();
    assert!(matches!(Rcol::new(&bytes, true, &reg), Err(Error::AlreadyClaimed)));
    // without resolution the same file parses fine
    assert!(Rcol::new(&bytes, false, &reg).is_ok());
}

#[test]
fn unreferenced_root_is_orphaned() {
    // two roots in the block, only the first claimed by the attachment
    let t_rs = hash_str("snow.hit.userdata.EmHitDamageRSData");
    let mut data = rs_data_bytes("one", 1);
    data.extend_from_slice(&rs_data_bytes("two", 2));
    let bytes = build_rcol(
        &[],
        &[],
        &[("empty", vec![])],
        &[AttDesc { name: "x", name_b: "y", p: 0, r: 0, group: 0, root: 0 }],
        &[t_rs, t_rs],
        &[0, 0],
        &data,
    );
    let reg = Registry::new();
    assert!(matches!(Rcol::new(&bytes, true, &reg), Err(Error::OrphanedRoot)));
}

#[test]
fn root_index_out_of_range_is_rejected() {
    let t_rs = hash_str("snow.hit.userdata.EmHitDamageRSData");
    let data = rs_data_bytes("one", 1);
    let bytes = build_rcol(
        &[],
        &[],
        &[("empty", vec![])],
        &[AttDesc { name: "x", name_b: "y", p: 0, r: 0, group: 0, root: 7 }],
        &[t_rs],
        &[0],
        &data,
    );
    let reg = Registry::new();
    assert!(matches!(Rcol::new(&bytes, true, &reg), Err(Error::IndexOutOfRange)));
}

#[test]
fn attribute_bits_must_stay_under_attribute_count() {
    // two attributes, so bits must be < 4; bit 2 set is corrupt
    let t_rs = hash_str("snow.hit.userdata.EmHitDamageRSData");
    let bytes = build_rcol(
        &["a0", "a1"],
        &[],
        &[(
            "g",
            vec![ColDesc {
                name: "c",
                bone_a: "a",
                bone_b: "b",
                bits: 4,
                root: 0,
                shape: unknown_shape(),
            }],
        )],
        &[],
        &[t_rs],
        &[0],
        &rs_data_bytes("one", 1),
    );
    let reg = Registry::new();
    assert!(matches!(Rcol::new(&bytes, false, &reg), Err(Error::CorruptData)));
}

#[test]
fn ride_filter_finds_marker_attribute() {
    let reg = Registry::new();
    let rc = Rcol::new(&simple_rcol_bytes(), true, &reg).unwrap();
    assert_eq!(rc.get_monster_ride_filter(), 1);
}

#[test]
fn ride_filter_absent_is_zero() {
    let t_rs = hash_str("snow.hit.userdata.EmHitDamageRSData");
    let bytes = build_rcol(
        &["only", "plain", "names"],
        &[],
        &[("empty", vec![])],
        &[AttDesc { name: "x", name_b: "y", p: 0, r: 0, group: 0, root: 0 }],
        &[t_rs],
        &[0],
        &rs_data_bytes("one", 1),
    );
    let reg = Registry::new();
    let rc = Rcol::new(&bytes, true, &reg).unwrap();
    assert_eq!(rc.get_monster_ride_filter(), 0);
    assert!(matches!(
        rc.color_monster_model(&vec![Point { x: 0, y: 0, z: 0 }]),
        Err(Error::NotFound)
    ));
}

#[test]
fn classification_assigns_nearest_collider() {
    let reg = Registry::new();
    let rc = Rcol::new(&simple_rcol_bytes(), true, &reg).unwrap();
    let points = vec![
        Point { x: 0, y: 0, z: 0 },  // at the center: owned, meat 3
        Point { x: 100, y: 0, z: 0 },  // 20 radii away: no plausible owner
    ];
    let out: Vec<ColoredVertex> = rc.color_monster_model(&points).unwrap();
    assert_eq!(out.len(), 2);
    assert_eq!(out[0].meat, Some(3));
    assert_eq!(out[0].parts_group, Some(9));
    assert_eq!(out[1].meat, None);
    assert_eq!(out[1].parts_group, None);
}

#[test]
fn classification_with_all_colliders_masked_assigns_nothing() {
    // the collider carries the ride attribute bit itself, so the
    // exclusion mask removes every candidate
    let t_rs = hash_str("snow.hit.userdata.EmHitDamageRSData");
    let t_shape = hash_str("snow.hit.userdata.EmHitDamageShapeData");
    let mut data = rs_data_bytes("rsdata", 9);
    data.extend_from_slice(&shape_data_bytes("shapedata", 3));
    let bytes = build_rcol(
        &[RIDE],
        &[],
        &[(
            "body",
            vec![ColDesc {
                name: "c0",
                bone_a: "b0",
                bone_b: "b1",
                bits: 1,
                root: 1,
                shape: sphere_shape(0, 0, 0, 5),
            }],
        )],
        &[AttDesc { name: "att", name_b: "attb", p: 0, r: 0, group: 0, root: 0 }],
        &[t_rs, t_shape],
        &[0, 1],
        &data,
    );
    let reg = Registry::new();
    let rc = Rcol::new(&bytes, true, &reg).unwrap();
    let points = vec![Point { x: 0, y: 0, z: 0 }, Point { x: 1, y: 2, z: 3 }];
    let out = rc.color_monster_model(&points).unwrap();
    for v in out {
        assert_eq!(v.meat, None);
        assert_eq!(v.parts_group, None);
    }
}

#[test]
fn classification_prefers_strictly_nearer_collider() {
    let t_rs = hash_str("snow.hit.userdata.EmHitDamageRSData");
    let t_shape = hash_str("snow.hit.userdata.EmHitDamageShapeData");
    let mut data = rs_data_bytes("rsdata", 1);
    data.extend_from_slice(&shape_data_bytes("near", 7));
    data.extend_from_slice(&shape_data_bytes("far", 8));
    let bytes = build_rcol(
        &[RIDE],
        &[],
        &[(
            "body",
            vec![
                ColDesc {
                    name: "cnear",
                    bone_a: "a",
                    bone_b: "b",
                    bits: 0,
                    root: 1,
                    shape: sphere_shape(0, 0, 0, 5),
                },
                ColDesc {
                    name: "cfar",
                    bone_a: "a",
                    bone_b: "b",
                    bits: 0,
                    root: 2,
                    shape: sphere_shape(100, 0, 0, 5),
                },
            ],
        )],
        &[AttDesc { name: "att", name_b: "attb", p: 0, r: 0, group: 0, root: 0 }],
        &[t_rs, t_shape],
        &[0, 1, 1],
        &data,
    );
    let reg = Registry::new();
    let rc = Rcol::new(&bytes, true, &reg).unwrap();
    let out = rc.color_monster_model(&vec![
        Point { x: 2, y: 0, z: 0 },
        Point { x: 98, y: 0, z: 0 },
    ]).unwrap();
    assert_eq!(out[0].meat, Some(7));
    assert_eq!(out[1].meat, Some(8));
}

#[test]
fn apply_skeleton_moves_shapes_by_their_bones() {
    let reg = Registry::new();
    let mut rc = Rcol::new(&simple_rcol_bytes(), true, &reg).unwrap();
    let identity = |name: &str, tx: i32| Bone {
        name: name.to_string(),
        m00: 4096,
        m01: 0,
        m02: 0,
        m10: 0,
        m11: 4096,
        m12: 0,
        m20: 0,
        m21: 0,
        m22: 4096,
        tx,
        ty: 0,
        tz: 0,
    };
    let skel = Skeleton { bones: vec![identity("b0", 100), identity("b1", 200)] };
    rc.apply_skeleton(&skel).unwrap();
    match rc.collider_groups[0].colliders[0].shape {
        Shape::Sphere { p, r } => {
            assert_eq!((p.x, p.y, p.z), (100, 0, 0));
            assert_eq!(r, 5);
        },
        ref other => panic!("unexpected shape {:?}", other),
    }
}

#[test]
fn apply_skeleton_missing_bone_is_hard_error() {
    let reg = Registry::new();
    let mut rc = Rcol::new(&simple_rcol_bytes(), true, &reg).unwrap();
    let skel = Skeleton { bones: vec![] };
    assert!(matches!(rc.apply_skeleton(&skel), Err(Error::UnknownBone)));
}

#[test]
fn dump_lists_every_record_once() {
    let reg = Registry::new();
    let rc = Rcol::new(&simple_rcol_bytes(), true, &reg).unwrap();
    let lines = rc.dump();
    // 1 group + 1 collider + 2 attributes + 1 attachment + 1 extra
    assert_eq!(lines.len(), 6);
    assert_eq!(lines[0], "[0] body");
    assert_eq!(lines[1], " - c0, b0, b1, /** 0 **/ sphere 0 0 0 r 5, meat 3");
    assert_eq!(lines[2], format!("* {}", RIDE));
    assert_eq!(lines[3], "* spare");
    assert_eq!(lines[4], ">>>->[0] att, attb, 4, 8, parts 9");
    assert_eq!(lines[5], "##> extra");
}

#[test]
fn dump_prints_raw_root_indices_before_resolution() {
    let reg = Registry::new();
    let rc = Rcol::new(&simple_rcol_bytes(), false, &reg).unwrap();
    let lines = rc.dump();
    assert_eq!(lines[1], " - c0, b0, b1, /** 0 **/ sphere 0 0 0 r 5, root 1");
    assert_eq!(lines[4], ">>>->[0] att, attb, 4, 8, root 0");
}

#[test]
fn archive_sweep_reports_unparseable_collision_members() {
    let good = simple_rcol_bytes();
    let mut bad = simple_rcol_bytes();
    bad.truncate(bad.len() - 1);
    let plain = b"something else".to_vec();
    let mut out = vec![b'M', b'P', b'A', b'K'];
    w32(&mut out, 3);
    let entries = [good, bad, plain];
    let mut off = 8 + 24 * entries.len();
    for (i, c) in entries.iter().enumerate() {
        w64(&mut out, i as u64);
        w32(&mut out, off as u32);
        w32(&mut out, c.len() as u32);
        w32(&mut out, c.len() as u32);
        w32(&mut out, 0);
        off += c.len();
    }
    for c in &entries {
        out.extend_from_slice(c);
    }
    let pak = PakReader::new(out).unwrap();
    let reg = Registry::new();
    let failures = scan_rcol(&pak, &reg);
    assert_eq!(failures.len(), 1);
    assert_eq!(failures[0].0, 1);
}
