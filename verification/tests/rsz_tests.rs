use mhrice::hash::hash_str;
use mhrice::registry::Registry;
use mhrice::rsz::{RootArena, Rsz, RszValue};
use mhrice::Error;

fn w16(v: &mut Vec<u8>, x: u16) {
    v.extend_from_slice(&x.to_le_bytes());
}

fn w32(v: &mut Vec<u8>, x: u32) {
    v.extend_from_slice(&x.to_le_bytes());
}

fn w64(v: &mut Vec<u8>, x: u64) {
    v.extend_from_slice(&x.to_le_bytes());
}

fn wstr(v: &mut Vec<u8>, s: &str) {
    let units: Vec<u16> = s.encode_utf16().collect();
    w32(v, units.len() as u32);
    for u in units {
        w16(v, u);
    }
}

fn build_block(base: u64, tags: &[u64], root_tag_idx: &[u32], data: &[u8]) -> Vec<u8> {
    let tables_end = 16 + 8 * tags.len() + 4 * root_tag_idx.len();
    let data_start = (tables_end + 15) / 16 * 16;
    let mut b = vec![];
    w32(&mut b, root_tag_idx.len() as u32);
    w32(&mut b, tags.len() as u32);
    w64(&mut b, base + data_start as u64);
    for t in tags {
        w64(&mut b, *t);
    }
    for i in root_tag_idx {
        w32(&mut b, *i);
    }
    while b.len() < data_start {
        b.push(0);
    }
    b.extend_from_slice(data);
    b
}

#[test]
fn block_header_round_trip() {
    let tag = hash_str("via.physics.UserData");
    let mut data = vec![];
    wstr(&mut data, "pelvis");
    let block = build_block(0, &[tag], &[0], &data);
    let rsz = Rsz::new(&block, 0).unwrap();
    assert_eq!(rsz.type_hashes, vec![tag]);
}

#[test]
fn block_rejects_wrong_data_offset() {
    let tag = hash_str("via.physics.UserData");
    let mut block = build_block(0, &[tag], &[0], &[]);
    // corrupt the stored absolute data offset
    block[8] = block[8].wrapping_add(1);
    assert!(matches!(Rsz::new(&block, 0), Err(Error::CorruptData)));
}

#[test]
fn block_rejects_tag_index_out_of_table() {
    let tag = hash_str("via.physics.UserData");
    let block = build_block(0, &[tag], &[1], &[]);
    assert!(matches!(Rsz::new(&block, 0), Err(Error::CorruptData)));
}

#[test]
fn deserialize_counts_roots_and_consumes_all() {
    // two roots; the walk must produce exactly two and use every byte
    let reg = Registry::new();
    let t_user = hash_str("via.physics.UserData");
    let t_rs = hash_str("snow.hit.userdata.EmHitDamageRSData");
    let mut data = vec![];
    wstr(&mut data, "pelvis");
    wstr(&mut data, "tail");
    w16(&mut data, 7); // parts group
    let block = build_block(0, &[t_user, t_rs], &[0, 1], &data);
    let rsz = Rsz::new(&block, 0).unwrap();
    let roots = rsz.deserialize(&reg).unwrap();
    assert_eq!(roots.len(), 2);
    assert_eq!(roots[0].type_hash, t_user);
    assert_eq!(roots[1].type_hash, t_rs);
    match &roots[1].fields[1] {
        RszValue::U16(x) => assert_eq!(*x, 7),
        other => panic!("unexpected field {:?}", other),
    }
}

#[test]
fn deserialize_rejects_trailing_bytes() {
    let reg = Registry::new();
    let t_user = hash_str("via.physics.UserData");
    let mut data = vec![];
    wstr(&mut data, "x");
    data.push(0); // one stray byte after the last root
    let block = build_block(0, &[t_user], &[0], &data);
    let rsz = Rsz::new(&block, 0).unwrap();
    assert!(matches!(rsz.deserialize(&reg), Err(Error::CorruptData)));
}

#[test]
fn deserialize_reports_unknown_type_with_hash() {
    let reg = Registry::new();
    let bogus = hash_str("snow.enemy.NotTaughtYet");
    let block = build_block(0, &[bogus], &[0], &[]);
    let rsz = Rsz::new(&block, 0).unwrap();
    match rsz.deserialize(&reg) {
        Err(Error::UnknownType(h)) => assert_eq!(h, bogus),
        other => panic!("expected UnknownType, got {:?}", other),
    }
}

#[test]
fn deserialize_rejects_enum_outside_set() {
    // EmHitDamageShapeData's first enum admits 0..=5; write 9
    let reg = Registry::new();
    let t = hash_str("snow.hit.userdata.EmHitDamageShapeData");
    let mut data = vec![];
    wstr(&mut data, "shape");
    w32(&mut data, 9); // custom shape type out of set
    w32(&mut data, 0);
    w32(&mut data, 0);
    w32(&mut data, 0);
    w32(&mut data, 0);
    w32(&mut data, 3);
    w16(&mut data, 1);
    w32(&mut data, 0);
    let block = build_block(0, &[t], &[0], &data);
    let rsz = Rsz::new(&block, 0).unwrap();
    assert!(matches!(rsz.deserialize(&reg), Err(Error::CorruptData)));
}

#[test]
fn deserialize_rejects_flag_bits_outside_mask() {
    // the damage attribute mask is 0x7; write 0x8
    let reg = Registry::new();
    let t = hash_str("snow.hit.userdata.EmHitDamageShapeData");
    let mut data = vec![];
    wstr(&mut data, "shape");
    w32(&mut data, 1);
    w32(&mut data, 0x3f800000);
    w32(&mut data, 0);
    w32(&mut data, 2);
    w32(&mut data, 0);
    w32(&mut data, 3);
    w16(&mut data, 8);
    w32(&mut data, 0);
    let block = build_block(0, &[t], &[0], &data);
    let rsz = Rsz::new(&block, 0).unwrap();
    assert!(matches!(rsz.deserialize(&reg), Err(Error::CorruptData)));
}

#[test]
fn deserialize_decodes_full_shape_data() {
    let reg = Registry::new();
    let t = hash_str("snow.hit.userdata.EmHitDamageShapeData");
    let mut data = vec![];
    wstr(&mut data, "tail_soft");
    w32(&mut data, 1); // cylinder
    w32(&mut data, 0x3f800000); // 1.0f bits, kept raw
    w32(&mut data, 0);
    w32(&mut data, 2);
    w32(&mut data, 0x40000000);
    w32(&mut data, 5); // meat
    w16(&mut data, 3);
    w32(&mut data, 1);
    let block = build_block(0, &[t], &[0], &data);
    let rsz = Rsz::new(&block, 0).unwrap();
    let roots = rsz.deserialize(&reg).unwrap();
    assert_eq!(roots.len(), 1);
    match &roots[0].fields[6] {
        RszValue::I32(m) => assert_eq!(*m, 5),
        other => panic!("unexpected meat field {:?}", other),
    }
    match &roots[0].fields[2] {
        RszValue::F32Bits(b) => assert_eq!(*b, 0x3f800000),
        other => panic!("unexpected float field {:?}", other),
    }
}

#[test]
fn deserialize_walks_nested_lists_and_padding() {
    // PartsTypeTextUserData: a list of PartsTypeInfo, each with a list
    // of TextInfo carrying alignment padding and two GUIDs
    let reg = Registry::new();
    let t = hash_str("snow.data.PartsTypeTextUserData");
    let base: u64 = 0;
    // compute where the data section starts so the Align(8) field can
    // be laid out correctly: data_start is 16-aligned, so offsets
    // inside the data section run from a multiple of 16
    let mut data = vec![];
    w32(&mut data, 1); // one PartsTypeInfo
    w32(&mut data, 42); // its broken-parts tag (open range)
    w32(&mut data, 1); // one TextInfo
    w32(&mut data, 2); // enemy list: two entries
    w32(&mut data, 11);
    w32(&mut data, 12);
    // position inside data: 4*6 = 24; the block's data_base is
    // 16-aligned, so 24 must pad to 32 for the Align(8) field
    while data.len() % 8 != 0 {
        data.push(0);
    }
    data.extend_from_slice(&[1u8; 16]); // guid
    data.extend_from_slice(&[2u8; 16]); // guid
    let block = build_block(base, &[t], &[0], &data);
    let rsz = Rsz::new(&block, base).unwrap();
    let roots = rsz.deserialize(&reg).unwrap();
    assert_eq!(roots.len(), 1);
    match &roots[0].fields[0] {
        RszValue::List(infos) => {
            assert_eq!(infos.len(), 1);
            match &infos[0] {
                RszValue::Struct(fs) => match &fs[1] {
                    RszValue::List(tis) => assert_eq!(tis.len(), 1),
                    other => panic!("unexpected {:?}", other),
                },
                other => panic!("unexpected {:?}", other),
            }
        },
        other => panic!("unexpected {:?}", other),
    }
}

#[test]
fn arena_claims_each_root_once() {
    let reg = Registry::new();
    let t_user = hash_str("via.physics.UserData");
    let mut data = vec![];
    wstr(&mut data, "a");
    wstr(&mut data, "b");
    let block = build_block(0, &[t_user, t_user], &[0, 0], &data);
    let rsz = Rsz::new(&block, 0).unwrap();
    let roots = rsz.deserialize(&reg).unwrap();
    let mut arena = RootArena::new(roots);
    assert!(arena.claim(0).is_ok());
    assert!(matches!(arena.claim(0), Err(Error::AlreadyClaimed)));
    assert!(matches!(arena.claim(5), Err(Error::IndexOutOfRange)));
    assert!(matches!(arena.finish(), Err(Error::OrphanedRoot)));
    assert!(arena.claim(1).is_ok());
    assert!(arena.finish().is_ok());
}
