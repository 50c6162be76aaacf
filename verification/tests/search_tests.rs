use mhrice::hash::hash_str;
use mhrice::pak::PakReader;
use mhrice::search::{find_suffix_paths, search_path};

fn w32(v: &mut Vec<u8>, x: u32) {
    v.extend_from_slice(&x.to_le_bytes());
}

fn w64(v: &mut Vec<u8>, x: u64) {
    v.extend_from_slice(&x.to_le_bytes());
}

fn utf16z(s: &str) -> Vec<u8> {
    let mut out = vec![];
    for u in s.encode_utf16() {
        out.extend_from_slice(&u.to_le_bytes());
    }
    out.extend_from_slice(&[0, 0]);
    out
}

fn build_pak(entries: &[(u64, Vec<u8>)]) -> Vec<u8> {
    let mut out = vec![b'M', b'P', b'A', b'K'];
    w32(&mut out, entries.len() as u32);
    let mut off = 8 + 24 * entries.len();
    for (h, c) in entries {
        w64(&mut out, *h);
        w32(&mut out, off as u32);
        w32(&mut out, c.len() as u32);
        w32(&mut out, c.len() as u32);
        w32(&mut out, 0);
        off += c.len();
    }
    for (_, c) in entries {
        out.extend_from_slice(c);
    }
    out
}

#[test]
fn embedded_path_is_recovered() {
    let mut content = vec![0xff, 0x13, 0x00];
    // misalign on purpose, then realign with one more byte
    content.push(0x00);
    content.extend_from_slice(&utf16z("enemy/em001/base.mesh"));
    content.extend_from_slice(&[0x07, 0x07]);
    let found = find_suffix_paths(&content, "mesh");
    assert_eq!(found, vec!["enemy/em001/base.mesh".to_string()]);
}

#[test]
fn walk_back_stops_at_unprintable_bytes() {
    let mut content = utf16z("x y.user");
    // the space is not graphic, so the recovered run starts after it
    let found = find_suffix_paths(&content, "user");
    assert_eq!(found, vec!["y.user".to_string()]);
    content.clear();
    content.extend_from_slice(&utf16z("stage/st01.scn"));
    assert_eq!(find_suffix_paths(&content, "scn"), vec!["stage/st01.scn".to_string()]);
}

#[test]
fn unterminated_text_is_not_recovered() {
    // no closing zero unit after the extension
    let mut content = vec![];
    for u in "a.mesh".encode_utf16() {
        content.extend_from_slice(&u.to_le_bytes());
    }
    content.extend_from_slice(&[b'x', 0]);
    assert_eq!(find_suffix_paths(&content, "mesh"), Vec::<String>::new());
}

#[test]
fn sweep_resolves_recovered_paths_in_the_archive() {
    // member 0 embeds the path of member 1; the sweep recovers it and
    // finds its index, while an unknown path resolves to nothing
    let mut blob = utf16z("mod/body.mesh");
    blob.extend_from_slice(&utf16z("mod/ghost.mesh"));
    let target = b"mesh bytes".to_vec();
    let pak = PakReader::new(build_pak(&[
        (hash_str("scanned"), blob),
        (hash_str("mod/body.mesh"), target),
    ]))
    .unwrap();
    let out = search_path(&pak, &vec!["mesh".to_string()]);
    assert!(out.contains(&("mod/body.mesh".to_string(), Some(1))));
    assert!(out.contains(&("mod/ghost.mesh".to_string(), None)));
}
