use mhrice::depgraph::{plan_dump, scan};
use mhrice::hash::hash_str;
use mhrice::pak::PakReader;
use mhrice::user::{sniff, FormatKind, User};
use mhrice::Error;

fn w16(v: &mut Vec<u8>, x: u16) {
    v.extend_from_slice(&x.to_le_bytes());
}

fn w32(v: &mut Vec<u8>, x: u32) {
    v.extend_from_slice(&x.to_le_bytes());
}

fn w64(v: &mut Vec<u8>, x: u64) {
    v.extend_from_slice(&x.to_le_bytes());
}

fn wstr(v: &mut Vec<u8>, s: &str) {
    let units: Vec<u16> = s.encode_utf16().collect();
    w32(v, units.len() as u32);
    for u in units {
        w16(v, u);
    }
}

fn empty_block(base: u64) -> Vec<u8> {
    let mut b = vec![];
    w32(&mut b, 0);
    w32(&mut b, 0);
    w64(&mut b, base + 16);
    b
}

/// A container file of the given kind naming children and resources.
fn build_user(magic: &[u8; 4], children: &[&str], resources: &[&str]) -> Vec<u8> {
    let mut body = vec![];
    for c in children {
        wstr(&mut body, c);
    }
    for r in resources {
        wstr(&mut body, r);
    }
    let base = 16 + body.len();
    let block = empty_block(base as u64);
    let mut out = magic.to_vec();
    w32(&mut out, children.len() as u32);
    w32(&mut out, resources.len() as u32);
    w32(&mut out, block.len() as u32);
    out.extend_from_slice(&body);
    out.extend_from_slice(&block);
    out
}

fn build_pak(entries: &[(u64, Vec<u8>)]) -> Vec<u8> {
    let mut out = vec![b'M', b'P', b'A', b'K'];
    w32(&mut out, entries.len() as u32);
    let mut off = 8 + 24 * entries.len();
    for (h, c) in entries {
        w64(&mut out, *h);
        w32(&mut out, off as u32);
        w32(&mut out, c.len() as u32);
        w32(&mut out, c.len() as u32);
        w32(&mut out, 0);
        off += c.len();
    }
    for (_, c) in entries {
        out.extend_from_slice(c);
    }
    out
}

#[test]
fn sniff_recognizes_the_three_kinds() {
    assert_eq!(sniff(b"USR\0xxxx"), Some(FormatKind::User));
    assert_eq!(sniff(b"PFB\0xxxx"), Some(FormatKind::Pfb));
    assert_eq!(sniff(b"SCN\0xxxx"), Some(FormatKind::Scn));
    assert_eq!(sniff(b"MESHxxxx"), None);
    assert_eq!(sniff(b"US"), None);
}

#[test]
fn user_parses_children_and_resources() {
    let data = build_user(b"USR\0", &["child/a.user"], &["res/one.tex", "res/two.tex"]);
    let u = User::new(&data).unwrap();
    assert_eq!(u.children, vec!["child/a.user".to_string()]);
    assert_eq!(u.resource_names.len(), 2);
    assert_eq!(u.rsz.type_hashes.len(), 0);
}

#[test]
fn user_rejects_truncated_file() {
    let mut data = build_user(b"PFB\0", &["c"], &[]);
    data.pop();
    assert!(matches!(User::new(&data), Err(Error::CorruptData)));
}

#[test]
fn scan_builds_a_three_level_tree() {
    // a -> b -> c, no cycle: all three visited, printed over three
    // indentation levels
    let a = build_user(b"USR\0", &["b"], &[]);
    let b = build_user(b"USR\0", &["c"], &[]);
    let c = build_user(b"USR\0", &[], &[]);
    let pak = PakReader::new(build_pak(&[
        (hash_str("a"), a),
        (hash_str("b"), b),
        (hash_str("c"), c),
    ]))
    .unwrap();
    let report = scan(&pak).unwrap();
    assert_eq!(report.total, 3);
    // entry 0 was never referenced, so it has no recovered name and
    // prints as its index
    assert_eq!(report.lines, vec!["- 0".to_string(), "    - b".to_string(),
        "        - c".to_string()]);
    assert!(report.nodes.iter().all(|n| n.visited));
    assert!(report.skipped.is_empty());
    assert!(report.missing.is_empty());
}

#[test]
fn scan_reports_named_ratio_after_the_walk() {
    let a = build_user(b"USR\0", &["b"], &[]);
    let b = build_user(b"USR\0", &["c"], &[]);
    let c = build_user(b"USR\0", &[], &[]);
    let pak = PakReader::new(build_pak(&[
        (hash_str("a"), a),
        (hash_str("b"), b),
        (hash_str("c"), c),
    ]))
    .unwrap();
    let report = scan(&pak).unwrap();
    // b and c recovered their names, a did not: 2 of 3
    assert_eq!(report.named, 2);
    assert_eq!(report.total, 3);
}

#[test]
fn scan_detects_a_cycle() {
    // a -> b -> c and c -> a: every entry has a parent, no root
    // exists, and nothing can be visited
    let a = build_user(b"USR\0", &["b"], &[]);
    let b = build_user(b"USR\0", &["c"], &[]);
    let c = build_user(b"USR\0", &["a"], &[]);
    let pak = PakReader::new(build_pak(&[
        (hash_str("a"), a),
        (hash_str("b"), b),
        (hash_str("c"), c),
    ]))
    .unwrap();
    assert!(matches!(scan(&pak), Err(Error::CycleDetected)));
}

#[test]
fn scan_logs_missing_names_and_goes_on() {
    let a = build_user(b"USR\0", &["nowhere/to/be.found"], &[]);
    let pak = PakReader::new(build_pak(&[(hash_str("a"), a)])).unwrap();
    let report = scan(&pak).unwrap();
    assert_eq!(report.missing, vec!["nowhere/to/be.found".to_string()]);
    assert_eq!(report.named, 0);
}

#[test]
fn scan_skips_unparseable_entries() {
    // the second entry sniffs as a container but is truncated
    let a = build_user(b"USR\0", &[], &[]);
    let broken = b"USR\0trash".to_vec();
    let plain = b"not a container".to_vec();
    let pak = PakReader::new(build_pak(&[
        (hash_str("a"), a),
        (hash_str("bad"), broken),
        (hash_str("plain"), plain),
    ]))
    .unwrap();
    let report = scan(&pak).unwrap();
    assert_eq!(report.skipped, vec![1]);
    assert!(report.nodes[2].children.is_empty());
}

#[test]
fn scan_resources_name_entries_too() {
    let a = build_user(b"SCN\0", &[], &["res"]);
    let r = b"resource bytes, not a container".to_vec();
    let pak = PakReader::new(build_pak(&[(hash_str("a"), a), (hash_str("res"), r)])).unwrap();
    let report = scan(&pak).unwrap();
    assert_eq!(report.named, 1);
    assert_eq!(report.nodes[1].name.as_deref(), Some("res"));
    assert!(report.nodes[1].has_parent);
}

#[test]
fn plan_dump_splits_known_and_unknown() {
    let a = build_user(b"USR\0", &[], &[]);
    let b = b"plain b".to_vec();
    let c = b"plain c".to_vec();
    let pak = PakReader::new(build_pak(&[
        (hash_str("a"), a),
        (hash_str("b"), b),
        (hash_str("c"), c),
    ]))
    .unwrap();
    let paths = vec!["a".to_string(), "c".to_string(), "zzz".to_string()];
    let plan = plan_dump(&pak, &paths);
    assert_eq!(plan.resolved, vec![Some(0), Some(2), None]);
    assert_eq!(plan.leftover, vec![1]);
}
