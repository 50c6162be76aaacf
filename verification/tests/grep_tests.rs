use mhrice::grep::grep;
use mhrice::pak::PakReader;
use mhrice::Error;

fn w32(v: &mut Vec<u8>, x: u32) {
    v.extend_from_slice(&x.to_le_bytes());
}

fn w64(v: &mut Vec<u8>, x: u64) {
    v.extend_from_slice(&x.to_le_bytes());
}

fn build_pak(entries: &[Vec<u8>]) -> Vec<u8> {
    let mut out = vec![b'M', b'P', b'A', b'K'];
    w32(&mut out, entries.len() as u32);
    let mut off = 8 + 24 * entries.len();
    for (i, c) in entries.iter().enumerate() {
        w64(&mut out, i as u64);
        w32(&mut out, off as u32);
        w32(&mut out, c.len() as u32);
        w32(&mut out, c.len() as u32);
        w32(&mut out, 0);
        off += c.len();
    }
    for c in entries {
        out.extend_from_slice(c);
    }
    out
}

#[test]
fn bad_pattern_is_rejected() {
    let pak = PakReader::new(build_pak(&[b"abc".to_vec()])).unwrap();
    assert!(matches!(grep(&pak, "("), Err(Error::BadPattern)));
    assert!(grep(&pak, "a+b").is_ok());
}

#[test]
fn grep_finds_matching_members_in_order() {
    let pak = PakReader::new(build_pak(&[
        b"hello world".to_vec(),
        b"nothing here".to_vec(),
        b"world domination plans".to_vec(),
    ]))
    .unwrap();
    assert_eq!(grep(&pak, "wor").unwrap(), vec![0, 2]);
    assert_eq!(grep(&pak, "absent").unwrap(), Vec::<u32>::new());
}

#[test]
fn grep_supports_real_expressions() {
    // the engine is real: alternation and classes work, so a match is
    // more than handing bytes back
    let pak = PakReader::new(build_pak(&[
        b"item_042".to_vec(),
        b"item_abc".to_vec(),
    ]))
    .unwrap();
    assert_eq!(grep(&pak, "item_[0-9]+").unwrap(), vec![0]);
}

#[test]
fn grep_aborts_on_unreadable_member() {
    // method 1 entry whose stream is garbage
    let mut out = vec![b'M', b'P', b'A', b'K'];
    w32(&mut out, 1);
    w64(&mut out, 0);
    w32(&mut out, 32);
    w32(&mut out, 2);
    w32(&mut out, 2);
    w32(&mut out, 1);
    out.extend_from_slice(&[0xff, 0xff]);
    let pak = PakReader::new(out).unwrap();
    assert!(matches!(grep(&pak, "x"), Err(Error::CorruptData)));
}
