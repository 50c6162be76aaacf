use mhrice::msg::{scan_msg, Msg};
use mhrice::pak::PakReader;
use mhrice::Error;

fn w16(v: &mut Vec<u8>, x: u16) {
    v.extend_from_slice(&x.to_le_bytes());
}

fn w32(v: &mut Vec<u8>, x: u32) {
    v.extend_from_slice(&x.to_le_bytes());
}

fn wi32(v: &mut Vec<u8>, x: i32) {
    v.extend_from_slice(&x.to_le_bytes());
}

fn wstr(v: &mut Vec<u8>, s: &str) {
    let units: Vec<u16> = s.encode_utf16().collect();
    w32(v, units.len() as u32);
    for u in units {
        w16(v, u);
    }
}

const KEY: [u8; 16] = [
    0xcf, 0xce, 0xfb, 0xf8, 0xec, 0x0a, 0x33, 0x66, 0x93, 0xa9, 0x1d, 0x93, 0x50, 0x39, 0x5f,
    0x09,
];

fn encrypt(plain: &[u8]) -> Vec<u8> {
    let mut out = vec![];
    let mut prev: u8 = 0;
    for (j, d) in plain.iter().enumerate() {
        let c = d ^ prev ^ KEY[j % 16];
        out.push(c);
        prev = c;
    }
    out
}

/// entries: (name, per-attribute strings, per-language strings)
fn build_msg(attrs: &[(i32, &str)], langs: u32, entries: &[(&str, Vec<&str>, Vec<&str>)]) -> Vec<
    u8,
> {
    let mut out = vec![];
    w32(&mut out, 17);
    out.extend_from_slice(b"GMSG");
    out.extend_from_slice(&0x10u64.to_le_bytes());
    w32(&mut out, entries.len() as u32);
    w32(&mut out, attrs.len() as u32);
    w32(&mut out, langs);
    for i in 0..langs {
        w32(&mut out, i);
    }
    for (j, _) in attrs {
        wi32(&mut out, *j);
    }
    let mut plain = vec![];
    for (_, name) in attrs {
        wstr(&mut plain, name);
    }
    for (name, avals, content) in entries {
        wstr(&mut plain, name);
        assert_eq!(avals.len(), attrs.len());
        for a in avals {
            wstr(&mut plain, a);
        }
        assert_eq!(content.len(), langs as usize);
        for c in content {
            wstr(&mut plain, c);
        }
    }
    out.extend_from_slice(&encrypt(&plain));
    out
}

#[test]
fn table_round_trips_through_the_cipher() {
    let data = build_msg(
        &[(4, "kind"), (-1, "flag")],
        2,
        &[
            ("GREETING", vec!["a", ""], vec!["hello", "こんにちは"]),
            ("FAREWELL", vec!["b", "x"], vec!["bye", "さようなら"]),
        ],
    );
    let msg = Msg::new(&data).unwrap();
    assert_eq!(msg.attribute_headers.len(), 2);
    assert_eq!(msg.attribute_headers[0].j, 4);
    assert_eq!(msg.attribute_headers[0].name, "kind");
    assert_eq!(msg.attribute_headers[1].j, -1);
    assert_eq!(msg.attribute_headers[1].name, "flag");
    assert_eq!(msg.entries.len(), 2);
    assert_eq!(msg.entries[0].name, "GREETING");
    assert_eq!(msg.entries[0].attributes, vec!["a".to_string(), "".to_string()]);
    assert_eq!(msg.entries[0].content, vec!["hello".to_string(), "こんにちは".to_string()]);
    assert_eq!(msg.entries[1].content[1], "さようなら");
}

#[test]
fn wrong_version_is_a_format_error() {
    let mut data = build_msg(&[], 0, &[]);
    data[0] = 16;
    assert!(matches!(Msg::new(&data), Err(Error::FormatError)));
}

#[test]
fn wrong_header_marker_is_a_format_error() {
    let mut data = build_msg(&[], 0, &[]);
    data[8] = 0x11;
    assert!(matches!(Msg::new(&data), Err(Error::FormatError)));
}

#[test]
fn language_table_must_be_the_identity() {
    let mut data = build_msg(&[(0, "attr")], 2, &[("N", vec!["v"], vec!["c1", "c2"])]);
    // swap the two language indices
    data[28] = 1;
    data[32] = 0;
    assert!(matches!(Msg::new(&data), Err(Error::FormatError)));
}

#[test]
fn wrong_magic_is_a_format_error() {
    let mut data = build_msg(&[], 0, &[]);
    data[4] = b'X';
    assert!(matches!(Msg::new(&data), Err(Error::FormatError)));
}

#[test]
fn truncated_strings_are_corrupt() {
    let mut data = build_msg(&[(0, "attr")], 1, &[("N", vec!["v"], vec!["c"])]);
    data.truncate(data.len() - 3);
    assert!(matches!(Msg::new(&data), Err(Error::CorruptData)));
}

#[test]
fn trailing_bytes_are_corrupt() {
    let mut data = build_msg(&[(0, "attr")], 0, &[]);
    // append a stray encrypted byte after the last string
    data.push(0xa5);
    assert!(matches!(Msg::new(&data), Err(Error::CorruptData)));
}

#[test]
fn cipher_is_not_identity() {
    // the stored bytes differ from the plain strings: the decrypted
    // name only comes back because decryption actually runs
    let data = build_msg(&[], 0, &[("OBVIOUS_NAME", vec![], vec![])]);
    let window: Vec<u8> = "OBVIOUS_NAME".encode_utf16().flat_map(|u| u.to_le_bytes()).collect();
    let found = data.windows(window.len()).any(|w| w == window);
    assert!(!found, "the name must not appear in clear text");
    let msg = Msg::new(&data).unwrap();
    assert_eq!(msg.entries[0].name, "OBVIOUS_NAME");
}

fn w64b(v: &mut Vec<u8>, x: u64) {
    v.extend_from_slice(&x.to_le_bytes());
}

#[test]
fn archive_sweep_decodes_tables_and_reports_failures() {
    let good = build_msg(&[(1, "a")], 1, &[("N", vec!["v"], vec!["text"])]);
    let mut bad = good.clone();
    bad.truncate(bad.len() - 1);
    let plain = b"no table here".to_vec();
    let mut out = vec![b'M', b'P', b'A', b'K'];
    w32(&mut out, 3);
    let entries = [good, bad, plain];
    let mut off = 8 + 24 * entries.len();
    for (i, c) in entries.iter().enumerate() {
        w64b(&mut out, i as u64);
        w32(&mut out, off as u32);
        w32(&mut out, c.len() as u32);
        w32(&mut out, c.len() as u32);
        w32(&mut out, 0);
        off += c.len();
    }
    for c in &entries {
        out.extend_from_slice(c);
    }
    let pak = PakReader::new(out).unwrap();
    let (decoded, failures) = scan_msg(&pak);
    assert_eq!(decoded.len(), 1);
    assert_eq!(decoded[0].0, 0);
    assert_eq!(decoded[0].1.entries[0].name, "N");
    assert_eq!(failures.len(), 1);
    assert_eq!(failures[0].0, 1);
}
