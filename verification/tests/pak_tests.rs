use mhrice::hash::hash_str;
use mhrice::pak::PakReader;
use mhrice::Error;

fn w32(v: &mut Vec<u8>, x: u32) {
    v.extend_from_slice(&x.to_le_bytes());
}

fn w64(v: &mut Vec<u8>, x: u64) {
    v.extend_from_slice(&x.to_le_bytes());
}

/// method 0 stores raw, method 1 stores a deflate stream.
fn build_pak(entries: &[(u64, Vec<u8>, u32)]) -> Vec<u8> {
    let n = entries.len() as u32;
    let stored: Vec<Vec<u8>> = entries
        .iter()
        .map(|(_, c, m)| {
            if *m == 1 {
                miniz_oxide::deflate::compress_to_vec(c, 6)
            } else {
                c.clone()
            }
        })
        .collect();
    let mut out = vec![b'M', b'P', b'A', b'K'];
    w32(&mut out, n);
    let mut off = 8 + 24 * entries.len();
    for (i, (h, c, m)) in entries.iter().enumerate() {
        w64(&mut out, *h);
        w32(&mut out, off as u32);
        w32(&mut out, stored[i].len() as u32);
        w32(&mut out, c.len() as u32);
        w32(&mut out, *m);
        off += stored[i].len();
    }
    for s in stored {
        out.extend_from_slice(&s);
    }
    out
}

#[test]
fn open_rejects_bad_magic() {
    let data = vec![b'X', b'P', b'A', b'K', 0, 0, 0, 0];
    assert!(matches!(PakReader::new(data), Err(Error::FormatError)));
}

#[test]
fn open_rejects_short_header() {
    assert!(matches!(PakReader::new(vec![b'M', b'P']), Err(Error::FormatError)));
}

#[test]
fn open_rejects_entry_out_of_bounds() {
    // one entry whose data window runs past the end
    let mut out = vec![b'M', b'P', b'A', b'K'];
    w32(&mut out, 1);
    w64(&mut out, 7);
    w32(&mut out, 32);
    w32(&mut out, 100);
    w32(&mut out, 100);
    w32(&mut out, 0);
    assert!(matches!(PakReader::new(out), Err(Error::CorruptData)));
}

#[test]
fn read_raw_entry_round_trip() {
    let content = b"some stored member".to_vec();
    let pak = PakReader::new(build_pak(&[(99, content.clone(), 0)])).unwrap();
    assert_eq!(pak.get_file_count(), 1);
    assert_eq!(pak.read_file_at(0).unwrap(), content);
}

#[test]
fn read_deflate_entry_decompresses() {
    // highly compressible content: the stored bytes differ from it
    let content = vec![7u8; 4096];
    let data = build_pak(&[(1, content.clone(), 1)]);
    assert!(data.len() < 1000, "the stored stream must actually be smaller");
    let pak = PakReader::new(data).unwrap();
    assert_eq!(pak.read_file_at(0).unwrap(), content);
}

#[test]
fn read_index_out_of_range() {
    let pak = PakReader::new(build_pak(&[(1, vec![1, 2, 3], 0)])).unwrap();
    assert!(matches!(pak.read_file_at(5), Err(Error::IndexOutOfRange)));
}

#[test]
fn read_corrupt_deflate_stream() {
    // method 1 but the bytes are not a deflate stream
    let mut out = vec![b'M', b'P', b'A', b'K'];
    w32(&mut out, 1);
    w64(&mut out, 3);
    w32(&mut out, 32);
    w32(&mut out, 4);
    w32(&mut out, 4);
    w32(&mut out, 1);
    out.extend_from_slice(&[0xff, 0xff, 0xff, 0xff]);
    let pak = PakReader::new(out).unwrap();
    assert!(matches!(pak.read_file_at(0), Err(Error::CorruptData)));
}

#[test]
fn read_deflate_size_mismatch() {
    let content = vec![9u8; 64];
    let stream = miniz_oxide::deflate::compress_to_vec(&content, 6);
    let mut out = vec![b'M', b'P', b'A', b'K'];
    w32(&mut out, 1);
    w64(&mut out, 3);
    w32(&mut out, 32);
    w32(&mut out, stream.len() as u32);
    w32(&mut out, 63); // wrong decompressed size
    w32(&mut out, 1);
    out.extend_from_slice(&stream);
    let pak = PakReader::new(out).unwrap();
    assert!(matches!(pak.read_file_at(0), Err(Error::CorruptData)));
}

#[test]
fn find_file_by_path_hash() {
    let pa = b"content of a".to_vec();
    let pb = b"content of b".to_vec();
    let data = build_pak(&[
        (hash_str("natives/a.user"), pa.clone(), 0),
        (hash_str("natives/b.user"), pb.clone(), 1),
    ]);
    let pak = PakReader::new(data).unwrap();
    let (ia, canon) = pak.find_file("natives/a.user").unwrap();
    assert_eq!(ia, 0);
    assert_eq!(canon, "natives/a.user");
    let (ib, _) = pak.find_file("natives/b.user").unwrap();
    assert_eq!(ib, 1);
    assert!(matches!(pak.find_file("missing"), Err(Error::NotFound)));
}

#[test]
fn find_then_read_agrees_with_read_at() {
    // the lookup round trip: read(find(path).index) == read_at(index)
    let contents: Vec<Vec<u8>> = (0..4u8).map(|i| vec![i; 10 + i as usize]).collect();
    let paths = ["p/zero.user", "p/one.user", "p/two.user", "p/three.user"];
    let entries: Vec<(u64, Vec<u8>, u32)> = paths
        .iter()
        .zip(contents.iter())
        .map(|(p, c)| (hash_str(p), c.clone(), 0))
        .collect();
    let pak = PakReader::new(build_pak(&entries)).unwrap();
    for (i, p) in paths.iter().enumerate() {
        let (idx, _) = pak.find_file(p).unwrap();
        assert_eq!(idx as usize, i);
        assert_eq!(pak.read_file(idx).unwrap(), pak.read_file_at(i as u32).unwrap());
        assert_eq!(pak.read_file(idx).unwrap(), contents[i]);
    }
}
