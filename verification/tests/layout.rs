use zeus::kernel::fs::layout::{Cluster, DirEntry, Header, MAGIC};

fn name(s: &str) -> [u8; 56] {
    let mut n = [0u8; 56];
    n[..s.len()].copy_from_slice(s.as_bytes());
    n
}

#[test]
fn header_encoding_is_little_endian() {
    let h = Header { magic: MAGIC, entries: 3 };
    assert_eq!(h.encode(), vec![0x53, 0x55, 0x45, 0x5a, 3, 0, 0, 0]);
}

#[test]
fn header_roundtrip() {
    let h = Header { magic: 0xdeadbeef, entries: 77 };
    let mut block = h.encode();
    block.resize(512, 0);
    assert_eq!(Header::new(&block), h);
}

#[test]
fn header_validity() {
    assert!(Header { magic: MAGIC, entries: 0 }.is_valid());
    assert!(!Header { magic: 0, entries: 0 }.is_valid());
}

#[test]
fn directory_sectors_formula() {
    assert_eq!(Header { magic: MAGIC, entries: 0 }.directory_sectors(), 1);
    assert_eq!(Header { magic: MAGIC, entries: 7 }.directory_sectors(), 1);
    assert_eq!(Header { magic: MAGIC, entries: 8 }.directory_sectors(), 2);
    assert_eq!(Header { magic: MAGIC, entries: 20 }.directory_sectors(), 3);
}

#[test]
fn cluster_new_pads_with_zeros() {
    let c = Cluster::new(Some(7), &[1, 2, 3]);
    assert_eq!(c.next, Some(7));
    assert_eq!(c.len, 3);
    assert_eq!(&c.data[..4], &[1, 2, 3, 0]);
    assert!(c.data[3..].iter().all(|b| *b == 0));
}

#[test]
fn cluster_encoding() {
    let c = Cluster::new(Some(0x0102), b"hi");
    let b = c.encode();
    assert_eq!(b.len(), 512);
    assert_eq!(&b[..14], &[1, 0, 0, 0, 2, 1, 0, 0, 2, 0, 0, 0, b'h', b'i']);
    let none = Cluster::new(None, b"x").encode();
    assert_eq!(&none[..8], &[0u8; 8]);
}

#[test]
fn cluster_roundtrip() {
    let bytes: Vec<u8> = (0..500u32).map(|i| (i % 251) as u8).collect();
    let c = Cluster::new(Some(9), &bytes);
    let d = Cluster::decode(&c.encode());
    assert_eq!(d.next, Some(9));
    assert_eq!(d.len, 500);
    assert_eq!(d.data.to_vec(), bytes);
    let e = Cluster::decode(&Cluster::new(None, &[]).encode());
    assert_eq!(e.next, None);
    assert_eq!(e.len, 0);
}

#[test]
fn dir_entry_roundtrip() {
    let e = DirEntry { name: name("/bin/sh"), addr: Some(300) };
    let b = e.encode();
    assert_eq!(b.len(), 64);
    let d = DirEntry::decode(&b);
    assert_eq!(d.name, e.name);
    assert_eq!(d.addr, Some(300));
    let dir = DirEntry::decode(&DirEntry { name: name("/bin"), addr: None }.encode());
    assert_eq!(dir.addr, None);
}

#[test]
fn nonzero_tag_decodes_as_present() {
    let mut b = vec![0u8; 64];
    b[56] = 2;
    b[60] = 5;
    assert_eq!(DirEntry::decode(&b).addr, Some(5));
}
