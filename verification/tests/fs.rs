use zeus::kernel::fs::chain::{ClusterReader, ReadStep, WriteEnd};
use zeus::kernel::fs::layout::{Cluster, DirEntry};
use zeus::kernel::fs::{Error, Fs};

fn name(s: &str) -> [u8; 56] {
    let mut n = [0u8; 56];
    n[..s.len()].copy_from_slice(s.as_bytes());
    n
}

fn directory_sector(entries: &[DirEntry]) -> Vec<u8> {
    let mut b = Vec::new();
    for e in entries {
        b.extend(e.encode());
    }
    b.resize(512, 0);
    b
}

fn mounted() -> Fs {
    let mut fs = Fs::new(64);
    let sector = directory_sector(&[
        DirEntry { name: name("/a.txt"), addr: Some(400) },
        DirEntry { name: name("/dir"), addr: None },
    ]);
    fs.cache(&sector);
    fs
}

#[test]
fn query_finds_files() {
    let fs = mounted();
    assert_eq!(fs.query(name("/a.txt")), Ok(400));
}

#[test]
fn query_of_a_directory_is_expected_file() {
    let fs = mounted();
    assert_eq!(fs.query(name("/dir")), Err(Error::ExpectedFile));
}

#[test]
fn query_of_an_unknown_name_is_invalid_path() {
    let fs = mounted();
    assert_eq!(fs.query(name("/nope")), Err(Error::InvalidPath));
}

#[test]
fn cache_stops_at_a_blank_entry() {
    let mut fs = Fs::new(64);
    let mut sector = directory_sector(&[DirEntry { name: name("/a"), addr: Some(400) }]);
    let later = DirEntry { name: name("/b"), addr: Some(401) }.encode();
    sector[128..192].copy_from_slice(&later);
    fs.cache(&sector);
    assert_eq!(fs.query(name("/a")), Ok(400));
    assert_eq!(fs.query(name("/b")), Err(Error::InvalidPath));
}

#[test]
fn later_entries_replace_earlier_ones() {
    let mut fs = Fs::new(64);
    fs.cache(&directory_sector(&[
        DirEntry { name: name("/a"), addr: Some(400) },
        DirEntry { name: name("/a"), addr: Some(500) },
    ]));
    assert_eq!(fs.query(name("/a")), Ok(500));
}

#[test]
fn read_within_the_first_cluster() {
    let data: Vec<u8> = (0..100u8).collect();
    let c = Cluster::new(None, &data);
    let mut r = ClusterReader::new(10, 20);
    match r.step(&c) {
        Ok(ReadStep::Done(v)) => assert_eq!(v, (10..20u8).collect::<Vec<u8>>()),
        _ => panic!("expected the bytes"),
    }
}

#[test]
fn read_across_clusters() {
    let first: Vec<u8> = vec![1; 500];
    let second: Vec<u8> = vec![2; 300];
    let c0 = Cluster::new(Some(301), &first);
    let c1 = Cluster::new(None, &second);
    let mut r = ClusterReader::new(490, 510);
    match r.step(&c0) {
        Ok(ReadStep::Next(n)) => assert_eq!(n, 301),
        _ => panic!("expected the next cluster"),
    }
    match r.step(&c1) {
        Ok(ReadStep::Done(v)) => {
            let mut expected = vec![1u8; 10];
            expected.extend(vec![2u8; 10]);
            assert_eq!(v, expected);
        },
        _ => panic!("expected the bytes"),
    }
}

#[test]
fn read_past_the_end_of_the_chain_is_out_of_bounds() {
    let c = Cluster::new(None, &[1, 2, 3]);
    let mut r = ClusterReader::new(0, 3);
    assert!(matches!(r.step(&c), Err(Error::OutOfBounds)));
}

#[test]
fn chain_cluster_links_new_zones_to_the_hook() {
    let mut fs = Fs::new(7);
    let data = vec![7u8; 600];
    let (writes, first) = fs.chain_cluster(&data, 99);
    assert_eq!(first, Ok(352));
    assert_eq!(writes.len(), 2);
    assert_eq!(writes[0].0, 352);
    assert_eq!(writes[0].1.len, 500);
    assert_eq!(writes[1].1.len, 100);
    assert_eq!(writes[1].1.next, Some(99));
}

#[test]
fn write_outside_the_cluster_leaves_it() {
    let mut fs = Fs::new(7);
    let c = Cluster::new(None, &[1, 2, 3]);
    let (writes, end) = fs.write_cluster(c, 300, 5, &[9]);
    assert!(writes.is_empty());
    assert!(matches!(end, Ok(WriteEnd::Done)));
    let c = Cluster::new(Some(42), &[1, 2, 3]);
    let (writes, end) = fs.write_cluster(c, 300, 5, &[9]);
    assert!(writes.is_empty());
    assert!(matches!(end, Ok(WriteEnd::Stalled(42))));
}

#[test]
fn write_inside_the_cluster_splits_it() {
    let mut fs = Fs::new(7);
    let c = Cluster::new(None, b"hello world");
    let (writes, end) = fs.write_cluster(c, 300, 6, b"there ");
    // the tail, the new data, and the cluster linked to the new data
    assert_eq!(writes.len(), 3);
    assert_eq!(writes[0].1.len, 494);
    assert_eq!(&writes[0].1.data[..5], b"world");
    assert_eq!(writes[1].1.len, 6);
    assert_eq!(writes[1].1.next, Some(writes[0].0));
    assert_eq!(writes[2].0, 300);
    assert_eq!(writes[2].1.next, Some(writes[1].0));
    assert!(matches!(end, Ok(WriteEnd::Stalled(n)) if n == writes[1].0));
}

#[test]
fn write_with_a_full_map_fails() {
    let mut fs = Fs::new(5);
    let c = Cluster::new(None, b"abc");
    let (writes, end) = fs.write_cluster(c, 300, 1, b"x");
    assert!(writes.is_empty());
    assert!(matches!(end, Err(Error::LimitedSpace)));
}
