use zeus::kernel::fs::chain::{ClusterReader, ReadStep};
use zeus::kernel::fs::layout::{Cluster, Header};
use zeus::kernel::fs::Fs;
use zeus::mkfs::Mkfs;

#[test]
fn entry_names_are_cut_or_padded() {
    let n = Mkfs::entry_name(b"/etc/motd");
    assert_eq!(&n[..9], b"/etc/motd");
    assert!(n[9..].iter().all(|b| *b == 0));
    let long = [b'a'; 70];
    assert_eq!(Mkfs::entry_name(&long), [b'a'; 56]);
}

#[test]
fn files_become_chains_of_clusters() {
    let mut m = Mkfs::new();
    let contents = vec![5u8; 1200];
    let (first, writes) = m.cluster(&contents);
    assert_eq!(first, 256);
    assert_eq!(writes.len(), 3);
    assert_eq!(writes[0].0, 256 * 512);
    assert_eq!(writes[0].1.next, Some(257));
    assert_eq!(writes[1].1.next, Some(258));
    assert_eq!(writes[2].1.next, None);
    assert_eq!(writes[2].1.len, 200);
    let (second, _) = m.cluster(b"x");
    assert_eq!(second, 259);
}

#[test]
fn an_empty_file_takes_no_cluster() {
    let mut m = Mkfs::new();
    let (first, writes) = m.cluster(&[]);
    assert_eq!(first, 256);
    assert!(writes.is_empty());
    let (next, _) = m.cluster(b"x");
    assert_eq!(next, 256);
}

#[test]
fn flush_writes_the_table_and_the_header() {
    let mut m = Mkfs::new();
    m.add_directory(b"/bin");
    m.add_file(b"/bin/sh", b"#!");
    let h = m.header();
    assert_eq!(h.entries, 2);
    let w = m.flush();
    assert_eq!(w.len(), 3);
    assert_eq!(w[0].0, 512);
    assert_eq!(w[1].0, 576);
    assert_eq!(w[2].0, 0);
    assert_eq!(Header::new(&w[2].1), h);
}

/// A disk image built the way the image builder lays it out.
fn build_image(files: &[(&[u8], &[u8])]) -> Vec<u8> {
    let mut m = Mkfs::new();
    let mut disk = vec![0u8; 512 * 300];
    for (name, contents) in files {
        for (off, c) in m.add_file(name, contents) {
            let off = off as usize;
            disk[off..off + 512].copy_from_slice(&c.encode());
        }
    }
    for (off, bytes) in m.flush() {
        let off = off as usize;
        disk[off..off + bytes.len()].copy_from_slice(&bytes);
    }
    disk
}

#[test]
fn the_kernel_reads_back_what_the_builder_wrote() {
    let contents: Vec<u8> = (0..1100u32).map(|i| (i % 256) as u8).collect();
    let disk = build_image(&[(b"/hello.txt", b"hello, world"), (b"/big", &contents)]);

    let header = Header::new(&disk[0..512]);
    assert!(header.is_valid());
    assert_eq!(header.entries, 2);

    let mut fs = Fs::new(300);
    for s in 0..header.directory_sectors() {
        let at = 512 * (1 + s as usize);
        fs.cache(&disk[at..at + 512]);
    }
    let mut name = [0u8; 56];
    name[..4].copy_from_slice(b"/big");
    let first = fs.query(name).expect("file");
    assert_eq!(first, 257);

    let read = |start: u32, end: u32| -> Vec<u8> {
        let mut reader = ClusterReader::new(start, end);
        let mut sector = first as usize;
        loop {
            let cluster = Cluster::decode(&disk[sector * 512..sector * 512 + 512]);
            match reader.step(&cluster) {
                Ok(ReadStep::Done(bytes)) => return bytes,
                Ok(ReadStep::Next(n)) => sector = n as usize,
                Err(e) => panic!("read failed: {:?}", e),
            }
        }
    };
    assert_eq!(read(3, 40), contents[3..40].to_vec());
    assert_eq!(read(100, 1050), contents[100..1050].to_vec());
    assert_eq!(read(0, 1099), contents[0..1099].to_vec());
}

#[test]
fn first_kernel_mounts_a_blank_disk() {
    let blank = [0u8; 512];
    let w = zeus::fs::Fs::init_writes(&blank);
    assert_eq!(w.len(), 1025);
    assert_eq!(&w[0].1[..4], &[0x5a, 0x45, 0x55, 0x53]);
    assert_eq!(w[1].0, 1);
    assert_eq!(w[1].1[129], 0xff);
    assert_eq!(w[1].1[130], 0);
    assert_eq!(w[2].0, 0);
    let mut formatted = [0u8; 512];
    formatted[..4].copy_from_slice(&[0x5a, 0x45, 0x55, 0x53]);
    assert!(zeus::fs::Fs::init_writes(&formatted).is_empty());
}
