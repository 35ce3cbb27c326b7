use zeus::kernel::fs::vfs::{Transfer, Vfs};
use zeus::stdlib::error::Error;

fn name(s: &str) -> [u8; 56] {
    let mut n = [0u8; 56];
    n[..s.len()].copy_from_slice(s.as_bytes());
    n
}

#[test]
fn first_open_takes_the_number_below_the_barrier() {
    let mut v = Vfs::new();
    assert_eq!(v.open(name("/a")), Ok(u32::MAX - 1));
    assert_eq!(v.open(name("/b")), Ok(u32::MAX - 2));
}

#[test]
fn console_takes_writes() {
    let mut v = Vfs::new();
    assert!(matches!(v.write(0, b"hi"), Ok(Transfer::Console)));
    assert!(v.reads_console(0));
}

#[test]
fn barrier_refuses_transfers() {
    let mut v = Vfs::new();
    assert!(matches!(v.write(u32::MAX, b"hi"), Err(Error::Barrier)));
    assert!(matches!(v.read(u32::MAX, 1), Err(Error::Barrier)));
    assert_eq!(v.seek(u32::MAX, 7), Ok(()));
}

#[test]
fn unknown_descriptor() {
    let mut v = Vfs::new();
    assert!(matches!(v.write(5, b"hi"), Err(Error::NoSuchFd)));
    assert!(matches!(v.read(5, 1), Err(Error::NoSuchFd)));
    assert_eq!(v.seek(5, 0), Err(Error::NoSuchFd));
}

#[test]
fn file_transfers_move_the_offset() {
    let mut v = Vfs::new();
    let fd = v.open(name("/f")).unwrap();
    match v.write(fd, b"hello") {
        Ok(Transfer::File { name: n, start, end }) => {
            assert_eq!(n, name("/f"));
            assert_eq!((start, end), (0, 5));
        },
        _ => panic!("expected a file range"),
    }
    match v.read(fd, 3) {
        Ok(Transfer::File { start, end, .. }) => assert_eq!((start, end), (5, 8)),
        _ => panic!("expected a file range"),
    }
    assert_eq!(v.seek(fd, 1), Ok(()));
    match v.read(fd, 2) {
        Ok(Transfer::File { start, end, .. }) => assert_eq!((start, end), (1, 3)),
        _ => panic!("expected a file range"),
    }
}
