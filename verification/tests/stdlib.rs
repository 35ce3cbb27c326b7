use zeus::kernel::fs::error::Error as FsError;
use zeus::stdlib::error::Error;
use zeus::stdlib::process::Fork;
use zeus::stdlib::sys::{read_result, write_result};

#[test]
fn error_numbers_roundtrip() {
    let all = [
        Error::InvalidPath,
        Error::ExpectedFile,
        Error::OutOfBounds,
        Error::OutOfFd,
        Error::NoSuchFd,
        Error::LimitedSpace,
        Error::Barrier,
    ];
    for (i, e) in all.iter().enumerate() {
        assert_eq!(e.code(), i as u32 + 1);
        assert_eq!(Error::from(e.code()), Some(*e));
    }
    assert_eq!(Error::from(0), None);
    assert_eq!(Error::from(8), None);
}

#[test]
fn error_messages() {
    assert_eq!(Error::InvalidPath.message(), "invalid path");
    assert_eq!(Error::Barrier.message(), "barrier");
    assert_eq!(Error::OutOfFd.message(), "out of fd");
}

#[test]
fn fork_sides() {
    assert_eq!(Fork::from(0), Fork::Parent);
    assert_eq!(Fork::from(1), Fork::Child);
    assert_eq!(Fork::from(42), Fork::Child);
}

#[test]
fn call_results() {
    assert_eq!(write_result(0), Ok(()));
    assert_eq!(write_result(4), Err(Error::OutOfFd));
    assert_eq!(read_result(0, 0x42), Ok(0x42));
    assert_eq!(read_result(5, 0x42), Err(Error::NoSuchFd));
    assert_eq!(read_result(99, 0x42), Ok(0x42));
}

#[test]
fn kernel_fs_error_numbers() {
    assert_eq!(FsError::InvalidPath.code(), 1);
    assert_eq!(FsError::LimitedSpace.code(), 6);
}
