use zeus::drivers::virtio::{probe, ProbeError};
use zeus::drivers::virtio_depricated::VirtioBlk as FirstBlk;
use zeus::exception::TrapFrame;
use zeus::kernel::drivers::virtio::blk::{Mode, VirtioBlk};
use zeus::drivers::virtio::Device;
use zeus::kernel::fs::chain::{chain_fits, ClusterReader};
use zeus::kernel::fs::layout::Cluster;
use zeus::kernel::fs::zmap::ZMap;
use zeus::kernel::fs::Fs;
use zeus::kernel::syscall::{finish_read, finish_write};
use zeus::mkfs::Mkfs;
use zeus::process::{spawn_on, Processes, State};
use zeus::stdlib::error::Error;
use zeus::stdlib::sys::{read_result, write_result};

#[test]
fn add_file_writes_its_clusters_in_order() {
    let mut m = Mkfs::new();
    let mut contents = vec![1u8; 500];
    contents.extend(vec![2u8; 20]);
    let w = m.add_file(b"/f", &contents);
    assert_eq!(w.len(), 2);
    assert_eq!(w[0].0, 256 * 512);
    assert_eq!(w[1].0, 257 * 512);
    assert_eq!(w[0].1.next, Some(257));
    assert_eq!(w[1].1.next, None);
    assert_eq!(w[0].1.len, 500);
    assert_eq!(w[1].1.len, 20);
    assert_eq!(w[0].1.data[499], 1);
    assert_eq!(w[1].1.data[19], 2);
    assert_eq!(w[1].1.data[20], 0);
    assert_eq!(m.current_cluster(), 258);
}

#[test]
fn header_counts_entries() {
    let mut m = Mkfs::new();
    m.add_directory(b"/d");
    m.add_directory(b"/e");
    assert_eq!(m.header().entries, 2);
}

#[test]
fn spawn_on_sets_the_stack_pointer() {
    let mut p = Processes::new();
    spawn_on(&mut p, "a", 0x100, vec![0u8; 16], 0x8000_1000);
    assert_eq!(p.len(), 1);
    let c = p.next();
    assert_eq!(c.frame.regs[1], 0x8000_1000);
    assert_eq!(c.frame.regs[2], 0);
    assert_eq!(c.epc, 0x100);
    assert_eq!(p.state_of(0), State::Running);
}

#[test]
fn zone_map_checks() {
    let z = ZMap::new(6);
    assert!(!z.full());
    assert!(z.allocatable());
    assert_eq!(z.duplicate().len(), z.len());
    let full = ZMap::new(5);
    assert!(full.full());
    assert!(full.allocatable());
    // a word whose only clear bit is the lowest picks a zone far past the map
    let mut y = ZMap::new(6);
    for zone in 353..384 {
        y.set(zone, true);
    }
    assert!(!y.allocatable());
    assert!(chain_fits(ZMap::new(6), 1000));
    assert!(!chain_fits(ZMap::new(5), 1000));
    assert!(chain_fits(ZMap::new(5), 0));
    assert!(!chain_fits(y, 0));
}

#[test]
fn cluster_write_checks() {
    let fs = Fs::new(40);
    let c = Cluster::new(None, &[7u8; 100]);
    assert!(fs.can_write_cluster(&c, 10, 20));
    assert!(fs.can_write_cluster(&c, 100, 20));
    let wide = Cluster { next: None, len: 600, data: [0u8; 500] };
    assert!(!fs.can_write_cluster(&wide, 550, 1));
    let mut stuck = Fs::new(6);
    for zone in 353..384 {
        stuck.mark(zone, true);
    }
    assert!(!stuck.can_write_cluster(&c, 10, 20));
}

#[test]
fn read_step_checks() {
    let c = Cluster::new(Some(300), &[1u8; 100]);
    assert!(ClusterReader::new(10, 20).can_step(&c));
    assert!(ClusterReader::new(10, 200).can_step(&c));
    assert!(!ClusterReader::new(30, 20).can_step(&c));
}

#[test]
fn status_survives_the_register() {
    let mut f = TrapFrame::new();
    finish_write(&mut f, Err(Error::NoSuchFd));
    assert_eq!(write_result(f.regs[16] as u32), Err(Error::NoSuchFd));
    finish_write(&mut f, Ok(()));
    assert_eq!(write_result(f.regs[16] as u32), Ok(()));
    finish_read(&mut f, Ok(0x1234));
    assert_eq!(read_result(f.regs[16] as u32, f.regs[15]), Ok(0x1234));
}

#[test]
fn probe_finds_the_block_device() {
    let absent = (0u32, 0u32);
    let mut slots = vec![absent; 8];
    slots[0] = (0x74726976, 1);
    slots[3] = (0x74726976, 2);
    let d = probe(&slots).unwrap();
    assert_eq!(d.block.unwrap().device.addr, 0x1000_4000);
}

#[test]
fn probe_failures() {
    let absent = (0u32, 0u32);
    assert_eq!(probe(&vec![absent; 8]).err(), Some(ProbeError::NoBlock));
    let mut two = vec![absent; 8];
    two[1] = (0x74726976, 2);
    two[2] = (0x74726976, 2);
    assert_eq!(probe(&two).err(), Some(ProbeError::SecondBlock(0x1000_3000)));
    let mut unknown = vec![absent; 8];
    unknown[5] = (0x74726976, 7);
    assert_eq!(probe(&unknown).err(), Some(ProbeError::Unknown(0x1000_6000, 7)));
}

#[test]
fn first_driver_marks_the_sector_writable() {
    let mut b = FirstBlk::new();
    assert_eq!(b.addr, 0x1000_1000);
    assert!(FirstBlk::device_ok(0x74726976, 1, 2));
    assert!(!FirstBlk::device_ok(0x74726976, 2, 2));
    assert!(!FirstBlk::device_ok(0x74726976, 1, 1));
    b.set_capacity(8);
    assert_eq!(b.blk_op(Mode::Write, [9u8; 512], 1, 0x10, 0x20, 0x30), Ok(()));
    assert_eq!(b.virtq.descriptors[1].flags, 3);
    assert_eq!(b.req.data[0], 9);

    let mut k = VirtioBlk::new(Device::new(0x1000_1000));
    k.set_capacity(8);
    assert_eq!(k.blk_op(Mode::Write, [9u8; 512], 1, 0x10, 0x20, 0x30), Ok(()));
    assert_eq!(k.queue.descriptors[1].flags, 1);
    assert_eq!(k.queue.used.index, 0);
}
