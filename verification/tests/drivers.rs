use zeus::drivers::uart::Uart;
use zeus::drivers::virtio::{probe_addresses, probe_device, Device, DeviceType, Devices, HalImpl, MmioOffset, Probe};
use zeus::kernel::drivers::virtio::blk::{Error, Flags, Mode, MmioOp, Queue, Request, VirtioBlk, VirtioStatus};

#[test]
fn uart_registers() {
    let u = Uart::new();
    assert_eq!(u.data_register(), 0x1000_0000);
    assert_eq!(u.line_status_register(), 0x1000_0005);
    assert_eq!(Uart::read(0x61, b'x'), Some(b'x'));
    assert_eq!(Uart::read(0x60, b'x'), None);
}

#[test]
fn register_offsets() {
    assert_eq!(MmioOffset::Magic.offset(), 0);
    assert_eq!(MmioOffset::QueueNotify.offset(), 0x50);
    assert_eq!(MmioOffset::Config.offset(), 0x100);
    assert_eq!(Device::new(0x1000_1000).register(MmioOffset::Status), 0x1000_1070);
    assert_eq!(Device::virtio_mask(1, 2), 3);
}

#[test]
fn device_types() {
    assert_eq!(DeviceType::from(0), DeviceType::Reserved);
    assert_eq!(DeviceType::from(1), DeviceType::NetworkCard);
    assert_eq!(DeviceType::from(2), DeviceType::BlockDevice);
    assert_eq!(DeviceType::from(16), DeviceType::GpuDevice);
    assert_eq!(DeviceType::from(18), DeviceType::InputDevice);
    assert_eq!(DeviceType::from(3), DeviceType::Unknown);
}

#[test]
fn probing() {
    let addrs = probe_addresses();
    assert_eq!(addrs.len(), 8);
    assert_eq!(addrs[0], 0x1000_1000);
    assert_eq!(addrs[7], 0x1000_8000);
    assert_eq!(probe_device(0, 2, false), Probe::Absent);
    assert_eq!(probe_device(0x74726976, 2, false), Probe::Block);
    assert_eq!(probe_device(0x74726976, 2, true), Probe::SecondBlock);
    assert_eq!(probe_device(0x74726976, 0, false), Probe::Reserved);
    assert_eq!(probe_device(0x74726976, 1, false), Probe::Ignored(DeviceType::NetworkCard));
    assert_eq!(probe_device(0x74726976, 99, false), Probe::Unknown);
    let mut d = Devices::new();
    assert!(!d.is_filled());
    d.block = Some(VirtioBlk::new(Device::new(0x1000_1000)));
    assert!(d.is_filled());
}

#[test]
fn dma_pages_are_handed_out_in_order() {
    let mut h = HalImpl::new(0x8100_0000);
    assert_eq!(h.dma_alloc(2), 0x8100_0000);
    assert_eq!(h.dma_alloc(1), 0x8100_0000 + 2 * virtio_drivers::PAGE_SIZE);
    assert_eq!(h.dma_alloc(1), 0x8100_3000);
    assert_eq!(h.dma_dealloc(0, 1), 0);
}

#[test]
fn blk_flags_and_modes() {
    assert_eq!(Flags::Next.bits(), 1);
    assert_eq!(Flags::Write.bits(), 2);
    assert_eq!(Mode::Read._type(), 0);
    assert_eq!(Mode::Write._type(), 1);
    assert_eq!(VirtioStatus::FeatOk.bits(), 8);
    assert_eq!(Request::new().data, [0u8; 512]);
}

#[test]
fn init_sequence() {
    let ops = VirtioBlk::init_sequence(0x80);
    assert_eq!(ops.len(), 9);
    assert_eq!(ops[0], MmioOp::Write(MmioOffset::Status, 0));
    assert_eq!(ops[3], MmioOp::Mask(MmioOffset::Status, 8));
    assert_eq!(ops[7], MmioOp::Write(MmioOffset::QueuePfn, 0x80));
    assert_eq!(ops[8], MmioOp::Write(MmioOffset::Status, 4));
    assert!(VirtioBlk::version_ok(1));
    assert!(!VirtioBlk::version_ok(2));
}

#[test]
fn out_of_bounds_sector() {
    let mut b = VirtioBlk::new(Device::new(0x1000_1000));
    b.set_capacity(4);
    assert_eq!(b.capacity, 2048);
    assert_eq!(b.blk_op(Mode::Read, [0; 512], 4, 1, 2, 3), Err(Error::OutOfBounds));
    assert_eq!(b.queue.avail.index, 0);
}

#[test]
fn a_write_request() {
    let mut b = VirtioBlk::new(Device::new(0x1000_1000));
    b.set_capacity(4);
    assert_eq!(b.blk_op(Mode::Write, [7; 512], 3, 0x100, 0x200, 0x300), Ok(()));
    assert_eq!(b.req.header.sector, 3);
    assert_eq!(b.req.header._type, 1);
    assert_eq!(b.req.data, [7; 512]);
    assert_eq!(b.queue.descriptors[0].addr, 0x100);
    assert_eq!(b.queue.descriptors[1].flags, 1);
    assert_eq!(b.queue.descriptors[2].flags, 2);
    assert_eq!(b.queue.avail.index, 1);
    assert_eq!(b.queue.last_used, 1);
    assert!(!b.queue.is_done(0));
    assert!(b.queue.is_done(1));
    assert_eq!(b.finish(Mode::Write, 3), Ok(None));
}

#[test]
fn a_read_request_and_its_status() {
    let mut b = VirtioBlk::new(Device::new(0x1000_1000));
    b.set_capacity(4);
    assert_eq!(b.blk_op(Mode::Read, [7; 512], 0, 0x100, 0x200, 0x300), Ok(()));
    assert_eq!(b.queue.descriptors[1].flags, 3);
    assert_eq!(b.req.data, [0; 512]);
    assert_eq!(b.finish(Mode::Read, 0), Ok(Some([0; 512])));
    b.req.status = 1;
    assert_eq!(b.finish(Mode::Read, 0), Err(Error::Failed { status: 1, sector: 0 }));
}

#[test]
fn notify_wraps() {
    let mut q = Queue::new();
    q.avail.index = u16::MAX;
    q.last_used = u16::MAX;
    q.notify();
    assert_eq!(q.avail.index, 0);
    assert_eq!(q.last_used, 0);
}
