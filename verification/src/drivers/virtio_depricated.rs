//! The first virtio block driver, for the one device at a fixed address. Its queue, request
//! and status types are those of the kernel's block driver; its requests mark the data sector
//! writable by the device in both directions.
use vstd::prelude::*;
pub use super::virtio::MmioOffset;
pub use crate::kernel::drivers::virtio::blk::{
    Available, Descriptor, Error, Flags, Header, Mode, MmioOp, Queue, Request, Used, UsedElement,
    VirtioStatus,
};
use crate::kernel::drivers::virtio::blk::{chain_with, start_request, SECTOR_SIZE};
use crate::kernel::drivers::virtio::blk::VirtioBlk as KernelBlk;

verus! {

/// Address of the block device's registers.
pub const BLK_ADDR: u64 = 0x1000_1000;

/// Value of the magic register of a virtio device.
pub const MAGIC: u32 = 0x7472_6976;

/// The block driver's state.
#[derive(Debug, Clone, Copy)]
pub struct VirtioBlk {
    pub addr: u64,
    pub capacity: u64,
    pub virtq: Queue,
    pub req: Request,
}

impl VirtioBlk {
    /// The driver of the device at `BLK_ADDR`, with an empty queue and no capacity yet.
    pub fn new() -> (b: VirtioBlk)
        ensures
            b.addr == BLK_ADDR,
            b.capacity == 0,
            b.virtq.avail.index == 0,
            b.virtq.last_used == 0,
            b.req.status == 0,
    {
        VirtioBlk { addr: BLK_ADDR, capacity: 0, virtq: Queue::new(), req: Request::new() }
    }

    /// The device answers as a legacy (version 1) virtio block device; any other answer stops
    /// the kernel.
    pub fn device_ok(magic: u32, version: u32, id: u32) -> (r: bool)
        ensures
            r == (magic == MAGIC && version == 1 && id == 2),
    {
        magic == MAGIC && version == 1 && id == 2
    }

    /// The register accesses that bring the device up once it checked out: reset, acknowledge,
    /// driver, features ok, queue 0 of sixteen entries at page `queue_pfn`, then driver ok.
    pub fn init_sequence(queue_pfn: u32) -> (ops: Vec<MmioOp>)
        ensures
            ops@ == seq![
                MmioOp::Write(MmioOffset::Status, 0),
                MmioOp::Mask(MmioOffset::Status, 1),
                MmioOp::Mask(MmioOffset::Status, 2),
                MmioOp::Mask(MmioOffset::Status, 8),
                MmioOp::Write(MmioOffset::QueueSel, 0),
                MmioOp::Write(MmioOffset::QueueNum, 16),
                MmioOp::Write(MmioOffset::QueueAlign, 0),
                MmioOp::Write(MmioOffset::QueuePfn, queue_pfn),
                MmioOp::Write(MmioOffset::Status, 4),
            ],
    {
        KernelBlk::init_sequence(queue_pfn)
    }

    /// Records the capacity that the configuration space reports, in sectors.
    pub fn set_capacity(&mut self, sectors: u64)
        requires
            sectors * SECTOR_SIZE <= u64::MAX,
        ensures
            final(self).capacity == sectors * SECTOR_SIZE,
            final(self).addr == old(self).addr,
            final(self).virtq == old(self).virtq,
            final(self).req == old(self).req,
    {
        self.capacity = sectors * SECTOR_SIZE;
    }

    /// Starts an operation on `sector`: fails with `OutOfBounds` past the end of the disk;
    /// otherwise fills the request (and, for a write, its buffer with `buf`), builds the chain
    /// over the request's fields at the given addresses, the data sector writable by the
    /// device, and publishes it.
    pub fn blk_op(
        &mut self,
        mode: Mode,
        buf: [u8; 512],
        sector: u64,
        header_addr: u64,
        data_addr: u64,
        status_addr: u64,
    ) -> (r: Result<(), Error>)
        ensures
            sector >= old(self).capacity / SECTOR_SIZE ==> {
                &&& r == Err::<(), Error>(Error::OutOfBounds)
                &&& *final(self) == *old(self)
            },
            sector < old(self).capacity / SECTOR_SIZE ==> {
                &&& r == Ok::<(), Error>(())
                &&& final(self).addr == old(self).addr
                &&& final(self).capacity == old(self).capacity
                &&& final(self).req.header == (Header {
                    _type: mode.spec_type(),
                    reserved: old(self).req.header.reserved,
                    sector,
                })
                &&& final(self).req.data == (if mode == Mode::Write {
                    buf
                } else {
                    old(self).req.data
                })
                &&& final(self).req.status == old(self).req.status
                &&& final(self).virtq.descriptors@.subrange(0, 3) == chain_with(
                    3,
                    header_addr,
                    data_addr,
                    status_addr,
                )
                &&& final(self).virtq.descriptors@.subrange(3, 16) == old(self).virtq.descriptors@.subrange(3, 16)
                &&& final(self).virtq.avail.ring@ == old(self).virtq.avail.ring@.update(
                    (old(self).virtq.avail.index % 16) as int,
                    0,
                )
                &&& final(self).virtq.avail.index == (old(self).virtq.avail.index + 1) % 0x10000
                &&& final(self).virtq.last_used == (old(self).virtq.last_used + 1) % 0x10000
                &&& final(self).virtq.avail.flags == old(self).virtq.avail.flags
                &&& final(self).virtq.used == old(self).virtq.used
            },
    {
        let data_flags: u16 = Flags::Next.bits() | Flags::Write.bits();
        assert((1u16 | 2u16) == 3u16) by (bit_vector);
        let capacity = self.capacity;
        start_request(
            &mut self.req,
            &mut self.virtq,
            capacity,
            mode,
            buf,
            sector,
            header_addr,
            data_addr,
            status_addr,
            data_flags,
        )
    }

    /// Ends an operation once the device has used the chain: a zero status succeeds, handing
    /// back the sector on a read; any other status fails with it.
    pub fn finish(&self, mode: Mode, sector: u64) -> (r: Result<Option<[u8; 512]>, Error>)
        ensures
            self.req.status == 0 ==> r == Ok::<Option<[u8; 512]>, Error>(
                if mode == Mode::Read {
                    Some(self.req.data)
                } else {
                    None
                },
            ),
            self.req.status != 0 ==> r == Err::<Option<[u8; 512]>, Error>(
                Error::Failed { status: self.req.status, sector },
            ),
    {
        match self.req.status {
            0 => {
                if mode == Mode::Read {
                    Ok(Some(self.req.data))
                } else {
                    Ok(None)
                }
            },
            status => Err(Error::Failed { status, sector }),
        }
    }
}

} // verus!
