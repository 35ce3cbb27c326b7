//! The virtio block driver: one request at a time through a sixteen-entry queue.
//!
//! A request is a chain of three descriptors (header, data sector, status byte). The driver
//! fills the request and the chain, publishes the chain in the available ring, notifies the
//! device and waits until the device has used it; the status byte then tells the outcome.
use vstd::prelude::*;
use crate::drivers::virtio::{Device, MmioOffset};

verus! {

/// Entries of the queue.
pub const QUEUE_SIZE: usize = 16;

/// Bytes of a sector.
pub const SECTOR_SIZE: u64 = 512;

/// Bytes of a request header.
pub const HEADER_LEN: u32 = 16;

/// Why a block operation failed.
#[derive(Debug, Clone, Copy, PartialEq, Eq, Structural)]
pub enum Error {
    OutOfBounds,
    Failed { status: u8, sector: u64 },
}

/// Descriptor flags.
#[derive(Debug, Clone, Copy, PartialEq, Eq, Structural)]
pub enum Flags {
    /// The chain continues at `next`.
    Next,
    /// The device writes the buffer.
    Write,
}

impl Flags {
    pub open spec fn spec_bits(self) -> u16 {
        match self {
            Flags::Next => 1,
            Flags::Write => 2,
        }
    }

    pub fn bits(&self) -> (b: u16)
        ensures
            b == self.spec_bits(),
    {
        match self {
            Flags::Next => 1,
            Flags::Write => 2,
        }
    }
}

/// A buffer the device reads or writes.
#[derive(Debug, Clone, Copy, PartialEq, Eq, Structural)]
pub struct Descriptor {
    pub addr: u64,
    pub len: u32,
    pub flags: u16,
    pub next: u16,
}

impl Descriptor {
    /// The all-zero descriptor.
    pub fn new() -> (d: Descriptor)
        ensures
            d == (Descriptor { addr: 0, len: 0, flags: 0, next: 0 }),
    {
        Descriptor { addr: 0, len: 0, flags: 0, next: 0 }
    }
}

/// The ring of chains offered to the device.
#[derive(Debug, Clone, Copy)]
pub struct Available {
    pub flags: u16,
    pub index: u16,
    pub ring: [u16; 16],
}

/// A chain the device has finished with.
#[derive(Debug, Clone, Copy, PartialEq, Eq, Structural)]
pub struct UsedElement {
    pub id: u32,
    pub len: u32,
}

/// The ring of chains the device has finished with.
#[derive(Debug, Clone, Copy)]
pub struct Used {
    pub flags: u16,
    pub index: u16,
    pub ring: [UsedElement; 16],
}

/// The queue shared with the device.
#[derive(Debug, Clone, Copy)]
pub struct Queue {
    pub descriptors: [Descriptor; 16],
    pub avail: Available,
    pub used: Used,
    pub last_used: u16,
}

impl Queue {
    /// An empty queue: everything zero.
    pub fn new() -> (q: Queue)
        ensures
            forall|i: int| 0 <= i < 16 ==> q.descriptors@[i] == Descriptor::new_spec(),
            q.avail.index == 0,
            q.avail.flags == 0,
            forall|i: int| 0 <= i < 16 ==> q.avail.ring@[i] == 0,
            q.used.index == 0,
            q.used.flags == 0,
            q.last_used == 0,
    {
        let q = Queue {
            descriptors: [Descriptor { addr: 0, len: 0, flags: 0, next: 0 }; 16],
            avail: Available { flags: 0, index: 0, ring: [0u16; 16] },
            used: Used { flags: 0, index: 0, ring: [UsedElement { id: 0, len: 0 }; 16] },
            last_used: 0,
        };
        q
    }

    /// Publishes the chain starting at descriptor 0: it goes into the next ring slot, the
    /// ring index moves on, and the index of the next expected used entry moves on (both wrap).
    pub fn notify(&mut self)
        ensures
            final(self).avail.ring@ == old(self).avail.ring@.update((old(self).avail.index % 16) as int, 0),
            final(self).avail.index == (old(self).avail.index + 1) % 0x10000,
            final(self).last_used == (old(self).last_used + 1) % 0x10000,
            final(self).descriptors == old(self).descriptors,
            final(self).used == old(self).used,
            final(self).avail.flags == old(self).avail.flags,
    {
        let slot = (self.avail.index % 16) as usize;
        self.avail.ring[slot] = 0;
        self.avail.index = self.avail.index.wrapping_add(1);
        self.last_used = self.last_used.wrapping_add(1);
    }

    /// The device has used every published chain.
    pub fn is_done(&self, used_index: u16) -> (r: bool)
        ensures
            r == (self.last_used == used_index),
    {
        self.last_used == used_index
    }
}

impl Descriptor {
    pub open spec fn new_spec() -> Descriptor {
        Descriptor { addr: 0, len: 0, flags: 0, next: 0 }
    }
}

/// The header of a request.
#[derive(Debug, Clone, Copy, PartialEq, Eq, Structural)]
pub struct Header {
    pub _type: u32,
    pub reserved: u32,
    pub sector: u64,
}

/// A request: header, sector buffer and status byte.
#[derive(Debug, Clone, Copy)]
pub struct Request {
    pub header: Header,
    pub data: [u8; 512],
    pub status: u8,
}

impl Request {
    /// An all-zero request.
    pub fn new() -> (r: Request)
        ensures
            r.header == (Header { _type: 0, reserved: 0, sector: 0 }),
            r.data@ == Seq::new(512, |i: int| 0u8),
            r.status == 0,
    {
        let r = Request { header: Header { _type: 0, reserved: 0, sector: 0 }, data: [0u8; 512], status: 0 };
        proof {
            assert(r.data@ =~= Seq::new(512, |i: int| 0u8));
        }
        r
    }
}

/// Device status bits.
#[derive(Debug, Clone, Copy, PartialEq, Eq, Structural)]
pub enum VirtioStatus {
    Ack,
    Driver,
    DriverOk,
    FeatOk,
}

impl VirtioStatus {
    pub open spec fn spec_bits(self) -> u32 {
        match self {
            VirtioStatus::Ack => 1,
            VirtioStatus::Driver => 2,
            VirtioStatus::DriverOk => 4,
            VirtioStatus::FeatOk => 8,
        }
    }

    pub fn bits(&self) -> (b: u32)
        ensures
            b == self.spec_bits(),
    {
        match self {
            VirtioStatus::Ack => 1,
            VirtioStatus::Driver => 2,
            VirtioStatus::DriverOk => 4,
            VirtioStatus::FeatOk => 8,
        }
    }
}

/// Direction of a block operation.
#[derive(Debug, Clone, Copy, PartialEq, Eq, Structural)]
pub enum Mode {
    Read,
    Write,
}

impl Mode {
    pub open spec fn spec_type(self) -> u32 {
        match self {
            Mode::Read => 0,
            Mode::Write => 1,
        }
    }

    /// The request type of the operation.
    pub fn _type(&self) -> (t: u32)
        ensures
            t == self.spec_type(),
    {
        match self {
            Mode::Read => 0,
            Mode::Write => 1,
        }
    }
}

/// One register access of the initialisation sequence.
#[derive(Debug, Clone, Copy, PartialEq, Eq, Structural)]
pub enum MmioOp {
    /// Store the value in the register.
    Write(MmioOffset, u32),
    /// Set the bits of the value in the register.
    Mask(MmioOffset, u32),
}

/// The descriptor chain of a request whose data descriptor carries `data_flags`: the header
/// (read by the device), the sector and the status byte (written by the device).
pub open spec fn chain_with(data_flags: u16, header_addr: u64, data_addr: u64, status_addr: u64) -> Seq<Descriptor> {
    seq![
        Descriptor { addr: header_addr, len: HEADER_LEN, flags: 1, next: 1 },
        Descriptor { addr: data_addr, len: 512, flags: data_flags, next: 2 },
        Descriptor { addr: status_addr, len: 1, flags: 2, next: 0 },
    ]
}

/// The descriptor chain of a request: the header (read by the device), the sector (written by
/// the device on a read) and the status byte (written by the device).
pub open spec fn chain_of(mode: Mode, header_addr: u64, data_addr: u64, status_addr: u64) -> Seq<Descriptor> {
    chain_with(if mode == Mode::Write { 1 } else { 3 }, header_addr, data_addr, status_addr)
}

/// A request's chain: the header, then the 512-byte sector, then the status byte, each at its
/// address and linked to the next, the last ending the chain; the device may write the
/// status byte always and the sector exactly when it is a read, and never the header.
pub proof fn lemma_chain_shape(mode: Mode, header_addr: u64, data_addr: u64, status_addr: u64)
    ensures
        ({
            let c = chain_of(mode, header_addr, data_addr, status_addr);
            &&& c.len() == 3
            &&& c[0].addr == header_addr && c[0].len == HEADER_LEN && c[0].next == 1
            &&& c[1].addr == data_addr && c[1].len == 512 && c[1].next == 2
            &&& c[2].addr == status_addr && c[2].len == 1
            &&& c[0].flags & 1 == 1 && c[1].flags & 1 == 1 && c[2].flags & 1 == 0
            &&& c[0].flags & 2 == 0 && c[2].flags & 2 == 2
            &&& (c[1].flags & 2 == 2) == (mode == Mode::Read)
        }),
{
    assert(1u16 & 1 == 1 && 3u16 & 1 == 1 && 2u16 & 1 == 0 && 1u16 & 2 == 0 && 2u16 & 2 == 2
        && 3u16 & 2 == 2) by (bit_vector);
}

/// Starts an operation on `sector` of a disk of `capacity` bytes: fails with `OutOfBounds`
/// past its end; otherwise fills the request (and, for a write, its buffer with `buf`), builds
/// the chain over the request's fields at the given addresses, with `data_flags` on the data
/// descriptor, and publishes it.
pub fn start_request(
    req: &mut Request,
    queue: &mut Queue,
    capacity: u64,
    mode: Mode,
    buf: [u8; 512],
    sector: u64,
    header_addr: u64,
    data_addr: u64,
    status_addr: u64,
    data_flags: u16,
) -> (r: Result<(), Error>)
    ensures
        sector >= capacity / SECTOR_SIZE ==> {
            &&& r == Err::<(), Error>(Error::OutOfBounds)
            &&& *final(req) == *old(req)
            &&& *final(queue) == *old(queue)
        },
        sector < capacity / SECTOR_SIZE ==> {
            &&& r == Ok::<(), Error>(())
            &&& final(req).header == (Header {
                _type: mode.spec_type(),
                reserved: old(req).header.reserved,
                sector,
            })
            &&& final(req).data == (if mode == Mode::Write {
                buf
            } else {
                old(req).data
            })
            &&& final(req).status == old(req).status
            &&& final(queue).descriptors@.subrange(0, 3) == chain_with(
                data_flags,
                header_addr,
                data_addr,
                status_addr,
            )
            &&& final(queue).descriptors@.subrange(3, 16) == old(queue).descriptors@.subrange(3, 16)
            &&& final(queue).avail.ring@ == old(queue).avail.ring@.update(
                (old(queue).avail.index % 16) as int,
                0,
            )
            &&& final(queue).avail.index == (old(queue).avail.index + 1) % 0x10000
            &&& final(queue).last_used == (old(queue).last_used + 1) % 0x10000
            &&& final(queue).avail.flags == old(queue).avail.flags
            &&& final(queue).used == old(queue).used
        },
{
    if sector >= capacity / SECTOR_SIZE {
        return Err(Error::OutOfBounds);
    }
    req.header.sector = sector;
    req.header._type = mode._type();
    if mode == Mode::Write {
        req.data = buf;
    }
    let ghost before = queue.descriptors@;
    queue.descriptors[0] = Descriptor {
        addr: header_addr,
        len: HEADER_LEN,
        flags: Flags::Next.bits(),
        next: 1,
    };
    queue.descriptors[1] = Descriptor { addr: data_addr, len: 512, flags: data_flags, next: 2 };
    queue.descriptors[2] = Descriptor {
        addr: status_addr,
        len: 1,
        flags: Flags::Write.bits(),
        next: 0,
    };
    queue.notify();
    proof {
        assert(queue.descriptors@.subrange(0, 3) =~= chain_with(
            data_flags,
            header_addr,
            data_addr,
            status_addr,
        ));
        assert(queue.descriptors@.subrange(3, 16) =~= before.subrange(3, 16));
    }
    Ok(())
}

/// The virtio block driver's state.
#[derive(Debug, Clone, Copy)]
pub struct VirtioBlk {
    pub device: Device,
    pub capacity: u64,
    pub queue: Queue,
    pub req: Request,
}

impl VirtioBlk {
    /// A driver for `device` with an empty queue and no capacity yet.
    pub fn new(device: Device) -> (b: VirtioBlk)
        ensures
            b.device == device,
            b.capacity == 0,
            b.queue.avail.index == 0,
            b.queue.last_used == 0,
    {
        VirtioBlk { device, capacity: 0, queue: Queue::new(), req: Request::new() }
    }

    /// The register accesses that bring the device up, after its version has been checked:
    /// reset, acknowledge, driver, features ok, queue 0 of sixteen entries at page `queue_pfn`,
    /// then driver ok alone.
    pub fn init_sequence(queue_pfn: u32) -> (ops: Vec<MmioOp>)
        ensures
            ops@ == seq![
                MmioOp::Write(MmioOffset::Status, 0),
                MmioOp::Mask(MmioOffset::Status, 1),
                MmioOp::Mask(MmioOffset::Status, 2),
                MmioOp::Mask(MmioOffset::Status, 8),
                MmioOp::Write(MmioOffset::QueueSel, 0),
                MmioOp::Write(MmioOffset::QueueNum, 16),
                MmioOp::Write(MmioOffset::QueueAlign, 0),
                MmioOp::Write(MmioOffset::QueuePfn, queue_pfn),
                MmioOp::Write(MmioOffset::Status, 4),
            ],
    {
        let mut ops: Vec<MmioOp> = Vec::new();
        ops.push(MmioOp::Write(MmioOffset::Status, 0));
        ops.push(MmioOp::Mask(MmioOffset::Status, VirtioStatus::Ack.bits()));
        ops.push(MmioOp::Mask(MmioOffset::Status, VirtioStatus::Driver.bits()));
        ops.push(MmioOp::Mask(MmioOffset::Status, VirtioStatus::FeatOk.bits()));
        ops.push(MmioOp::Write(MmioOffset::QueueSel, 0));
        ops.push(MmioOp::Write(MmioOffset::QueueNum, 16));
        ops.push(MmioOp::Write(MmioOffset::QueueAlign, 0));
        ops.push(MmioOp::Write(MmioOffset::QueuePfn, queue_pfn));
        ops.push(MmioOp::Write(MmioOffset::Status, VirtioStatus::DriverOk.bits()));
        proof {
            assert(ops@ =~= seq![
                MmioOp::Write(MmioOffset::Status, 0),
                MmioOp::Mask(MmioOffset::Status, 1),
                MmioOp::Mask(MmioOffset::Status, 2),
                MmioOp::Mask(MmioOffset::Status, 8),
                MmioOp::Write(MmioOffset::QueueSel, 0),
                MmioOp::Write(MmioOffset::QueueNum, 16),
                MmioOp::Write(MmioOffset::QueueAlign, 0),
                MmioOp::Write(MmioOffset::QueuePfn, queue_pfn),
                MmioOp::Write(MmioOffset::Status, 4),
            ]);
        }
        ops
    }

    /// The device must speak the legacy interface, version 1.
    pub fn version_ok(version: u32) -> (r: bool)
        ensures
            r == (version == 1),
    {
        version == 1
    }

    /// Records the capacity that the configuration space reports, in sectors.
    pub fn set_capacity(&mut self, sectors: u64)
        requires
            sectors * SECTOR_SIZE <= u64::MAX,
        ensures
            final(self).capacity == sectors * SECTOR_SIZE,
            final(self).device == old(self).device,
            final(self).queue == old(self).queue,
            final(self).req == old(self).req,
    {
        self.capacity = sectors * SECTOR_SIZE;
    }

    /// Starts an operation on `sector`: fails with `OutOfBounds` past the end of the disk;
    /// otherwise fills the request (and, for a write, its buffer with `buf`), builds the chain
    /// over the request's fields at the given addresses and publishes it.
    pub fn blk_op(
        &mut self,
        mode: Mode,
        buf: [u8; 512],
        sector: u64,
        header_addr: u64,
        data_addr: u64,
        status_addr: u64,
    ) -> (r: Result<(), Error>)
        ensures
            sector >= old(self).capacity / SECTOR_SIZE ==> {
                &&& r == Err::<(), Error>(Error::OutOfBounds)
                &&& *final(self) == *old(self)
            },
            sector < old(self).capacity / SECTOR_SIZE ==> {
                &&& r == Ok::<(), Error>(())
                &&& final(self).device == old(self).device
                &&& final(self).capacity == old(self).capacity
                &&& final(self).req.header == (Header {
                    _type: mode.spec_type(),
                    reserved: old(self).req.header.reserved,
                    sector,
                })
                &&& final(self).req.data == (if mode == Mode::Write {
                    buf
                } else {
                    old(self).req.data
                })
                &&& final(self).req.status == old(self).req.status
                &&& final(self).queue.descriptors@.subrange(0, 3) == chain_of(
                    mode,
                    header_addr,
                    data_addr,
                    status_addr,
                )
                &&& final(self).queue.descriptors@.subrange(3, 16) == old(self).queue.descriptors@.subrange(3, 16)
                &&& final(self).queue.avail.ring@ == old(self).queue.avail.ring@.update(
                    (old(self).queue.avail.index % 16) as int,
                    0,
                )
                &&& final(self).queue.avail.index == (old(self).queue.avail.index + 1) % 0x10000
                &&& final(self).queue.last_used == (old(self).queue.last_used + 1) % 0x10000
                &&& final(self).queue.avail.flags == old(self).queue.avail.flags
                &&& final(self).queue.used == old(self).queue.used
            },
    {
        let data_flags: u16 = if mode == Mode::Write {
            Flags::Next.bits()
        } else {
            Flags::Next.bits() | Flags::Write.bits()
        };
        assert((1u16 | 2u16) == 3u16) by (bit_vector);
        let capacity = self.capacity;
        start_request(
            &mut self.req,
            &mut self.queue,
            capacity,
            mode,
            buf,
            sector,
            header_addr,
            data_addr,
            status_addr,
            data_flags,
        )
    }

    /// Ends an operation once the device has used the chain: a zero status succeeds, handing
    /// back the sector on a read; any other status fails with it.
    pub fn finish(&self, mode: Mode, sector: u64) -> (r: Result<Option<[u8; 512]>, Error>)
        ensures
            self.req.status == 0 ==> r == Ok::<Option<[u8; 512]>, Error>(
                if mode == Mode::Read {
                    Some(self.req.data)
                } else {
                    None
                },
            ),
            self.req.status != 0 ==> r == Err::<Option<[u8; 512]>, Error>(
                Error::Failed { status: self.req.status, sector },
            ),
    {
        match self.req.status {
            0 => {
                if mode == Mode::Read {
                    Ok(Some(self.req.data))
                } else {
                    Ok(None)
                }
            },
            status => Err(Error::Failed { status, sector }),
        }
    }
}

} // verus!
