//! Discovery of virtio devices on the MMIO bus.
use vstd::prelude::*;
use crate::kernel::drivers::virtio::blk::VirtioBlk;

verus! {

/// First device slot on the bus.
pub const MMIO_FIRST: u64 = 0x1000_1000;

/// Last device slot on the bus.
pub const MMIO_LAST: u64 = 0x1000_8000;

/// Distance between device slots.
pub const MMIO_STEP: u64 = 0x1000;

/// The value of the magic register of a virtio device ("virt").
pub const VIRTIO_MAGIC: u32 = 0x74726976;

/// `virtio_drivers::PAGE_SIZE`, the size of the pages the crate asks DMA memory in: 4096
/// bytes, as the crate's source defines it.
#[verifier::external_body]
fn page_size() -> (n: usize)
    ensures
        n == 0x1000,
{
    virtio_drivers::PAGE_SIZE
}

/// The DMA memory of virtio devices: pages are handed out one after another from a base
/// address and never given back.
pub struct HalImpl {
    next: usize,
}

impl HalImpl {
    /// The address of the next page to hand out.
    pub closed spec fn next(&self) -> usize {
        self.next
    }

    /// DMA memory starting at `base`.
    pub fn new(base: usize) -> (h: HalImpl)
        ensures
            h.next() == base,
    {
        HalImpl { next: base }
    }

    /// Hands out `pages` contiguous pages: their address is the current one, which moves on by
    /// their size (wrapping around the address space).
    pub fn dma_alloc(&mut self, pages: usize) -> (addr: usize)
        requires
            0x1000 * pages <= usize::MAX,
        ensures
            addr == old(self).next(),
            final(self).next() == (if old(self).next() + 0x1000 * pages <= usize::MAX {
                old(self).next() + 0x1000 * pages
            } else {
                old(self).next() + 0x1000 * pages - usize::MAX - 1
            }),
    {
        let addr = self.next;
        let page = page_size();
        self.next = self.next.wrapping_add(page * pages);
        addr
    }

    /// Pages are never given back: reports success.
    pub fn dma_dealloc(&mut self, paddr: u64, pages: usize) -> (r: i32)
        ensures
            r == 0,
            final(self).next() == old(self).next(),
    {
        0
    }
}

/// Registers of a virtio device.
#[derive(Debug, Clone, Copy, PartialEq, Eq, Structural)]
pub enum MmioOffset {
    Magic,
    Version,
    Id,
    QueueSel,
    QueueNumMax,
    QueueNum,
    QueueAlign,
    QueuePfn,
    QueueNotify,
    Status,
    Config,
}

impl MmioOffset {
    /// The register's byte offset.
    pub open spec fn spec_offset(self) -> u64 {
        match self {
            MmioOffset::Magic => 0x00,
            MmioOffset::Version => 0x04,
            MmioOffset::Id => 0x08,
            MmioOffset::QueueSel => 0x30,
            MmioOffset::QueueNumMax => 0x34,
            MmioOffset::QueueNum => 0x38,
            MmioOffset::QueueAlign => 0x3c,
            MmioOffset::QueuePfn => 0x40,
            MmioOffset::QueueNotify => 0x50,
            MmioOffset::Status => 0x70,
            MmioOffset::Config => 0x100,
        }
    }

    pub fn offset(&self) -> (o: u64)
        ensures
            o == self.spec_offset(),
    {
        match self {
            MmioOffset::Magic => 0x00,
            MmioOffset::Version => 0x04,
            MmioOffset::Id => 0x08,
            MmioOffset::QueueSel => 0x30,
            MmioOffset::QueueNumMax => 0x34,
            MmioOffset::QueueNum => 0x38,
            MmioOffset::QueueAlign => 0x3c,
            MmioOffset::QueuePfn => 0x40,
            MmioOffset::QueueNotify => 0x50,
            MmioOffset::Status => 0x70,
            MmioOffset::Config => 0x100,
        }
    }
}

/// Kinds of virtio devices.
#[derive(Debug, Clone, Copy, PartialEq, Eq, Structural)]
pub enum DeviceType {
    Reserved,
    NetworkCard,
    BlockDevice,
    GpuDevice,
    InputDevice,
    Unknown,
}

/// The device type a device id names.
pub open spec fn device_type_of(value: u32) -> DeviceType {
    if value == 0 {
        DeviceType::Reserved
    } else if value == 1 {
        DeviceType::NetworkCard
    } else if value == 2 {
        DeviceType::BlockDevice
    } else if value == 16 {
        DeviceType::GpuDevice
    } else if value == 18 {
        DeviceType::InputDevice
    } else {
        DeviceType::Unknown
    }
}

impl DeviceType {
    pub fn from(value: u32) -> (t: DeviceType)
        ensures
            t == device_type_of(value),
    {
        match value {
            0 => DeviceType::Reserved,
            1 => DeviceType::NetworkCard,
            2 => DeviceType::BlockDevice,
            16 => DeviceType::GpuDevice,
            18 => DeviceType::InputDevice,
            _ => DeviceType::Unknown,
        }
    }
}

/// A virtio device, by the address of its registers.
#[derive(Debug, Clone, Copy, PartialEq, Eq, Structural)]
pub struct Device {
    pub addr: u64,
}

impl Device {
    pub fn new(addr: u64) -> (d: Device)
        ensures
            d.addr == addr,
    {
        Device { addr }
    }

    /// Address of one of the device's registers.
    pub fn register(&self, offset: MmioOffset) -> (a: u64)
        requires
            self.addr + 0x100 <= u64::MAX,
        ensures
            a == self.addr + offset.spec_offset(),
    {
        self.addr + offset.offset()
    }

    /// The value that setting the bits `value` in a register holding `current` writes.
    pub fn virtio_mask(current: u32, value: u32) -> (r: u32)
        ensures
            r == current | value,
    {
        current | value
    }
}

/// The devices found on the bus.
pub struct Devices {
    pub block: Option<VirtioBlk>,
}

impl Devices {
    pub fn new() -> (d: Devices)
        ensures
            d.block is None,
    {
        Devices { block: None }
    }

    /// A block device was found.
    pub fn is_filled(&self) -> (r: bool)
        ensures
            r == self.block is Some,
    {
        self.block.is_some()
    }
}

/// What probing does with the device in one slot.
#[derive(Debug, Clone, Copy, PartialEq, Eq, Structural)]
pub enum Probe {
    /// No virtio device answers in the slot.
    Absent,
    /// A device with the reserved id: skipped silently.
    Reserved,
    /// A device the kernel has no driver for, reported and skipped.
    Ignored(DeviceType),
    /// The block device: attached.
    Block,
    /// A block device when one is attached already: the kernel stops.
    SecondBlock,
    /// An unknown device id: the kernel stops.
    Unknown,
}

/// What probing does with a slot whose magic and id registers read `magic` and `id`.
pub open spec fn probe_of(magic: u32, id: u32, have_block: bool) -> Probe {
    if magic != VIRTIO_MAGIC {
        Probe::Absent
    } else {
        match device_type_of(id) {
            DeviceType::Reserved => Probe::Reserved,
            DeviceType::BlockDevice => if have_block {
                Probe::SecondBlock
            } else {
                Probe::Block
            },
            DeviceType::Unknown => Probe::Unknown,
            t => Probe::Ignored(t),
        }
    }
}

/// What probing does with each device: a slot without the virtio magic is empty; id 0 is
/// reserved; the network card (1), GPU (16) and input device (18) are ignored; the first block
/// device (2) is attached and a second one stops the kernel; any other id stops it too.
pub proof fn lemma_probe_decisions(magic: u32, id: u32, have_block: bool)
    ensures
        magic != 0x74726976 ==> probe_of(magic, id, have_block) == Probe::Absent,
        magic == 0x74726976 ==> probe_of(magic, id, have_block) == (if id == 0 {
            Probe::Reserved
        } else if id == 1 {
            Probe::Ignored(DeviceType::NetworkCard)
        } else if id == 2 {
            if have_block {
                Probe::SecondBlock
            } else {
                Probe::Block
            }
        } else if id == 16 {
            Probe::Ignored(DeviceType::GpuDevice)
        } else if id == 18 {
            Probe::Ignored(DeviceType::InputDevice)
        } else {
            Probe::Unknown
        }),
{
}

/// Decides what probing does with a slot, given its magic and id registers and whether a
/// block device is attached already.
pub fn probe_device(magic: u32, id: u32, have_block: bool) -> (p: Probe)
    ensures
        p == probe_of(magic, id, have_block),
{
    if magic != VIRTIO_MAGIC {
        Probe::Absent
    } else {
        match DeviceType::from(id) {
            DeviceType::Reserved => Probe::Reserved,
            DeviceType::BlockDevice => if have_block {
                Probe::SecondBlock
            } else {
                Probe::Block
            },
            DeviceType::Unknown => Probe::Unknown,
            t => Probe::Ignored(t),
        }
    }
}

/// The slot addresses probing visits, in order.
pub fn probe_addresses() -> (v: Vec<u64>)
    ensures
        v@.len() == 8,
        forall|i: int| 0 <= i < 8 ==> v@[i] == MMIO_FIRST + i * MMIO_STEP,
{
    let mut v: Vec<u64> = Vec::new();
    let mut addr: u64 = MMIO_FIRST;
    while addr <= MMIO_LAST
        invariant
            MMIO_FIRST <= addr <= MMIO_LAST + MMIO_STEP,
            (addr - MMIO_FIRST) % MMIO_STEP as int == 0,
            v@.len() == (addr - MMIO_FIRST) / MMIO_STEP as int,
            forall|i: int| 0 <= i < v@.len() ==> v@[i] == MMIO_FIRST + i * MMIO_STEP,
        decreases MMIO_LAST + MMIO_STEP - addr,
    {
        v.push(addr);
        addr = addr + MMIO_STEP;
    }
    v
}

/// Why probing stops the kernel.
#[derive(Debug, Clone, Copy, PartialEq, Eq, Structural)]
pub enum ProbeError {
    /// A second block device answers at this address.
    SecondBlock(u64),
    /// A device with an unknown id answers at this address.
    Unknown(u64, u32),
    /// No block device answers anywhere.
    NoBlock,
}

/// Address of the `i`-th device slot.
pub open spec fn slot_addr(i: int) -> u64 {
    (MMIO_FIRST + i * MMIO_STEP) as u64
}

/// Probing the first `n` slots, whose magic and id registers read `slots`: the address of
/// the block device found so far, or why probing stopped.
pub open spec fn probe_upto(slots: Seq<(u32, u32)>, n: int) -> Result<Option<u64>, ProbeError>
    decreases n,
{
    if n <= 0 {
        Ok(None)
    } else {
        match probe_upto(slots, n - 1) {
            Err(e) => Err(e),
            Ok(found) => {
                let (magic, id) = slots[n - 1];
                match probe_of(magic, id, found is Some) {
                    Probe::Block => Ok(Some(slot_addr(n - 1))),
                    Probe::SecondBlock => Err(ProbeError::SecondBlock(slot_addr(n - 1))),
                    Probe::Unknown => Err(ProbeError::Unknown(slot_addr(n - 1), id)),
                    _ => Ok(found),
                }
            },
        }
    }
}

/// Once probing stops, probing further slots stops the same way.
proof fn lemma_probe_stops(slots: Seq<(u32, u32)>, n: int, m: int)
    requires
        0 <= n <= m,
        probe_upto(slots, n) is Err,
    ensures
        probe_upto(slots, m) == probe_upto(slots, n),
    decreases m - n,
{
    if m > n {
        lemma_probe_stops(slots, n, m - 1);
    }
}

/// The outcome of probing every slot: the block device's address, or why probing stopped.
pub open spec fn probe_result(slots: Seq<(u32, u32)>) -> Result<u64, ProbeError> {
    match probe_upto(slots, slots.len() as int) {
        Ok(Some(addr)) => Ok(addr),
        Ok(None) => Err(ProbeError::NoBlock),
        Err(e) => Err(e),
    }
}

/// Probes the bus, given what the magic and id registers of the slots at `probe_addresses`
/// read (the id is only looked at where the magic matches): stops at the first second block
/// device or unknown device, fails when no block device answers, and otherwise attaches the
/// block device found.
pub fn probe(slots: &[(u32, u32)]) -> (r: Result<Devices, ProbeError>)
    requires
        slots@.len() == 8,
    ensures
        match probe_result(slots@) {
            Ok(addr) => r matches Ok(d) && d.block matches Some(b) && b.device.addr == addr
                && b.capacity == 0,
            Err(e) => r matches Err(f) && f == e,
        },
{
    let mut devices = Devices::new();
    let mut i: usize = 0;
    while i < slots.len()
        invariant
            slots@.len() == 8,
            i <= 8,
            probe_upto(slots@, i as int) matches Ok(found) && match found {
                Some(addr) => devices.block matches Some(b) && b.device.addr == addr && b.capacity == 0,
                None => devices.block is None,
            },
        decreases 8 - i,
    {
        let (magic, id) = slots[i];
        let addr: u64 = MMIO_FIRST + (i as u64) * MMIO_STEP;
        assert(addr == slot_addr(i as int));
        assert(slots@[i as int] == (magic, id));
        let have = devices.is_filled();
        match probe_device(magic, id, have) {
            Probe::Block => {
                devices.block = Some(VirtioBlk::new(Device::new(addr)));
            },
            Probe::SecondBlock => {
                proof {
                    lemma_probe_stops(slots@, i + 1, 8);
                }
                return Err(ProbeError::SecondBlock(addr));
            },
            Probe::Unknown => {
                proof {
                    lemma_probe_stops(slots@, i + 1, 8);
                }
                return Err(ProbeError::Unknown(addr, id));
            },
            _ => {},
        }
        i = i + 1;
    }
    if devices.is_filled() {
        Ok(devices)
    } else {
        Err(ProbeError::NoBlock)
    }
}

} // verus!
