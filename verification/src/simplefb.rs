//! A PCI function that exists to receive the mappings of a framebuffer.
use vm_memory::MmapRegion;
use vstd::prelude::*;

use crate::bytes::{fill_from, overwrite, zeroed};
use crate::framebuffer::{DmaFramebuffer, FramebufferError};
use crate::guest_memory::{DmaMapFlags, GuestAddress, GuestMemoryError, GuestMemoryRegion};
use crate::vfio::{
    checked_range, BackendError, IrqInfo, RegionInfo, CONFIG_REGION_INDEX, IRQ_COUNT,
    REGION_COUNT, REGION_FLAGS_READ_WRITE,
};

verus! {

pub const PCI_VENDOR_ID: u16 = 0x1b36;
pub const PCI_DEVICE_ID: u16 = 0x00ff;
pub const PCI_CONFIG_SPACE_SIZE: usize = 4096;
pub const PCI_REGION_COUNT: usize = 8;

/// The bytes that no write changes: identity, an unassigned class, and absent base address
/// registers and expansion ROM.
pub open spec fn fixed_byte(at: int) -> Option<u8> {
    if at == 0x00 {
        Some(0x36)
    } else if at == 0x01 {
        Some(0x1b)
    } else if at == 0x02 {
        Some(0xff)
    } else if at == 0x03 {
        Some(0x00)
    } else if 0x08 <= at < 0x0b {
        Some(0x00)
    } else if at == 0x0b {
        Some(0xff)
    } else if at == 0x0e {
        Some(0x00)
    } else if 0x10 <= at < 0x28 || 0x30 <= at < 0x34 {
        Some(0x00)
    } else {
        None
    }
}

/// `bytes` with every fixed byte in place.
pub open spec fn restored(bytes: Seq<u8>) -> Seq<u8> {
    Seq::new(
        bytes.len(),
        |i: int|
            match fixed_byte(i) {
                Some(value) => value,
                None => bytes[i],
            },
    )
}

/// The one region of the device is its configuration space.
pub open spec fn region_info(index: u32) -> RegionInfo {
    if index == CONFIG_REGION_INDEX {
        RegionInfo {
            index,
            flags: REGION_FLAGS_READ_WRITE,
            size: PCI_CONFIG_SPACE_SIZE as u64,
        }
    } else {
        RegionInfo { index, flags: 0, size: 0 }
    }
}

pub struct MinimalPciBackend {
    pub config: Vec<u8>,
    pub framebuffer: DmaFramebuffer,
}

impl MinimalPciBackend {
    pub open spec fn valid(&self) -> bool {
        self.config@.len() == PCI_CONFIG_SPACE_SIZE && restored(self.config@) == self.config@
            && self.framebuffer.valid()
    }

    pub fn new(framebuffer: DmaFramebuffer) -> (r: Self)
        requires
            framebuffer.valid(),
        ensures
            r.valid(),
            r.framebuffer == framebuffer,
            r.config@ == restored(crate::bytes::zeros(PCI_CONFIG_SPACE_SIZE as nat)),
    {
        let mut config = zeroed(PCI_CONFIG_SPACE_SIZE);
        restore_static_config(&mut config);
        MinimalPciBackend { config, framebuffer }
    }

    pub fn regions() -> (r: Vec<RegionInfo>)
        ensures
            r@ == Seq::new(REGION_COUNT as nat, |i: int| region_info(i as u32)),
    {
        let mut regions: Vec<RegionInfo> = Vec::new();
        let mut index: u32 = 0;
        while index < REGION_COUNT
            invariant
                index <= REGION_COUNT,
                regions@ == Seq::new(index as nat, |i: int| region_info(i as u32)),
            decreases REGION_COUNT - index,
        {
            regions.push(
                if index == CONFIG_REGION_INDEX {
                    RegionInfo {
                        index,
                        flags: REGION_FLAGS_READ_WRITE,
                        size: PCI_CONFIG_SPACE_SIZE as u64,
                    }
                } else {
                    RegionInfo { index, flags: 0, size: 0 }
                },
            );
            index = index + 1;
        }
        regions
    }

    /// A client probes the standard interrupt indices even where the device has no vector.
    pub fn irqs() -> (r: Vec<IrqInfo>)
        ensures
            r@ == Seq::new(
                IRQ_COUNT as nat,
                |i: int| (IrqInfo { index: i as u32, flags: 0, count: 0 }),
            ),
    {
        let mut irqs: Vec<IrqInfo> = Vec::new();
        let mut index: u32 = 0;
        while index < IRQ_COUNT
            invariant
                index <= IRQ_COUNT,
                irqs@ == Seq::new(
                    index as nat,
                    |i: int| (IrqInfo { index: i as u32, flags: 0, count: 0 }),
                ),
            decreases IRQ_COUNT - index,
        {
            irqs.push(IrqInfo { index, flags: 0, count: 0 });
            index = index + 1;
        }
        irqs
    }

    pub fn region_read(&self, region: u32, offset: u64, data: &mut [u8]) -> (r: Result<
        (),
        BackendError,
    >)
        requires
            self.valid(),
        ensures
            if region != CONFIG_REGION_INDEX {
                r == Err::<(), BackendError>(BackendError::UnimplementedRegion(region)) && final(data)@ == old(data)@
            } else if offset + old(data)@.len() <= PCI_CONFIG_SPACE_SIZE {
                r is Ok && final(data)@ == self.config@.subrange(
                    offset as int,
                    offset + old(data)@.len(),
                )
            } else {
                r == Err::<(), BackendError>(BackendError::OutOfRange) && final(data)@ == old(data)@
            },
    {
        if region != CONFIG_REGION_INDEX {
            return Err(BackendError::UnimplementedRegion(region));
        }
        match checked_range(offset, data.len(), PCI_CONFIG_SPACE_SIZE) {
            Err(error) => Err(error),
            Ok(start) => {
                fill_from(data, &self.config, start);
                Ok(())
            },
        }
    }

    pub fn region_write(&mut self, region: u32, offset: u64, data: &[u8]) -> (r: Result<
        (),
        BackendError,
    >)
        requires
            old(self).valid(),
        ensures
            final(self).valid(),
            final(self).framebuffer == old(self).framebuffer,
            if region != CONFIG_REGION_INDEX {
                r == Err::<(), BackendError>(BackendError::UnimplementedRegion(region)) && final(self).config@ == old(self).config@
            } else if offset + data@.len() <= PCI_CONFIG_SPACE_SIZE {
                r is Ok && final(self).config@ == restored(
                    crate::bytes::overlay(old(self).config@, offset as int, data@),
                )
            } else {
                r == Err::<(), BackendError>(BackendError::OutOfRange) && final(self).config@
                    == old(self).config@
            },
    {
        if region != CONFIG_REGION_INDEX {
            return Err(BackendError::UnimplementedRegion(region));
        }
        match checked_range(offset, data.len(), PCI_CONFIG_SPACE_SIZE) {
            Err(error) => Err(error),
            Ok(start) => {
                overwrite(&mut self.config, start, data);
                restore_static_config(&mut self.config);
                Ok(())
            },
        }
    }

    /// Adds a mapping of `memory` at `address`.
    pub fn dma_map(
        &mut self,
        flags: DmaMapFlags,
        address: u64,
        size: u64,
        memory: Option<MmapRegion<()>>,
    ) -> (r: Result<(), FramebufferError>)
        requires
            old(self).valid(),
        ensures
            final(self).valid(),
            final(self).config@ == old(self).config@,
            final(self).framebuffer.layout() == old(self).framebuffer.layout(),
            final(self).framebuffer.dma().trace == old(self).framebuffer.dma().trace,
            r == crate::framebuffer::add_outcome(
                old(self).framebuffer.layout(),
                old(self).framebuffer.dma(),
                flags,
                address,
                size,
                memory,
            ),
            match r {
                Err(_) => final(self).framebuffer.dma() == old(self).framebuffer.dma(),
                Ok(()) => crate::guest_memory::region_added(
                    old(self).framebuffer.dma().regions,
                    final(self).framebuffer.dma().regions,
                    GuestMemoryRegion {
                        start: GuestAddress(address),
                        size,
                        readable: true,
                        writable: flags.write,
                        memory: memory->0,
                    },
                ),
            },
    {
        self.framebuffer.add_mapping(flags, address, size, memory)
    }

    /// Removes every mapping that shares an address with the range, or all mappings.
    pub fn dma_unmap(&mut self, all: bool, address: u64, size: u64) -> (r: Result<
        (),
        GuestMemoryError,
    >)
        requires
            old(self).valid(),
        ensures
            final(self).valid(),
            final(self).config@ == old(self).config@,
            final(self).framebuffer.layout() == old(self).framebuffer.layout(),
            final(self).framebuffer.dma().trace == old(self).framebuffer.dma().trace,
            if all {
                r is Ok && final(self).framebuffer.dma().regions.len() == 0
            } else if address + size > u64::MAX {
                r == Err::<(), GuestMemoryError>(GuestMemoryError::RangeOverflow)
                    && final(self).framebuffer.dma() == old(self).framebuffer.dma()
            } else {
                r is Ok && final(self).framebuffer.dma().regions == old(self).framebuffer.dma().regions.filter(
                    |region: GuestMemoryRegion| !region.meets(address, size),
                )
            },
    {
        self.framebuffer.remove_mapping(all, address, size)
    }

    /// Refuses every interrupt setup.
    pub fn set_irqs(&self) -> (r: Result<(), BackendError>)
        ensures
            r == Err::<(), BackendError>(BackendError::NoInterrupts),
    {
        Err(BackendError::NoInterrupts)
    }

    /// Drops every mapping.
    pub fn reset(&mut self)
        requires
            old(self).valid(),
        ensures
            final(self).valid(),
            final(self).config@ == old(self).config@,
            final(self).framebuffer.layout() == old(self).framebuffer.layout(),
            final(self).framebuffer.dma().regions.len() == 0,
            final(self).framebuffer.dma().trace == old(self).framebuffer.dma().trace,
    {
        self.framebuffer.clear_mappings();
    }
}

fn set_range(config: &mut Vec<u8>, from: usize, to: usize)
    requires
        from <= to <= old(config)@.len(),
    ensures
        final(config)@.len() == old(config)@.len(),
        forall|i: int|
            0 <= i < old(config)@.len() ==> #[trigger] final(config)@[i] == (if from <= i < to {
                0
            } else {
                old(config)@[i]
            }),
{
    let mut at: usize = from;
    while at < to
        invariant
            from <= at <= to <= config@.len(),
            config@.len() == old(config)@.len(),
            forall|i: int|
                0 <= i < old(config)@.len() ==> #[trigger] config@[i] == (if from <= i < at {
                    0
                } else {
                    old(config)@[i]
                }),
        decreases to - at,
    {
        config.set(at, 0);
        at = at + 1;
    }
}

fn restore_static_config(config: &mut Vec<u8>)
    requires
        old(config)@.len() == PCI_CONFIG_SPACE_SIZE,
    ensures
        final(config)@ == restored(old(config)@),
        restored(final(config)@) == final(config)@,
{
    set_range(config, 0x08, 0x0b);
    set_range(config, 0x10, 0x28);
    set_range(config, 0x30, 0x34);
    config.set(0x00, 0x36);
    config.set(0x01, 0x1b);
    config.set(0x02, 0xff);
    config.set(0x03, 0x00);
    config.set(0x0b, 0xff);
    config.set(0x0e, 0x00);
    assert(config@ =~= restored(old(config)@));
    assert(restored(config@) =~= config@);
}

/// No write changes a fixed byte; every other byte that is written is read back.
pub proof fn writes_change_the_other_bytes_only(
    config: Seq<u8>,
    offset: u64,
    data: Seq<u8>,
    at: int,
)
    requires
        config.len() == PCI_CONFIG_SPACE_SIZE,
        offset + data.len() <= PCI_CONFIG_SPACE_SIZE,
        offset <= at < offset + data.len(),
    ensures
        restored(crate::bytes::overlay(config, offset as int, data))[at] == (match fixed_byte(at) {
            Some(value) => value,
            None => data[at - offset],
        }),
{
}

/// Whatever is written, a driver finds the vendor, the device and an unassigned class, and no
/// memory of the device.
pub proof fn every_write_keeps_the_identity(config: Seq<u8>, offset: u64, data: Seq<u8>)
    requires
        config.len() == PCI_CONFIG_SPACE_SIZE,
    ensures
        ({
            let after = restored(crate::bytes::overlay(config, offset as int, data));
            &&& crate::bytes::number_at(after, 0, 2) == 0x1b36
            &&& crate::bytes::number_at(after, 2, 2) == 0x00ff
            &&& crate::bytes::number_at(after, 9, 3) == 0xff_0000
            &&& forall|bar: int|
                0 <= bar < 6 ==> #[trigger] crate::bytes::number_at(after, 16 + 4 * bar, 4) == 0
        }),
{
    let after = restored(crate::bytes::overlay(config, offset as int, data));
    crate::bytes::le16_is_a_number(after, 0);
    crate::bytes::le16_is_a_number(after, 2);
    crate::bytes::lemma_number_step(after, 9, 3);
    crate::bytes::le16_is_a_number(after, 10);
    assert forall|bar: int| 0 <= bar < 6 implies #[trigger] crate::bytes::number_at(
        after,
        16 + 4 * bar,
        4,
    ) == 0 by {
        crate::bytes::le32_is_a_number(after, 16 + 4 * bar);
    }
}

/// Of the regions of the device only the eighth has a size, which is that of the configuration
/// space; it can be read and written.
pub proof fn only_the_configuration_is_a_region(index: u32)
    ensures
        region_info(index).index == index,
        region_info(index).size == (if index == 7 {
            4096int
        } else {
            0
        }),
        region_info(index).flags == (if index == 7 {
            3int
        } else {
            0
        }),
{
}

} // verus!
