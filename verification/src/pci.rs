//! The PCI configuration space of the USB controller.
use vstd::prelude::*;

use crate::bytes::{fill_from, get_le32, overwrite, push_le32, zeroed};
use crate::uhci::UHCI_IO_BAR_SIZE;
use crate::vfio::{
    checked_range, BackendError, IrqInfo, RegionInfo, BAR4_REGION_INDEX, CONFIG_REGION_INDEX,
    INTX_IRQ_INDEX, IRQ_COUNT, IRQ_FLAGS_LINE, REGION_COUNT, REGION_FLAGS_READ_WRITE,
};

verus! {

pub const PCI_VENDOR_ID: u16 = 0x1b36;
pub const PCI_DEVICE_ID: u16 = 0x00fe;
pub const PCI_CONFIG_SPACE_SIZE: usize = 4096;
pub const UHCI_BAR_OFFSET: usize = 0x20;
pub const UHCI_BAR_RESET_VALUE: u32 = 0x0000_0001;
pub const UHCI_BAR_SIZE_MASK: u32 = 0xffff_ffe1;

/// The bytes that no write changes: identity, class, absent base address registers and
/// capabilities, and the interrupt pin.
pub open spec fn fixed_byte(at: int) -> Option<u8> {
    if at == 0x00 || at == 0x2c {
        Some(0x36)
    } else if at == 0x01 || at == 0x2d {
        Some(0x1b)
    } else if at == 0x02 || at == 0x2e {
        Some(0xfe)
    } else if at == 0x03 || at == 0x2f {
        Some(0x00)
    } else if at == 0x06 || at == 0x07 {
        Some(0x00)
    } else if at == 0x08 {
        Some(0x01)
    } else if at == 0x09 {
        Some(0x00)
    } else if at == 0x0a {
        Some(0x03)
    } else if at == 0x0b {
        Some(0x0c)
    } else if at == 0x0e {
        Some(0x00)
    } else if 0x10 <= at < 0x20 || 0x24 <= at < 0x28 || 0x30 <= at < 0x35 {
        Some(0x00)
    } else if at == 0x3d {
        Some(0x01)
    } else if at == 0x60 {
        Some(0x10)
    } else {
        None
    }
}

/// `bytes` with every fixed byte in place.
pub open spec fn restored(bytes: Seq<u8>) -> Seq<u8> {
    Seq::new(
        bytes.len(),
        |i: int|
            match fixed_byte(i) {
                Some(value) => value,
                None => bytes[i],
            },
    )
}

/// `bytes` with the base address register set to `value`.
pub open spec fn with_bar(bytes: Seq<u8>, value: u32) -> Seq<u8> {
    crate::bytes::overlay(bytes, UHCI_BAR_OFFSET as int, crate::bytes::le32_bytes(value))
}

/// Whether a write asks for the size of the base address register.
pub open spec fn is_bar_probe(offset: u64, data: Seq<u8>) -> bool {
    offset == UHCI_BAR_OFFSET && data == seq![0xffu8, 0xffu8, 0xffu8, 0xffu8]
}

/// The configuration space after a write that stays inside it.
pub open spec fn config_after_write(bytes: Seq<u8>, offset: u64, data: Seq<u8>) -> Seq<u8> {
    let written = restored(crate::bytes::overlay(bytes, offset as int, data));
    if is_bar_probe(offset, data) {
        with_bar(written, UHCI_BAR_SIZE_MASK)
    } else {
        with_bar(written, crate::bytes::le32(written, UHCI_BAR_OFFSET as int) | 1)
    }
}

/// The configuration space after a reset.
pub open spec fn config_after_reset() -> Seq<u8> {
    restored(with_bar(crate::bytes::zeros(PCI_CONFIG_SPACE_SIZE as nat), UHCI_BAR_RESET_VALUE))
}

/// The regions of the device: the I/O registers and the configuration space.
pub open spec fn region_info(index: u32) -> RegionInfo {
    RegionInfo {
        index,
        flags: if index == BAR4_REGION_INDEX || index == CONFIG_REGION_INDEX {
            REGION_FLAGS_READ_WRITE
        } else {
            0
        },
        size: if index == BAR4_REGION_INDEX {
            UHCI_IO_BAR_SIZE
        } else if index == CONFIG_REGION_INDEX {
            PCI_CONFIG_SPACE_SIZE as u64
        } else {
            0
        },
    }
}

/// The interrupts of the device: one line.
pub open spec fn irq_info(index: u32) -> IrqInfo {
    if index == INTX_IRQ_INDEX {
        IrqInfo { index, flags: IRQ_FLAGS_LINE, count: 1 }
    } else {
        IrqInfo { index, flags: 0, count: 0 }
    }
}

pub struct PciConfig {
    bytes: Vec<u8>,
}

impl View for PciConfig {
    type V = Seq<u8>;

    closed spec fn view(&self) -> Seq<u8> {
        self.bytes@
    }
}

impl PciConfig {
    pub open spec fn valid(&self) -> bool {
        self@.len() == PCI_CONFIG_SPACE_SIZE && restored(self@) == self@
    }

    pub fn new() -> (r: Self)
        ensures
            r.valid(),
            r@ == config_after_reset(),
    {
        let mut this = PciConfig { bytes: Vec::new() };
        this.reset();
        this
    }

    pub fn reset(&mut self)
        ensures
            final(self).valid(),
            final(self)@ == config_after_reset(),
    {
        self.bytes = zeroed(PCI_CONFIG_SPACE_SIZE);
        self.set_bar(UHCI_BAR_RESET_VALUE);
        self.restore_read_only_fields();
    }

    fn set_bar(&mut self, value: u32)
        requires
            old(self)@.len() == PCI_CONFIG_SPACE_SIZE,
        ensures
            final(self)@ == with_bar(old(self)@, value),
    {
        let mut bar: Vec<u8> = Vec::new();
        push_le32(&mut bar, value);
        assert(bar@ =~= crate::bytes::le32_bytes(value));
        overwrite(&mut self.bytes, UHCI_BAR_OFFSET, &bar);
    }

    fn clear(&mut self, from: usize, to: usize)
        requires
            from <= to <= old(self)@.len(),
        ensures
            final(self)@.len() == old(self)@.len(),
            forall|i: int|
                0 <= i < old(self)@.len() ==> #[trigger] final(self)@[i] == (if from <= i < to {
                    0
                } else {
                    old(self)@[i]
                }),
    {
        let mut at: usize = from;
        while at < to
            invariant
                from <= at <= to <= self@.len(),
                self@.len() == old(self)@.len(),
                forall|i: int|
                    0 <= i < old(self)@.len() ==> #[trigger] self@[i] == (if from <= i < at {
                        0
                    } else {
                        old(self)@[i]
                    }),
            decreases to - at,
        {
            self.bytes.set(at, 0);
            at = at + 1;
        }
    }

    fn restore_read_only_fields(&mut self)
        requires
            old(self)@.len() == PCI_CONFIG_SPACE_SIZE,
        ensures
            final(self).valid(),
            final(self)@ == restored(old(self)@),
    {
        self.clear(0x06, 0x08);
        self.clear(0x10, 0x20);
        self.clear(0x24, 0x28);
        self.clear(0x30, 0x35);
        self.bytes.set(0x00, 0x36);
        self.bytes.set(0x01, 0x1b);
        self.bytes.set(0x02, 0xfe);
        self.bytes.set(0x03, 0x00);
        self.bytes.set(0x08, 0x01);
        self.bytes.set(0x09, 0x00);
        self.bytes.set(0x0a, 0x03);
        self.bytes.set(0x0b, 0x0c);
        self.bytes.set(0x0e, 0x00);
        self.bytes.set(0x2c, 0x36);
        self.bytes.set(0x2d, 0x1b);
        self.bytes.set(0x2e, 0xfe);
        self.bytes.set(0x2f, 0x00);
        self.bytes.set(0x3d, 0x01);
        self.bytes.set(0x60, 0x10);
        assert(self@ =~= restored(old(self)@));
        assert(restored(self@) =~= self@);
    }

    pub fn read(&self, offset: u64, data: &mut [u8]) -> (r: Result<(), BackendError>)
        requires
            self.valid(),
        ensures
            if offset + old(data)@.len() <= PCI_CONFIG_SPACE_SIZE {
                r is Ok && final(data)@ == self@.subrange(
                    offset as int,
                    offset + old(data)@.len(),
                )
            } else {
                r == Err::<(), BackendError>(BackendError::OutOfRange) && final(data)@ == old(data)@
            },
    {
        match checked_range(offset, data.len(), PCI_CONFIG_SPACE_SIZE) {
            Err(error) => Err(error),
            Ok(start) => {
                fill_from(data, &self.bytes, start);
                Ok(())
            },
        }
    }

    pub fn write(&mut self, offset: u64, data: &[u8]) -> (r: Result<(), BackendError>)
        requires
            old(self).valid(),
        ensures
            final(self).valid(),
            if offset + data@.len() <= PCI_CONFIG_SPACE_SIZE {
                r is Ok && final(self)@ == config_after_write(old(self)@, offset, data@)
            } else {
                r == Err::<(), BackendError>(BackendError::OutOfRange) && final(self)@ == old(self)@
            },
    {
        let start: usize = match checked_range(offset, data.len(), PCI_CONFIG_SPACE_SIZE) {
            Ok(start) => start,
            Err(error) => {
                return Err(error);
            },
        };
        let bar_probe = start == UHCI_BAR_OFFSET && data.len() == 4 && data[0] == 0xff && data[1]
            == 0xff && data[2] == 0xff && data[3] == 0xff;
        assert(bar_probe == is_bar_probe(offset, data@)) by {
            if bar_probe {
                assert(data@ =~= seq![0xffu8, 0xffu8, 0xffu8, 0xffu8]);
            }
        }
        overwrite(&mut self.bytes, start, data);
        self.restore_read_only_fields();
        let ghost written = self@;
        if bar_probe {
            self.set_bar(UHCI_BAR_SIZE_MASK);
        } else {
            let bar: u32 = get_le32(&self.bytes, UHCI_BAR_OFFSET);
            self.set_bar(bar | 1);
        }
        assert(restored(self@) =~= self@) by {
            assert forall|i: int| 0 <= i < self@.len() && fixed_byte(i) is Some implies self@[i]
                == fixed_byte(i)->0 by {
                assert(restored(written)[i] == written[i]);
            }
        }
        Ok(())
    }

    pub fn regions() -> (r: Vec<RegionInfo>)
        ensures
            r@ == Seq::new(REGION_COUNT as nat, |i: int| region_info(i as u32)),
    {
        let mut regions: Vec<RegionInfo> = Vec::new();
        let mut index: u32 = 0;
        while index < REGION_COUNT
            invariant
                index <= REGION_COUNT,
                regions@ == Seq::new(index as nat, |i: int| region_info(i as u32)),
            decreases REGION_COUNT - index,
        {
            let implemented = index == BAR4_REGION_INDEX || index == CONFIG_REGION_INDEX;
            regions.push(
                RegionInfo {
                    index,
                    flags: if implemented {
                        REGION_FLAGS_READ_WRITE
                    } else {
                        0
                    },
                    size: if index == BAR4_REGION_INDEX {
                        UHCI_IO_BAR_SIZE
                    } else if index == CONFIG_REGION_INDEX {
                        PCI_CONFIG_SPACE_SIZE as u64
                    } else {
                        0
                    },
                },
            );
            index = index + 1;
        }
        regions
    }

    pub fn irqs() -> (r: Vec<IrqInfo>)
        ensures
            r@ == Seq::new(IRQ_COUNT as nat, |i: int| irq_info(i as u32)),
    {
        let mut irqs: Vec<IrqInfo> = Vec::new();
        let mut index: u32 = 0;
        while index < IRQ_COUNT
            invariant
                index <= IRQ_COUNT,
                irqs@ == Seq::new(index as nat, |i: int| irq_info(i as u32)),
            decreases IRQ_COUNT - index,
        {
            irqs.push(
                if index == INTX_IRQ_INDEX {
                    IrqInfo { index, flags: IRQ_FLAGS_LINE, count: 1 }
                } else {
                    IrqInfo { index, flags: 0, count: 0 }
                },
            );
            index = index + 1;
        }
        irqs
    }
}

impl Default for PciConfig {
    fn default() -> (r: Self)
        ensures
            r.valid(),
            r@ == config_after_reset(),
    {
        Self::new()
    }
}

/// No write changes a fixed byte.
pub proof fn fixed_bytes_survive_every_write(bytes: Seq<u8>, offset: u64, data: Seq<u8>, at: int)
    requires
        bytes.len() == PCI_CONFIG_SPACE_SIZE,
        restored(bytes) == bytes,
        offset + data.len() <= PCI_CONFIG_SPACE_SIZE,
        0 <= at < PCI_CONFIG_SPACE_SIZE,
        fixed_byte(at) is Some,
    ensures
        config_after_write(bytes, offset, data)[at] == fixed_byte(at)->0,
{
}

/// Writing all ones to the base address register makes it read as its size mask.
pub proof fn a_probe_reads_the_size_mask(bytes: Seq<u8>)
    requires
        bytes.len() == PCI_CONFIG_SPACE_SIZE,
    ensures
        crate::bytes::le32(
            config_after_write(
                bytes,
                UHCI_BAR_OFFSET as u64,
                seq![0xffu8, 0xffu8, 0xffu8, 0xffu8],
            ),
            UHCI_BAR_OFFSET as int,
        ) == UHCI_BAR_SIZE_MASK,
{
    crate::bytes::le32_round_trip(UHCI_BAR_SIZE_MASK);
    let ones = seq![0xffu8, 0xffu8, 0xffu8, 0xffu8];
    let after = config_after_write(bytes, UHCI_BAR_OFFSET as u64, ones);
    let mask = crate::bytes::le32_bytes(UHCI_BAR_SIZE_MASK);
    assert(after[0x20] == mask[0] && after[0x21] == mask[1] && after[0x22] == mask[2]
        && after[0x23] == mask[3]);
}

/// What is written outside the fixed bytes and the base address register is read back.
pub proof fn other_bytes_are_writable(bytes: Seq<u8>, offset: u64, data: Seq<u8>, at: int)
    requires
        bytes.len() == PCI_CONFIG_SPACE_SIZE,
        offset + data.len() <= PCI_CONFIG_SPACE_SIZE,
        offset <= at < offset + data.len(),
        fixed_byte(at) is None,
        !(UHCI_BAR_OFFSET <= at < UHCI_BAR_OFFSET + 4),
    ensures
        config_after_write(bytes, offset, data)[at] == data[at - offset],
{
}

/// Whatever is written, a driver finds the vendor, the device and the class of a UHCI controller,
/// and its one interrupt pin.
pub proof fn every_write_keeps_the_identity(bytes: Seq<u8>, offset: u64, data: Seq<u8>)
    requires
        bytes.len() == PCI_CONFIG_SPACE_SIZE,
    ensures
        ({
            let after = config_after_write(bytes, offset, data);
            &&& crate::bytes::number_at(after, 0, 2) == 0x1b36
            &&& crate::bytes::number_at(after, 2, 2) == 0x00fe
            &&& crate::bytes::number_at(after, 9, 3) == 0x0c_0300
            &&& crate::bytes::number_at(after, 0x2c, 2) == 0x1b36
            &&& crate::bytes::number_at(after, 0x2e, 2) == 0x00fe
            &&& after[0x3d] == 1
        }),
{
    let after = config_after_write(bytes, offset, data);
    crate::bytes::le16_is_a_number(after, 0);
    crate::bytes::le16_is_a_number(after, 2);
    crate::bytes::le16_is_a_number(after, 0x2c);
    crate::bytes::le16_is_a_number(after, 0x2e);
    crate::bytes::lemma_number_step(after, 9, 3);
    crate::bytes::le16_is_a_number(after, 10);
}

/// A driver that asks for the size of the register block finds 32 bytes of I/O ports.
pub proof fn the_registers_take_thirty_two_ports(bytes: Seq<u8>)
    requires
        bytes.len() == PCI_CONFIG_SPACE_SIZE,
    ensures
        ({
            let after = config_after_write(bytes, 0x20, seq![0xffu8, 0xffu8, 0xffu8, 0xffu8]);
            let mask = crate::bytes::number_at(after, 0x20, 4);
            &&& mask % 4 == 1
            &&& 0x1_0000_0000 - (mask - 1) == 32
        }),
{
    let after = config_after_write(bytes, 0x20, seq![0xffu8, 0xffu8, 0xffu8, 0xffu8]);
    crate::bytes::le_bytes_hold_the_value(0, 0xffff_ffe1, 0);
    assert(after.subrange(0x20, 0x24) =~= crate::bytes::le32_bytes(0xffff_ffe1));
}

proof fn lemma_io_bit(address: u32)
    by (bit_vector)
    requires
        address % 4 == 0,
    ensures
        address | 1 == address + 1,
{
}

/// The address that a driver assigns to the registers reads back with the mark of I/O ports, one.
pub proof fn an_assigned_address_reads_back(bytes: Seq<u8>, address: u32)
    requires
        bytes.len() == PCI_CONFIG_SPACE_SIZE,
        address % 4 == 0,
    ensures
        crate::bytes::number_at(
            config_after_write(bytes, 0x20, crate::bytes::le32_bytes(address)),
            0x20,
            4,
        ) == address + 1,
{
    let data = crate::bytes::le32_bytes(address);
    let written = restored(crate::bytes::overlay(bytes, 0x20, data));
    let after = config_after_write(bytes, 0x20, data);
    lemma_io_bit(address);
    crate::bytes::le32_round_trip(address);
    assert(data[0] == address % 0x100);
    assert(!is_bar_probe(0x20, data));
    assert(written[0x20] == data[0] && written[0x21] == data[1] && written[0x22] == data[2]
        && written[0x23] == data[3]);
    assert(crate::bytes::le32(written, 0x20) == crate::bytes::le32(data, 0));
    crate::bytes::le_bytes_hold_the_value(0, (address + 1) as u32, 0);
    assert(after.subrange(0x20, 0x24) =~= crate::bytes::le32_bytes((address + 1) as u32));
}

/// A client finds two regions, the fifth with the 32 bytes of registers and the eighth with the
/// configuration space, and one interrupt line: an event that masks itself and can be masked.
pub proof fn a_client_finds_two_regions_and_a_line(index: u32)
    ensures
        region_info(index).index == index,
        region_info(index).size == (if index == 4 {
            32int
        } else if index == 7 {
            PCI_CONFIG_SPACE_SIZE as int
        } else {
            0
        }),
        region_info(index).flags == (if index == 4 || index == 7 {
            3int
        } else {
            0
        }),
        irq_info(index).index == index,
        irq_info(index).count == (if index == 0 {
            1int
        } else {
            0
        }),
        irq_info(index).flags == (if index == 0 {
            7int
        } else {
            0
        }),
{
}

} // verus!
