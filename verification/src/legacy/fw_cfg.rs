//! The firmware configuration device: numbered items and named files that firmware reads
//! through two ports, or by DMA.
use vstd::prelude::*;

use acpi_tables::rsdp::Rsdp;

use crate::bytes::{
    get_be32, get_be64, get_le16, overwrite, push_be16, push_be32, push_le32, push_le64,
    push_range, range_of, zeroed,
};
use crate::legacy::acpi_loader::{create_acpi_loader, AcpiTable, TABLE_CHECKSUM};
use crate::ram::{GuestRam, RamAnswers, SharedMemory};

verus! {

broadcast use {crate::ram::group_answers, crate::ram::lemma_settled};

pub const PORT_FW_CFG_BASE: u64 = 0x510;

pub const PORT_FW_CFG_WIDTH: u64 = 0xc;

pub const PORT_FW_CFG_SELECTOR: u64 = 0x510;

pub const PORT_FW_CFG_DATA: u64 = 0x511;

pub const PORT_FW_CFG_DMA_HI: u64 = 0x514;

pub const PORT_FW_CFG_DMA_LO: u64 = 0x518;

pub const FW_CFG_SIGNATURE: u16 = 0x00;

pub const FW_CFG_ID: u16 = 0x01;

pub const FW_CFG_SMP_CPU_COUNT: u16 = 0x05;

pub const FW_CFG_KERNEL_SIZE: u16 = 0x08;

pub const FW_CFG_INITRD_SIZE: u16 = 0x0b;

pub const FW_CFG_KERNEL_DATA: u16 = 0x11;

pub const FW_CFG_INITRD_DATA: u16 = 0x12;

pub const FW_CFG_CMDLINE_SIZE: u16 = 0x14;

pub const FW_CFG_CMDLINE_DATA: u16 = 0x15;

pub const FW_CFG_SETUP_SIZE: u16 = 0x17;

pub const FW_CFG_SETUP_DATA: u16 = 0x18;

pub const FW_CFG_FILE_DIR: u16 = 0x19;

pub const FW_CFG_KNOWN_ITEMS: usize = 0x20;

/// The selector of the first file.
pub const FW_CFG_FILE_FIRST: u16 = 0x20;

/// How many files have selectors.
pub const MAX_FILES: usize = 0xffe0;

pub const FW_CFG_DMA_SIGNATURE_CONTENT: [u8; 8] = [
    0x51,
    0x45,
    0x4d,
    0x55,
    0x20,
    0x43,
    0x46,
    0x47,
];

/// `QEMU`.
pub const FW_CFG_SIGNATURE_CONTENT: [u8; 4] = [0x51, 0x45, 0x4d, 0x55];

pub const FW_CFG_ACPI_ID: &'static str = "QEMU0002";

/// A feature bit that is always set.
pub const FW_CFG_F_RESERVED: u8 = 0x01;

/// The feature bit of the DMA interface.
pub const FW_CFG_F_DMA: u8 = 0x02;

/// The features that the device offers: the DMA interface is not among them.
pub const FW_CFG_FEATURE: [u8; 4] = [0x01, 0, 0, 0];

/// The size of the configuration that a guest writes for its framebuffer.
pub const RAMFB_CONFIG_SIZE: usize = 28;

pub const FILE_NAME_SIZE: usize = 56;

pub const E820_RAM: u32 = 1;

pub const E820_RESERVED: u32 = 2;

pub const EBDA_START: u64 = 0xa_0000;

pub const HIGH_RAM_START: u64 = 0x10_0000;

pub const MEM_32BIT_RESERVED_START: u64 = 0xc000_0000;

pub const MEM_32BIT_DEVICES_START: u64 = 0xc000_0000;

pub const MEM_32BIT_DEVICES_SIZE: u64 = 0x2800_0000;

pub const PCI_MMCONFIG_START: u64 = 0xe800_0000;

pub const PCI_MMCONFIG_SIZE: u64 = 0x1000_0000;

pub const RAM_64BIT_START: u64 = 0x1_0000_0000;

pub const STAGE0_START_ADDRESS: u64 = 0xfffe_0000;

pub const STAGE0_SIZE: u64 = 0x2_0000;

/// The size of the boot parameters at the start of a kernel image.
pub const BOOT_PARAMS_SIZE: usize = 4096;

/// Where a kernel image holds the number of its setup sectors.
pub const SETUP_SECTS: usize = 0x1f1;

/// Where a boot loader enters its number.
pub const TYPE_OF_LOADER: usize = 0x210;

pub const DMA_ERROR: u32 = 0x01;

pub const DMA_READ: u32 = 0x02;

pub const DMA_SKIP: u32 = 0x04;

pub const DMA_SELECT: u32 = 0x08;

pub const DMA_WRITE: u32 = 0x10;

#[derive(Clone, Copy, Debug, PartialEq, Eq)]
pub enum FwCfgError {
    /// Reading the source failed: it is too short.
    ReadError,
    /// Accessing guest memory for DMA failed.
    GuestMemAccessError,
    /// The DMA target address is illegal.
    IllegalGpa,
    /// The guest memory region for DMA cannot be accessed as a whole.
    GuestMemOutOfBoundsAccess(u32),
    /// No item has the selector.
    IllegalSelector,
    /// The cursor already points past the end of the item.
    CursorBehindContent,
    /// The item is too large.
    ToLarge,
}

/// What an item holds.
#[derive(Debug)]
pub enum FwCfgContent {
    Bytes(Vec<u8>),
    Slice(&'static [u8]),
    /// The bytes of a file from an offset on.
    File(u64, Vec<u8>),
    U32(u32),
}

/// A named file.
#[derive(Debug)]
pub struct FwCfgItem {
    pub name: String,
    pub content: FwCfgContent,
}

/// The bytes of an item, whether the guest may write them, and whether they are a file's.
#[verifier::ext_equal]
pub struct Content {
    pub data: Seq<u8>,
    pub owned: bool,
    pub file: bool,
}

#[verifier::ext_equal]
pub struct Item {
    pub name: Seq<char>,
    pub content: Content,
}

impl View for FwCfgContent {
    type V = Content;

    open spec fn view(&self) -> Content {
        match *self {
            FwCfgContent::Bytes(bytes) => Content { data: bytes@, owned: true, file: false },
            FwCfgContent::Slice(bytes) => Content { data: bytes@, owned: false, file: false },
            FwCfgContent::File(offset, bytes) => Content {
                data: bytes@.skip(offset as int),
                owned: false,
                file: true,
            },
            FwCfgContent::U32(n) => Content {
                data: crate::bytes::le32_bytes(n),
                owned: false,
                file: false,
            },
        }
    }
}

impl View for FwCfgItem {
    type V = Item;

    open spec fn view(&self) -> Item {
        Item { name: self.name@, content: self.content@ }
    }
}

impl FwCfgContent {
    /// The content starts inside its file, if it is a file's.
    pub open spec fn valid(self) -> bool {
        match self {
            FwCfgContent::File(offset, bytes) => offset <= bytes@.len(),
            _ => true,
        }
    }

    /// Whether the content starts inside its file, if it is a file's.
    pub fn starts_inside(&self) -> (r: bool)
        ensures
            r == self.valid(),
    {
        match self {
            FwCfgContent::File(offset, bytes) => *offset <= bytes.len() as u64,
            _ => true,
        }
    }

    fn size(&self) -> (r: Result<u32, FwCfgError>)
        requires
            self.valid(),
        ensures
            r == (if self@.data.len() <= u32::MAX {
                Ok::<u32, FwCfgError>(self@.data.len() as u32)
            } else {
                Err(FwCfgError::ToLarge)
            }),
    {
        let length: usize = match self {
            FwCfgContent::Bytes(bytes) => bytes.len(),
            FwCfgContent::Slice(bytes) => bytes.len(),
            FwCfgContent::File(offset, bytes) => bytes.len() - *offset as usize,
            FwCfgContent::U32(_) => 4,
        };
        if length <= u32::MAX as usize {
            Ok(length as u32)
        } else {
            Err(FwCfgError::ToLarge)
        }
    }

    /// The bytes from `from` to `to`.
    fn access(&self, from: usize, to: usize) -> (r: Vec<u8>)
        requires
            self.valid(),
            from <= to <= self@.data.len(),
        ensures
            r@ == self@.data.subrange(from as int, to as int),
    {
        match self {
            FwCfgContent::Bytes(bytes) => range_of(bytes, from, to),
            FwCfgContent::Slice(bytes) => range_of(bytes, from, to),
            FwCfgContent::File(offset, bytes) => {
                let length: usize = bytes.len();
                let start: usize = *offset as usize;
                assert(self@.data.len() == length - start);
                let part = range_of(bytes, start + from, start + to);
                assert(part@ =~= self@.data.subrange(from as int, to as int));
                part
            },
            FwCfgContent::U32(n) => {
                let mut bytes: Vec<u8> = Vec::new();
                push_le32(&mut bytes, *n);
                assert(bytes@ =~= self@.data);
                range_of(&bytes, from, to)
            },
        }
    }

    fn is_file(&self) -> (r: bool)
        ensures
            r == self@.file,
    {
        match self {
            FwCfgContent::File(_, _) => true,
            _ => false,
        }
    }
}

/// The name of a file as the directory holds it: cut off if it is too long, and filled up
/// with zeros, at least one.
pub open spec fn file_name(name: Seq<char>) -> Seq<u8> {
    let bytes = vstd::utf8::encode_utf8(name);
    let kept = if bytes.len() < FILE_NAME_SIZE {
        bytes
    } else {
        bytes.take(FILE_NAME_SIZE - 1)
    };
    kept + crate::bytes::zeros((FILE_NAME_SIZE - kept.len()) as nat)
}

/// The name of a file as the directory holds it.
pub fn create_file_name(name: &str) -> (r: [u8; FILE_NAME_SIZE])
    ensures
        r@ == file_name(name@),
{
    let bytes = name.as_bytes();
    let length: usize = if bytes.len() < FILE_NAME_SIZE {
        bytes.len()
    } else {
        FILE_NAME_SIZE - 1
    };
    let mut c_name: [u8; FILE_NAME_SIZE] = [0u8; FILE_NAME_SIZE];
    let mut i: usize = 0;
    while i < length
        invariant
            i <= length,
            length <= bytes@.len(),
            length < FILE_NAME_SIZE,
            c_name@.len() == FILE_NAME_SIZE,
            forall|k: int| 0 <= k < i ==> c_name@[k] == bytes@[k],
            forall|k: int| i <= k < FILE_NAME_SIZE ==> c_name@[k] == 0,
        decreases length - i,
    {
        c_name[i] = bytes[i];
        i = i + 1;
    }
    assert(c_name@ =~= file_name(name@));
    c_name
}

/// One entry of the directory.
pub open spec fn directory_entry(name: Seq<char>, size: u32, selector: u16) -> Seq<u8> {
    crate::bytes::be32_bytes(size) + crate::bytes::be16_bytes(selector) + seq![0u8, 0u8] + file_name(
        name,
    )
}

pub open spec fn directory_entries(items: Seq<Item>) -> Seq<u8>
    decreases items.len(),
{
    if items.len() == 0 {
        Seq::empty()
    } else {
        let item = items.last();
        directory_entries(items.drop_last()) + directory_entry(
            item.name,
            item.content.data.len() as u32,
            (FW_CFG_FILE_FIRST + items.len() - 1) as u16,
        )
    }
}

/// The directory: how many files there are, and of each its size, its selector and its name.
pub open spec fn directory(items: Seq<Item>) -> Seq<u8> {
    crate::bytes::be32_bytes(items.len() as u32) + directory_entries(items)
}

proof fn lemma_directory_ignores_contents(a: Seq<Item>, b: Seq<Item>)
    requires
        a.len() == b.len(),
        forall|i: int|
            0 <= i < a.len() ==> (#[trigger] a[i]).name == b[i].name && a[i].content.data.len()
                == b[i].content.data.len(),
    ensures
        directory_entries(a) == directory_entries(b),
    decreases a.len(),
{
    if a.len() > 0 {
        assert forall|i: int| 0 <= i < a.len() - 1 implies (#[trigger] a.drop_last()[i]).name
            == b.drop_last()[i].name && a.drop_last()[i].content.data.len()
            == b.drop_last()[i].content.data.len() by {
            assert(a[i].name == b[i].name);
        }
        assert(a[a.len() - 1].name == b[b.len() - 1].name);
        lemma_directory_ignores_contents(a.drop_last(), b.drop_last());
    }
}

/// The state of the device, and the memory that it reaches by DMA.
pub struct FwCfgState {
    pub selector: u16,
    pub data_offset: u32,
    pub dma_address: u64,
    pub items: Seq<Item>,
    pub known: Seq<Content>,
    pub ram: crate::ram::Ram,
}

/// Whether the device offers the DMA interface.
pub open spec fn dma_offered() -> bool {
    FW_CFG_FEATURE[0] & FW_CFG_F_DMA != 0
}

/// The smaller of two numbers.
pub open spec fn least(a: int, b: int) -> int {
    if a <= b {
        a
    } else {
        b
    }
}

impl FwCfgState {
    /// The same device of a guest with other answers to its copies.
    pub open spec fn under(self, answers: RamAnswers) -> FwCfgState {
        FwCfgState { ram: self.ram.under(answers), ..self }
    }

    /// The directory lists the files, each file has a selector, and its size is a 32-bit
    /// number.
    pub open spec fn valid(self) -> bool {
        &&& self.known.len() == FW_CFG_KNOWN_ITEMS
        &&& self.known[FW_CFG_FILE_DIR as int] == (Content {
            data: directory(self.items),
            owned: true,
            file: false,
        })
        &&& self.items.len() <= MAX_FILES
        &&& forall|i: int|
            0 <= i < self.items.len() ==> (#[trigger] self.items[i]).content.data.len() <= u32::MAX
    }

    /// The content that is selected.
    pub open spec fn selected(self) -> Option<Content> {
        if self.selector < FW_CFG_KNOWN_ITEMS {
            Some(self.known[self.selector as int])
        } else if self.selector - FW_CFG_FILE_FIRST < self.items.len() {
            Some(self.items[self.selector - FW_CFG_FILE_FIRST].content)
        } else {
            None
        }
    }

    /// Up to `length` bytes of the selected content from the cursor on, which moves behind
    /// them.
    pub open spec fn content_read(self, length: nat) -> (FwCfgState, Result<Seq<u8>, FwCfgError>) {
        match self.selected() {
            None => (self, Err(FwCfgError::IllegalSelector)),
            Some(content) => {
                let size = content.data.len();
                if size > u32::MAX {
                    (self, Err(FwCfgError::ToLarge))
                } else if self.data_offset > size {
                    if content.file {
                        (self, Ok(Seq::empty()))
                    } else {
                        (self, Err(FwCfgError::ReadError))
                    }
                } else {
                    let end = least(size as int, self.data_offset + length);
                    (
                        FwCfgState { data_offset: end as u32, ..self },
                        Ok(content.data.subrange(self.data_offset as int, end)),
                    )
                }
            },
        }
    }

    /// A read of the data port: the next bytes of the selected content, then zeros.
    pub open spec fn data_read(self, length: nat) -> (FwCfgState, Seq<u8>) {
        let (next, got) = self.content_read(length);
        match got {
            Err(_) => (next, crate::bytes::zeros(length)),
            Ok(bytes) => (next, bytes + crate::bytes::zeros((length - bytes.len()) as nat)),
        }
    }

    /// A read of `length` bytes at `offset` of the ports.
    pub open spec fn read(self, offset: u64, length: nat) -> (FwCfgState, Seq<u8>) {
        let port = offset + PORT_FW_CFG_BASE;
        if port == PORT_FW_CFG_DATA || (port == PORT_FW_CFG_SELECTOR && length == 1) {
            self.data_read(length)
        } else if port == PORT_FW_CFG_DMA_HI && length == 4 {
            (self, crate::bytes::be32_bytes((self.dma_address / 0x1_0000_0000) as u32))
        } else if port == PORT_FW_CFG_DMA_LO && length == 4 {
            (self, crate::bytes::be32_bytes((self.dma_address % 0x1_0000_0000) as u32))
        } else {
            (self, crate::bytes::zeros(length))
        }
    }

    /// A write at `offset` of the ports.
    pub open spec fn written(self, offset: u64, data: Seq<u8>) -> FwCfgState {
        let port = offset + PORT_FW_CFG_BASE;
        if port == PORT_FW_CFG_SELECTOR && data.len() == 2 {
            FwCfgState { selector: crate::bytes::le16(data, 0), data_offset: 0, ..self }
        } else if port == PORT_FW_CFG_DMA_HI && data.len() == 4 {
            FwCfgState {
                dma_address: (self.dma_address % 0x1_0000_0000 + 0x1_0000_0000
                    * crate::bytes::be32(data, 0)) as u64,
                ..self
            }
        } else if port == PORT_FW_CFG_DMA_LO && data.len() == 4 {
            (FwCfgState {
                dma_address: (self.dma_address / 0x1_0000_0000 * 0x1_0000_0000
                    + crate::bytes::be32(data, 0)) as u64,
                ..self
            }).dma_triggered()
        } else {
            self
        }
    }

    /// The DMA access starts when its address is complete, if there is a DMA interface.
    pub open spec fn dma_triggered(self) -> FwCfgState {
        if dma_offered() {
            self.dma_accessed()
        } else {
            self
        }
    }

    /// A copy of up to `length` bytes of the selected content into guest memory, and whether
    /// it was made.
    pub open spec fn dma_read(self, length: u32, address: u64) -> (FwCfgState, bool) {
        match self.selected() {
            None => (self, false),
            Some(content) => if content.data.len() > u32::MAX {
                (self, false)
            } else {
                let size = content.data.len() as int;
                let from = least(size, self.data_offset as int);
                let to = least(size, from + length);
                let (ram, taken) = self.ram.write_present(address, content.data.subrange(from, to));
                match taken {
                    None => (FwCfgState { ram, ..self }, false),
                    Some(count) => (
                        FwCfgState {
                            ram,
                            data_offset: (self.data_offset + count) as u32,
                            ..self
                        },
                        true,
                    ),
                }
            },
        }
    }

    /// The file that a DMA write goes to: the known items stand for the first one.
    pub open spec fn written_file(self) -> int {
        if self.selector < FW_CFG_FILE_FIRST {
            0
        } else {
            self.selector - FW_CFG_FILE_FIRST
        }
    }

    /// A copy of `length` bytes of guest memory into the configuration of the framebuffer,
    /// and whether it was made; no other file can be written.
    pub open spec fn dma_write(self, length: u32, address: u64) -> (FwCfgState, bool) {
        let i = self.written_file();
        if i >= self.items.len() || self.items[i].name != "etc/ramfb"@ {
            (self, false)
        } else {
            let (ram, got) = self.ram.read_present(address, length as nat);
            let content = self.items[i].content;
            match got {
                None => (FwCfgState { ram, ..self }, false),
                Some((count, bytes)) => if count == length && content.owned && self.data_offset
                    + length <= content.data.len() {
                    (
                        FwCfgState {
                            ram,
                            items: self.items.update(
                                i,
                                Item {
                                    content: Content {
                                        data: crate::bytes::overlay(
                                            content.data,
                                            self.data_offset as int,
                                            bytes,
                                        ),
                                        ..content
                                    },
                                    ..self.items[i]
                                },
                            ),
                            data_offset: (self.data_offset + length) as u32,
                            ..self
                        },
                        true,
                    )
                } else {
                    (FwCfgState { ram, ..self }, false)
                },
            }
        }
    }

    /// What the control word of a DMA access asks for, and whether it was done. A cursor that
    /// is no 32-bit number is not done.
    pub open spec fn dma_done(self, control: u32, length: u32, address: u64) -> (FwCfgState, bool) {
        if control & DMA_READ != 0 {
            self.dma_read(length, address)
        } else if control & DMA_WRITE != 0 {
            self.dma_write(length, address)
        } else if control & DMA_SKIP != 0 && self.data_offset + length <= u32::MAX {
            (FwCfgState { data_offset: (self.data_offset + length) as u32, ..self }, true)
        } else {
            (self, false)
        }
    }

    /// A DMA access: its sixteen bytes are read from guest memory, it is done, and its
    /// control word is replaced by the outcome.
    pub open spec fn dma_accessed(self) -> FwCfgState {
        let (ram, got) = self.ram.read_present(self.dma_address, 16);
        match got {
            None => FwCfgState { ram, ..self },
            Some((_, access)) => {
                let control = crate::bytes::be32(access, 0);
                let length = crate::bytes::be32(access, 4);
                let address = crate::bytes::be64(access, 8);
                let started = FwCfgState {
                    ram,
                    data_offset: if control & DMA_SELECT != 0 {
                        0
                    } else {
                        self.data_offset
                    },
                    ..self
                };
                let (done, ok) = started.dma_done(control, length, address);
                let outcome = if ok {
                    0u32
                } else {
                    DMA_ERROR
                };
                FwCfgState {
                    ram: done.ram.write_present(
                        self.dma_address,
                        crate::bytes::be32_bytes(outcome),
                    ).0,
                    ..done
                }
            },
        }
    }

    /// A file added at the end; its size has to be a 32-bit number.
    pub open spec fn item_added(self, item: Item) -> (FwCfgState, Result<(), FwCfgError>) {
        if item.content.data.len() > u32::MAX {
            (self, Err(FwCfgError::ToLarge))
        } else {
            let items = self.items.push(item);
            (
                FwCfgState {
                    items,
                    known: self.known.update(
                        FW_CFG_FILE_DIR as int,
                        Content { data: directory(items), owned: true, file: false },
                    ),
                    ..self
                },
                Ok(()),
            )
        }
    }

    /// A known item replaced.
    pub open spec fn known_set(self, selector: u16, content: Content) -> FwCfgState {
        FwCfgState { known: self.known.update(selector as int, content), ..self }
    }
}

pub open spec fn fixed_content(data: Seq<u8>) -> Content {
    Content { data, owned: false, file: false }
}

pub open spec fn owned_content(data: Seq<u8>) -> Content {
    Content { data, owned: true, file: false }
}

pub open spec fn file_content(data: Seq<u8>) -> Content {
    Content { data, owned: false, file: true }
}

/// One entry of the memory map.
pub open spec fn e820_entry(start: u64, size: u64, kind: u32) -> Seq<u8> {
    crate::bytes::le64_bytes(start) + crate::bytes::le64_bytes(size) + crate::bytes::le32_bytes(kind)
}

/// The memory map of a machine with `mem_size` bytes of memory: low memory, the areas of the
/// devices, and the rest of the memory, split where it reaches the devices.
pub open spec fn e820_map(mem_size: u64) -> Seq<u8> {
    e820_entry(0, EBDA_START, E820_RAM) + e820_entry(
        MEM_32BIT_DEVICES_START,
        MEM_32BIT_DEVICES_SIZE,
        E820_RESERVED,
    ) + e820_entry(PCI_MMCONFIG_START, PCI_MMCONFIG_SIZE, E820_RESERVED) + e820_entry(
        STAGE0_START_ADDRESS,
        STAGE0_SIZE,
        E820_RESERVED,
    ) + (if mem_size < MEM_32BIT_DEVICES_START {
        e820_entry(HIGH_RAM_START, (mem_size - HIGH_RAM_START) as u64, E820_RAM)
    } else {
        e820_entry(
            HIGH_RAM_START,
            (MEM_32BIT_RESERVED_START - HIGH_RAM_START) as u64,
            E820_RAM,
        ) + e820_entry(
            RAM_64BIT_START,
            (mem_size - MEM_32BIT_DEVICES_START) as u64,
            E820_RAM,
        )
    })
}

/// How many setup sectors a kernel image has.
pub open spec fn setup_sectors(image: Seq<u8>) -> u8 {
    if image[SETUP_SECTS as int] == 0 {
        4
    } else {
        image[SETUP_SECTS as int]
    }
}

/// Where the kernel starts in its image: after the boot sector and the setup sectors.
pub open spec fn kernel_start(image: Seq<u8>) -> nat {
    (512 * (setup_sectors(image) + 1)) as nat
}

/// Whether a kernel image is long enough for its header and for its setup sectors.
pub open spec fn kernel_complete(image: Seq<u8>) -> bool {
    image.len() >= BOOT_PARAMS_SIZE && image.len() >= kernel_start(image)
}

/// The setup part of a kernel image. The number of setup sectors and the number of the boot
/// loader are filled in, unless the image is measured.
pub open spec fn setup_part(image: Seq<u8>, measured: bool) -> Seq<u8> {
    let setup = image.take(kernel_start(image) as int);
    if measured {
        setup
    } else {
        setup.update(SETUP_SECTS as int, setup_sectors(image)).update(TYPE_OF_LOADER as int, 0xff)
    }
}

impl FwCfgState {
    /// A kernel added: its setup part, the rest of it, and the sizes of both.
    pub open spec fn kernel_added(self, image: Seq<u8>, measured: bool) -> (
        FwCfgState,
        Result<(), FwCfgError>,
    ) {
        if !kernel_complete(image) {
            (self, Err(FwCfgError::ReadError))
        } else {
            let start = kernel_start(image);
            (
                self.known_set(
                    FW_CFG_SETUP_SIZE,
                    fixed_content(crate::bytes::le32_bytes(start as u32)),
                ).known_set(
                    FW_CFG_SETUP_DATA,
                    owned_content(setup_part(image, measured)),
                ).known_set(
                    FW_CFG_KERNEL_SIZE,
                    fixed_content(
                        crate::bytes::le32_bytes((image.len() as u32 - start) as u32),
                    ),
                ).known_set(FW_CFG_KERNEL_DATA, file_content(image.skip(start as int))),
                Ok(()),
            )
        }
    }

    /// A command line added, with its size.
    pub open spec fn cmdline_added(self, cmdline: Seq<u8>) -> FwCfgState {
        self.known_set(
            FW_CFG_CMDLINE_SIZE,
            fixed_content(crate::bytes::le32_bytes(cmdline.len() as u32)),
        ).known_set(FW_CFG_CMDLINE_DATA, owned_content(cmdline))
    }

    /// An initial RAM disk added, with its size.
    pub open spec fn initramfs_added(self, image: Seq<u8>) -> FwCfgState {
        self.known_set(
            FW_CFG_INITRD_SIZE,
            fixed_content(crate::bytes::le32_bytes(image.len() as u32)),
        ).known_set(FW_CFG_INITRD_DATA, file_content(image))
    }

    pub open spec fn e820_added(self, mem_size: usize) -> (FwCfgState, Result<(), FwCfgError>) {
        self.item_added(
            Item { name: "etc/e820"@, content: owned_content(e820_map(mem_size as u64)) },
        )
    }

    /// Files added in order, up to the first one that is refused.
    pub open spec fn items_added(self, items: Seq<Item>) -> (FwCfgState, Result<(), FwCfgError>)
        decreases items.len(),
    {
        if items.len() == 0 {
            (self, Ok(()))
        } else {
            let (next, outcome) = self.item_added(items[0]);
            match outcome {
                Err(error) => (next, Err(error)),
                Ok(()) => next.items_added(items.skip(1)),
            }
        }
    }

    /// Everything that a machine starts with added, up to the first part that is refused.
    pub open spec fn populated(
        self,
        mem_size: Option<usize>,
        kernel: Option<Seq<u8>>,
        initramfs: Option<Seq<u8>>,
        cmdline: Option<Seq<u8>>,
        items: Seq<Item>,
        measured: bool,
    ) -> (FwCfgState, Result<(), FwCfgError>) {
        let (mapped, map_outcome) = match mem_size {
            None => (self, Ok(())),
            Some(size) => self.e820_added(size),
        };
        let (loaded, kernel_outcome) = match kernel {
            None => (mapped, Ok(())),
            Some(image) => mapped.kernel_added(image, measured),
        };
        let commanded = match cmdline {
            None => loaded,
            Some(line) => loaded.cmdline_added(line),
        };
        let filled = match initramfs {
            None => commanded,
            Some(image) => commanded.initramfs_added(image),
        };
        if map_outcome is Err {
            (mapped, map_outcome)
        } else if kernel_outcome is Err {
            (loaded, kernel_outcome)
        } else {
            filled.items_added(items)
        }
    }
}

/// Whether the size of a kernel, cut to 32 bits, holds its setup part.
pub open spec fn kernel_measurable(image: Seq<u8>) -> bool {
    kernel_complete(image) ==> image.len() <= u32::MAX || image.len() as u32 >= kernel_start(image)
}

/// Tests whether the size of a kernel, cut to 32 bits, holds its setup part.
pub fn is_kernel_measurable(image: &[u8]) -> (r: bool)
    ensures
        r == kernel_measurable(image@),
{
    if image.len() < BOOT_PARAMS_SIZE || image.len() <= u32::MAX as usize {
        return true;
    }
    let sects: u8 = if image[SETUP_SECTS] == 0 {
        4
    } else {
        image[SETUP_SECTS]
    };
    let start: usize = (sects as usize + 1) * 512;
    let size: u32 = image.len() as u32;
    start as u32 <= size
}

/// The device with nothing but the configuration of the framebuffer.
pub open spec fn fresh_state(ram: crate::ram::Ram, boot_vcpus: u32) -> FwCfgState {
    let items = seq![
        Item {
            name: "etc/ramfb"@,
            content: owned_content(crate::bytes::zeros(RAMFB_CONFIG_SIZE as nat)),
        },
    ];
    FwCfgState {
        selector: 0,
        data_offset: 0,
        dma_address: 0,
        items,
        known: Seq::new(
            FW_CFG_KNOWN_ITEMS as nat,
            |i: int|
                if i == FW_CFG_SIGNATURE {
                    fixed_content(FW_CFG_SIGNATURE_CONTENT@)
                } else if i == FW_CFG_ID {
                    fixed_content(FW_CFG_FEATURE@)
                } else if i == FW_CFG_SMP_CPU_COUNT {
                    owned_content(crate::bytes::le32_bytes(boot_vcpus))
                } else if i == FW_CFG_FILE_DIR {
                    owned_content(directory(items))
                } else {
                    fixed_content(Seq::empty())
                },
        ),
        ram,
    }
}

pub struct FwCfg {
    pub selector: u16,
    pub data_offset: u32,
    pub dma_address: u64,
    pub items: Vec<FwCfgItem>,
    pub known_items: Vec<FwCfgContent>,
    pub memory: GuestRam,
}

impl View for FwCfg {
    type V = FwCfgState;

    open spec fn view(&self) -> FwCfgState {
        FwCfgState {
            selector: self.selector,
            data_offset: self.data_offset,
            dma_address: self.dma_address,
            items: Seq::new(self.items@.len(), |i: int| self.items@[i]@),
            known: Seq::new(self.known_items@.len(), |i: int| self.known_items@[i]@),
            ram: self.memory@,
        }
    }
}

impl FwCfg {
    /// The state is valid, and every content that is a file's starts inside the file.
    pub open spec fn valid(self) -> bool {
        &&& self@.valid()
        &&& forall|i: int| 0 <= i < self.items@.len() ==> (#[trigger] self.items@[i]).content.valid()
        &&& forall|i: int| 0 <= i < self.known_items@.len() ==> (#[trigger] self.known_items@[i]).valid()
        &&& self.known_items@[FW_CFG_FILE_DIR as int] is Bytes
    }

    pub fn new(memory: SharedMemory, boot_vcpus: u32) -> (r: FwCfg)
        ensures
            r@ == fresh_state(crate::ram::Ram::fresh(memory), boot_vcpus),
            r.valid(),
    {
        let mut file_dir: Vec<u8> = Vec::new();
        push_be32(&mut file_dir, 1);
        let name = create_file_name("etc/ramfb");
        push_directory_entry(&mut file_dir, RAMFB_CONFIG_SIZE as u32, FW_CFG_FILE_FIRST, &name);
        let mut cpus: Vec<u8> = Vec::new();
        push_le32(&mut cpus, boot_vcpus);
        let mut known_items: Vec<FwCfgContent> = Vec::new();
        let mut i: usize = 0;
        while i < FW_CFG_KNOWN_ITEMS
            invariant
                i <= FW_CFG_KNOWN_ITEMS,
                known_items@.len() == i,
                forall|k: int|
                    0 <= k < i ==> (#[trigger] known_items@[k])@ == fixed_content(Seq::empty())
                        && known_items@[k].valid(),
            decreases FW_CFG_KNOWN_ITEMS - i,
        {
            let empty: &'static [u8] = &[];
            assert(empty@ =~= Seq::<u8>::empty());
            known_items.push(FwCfgContent::Slice(empty));
            i = i + 1;
        }
        let signature: &'static [u8] = &FW_CFG_SIGNATURE_CONTENT;
        let feature: &'static [u8] = &FW_CFG_FEATURE;
        known_items.set(FW_CFG_SIGNATURE as usize, FwCfgContent::Slice(signature));
        known_items.set(FW_CFG_ID as usize, FwCfgContent::Slice(feature));
        known_items.set(FW_CFG_SMP_CPU_COUNT as usize, FwCfgContent::Bytes(cpus));
        known_items.set(FW_CFG_FILE_DIR as usize, FwCfgContent::Bytes(file_dir));
        let ramfb = FwCfgItem {
            name: "etc/ramfb".to_owned(),
            content: FwCfgContent::Bytes(zeroed(RAMFB_CONFIG_SIZE)),
        };
        let mut items: Vec<FwCfgItem> = Vec::new();
        items.push(ramfb);
        let device = FwCfg {
            selector: 0,
            data_offset: 0,
            dma_address: 0,
            items,
            known_items,
            memory: GuestRam::new(memory),
        };
        proof {
            let fresh = fresh_state(crate::ram::Ram::fresh(memory), boot_vcpus);
            assert(device@.items =~= fresh.items);
            assert(fresh.items.drop_last() =~= Seq::<Item>::empty());
            assert(directory_entries(fresh.items.drop_last()) == Seq::<u8>::empty());
            assert(file_dir@ =~= directory(fresh.items));
            assert(device@.known =~= fresh.known);
        }
        device
    }

    /// Adds an entry to the directory and makes its count the number of files.
    fn update_directory(&mut self, size: u32, selector: u16, name: &[u8; FILE_NAME_SIZE], count: u32)
        requires
            old(self).known_items@.len() == FW_CFG_KNOWN_ITEMS,
            old(self).known_items@[FW_CFG_FILE_DIR as int] is Bytes,
            old(self).known_items@[FW_CFG_FILE_DIR as int]@.data.len() >= 4,
        ensures
            *final(self) == (FwCfg { known_items: final(self).known_items, ..*old(self) }),
            final(self).known_items@.len() == FW_CFG_KNOWN_ITEMS,
            forall|i: int|
                0 <= i < FW_CFG_KNOWN_ITEMS && i != FW_CFG_FILE_DIR ==> final(self).known_items@[i]
                    == old(self).known_items@[i],
            final(self).known_items@[FW_CFG_FILE_DIR as int] is Bytes,
            final(self).known_items@[FW_CFG_FILE_DIR as int]@.data == crate::bytes::be32_bytes(count)
                + old(self).known_items@[FW_CFG_FILE_DIR as int]@.data.skip(4)
                + (crate::bytes::be32_bytes(size) + crate::bytes::be16_bytes(selector)
                + seq![0u8, 0u8] + name@),
    {
        let mut slot = FwCfgContent::U32(0);
        std::mem::swap(&mut slot, &mut self.known_items[FW_CFG_FILE_DIR as usize]);
        if let FwCfgContent::Bytes(bytes) = slot {
            let mut file_dir = bytes;
            let ghost before = file_dir@;
            push_directory_entry(&mut file_dir, size, selector, name);
            let mut header: Vec<u8> = Vec::new();
            push_be32(&mut header, count);
            overwrite(&mut file_dir, 0, &header);
            assert(file_dir@ =~= crate::bytes::be32_bytes(count) + before.skip(4) + (
            crate::bytes::be32_bytes(size) + crate::bytes::be16_bytes(selector) + seq![0u8, 0u8]
                + name@));
            self.known_items.set(FW_CFG_FILE_DIR as usize, FwCfgContent::Bytes(file_dir));
        }
    }

    /// Adds a file.
    pub fn add_item(&mut self, item: FwCfgItem) -> (r: Result<(), FwCfgError>)
        requires
            old(self).valid(),
            old(self)@.items.len() < MAX_FILES,
            item.content.valid(),
        ensures
            final(self).valid(),
            (final(self)@, r) == old(self)@.item_added(item@),
    {
        let index: usize = self.items.len();
        let c_name = create_file_name(item.name.as_str());
        let size: u32 = match item.content.size() {
            Ok(size) => size,
            Err(error) => {
                return Err(error);
            },
        };
        let ghost added = item@;
        self.update_directory(
            size,
            FW_CFG_FILE_FIRST + index as u16,
            &c_name,
            index as u32 + 1,
        );
        self.items.push(item);
        proof {
            let items = old(self)@.items.push(added);
            let entry = crate::bytes::be32_bytes(size) + crate::bytes::be16_bytes(
                (FW_CFG_FILE_FIRST + index) as u16,
            ) + seq![0u8, 0u8] + c_name@;
            assert(items.drop_last() =~= old(self)@.items);
            assert(directory(old(self)@.items).skip(4) =~= directory_entries(old(self)@.items));
            assert(directory(items) =~= crate::bytes::be32_bytes((index + 1) as u32)
                + directory_entries(old(self)@.items) + entry);
            assert(self@.items =~= items);
            assert(self@.known =~= old(self)@.item_added(added).0.known);
        }
        Ok(())
    }

    fn get_selected_content(&self) -> (r: Result<&FwCfgContent, FwCfgError>)
        requires
            self.valid(),
        ensures
            match self@.selected() {
                None => r == Err::<&FwCfgContent, FwCfgError>(FwCfgError::IllegalSelector),
                Some(content) => r matches Ok(got) && got@ == content && got.valid(),
            },
    {
        if (self.selector as usize) < self.known_items.len() {
            Ok(&self.known_items[self.selector as usize])
        } else {
            let index: usize = (self.selector - FW_CFG_FILE_FIRST) as usize;
            if index < self.items.len() {
                assert(self.items@[index as int].content.valid());
                Ok(&self.items[index].content)
            } else {
                Err(FwCfgError::IllegalSelector)
            }
        }
    }

    /// Copies the next bytes of the selected content to the front of `data` and tells how
    /// many they are.
    pub fn read_content(&mut self, data: &mut [u8]) -> (r: Result<u32, FwCfgError>)
        requires
            old(self).valid(),
            old(data)@.len() <= u32::MAX,
        ensures
            final(self).valid(),
            final(self)@ == old(self)@.content_read(old(data)@.len()).0,
            match old(self)@.content_read(old(data)@.len()).1 {
                Err(error) => r == Err::<u32, FwCfgError>(error) && final(data)@ == old(data)@,
                Ok(bytes) => {
                    &&& r == Ok::<u32, FwCfgError>(bytes.len() as u32)
                    &&& bytes.len() <= old(data)@.len()
                    &&& final(data)@ == bytes + old(data)@.skip(bytes.len() as int)
                },
            },
    {
        let content = match self.get_selected_content() {
            Ok(content) => content,
            Err(error) => {
                return Err(error);
            },
        };
        let content_size: u32 = match content.size() {
            Ok(size) => size,
            Err(error) => {
                return Err(error);
            },
        };
        let start: u32 = self.data_offset;
        if start > content_size {
            if content.is_file() {
                assert(data@ =~= Seq::<u8>::empty() + data@.skip(0));
                return Ok(0);
            }
            return Err(FwCfgError::ReadError);
        }
        let length: usize = data.len();
        let remaining: u32 = content_size - start;
        let count: u32 = if remaining <= length as u32 {
            remaining
        } else {
            length as u32
        };
        let planned_end: u32 = start + count;
        let bytes = content.access(start as usize, planned_end as usize);
        let ghost before = data@;
        let mut i: usize = 0;
        while i < count as usize
            invariant
                i <= count,
                count == bytes@.len(),
                count <= data@.len(),
                data@.len() == before.len(),
                data@ == bytes@.take(i as int) + before.skip(i as int),
            decreases count - i,
        {
            data[i] = bytes[i];
            i = i + 1;
            assert(data@ =~= bytes@.take(i as int) + before.skip(i as int));
        }
        assert(bytes@.take(i as int) =~= bytes@);
        self.data_offset = planned_end;
        Ok(count)
    }

    /// Fills `data` with the next bytes of the selected content, then with zeros.
    fn read_data(&mut self, data: &mut [u8])
        requires
            old(self).valid(),
            old(data)@.len() <= u32::MAX,
        ensures
            final(self).valid(),
            (final(self)@, final(data)@) == old(self)@.data_read(old(data)@.len()),
    {
        let ghost length = data@.len();
        match self.read_content(data) {
            Ok(count) => {
                let ghost bytes = data@.take(count as int);
                clear_from(data, count as usize);
                assert(data@ =~= bytes + crate::bytes::zeros((length - count) as nat));
                assert(old(self)@.content_read(length).1 is Ok);
                assert(bytes =~= old(self)@.content_read(length).1->Ok_0);
            },
            Err(_) => {
                clear_from(data, 0);
                assert(data@ =~= crate::bytes::zeros(length));
            },
        }
    }

    /// Reads the ports at `offset`.
    pub fn read(&mut self, _base: u64, offset: u64, data: &mut [u8])
        requires
            old(self).valid(),
            offset + PORT_FW_CFG_BASE <= u64::MAX,
            old(data)@.len() <= u32::MAX,
        ensures
            final(self).valid(),
            (final(self)@, final(data)@) == old(self)@.read(offset, old(data)@.len()),
    {
        let port: u64 = offset + PORT_FW_CFG_BASE;
        let length: usize = data.len();
        if port == PORT_FW_CFG_DATA || (port == PORT_FW_CFG_SELECTOR && length == 1) {
            self.read_data(data);
        } else if port == PORT_FW_CFG_DMA_HI && length == 4 {
            put_be32(data, (self.dma_address / 0x1_0000_0000) as u32);
        } else if port == PORT_FW_CFG_DMA_LO && length == 4 {
            put_be32(data, (self.dma_address % 0x1_0000_0000) as u32);
        } else {
            clear_from(data, 0);
            assert(data@ =~= crate::bytes::zeros(length as nat));
        }
    }

    /// Writes the ports at `offset`.
    pub fn write(&mut self, _base: u64, offset: u64, data: &[u8])
        requires
            old(self).valid(),
            offset + PORT_FW_CFG_BASE <= u64::MAX,
        ensures
            final(self).valid(),
            final(self)@.ram.follows(old(self)@.ram),
            final(self)@.ram.settled(),
            forall|answers: RamAnswers| #[trigger]
                final(self)@.ram.agrees(answers) ==> final(self)@.under(answers)
                    == old(self)@.under(answers).written(offset, data@),
    {
        let port: u64 = offset + PORT_FW_CFG_BASE;
        if port == PORT_FW_CFG_SELECTOR && data.len() == 2 {
            self.selector = get_le16(data, 0);
            self.data_offset = 0;
        } else if port == PORT_FW_CFG_DMA_HI && data.len() == 4 {
            let value: u32 = get_be32(data, 0);
            self.dma_address = self.dma_address % 0x1_0000_0000 + 0x1_0000_0000 * (value as u64);
        } else if port == PORT_FW_CFG_DMA_LO && data.len() == 4 {
            let value: u32 = get_be32(data, 0);
            self.dma_address = self.dma_address / 0x1_0000_0000 * 0x1_0000_0000 + value as u64;
            self.do_dma();
        }
    }

    /// Starts the DMA access, if the device offers the DMA interface.
    fn do_dma(&mut self)
        requires
            old(self).valid(),
        ensures
            final(self).valid(),
            final(self)@.ram.follows(old(self)@.ram),
            forall|answers: RamAnswers| #[trigger]
                final(self)@.ram.agrees(answers) ==> final(self)@.under(answers)
                    == old(self)@.under(answers).dma_triggered(),
    {
        if FW_CFG_FEATURE[0] & FW_CFG_F_DMA == 0 {
            return;
        }
        self.dma_access();
    }

    fn dma_read(&mut self, length: u32, address: u64) -> (r: bool)
        requires
            old(self).valid(),
        ensures
            final(self).valid(),
            final(self)@.ram.follows(old(self)@.ram),
            forall|answers: RamAnswers| #[trigger]
                final(self)@.ram.agrees(answers) ==> (final(self)@.under(answers), r)
                    == old(self)@.under(answers).dma_read(length, address),
    {
        let content = match self.get_selected_content() {
            Ok(content) => content,
            Err(_) => {
                return false;
            },
        };
        let size: u32 = match content.size() {
            Ok(size) => size,
            Err(_) => {
                return false;
            },
        };
        let from: u32 = if self.data_offset <= size {
            self.data_offset
        } else {
            size
        };
        let to: u32 = if size - from <= length {
            size
        } else {
            from + length
        };
        let bytes = content.access(from as usize, to as usize);
        match self.memory.write_present(address, &bytes) {
            None => false,
            Some(count) => {
                self.data_offset = self.data_offset + count as u32;
                true
            },
        }
    }

    fn dma_write(&mut self, length: u32, address: u64) -> (r: bool)
        requires
            old(self).valid(),
        ensures
            final(self).valid(),
            final(self)@.ram.follows(old(self)@.ram),
            forall|answers: RamAnswers| #[trigger]
                final(self)@.ram.agrees(answers) ==> (final(self)@.under(answers), r)
                    == old(self)@.under(answers).dma_write(length, address),
    {
        let index: usize = self.selector.saturating_sub(FW_CFG_FILE_FIRST) as usize;
        if index >= self.items.len() {
            return false;
        }
        let writable_name = "etc/ramfb".to_owned();
        if !self.items[index].name.eq(&writable_name) {
            return false;
        }
        let bytes = match self.memory.read_present(address, length as usize) {
            None => {
                return false;
            },
            Some((count, bytes)) => {
                if count != bytes.len() {
                    return false;
                }
                bytes
            },
        };
        let start: usize = self.data_offset as usize;
        let mut slot = FwCfgContent::U32(0);
        std::mem::swap(&mut slot, &mut self.items[index].content);
        let mut done = false;
        if let FwCfgContent::Bytes(contents) = slot {
            let mut contents = contents;
            if start <= contents.len() && bytes.len() <= contents.len() - start {
                overwrite(&mut contents, start, &bytes);
                done = true;
            }
            slot = FwCfgContent::Bytes(contents);
        }
        std::mem::swap(&mut slot, &mut self.items[index].content);
        if done {
            self.data_offset = self.data_offset + length;
        }
        proof {
            assert(self@.known =~= old(self)@.known);
            assert forall|answers: RamAnswers| #[trigger] self@.ram.agrees(answers) implies (
                self@.under(answers),
                done,
            ) == old(self)@.under(answers).dma_write(length, address) by {
                let next = old(self)@.under(answers).dma_write(length, address).0;
                assert(self@.items =~= next.items);
            }
            crate::ram::the_recorded_answers_agree(&self.memory);
            lemma_directory_ignores_contents(old(self)@.items, self@.items);
        }
        done
    }

    /// Performs the DMA access that the address register points to.
    pub fn dma_access(&mut self)
        requires
            old(self).valid(),
        ensures
            final(self).valid(),
            final(self)@.ram.follows(old(self)@.ram),
            final(self)@.ram.settled(),
            forall|answers: RamAnswers| #[trigger]
                final(self)@.ram.agrees(answers) ==> final(self)@.under(answers)
                    == old(self)@.under(answers).dma_accessed(),
    {
        let dma_address: u64 = self.dma_address;
        let access = match self.memory.read_present(dma_address, 16) {
            None => {
                return;
            },
            Some((_, access)) => access,
        };
        let control: u32 = get_be32(&access, 0);
        let length: u32 = get_be32(&access, 4);
        let address: u64 = get_be64(&access, 8);
        if control & DMA_SELECT != 0 {
            self.data_offset = 0;
        }
        let ok = if control & DMA_READ != 0 {
            self.dma_read(length, address)
        } else if control & DMA_WRITE != 0 {
            self.dma_write(length, address)
        } else if control & DMA_SKIP != 0 && length <= u32::MAX - self.data_offset {
            self.data_offset = self.data_offset + length;
            true
        } else {
            false
        };
        let mut outcome: Vec<u8> = Vec::new();
        push_be32(&mut outcome, if ok {
            0
        } else {
            DMA_ERROR
        });
        assert(outcome@ =~= crate::bytes::be32_bytes(if ok {
            0
        } else {
            DMA_ERROR
        }));
        let _ = self.memory.write_present(dma_address, &outcome);
    }

    /// Adds the memory map.
    pub fn add_e820(&mut self, mem_size: usize) -> (r: Result<(), FwCfgError>)
        requires
            old(self).valid(),
            old(self)@.items.len() < MAX_FILES,
            mem_size >= HIGH_RAM_START,
        ensures
            final(self).valid(),
            (final(self)@, r) == old(self)@.e820_added(mem_size),
    {
        let size: u64 = mem_size as u64;
        let mut bytes: Vec<u8> = Vec::new();
        push_e820_entry(&mut bytes, 0, EBDA_START, E820_RAM);
        push_e820_entry(
            &mut bytes,
            MEM_32BIT_DEVICES_START,
            MEM_32BIT_DEVICES_SIZE,
            E820_RESERVED,
        );
        push_e820_entry(&mut bytes, PCI_MMCONFIG_START, PCI_MMCONFIG_SIZE, E820_RESERVED);
        push_e820_entry(&mut bytes, STAGE0_START_ADDRESS, STAGE0_SIZE, E820_RESERVED);
        if size < MEM_32BIT_DEVICES_START {
            push_e820_entry(&mut bytes, HIGH_RAM_START, size - HIGH_RAM_START, E820_RAM);
        } else {
            push_e820_entry(
                &mut bytes,
                HIGH_RAM_START,
                MEM_32BIT_RESERVED_START - HIGH_RAM_START,
                E820_RAM,
            );
            push_e820_entry(&mut bytes, RAM_64BIT_START, size - MEM_32BIT_DEVICES_START, E820_RAM);
        }
        assert(bytes@ =~= e820_map(size));
        self.add_item(
            FwCfgItem { name: "etc/e820".to_owned(), content: FwCfgContent::Bytes(bytes) },
        )
    }

    /// Replaces a known item other than the directory.
    fn set_known(&mut self, selector: u16, content: FwCfgContent)
        requires
            old(self).valid(),
            selector < FW_CFG_KNOWN_ITEMS,
            selector != FW_CFG_FILE_DIR,
            content.valid(),
        ensures
            final(self).valid(),
            final(self)@ == old(self)@.known_set(selector, content@),
    {
        self.known_items.set(selector as usize, content);
        assert(self@.known =~= old(self)@.known_set(selector, content@).known);
        assert(self@.items =~= old(self)@.items);
    }

    /// Adds a kernel image. The image of a guest whose launch is measured stays as it is.
    pub fn add_kernel_data(&mut self, file: Vec<u8>, kvm_sev_snp_enabled: bool) -> (r: Result<
        (),
        FwCfgError,
    >)
        requires
            old(self).valid(),
            kernel_measurable(file@),
        ensures
            final(self).valid(),
            (final(self)@, r) == old(self)@.kernel_added(file@, kvm_sev_snp_enabled),
    {
        if file.len() < BOOT_PARAMS_SIZE {
            return Err(FwCfgError::ReadError);
        }
        let sects: u8 = if file[SETUP_SECTS] == 0 {
            4
        } else {
            file[SETUP_SECTS]
        };
        let start: usize = (sects as usize + 1) * 512;
        if start > file.len() {
            return Err(FwCfgError::ReadError);
        }
        let mut setup = range_of(&file, 0, start);
        assert(setup@ =~= file@.take(start as int));
        if !kvm_sev_snp_enabled {
            setup.set(SETUP_SECTS, sects);
            setup.set(TYPE_OF_LOADER, 0xff);
        }
        let length: u32 = file.len() as u32;
        self.set_known(FW_CFG_SETUP_SIZE, FwCfgContent::U32(start as u32));
        self.set_known(FW_CFG_SETUP_DATA, FwCfgContent::Bytes(setup));
        self.set_known(FW_CFG_KERNEL_SIZE, FwCfgContent::U32(length - start as u32));
        self.set_known(FW_CFG_KERNEL_DATA, FwCfgContent::File(start as u64, file));
        Ok(())
    }

    /// Adds the kernel command line, with the zero that ends it.
    pub fn add_kernel_cmdline(&mut self, s: Vec<u8>)
        requires
            old(self).valid(),
        ensures
            final(self).valid(),
            final(self)@ == old(self)@.cmdline_added(s@),
    {
        let size: u32 = s.len() as u32;
        self.set_known(FW_CFG_CMDLINE_SIZE, FwCfgContent::U32(size));
        self.set_known(FW_CFG_CMDLINE_DATA, FwCfgContent::Bytes(s));
    }

    /// Adds an initial RAM disk.
    pub fn add_initramfs_data(&mut self, file: Vec<u8>)
        requires
            old(self).valid(),
        ensures
            final(self).valid(),
            final(self)@ == old(self)@.initramfs_added(file@),
    {
        let size: u32 = file.len() as u32;
        assert(file@.skip(0) =~= file@);
        self.set_known(FW_CFG_INITRD_SIZE, FwCfgContent::U32(size));
        self.set_known(FW_CFG_INITRD_DATA, FwCfgContent::File(0, file));
    }

    /// Adds the ACPI tables and the script that loads them.
    pub fn add_acpi(
        &mut self,
        rsdp: Rsdp,
        tables: Vec<u8>,
        table_checksums: Vec<(usize, usize)>,
        table_pointers: Vec<usize>,
    ) -> (r: Result<(), FwCfgError>)
        requires
            old(self).valid(),
            old(self)@.items.len() + 3 <= MAX_FILES,
            forall|i: int|
                0 <= i < table_checksums@.len() ==> (#[trigger] table_checksums@[i]).0
                    + TABLE_CHECKSUM <= usize::MAX,
        ensures
            final(self).valid(),
            (final(self)@, r) == old(self)@.items_added(
                crate::legacy::acpi_loader::loader_items(
                    AcpiTable { rsdp, tables, table_pointers, table_checksums },
                ),
            ),
    {
        let table = AcpiTable { rsdp, tables, table_pointers, table_checksums };
        let ghost items = crate::legacy::acpi_loader::loader_items(table);
        let (loader, root, rest) = create_acpi_loader(table);
        proof {
            assert(seq![loader@, root@, rest@][0] == items[0]);
            assert(seq![loader@, root@, rest@][1] == items[1]);
            assert(seq![loader@, root@, rest@][2] == items[2]);
            reveal_with_fuel(FwCfgState::items_added, 4);
            assert(items.skip(1)[0] == items[1]);
            assert(items.skip(1).skip(1)[0] == items[2]);
            assert(items.skip(1).skip(1).skip(1) =~= Seq::<Item>::empty());
        }
        match self.add_item(loader) {
            Ok(()) => {},
            Err(error) => {
                return Err(error);
            },
        }
        match self.add_item(root) {
            Ok(()) => {},
            Err(error) => {
                return Err(error);
            },
        }
        self.add_item(rest)
    }

    /// Adds the first file of a list.
    fn add_next(&mut self, list: &mut Vec<FwCfgItem>) -> (r: Result<(), FwCfgError>)
        requires
            old(self).valid(),
            old(list)@.len() > 0,
            old(self)@.items.len() + old(list)@.len() <= MAX_FILES,
            forall|i: int| 0 <= i < old(list)@.len() ==> (#[trigger] old(list)@[i]).content.valid(),
        ensures
            final(self).valid(),
            final(list)@.len() == old(list)@.len() - 1,
            forall|i: int|
                0 <= i < final(list)@.len() ==> (#[trigger] final(list)@[i]).content.valid(),
            old(self)@.items_added(item_views(old(list)@)) == (match r {
                Ok(()) => final(self)@.items_added(item_views(final(list)@)),
                Err(_) => (final(self)@, r),
            }),
            r is Ok ==> final(self)@.items.len() == old(self)@.items.len() + 1,
    {
        let item = take_first(list);
        self.add_item(item)
    }

    /// Adds files in order, up to the first one that is refused.
    fn add_items(&mut self, list: &mut Vec<FwCfgItem>) -> (r: Result<(), FwCfgError>)
        requires
            old(self).valid(),
            old(self)@.items.len() + old(list)@.len() <= MAX_FILES,
            forall|i: int| 0 <= i < old(list)@.len() ==> (#[trigger] old(list)@[i]).content.valid(),
        ensures
            final(self).valid(),
            (final(self)@, r) == old(self)@.items_added(item_views(old(list)@)),
    {
        let ghost all = old(self)@.items_added(item_views(old(list)@));
        let mut outcome: Result<(), FwCfgError> = Ok(());
        let mut more = true;
        while more && list.len() > 0
            invariant
                self.valid(),
                more ==> self@.items.len() + list@.len() <= MAX_FILES,
                forall|i: int| 0 <= i < list@.len() ==> (#[trigger] list@[i]).content.valid(),
                more ==> all.0 == self@.items_added(item_views(list@)).0,
                more ==> all.1 == self@.items_added(item_views(list@)).1,
                !more ==> all.0 == self@,
                !more ==> all.1 == outcome,
                more ==> outcome is Ok,
            decreases list@.len(),
        {
            outcome = self.add_next(list);
            more = outcome.is_ok();
        }
        if more {
            assert(item_views(list@).len() == 0);
            Ok(())
        } else {
            outcome
        }
    }

    /// Adds everything that a machine starts with, up to the first part that is refused.
    pub fn populate_fw_cfg(
        &mut self,
        mem_size: Option<usize>,
        kernel: Option<Vec<u8>>,
        initramfs: Option<Vec<u8>>,
        cmdline: Option<Vec<u8>>,
        fw_cfg_item_list: Option<Vec<FwCfgItem>>,
        kvm_sev_snp_enabled: bool,
    ) -> (r: Result<(), FwCfgError>)
        requires
            old(self).valid(),
            old(self)@.items.len() + (if mem_size is Some {
                1int
            } else {
                0
            }) + listed(fw_cfg_item_list).len() <= MAX_FILES,
            mem_size matches Some(size) ==> size >= HIGH_RAM_START,
            kernel matches Some(image) ==> kernel_measurable(image@),
            forall|i: int|
                0 <= i < listed(fw_cfg_item_list).len() ==> (#[trigger] listed(
                    fw_cfg_item_list,
                )[i]).content.valid(),
        ensures
            final(self).valid(),
            (final(self)@, r) == old(self)@.populated(
                mem_size,
                viewed(kernel),
                viewed(initramfs),
                viewed(cmdline),
                item_views(listed(fw_cfg_item_list)),
                kvm_sev_snp_enabled,
            ),
    {
        if let Some(size) = mem_size {
            match self.add_e820(size) {
                Ok(()) => {},
                Err(error) => {
                    return Err(error);
                },
            }
        }
        if let Some(image) = kernel {
            match self.add_kernel_data(image, kvm_sev_snp_enabled) {
                Ok(()) => {},
                Err(error) => {
                    return Err(error);
                },
            }
        }
        if let Some(line) = cmdline {
            self.add_kernel_cmdline(line);
        }
        if let Some(image) = initramfs {
            self.add_initramfs_data(image);
        }
        match fw_cfg_item_list {
            Some(list) => {
                let mut list = list;
                self.add_items(&mut list)
            },
            None => Ok(()),
        }
    }
}

pub open spec fn item_views(items: Seq<FwCfgItem>) -> Seq<Item> {
    Seq::new(items.len(), |i: int| items[i]@)
}

/// Takes the first file off a list.
fn take_first(list: &mut Vec<FwCfgItem>) -> (r: FwCfgItem)
    requires
        old(list)@.len() > 0,
        forall|i: int| 0 <= i < old(list)@.len() ==> (#[trigger] old(list)@[i]).content.valid(),
    ensures
        r.content.valid(),
        r@ == item_views(old(list)@)[0],
        final(list)@.len() == old(list)@.len() - 1,
        item_views(final(list)@) == item_views(old(list)@).skip(1),
        forall|i: int| 0 <= i < final(list)@.len() ==> (#[trigger] final(list)@[i]).content.valid(),
{
    let ghost before = list@;
    let item = list.remove(0);
    assert forall|i: int| 0 <= i < list@.len() implies (#[trigger] list@[i]).content.valid() by {
        assert(list@[i] == before[i + 1]);
    }
    assert(item == before[0]);
    assert(item_views(list@) =~= item_views(before).skip(1));
    item
}

/// The files of a list, if there is one.
pub open spec fn listed(list: Option<Vec<FwCfgItem>>) -> Seq<FwCfgItem> {
    match list {
        None => Seq::empty(),
        Some(items) => items@,
    }
}

pub open spec fn viewed(bytes: Option<Vec<u8>>) -> Option<Seq<u8>> {
    match bytes {
        None => None,
        Some(bytes) => Some(bytes@),
    }
}

/// Appends an entry to the memory map.
fn push_e820_entry(bytes: &mut Vec<u8>, start: u64, size: u64, kind: u32)
    ensures
        final(bytes)@ == old(bytes)@ + e820_entry(start, size, kind),
{
    push_le64(bytes, start);
    push_le64(bytes, size);
    push_le32(bytes, kind);
    assert(bytes@ =~= old(bytes)@ + e820_entry(start, size, kind));
}

/// Clears the bytes from `from` on.
fn clear_from(data: &mut [u8], from: usize)
    requires
        from <= old(data)@.len(),
    ensures
        final(data)@ == old(data)@.take(from as int) + crate::bytes::zeros(
            (old(data)@.len() - from) as nat,
        ),
{
    let length: usize = data.len();
    let ghost before = data@;
    let mut i: usize = from;
    while i < length
        invariant
            from <= i <= length,
            length == data@.len(),
            length == before.len(),
            forall|k: int| 0 <= k < from ==> data@[k] == before[k],
            forall|k: int| from <= k < i ==> data@[k] == 0,
        decreases length - i,
    {
        data[i] = 0;
        i = i + 1;
    }
    assert(data@ =~= before.take(from as int) + crate::bytes::zeros((length - from) as nat));
}

/// Fills four bytes with a number, most significant byte first.
fn put_be32(data: &mut [u8], value: u32)
    requires
        old(data)@.len() == 4,
    ensures
        final(data)@ == crate::bytes::be32_bytes(value),
{
    data[0] = (value / 0x100_0000) as u8;
    data[1] = (value / 0x1_0000 % 0x100) as u8;
    data[2] = (value / 0x100 % 0x100) as u8;
    data[3] = (value % 0x100) as u8;
    assert(data@ =~= crate::bytes::be32_bytes(value));
}

/// Appends an entry to the directory.
fn push_directory_entry(
    directory: &mut Vec<u8>,
    size: u32,
    selector: u16,
    name: &[u8; FILE_NAME_SIZE],
)
    ensures
        final(directory)@ == old(directory)@ + (crate::bytes::be32_bytes(size)
            + crate::bytes::be16_bytes(selector) + seq![0u8, 0u8] + name@),
{
    push_be32(directory, size);
    push_be16(directory, selector);
    directory.push(0);
    directory.push(0);
    push_range(directory, name, 0, FILE_NAME_SIZE);
    assert(name@.subrange(0, FILE_NAME_SIZE as int) =~= name@);
    assert(directory@ =~= old(directory)@ + (crate::bytes::be32_bytes(size)
        + crate::bytes::be16_bytes(selector) + seq![0u8, 0u8] + name@));
}

/// A read of many bytes gives what reads of its parts give one after the other.
pub proof fn reads_can_be_split(state: FwCfgState, first: nat, second: nat)
    ensures
        ({
            let (between, head) = state.data_read(first);
            let (end, tail) = between.data_read(second);
            state.data_read(first + second) == (end, head + tail)
        }),
{
    let (between, head) = state.data_read(first);
    let (end, tail) = between.data_read(second);
    let (after, all) = state.data_read(first + second);
    assert(all =~= head + tail);
}

/// At the end of an item, and behind it, zeros are read, and the cursor stays.
pub proof fn reads_past_the_end_give_zeros(state: FwCfgState, length: nat)
    requires
        state.selected() matches Some(content) ==> content.data.len() <= state.data_offset,
    ensures
        state.data_read(length) == (state, crate::bytes::zeros(length)),
{
    assert(state.data_read(length).1 =~= crate::bytes::zeros(length));
}

/// A file that was added is selected by the next selector, and read back from its start on
/// whatever was read before.
pub proof fn an_added_file_is_read_back(state: FwCfgState, item: Item)
    requires
        state.valid(),
        state.items.len() < MAX_FILES,
        item.content.data.len() <= u32::MAX,
    ensures
        ({
            let added = state.item_added(item).0;
            let selector = (FW_CFG_FILE_FIRST + state.items.len()) as u16;
            let selected = added.written(0, crate::bytes::le16_bytes(selector));
            selected.data_read(item.content.data.len()).1 == item.content.data
        }),
{
    let added = state.item_added(item).0;
    let selector = (FW_CFG_FILE_FIRST + state.items.len()) as u16;
    crate::bytes::le16_round_trip(selector);
    let selected = added.written(0, crate::bytes::le16_bytes(selector));
    assert(selected.items[state.items.len() as int] == item);
    assert(selected.selected() == Some(item.content));
    assert(selected.data_read(item.content.data.len()).1 =~= item.content.data);
}

/// Adding a file changes neither the other files nor their selectors.
pub proof fn files_keep_their_selectors(state: FwCfgState, item: Item, selector: u16)
    requires
        state.valid(),
        state.items.len() < MAX_FILES,
        FW_CFG_FILE_FIRST <= selector < FW_CFG_FILE_FIRST + state.items.len(),
    ensures
        (FwCfgState { selector, ..state.item_added(item).0 }).selected() == (FwCfgState {
            selector,
            ..state
        }).selected(),
{
}

/// No write to the ports reaches guest memory: the DMA interface is not offered.
pub proof fn writes_leave_memory_alone(state: FwCfgState, offset: u64, data: Seq<u8>)
    ensures
        state.written(offset, data).ram == state.ram,
{
    crate::bytes::lemma_byte_bits(0x01);
}

} // verus!
