//! What the firmware finds in the files of its configuration.
use vstd::prelude::*;

use crate::legacy::fw_cfg::{FwCfgState, Item};

verus! {

/// An entry of a memory map is twenty bytes: where it starts, its size, and its kind.
pub open spec fn region_start(map: Seq<u8>, i: int) -> nat {
    crate::bytes::number_at(map, 20 * i, 8)
}

pub open spec fn region_size(map: Seq<u8>, i: int) -> nat {
    crate::bytes::number_at(map, 20 * i + 8, 8)
}

pub open spec fn region_kind(map: Seq<u8>, i: int) -> nat {
    crate::bytes::number_at(map, 20 * i + 16, 4)
}

/// Whether an entry of a kind holds an address.
pub open spec fn mapped_as(map: Seq<u8>, kind: nat, address: nat) -> bool {
    exists|i: int|
        0 <= i < map.len() / 20 && #[trigger] region_kind(map, i) == kind && region_start(map, i)
            <= address < region_start(map, i) + region_size(map, i)
}

/// The sizes of the entries of a kind among the first `n`, added up.
pub open spec fn total_size(map: Seq<u8>, kind: nat, n: nat) -> nat
    decreases n,
{
    if n == 0 {
        0
    } else {
        total_size(map, kind, (n - 1) as nat) + (if region_kind(map, n - 1) == kind {
            region_size(map, n - 1)
        } else {
            0
        })
    }
}

/// Whether a machine with `mem_size` bytes has memory at an address: up to 640 KiB, from 1 MiB
/// up to the devices below 4 GiB, and the rest from 4 GiB on.
pub open spec fn has_memory(mem_size: nat, address: nat) -> bool {
    ||| address < 0xa_0000
    ||| 0x10_0000 <= address < mem_size && address < 0xc000_0000
    ||| 0x1_0000_0000 <= address && address - 0x1_0000_0000 + 0xc000_0000 < mem_size
}

proof fn lemma_region(map: Seq<u8>, i: int, start: u64, size: u64, kind: u32)
    requires
        0 <= i,
        20 * i + 20 <= map.len(),
        map.subrange(20 * i, 20 * i + 20) == crate::legacy::fw_cfg::e820_entry(start, size, kind),
    ensures
        region_start(map, i) == start,
        region_size(map, i) == size,
        region_kind(map, i) == kind,
{
    let entry = map.subrange(20 * i, 20 * i + 20);
    crate::bytes::le_bytes_hold_the_value(0, kind, start);
    crate::bytes::le_bytes_hold_the_value(0, kind, size);
    assert(map.subrange(20 * i, 20 * i + 8) =~= entry.subrange(0, 8));
    assert(map.subrange(20 * i + 8, 20 * i + 16) =~= entry.subrange(8, 16));
    assert(map.subrange(20 * i + 16, 20 * i + 20) =~= entry.subrange(16, 20));
    assert(entry.subrange(0, 8) =~= crate::bytes::le64_bytes(start));
    assert(entry.subrange(8, 16) =~= crate::bytes::le64_bytes(size));
    assert(entry.subrange(16, 20) =~= crate::bytes::le32_bytes(kind));
}

/// The memory map that the firmware finds in `etc/e820` is right: the entries of kind 1 hold
/// exactly the addresses of the guest's memory, and their sizes add up to it but for the hole
/// below 1 MiB; the other entries are of kind 2, and hold addresses of devices below 4 GiB, where
/// the guest has no memory.
pub proof fn the_memory_map_shows_the_memory(state: FwCfgState, mem_size: usize)
    requires
        mem_size >= 0x10_0000,
    ensures
        ({
            let (after, outcome) = state.e820_added(mem_size);
            let map = after.items.last().content.data;
            let count = map.len() / 20;
            &&& outcome is Ok
            &&& after.items.len() == state.items.len() + 1
            &&& after.items.last().name == "etc/e820"@
            &&& map.len() % 20 == 0
            &&& forall|address: nat| #[trigger]
                mapped_as(map, 1, address) <==> has_memory(mem_size as nat, address)
            &&& total_size(map, 1, count) == mem_size - 0x6_0000
            &&& forall|address: nat| #[trigger]
                mapped_as(map, 2, address) ==> 0xc000_0000 <= address < 0x1_0000_0000
            &&& forall|address: nat|
                (0xc000_0000 <= address < 0xf800_0000 || 0xfffe_0000 <= address < 0x1_0000_0000)
                    ==> #[trigger] mapped_as(map, 2, address)
            &&& forall|i: int|
                0 <= i < count ==> #[trigger] region_kind(map, i) == 1 || region_kind(map, i) == 2
        }),
{
    let map = crate::legacy::fw_cfg::e820_map(mem_size as u64);
    let after = state.e820_added(mem_size).0;
    assert(after.items.last().content.data == map);
    lemma_map_entries(mem_size as u64);
    reveal_with_fuel(total_size, 7);
    if mem_size < 0xc000_0000 {
        assert(map.len() / 20 == 5);
    } else {
        assert(map.len() / 20 == 6);
    }
    assert forall|address: nat| has_memory(mem_size as nat, address) implies #[trigger] mapped_as(
        map,
        1,
        address,
    ) by {
        assert(region_kind(map, 0) == 1);
        assert(region_kind(map, 4) == 1);
        if mem_size >= 0xc000_0000 {
            assert(region_kind(map, 5) == 1);
        }
    }
    assert forall|address: nat| #[trigger] mapped_as(map, 1, address) implies has_memory(
        mem_size as nat,
        address,
    ) by {
        let i = choose|i: int|
            0 <= i < map.len() / 20 && #[trigger] region_kind(map, i) == 1 && region_start(map, i)
                <= address < region_start(map, i) + region_size(map, i);
        assert(i == 0 || i == 1 || i == 2 || i == 3 || i == 4 || i == 5);
    }
    assert forall|address: nat| #[trigger] mapped_as(map, 2, address) implies 0xc000_0000
        <= address < 0x1_0000_0000 by {
        let i = choose|i: int|
            0 <= i < map.len() / 20 && #[trigger] region_kind(map, i) == 2 && region_start(map, i)
                <= address < region_start(map, i) + region_size(map, i);
        assert(i == 0 || i == 1 || i == 2 || i == 3 || i == 4 || i == 5);
    }
    assert forall|address: nat|
        (0xc000_0000 <= address < 0xf800_0000 || 0xfffe_0000 <= address
            < 0x1_0000_0000) implies #[trigger] mapped_as(map, 2, address) by {
        assert(region_kind(map, 1) == 2);
        assert(region_kind(map, 2) == 2);
        assert(region_kind(map, 3) == 2);
    }
    assert forall|i: int| 0 <= i < map.len() / 20 implies #[trigger] region_kind(map, i) == 1
        || region_kind(map, i) == 2 by {
        assert(i == 0 || i == 1 || i == 2 || i == 3 || i == 4 || i == 5);
    }
}

proof fn lemma_map_entries(mem_size: u64)
    requires
        mem_size >= 0x10_0000,
    ensures
        ({
            let map = crate::legacy::fw_cfg::e820_map(mem_size);
            &&& map.len() == (if mem_size < 0xc000_0000 {
                100int
            } else {
                120
            })
            &&& region_start(map, 0) == 0 && region_size(map, 0) == 0xa_0000 && region_kind(map, 0)
                == 1
            &&& region_start(map, 1) == 0xc000_0000 && region_size(map, 1) == 0x2800_0000
                && region_kind(map, 1) == 2
            &&& region_start(map, 2) == 0xe800_0000 && region_size(map, 2) == 0x1000_0000
                && region_kind(map, 2) == 2
            &&& region_start(map, 3) == 0xfffe_0000 && region_size(map, 3) == 0x2_0000
                && region_kind(map, 3) == 2
            &&& region_start(map, 4) == 0x10_0000 && region_kind(map, 4) == 1
            &&& mem_size < 0xc000_0000 ==> region_size(map, 4) == mem_size - 0x10_0000
            &&& mem_size >= 0xc000_0000 ==> {
                &&& region_size(map, 4) == 0xc000_0000 - 0x10_0000
                &&& region_start(map, 5) == 0x1_0000_0000
                &&& region_size(map, 5) == mem_size - 0xc000_0000
                &&& region_kind(map, 5) == 1
            }
        }),
{
    let map = crate::legacy::fw_cfg::e820_map(mem_size);
    let a = crate::legacy::fw_cfg::e820_entry(0, 0xa_0000, 1);
    let b = crate::legacy::fw_cfg::e820_entry(0xc000_0000, 0x2800_0000, 2);
    let c = crate::legacy::fw_cfg::e820_entry(0xe800_0000, 0x1000_0000, 2);
    let d = crate::legacy::fw_cfg::e820_entry(0xfffe_0000, 0x2_0000, 2);
    assert(map.subrange(0, 20) =~= a);
    assert(map.subrange(20, 40) =~= b);
    assert(map.subrange(40, 60) =~= c);
    assert(map.subrange(60, 80) =~= d);
    lemma_region(map, 0, 0, 0xa_0000, 1);
    lemma_region(map, 1, 0xc000_0000, 0x2800_0000, 2);
    lemma_region(map, 2, 0xe800_0000, 0x1000_0000, 2);
    lemma_region(map, 3, 0xfffe_0000, 0x2_0000, 2);
    if mem_size < 0xc000_0000 {
        let size = (mem_size - 0x10_0000) as u64;
        assert(map.subrange(80, 100) =~= crate::legacy::fw_cfg::e820_entry(0x10_0000, size, 1));
        lemma_region(map, 4, 0x10_0000, size, 1);
    } else {
        let size = (0xc000_0000 - 0x10_0000) as u64;
        let rest = (mem_size - 0xc000_0000) as u64;
        assert(map.subrange(80, 100) =~= crate::legacy::fw_cfg::e820_entry(0x10_0000, size, 1));
        assert(map.subrange(100, 120) =~= crate::legacy::fw_cfg::e820_entry(
            0x1_0000_0000,
            rest,
            1,
        ));
        lemma_region(map, 4, 0x10_0000, size, 1);
        lemma_region(map, 5, 0x1_0000_0000, rest, 1);
    }
}

/// What the firmware reads of an item: it writes the number of the item to the first port, and
/// reads `length` bytes at the second one.
pub open spec fn item_read(state: FwCfgState, selector: u16, length: nat) -> Seq<u8> {
    state.written(0, crate::bytes::le16_bytes(selector)).read(1, length).1
}

/// An item is read from its start on, and followed by zeros.
pub proof fn an_item_is_read_from_its_start(state: FwCfgState, selector: u16, length: nat)
    requires
        state.valid(),
        selector < 0x20 + state.items.len(),
        selector < 0x20 ==> state.known[selector as int].data.len() <= u32::MAX,
    ensures
        ({
            let data = if selector < 0x20 {
                state.known[selector as int].data
            } else {
                state.items[selector - 0x20].content.data
            };
            let got = item_read(state, selector, length);
            &&& got.len() == length
            &&& forall|i: int|
                0 <= i < length ==> #[trigger] got[i] == (if i < data.len() {
                    data[i]
                } else {
                    0
                })
        }),
{
    crate::bytes::le16_round_trip(selector);
    let selected = state.written(0, crate::bytes::le16_bytes(selector));
    if selector >= 0x20 {
        assert(state.items[selector - 0x20].content.data.len() <= u32::MAX);
    }
}

/// Where the directory has its entry of a file: after the count, 64 bytes for each.
pub open spec fn entry_at(i: int) -> int {
    4 + 64 * i
}

proof fn lemma_directory(items: Seq<Item>, i: int)
    requires
        0 <= i < items.len(),
    ensures
        ({
            let entries = crate::legacy::fw_cfg::directory_entries(items);
            &&& entries.len() == 64 * items.len()
            &&& entries.subrange(64 * i, 64 * i + 64) == crate::legacy::fw_cfg::directory_entry(
                items[i].name,
                items[i].content.data.len() as u32,
                (0x20 + i) as u16,
            )
        }),
    decreases items.len(),
{
    let n = items.len() - 1;
    let before = crate::legacy::fw_cfg::directory_entries(items.drop_last());
    if n > 0 {
        lemma_directory(
            items.drop_last(),
            if i < n {
                i
            } else {
                0
            },
        );
    }
    let entries = crate::legacy::fw_cfg::directory_entries(items);
    let last = crate::legacy::fw_cfg::directory_entry(
        items[n].name,
        items[n].content.data.len() as u32,
        (0x20 + n) as u16,
    );
    assert(entries == before + last);
    assert(before.len() == 64 * n);
    assert(last.len() == 64);
    if i < n {
        assert(entries.subrange(64 * i, 64 * i + 64) =~= before.subrange(64 * i, 64 * i + 64));
    } else {
        assert(entries.subrange(64 * n, 64 * n + 64) =~= last);
    }
}

/// The firmware finds every file in the directory, which is item 0x19: how many there are, and of
/// each one its size, its number, and its name, which ends with a zero. A file of that number
/// has that size.
pub proof fn the_directory_lists_every_file(state: FwCfgState, i: int)
    requires
        state.valid(),
        0 <= i < state.items.len(),
    ensures
        ({
            let directory = state.known[0x19].data;
            let at = entry_at(i);
            let name = vstd::utf8::encode_utf8(state.items[i].name);
            let kept = if name.len() < 56 {
                name.len() as int
            } else {
                55
            };
            let number = crate::bytes::big_number_at(directory, at + 4, 2);
            &&& directory.len() == 4 + 64 * state.items.len()
            &&& crate::bytes::big_number_at(directory, 0, 4) == state.items.len()
            &&& crate::bytes::big_number_at(directory, at, 4)
                == state.items[i].content.data.len()
            &&& number == 0x20 + i
            &&& directory.subrange(at + 8, at + 8 + kept) == name.take(kept)
            &&& forall|j: int| at + 8 + kept <= j < at + 64 ==> #[trigger] directory[j] == 0
            &&& (FwCfgState { selector: number as u16, ..state }).selected() == Some(
                state.items[i].content,
            )
        }),
{
    let directory = state.known[0x19].data;
    let at = entry_at(i);
    let size = state.items[i].content.data.len();
    let name = vstd::utf8::encode_utf8(state.items[i].name);
    let kept = if name.len() < 56 {
        name.len() as int
    } else {
        55
    };
    assert(size <= u32::MAX);
    lemma_directory(state.items, i);
    let entries = crate::legacy::fw_cfg::directory_entries(state.items);
    let entry = crate::legacy::fw_cfg::directory_entry(
        state.items[i].name,
        size as u32,
        (0x20 + i) as u16,
    );
    assert(directory.subrange(at, at + 64) =~= entries.subrange(64 * i, 64 * i + 64));
    crate::bytes::be_bytes_hold_the_value((0x20 + i) as u16, size as u32);
    crate::bytes::be_bytes_hold_the_value(0, state.items.len() as u32);
    assert(directory.subrange(0, 4) =~= crate::bytes::be32_bytes(state.items.len() as u32));
    assert(directory.subrange(at, at + 4) =~= entry.subrange(0, 4));
    assert(entry.subrange(0, 4) =~= crate::bytes::be32_bytes(size as u32));
    assert(directory.subrange(at + 4, at + 6) =~= entry.subrange(4, 6));
    assert(entry.subrange(4, 6) =~= crate::bytes::be16_bytes((0x20 + i) as u16));
    let padded = crate::legacy::fw_cfg::file_name(state.items[i].name);
    assert(entry.subrange(8, 64) =~= padded);
    assert forall|j: int| 0 <= j < 56 implies #[trigger] padded[j] == directory[at + 8 + j] by {
        assert(entry.subrange(8, 64)[j] == entry[8 + j]);
        assert(directory.subrange(at, at + 64)[8 + j] == directory[at + 8 + j]);
    }
    let shown = directory.subrange(at + 8, at + 8 + kept);
    assert forall|j: int| 0 <= j < kept implies shown[j] == name.take(kept)[j] by {
        assert(padded[j] == directory[at + 8 + j]);
    }
    assert(shown =~= name.take(kept));
    assert forall|j: int| at + 8 + kept <= j < at + 64 implies #[trigger] directory[j] == 0 by {
        assert(padded[j - at - 8] == directory[j]);
    }
}

/// A kernel that was added is found in two parts, its setup part in item 0x18 and the rest in
/// item 0x11, with their sizes in the items 0x17 and 0x08. The parts make up the image, but for
/// the number of the setup sectors and that of the boot loader, which are filled in unless the
/// image is measured. The setup part is the boot sector and as many sectors as the image says, or
/// four.
pub proof fn a_kernel_is_found_in_two_parts(state: FwCfgState, image: Seq<u8>, measured: bool)
    requires
        state.valid(),
        4096 <= image.len() <= u32::MAX,
        image.len() >= 512 * (1 + (if image[0x1f1] == 0 {
            4
        } else {
            image[0x1f1] as int
        })),
    ensures
        ({
            let (after, outcome) = state.kernel_added(image, measured);
            let sectors = if image[0x1f1] == 0 {
                4
            } else {
                image[0x1f1] as int
            };
            let (setup, rest) = (after.known[0x18].data, after.known[0x11].data);
            &&& outcome is Ok
            &&& setup.len() == 512 * (1 + sectors)
            &&& after.known[0x17].data.len() == 4 && crate::bytes::little_endian(
                after.known[0x17].data,
            ) == setup.len()
            &&& after.known[0x08].data.len() == 4 && crate::bytes::little_endian(
                after.known[0x08].data,
            ) == rest.len()
            &&& (setup + rest).len() == image.len()
            &&& forall|i: int|
                0 <= i < image.len() && (measured || i != 0x1f1 && i != 0x210) ==> #[trigger] (
                setup + rest)[i] == image[i]
            &&& !measured ==> setup[0x1f1] == sectors && setup[0x210] == 0xff
            &&& after.items == state.items
        }),
{
    let sectors = if image[0x1f1] == 0 {
        4
    } else {
        image[0x1f1] as int
    };
    let start = 512 * (1 + sectors);
    crate::bytes::le_bytes_hold_the_value(0, start as u32, 0);
    crate::bytes::le_bytes_hold_the_value(0, (image.len() - start) as u32, 0);
    assert(crate::legacy::fw_cfg::kernel_start(image) == start);
}

/// A command line is found in item 0x15, with its size in item 0x14; an initial RAM disk in item
/// 0x12, with its size in item 0x0b. Nothing else changes.
pub proof fn a_command_line_and_a_disk_are_found_whole(
    state: FwCfgState,
    line: Seq<u8>,
    disk: Seq<u8>,
)
    requires
        state.valid(),
        line.len() <= u32::MAX,
        disk.len() <= u32::MAX,
    ensures
        ({
            let after = state.cmdline_added(line).initramfs_added(disk);
            &&& after.known[0x15].data == line
            &&& after.known[0x14].data.len() == 4 && crate::bytes::little_endian(
                after.known[0x14].data,
            ) == line.len()
            &&& after.known[0x12].data == disk
            &&& after.known[0x0b].data.len() == 4 && crate::bytes::little_endian(
                after.known[0x0b].data,
            ) == disk.len()
            &&& forall|i: int|
                0 <= i < 0x20 && i != 0x0b && i != 0x12 && i != 0x14 && i != 0x15
                    ==> #[trigger] after.known[i] == state.known[i]
            &&& after.items == state.items
        }),
{
    crate::bytes::le_bytes_hold_the_value(0, line.len() as u32, 0);
    crate::bytes::le_bytes_hold_the_value(0, disk.len() as u32, 0);
}

/// The firmware knows the device by the name in item 0, and finds the number of its processors in
/// item 5.
pub proof fn the_device_names_itself(ram: crate::ram::Ram, vcpus: u32)
    ensures
        ({
            let state = crate::legacy::fw_cfg::fresh_state(ram, vcpus);
            &&& item_read(state, 0, 4) == seq![0x51u8, 0x45u8, 0x4du8, 0x55u8]
            &&& state.known[5].data.len() == 4
            &&& crate::bytes::little_endian(state.known[5].data) == vcpus
            &&& state.items.len() == 1
            &&& state.items[0].name == "etc/ramfb"@
            &&& state.items[0].content.data.len() == 28
        }),
{
    let state = crate::legacy::fw_cfg::fresh_state(ram, vcpus);
    crate::bytes::le_bytes_hold_the_value(0, vcpus, 0);
    crate::bytes::le16_round_trip(0);
    let got = item_read(state, 0, 4);
    assert(state.written(0, crate::bytes::le16_bytes(0)).selected() == Some(state.known[0]));
    assert(state.known[0].data.len() == 4);
    assert(got =~= seq![0x51u8, 0x45u8, 0x4du8, 0x55u8]);
}

proof fn lemma_control_bits(control: u32)
    by (bit_vector)
    ensures
        (control & 2 != 0) == (control / 2 % 2 == 1),
        (control & 4 != 0) == (control / 4 % 2 == 1),
        (control & 8 != 0) == (control / 8 % 2 == 1),
        (control & 16 != 0) == (control / 16 % 2 == 1),
{
}

/// A transfer to the guest, which bit 1 of its control word asks for, puts the next bytes of the
/// selected item at its address: as many as it has room for, or as are left. The next transfer
/// goes on behind what memory took.
pub proof fn a_transfer_puts_the_item_into_memory(
    state: FwCfgState,
    control: u32,
    length: u32,
    address: u64,
)
    requires
        control / 2 % 2 == 1,
        state.selected() matches Some(content) && content.data.len() <= u32::MAX
            && state.data_offset <= content.data.len(),
    ensures
        ({
            let (after, ok) = state.dma_done(control, length, address);
            let data = state.selected()->0.data;
            let left = data.len() - state.data_offset;
            let count: int = if length <= left {
                length as int
            } else {
                left
            };
            let bytes = Seq::new(count as nat, |i: int| data[state.data_offset + i]);
            let (ram, taken) = state.ram.write_present(address, bytes);
            &&& after.ram == ram
            &&& ok == (taken is Some)
            &&& taken matches Some(n) ==> after.data_offset == state.data_offset + n
            &&& after.items == state.items && after.known == state.known
        }),
{
    lemma_control_bits(control);
    let data = state.selected()->0.data;
    let from = state.data_offset as int;
    let to = if from + length <= data.len() {
        from + length
    } else {
        data.len() as int
    };
    let bytes = Seq::new((to - from) as nat, |i: int| data[from + i]);
    assert(data.subrange(from, to) =~= bytes);
    let (loaded, memory) = state.ram.loaded();
    let regions = crate::ram::memory_regions(memory);
    crate::ram::lemma_reach_bounded(crate::ram::backed_by(regions), address, bytes.len());
}

/// A transfer is described by sixteen bytes at the address that the guest gave: the control word,
/// the length and the address of its data. Bit 3 starts over at the front of the item, bit 2 skips
/// bytes of it. The control word is then replaced by zero, or by one where it failed.
pub proof fn sixteen_bytes_describe_a_transfer(state: FwCfgState)
    requires
        state.ram.read_present(state.dma_address, 16).1 is Some,
    ensures
        ({
            let (ram, got) = state.ram.read_present(state.dma_address, 16);
            let bytes = (got->Some_0).1;
            let control = crate::bytes::big_number_at(bytes, 0, 4);
            let length = crate::bytes::big_number_at(bytes, 4, 4);
            let address = crate::bytes::big_number_at(bytes, 8, 8);
            let started = FwCfgState {
                ram,
                data_offset: if control / 8 % 2 == 1 {
                    0
                } else {
                    state.data_offset
                },
                ..state
            };
            let (done, ok) = started.dma_done(control as u32, length as u32, address as u64);
            let outcome = if ok {
                seq![0u8, 0u8, 0u8, 0u8]
            } else {
                seq![0u8, 0u8, 0u8, 1u8]
            };
            let after = state.dma_accessed();
            &&& bytes.len() == 16
            &&& after.ram == done.ram.write_present(state.dma_address, outcome).0
            &&& after.data_offset == done.data_offset && after.items == done.items
            &&& control / 2 % 2 == 0 && control / 16 % 2 == 0 && control / 4 % 2 == 1
                && started.data_offset + length <= u32::MAX ==> ok && after.data_offset
                == started.data_offset + length
            &&& control / 2 % 2 == 0 && control / 16 % 2 == 0 && control / 4 % 2 == 0 ==> !ok
        }),
{
    let bytes = (state.ram.read_present(state.dma_address, 16).1->Some_0).1;
    let (loaded, memory) = state.ram.loaded();
    let regions = crate::ram::memory_regions(memory);
    crate::ram::lemma_reach_bounded(crate::ram::backed_by(regions), state.dma_address, 16);
    assert(bytes.len() == 16);
    crate::bytes::be32_is_a_number(bytes, 0);
    crate::bytes::be32_is_a_number(bytes, 4);
    crate::bytes::be64_is_a_number(bytes, 8);
    lemma_control_bits(crate::bytes::be32(bytes, 0));
    assert(crate::bytes::be32_bytes(0) =~= seq![0u8, 0u8, 0u8, 0u8]);
    assert(crate::bytes::be32_bytes(1) =~= seq![0u8, 0u8, 0u8, 1u8]);
}

/// The upper half of the address of a transfer is written at 4, the lower one at 8; they are read
/// back there, and the upper one leaves the lower one as it is.
pub proof fn the_address_of_a_transfer_has_two_halves(state: FwCfgState, high: u32)
    ensures
        ({
            let first = state.written(4, crate::bytes::be32_bytes(high));
            let address = first.dma_address;
            &&& address / 0x1_0000_0000 == high
            &&& address % 0x1_0000_0000 == state.dma_address % 0x1_0000_0000
            &&& crate::bytes::big_endian(first.read(4, 4).1) == high
            &&& crate::bytes::big_endian(first.read(8, 4).1) == state.dma_address % 0x1_0000_0000
        }),
{
    crate::bytes::be32_round_trip(high);
    crate::bytes::be_bytes_hold_the_value(0, high);
    crate::bytes::be_bytes_hold_the_value(0, (state.dma_address % 0x1_0000_0000) as u32);
}

/// A transfer from the guest, which bit 4 of its control word asks for, puts the bytes of guest
/// memory into the file of the framebuffer, from the cursor on. It has to fit, and no other file
/// takes one.
pub proof fn a_transfer_fills_the_framebuffer_file(
    state: FwCfgState,
    control: u32,
    length: u32,
    address: u64,
    i: int,
)
    requires
        state.valid(),
        control / 2 % 2 == 0,
        control / 16 % 2 == 1,
        state.selector >= 0x20,
        state.selector - 0x20 < state.items.len(),
    ensures
        ({
            let (after, ok) = state.dma_done(control, length, address);
            let file = state.selector - 0x20;
            let item = state.items[file];
            let old_data = item.content.data;
            let data = after.items[file].content.data;
            let got = state.ram.read_present(address, length as nat).1;
            let whole = got matches Some((count, _)) && count == length;
            &&& ok <==> item.name == "etc/ramfb"@ && item.content.owned && whole
                && state.data_offset + length <= old_data.len()
            &&& ok ==> data.len() == old_data.len() && (0 <= i < data.len() ==> data[i] == (if
            state.data_offset <= i < state.data_offset + length {
                (got->Some_0).1[i - state.data_offset]
            } else {
                old_data[i]
            })) && after.data_offset == state.data_offset + length
            &&& !ok ==> after.items == state.items && after.data_offset == state.data_offset
        }),
{
    lemma_control_bits(control);
    let (loaded, memory) = state.ram.loaded();
    let regions = crate::ram::memory_regions(memory);
    crate::ram::lemma_reach_bounded(crate::ram::backed_by(regions), address, length as nat);
    let file = state.selector - 0x20;
    let old_data = state.items[file].content.data;
    assert(state.written_file() == file);
    assert(old_data.len() <= u32::MAX);
    assert(state.dma_done(control, length, address) == state.dma_write(length, address));
    if let Some((count, bytes)) = state.ram.read_present(address, length as nat).1 {
        assert(bytes.len() == length);
    }
}

} // verus!
