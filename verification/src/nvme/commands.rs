//! What the commands of a driver lead to: the blocks that they name, the pages that their data
//! goes through, and the completions that the driver finds.
use vstd::prelude::*;

use crate::nvme::controller::{DiskOp, IoOutcome, Nvme};
use crate::guest_memory::{PROT_READ, PROT_WRITE};
use crate::nvme::{Error, NvmeCqe};
use crate::ram::{Mapped, Ram, RamAccess};

verus! {

/// The numbers of a submission entry are those at their places in its 64 bytes.
pub proof fn an_entry_holds_its_numbers(entry: Seq<u8>)
    requires
        entry.len() == 64,
    ensures
        ({
            let sqe = crate::nvme::sqe_of(entry);
            &&& sqe.opcode_spec() == entry[0]
            &&& sqe.command_id_spec() == crate::bytes::number_at(entry, 2, 2)
            &&& sqe.nsid == crate::bytes::number_at(entry, 8, 4)
            &&& sqe.prp1_spec() == crate::bytes::number_at(entry, 24, 8)
            &&& sqe.prp2_spec() == crate::bytes::number_at(entry, 32, 8)
            &&& sqe.cdw10 == crate::bytes::number_at(entry, 40, 4)
            &&& sqe.cdw11 == crate::bytes::number_at(entry, 44, 4)
            &&& sqe.slba() == crate::bytes::number_at(entry, 40, 8)
            &&& sqe.blocks() == crate::bytes::number_at(entry, 48, 2) + 1
        }),
{
    crate::bytes::le32_is_a_number(entry, 8);
    crate::bytes::le32_is_a_number(entry, 40);
    crate::bytes::le32_is_a_number(entry, 44);
    crate::bytes::le16_is_a_number(entry, 2);
    crate::bytes::le16_is_a_number(entry, 48);
    crate::bytes::le64_is_a_number(entry, 24);
    crate::bytes::le64_is_a_number(entry, 32);
    crate::bytes::le64_is_a_number(entry, 40);
    assert(crate::bytes::le16(entry, 0) == entry[0] + 0x100 * entry[1]);
}

/// Every command of an I/O queue leads to what its 64 bytes name. A read and a write go to the
/// block whose number stands in the bytes 40 to 47, and to as many blocks as the bytes 48 and 49
/// say, and one more; they have to lie on the disk. Two commands that name different blocks thus
/// never reach the same place.
pub proof fn an_io_command_reaches_the_blocks_it_names(state: Nvme, entry: Seq<u8>)
    requires
        state.valid(),
        entry.len() == 64,
    ensures
        ({
            let (after, outcome) = state.io_done(crate::nvme::sqe_of(entry));
            let first = crate::bytes::number_at(entry, 40, 8);
            let count = crate::bytes::number_at(entry, 48, 2) + 1;
            let namespace = crate::bytes::number_at(entry, 8, 4);
            let (prp1, prp2) = (
                crate::bytes::number_at(entry, 24, 8) as u64,
                crate::bytes::number_at(entry, 32, 8) as u64,
            );
            let taken = crate::nvme::prp::prp_read(state.ram, prp1, prp2, (512 * count) as nat).1;
            if entry[0] == 0 {
                outcome == (if state.readonly {
                    IoOutcome::Status(0)
                } else {
                    IoOutcome::Disk(DiskOp::Flush)
                })
            } else if entry[0] > 2 {
                outcome == IoOutcome::Status(1)
            } else if entry[0] == 1 && state.readonly {
                outcome == IoOutcome::Status(2)
            } else if namespace > 1 {
                outcome is Status && outcome->Status_0 != 0
            } else if first + count > state.capacity {
                outcome == IoOutcome::Status(2)
            } else if entry[0] == 2 {
                &&& outcome matches IoOutcome::Disk(DiskOp::Read { offset, length }) && offset == 512
                    * first && length == 512 * count
                &&& after == state
            } else {
                match taken {
                    Ok(bytes) => outcome matches IoOutcome::Disk(DiskOp::Write { offset, data })
                        && offset == 512 * first && data == bytes && data.len() == 512 * count,
                    Err(_) => outcome is Status && outcome->Status_0 != 0,
                }
            }
        }),
{
    let sqe = crate::nvme::sqe_of(entry);
    an_entry_holds_its_numbers(entry);
    crate::nvme::prp::transfers_are_whole(
        state.ram,
        sqe.prp1_spec(),
        sqe.prp2_spec(),
        (512 * sqe.blocks()) as nat,
    );
    if sqe.slba() + sqe.blocks() <= state.capacity {
        assert(512 * sqe.slba() <= 512 * state.capacity);
    }
}

/// What guest memory holds at each address.
pub type Contents = spec_fn(int) -> u8;

/// The entry of a list of pages: an address of eight bytes.
pub open spec fn list_entry(contents: Contents, list: int, k: int) -> nat {
    crate::bytes::little_endian(Seq::new(8, |j: int| contents(list + 8 * k + j)))
}

/// The number of a page after the first one in a list.
pub open spec fn listed(contents: Contents, list: int, i: int) -> int {
    list_entry(contents, list, i / 4096) + i % 4096
}

/// Where byte `i` of a transfer of `length` bytes lies in guest memory: from the first entry on
/// up to the end of its page; then in the page that the second entry names, or the next one
/// where there is no second entry; or, where two pages are too small, in the pages that the list
/// at the second entry names.
pub open spec fn place(contents: Contents, prp1: u64, prp2: u64, length: int, i: int) -> int {
    let start = prp1 % 4096;
    if start + i < 4096 {
        prp1 + i
    } else if start + length <= 8192 {
        (if prp2 != 0 {
            prp2 as int
        } else {
            prp1 - start + 4096
        }) + (start + i - 4096)
    } else {
        listed(contents, prp2 as int, start + i - 4096)
    }
}

/// Whether a memory holds an address and allows the access.
pub open spec fn present(memory: Mapped, flag: i32, address: int) -> bool {
    let regions = crate::ram::memory_regions(memory);
    &&& 0 <= address <= u64::MAX
    &&& crate::ram::backed_by(regions).contains(address as u64)
    &&& crate::ram::open_to(regions, flag).contains(address as u64)
}

/// Whether the first `pages` entries of a list can be read, and name pages.
pub open spec fn list_present(memory: Mapped, contents: Contents, list: int, pages: int) -> bool {
    &&& forall|a: int| list <= a < list + 8 * pages ==> #[trigger] present(memory, PROT_READ, a)
    &&& list + 8 * pages <= u64::MAX
    &&& forall|k: int| 0 <= k < pages ==> #[trigger] list_entry(contents, list, k) != 0
}

/// Whether a transfer can be made: there are entries for it, and the memory holds all of its
/// bytes.
pub open spec fn transferable(
    memory: Mapped,
    flag: i32,
    contents: Contents,
    prp1: u64,
    prp2: u64,
    length: int,
) -> bool {
    let start = prp1 % 4096;
    &&& prp1 != 0
    &&& 0 < length <= 0x200_0000
    &&& start + length <= 4096 || prp2 != 0 || (start != 0 && start + length <= 8192)
    &&& forall|i: int|
        0 <= i < length ==> present(
            memory,
            flag,
            #[trigger] place(contents, prp1, prp2, length, i),
        )
    &&& start + length > 8192 ==> list_present(
        memory,
        contents,
        prp2 as int,
        (start + length - 4096 + 4095) / 4096,
    )
}

/// Whether guest memory holds some bytes from an address on.
pub open spec fn holds_bytes(contents: Contents, address: int, data: Seq<u8>) -> bool {
    forall|j: int| 0 <= j < data.len() ==> #[trigger] data[j] == contents(address + j)
}

/// Whether an access found what the memory holds.
pub open spec fn found(access: RamAccess, contents: Contents) -> bool {
    match access {
        RamAccess::Read { address, data, .. } => holds_bytes(contents, address as int, data),
        _ => true,
    }
}

/// Whether the accesses from one on found what the memory holds.
pub open spec fn all_found(accesses: Seq<RamAccess>, from: nat, contents: Contents) -> bool {
    forall|n: int| from <= n < accesses.len() ==> found(#[trigger] accesses[n], contents)
}

proof fn lemma_whole(memory: Mapped, flag: i32, address: u64, length: nat)
    requires
        forall|a: int| address <= a < address + length ==> #[trigger] present(memory, flag, a),
    ensures
        ({
            let regions = crate::ram::memory_regions(memory);
            let backed = crate::ram::backed_by(regions);
            &&& crate::ram::permitted(backed, crate::ram::open_to(regions, flag), address, length)
            &&& crate::ram::reach(backed, address, length) == length
        }),
{
    let regions = crate::ram::memory_regions(memory);
    let backed = crate::ram::backed_by(regions);
    let open = crate::ram::open_to(regions, flag);
    assert forall|a: u64| address <= a < address + length implies backed.contains(a) by {
        assert(present(memory, flag, a as int));
    }
    assert forall|a: u64| address <= a < address + length implies open.contains(a) by {
        assert(present(memory, flag, a as int));
    }
    if length > 0 {
        assert(present(memory, flag, address + length - 1));
    }
    crate::ram::backed_ranges_are_copied_whole(backed, open, address, length);
}

proof fn lemma_page_found(ram: Ram, memory: Mapped, address: u64, length: nat)
    requires
        0 < length <= 0x200_0000,
        forall|a: int|
            address <= a < address + length ==> #[trigger] present(memory, PROT_READ, a),
    ensures
        ({
            let data = ram.answer(length);
            &&& data.len() == length
            &&& crate::nvme::prp::page_read(ram, memory, address, length) == (
                ram.plus(RamAccess::Read { memory, address, data }),
                Ok::<Seq<u8>, Error>(data),
            )
        }),
{
    lemma_whole(memory, PROT_READ, address, length);
    let data = ram.answer(length);
    assert(data + crate::bytes::zeros(0) =~= data);
}

proof fn lemma_list_extends(ram: Ram, memory: Mapped, list: u64, length: nat)
    ensures
        ram.accesses.is_prefix_of(
            crate::nvme::prp::list_read(ram, memory, list, length).0.accesses,
        ),
        length > 0 ==> crate::nvme::prp::page_read(
            ram,
            memory,
            list,
            8,
        ).0.accesses.is_prefix_of(
            crate::nvme::prp::list_read(ram, memory, list, length).0.accesses,
        ),
    decreases length,
{
    if length > 0 {
        let (fetched, entry) = crate::nvme::prp::page_read(ram, memory, list, 8);
        assert(ram.accesses.is_prefix_of(fetched.accesses));
        if let Ok(entry) = entry {
            let page = crate::bytes::le64(entry, 0);
            let size = crate::nvme::prp::page_part(length);
            let (copied, head) = crate::nvme::prp::page_read(fetched, memory, page, size);
            assert(fetched.accesses.is_prefix_of(copied.accesses));
            if page != 0 && head is Ok && length != size && list + 8 <= u64::MAX {
                let rest = (length - size) as nat;
                let next = (list + 8) as u64;
                lemma_list_extends(copied, memory, next, rest);
                let done = crate::nvme::prp::list_read(copied, memory, next, rest).0;
                lemma_prefixes_join(fetched.accesses, copied.accesses, done.accesses);
                lemma_prefixes_join(ram.accesses, fetched.accesses, done.accesses);
            } else if page != 0 {
                lemma_prefixes_join(ram.accesses, fetched.accesses, copied.accesses);
            }
        }
    }
}

proof fn lemma_prefixes_join(a: Seq<RamAccess>, b: Seq<RamAccess>, c: Seq<RamAccess>)
    requires
        a.is_prefix_of(b),
        b.is_prefix_of(c),
    ensures
        a.is_prefix_of(c),
{
    assert forall|i: int| 0 <= i < a.len() implies a[i] == c[i] by {
        lemma_prefix_index(a, b, i);
        lemma_prefix_index(b, c, i);
    }
    assert(a =~= c.subrange(0, a.len() as int));
}

proof fn lemma_prefix_index(a: Seq<RamAccess>, b: Seq<RamAccess>, i: int)
    requires
        a.is_prefix_of(b),
        0 <= i < a.len(),
    ensures
        a.len() <= b.len(),
        a[i] == b[i],
{
    assert(b.subrange(0, a.len() as int)[i] == b[i]);
}

proof fn lemma_entry_found(data: Seq<u8>, contents: Contents, list: u64)
    requires
        data.len() == 8,
        forall|j: int| 0 <= j < 8 ==> #[trigger] data[j] == contents(list + j),
    ensures
        crate::bytes::le64(data, 0) == list_entry(contents, list as int, 0),
{
    crate::bytes::le64_is_a_number(data, 0);
    assert(data.subrange(0, 8) =~= Seq::new(8, |j: int| contents(list + 8 * 0 + j)));
}

proof fn lemma_list_moves(contents: Contents, list: int, k: int, i: int)
    requires
        0 <= i,
    ensures
        list_entry(contents, list + 8, k) == list_entry(contents, list, k + 1),
        listed(contents, list + 8, i) == listed(contents, list, i + 4096),
{
    assert(Seq::new(8, |j: int| contents(list + 8 + 8 * k + j)) =~= Seq::new(
        8,
        |j: int| contents(list + 8 * (k + 1) + j),
    ));
    let n = i / 4096;
    assert((i + 4096) / 4096 == n + 1 && (i + 4096) % 4096 == i % 4096);
    assert(Seq::new(8, |j: int| contents(list + 8 + 8 * n + j)) =~= Seq::new(
        8,
        |j: int| contents(list + 8 * (n + 1) + j),
    ));
}

proof fn lemma_byte_found(memory: Mapped, address: u64, data: Seq<u8>, contents: Contents, i: int)
    requires
        found(RamAccess::Read { memory, address, data }, contents),
        0 <= i < data.len(),
    ensures
        data[i] == contents(address + i),
{
    assert(holds_bytes(contents, address as int, data));
}

proof fn lemma_list_found(ram: Ram, memory: Mapped, contents: Contents, list: u64, length: nat)
    requires
        0 < length <= 0x200_0000,
        list_present(memory, contents, list as int, (length + 4095) as int / 4096),
        forall|i: int|
            0 <= i < length ==> present(
                memory,
                PROT_READ,
                #[trigger] listed(contents, list as int, i),
            ),
        all_found(
            crate::nvme::prp::list_read(ram, memory, list, length).0.accesses,
            ram.accesses.len(),
            contents,
        ),
    ensures
        crate::nvme::prp::list_read(ram, memory, list, length).1 matches Ok(bytes) && bytes.len()
            == length && forall|i: int|
            0 <= i < length ==> #[trigger] bytes[i] == contents(listed(contents, list as int, i)),
    decreases length,
{
    let pages = (length + 4095) as int / 4096;
    let last = crate::nvme::prp::list_read(ram, memory, list, length).0;
    assert(pages >= 1);
    assert forall|a: int| list <= a < list + 8 implies #[trigger] present(memory, PROT_READ, a) by {
        assert(list <= a < list + 8 * pages);
    }
    lemma_page_found(ram, memory, list, 8);
    let entry = ram.answer(8);
    let fetched = ram.plus(RamAccess::Read { memory, address: list, data: entry });
    let at = ram.accesses.len() as int;
    let page = crate::bytes::le64(entry, 0);
    let size = crate::nvme::prp::page_part(length);
    let (copied, head) = crate::nvme::prp::page_read(fetched, memory, page, size);
    lemma_list_extends(ram, memory, list, length);
    assert(fetched.accesses[at] == (RamAccess::Read { memory, address: list, data: entry }));
    // The entry is what the memory holds.
    lemma_prefix_index(fetched.accesses, last.accesses, at);
    assert(found(last.accesses[at], contents));
    assert(found(RamAccess::Read { memory, address: list, data: entry }, contents));
    assert forall|j: int| 0 <= j < 8 implies #[trigger] entry[j] == contents(list + j) by {}
    lemma_entry_found(entry, contents, list);
    assert(list_entry(contents, list as int, 0) != 0);
    assert forall|a: int| page <= a < page + size implies #[trigger] present(
        memory,
        PROT_READ,
        a,
    ) by {
        let i = a - page;
        assert(i / 4096 == 0 && i % 4096 == i);
        assert(listed(contents, list as int, i) == a);
    }
    lemma_page_found(fetched, memory, page, size);
    let data = fetched.answer(size);
    assert(copied.accesses[at + 1] == (RamAccess::Read { memory, address: page, data }));
    if length == size {
        assert(last == copied);
        assert(found(last.accesses[at + 1], contents));
        assert forall|i: int| 0 <= i < length implies #[trigger] data[i] == contents(
            listed(contents, list as int, i),
        ) by {
            assert(i / 4096 == 0 && i % 4096 == i);
            lemma_byte_found(memory, page, data, contents, i);
        }
    } else {
        let next = (list + 8) as u64;
        let rest = (length - size) as nat;
        let done = crate::nvme::prp::list_read(copied, memory, next, rest).0;
        lemma_list_extends(copied, memory, next, rest);
        assert(done == last);
        lemma_prefix_index(copied.accesses, last.accesses, at + 1);
        assert(found(last.accesses[at + 1], contents));
        assert((rest + 4095) as int / 4096 == pages - 1);
        assert forall|k: int| 0 <= k < pages - 1 implies #[trigger] list_entry(
            contents,
            next as int,
            k,
        ) != 0 by {
            lemma_list_moves(contents, list as int, k, 0);
            assert(list_entry(contents, list as int, k + 1) != 0);
        }
        assert forall|i: int| 0 <= i < rest implies present(
            memory,
            PROT_READ,
            #[trigger] listed(contents, next as int, i),
        ) by {
            lemma_list_moves(contents, list as int, 0, i);
            assert(present(memory, PROT_READ, listed(contents, list as int, i + 4096)));
        }
        lemma_list_found(copied, memory, contents, next, rest);
        let tail = crate::nvme::prp::list_read(copied, memory, next, rest).1->Ok_0;
        assert forall|i: int| 0 <= i < length implies #[trigger] (data + tail)[i] == contents(
            listed(contents, list as int, i),
        ) by {
            if i < size {
                assert(i / 4096 == 0 && i % 4096 == i);
                lemma_byte_found(memory, page, data, contents, i);
            } else {
                lemma_list_moves(contents, list as int, 0, i - 4096);
                assert(tail[i - 4096] == contents(listed(contents, next as int, i - 4096)));
            }
        }
    }
}

/// What a write command takes from guest memory is what the memory holds where its two entries
/// lead, byte for byte. A transfer whose pages are all in memory does not fail.
pub proof fn data_is_taken_from_where_the_entries_lead(
    ram: Ram,
    contents: Contents,
    prp1: u64,
    prp2: u64,
    length: nat,
)
    requires
        transferable(ram.loaded().1, PROT_READ, contents, prp1, prp2, length as int),
        all_found(
            crate::nvme::prp::prp_read(ram, prp1, prp2, length).0.accesses,
            ram.accesses.len(),
            contents,
        ),
    ensures
        crate::nvme::prp::prp_read(ram, prp1, prp2, length).1 matches Ok(bytes) && bytes.len()
            == length && forall|i: int|
            0 <= i < length ==> #[trigger] bytes[i] == contents(
                place(contents, prp1, prp2, length as int, i),
            ),
{
    let (loaded, memory) = ram.loaded();
    let start = prp1 as int % 4096;
    let first = crate::nvme::prp::first_part(prp1, length);
    let rest = (length - first) as nat;
    let last = crate::nvme::prp::prp_read(ram, prp1, prp2, length).0;
    let at = loaded.accesses.len() as int;
    assert forall|a: int| prp1 <= a < prp1 + first implies #[trigger] present(
        memory,
        PROT_READ,
        a,
    ) by {
        assert(place(contents, prp1, prp2, length as int, a - prp1) == a);
    }
    lemma_page_found(loaded, memory, prp1, first);
    let head = loaded.answer(first);
    let started = loaded.plus(RamAccess::Read { memory, address: prp1, data: head });
    assert(started.accesses[at] == (RamAccess::Read { memory, address: prp1, data: head }));
    if rest == 0 {
        assert(last == started);
        assert(found(last.accesses[at], contents));
        assert forall|i: int| 0 <= i < length implies #[trigger] head[i] == contents(
            place(contents, prp1, prp2, length as int, i),
        ) by {
            lemma_byte_found(memory, prp1, head, contents, i);
        }
    } else if start + length <= 8192 {
        let page = if prp2 != 0 {
            prp2 as int
        } else {
            prp1 - start + 4096
        };
        assert(place(contents, prp1, prp2, length as int, first as int) == page);
        assert(0 <= page <= u64::MAX);
        assert forall|a: int| page <= a < page + rest implies #[trigger] present(
            memory,
            PROT_READ,
            a,
        ) by {
            assert(place(contents, prp1, prp2, length as int, first + a - page) == a);
        }
        lemma_page_found(started, memory, page as u64, rest);
        let tail = started.answer(rest);
        assert(last.accesses[at] == started.accesses[at]);
        assert(last.accesses[at + 1] == (RamAccess::Read {
            memory,
            address: page as u64,
            data: tail,
        }));
        assert(found(last.accesses[at], contents));
        assert(found(last.accesses[at + 1], contents));
        assert forall|i: int| 0 <= i < length implies #[trigger] (head + tail)[i] == contents(
            place(contents, prp1, prp2, length as int, i),
        ) by {
            if i < first {
                lemma_byte_found(memory, prp1, head, contents, i);
            } else {
                lemma_byte_found(memory, page as u64, tail, contents, i - first);
            }
        }
    } else {
        let done = crate::nvme::prp::list_read(started, memory, prp2, rest).0;
        assert(last == done);
        lemma_list_extends(started, memory, prp2, rest);
        lemma_prefix_index(started.accesses, last.accesses, at);
        assert(found(last.accesses[at], contents));
        assert forall|i: int| 0 <= i < rest implies present(
            memory,
            PROT_READ,
            #[trigger] listed(contents, prp2 as int, i),
        ) by {
            assert(place(contents, prp1, prp2, length as int, first + i) == listed(
                contents,
                prp2 as int,
                i,
            ));
        }
        lemma_list_found(started, memory, contents, prp2, rest);
        let tail = crate::nvme::prp::list_read(started, memory, prp2, rest).1->Ok_0;
        assert forall|i: int| 0 <= i < length implies #[trigger] (head + tail)[i] == contents(
            place(contents, prp1, prp2, length as int, i),
        ) by {
            if i < first {
                lemma_byte_found(memory, prp1, head, contents, i);
            } else {
                assert(tail[i - first] == contents(listed(contents, prp2 as int, i - first)));
            }
        }
    }
}

/// Whether some access from one on puts a byte at an address of a memory.
pub open spec fn puts(accesses: Seq<RamAccess>, from: nat, memory: Mapped, address: int, byte: u8) -> bool {
    exists|n: int|
        from <= n < accesses.len() && put_by(#[trigger] accesses[n], memory, address, byte)
}

/// Whether an access puts a byte at an address of a memory.
pub open spec fn put_by(access: RamAccess, memory: Mapped, address: int, byte: u8) -> bool {
    match access {
        RamAccess::Write { memory: target, address: start, data } => {
            &&& target == memory
            &&& start <= address < start + data.len()
            &&& data[address - start] == byte
        },
        _ => false,
    }
}

proof fn lemma_page_put(ram: Ram, memory: Mapped, address: u64, data: Seq<u8>)
    requires
        0 < data.len() <= 0x200_0000,
        forall|a: int|
            address <= a < address + data.len() ==> #[trigger] present(memory, PROT_WRITE, a),
    ensures
        crate::nvme::prp::page_write(ram, memory, address, data) == (
            ram.plus(RamAccess::Write { memory, address, data }),
            Ok::<(), Error>(()),
        ),
{
    lemma_whole(memory, PROT_WRITE, address, data.len());
    assert(data.take(data.len() as int) =~= data);
}

proof fn lemma_list_write_extends(ram: Ram, memory: Mapped, list: u64, data: Seq<u8>)
    ensures
        ram.accesses.is_prefix_of(crate::nvme::prp::list_write(ram, memory, list, data).0.accesses),
        data.len() > 0 ==> crate::nvme::prp::page_read(
            ram,
            memory,
            list,
            8,
        ).0.accesses.is_prefix_of(
            crate::nvme::prp::list_write(ram, memory, list, data).0.accesses,
        ),
    decreases data.len(),
{
    if data.len() > 0 {
        let (fetched, entry) = crate::nvme::prp::page_read(ram, memory, list, 8);
        assert(ram.accesses.is_prefix_of(fetched.accesses));
        if let Ok(entry) = entry {
            let page = crate::bytes::le64(entry, 0);
            let size = crate::nvme::prp::page_part(data.len()) as int;
            let (copied, outcome) = crate::nvme::prp::page_write(
                fetched,
                memory,
                page,
                data.take(size),
            );
            assert(fetched.accesses.is_prefix_of(copied.accesses));
            if page != 0 && outcome is Ok && data.len() != size && list + 8 <= u64::MAX {
                let rest = data.skip(size);
                let next = (list + 8) as u64;
                lemma_list_write_extends(copied, memory, next, rest);
                let done = crate::nvme::prp::list_write(copied, memory, next, rest).0;
                lemma_prefixes_join(fetched.accesses, copied.accesses, done.accesses);
                lemma_prefixes_join(ram.accesses, fetched.accesses, done.accesses);
            } else if page != 0 {
                lemma_prefixes_join(ram.accesses, fetched.accesses, copied.accesses);
            }
        }
    }
}

proof fn lemma_list_put(ram: Ram, memory: Mapped, contents: Contents, list: u64, data: Seq<u8>)
    requires
        0 < data.len() <= 0x200_0000,
        list_present(memory, contents, list as int, (data.len() + 4095) as int / 4096),
        forall|i: int|
            0 <= i < data.len() ==> present(
                memory,
                PROT_WRITE,
                #[trigger] listed(contents, list as int, i),
            ),
        all_found(
            crate::nvme::prp::list_write(ram, memory, list, data).0.accesses,
            ram.accesses.len(),
            contents,
        ),
    ensures
        crate::nvme::prp::list_write(ram, memory, list, data).1 is Ok,
        forall|i: int|
            0 <= i < data.len() ==> puts(
                crate::nvme::prp::list_write(ram, memory, list, data).0.accesses,
                ram.accesses.len(),
                memory,
                listed(contents, list as int, i),
                #[trigger] data[i],
            ),
    decreases data.len(),
{
    let length = data.len();
    let pages = (length + 4095) as int / 4096;
    let last = crate::nvme::prp::list_write(ram, memory, list, data).0;
    assert(pages >= 1);
    assert forall|a: int| list <= a < list + 8 implies #[trigger] present(memory, PROT_READ, a) by {
        assert(list <= a < list + 8 * pages);
    }
    lemma_page_found(ram, memory, list, 8);
    let entry = ram.answer(8);
    let fetched = ram.plus(RamAccess::Read { memory, address: list, data: entry });
    let at = ram.accesses.len() as int;
    let page = crate::bytes::le64(entry, 0);
    let size = crate::nvme::prp::page_part(length) as int;
    let head = data.take(size);
    let (copied, outcome) = crate::nvme::prp::page_write(fetched, memory, page, head);
    lemma_list_write_extends(ram, memory, list, data);
    assert(fetched.accesses[at] == (RamAccess::Read { memory, address: list, data: entry }));
    lemma_prefix_index(fetched.accesses, last.accesses, at);
    assert(found(last.accesses[at], contents));
    assert(found(RamAccess::Read { memory, address: list, data: entry }, contents));
    assert forall|j: int| 0 <= j < 8 implies #[trigger] entry[j] == contents(list + j) by {}
    lemma_entry_found(entry, contents, list);
    assert(list_entry(contents, list as int, 0) != 0);
    assert forall|a: int| page <= a < page + size implies #[trigger] present(
        memory,
        PROT_WRITE,
        a,
    ) by {
        let i = a - page;
        assert(i / 4096 == 0 && i % 4096 == i);
        assert(listed(contents, list as int, i) == a);
    }
    lemma_page_put(fetched, memory, page, head);
    let access = RamAccess::Write { memory, address: page, data: head };
    assert(copied.accesses[at + 1] == access);
    if length == size {
        assert(last == copied);
    } else {
        let next = (list + 8) as u64;
        let rest = data.skip(size);
        lemma_list_write_extends(copied, memory, next, rest);
        assert(last == crate::nvme::prp::list_write(copied, memory, next, rest).0);
        lemma_prefix_index(copied.accesses, last.accesses, at + 1);
        assert((rest.len() + 4095) as int / 4096 == pages - 1);
        assert forall|k: int| 0 <= k < pages - 1 implies #[trigger] list_entry(
            contents,
            next as int,
            k,
        ) != 0 by {
            lemma_list_moves(contents, list as int, k, 0);
            assert(list_entry(contents, list as int, k + 1) != 0);
        }
        assert forall|i: int| 0 <= i < rest.len() implies present(
            memory,
            PROT_WRITE,
            #[trigger] listed(contents, next as int, i),
        ) by {
            lemma_list_moves(contents, list as int, 0, i);
            assert(present(memory, PROT_WRITE, listed(contents, list as int, i + 4096)));
        }
        lemma_list_put(copied, memory, contents, next, rest);
    }
    assert forall|i: int| 0 <= i < length implies puts(
        last.accesses,
        ram.accesses.len(),
        memory,
        listed(contents, list as int, i),
        #[trigger] data[i],
    ) by {
        let address = listed(contents, list as int, i);
        if i < size {
            assert(i / 4096 == 0 && i % 4096 == i);
            assert(head[i] == data[i]);
            assert(put_by(last.accesses[at + 1], memory, address, data[i]));
        } else {
            let rest = data.skip(size);
            lemma_list_moves(contents, list as int, 0, i - 4096);
            assert(rest[i - 4096] == data[i]);
            let n = choose|n: int|
                copied.accesses.len() <= n < last.accesses.len() && put_by(
                    #[trigger] last.accesses[n],
                    memory,
                    address,
                    data[i],
                );
            assert(put_by(last.accesses[n], memory, address, data[i]));
        }
    }
}

/// What a read command delivers is put where its two entries lead, byte for byte.
pub proof fn data_is_put_where_the_entries_lead(
    ram: Ram,
    contents: Contents,
    prp1: u64,
    prp2: u64,
    data: Seq<u8>,
)
    requires
        transferable(ram.loaded().1, PROT_WRITE, contents, prp1, prp2, data.len() as int),
        all_found(
            crate::nvme::prp::prp_write(ram, prp1, prp2, data).0.accesses,
            ram.accesses.len(),
            contents,
        ),
    ensures
        crate::nvme::prp::prp_write(ram, prp1, prp2, data).1 is Ok,
        forall|i: int|
            0 <= i < data.len() ==> puts(
                crate::nvme::prp::prp_write(ram, prp1, prp2, data).0.accesses,
                ram.accesses.len(),
                ram.loaded().1,
                place(contents, prp1, prp2, data.len() as int, i),
                #[trigger] data[i],
            ),
{
    let (loaded, memory) = ram.loaded();
    let length = data.len() as int;
    let start = prp1 as int % 4096;
    let first = crate::nvme::prp::first_part(prp1, data.len()) as int;
    let head = data.take(first);
    let rest = data.skip(first);
    let last = crate::nvme::prp::prp_write(ram, prp1, prp2, data).0;
    let at = loaded.accesses.len() as int;
    assert forall|a: int| prp1 <= a < prp1 + first implies #[trigger] present(
        memory,
        PROT_WRITE,
        a,
    ) by {
        assert(place(contents, prp1, prp2, length, a - prp1) == a);
    }
    lemma_page_put(loaded, memory, prp1, head);
    let access = RamAccess::Write { memory, address: prp1, data: head };
    let started = loaded.plus(access);
    assert(started.accesses[at] == access);
    if rest.len() == 0 {
        assert(last == started);
    } else if start + length <= 8192 {
        let page = if prp2 != 0 {
            prp2 as int
        } else {
            prp1 - start + 4096
        };
        assert(place(contents, prp1, prp2, length, first) == page);
        assert(0 <= page <= u64::MAX);
        assert forall|a: int| page <= a < page + rest.len() implies #[trigger] present(
            memory,
            PROT_WRITE,
            a,
        ) by {
            assert(place(contents, prp1, prp2, length, first + a - page) == a);
        }
        lemma_page_put(started, memory, page as u64, rest);
        assert(last.accesses[at] == access);
        assert(last.accesses[at + 1] == (RamAccess::Write {
            memory,
            address: page as u64,
            data: rest,
        }));
    } else {
        assert(last == crate::nvme::prp::list_write(started, memory, prp2, rest).0);
        lemma_list_write_extends(started, memory, prp2, rest);
        lemma_prefix_index(started.accesses, last.accesses, at);
        assert forall|i: int| 0 <= i < rest.len() implies present(
            memory,
            PROT_WRITE,
            #[trigger] listed(contents, prp2 as int, i),
        ) by {
            assert(place(contents, prp1, prp2, length, first + i) == listed(
                contents,
                prp2 as int,
                i,
            ));
        }
        lemma_list_put(started, memory, contents, prp2, rest);
    }
    assert forall|i: int| 0 <= i < length implies puts(
        last.accesses,
        ram.accesses.len(),
        memory,
        place(contents, prp1, prp2, length, i),
        #[trigger] data[i],
    ) by {
        let address = place(contents, prp1, prp2, length, i);
        if i < first {
            assert(head[i] == data[i]);
            assert(put_by(last.accesses[at], memory, address, data[i]));
        } else {
            assert(rest[i - first] == data[i]);
            if start + length <= 8192 {
                assert(put_by(last.accesses[at + 1], memory, address, data[i]));
            } else {
                let n = choose|n: int|
                    started.accesses.len() <= n < last.accesses.len() && put_by(
                        #[trigger] last.accesses[n],
                        memory,
                        address,
                        data[i],
                    );
                assert(put_by(last.accesses[n], memory, address, data[i]));
            }
        }
    }
}

/// Whether a driver finds in a completion entry what it stands for: the result, the queue, the
/// command, the status and the phase.
pub open spec fn entry_tells(
    entry: Seq<u8>,
    result: u32,
    sq_id: u16,
    cid: int,
    status: u16,
    phase: bool,
) -> bool {
    &&& entry.len() == 16
    &&& crate::bytes::number_at(entry, 0, 4) == result
    &&& crate::bytes::number_at(entry, 4, 4) == 0
    &&& crate::bytes::number_at(entry, 10, 2) == sq_id
    &&& crate::bytes::number_at(entry, 12, 2) == cid
    &&& crate::bytes::number_at(entry, 14, 2) / 2 == status
    &&& crate::bytes::number_at(entry, 14, 2) % 2 == (if phase {
        1int
    } else {
        0
    })
}

proof fn lemma_entry_tells(cid: u16, phase: bool, status: u16, sq_id: u16, result: u32)
    requires
        status < 0x8000,
    ensures
        entry_tells(
            NvmeCqe::built(cid, phase, status, sq_id, 0, result).image(),
            result,
            sq_id,
            cid as int,
            status,
            phase,
        ),
{
    let cqe = NvmeCqe::built(cid, phase, status, sq_id, 0, result);
    let entry = cqe.image();
    crate::bytes::le_bytes_hold_the_value(sq_id, result, 0);
    crate::bytes::le_bytes_hold_the_value(cid, 0, 0);
    crate::bytes::le_bytes_hold_the_value(cqe.status_fields, 0, 0);
    assert(entry.subrange(0, 4) =~= crate::bytes::le32_bytes(result));
    assert(entry.subrange(4, 8) =~= crate::bytes::le32_bytes(0));
    assert(entry.subrange(10, 12) =~= crate::bytes::le16_bytes(sq_id));
    assert(entry.subrange(12, 14) =~= crate::bytes::le16_bytes(cid));
    assert(entry.subrange(14, 16) =~= crate::bytes::le16_bytes(cqe.status_fields));
}

proof fn lemma_mask_bit(mask: u32, k: u32)
    by (bit_vector)
    requires
        k < 32,
    ensures
        mask & (1u32 << k) == 0 ==> (mask >> k) % 2 == 0,
        mask & (1u32 << k) != 0 ==> (mask >> k) % 2 == 1,
{
}

/// Whether the completions of a queue interrupt the guest: MSI-X does not mask the function or
/// the vector, and the bit of the queue is set.
pub open spec fn interrupts_guest(state: Nvme, id: u16) -> bool {
    &&& !state.msix_masked
    &&& !state.vectors_masked[id as int]
    &&& (state.intms >> ((id % 32) as u32)) % 2 == 1
}

/// A completion is written to the next entry of its queue, in the memory that the guest has at
/// present, and tells the driver which command is done and how. The queue goes on to the entry
/// after it, with the other phase once it is around. The guest is interrupted once, unless that
/// is masked.
pub proof fn a_completion_tells_the_driver(
    state: Nvme,
    id: u16,
    cid: u16,
    status: u16,
    sq_id: u16,
    result: u32,
    base: u64,
)
    requires
        state.valid(),
        id <= state.max_io,
        state.queue(id).cq_addr == Some(base),
        state.queue(id).cq_tail < state.queue(id).queue_size,
        status < 0x8000,
        forall|a: int|
            base + 16 * state.queue(id).cq_tail <= a < base + 16 * state.queue(id).cq_tail + 16
                ==> #[trigger] present(state.ram.loaded().1, PROT_WRITE, a),
    ensures
        ({
            let queue = state.queue(id);
            let after = state.completed(id, cid, status, sq_id, result);
            let n = state.ram.accesses.len() as int;
            &&& after.ram.accesses.len() == n + 2
            &&& after.ram.accesses[n + 1] matches RamAccess::Write { memory, address, data }
                && memory == state.ram.loaded().1 && address == base + 16 * queue.cq_tail
                && entry_tells(data, result, sq_id, cid as int, status, queue.cq_phase)
            &&& after.queue(id).cq_tail == (if queue.cq_tail + 1 == queue.queue_size {
                0
            } else {
                queue.cq_tail + 1
            })
            &&& queue.queue_size > 1 ==> (after.queue(id).cq_phase == queue.cq_phase <==> queue.cq_tail
                + 1 < queue.queue_size)
            &&& after.interrupts == (if interrupts_guest(state, id) {
                state.interrupts.push(id)
            } else {
                state.interrupts
            })
        }),
{
    let queue = state.queue(id);
    let (loaded, memory) = state.ram.loaded();
    let at = (base + 16 * queue.cq_tail) as u64;
    let tail = queue.cq_tail as int;
    if id > 0 {
        assert(state.io[id - 1].valid());
    }
    vstd::arithmetic::div_mod::lemma_small_mod(tail as nat, queue.queue_size as nat);
    if tail + 1 == queue.queue_size {
        vstd::arithmetic::div_mod::lemma_mod_self_0(queue.queue_size as int);
    } else {
        vstd::arithmetic::div_mod::lemma_small_mod((tail + 1) as nat, queue.queue_size as nat);
    }
    assert(present(memory, PROT_WRITE, base + 16 * tail));
    let entry = NvmeCqe::built(cid, queue.cq_phase, status, sq_id, 0, result).image();
    lemma_entry_tells(cid, queue.cq_phase, status, sq_id, result);
    lemma_whole(memory, PROT_WRITE, at, 16);
    assert(entry.take(16) =~= entry);
    lemma_mask_bit(state.intms, (id % 32) as u32);
    assert(state.ram.write_present(at, entry) == (
        loaded.plus(RamAccess::Write { memory, address: at, data: entry }),
        Some(16nat),
    ));
}

/// The next command of a queue is the 64 bytes at its head.
pub proof fn a_command_is_taken_from_the_head(state: Nvme, memory: Mapped, id: u16, base: u64)
    requires
        state.queue(id).sq_addr == Some(base),
        state.queue(id).sq_head < state.queue(id).queue_size,
        forall|a: int|
            base + 64 * state.queue(id).sq_head <= a < base + 64 * state.queue(id).sq_head + 64
                ==> #[trigger] present(memory, PROT_READ, a),
    ensures
        ({
            let (after, sqe) = state.fetched(memory, id);
            let n = state.ram.accesses.len() as int;
            &&& after.ram.accesses.len() == n + 1
            &&& after.ram.accesses[n] matches RamAccess::Read { memory: source, address, data }
                && source == memory && address == base + 64 * state.queue(id).sq_head
                && data.len() == 64 && sqe == Some(crate::nvme::sqe_of(data))
        }),
{
    let head = state.queue(id).sq_head as int;
    vstd::arithmetic::div_mod::lemma_small_mod(
        head as nat,
        state.queue(id).queue_size as nat,
    );
    assert(present(memory, PROT_READ, base + 64 * head));
    let address = (base + 64 * head) as u64;
    lemma_whole(memory, PROT_READ, address, 64);
    let data = state.ram.answer(64);
    assert(data + crate::bytes::zeros(0) =~= data);
}

/// A command that is done leaves its queue, and its completion names it by the identifier in its
/// bytes 2 and 3.
pub proof fn a_completion_names_its_command(state: Nvme, id: u16, entry: Seq<u8>, status: u16)
    requires
        entry.len() == 64,
        state.queue(id).queue_size > 0,
        id == 0 || id <= state.io.len(),
    ensures
        ({
            let taken = state.with_queue(id, state.queue(id).command_taken());
            let head = state.queue(id).sq_head + 1;
            &&& taken.queue(id).sq_head == (if head == state.queue(id).queue_size {
                0
            } else {
                head
            }) || head > state.queue(id).queue_size
            &&& taken.queue(id).sq_tail == state.queue(id).sq_tail
            &&& state.finished(id, crate::nvme::sqe_of(entry), status) == taken.completed(
                id,
                crate::bytes::number_at(entry, 2, 2) as u16,
                status,
                id,
                0,
            )
        }),
{
    an_entry_holds_its_numbers(entry);
    let queue = state.queue(id);
    if queue.sq_head + 1 == queue.queue_size {
        vstd::arithmetic::div_mod::lemma_mod_self_0(queue.queue_size as int);
    } else if queue.sq_head + 1 < queue.queue_size {
        vstd::arithmetic::div_mod::lemma_small_mod(
            (queue.sq_head + 1) as nat,
            queue.queue_size as nat,
        );
    }
}

/// The doorbell of submission queue `id` lies at 0x1000 + 8 * `id`, and takes the new tail. The
/// word after it is that of the completion queue, which leads to nothing.
#[verifier::spinoff_prover]
pub proof fn doorbells_lie_in_a_row(state: Nvme, id: u16, tail: u16)
    requires
        id < 512,
        state.msix_cap.table_start() >= 0x2000,
        state.msix_cap.pba_start() >= 0x2000,
    ensures
        ({
            let data = crate::bytes::le32_bytes(tail as u32);
            let (after, request) = state.sq_doorbell(id, tail);
            let (rung, action) = state.bar_written((0x1000 + 8 * id) as u64, data);
            let ignored = state.bar_written((0x1004 + 8 * id) as u64, data);
            &&& rung == after
            &&& match request {
                None => action is Done,
                Some(op) => action == crate::nvme::controller::BarAction::Disk(op),
            }
            &&& ignored.0 == state && ignored.1 is Done
        }),
{
    let data = crate::bytes::le32_bytes(tail as u32);
    let (first, second) = ((0x1000 + 8 * id) as u64, (0x1004 + 8 * id) as u64);
    assert(crate::nvme::controller::value16(data) == tail) by {
        let padded = data + crate::bytes::zeros(2);
        assert(padded[0] == tail % 0x100 && padded[1] == tail / 0x100);
    }
    assert(state.region(first) is Doorbell && state.region(second) is Doorbell);
    assert((first - 0x1000) / 8 == id && (first - 0x1000) % 8 == 0);
    assert((second - 0x1000) % 8 == 4);
}

/// A driver makes a queue by two commands: one with the place of the completions, one with the
/// place of the commands. Both have the number of the queue in the bytes 40 and 41, its size less
/// one in the bytes 42 and 43, and the place in the bytes 24 to 31. The queue is then there, with
/// as many entries.
pub proof fn queues_are_made_where_the_driver_says(
    state: Nvme,
    completions: Seq<u8>,
    commands: Seq<u8>,
)
    requires
        state.valid(),
        completions.len() == 64,
        commands.len() == 64,
        completions[0] == 5,
        commands[0] == 1,
        1 <= crate::bytes::number_at(completions, 40, 2) <= state.max_io,
        crate::bytes::number_at(commands, 40, 2) == crate::bytes::number_at(completions, 40, 2),
        crate::bytes::number_at(commands, 46, 2) == crate::bytes::number_at(commands, 40, 2),
        crate::bytes::number_at(completions, 42, 2) < 0xffff,
        crate::bytes::number_at(commands, 42, 2) < 0xffff,
        !state.io[crate::bytes::number_at(completions, 40, 2) - 1].allocated,
    ensures
        ({
            let id = crate::bytes::number_at(commands, 40, 2) as u16;
            let (between, first) = state.admin_done(crate::nvme::sqe_of(completions));
            let (after, second) = between.admin_done(crate::nvme::sqe_of(commands));
            let queue = after.queue(id);
            &&& first == 0 && second == 0
            &&& queue.allocated
            &&& queue.cq_addr == Some(crate::bytes::number_at(completions, 24, 8) as u64)
            &&& queue.sq_addr == Some(crate::bytes::number_at(commands, 24, 8) as u64)
            &&& queue.queue_size == crate::bytes::number_at(commands, 42, 2) + 1
            &&& forall|other: u16|
                other != id && other <= state.max_io ==> #[trigger] after.queue(other)
                    == state.queue(other)
        }),
{
    an_entry_holds_its_numbers(completions);
    an_entry_holds_its_numbers(commands);
    lemma_words(completions, 40);
    lemma_words(commands, 40);
    lemma_words(commands, 44);
}

/// The halves of a number of four bytes are the numbers in its bytes.
pub proof fn lemma_words(entry: Seq<u8>, at: int)
    requires
        0 <= at,
        at + 4 <= entry.len(),
    ensures
        crate::bytes::le32(entry, at) % 0x1_0000 == crate::bytes::number_at(entry, at, 2),
        crate::bytes::le32(entry, at) / 0x1_0000 == crate::bytes::number_at(entry, at + 2, 2),
{
    crate::bytes::le16_is_a_number(entry, at);
    crate::bytes::le16_is_a_number(entry, at + 2);
}

/// A driver learns the size of the disk from the page of the namespace: the number of its
/// blocks, in the bytes 0 to 7, and their size, two to the power in byte 130.
pub proof fn the_namespace_has_the_size_of_the_disk(capacity: u64)
    ensures
        ({
            let page = crate::nvme::identify::namespace_page(capacity);
            &&& page.len() == 4096
            &&& crate::bytes::number_at(page, 0, 8) == capacity
            &&& crate::bytes::number_at(page, 8, 8) == capacity
            &&& crate::bytes::number_at(page, 16, 8) == capacity
            &&& vstd::arithmetic::power2::pow2(page[130] as nat) == 512
        }),
{
    let page = crate::nvme::identify::namespace_page(capacity);
    crate::bytes::le_bytes_hold_the_value(0, 0, capacity);
    let number = crate::bytes::le64_bytes(capacity);
    assert(page.subrange(0, 8) =~= number);
    assert(page.subrange(8, 16) =~= number);
    assert(page.subrange(16, 24) =~= number);
    assert(page[130] == 9);
    vstd::arithmetic::power2::lemma2_to64();
}

/// A disk holds as many whole blocks of 512 bytes as its size allows.
pub proof fn a_disk_is_counted_in_blocks(
    id: Seq<char>,
    disk_size: u64,
    readonly: bool,
    ram: Ram,
    num_vcpus: u32,
    msix_reg: Option<usize>,
)
    ensures
        ({
            let capacity = Nvme::fresh(
                id,
                disk_size,
                readonly,
                ram,
                num_vcpus,
                msix_reg,
            ).capacity;
            512 * capacity <= disk_size < 512 * (capacity + 1)
        }),
{
}

} // verus!
