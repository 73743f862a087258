//! What a driver brings about through the registers and the admin queue, in terms of the bytes
//! that it writes and reads.
use vstd::prelude::*;

use crate::guest_memory::PROT_WRITE;
use crate::nvme::controller::{BarRegion, Nvme};
use crate::nvme::NvmeSqe;
use crate::ram::Ram;

verus! {

proof fn lemma_written_value(data: Seq<u8>)
    requires
        data.len() == 4,
    ensures
        crate::nvme::controller::value32(data) == crate::bytes::number_at(data, 0, 4),
        crate::nvme::controller::value32(data) % 0x1_0000 == crate::bytes::number_at(data, 0, 2),
        crate::nvme::controller::value32(data) / 0x1_0000 == crate::bytes::number_at(data, 2, 2),
        crate::nvme::controller::value32(data) % 2 == data[0] % 2,
{
    let padded = data + crate::bytes::zeros(4);
    assert(padded[0] == data[0] && padded[1] == data[1] && padded[2] == data[2] && padded[3]
        == data[3]);
    crate::bytes::le32_is_a_number(data, 0);
    crate::bytes::le16_is_a_number(data, 0);
    crate::bytes::le16_is_a_number(data, 2);
}

proof fn lemma_read_value(value: u32, buffer: Seq<u8>)
    requires
        buffer.len() == 4,
    ensures
        crate::bytes::number_at(crate::nvme::controller::reg32_read(value, buffer), 0, 4) == value,
{
    let bytes = crate::bytes::le32_bytes(value);
    crate::bytes::le_bytes_hold_the_value(0, value, 0);
    assert(crate::bytes::overlay(buffer, 0, bytes).subrange(0, 4) =~= bytes);
}

/// The lowest bit of the configuration, at 0x14, enables the controller, which the lowest bit of
/// its status, at 0x1c, then shows. The configuration reads as it was written.
pub proof fn an_enabled_controller_is_ready(state: Nvme, data: Seq<u8>, buffer: Seq<u8>)
    requires
        data.len() == 4,
        buffer.len() == 4,
    ensures
        ({
            let after = state.bar_written(0x14, data).0;
            &&& crate::bytes::number_at(after.bar_read(0x1c, buffer).0, 0, 4) == data[0] % 2
            &&& crate::bytes::number_at(after.bar_read(0x14, buffer).0, 0, 4)
                == crate::bytes::number_at(data, 0, 4)
            &&& after.cc_en == (data[0] % 2 == 1)
        }),
{
    let after = state.bar_written(0x14, data).0;
    lemma_written_value(data);
    lemma_read_value(after.cc, buffer);
    lemma_read_value(
        if after.cc_en {
            1
        } else {
            0
        },
        buffer,
    );
}

/// The sizes of the two admin queues, each less one, are the halves of the register at 0x24. The
/// larger one holds for both.
pub proof fn the_admin_queues_have_the_larger_size(state: Nvme, data: Seq<u8>)
    requires
        data.len() == 4,
        crate::bytes::number_at(data, 0, 2) < 0xffff,
        crate::bytes::number_at(data, 2, 2) < 0xffff,
    ensures
        ({
            let after = state.bar_written(0x24, data).0;
            let commands = crate::bytes::number_at(data, 0, 2) + 1;
            let completions = crate::bytes::number_at(data, 2, 2) + 1;
            &&& after.admin.queue_size >= commands && after.admin.queue_size >= completions
            &&& after.admin.queue_size == commands || after.admin.queue_size == completions
            &&& after.admin.sq_addr == state.admin.sq_addr
            &&& after.admin.cq_addr == state.admin.cq_addr
        }),
{
    lemma_written_value(data);
}

proof fn lemma_mask_bits(mask: u32, value: u32, k: u32)
    by (bit_vector)
    requires
        k < 32,
    ensures
        ((mask | value) & (1u32 << k) == 0) == ((mask >> k) % 2 == 0 && (value >> k) % 2 == 0),
        ((mask & !value) & (1u32 << k) == 0) == ((mask >> k) % 2 == 0 || (value >> k) % 2 == 1),
{
}

/// A bit that is written at 0x0c lets the interrupt of the queue of its number through, and one
/// that is written at 0x10 holds it back; the others stay as they are. An interrupt that MSI-X
/// masks is held back in any case.
#[verifier::spinoff_prover]
pub proof fn a_bit_lets_an_interrupt_through(state: Nvme, data: Seq<u8>, id: u16)
    requires
        data.len() == 4,
        id < 32,
        !state.msix_masked,
        !state.vectors_masked[id as int],
    ensures
        ({
            let bit = (crate::bytes::number_at(data, 0, 4) as u32 >> id as u32) % 2;
            let before = (state.intms >> id as u32) % 2;
            let passed = state.bar_written(0x0c, data).0;
            let held = state.bar_written(0x10, data).0;
            &&& passed.interrupt_masked(id) == (before == 0 && bit == 0)
            &&& held.interrupt_masked(id) == (before == 0 || bit == 1)
        }),
{
    let value = crate::nvme::controller::value32(data);
    assert(value == crate::bytes::number_at(data, 0, 4) as u32) by {
        lemma_written_value(data);
    }
    lemma_mask_bits(state.intms, value, id as u32);
    assert(id % 32 == id);
    assert(state.bar_written(0x0c, data).0 == (Nvme { intms: state.intms | value, ..state }));
    assert(state.bar_written(0x10, data).0 == (Nvme { intms: state.intms & !value, ..state }));
}

/// Whether a page holds what an Identify command of a kind asks for. The kinds 0, 2 and 4 ask for
/// the namespace, with the number of its blocks, 1 for the controller, with the size of the disk
/// in bytes, the sizes of the entries of the queues and the number of namespaces, and 3 for the
/// list of the namespaces, which holds the number 1 alone.
pub open spec fn identifies(kind: u8, page: Seq<u8>, capacity: u64) -> bool {
    &&& page.len() == 4096
    &&& kind == 0 || kind == 2 || kind == 4 ==> crate::bytes::number_at(page, 0, 8) == capacity
        && vstd::arithmetic::power2::pow2(page[130] as nat) == 512
    &&& kind == 1 ==> crate::bytes::number_at(page, 0, 2) == 0x1af4 && crate::bytes::number_at(
        page,
        280,
        8,
    ) == 512 * capacity && page[512] == 0x66 && page[513] == 0x22 && crate::bytes::number_at(
        page,
        516,
        4,
    ) == 1
    &&& kind == 3 ==> crate::bytes::number_at(page, 0, 4) == 1 && forall|i: int|
        4 <= i < 4096 ==> #[trigger] page[i] == 0
}

proof fn lemma_pages(capacity: u64)
    requires
        512 * capacity <= u64::MAX,
    ensures
        identifies(1, crate::nvme::identify::controller_page(capacity), capacity),
        identifies(3, crate::nvme::identify::namespace_list(), capacity),
{
    let page = crate::nvme::identify::controller_page(capacity);
    let size = (512 * capacity) as u64;
    crate::bytes::le_bytes_hold_the_value(0x1af4, 1, size);
    assert(page.len() == 4096);
    assert(page.subrange(0, 2) =~= crate::bytes::le16_bytes(0x1af4));
    assert(page.subrange(280, 288) =~= crate::bytes::le64_bytes(size));
    assert(page.subrange(516, 520) =~= crate::bytes::le32_bytes(1));
    assert(page[512] == 0x66 && page[513] == 0x22);
    let list = crate::nvme::identify::namespace_list();
    assert(list.subrange(0, 4) =~= crate::bytes::le32_bytes(1));
}

proof fn lemma_identified(state: Nvme, sqe: NvmeSqe)
    requires
        state.valid(),
        sqe.opcode_spec() == 6,
    ensures
        ({
            let (after, status) = state.admin_done(sqe);
            let kind = (sqe.cdw10 % 0x100) as u8;
            if sqe.prp1_spec() == 0 || kind > 4 || (kind == 2 && sqe.nsid > 1) {
                status != 0 && after == state
            } else {
                &&& state.identified(sqe) matches Ok(page) && identifies(kind, page, state.capacity)
                    && after.ram == crate::nvme::prp::prp_write(
                    state.ram,
                    sqe.prp1_spec(),
                    sqe.prp2_spec(),
                    page,
                ).0 && (status == 0) == (crate::nvme::prp::prp_write(
                    state.ram,
                    sqe.prp1_spec(),
                    sqe.prp2_spec(),
                    page,
                ).1 is Ok)
                &&& after == (Nvme { ram: after.ram, ..state })
            }
        }),
{
    assert(state.admin_done(sqe) == state.identify_done(sqe));
    assert(identifies(0, crate::nvme::identify::namespace_page(state.capacity), state.capacity)) by {
        crate::nvme::commands::the_namespace_has_the_size_of_the_disk(state.capacity);
    }
    lemma_pages(state.capacity);
}

/// An Identify command puts the page that byte 40 asks for where its entries lead. One for a
/// namespace that is not there, for another kind of page, or without a place, is refused.
pub proof fn an_identify_command_delivers_its_page(state: Nvme, entry: Seq<u8>)
    requires
        state.valid(),
        entry.len() == 64,
        entry[0] == 6,
    ensures
        ({
            let (after, status) = state.admin_done(crate::nvme::sqe_of(entry));
            let (prp1, prp2) = (
                crate::bytes::number_at(entry, 24, 8) as u64,
                crate::bytes::number_at(entry, 32, 8) as u64,
            );
            let namespace = crate::bytes::number_at(entry, 8, 4);
            if prp1 == 0 || entry[40] > 4 || (entry[40] == 2 && namespace > 1) {
                status != 0 && after == state
            } else {
                &&& state.identified(crate::nvme::sqe_of(entry)) matches Ok(page) && identifies(
                    entry[40],
                    page,
                    state.capacity,
                ) && after.ram == crate::nvme::prp::prp_write(state.ram, prp1, prp2, page).0
                    && (status == 0) == (crate::nvme::prp::prp_write(
                    state.ram,
                    prp1,
                    prp2,
                    page,
                ).1 is Ok)
                &&& after == (Nvme { ram: after.ram, ..state })
            }
        }),
{
    let sqe = crate::nvme::sqe_of(entry);
    assert({
        &&& sqe.opcode_spec() == entry[0]
        &&& sqe.prp1_spec() == crate::bytes::number_at(entry, 24, 8)
        &&& sqe.prp2_spec() == crate::bytes::number_at(entry, 32, 8)
        &&& sqe.nsid == crate::bytes::number_at(entry, 8, 4)
    }) by {
        crate::nvme::commands::an_entry_holds_its_numbers(entry);
    }
    assert(sqe.cdw10 == crate::bytes::le32(entry, 40));
    assert(sqe.cdw10 % 0x100 == entry[40]);
    lemma_identified(state, sqe);
}

/// What the disk delivers for a read command is put, byte for byte, where the entries of the
/// command lead. A disk that fails makes the command fail.
pub proof fn what_the_disk_reads_reaches_the_guest(
    state: Nvme,
    contents: crate::nvme::commands::Contents,
    entry: Seq<u8>,
    data: Seq<u8>,
)
    requires
        entry.len() == 64,
        entry[0] == 2,
        ({
            let (prp1, prp2) = (
                crate::bytes::number_at(entry, 24, 8) as u64,
                crate::bytes::number_at(entry, 32, 8) as u64,
            );
            &&& crate::nvme::commands::transferable(
                state.ram.loaded().1,
                PROT_WRITE,
                contents,
                prp1,
                prp2,
                data.len() as int,
            )
            &&& crate::nvme::commands::all_found(
                crate::nvme::prp::prp_write(state.ram, prp1, prp2, data).0.accesses,
                state.ram.accesses.len(),
                contents,
            )
        }),
    ensures
        ({
            let (prp1, prp2) = (
                crate::bytes::number_at(entry, 24, 8) as u64,
                crate::bytes::number_at(entry, 32, 8) as u64,
            );
            let (after, status) = state.disk_answered(crate::nvme::sqe_of(entry), Some(data));
            let (unchanged, failed) = state.disk_answered(crate::nvme::sqe_of(entry), None);
            &&& status == 0
            &&& forall|i: int|
                0 <= i < data.len() ==> crate::nvme::commands::puts(
                    after.ram.accesses,
                    state.ram.accesses.len(),
                    state.ram.loaded().1,
                    crate::nvme::commands::place(contents, prp1, prp2, data.len() as int, i),
                    #[trigger] data[i],
                )
            &&& unchanged == state && failed != 0
        }),
{
    crate::nvme::commands::an_entry_holds_its_numbers(entry);
    crate::nvme::commands::data_is_put_where_the_entries_lead(
        state.ram,
        contents,
        crate::bytes::number_at(entry, 24, 8) as u64,
        crate::bytes::number_at(entry, 32, 8) as u64,
        data,
    );
}

/// A command of the admin queue that the controller does not know is refused, and so is one for a
/// queue that cannot be. The commands without an effect succeed.
pub proof fn admin_commands_are_told_apart(state: Nvme, entry: Seq<u8>)
    requires
        state.valid(),
        entry.len() == 64,
    ensures
        ({
            let (after, status) = state.admin_done(crate::nvme::sqe_of(entry));
            let opcode = entry[0];
            let number = crate::bytes::number_at(entry, 40, 2);
            &&& opcode == 2 || 8 <= opcode <= 10 || opcode == 12 ==> status == 0 && after == state
            &&& opcode == 3 || opcode == 4 || opcode == 7 || opcode == 11 || opcode > 12 ==> status
                == 1 && after == state
            &&& (opcode == 1 || opcode == 5) && (number == 0 || number > state.max_io) ==> status
                == 2 && after == state
        }),
{
    let sqe = crate::nvme::sqe_of(entry);
    assert(sqe.opcode_spec() == entry[0]) by {
        crate::nvme::commands::an_entry_holds_its_numbers(entry);
    }
    assert(sqe.cdw10 % 0x1_0000 == crate::bytes::number_at(entry, 40, 2)) by {
        crate::nvme::commands::lemma_words(entry, 40);
    }
}

/// A controller has a queue for each processor, up to 1023, and one vector more than queues.
/// Nothing is enabled yet, and no interrupt passes.
pub proof fn each_processor_has_a_queue(
    id: Seq<char>,
    disk_size: u64,
    readonly: bool,
    ram: Ram,
    num_vcpus: u32,
    msix_reg: Option<usize>,
    queue: u16,
)
    requires
        num_vcpus <= 0xffff,
        queue <= num_vcpus,
        queue <= 1023,
    ensures
        ({
            let state = Nvme::fresh(id, disk_size, readonly, ram, num_vcpus, msix_reg);
            &&& state.io.len() <= num_vcpus && state.io.len() <= 1023
            &&& state.io.len() == num_vcpus || state.io.len() == 1023
            &&& state.msix_cap.vectors() == state.io.len() + 1
            &&& !state.cc_en && !state.queue(queue).allocated
            &&& state.queue(queue).sq_addr is None && state.queue(queue).cq_addr is None
            &&& state.interrupt_masked(queue)
            &&& state.readonly == readonly
        }),
{
}

/// The vectors lie from 0x2000 on, 16 bytes for each, and the bits of those that are pending from
/// 0x6000 on, in words of 64.
pub proof fn vectors_lie_behind_the_doorbells(
    id: Seq<char>,
    disk_size: u64,
    ram: Ram,
    num_vcpus: u32,
    vector: u16,
    byte: u64,
)
    requires
        vector <= num_vcpus <= 1023,
        byte < 16,
    ensures
        ({
            let state = Nvme::fresh(id, disk_size, true, ram, num_vcpus, None);
            &&& state.region((0x2000 + 16 * vector + byte) as u64) == BarRegion::MsixTable(
                (16 * vector + byte) as u64,
            )
            &&& state.region((0x6000 + vector / 8) as u64) == BarRegion::MsixPba(
                (vector / 8) as u64,
            )
        }),
{
}

/// A write of the control word of the vectors changes its two highest bits, and not their number.
/// A write of four bytes reaches the same word in its upper half.
#[verifier::spinoff_prover]
#[verifier::rlimit(30)]
pub proof fn the_control_word_switches_two_bits(state: Nvme, reg: usize, word: u16, low: u16)
    requires
        state.msix_reg == Some(reg),
    ensures
        ({
            let half = state.capability_written(reg, 2, crate::bytes::le16_bytes(word));
            let whole = state.capability_written(
                reg,
                0,
                crate::bytes::le16_bytes(low) + crate::bytes::le16_bytes(word),
            );
            &&& half.msix_cap.msg_ctl / 0x4000 == word / 0x4000
            &&& half.msix_cap.msg_ctl % 0x4000 == state.msix_cap.msg_ctl % 0x4000
            &&& half.msix_cap.vectors() == state.msix_cap.vectors()
            &&& whole.msix_cap == half.msix_cap
        }),
{
    let bytes = crate::bytes::le16_bytes(low) + crate::bytes::le16_bytes(word);
    crate::bytes::le16_round_trip(word);
    crate::bytes::le16_round_trip(low);
    assert(crate::bytes::le16(bytes, 2) == word);
    assert(crate::bytes::le16(bytes, 0) == low);
    assert(crate::bytes::le32(bytes, 0) / 0x1_0000 == word);
}

/// A submission queue that is deleted is gone, with its completion queue, and the others stay. The
/// bytes 2 and 3 of the command name it. One that is not there is refused.
pub proof fn a_deleted_queue_is_gone(state: Nvme, entry: Seq<u8>, other: u16)
    requires
        state.valid(),
        entry.len() == 64,
        entry[0] == 0,
        other <= state.max_io,
        other != crate::bytes::number_at(entry, 2, 2),
    ensures
        ({
            let (after, status) = state.admin_done(crate::nvme::sqe_of(entry));
            let id = crate::bytes::number_at(entry, 2, 2) as u16;
            if 1 <= id <= state.max_io && state.queue(id).allocated {
                &&& status == 0
                &&& !after.queue(id).allocated
                &&& after.queue(id).sq_addr is None && after.queue(id).cq_addr is None
                &&& after.queue(other) == state.queue(other)
            } else {
                status == 2 && after == state
            }
        }),
{
    let sqe = crate::nvme::sqe_of(entry);
    assert(sqe.opcode_spec() == entry[0] && sqe.command_id_spec() == crate::bytes::number_at(
        entry,
        2,
        2,
    )) by {
        crate::nvme::commands::an_entry_holds_its_numbers(entry);
    }
    assert(state.admin_done(sqe) == state.sq_deleted(sqe));
}

} // verus!
