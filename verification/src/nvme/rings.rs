//! What holds of the rings of the controller: its submission queues are drained, and its
//! completions go around.
use vstd::prelude::*;

use crate::nvme::controller::{DiskOp, IoOutcome, IoStep, Nvme, Waiting};
use crate::nvme::{NvmeCqe, NvmeQueue, NvmeSqe};
use crate::guest_memory::PROT_WRITE;
use crate::ram::{Mapped, Ram, RamAccess};

verus! {

/// What a completion reports: the command, its status, its queue and a result.
pub struct Report {
    pub cid: u16,
    pub status: u16,
    pub sq_id: u16,
    pub result: u32,
}

/// Some completions written to a queue, one after the other.
pub open spec fn all_completed(state: Nvme, id: u16, reports: Seq<Report>) -> Nvme
    decreases reports.len(),
{
    if reports.len() == 0 {
        state
    } else {
        let report = reports.last();
        all_completed(state, id, reports.drop_last()).completed(
            id,
            report.cid,
            report.status,
            report.sq_id,
            report.result,
        )
    }
}

/// The entry of a ring of `size` that the completion of number `k` takes.
pub open spec fn slot(k: nat, size: u16) -> int {
    k as int % size as int
}

/// The phase of the completion of number `k`: it changes with every round.
pub open spec fn phase_of(first: bool, k: nat, size: u16) -> bool {
    first != ((k as int / size as int) % 2 == 1)
}

/// What the completion of number `k` writes to a memory.
pub open spec fn entry_written(
    memory: Mapped,
    base: u64,
    first: bool,
    size: u16,
    k: nat,
    report: Report,
) -> RamAccess {
    RamAccess::Write {
        memory,
        address: (base + 16 * slot(k, size)) as u64,
        data: NvmeCqe::built(
            report.cid,
            phase_of(first, k, size),
            report.status,
            report.sq_id,
            0,
            report.result,
        ).image(),
    }
}

/// The accesses of some completions: each loads the memory of the guest and writes its entry
/// there.
pub open spec fn entries_written(
    ram: Ram,
    base: u64,
    first: bool,
    size: u16,
    reports: Seq<Report>,
) -> Seq<RamAccess>
    decreases reports.len(),
{
    if reports.len() == 0 {
        Seq::empty()
    } else {
        let k = (reports.len() - 1) as nat;
        let memory = (ram.answers)(ram.accesses.len() + 2 * k).memory;
        entries_written(ram, base, first, size, reports.drop_last()).push(
            RamAccess::Load { source: ram.source, memory },
        ).push(entry_written(memory, base, first, size, k, reports.last()))
    }
}

/// Whether an entry of a ring of completions lies in a memory and can be written.
pub open spec fn entry_in_memory(memory: Mapped, base: u64, i: int) -> bool {
    let regions = crate::ram::memory_regions(memory);
    let address = (base + 16 * i) as u64;
    &&& base + 16 * i <= u64::MAX
    &&& crate::ram::reach(crate::ram::backed_by(regions), address, 16) == 16
    &&& crate::ram::permitted(
        crate::ram::backed_by(regions),
        crate::ram::open_to(regions, PROT_WRITE),
        address,
        16,
    )
}

proof fn lemma_round(k: nat, size: u16)
    requires
        size >= 2,
    ensures
        slot(k, size) < size,
        slot(k, size) >= 0,
        slot(k + 1, size) == (if slot(k, size) + 1 == size {
            0
        } else {
            slot(k, size) + 1
        }),
        (k + 1) as int / size as int == k as int / size as int + (if slot(k, size) + 1 == size {
            1int
        } else {
            0
        }),
{
    let n = size as int;
    let q = k as int / n;
    let r = k as int % n;
    vstd::arithmetic::div_mod::lemma_fundamental_div_mod(k as int, n);
    vstd::arithmetic::div_mod::lemma_mod_bound(k as int, n);
    if r + 1 == n {
        assert(n * q + r + 1 == n * (q + 1)) by (nonlinear_arith)
            requires
                r + 1 == n,
        ;
        vstd::arithmetic::div_mod::lemma_fundamental_div_mod_converse((k + 1) as int, n, q + 1, 0);
    } else {
        vstd::arithmetic::div_mod::lemma_fundamental_div_mod_converse((k + 1) as int, n, q, r + 1);
    }
}

/// Completions go around the ring: the completion of number `k` takes the entry `k` modulo
/// the size of the ring, and the phase of its entry changes each time the ring starts again.
/// Each goes to the memory that the guest has when it is written.
#[verifier::spinoff_prover]
#[verifier::rlimit(50)]
pub proof fn completions_go_around(state: Nvme, id: u16, reports: Seq<Report>, base: u64)
    requires
        state.valid(),
        id <= state.max_io,
        state.queue(id).cq_addr == Some(base),
        state.queue(id).queue_size >= 2,
        state.queue(id).cq_tail == 0,
        forall|n: nat, i: int|
            n >= state.ram.accesses.len() && 0 <= i < state.queue(id).queue_size
                ==> #[trigger] entry_in_memory((state.ram.answers)(n).memory, base, i),
    ensures
        ({
            let (first, size) = (state.queue(id).cq_phase, state.queue(id).queue_size);
            let after = all_completed(state, id, reports);
            &&& after.valid()
            &&& after.max_io == state.max_io
            &&& after.queue(id) == (NvmeQueue {
                cq_tail: slot(reports.len(), size) as u16,
                cq_phase: phase_of(first, reports.len(), size),
                ..state.queue(id)
            })
            &&& after.ram == (Ram {
                accesses: state.ram.accesses + entries_written(
                    state.ram,
                    base,
                    first,
                    size,
                    reports,
                ),
                ..state.ram
            })
            &&& after.ram.accesses.len() == state.ram.accesses.len() + 2 * reports.len()
        }),
    decreases reports.len(),
{
    let (first, size) = (state.queue(id).cq_phase, state.queue(id).queue_size);
    let after = all_completed(state, id, reports);
    if id > 0 {
        assert(state.io[id - 1].valid());
    }
    if reports.len() == 0 {
        vstd::arithmetic::div_mod::lemma_small_mod(0, size as nat);
        vstd::arithmetic::div_mod::lemma_basic_div(0, size as int);
        assert(after.ram.accesses =~= state.ram.accesses + entries_written(
            state.ram,
            base,
            first,
            size,
            reports,
        ));
    } else {
        let before = all_completed(state, id, reports.drop_last());
        let k = (reports.len() - 1) as nat;
        let report = reports.last();
        completions_go_around(state, id, reports.drop_last(), base);
        lemma_round(k, size);
        let queue = before.queue(id);
        vstd::arithmetic::div_mod::lemma_small_mod(slot(k, size) as nat, size as nat);
        assert(queue.cq_tail % queue.queue_size == slot(k, size));
        lemma_ring(queue.cq_tail, size);
        let (loaded, memory) = before.ram.loaded();
        assert(memory == (state.ram.answers)(state.ram.accesses.len() + 2 * k).memory);
        assert(entry_in_memory(memory, base, slot(k, size)));
        let entry = NvmeCqe::built(
            report.cid,
            queue.cq_phase,
            report.status,
            report.sq_id,
            0,
            report.result,
        ).image();
        assert(entry.len() == 16);
        assert(entry.take(16) =~= entry);
        if id > 0 {
            assert(before.io[id - 1].valid());
        }
        assert(phase_of(first, k + 1, size) == (phase_of(first, k, size) != (slot(k + 1, size)
            < slot(k, size)))) by {
            let q = k as int / size as int;
            assert((q + 1) % 2 == 1 <==> q % 2 == 0);
        }
        assert(loaded.write(memory, (base + 16 * slot(k, size)) as u64, entry) == (
            loaded.plus(entry_written(memory, base, first, size, k, report)),
            Some(16nat),
        ));
        assert(after.queue(id) == queue.completion_put());
        assert(after.valid());
        assert(after.ram.accesses =~= state.ram.accesses + entries_written(
            state.ram,
            base,
            first,
            size,
            reports,
        ));
    }
}

/// The entry after the last one of a ring is its first one.
proof fn lemma_ring(index: u16, size: u16)
    requires
        index < size,
    ensures
        (index + 1) % size as int == (if index + 1 == size {
            0
        } else {
            index + 1
        }),
{
    if index + 1 == size {
        vstd::arithmetic::div_mod::lemma_mod_self_0(size as int);
    } else {
        vstd::arithmetic::div_mod::lemma_small_mod((index + 1) as nat, size as nat);
    }
}

/// How many commands wait in a queue.
pub open spec fn backlog(queue: NvmeQueue) -> int {
    if queue.sq_head <= queue.sq_tail {
        queue.sq_tail - queue.sq_head
    } else {
        queue.queue_size - queue.sq_head + queue.sq_tail
    }
}

proof fn lemma_admin_commands_keep_queue(state: Nvme, sqe: NvmeSqe)
    requires
        state.valid(),
    ensures
        state.admin_done(sqe).0.admin == state.admin,
{
}

proof fn lemma_admin_step(state: Nvme, memory: Mapped)
    requires
        state.valid(),
    ensures
        ({
            let (next, more) = state.admin_stepped(memory);
            let queue = state.admin;
            if more {
                &&& next.admin.sq_head == (queue.sq_head + 1) % queue.queue_size as int
                &&& next.admin.sq_tail == queue.sq_tail
                &&& next.admin.queue_size == queue.queue_size
                &&& queue.queue_size > 0
            } else {
                next == state && state.fetched(memory, 0).1 is None
            }
        }),
{
    let (fetched, sqe) = state.fetched(memory, 0);
    if let Some(sqe) = sqe {
        lemma_admin_commands_keep_queue(fetched, sqe);
    }
}

proof fn lemma_admin_drained(state: Nvme, memory: Mapped, n: nat)
    requires
        state.valid(),
        state.pending is None,
        state.admin.sq_head < state.admin.queue_size,
        state.admin.sq_tail < state.admin.queue_size,
        backlog(state.admin) <= n,
    ensures
        ({
            let after = state.admin_drained(memory, n);
            after.admin.sq_head == after.admin.sq_tail || after.fetched(memory, 0).1 is None
        }),
    decreases n,
{
    if n > 0 && state.admin.sq_head != state.admin.sq_tail {
        lemma_admin_step(state, memory);
        lemma_ring(state.admin.sq_head, state.admin.queue_size);
        let (next, more) = state.admin_stepped(memory);
        if more {
            lemma_admin_step_valid(state, memory);
            lemma_admin_drained(next, memory, (n - 1) as nat);
        }
    }
}

proof fn lemma_admin_step_valid(state: Nvme, memory: Mapped)
    requires
        state.valid(),
        state.pending is None,
    ensures
        state.admin_stepped(memory).0.valid(),
        state.admin_stepped(memory).0.pending is None,
{
    let (fetched, sqe) = state.fetched(memory, 0);
    if let Some(sqe) = sqe {
        lemma_admin_commands_keep_queue(fetched, sqe);
        let (done, status) = fetched.admin_done(sqe);
        assert(done.valid());
        assert(done.pending is None);
    }
}

/// A doorbell of the admin queue whose new tail lies in the queue leads to all the commands
/// up to the tail, unless one of them does not lie in the memory that the guest had when the
/// doorbell was rung.
pub proof fn a_doorbell_drains_the_admin_queue(state: Nvme, tail: u16)
    requires
        state.valid(),
        state.pending is None,
        state.cc_en,
        state.admin.sq_addr is Some,
        state.admin.cq_addr is Some,
        state.admin.sq_head < state.admin.queue_size,
        tail < state.admin.queue_size,
    ensures
        ({
            let memory = state.ram.loaded().1;
            let after = state.sq_doorbell(0, tail).0;
            after.admin.sq_head == after.admin.sq_tail || after.fetched(memory, 0).1 is None
        }),
{
    let rung = state.with_queue(0, NvmeQueue { sq_tail: tail, ..state.admin });
    assert(rung.valid());
    let (ram, memory) = rung.ram.loaded();
    lemma_admin_drained(Nvme { ram, ..rung }, memory, state.admin.queue_size as nat);
}

/// A controller whose disk requests are answered one after the other, as long as there are
/// replies.
pub open spec fn disk_served(
    state: Nvme,
    request: Option<DiskOp>,
    replies: Seq<Option<Seq<u8>>>,
) -> (Nvme, Option<DiskOp>)
    decreases replies.len(),
{
    if request is None || replies.len() == 0 {
        (state, request)
    } else {
        let (next, further) = state.disk_finished(replies[0]);
        disk_served(next, further, replies.skip(1))
    }
}

proof fn lemma_finish(state: Nvme, id: u16, sqe: NvmeSqe, status: u16)
    requires
        state.valid(),
        state.pending is None,
        1 <= id <= state.max_io,
        state.queue(id).queue_size > 0,
    ensures
        ({
            let next = state.finished(id, sqe, status);
            let queue = state.queue(id);
            &&& next.valid()
            &&& next.pending is None
            &&& next.max_io == state.max_io
            &&& next.queue(id).sq_head == (queue.sq_head + 1) % queue.queue_size as int
            &&& next.queue(id).sq_tail == queue.sq_tail
            &&& next.queue(id).queue_size == queue.queue_size
        }),
{
    assert(state.io[id - 1].valid());
}

proof fn lemma_io_drained(
    state: Nvme,
    memory: Mapped,
    id: u16,
    n: nat,
    replies: Seq<Option<Seq<u8>>>,
)
    requires
        state.valid(),
        state.pending is None,
        1 <= id <= state.max_io,
        state.queue(id).sq_head < state.queue(id).queue_size,
        state.queue(id).sq_tail < state.queue(id).queue_size,
        backlog(state.queue(id)) <= n <= u16::MAX,
        replies.len() >= n,
    ensures
        ({
            let (started, request) = state.io_drained(memory, id, n);
            let (after, open) = disk_served(started, request, replies);
            &&& open is None
            &&& after.queue(id).sq_head == after.queue(id).sq_tail || after.fetched(
                memory,
                id,
            ).1 is None
        }),
    decreases n,
{
    let queue = state.queue(id);
    if n > 0 && queue.sq_head != queue.sq_tail {
        lemma_ring(queue.sq_head, queue.queue_size);
        let (fetched, sqe) = state.fetched(memory, id);
        if let Some(sqe) = sqe {
            let (next, outcome) = fetched.io_done(sqe);
            assert(next.queue(id) == queue);
            assert(next.valid());
            match outcome {
                IoOutcome::Status(status) => {
                    let finished = next.finished(id, sqe, status);
                    lemma_finish(next, id, sqe, status);
                    assert(state.io_stepped(memory, id, n) == (finished, IoStep::Finished));
                    lemma_io_drained(finished, memory, id, (n - 1) as nat, replies);
                },
                IoOutcome::Disk(op) => {
                    let left = (n - 1) as u16;
                    let waiting = Nvme {
                        pending: Some(Waiting { sqid: id, sqe, left, memory }),
                        ..next
                    };
                    assert(state.io_stepped(memory, id, n) == (waiting, IoStep::Waits(op)));
                    let (answered, status) = next.disk_answered(sqe, replies[0]);
                    let finished = answered.finished(id, sqe, status);
                    assert((Nvme { pending: None, ..waiting }) == next);
                    lemma_finish(answered, id, sqe, status);
                    assert(waiting.disk_finished(replies[0]) == finished.io_drained(
                        memory,
                        id,
                        left as nat,
                    ));
                    lemma_io_drained(finished, memory, id, (n - 1) as nat, replies.skip(1));
                },
            }
        }
    }
}

/// A doorbell of an I/O queue whose new tail lies in the queue leads to all the commands up to
/// the tail, unless one of them does not lie in the memory that the guest had when the doorbell
/// was rung, once the disk requests on the way are answered.
pub proof fn a_doorbell_drains_an_io_queue(
    state: Nvme,
    id: u16,
    tail: u16,
    replies: Seq<Option<Seq<u8>>>,
)
    requires
        state.valid(),
        state.pending is None,
        state.cc_en,
        1 <= id <= state.max_io,
        state.queue(id).allocated,
        state.queue(id).sq_addr is Some,
        state.queue(id).cq_addr is Some,
        state.queue(id).sq_head < state.queue(id).queue_size,
        tail < state.queue(id).queue_size,
        replies.len() >= state.queue(id).queue_size,
    ensures
        ({
            let memory = state.ram.loaded().1;
            let (started, request) = state.sq_doorbell(id, tail);
            let (after, open) = disk_served(started, request, replies);
            &&& open is None
            &&& after.queue(id).sq_head == after.queue(id).sq_tail || after.fetched(
                memory,
                id,
            ).1 is None
        }),
{
    let queue = state.queue(id);
    assert(state.io[id - 1].valid());
    let rung = state.with_queue(id, NvmeQueue { sq_tail: tail, ..queue });
    assert(rung.valid());
    let (ram, memory) = rung.ram.loaded();
    lemma_io_drained(Nvme { ram, ..rung }, memory, id, queue.queue_size as nat, replies);
}

proof fn lemma_halves(value: u64)
    ensures
        ({
            let data = crate::bytes::le64_bytes(value);
            &&& data.len() == 8
            &&& crate::bytes::le64(data, 0) == value
            &&& crate::nvme::controller::value32(data.take(4)) == value % 0x1_0000_0000
            &&& crate::nvme::controller::value32(data.skip(4)) == value / 0x1_0000_0000
            &&& crate::nvme::controller::joined(
                (value / 0x1_0000_0000) as u32,
                (value % 0x1_0000_0000) as u32,
            ) == value
        }),
{
    let data = crate::bytes::le64_bytes(value);
    let lo = (value % 0x1_0000_0000) as u32;
    let hi = (value / 0x1_0000_0000) as u32;
    crate::bytes::le64_round_trip(value);
    crate::bytes::le32_round_trip(lo);
    crate::bytes::le32_round_trip(hi);
    assert(data.take(4) =~= crate::bytes::le32_bytes(lo));
    assert(data.skip(4) =~= crate::bytes::le32_bytes(hi));
    let low = data.take(4) + crate::bytes::zeros(4);
    let high = data.skip(4) + crate::bytes::zeros(4);
    assert(crate::bytes::le32(low, 0) == crate::bytes::le32(crate::bytes::le32_bytes(lo), 0));
    assert(crate::bytes::le32(high, 0) == crate::bytes::le32(crate::bytes::le32_bytes(hi), 0));
}

/// The address of the admin submission queue can be written in two halves, in either order:
/// the register then reads as after one write of the whole, and nothing else but the halves
/// themselves has changed. Only an address of zero is no address when it comes in halves.
pub proof fn the_submission_queue_takes_halves(state: Nvme, value: u64, buffer: Seq<u8>)
    requires
        state.admin.sq_addr is None,
        state.asq_lo == 0,
        state.asq_hi == 0,
        buffer.len() == 8,
    ensures
        ({
            let data = crate::bytes::le64_bytes(value);
            let (low, high) = (data.take(4), data.skip(4));
            let whole = state.register_written(0x28, data);
            let low_first = state.register_written(0x28, low).register_written(0x2c, high);
            let high_first = state.register_written(0x2c, high).register_written(0x28, low);
            &&& whole.register_read(0x28, buffer) == data
            &&& low_first.register_read(0x28, buffer) == data
            &&& high_first == low_first
            &&& value != 0 ==> low_first.admin == whole.admin
            &&& low_first == (Nvme {
                asq_lo: (value % 0x1_0000_0000) as u32,
                asq_hi: (value / 0x1_0000_0000) as u32,
                admin: NvmeQueue { sq_addr: low_first.admin.sq_addr, ..state.admin },
                ..state
            })
            &&& whole == (Nvme {
                admin: NvmeQueue { sq_addr: Some(value), ..state.admin },
                ..state
            })
        }),
{
    let data = crate::bytes::le64_bytes(value);
    lemma_halves(value);
    assert(crate::bytes::overlay(buffer, 0, data) =~= data);
}

/// The address of the admin completion queue can be written in two halves in the same way.
pub proof fn the_completion_queue_takes_halves(state: Nvme, value: u64, buffer: Seq<u8>)
    requires
        state.admin.cq_addr is None,
        state.acq_lo == 0,
        state.acq_hi == 0,
        buffer.len() == 8,
    ensures
        ({
            let data = crate::bytes::le64_bytes(value);
            let (low, high) = (data.take(4), data.skip(4));
            let whole = state.register_written(0x30, data);
            let low_first = state.register_written(0x30, low).register_written(0x34, high);
            let high_first = state.register_written(0x34, high).register_written(0x30, low);
            &&& whole.register_read(0x30, buffer) == data
            &&& low_first.register_read(0x30, buffer) == data
            &&& high_first == low_first
            &&& value != 0 ==> low_first.admin == whole.admin
            &&& low_first == (Nvme {
                acq_lo: (value % 0x1_0000_0000) as u32,
                acq_hi: (value / 0x1_0000_0000) as u32,
                admin: NvmeQueue { cq_addr: low_first.admin.cq_addr, ..state.admin },
                ..state
            })
            &&& whole == (Nvme {
                admin: NvmeQueue { cq_addr: Some(value), ..state.admin },
                ..state
            })
        }),
{
    let data = crate::bytes::le64_bytes(value);
    lemma_halves(value);
    assert(crate::bytes::overlay(buffer, 0, data) =~= data);
}

} // verus!
