//! The guest memory that a device may reach by DMA.
//!
//! Guest CPUs write to this memory at any time, so nothing is known of the bytes that a
//! read delivers. A [`Trace`] records the accesses that were made, with the bytes that each
//! read delivered. What a device does is a function of the guest's answers; the contracts
//! state it for all answers that agree with what was recorded.
use vstd::prelude::*;

use vm_memory::{MmapRegion, VolatileMemory};

use crate::bytes::{fill_from, get_le16, get_le32, push_le16, push_le32};

verus! {

/// `vm_memory::MmapRegion`, a mapping of shared memory into this process. Its contents are
/// not modelled.
#[verifier::external_type_specification]
#[verifier::external_body]
#[verifier::reject_recursive_types(B)]
pub struct ExMmapRegion<B>(vm_memory::MmapRegion<B>);

/// The length in bytes of a mapping, fixed when the mapping was made.
pub uninterp spec fn mapped_length(region: vm_memory::MmapRegion<()>) -> nat;

/// The memory protections that a mapping was made with, the bits of `mmap`.
pub uninterp spec fn protection(region: vm_memory::MmapRegion<()>) -> i32;

/// The bit of a protection that allows to read.
pub const PROT_READ: i32 = 1;
/// The bit of a protection that allows to write.
pub const PROT_WRITE: i32 = 2;

/// One access to a mapping, with the bytes that it delivered or wrote.
pub enum Access {
    Read { memory: MmapRegion<()>, offset: nat, data: Seq<u8> },
    Write { memory: MmapRegion<()>, offset: nat, data: Seq<u8> },
}

/// The bytes that a guest answers to the access of each number.
pub type Answers = spec_fn(nat) -> spec_fn(int) -> u8;

/// The answers that were recorded; what a later access would deliver is arbitrary.
pub open spec fn recorded(accesses: Seq<Access>) -> Answers {
    |n: nat|
        |i: int|
            match accesses[n as int] {
                Access::Read { data, .. } => data[i],
                Access::Write { .. } => 0u8,
            }
}

/// The accesses made so far, and the bytes that the guest answers to the access of each
/// number.
#[verifier::ext_equal]
pub struct Trace {
    pub accesses: Seq<Access>,
    pub answers: Answers,
}

impl Trace {
    /// The `length` bytes that the next access delivers.
    pub open spec fn answer(self, length: nat) -> Seq<u8> {
        let bytes = (self.answers)(self.accesses.len());
        Seq::new(length, |i: int| bytes(i))
    }

    pub open spec fn plus(self, access: Access) -> Trace {
        Trace { accesses: self.accesses.push(access), ..self }
    }

    /// The same accesses of a guest with other answers.
    pub open spec fn under(self, answers: Answers) -> Trace {
        Trace { answers, ..self }
    }

    /// Whether the bytes that the reads delivered are those of some answers.
    pub open spec fn agrees(self, answers: Answers) -> bool {
        forall|n: nat, i: int|
            n < self.accesses.len() ==> (match self.accesses[n as int] {
                Access::Read { data, .. } => 0 <= i < data.len() ==> #[trigger] answers(n)(i)
                    == data[i],
                Access::Write { .. } => true,
            })
    }
}

/// The record of the accesses of one memory map. Only the two functions that access a
/// mapping extend it.
pub struct AccessLog {
    accesses: Ghost<Seq<Access>>,
}

impl View for AccessLog {
    type V = Seq<Access>;

    closed spec fn view(&self) -> Seq<Access> {
        self.accesses@
    }
}

impl AccessLog {
    fn new() -> (r: Self)
        ensures
            r@ == Seq::<Access>::empty(),
    {
        AccessLog { accesses: Ghost(Seq::empty()) }
    }
}

/// `MmapRegion::prot`: the protections that the mapping was made with.
#[verifier::external_body]
fn protection_of(region: &MmapRegion<()>) -> (r: i32)
    ensures
        r == protection(*region),
{
    region.prot()
}

/// `MmapRegion::size`: the length that the mapping was made with.
#[verifier::external_body]
fn length_of(region: &MmapRegion<()>) -> (r: usize)
    ensures
        r == mapped_length(*region),
{
    region.size()
}

/// `MmapRegion::get_slice` and `VolatileSlice::copy_to`: copies `length` bytes out of the
/// mapping, which has to allow reads. The bytes are the guest's; they are entered in the log.
#[verifier::external_body]
fn copy_out(region: &MmapRegion<()>, offset: usize, length: usize, log: &mut AccessLog) -> (r: Vec<
    u8,
>)
    requires
        offset + length <= mapped_length(*region),
        protection(*region) & PROT_READ != 0,
    ensures
        r@.len() == length,
        final(log)@ == old(log)@.push(
            Access::Read { memory: *region, offset: offset as nat, data: r@ },
        ),
{
    let mut data = vec![0u8; length];
    let _ = region.get_slice(offset, length).unwrap().copy_to(&mut data[..]);
    data
}

/// `MmapRegion::get_slice` and `VolatileSlice::copy_from`: copies `data` into the mapping
/// at `offset`, which has to allow writes. The copy is entered in the log; what the guest
/// finds there later is not stated, for it may write there too.
#[verifier::external_body]
fn copy_in(region: &MmapRegion<()>, offset: usize, data: &[u8], log: &mut AccessLog)
    requires
        offset + data@.len() <= mapped_length(*region),
        protection(*region) & PROT_WRITE != 0,
    ensures
        final(log)@ == old(log)@.push(
            Access::Write { memory: *region, offset: offset as nat, data: data@ },
        ),
{
    region.get_slice(offset, data.len()).unwrap().copy_from(data);
}

#[derive(Clone, Copy, Debug, PartialEq, Eq, PartialOrd, Ord)]
pub struct GuestAddress(pub u64);

/// What the client allows the device to do with a mapping.
#[derive(Clone, Copy, Debug, PartialEq, Eq)]
pub struct DmaMapFlags {
    pub read: bool,
    pub write: bool,
}

/// Why a mapping, or an access to the mappings, was refused.
#[derive(Clone, Copy, Debug, PartialEq, Eq, Structural)]
pub enum GuestMemoryError {
    /// The mapping has no bytes.
    EmptyMapping,
    /// The end of the range is not a 64-bit address.
    RangeOverflow,
    /// The client sent no file for the mapping.
    NoSharedMemory,
    /// The mapping does not fit the address space of this process.
    TooLarge,
    /// The mapping is neither readable nor writable.
    NoPermission,
    /// The memory that was mapped has another length than the mapping, or it does not allow
    /// what the mapping allows.
    MappingFailed,
    /// The mapping overlaps another one.
    Overlap,
    /// No readable mapping holds the whole range.
    NotReadable,
    /// No writable mapping holds the whole range.
    NotWritable,
}

pub struct GuestMemoryRegion {
    pub start: GuestAddress,
    pub size: u64,
    pub readable: bool,
    pub writable: bool,
    pub memory: MmapRegion<()>,
}

impl GuestMemoryRegion {
    pub open spec fn last(self) -> int {
        self.start.0 + self.size
    }

    /// Whether the whole range lies in the region.
    pub open spec fn covers(self, address: u64, length: nat) -> bool {
        self.start.0 <= address && address + length <= self.last()
    }

    /// Whether the region and the range share an address.
    pub open spec fn meets(self, address: u64, size: u64) -> bool {
        address < self.last() && self.start.0 < address + size
    }

    pub open spec fn valid(self) -> bool {
        &&& self.size > 0
        &&& self.last() <= u64::MAX
        &&& self.size == mapped_length(self.memory)
        &&& self.size <= usize::MAX
        &&& self.readable ==> protection(self.memory) & PROT_READ != 0
        &&& self.writable ==> protection(self.memory) & PROT_WRITE != 0
    }

    fn end(&self) -> (r: Option<u64>)
        ensures
            r == (if self.last() <= u64::MAX {
                Some(self.last() as u64)
            } else {
                None
            }),
    {
        self.start.0.checked_add(self.size)
    }

    fn contains(&self, address: GuestAddress, length: usize) -> (r: bool)
        requires
            self.valid(),
        ensures
            r == self.covers(address.0, length as nat),
    {
        match address.0.checked_add(length as u64) {
            None => false,
            Some(end) => match self.end() {
                None => false,
                Some(region_end) => self.start.0 <= address.0 && end <= region_end,
            },
        }
    }

    fn overlaps(&self, address: GuestAddress, end: u64) -> (r: bool)
        requires
            self.valid(),
        ensures
            r == (address.0 < self.last() && self.start.0 < end),
    {
        match self.end() {
            None => false,
            Some(region_end) => address.0 < region_end && self.start.0 < end,
        }
    }

    fn offset(&self, address: GuestAddress) -> (r: Option<usize>)
        ensures
            r == (if self.start.0 <= address.0 && address.0 - self.start.0 <= usize::MAX {
                Some((address.0 - self.start.0) as usize)
            } else {
                None
            }),
    {
        match address.0.checked_sub(self.start.0) {
            None => None,
            Some(offset) => if offset <= usize::MAX as u64 {
                Some(offset as usize)
            } else {
                None
            },
        }
    }
}

/// The mappings, and the accesses made to them.
#[verifier::ext_equal]
pub struct Dma {
    pub regions: Seq<GuestMemoryRegion>,
    pub trace: Trace,
}

/// The first region from `from` on that allows the access and holds the whole range.
pub open spec fn region_from(
    regions: Seq<GuestMemoryRegion>,
    from: int,
    write: bool,
    address: u64,
    length: nat,
) -> Option<int>
    decreases regions.len() - from,
{
    if from < 0 || from >= regions.len() {
        None
    } else if (if write {
        regions[from].writable
    } else {
        regions[from].readable
    }) && regions[from].covers(address, length) {
        Some(from)
    } else {
        region_from(regions, from + 1, write, address, length)
    }
}

impl Dma {
    /// The same memory of a guest with other answers.
    pub open spec fn under(self, answers: Answers) -> Dma {
        Dma { trace: self.trace.under(answers), ..self }
    }

    /// Whether the bytes that the reads delivered are those of some answers.
    pub closed spec fn agrees(self, answers: Answers) -> bool {
        self.trace.agrees(answers)
    }

    /// Whether the bytes that the reads delivered are those of its own answers.
    pub open spec fn settled(self) -> bool {
        self.agrees(self.trace.answers)
    }

    /// Whether this is the memory after more accesses, with the same mappings.
    pub closed spec fn follows(self, earlier: Dma) -> bool {
        &&& self.regions == earlier.regions
        &&& earlier.trace.accesses.is_prefix_of(self.trace.accesses)
    }

    /// The index of the region that serves an access, if there is one.
    pub open spec fn region(self, write: bool, address: u64, length: nat) -> Option<int> {
        region_from(self.regions, 0, write, address, length)
    }

    pub open spec fn offset(self, index: int, address: u64) -> nat {
        (address - self.regions[index].start.0) as nat
    }

    /// A read of `length` bytes: refused without an access unless one readable mapping
    /// holds the whole range.
    pub open spec fn read(self, address: u64, length: nat) -> (Dma, Option<Seq<u8>>) {
        match self.region(false, address, length) {
            None => (self, None),
            Some(i) => (
                Dma {
                    trace: self.trace.plus(
                        Access::Read {
                            memory: self.regions[i].memory,
                            offset: self.offset(i, address),
                            data: self.trace.answer(length),
                        },
                    ),
                    ..self
                },
                Some(self.trace.answer(length)),
            ),
        }
    }

    /// A write of `data`, and whether it was made: one writable mapping has to hold the
    /// whole range.
    pub open spec fn write(self, address: u64, data: Seq<u8>) -> (Dma, bool) {
        match self.region(true, address, data.len()) {
            None => (self, false),
            Some(i) => (
                Dma {
                    trace: self.trace.plus(
                        Access::Write {
                            memory: self.regions[i].memory,
                            offset: self.offset(i, address),
                            data,
                        },
                    ),
                    ..self
                },
                true,
            ),
        }
    }

    pub open spec fn read_u16(self, address: u64) -> (Dma, Option<u16>) {
        let (dma, bytes) = self.read(address, 2);
        match bytes {
            None => (dma, None),
            Some(b) => (dma, Some(crate::bytes::le16(b, 0))),
        }
    }

    pub open spec fn read_u32(self, address: u64) -> (Dma, Option<u32>) {
        let (dma, bytes) = self.read(address, 4);
        match bytes {
            None => (dma, None),
            Some(b) => (dma, Some(crate::bytes::le32(b, 0))),
        }
    }

    pub open spec fn write_u32(self, address: u64, value: u32) -> (Dma, bool) {
        self.write(address, crate::bytes::le32_bytes(value))
    }

    /// What holds of the mappings at all times: they are in the order of their addresses
    /// and do not overlap.
    pub open spec fn valid(self) -> bool {
        &&& forall|i: int| 0 <= i < self.regions.len() ==> (#[trigger] self.regions[i]).valid()
        &&& forall|i: int, j: int|
            0 <= i < j < self.regions.len() ==> self.regions[i].last() <= self.regions[j].start.0
    }
}

/// Whether the accesses are those of a memory that only the device writes to: each byte that
/// a read delivered is the one last written there, or the one in `initial`.
pub open spec fn undisturbed(
    accesses: Seq<Access>,
    initial: spec_fn(MmapRegion<()>, int) -> u8,
) -> bool {
    forall|n: nat|
        n < accesses.len() ==> match #[trigger] accesses[n as int] {
            Access::Read { memory, offset, data } => forall|i: int|
                0 <= i < data.len() ==> #[trigger] data[i] == content(
                    accesses,
                    n,
                    initial,
                    memory,
                    offset + i,
                ),
            Access::Write { .. } => true,
        }
}

/// The byte at an offset of a mapping after the first `n` accesses.
pub open spec fn content(
    accesses: Seq<Access>,
    n: nat,
    initial: spec_fn(MmapRegion<()>, int) -> u8,
    memory: MmapRegion<()>,
    at: int,
) -> u8
    decreases n,
{
    if n == 0 {
        initial(memory, at)
    } else {
        match accesses[n - 1] {
            Access::Write { memory: target, offset, data } if target == memory && offset <= at
                < offset + data.len() => data[at - offset],
            _ => content(accesses, (n - 1) as nat, initial, memory, at),
        }
    }
}

/// Whether `after` holds the regions of `before` and one more.
pub open spec fn region_added(
    before: Seq<GuestMemoryRegion>,
    after: Seq<GuestMemoryRegion>,
    region: GuestMemoryRegion,
) -> bool {
    exists|k: int| 0 <= k <= before.len() && after == #[trigger] before.insert(k, region)
}

/// The answer to a request for a mapping, but for the overlap with other mappings.
pub open spec fn mapping_check(
    flags: DmaMapFlags,
    address: u64,
    size: u64,
    has_memory: bool,
) -> Result<usize, GuestMemoryError> {
    if size == 0 {
        Err(GuestMemoryError::EmptyMapping)
    } else if address + size > u64::MAX {
        Err(GuestMemoryError::RangeOverflow)
    } else if !has_memory {
        Err(GuestMemoryError::NoSharedMemory)
    } else if size > usize::MAX {
        Err(GuestMemoryError::TooLarge)
    } else if !flags.read && !flags.write {
        Err(GuestMemoryError::NoPermission)
    } else {
        Ok(size as usize)
    }
}

/// Whether a mapping allows what is asked of it.
pub open spec fn allows(memory: MmapRegion<()>, flags: DmaMapFlags) -> bool {
    &&& flags.read ==> protection(memory) & PROT_READ != 0
    &&& flags.write ==> protection(memory) & PROT_WRITE != 0
}

/// The answer to a request for a mapping of `memory`.
pub open spec fn map_outcome(
    dma: Dma,
    flags: DmaMapFlags,
    address: u64,
    size: u64,
    memory: Option<MmapRegion<()>>,
) -> Result<(), GuestMemoryError> {
    match mapping_check(flags, address, size, memory is Some) {
        Err(error) => Err(error),
        Ok(_) => if mapped_length(memory->0) != size || !allows(memory->0, flags) {
            Err(GuestMemoryError::MappingFailed)
        } else if exists|i: int|
            0 <= i < dma.regions.len() && (#[trigger] dma.regions[i]).meets(address, size) {
            Err(GuestMemoryError::Overlap)
        } else {
            Ok(())
        },
    }
}

/// Decides whether a mapping can be made, before the memory is mapped, and with how many
/// bytes.
pub fn check_mapping(flags: DmaMapFlags, address: GuestAddress, size: u64, has_memory: bool) -> (r:
    Result<usize, GuestMemoryError>)
    ensures
        r == mapping_check(flags, address.0, size, has_memory),
{
    if size == 0 {
        return Err(GuestMemoryError::EmptyMapping);
    }
    if address.0.checked_add(size).is_none() {
        return Err(GuestMemoryError::RangeOverflow);
    }
    if !has_memory {
        return Err(GuestMemoryError::NoSharedMemory);
    }
    if size > usize::MAX as u64 {
        return Err(GuestMemoryError::TooLarge);
    }
    if !flags.read && !flags.write {
        return Err(GuestMemoryError::NoPermission);
    }
    Ok(size as usize)
}

/// Owns the active DMA mappings and bounds every access to guest memory. A partial unmap
/// removes each mapping that it touches.
pub struct GuestMemoryMap {
    regions: Vec<GuestMemoryRegion>,
    log: AccessLog,
}

impl View for GuestMemoryMap {
    type V = Dma;

    closed spec fn view(&self) -> Dma {
        Dma {
            regions: self.regions@,
            trace: Trace { accesses: self.log@, answers: recorded(self.log@) },
        }
    }
}

impl GuestMemoryMap {
    pub fn new() -> (r: Self)
        ensures
            r@.valid(),
            r@.regions == Seq::<GuestMemoryRegion>::empty(),
            r@.trace.accesses == Seq::<Access>::empty(),
    {
        GuestMemoryMap { regions: Vec::new(), log: AccessLog::new() }
    }

    pub fn mapping_count(&self) -> (r: usize)
        ensures
            r == self@.regions.len(),
    {
        self.regions.len()
    }

    /// Whether one mapping holds the whole range.
    pub fn contains(&self, address: GuestAddress, length: usize) -> (r: bool)
        requires
            self@.valid(),
        ensures
            r == exists|i: int|
                0 <= i < self@.regions.len() && (#[trigger] self@.regions[i]).covers(
                    address.0,
                    length as nat,
                ),
    {
        let mut i: usize = 0;
        while i < self.regions.len()
            invariant
                self@.valid(),
                i <= self.regions@.len(),
                forall|k: int|
                    0 <= k < i ==> !(#[trigger] self.regions@[k]).covers(address.0, length as nat),
            decreases self.regions@.len() - i,
        {
            assert(self@.regions[i as int].valid());
            if self.regions[i].contains(address, length) {
                assert(self@.regions[i as int].covers(address.0, length as nat));
                return true;
            }
            i = i + 1;
        }
        false
    }

    /// Adds a mapping of `memory` at `address`.
    pub fn map(
        &mut self,
        flags: DmaMapFlags,
        address: GuestAddress,
        size: u64,
        memory: Option<MmapRegion<()>>,
    ) -> (r: Result<(), GuestMemoryError>)
        requires
            old(self)@.valid(),
        ensures
            final(self)@.valid(),
            final(self)@.trace == old(self)@.trace,
            r == map_outcome(old(self)@, flags, address.0, size, memory),
            match r {
                Err(_) => *final(self) == *old(self),
                Ok(_) => region_added(
                    old(self)@.regions,
                    final(self)@.regions,
                    GuestMemoryRegion {
                        start: address,
                        size,
                        readable: flags.read,
                        writable: flags.write,
                        memory: memory->0,
                    },
                ),
            },
    {
        let size_usize: usize = match check_mapping(flags, address, size, memory.is_some()) {
            Ok(length) => length,
            Err(error) => {
                return Err(error);
            },
        };
        let mapped = memory.unwrap();
        if length_of(&mapped) != size_usize {
            return Err(GuestMemoryError::MappingFailed);
        }
        let allowed: i32 = protection_of(&mapped);
        if (flags.read && allowed & PROT_READ == 0) || (flags.write && allowed & PROT_WRITE == 0) {
            return Err(GuestMemoryError::MappingFailed);
        }
        let end: u64 = address.0 + size;
        let mut i: usize = 0;
        while i < self.regions.len()
            invariant
                self@.valid(),
                *self == *old(self),
                end == address.0 + size,
                mapping_check(flags, address.0, size, memory is Some) is Ok,
                mapped_length(memory->0) == size,
                allows(memory->0, flags),
                i <= self.regions@.len(),
                forall|k: int|
                    0 <= k < i ==> !(#[trigger] self@.regions[k]).meets(address.0, size),
            decreases self.regions@.len() - i,
        {
            assert(self@.regions[i as int].valid());
            if self.regions[i].overlaps(address, end) {
                assert(self@.regions[i as int].meets(address.0, size));
                return Err(GuestMemoryError::Overlap);
            }
            i = i + 1;
        }
        let mut at: usize = 0;
        while at < self.regions.len() && self.regions[at].start.0 < address.0
            invariant
                *self == *old(self),
                at <= self.regions@.len(),
                forall|k: int| 0 <= k < at ==> (#[trigger] self@.regions[k]).start.0 < address.0,
            decreases self.regions@.len() - at,
        {
            assert(self@.regions[at as int].start.0 < address.0);
            at = at + 1;
        }
        let ghost before = self.regions@;
        let region = GuestMemoryRegion {
            start: address,
            size,
            readable: flags.read,
            writable: flags.write,
            memory: mapped,
        };
        let ghost added = region;
        self.regions.insert(at, region);
        proof {
            let after = self.regions@;
            assert(after == before.insert(at as int, added));
            assert(region_added(before, after, added));
            assert forall|k: int| 0 <= k < before.len() implies !(#[trigger] before[k]).meets(
                address.0,
                size,
            ) by {
                assert(!old(self)@.regions[k].meets(address.0, size));
            }
            assert forall|a: int| 0 <= a < after.len() implies (#[trigger] after[a]).valid() by {
                if a < at {
                    assert(after[a] == before[a]);
                    assert(old(self)@.regions[a].valid());
                } else if a > at {
                    assert(after[a] == before[a - 1]);
                    assert(old(self)@.regions[a - 1].valid());
                }
            }
            assert forall|a: int, b: int| 0 <= a < b < after.len() implies after[a].last()
                <= after[b].start.0 by {
                if a < at {
                    assert(old(self)@.regions[a].start.0 < address.0);
                    assert(!before[a].meets(address.0, size));
                }
                if b > at {
                    assert(!before[b - 1].meets(address.0, size));
                    assert(old(self)@.regions[b - 1].valid());
                    assert(at < before.len());
                    assert(before[at as int].start.0 >= address.0);
                    if b - 1 > at {
                        assert(old(self)@.regions[at as int].last()
                            <= old(self)@.regions[b - 1].start.0);
                    }
                }
                if a < at && b < at {
                    assert(old(self)@.regions[a].last() <= old(self)@.regions[b].start.0);
                } else if a < at && b > at {
                    assert(old(self)@.regions[a].last() <= old(self)@.regions[b - 1].start.0);
                } else if a > at {
                    assert(old(self)@.regions[a - 1].last() <= old(self)@.regions[b - 1].start.0);
                }
            }
        }
        Ok(())
    }

    /// Removes every mapping that shares an address with the range, or all mappings, and
    /// returns how many there were.
    pub fn unmap(&mut self, all: bool, address: GuestAddress, size: u64) -> (r: Result<
        usize,
        GuestMemoryError,
    >)
        requires
            old(self)@.valid(),
        ensures
            final(self)@.valid(),
            final(self)@.trace == old(self)@.trace,
            if all {
                r == Ok::<usize, GuestMemoryError>(old(self)@.regions.len() as usize)
                    && final(self)@.regions.len() == 0
            } else if address.0 + size > u64::MAX {
                r == Err::<usize, GuestMemoryError>(GuestMemoryError::RangeOverflow)
                    && *final(self) == *old(self)
            } else {
                &&& r is Ok
                &&& r->Ok_0 == old(self)@.regions.len() - final(self)@.regions.len()
                &&& final(self)@.regions == old(self)@.regions.filter(
                    |region: GuestMemoryRegion| !region.meets(address.0, size),
                )
            },
    {
        if all {
            let removed: usize = self.regions.len();
            self.regions.clear();
            return Ok(removed);
        }
        let end: u64 = match address.0.checked_add(size) {
            Some(end) => end,
            None => {
                return Err(GuestMemoryError::RangeOverflow);
            },
        };
        let ghost before = self.regions@;
        let ghost keep = |region: GuestMemoryRegion| !region.meets(address.0, size);
        let total: usize = self.regions.len();
        let mut removed: usize = 0;
        let mut i: usize = 0;
        assert(before.take(0).filter(keep) =~= Seq::empty()) by {
            reveal(Seq::filter);
        }
        assert(before.skip(0) =~= before);
        assert(before == old(self)@.regions);
        while i < self.regions.len()
            invariant
                end == address.0 + size,
                keep == (|region: GuestMemoryRegion| !region.meets(address.0, size)),
                before == old(self)@.regions,
                old(self)@.valid(),
                self@.trace == old(self)@.trace,
                i <= self.regions@.len(),
                self.regions@.len() + removed == before.len(),
                total == before.len(),
                self.regions@.take(i as int) == before.take(i + removed).filter(keep),
                self.regions@.skip(i as int) == before.skip(i + removed),
            decreases self.regions@.len() - i,
        {
            let ghost now = self.regions@;
            let ghost seen = i + removed;
            assert(now[i as int] == now.skip(i as int)[0]);
            assert(now[i as int] == before[seen]) by {
                assert(before.skip(seen)[0] == before[seen]);
            }
            assert(old(self)@.regions[seen].valid());
            assert(before.take(seen + 1) =~= before.take(seen).push(before[seen]));
            assert(before.take(seen + 1).filter(keep) == if keep(before[seen]) {
                before.take(seen).filter(keep).push(before[seen])
            } else {
                before.take(seen).filter(keep)
            }) by {
                reveal(Seq::filter);
                assert(before.take(seen + 1).drop_last() =~= before.take(seen));
            }
            if self.regions[i].overlaps(address, end) {
                let _ = self.regions.remove(i);
                removed = removed + 1;
                assert(self.regions@.take(i as int) =~= now.take(i as int));
                assert(self.regions@.skip(i as int) =~= now.skip(i as int).skip(1));
                assert(before.skip(seen).skip(1) =~= before.skip(seen + 1));
            } else {
                i = i + 1;
                assert(now.take(i as int) =~= now.take(i - 1).push(now[i - 1]));
                assert(now.skip(i as int) =~= now.skip(i - 1).skip(1));
                assert(before.skip(seen).skip(1) =~= before.skip(seen + 1));
            }
        }
        assert(self.regions@.take(i as int) =~= self.regions@);
        assert(before.take(i + removed) =~= before);
        proof {
            lemma_filter_keeps_order(old(self)@, keep);
            assert(self@ =~= Dma { regions: before.filter(keep), ..old(self)@ });
        }
        Ok(removed)
    }

    /// Removes every mapping.
    pub fn clear(&mut self)
        ensures
            final(self)@.valid(),
            final(self)@.regions == Seq::<GuestMemoryRegion>::empty(),
            final(self)@.trace == old(self)@.trace,
    {
        self.regions.clear();
    }

    fn find(&self, write: bool, address: GuestAddress, length: usize) -> (r: Option<usize>)
        requires
            self@.valid(),
        ensures
            match r {
                Some(i) => self@.region(write, address.0, length as nat) == Some(i as int),
                None => self@.region(write, address.0, length as nat) is None,
            },
            r is Some ==> r->0 < self.regions@.len() && self.regions@[r->0 as int].covers(
                address.0,
                length as nat,
            ),
            r is Some ==> if write {
                self.regions@[r->0 as int].writable
            } else {
                self.regions@[r->0 as int].readable
            },
    {
        let mut i: usize = 0;
        while i < self.regions.len()
            invariant
                self@.valid(),
                i <= self.regions@.len(),
                region_from(self@.regions, 0, write, address.0, length as nat) == region_from(
                    self@.regions,
                    i as int,
                    write,
                    address.0,
                    length as nat,
                ),
            decreases self.regions@.len() - i,
        {
            assert(self@.regions[i as int].valid());
            let region = &self.regions[i];
            let allowed = if write {
                region.writable
            } else {
                region.readable
            };
            if allowed && region.contains(address, length) {
                return Some(i);
            }
            i = i + 1;
        }
        None
    }

    /// Fills `data` from guest memory.
    pub fn read(&mut self, address: GuestAddress, data: &mut [u8]) -> (r: Result<
        (),
        GuestMemoryError,
    >)
        requires
            old(self)@.valid(),
        ensures
            final(self)@.valid(),
            final(self)@.follows(old(self)@),
            final(self)@.settled(),
            final(data)@.len() == old(data)@.len(),
            forall|answers: Answers| #[trigger]
                final(self)@.agrees(answers) ==> {
                    let (dma, got) = old(self)@.under(answers).read(address.0, old(data)@.len());
                    &&& final(self)@.under(answers) == dma
                    &&& match got {
                        Some(bytes) => r is Ok && final(data)@ == bytes,
                        None => r == Err::<(), GuestMemoryError>(GuestMemoryError::NotReadable)
                            && final(data)@ == old(data)@,
                    }
                },
    {
        let length: usize = data.len();
        match self.read_vec(address, length) {
            Err(error) => Err(error),
            Ok(bytes) => {
                fill_from(data, &bytes, 0);
                assert(bytes@.subrange(0, length as int) =~= bytes@);
                Ok(())
            },
        }
    }

    /// Writes `data` to guest memory.
    pub fn write(&mut self, address: GuestAddress, data: &[u8]) -> (r: Result<(), GuestMemoryError>)
        requires
            old(self)@.valid(),
        ensures
            final(self)@.valid(),
            final(self)@.follows(old(self)@),
            final(self)@.settled(),
            forall|answers: Answers| #[trigger]
                final(self)@.agrees(answers) ==> final(self)@.under(answers) == old(self)@.under(
                    answers,
                ).write(address.0, data@).0,
            r == (if old(self)@.write(address.0, data@).1 {
                Ok(())
            } else {
                Err(GuestMemoryError::NotWritable)
            }),
    {
        match self.find(true, address, data.len()) {
            None => Err(GuestMemoryError::NotWritable),
            Some(index) => {
                assert(self@.regions[index as int].valid());
                match self.regions[index].offset(address) {
                    None => Err(GuestMemoryError::NotWritable),
                    Some(offset) => {
                        copy_in(&self.regions[index].memory, offset, data, &mut self.log);
                        proof {
                            lemma_pushed(old(self)@, self@);
                        }
                        Ok(())
                    },
                }
            },
        }
    }

    /// Reads `length` bytes of guest memory.
    pub fn read_vec(&mut self, address: GuestAddress, length: usize) -> (r: Result<
        Vec<u8>,
        GuestMemoryError,
    >)
        requires
            old(self)@.valid(),
        ensures
            final(self)@.valid(),
            final(self)@.follows(old(self)@),
            final(self)@.settled(),
            r matches Ok(bytes) ==> bytes@.len() == length,
            forall|answers: Answers| #[trigger]
                final(self)@.agrees(answers) ==> {
                    let (dma, got) = old(self)@.under(answers).read(address.0, length as nat);
                    &&& final(self)@.under(answers) == dma
                    &&& match got {
                        Some(bytes) => r is Ok && r->Ok_0@ == bytes,
                        None => r == Err::<Vec<u8>, GuestMemoryError>(
                            GuestMemoryError::NotReadable,
                        ),
                    }
                },
    {
        match self.find(false, address, length) {
            None => Err(GuestMemoryError::NotReadable),
            Some(index) => {
                assert(self@.regions[index as int].valid());
                match self.regions[index].offset(address) {
                    None => Err(GuestMemoryError::NotReadable),
                    Some(offset) => {
                        let bytes = copy_out(
                            &self.regions[index].memory,
                            offset,
                            length,
                            &mut self.log,
                        );
                        proof {
                            lemma_pushed(old(self)@, self@);
                            let n = old(self)@.trace.accesses.len();
                            assert(self@.trace.accesses[n as int] == (Access::Read {
                                memory: self@.regions[index as int].memory,
                                offset: offset as nat,
                                data: bytes@,
                            }));
                            assert forall|answers: Answers| #[trigger]
                                self@.agrees(answers) implies old(self)@.under(
                                answers,
                            ).trace.answer(length as nat) == bytes@ by {
                                assert forall|i: int| 0 <= i < length implies bytes@[i]
                                    == #[trigger] answers(n)(i) by {}
                                assert(old(self)@.under(answers).trace.answer(length as nat)
                                    =~= bytes@);
                            }
                        }
                        Ok(bytes)
                    },
                }
            },
        }
    }

    pub fn read_u32(&mut self, address: GuestAddress) -> (r: Result<u32, GuestMemoryError>)
        requires
            old(self)@.valid(),
        ensures
            final(self)@.valid(),
            final(self)@.follows(old(self)@),
            final(self)@.settled(),
            forall|answers: Answers| #[trigger]
                final(self)@.agrees(answers) ==> {
                    let (dma, got) = old(self)@.under(answers).read_u32(address.0);
                    &&& final(self)@.under(answers) == dma
                    &&& r == (match got {
                        Some(value) => Ok(value),
                        None => Err(GuestMemoryError::NotReadable),
                    })
                },
    {
        match self.read_vec(address, 4) {
            Ok(bytes) => Ok(get_le32(&bytes, 0)),
            Err(error) => Err(error),
        }
    }

    pub fn read_u16(&mut self, address: GuestAddress) -> (r: Result<u16, GuestMemoryError>)
        requires
            old(self)@.valid(),
        ensures
            final(self)@.valid(),
            final(self)@.follows(old(self)@),
            final(self)@.settled(),
            forall|answers: Answers| #[trigger]
                final(self)@.agrees(answers) ==> {
                    let (dma, got) = old(self)@.under(answers).read_u16(address.0);
                    &&& final(self)@.under(answers) == dma
                    &&& r == (match got {
                        Some(value) => Ok(value),
                        None => Err(GuestMemoryError::NotReadable),
                    })
                },
    {
        match self.read_vec(address, 2) {
            Ok(bytes) => Ok(get_le16(&bytes, 0)),
            Err(error) => Err(error),
        }
    }

    pub fn write_u16(&mut self, address: GuestAddress, value: u16) -> (r: Result<
        (),
        GuestMemoryError,
    >)
        requires
            old(self)@.valid(),
        ensures
            final(self)@.valid(),
            final(self)@.follows(old(self)@),
            final(self)@.settled(),
            forall|answers: Answers| #[trigger]
                final(self)@.agrees(answers) ==> final(self)@.under(answers) == old(self)@.under(
                    answers,
                ).write(address.0, crate::bytes::le16_bytes(value)).0,
            r == (if old(self)@.write(address.0, crate::bytes::le16_bytes(value)).1 {
                Ok(())
            } else {
                Err(GuestMemoryError::NotWritable)
            }),
    {
        let mut data: Vec<u8> = Vec::new();
        push_le16(&mut data, value);
        assert(data@ =~= crate::bytes::le16_bytes(value));
        self.write(address, &data)
    }

    pub fn write_u32(&mut self, address: GuestAddress, value: u32) -> (r: Result<
        (),
        GuestMemoryError,
    >)
        requires
            old(self)@.valid(),
        ensures
            final(self)@.valid(),
            final(self)@.follows(old(self)@),
            final(self)@.settled(),
            forall|answers: Answers| #[trigger]
                final(self)@.agrees(answers) ==> final(self)@.under(answers) == old(self)@.under(
                    answers,
                ).write_u32(address.0, value).0,
            r == (if old(self)@.write_u32(address.0, value).1 {
                Ok(())
            } else {
                Err(GuestMemoryError::NotWritable)
            }),
    {
        let mut data: Vec<u8> = Vec::new();
        push_le32(&mut data, value);
        assert(data@ =~= crate::bytes::le32_bytes(value));
        self.write(address, &data)
    }
}

impl Default for GuestMemoryMap {
    fn default() -> (r: Self)
        ensures
            r@.valid(),
            r@.regions == Seq::<GuestMemoryRegion>::empty(),
            r@.trace.accesses == Seq::<Access>::empty(),
    {
        Self::new()
    }
}

/// A memory after one more access follows the one before it.
proof fn lemma_pushed(before: Dma, after: Dma)
    requires
        after.regions == before.regions,
        exists|access: Access|
            after.trace.accesses == #[trigger] before.trace.accesses.push(access),
    ensures
        after.follows(before),
{
    assert(before.trace.accesses =~= after.trace.accesses.take(
        before.trace.accesses.len() as int,
    ));
}

/// Answers that agree with a memory agree with what it was before.
pub broadcast proof fn lemma_agrees_before(earlier: Dma, later: Dma, answers: Answers)
    requires
        #[trigger] later.follows(earlier),
        #[trigger] later.agrees(answers),
    ensures
        earlier.agrees(answers),
{
    assert forall|n: nat, i: int| n < earlier.trace.accesses.len() implies (
    match earlier.trace.accesses[n as int] {
        Access::Read { data, .. } => 0 <= i < data.len() ==> #[trigger] answers(n)(i) == data[i],
        Access::Write { .. } => true,
    }) by {
        assert(earlier.trace.accesses[n as int] == later.trace.accesses[n as int]);
    }
}

/// What follows a memory that follows another one follows that one too.
pub broadcast proof fn lemma_follows_joins(first: Dma, second: Dma, third: Dma)
    requires
        #[trigger] second.follows(first),
        #[trigger] third.follows(second),
    ensures
        third.follows(first),
{
    assert forall|i: int| 0 <= i < first.trace.accesses.len() implies first.trace.accesses[i]
        == third.trace.accesses[i] by {
        assert(first.trace.accesses[i] == second.trace.accesses[i]);
    }
    assert(first.trace.accesses =~= third.trace.accesses.take(
        first.trace.accesses.len() as int,
    ));
}

/// A memory follows itself, and what follows a memory has its mappings and its accesses.
pub broadcast proof fn lemma_follows_keeps(earlier: Dma, later: Dma)
    ensures
        #[trigger] later.follows(earlier) ==> later.regions == earlier.regions
            && earlier.trace.accesses.is_prefix_of(later.trace.accesses),
        later == earlier ==> later.follows(earlier),
{
}

/// The answers of a memory are those that it recorded.
pub broadcast proof fn lemma_settled(memory: &GuestMemoryMap)
    ensures
        (#[trigger] memory@).settled(),
{
}

pub broadcast group group_answers {
    lemma_agrees_before,
    lemma_follows_joins,
    lemma_follows_keeps,
}

/// There are answers that agree with every memory: those that it recorded.
pub proof fn the_recorded_answers_agree(memory: &GuestMemoryMap)
    ensures
        memory@.agrees(memory@.trace.answers),
        memory@.under(memory@.trace.answers) == memory@,
{
}

/// Removing regions keeps the others valid and in order.
pub proof fn lemma_filter_keeps_order(dma: Dma, keep: spec_fn(GuestMemoryRegion) -> bool)
    requires
        dma.valid(),
    ensures
        (Dma { regions: dma.regions.filter(keep), ..dma }).valid(),
        forall|i: int|
            0 <= i < dma.regions.filter(keep).len() ==> dma.regions.contains(
                #[trigger] dma.regions.filter(keep)[i],
            ),
    decreases dma.regions.len(),
{
    reveal(Seq::filter);
    if dma.regions.len() > 0 {
        let init = dma.regions.drop_last();
        let rest = Dma { regions: init, ..dma };
        assert(rest.valid()) by {
            assert forall|i: int| 0 <= i < init.len() implies (#[trigger] init[i]).valid() by {
                assert(dma.regions[i].valid());
            }
            assert forall|i: int, j: int| 0 <= i < j < init.len() implies init[i].last()
                <= init[j].start.0 by {
                assert(dma.regions[i].last() <= dma.regions[j].start.0);
            }
        }
        lemma_filter_keeps_order(rest, keep);
        let last = dma.regions.last();
        assert(dma.regions[dma.regions.len() - 1].valid());
        let filtered = dma.regions.filter(keep);
        let before = init.filter(keep);
        assert forall|i: int| 0 <= i < before.len() implies dma.regions.contains(
            #[trigger] before[i],
        ) && before[i].last() <= last.start.0 by {
            let k = choose|k: int| 0 <= k < init.len() && init[k] == before[i];
            assert(dma.regions[k] == before[i]);
            assert(dma.regions[k].last() <= dma.regions[dma.regions.len() - 1].start.0);
        }
        assert forall|i: int| 0 <= i < filtered.len() implies dma.regions.contains(
            #[trigger] filtered[i],
        ) && filtered[i].valid() by {
            if i < before.len() {
                assert(filtered[i] == before[i]);
                assert(rest.regions.filter(keep)[i].valid());
            } else {
                assert(filtered[i] == last);
                assert(dma.regions[dma.regions.len() - 1] == last);
            }
        }
        assert forall|i: int, j: int| 0 <= i < j < filtered.len() implies filtered[i].last()
            <= filtered[j].start.0 by {
            assert(filtered[i] == before[i]);
            if j < before.len() {
                assert(filtered[j] == before[j]);
            }
        }
    }
}

proof fn lemma_region_from(
    regions: Seq<GuestMemoryRegion>,
    from: int,
    write: bool,
    address: u64,
    length: nat,
)
    requires
        0 <= from,
    ensures
        match region_from(regions, from, write, address, length) {
            Some(i) => from <= i < regions.len() && regions[i].covers(address, length) && (
            if write {
                regions[i].writable
            } else {
                regions[i].readable
            }),
            None => forall|i: int|
                from <= i < regions.len() ==> !((#[trigger] regions[i]).covers(address, length) && (
                if write {
                    regions[i].writable
                } else {
                    regions[i].readable
                })),
        },
    decreases regions.len() - from,
{
    if from < regions.len() {
        lemma_region_from(regions, from + 1, write, address, length);
    }
}

/// An access succeeds if and only if one mapping that permits it holds its whole range.
pub proof fn an_access_needs_one_permitting_mapping(dma: Dma, address: u64, data: Seq<u8>)
    ensures
        dma.read(address, data.len()).1 is Some <==> exists|i: int|
            0 <= i < dma.regions.len() && dma.regions[i].readable && (
            #[trigger] dma.regions[i]).covers(address, data.len()),
        dma.write(address, data).1 <==> exists|i: int|
            0 <= i < dma.regions.len() && dma.regions[i].writable && (
            #[trigger] dma.regions[i]).covers(address, data.len()),
{
    lemma_region_from(dma.regions, 0, false, address, data.len());
    lemma_region_from(dma.regions, 0, true, address, data.len());
}

/// Whether an access lies inside its mapping.
pub open spec fn inside(access: Access) -> bool {
    match access {
        Access::Read { memory, offset, data } => offset + data.len() <= mapped_length(memory),
        Access::Write { memory, offset, data } => offset + data.len() <= mapped_length(memory),
    }
}

/// Every access that is made stays inside a mapping.
pub proof fn accesses_stay_inside_mappings(dma: Dma, address: u64, data: Seq<u8>)
    requires
        dma.valid(),
    ensures
        ({
            let (after, bytes) = dma.read(address, data.len());
            bytes is Some ==> inside(after.trace.accesses.last())
        }),
        ({
            let (after, done) = dma.write(address, data);
            done ==> inside(after.trace.accesses.last())
        }),
{
    lemma_region_from(dma.regions, 0, false, address, data.len());
    lemma_region_from(dma.regions, 0, true, address, data.len());
    if let Some(i) = dma.region(false, address, data.len()) {
        assert(dma.regions[i].valid());
    }
    if let Some(i) = dma.region(true, address, data.len()) {
        assert(dma.regions[i].valid());
    }
}

/// Once a range is unmapped no access that shares an address with it succeeds.
pub proof fn an_unmapped_range_is_unreachable(
    dma: Dma,
    start: u64,
    size: u64,
    address: u64,
    data: Seq<u8>,
)
    requires
        dma.valid(),
        address < start + size,
        start < address + data.len(),
    ensures
        ({
            let after = Dma {
                regions: dma.regions.filter(
                    |region: GuestMemoryRegion| !region.meets(start, size),
                ),
                ..dma
            };
            after.read(address, data.len()).1 is None && !after.write(address, data).1
        }),
{
    let keep = |region: GuestMemoryRegion| !region.meets(start, size);
    let kept = dma.regions.filter(keep);
    broadcast use vstd::seq_lib::group_filter_ensures;

    lemma_region_from(kept, 0, false, address, data.len());
    lemma_region_from(kept, 0, true, address, data.len());
    assert forall|i: int| 0 <= i < kept.len() implies !(#[trigger] kept[i]).covers(
        address,
        data.len(),
    ) by {
        assert(keep(kept[i]));
    }
}

/// In a memory that only the device writes to, a read gives back what was last written.
pub proof fn a_read_gives_back_what_was_written(
    dma: Dma,
    initial: spec_fn(MmapRegion<()>, int) -> u8,
    address: u64,
    data: Seq<u8>,
)
    requires
        dma.valid(),
        ({
            let (written, done) = dma.write(address, data);
            let (after, bytes) = written.read(address, data.len());
            done && bytes is Some && undisturbed(after.trace.accesses, initial)
        }),
    ensures
        dma.write(address, data).0.read(address, data.len()).1 == Some(data),
{
    let (written, done) = dma.write(address, data);
    let (after, bytes) = written.read(address, data.len());
    lemma_region_from(dma.regions, 0, true, address, data.len());
    lemma_region_from(dma.regions, 0, false, address, data.len());
    let w = dma.region(true, address, data.len())->0;
    let r = dma.region(false, address, data.len())->0;
    if data.len() > 0 {
        assert(w == r) by {
            if w < r {
                assert(dma.regions[w].last() <= dma.regions[r].start.0);
            }
            if r < w {
                assert(dma.regions[r].last() <= dma.regions[w].start.0);
            }
        }
    }
    let n = written.trace.accesses.len();
    assert(n == dma.trace.accesses.len() + 1);
    assert forall|i: int| 0 <= i < data.len() implies #[trigger] bytes->0[i] == data[i] by {
        assert(bytes->0[i] == content(
            after.trace.accesses,
            n,
            initial,
            dma.regions[r].memory,
            dma.offset(r, address) + i,
        )) by {
            let accesses = after.trace.accesses;
            assert(accesses.len() == n + 1);
            assert(accesses[n as int] == (Access::Read {
                memory: dma.regions[r].memory,
                offset: dma.offset(r, address),
                data: bytes->0,
            }));
            match accesses[n as int] {
                Access::Read { memory, offset, data: delivered } => {
                    assert(delivered[i] == content(accesses, n, initial, memory, offset + i));
                },
                Access::Write { .. } => {},
            }
        }
        assert(after.trace.accesses[n - 1] == (Access::Write {
            memory: dma.regions[w].memory,
            offset: dma.offset(w, address),
            data,
        }));
    }
    assert(bytes->0 =~= data);
}

/// An access reaches the bytes at its address: those of a mapping that permits it, as far behind
/// the start of that mapping as the address is. A refused one reaches nothing.
pub proof fn an_access_reaches_the_bytes_at_its_address(dma: Dma, address: u64, data: Seq<u8>)
    ensures
        ({
            let (after, bytes) = dma.read(address, data.len());
            match bytes {
                None => after == dma,
                Some(read) => read.len() == data.len() && exists|i: int|
                    0 <= i < dma.regions.len() && dma.regions[i].readable && (
                    #[trigger] dma.regions[i]).start.0 <= address && address + data.len()
                        <= dma.regions[i].start.0 + dma.regions[i].size
                        && after.trace.accesses.last() == (Access::Read {
                        memory: dma.regions[i].memory,
                        offset: (address - dma.regions[i].start.0) as nat,
                        data: read,
                    }),
            }
        }),
        ({
            let (after, done) = dma.write(address, data);
            if done {
                exists|i: int|
                    0 <= i < dma.regions.len() && dma.regions[i].writable && (
                    #[trigger] dma.regions[i]).start.0 <= address && address + data.len()
                        <= dma.regions[i].start.0 + dma.regions[i].size
                        && after.trace.accesses.last() == (Access::Write {
                        memory: dma.regions[i].memory,
                        offset: (address - dma.regions[i].start.0) as nat,
                        data,
                    })
            } else {
                after == dma
            }
        }),
{
    lemma_region_from(dma.regions, 0, false, address, data.len());
    lemma_region_from(dma.regions, 0, true, address, data.len());
    if let Some(i) = dma.region(false, address, data.len()) {
        assert(dma.regions[i].readable);
    }
    if let Some(i) = dma.region(true, address, data.len()) {
        assert(dma.regions[i].writable);
    }
}

/// A number in memory is the little-endian number of its bytes, and is written so.
pub proof fn numbers_in_memory_are_little_endian(dma: Dma, address: u64, value: u32)
    ensures
        dma.read(address, 2).1 matches Some(bytes) ==> dma.read_u16(address).1 == Some(
            crate::bytes::little_endian(bytes) as u16,
        ),
        dma.read(address, 4).1 matches Some(bytes) ==> dma.read_u32(address).1 == Some(
            crate::bytes::little_endian(bytes) as u32,
        ),
        dma.write_u32(address, value).1 ==> (dma.write_u32(address, value).0.trace.accesses.last()
            matches Access::Write { data, .. } && data.len() == 4 && crate::bytes::little_endian(data)
            == value),
{
    crate::bytes::le_bytes_hold_the_value(0, value, 0);
    let (two, four) = (dma.trace.answer(2), dma.trace.answer(4));
    crate::bytes::le16_is_a_number(two, 0);
    crate::bytes::le32_is_a_number(four, 0);
    assert(two.subrange(0, 2) =~= two);
    assert(four.subrange(0, 4) =~= four);
}

/// A mapping is accepted exactly where it can be made: it is not empty, ends inside the address
/// space, has memory of its size that permits what is asked, asks for something, and shares no
/// address with another one.
pub proof fn mappings_are_accepted(
    dma: Dma,
    flags: DmaMapFlags,
    address: u64,
    size: u64,
    memory: Option<MmapRegion<()>>,
)
    requires
        dma.valid(),
    ensures
        map_outcome(dma, flags, address, size, memory) is Ok <==> {
            &&& 0 < size <= usize::MAX
            &&& address + size <= u64::MAX
            &&& flags.read || flags.write
            &&& memory matches Some(region) && mapped_length(region) == size && allows(region, flags)
            &&& forall|i: int, a: int|
                0 <= i < dma.regions.len() && address <= a < address + size ==> !(#[trigger] held(
                    dma.regions[i],
                    a,
                ))
        },
{
    let free = forall|i: int, a: int|
        0 <= i < dma.regions.len() && address <= a < address + size ==> !(#[trigger] held(
            dma.regions[i],
            a,
        ));
    let meeting = exists|i: int|
        0 <= i < dma.regions.len() && (#[trigger] dma.regions[i]).meets(address, size);
    if meeting && size > 0 {
        let i = choose|i: int|
            0 <= i < dma.regions.len() && (#[trigger] dma.regions[i]).meets(address, size);
        assert(dma.regions[i].valid());
        let a = if address <= dma.regions[i].start.0 {
            dma.regions[i].start.0 as int
        } else {
            address as int
        };
        assert(held(dma.regions[i], a));
    }
    if !meeting {
        assert forall|i: int, a: int|
            0 <= i < dma.regions.len() && address <= a < address + size implies !(#[trigger] held(
            dma.regions[i],
            a,
        )) by {
            assert(!dma.regions[i].meets(address, size));
        }
    }
}

/// Whether a mapping holds an address.
pub open spec fn held(region: GuestMemoryRegion, address: int) -> bool {
    region.start.0 <= address < region.start.0 + region.size
}

} // verus!
