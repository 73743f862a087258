//! The memory of the guest as the machine lays it out.
//!
//! Guest CPUs write to this memory at any time, and the machine may replace it, when it plugs
//! memory for example. So nothing is known of the memory that a device finds, nor of the bytes
//! that a read delivers. A [`Ram`] records what a device found: the memories that it loaded
//! and the copies that it made, with the bytes that each read delivered. What a device does is
//! a function of these answers; the contracts state it for all answers that agree with what
//! was recorded.
use vstd::prelude::*;

use std::sync::Arc;

use vm_memory::bitmap::AtomicBitmap;
use vm_memory::{
    Bytes, GuestAddressSpace, GuestMemoryAtomic, GuestMemoryBackend, GuestMemoryMmap,
    GuestMemoryRegion,
};

use crate::bytes::zeroed;
use crate::guest_memory::{PROT_READ, PROT_WRITE};

verus! {

/// `vm_memory::GuestRegionCollection`, the regions that make up a guest's memory.
#[verifier::external_type_specification]
#[verifier::external_body]
#[verifier::reject_recursive_types(R)]
pub struct ExGuestRegionCollection<R>(vm_memory::GuestRegionCollection<R>);

/// `vm_memory::GuestRegionMmap`, one such region.
#[verifier::external_type_specification]
#[verifier::external_body]
#[verifier::reject_recursive_types(B)]
pub struct ExGuestRegionMmap<B>(vm_memory::GuestRegionMmap<B>);

/// `vm_memory::bitmap::AtomicBitmap`, the record of the pages that were written.
#[verifier::external_type_specification]
#[verifier::external_body]
pub struct ExAtomicBitmap(vm_memory::bitmap::AtomicBitmap);

/// `vm_memory::GuestMemoryAtomic`, where a machine keeps the memory that its guest has at
/// present. Nothing is known of what it holds, for the machine replaces that at any time.
#[verifier::external_body]
pub struct SharedMemory {
    pub memory: GuestMemoryAtomic<GuestMemoryMmap<AtomicBitmap>>,
}

/// A memory of a guest, mapped into this process.
pub type Mapped = GuestMemoryMmap<AtomicBitmap>;

/// The regions of a memory, fixed when it was made: the first address, the length in bytes,
/// and the memory protection, which has the bits of `mmap`.
pub uninterp spec fn memory_regions(
    memory: vm_memory::GuestRegionCollection<vm_memory::GuestRegionMmap<AtomicBitmap>>,
) -> Seq<(u64, u64, i32)>;

/// Whether a region holds an address.
pub open spec fn holds(region: (u64, u64, i32), address: u64) -> bool {
    region.0 <= address < region.0 + region.1
}

/// The addresses that lie in one of the regions.
pub open spec fn backed_by(regions: Seq<(u64, u64, i32)>) -> Set<u64> {
    Set::new(
        |address: u64|
            exists|i: int| 0 <= i < regions.len() && #[trigger] holds(regions[i], address),
    )
}

/// The addresses that lie in a region whose protection has the bit `flag`.
pub open spec fn open_to(regions: Seq<(u64, u64, i32)>, flag: i32) -> Set<u64> {
    Set::new(
        |address: u64|
            exists|i: int|
                0 <= i < regions.len() && #[trigger] holds(regions[i], address) && regions[i].2
                    & flag != 0,
    )
}

/// How many of the `length` addresses from `address` on are backed, before the first one
/// that is not.
pub open spec fn reach(backed: Set<u64>, address: u64, length: nat) -> nat
    decreases length,
{
    if length == 0 || !backed.contains(address) {
        0
    } else if address == u64::MAX {
        1
    } else {
        1 + reach(backed, (address + 1) as u64, (length - 1) as nat)
    }
}

/// Whether a copy of `length` bytes touches only addresses that are `open`: those before the
/// first one that is not backed.
pub open spec fn permitted(backed: Set<u64>, open: Set<u64>, address: u64, length: nat) -> bool
    decreases length,
{
    ||| length == 0
    ||| !backed.contains(address)
    ||| open.contains(address) && (address == u64::MAX || permitted(
        backed,
        open,
        (address + 1) as u64,
        (length - 1) as nat,
    ))
}

/// How many bytes a copy of `length` bytes copies: none at all, which is a failure, where
/// there are bytes to copy and the first address is not backed.
pub open spec fn copied(backed: Set<u64>, address: u64, length: nat) -> Option<usize> {
    let count = reach(backed, address, length);
    if length > 0 && count == 0 {
        None
    } else {
        Some(count as usize)
    }
}

/// Something that a device found or did: the memory that it loaded, or one copy out of a
/// memory or into it, with the bytes that were copied.
pub enum RamAccess {
    Load { source: SharedMemory, memory: Mapped },
    Read { memory: Mapped, address: u64, data: Seq<u8> },
    Write { memory: Mapped, address: u64, data: Seq<u8> },
}

/// What a guest answers to one access: the memory that a load gets, or the bytes that a read
/// delivers.
pub struct RamAnswer {
    pub memory: Mapped,
    pub bytes: spec_fn(int) -> u8,
}

/// What a guest answers to the access of each number.
pub type RamAnswers = spec_fn(nat) -> RamAnswer;

/// The answers that were recorded; those to later accesses are arbitrary.
pub open spec fn recorded(accesses: Seq<RamAccess>) -> RamAnswers {
    |n: nat|
        match accesses[n as int] {
            RamAccess::Load { memory, .. } => RamAnswer { memory, bytes: |i: int| 0u8 },
            RamAccess::Read { memory, data, .. } => RamAnswer { memory, bytes: |i: int| data[i] },
            RamAccess::Write { memory, .. } => RamAnswer { memory, bytes: |i: int| 0u8 },
        }
}

/// The record of the accesses. Only the functions that load a memory or copy extend it.
pub struct RamLog {
    accesses: Ghost<Seq<RamAccess>>,
}

impl View for RamLog {
    type V = Seq<RamAccess>;

    closed spec fn view(&self) -> Seq<RamAccess> {
        self.accesses@
    }
}

impl RamLog {
    fn new() -> (r: Self)
        ensures
            r@ == Seq::<RamAccess>::empty(),
    {
        RamLog { accesses: Ghost(Seq::empty()) }
    }
}

/// `GuestAddressSpace::memory` of a `GuestMemoryAtomic`, and
/// `GuestMemoryLoadGuard::into_inner`: the memory that the guest has at present. Which one
/// that is rests with the machine; it is entered in the log.
#[verifier::external_body]
fn present_memory(source: &SharedMemory, log: &mut RamLog) -> (r: Arc<Mapped>)
    ensures
        final(log)@ == old(log)@.push(RamAccess::Load { source: *source, memory: *r }),
{
    source.memory.memory().into_inner()
}

/// `GuestMemoryBackend::iter` of a `GuestMemoryMmap`, with `GuestMemoryRegion::start_addr`,
/// `GuestMemoryRegion::len` and `MmapRegion::prot` of each region.
#[verifier::external_body]
fn regions_of(memory: &Mapped) -> (r: Vec<(u64, u64, i32)>)
    ensures
        r@ == memory_regions(*memory),
{
    memory.iter().map(|region| (region.start_addr().0, region.len(), region.prot())).collect()
}

/// `Bytes::read` of a `GuestMemoryMmap`: copies guest memory into `data` up to the first
/// address that is not backed, and tells how many bytes it copied; it fails, and copies
/// nothing, where the first address is not backed. The rest of `data` stays as it was. The
/// bytes are the guest's; they are entered in the log. The regions that the copy touches have
/// to allow reads.
#[verifier::external_body]
fn copy_from_ram(
    memory: &Mapped,
    address: u64,
    data: &mut Vec<u8>,
    log: &mut RamLog,
) -> (r: Option<usize>)
    requires
        permitted(
            backed_by(memory_regions(*memory)),
            open_to(memory_regions(*memory), PROT_READ),
            address,
            old(data)@.len(),
        ),
    ensures
        r == copied(backed_by(memory_regions(*memory)), address, old(data)@.len()),
        final(data)@.len() == old(data)@.len(),
        r is None ==> final(data)@ == old(data)@,
        r matches Some(count) ==> final(data)@.skip(count as int) == old(data)@.skip(count as int),
        final(log)@ == (match r {
            None => old(log)@,
            Some(count) => old(log)@.push(
                RamAccess::Read {
                    memory: *memory,
                    address,
                    data: final(data)@.take(count as int),
                },
            ),
        }),
{
    memory.read(&mut data[..], vm_memory::GuestAddress(address)).ok()
}

/// `Bytes::write` of a `GuestMemoryMmap`: copies `data` into guest memory up to the first
/// address that is not backed, and tells how many bytes it copied; it fails, and copies
/// nothing, where the first address is not backed. What the guest finds there later is not
/// stated, for it may write there too. The regions that the copy touches have to allow
/// writes.
#[verifier::external_body]
fn copy_to_ram(
    memory: &Mapped,
    address: u64,
    data: &[u8],
    log: &mut RamLog,
) -> (r: Option<usize>)
    requires
        permitted(
            backed_by(memory_regions(*memory)),
            open_to(memory_regions(*memory), PROT_WRITE),
            address,
            data@.len(),
        ),
    ensures
        r == copied(backed_by(memory_regions(*memory)), address, data@.len()),
        final(log)@ == (match r {
            None => old(log)@,
            Some(count) => old(log)@.push(
                RamAccess::Write { memory: *memory, address, data: data@.take(count as int) },
            ),
        }),
{
    memory.write(data, vm_memory::GuestAddress(address)).ok()
}

/// Where the memory of a guest is found, the accesses made so far, and what the guest answers
/// to the access of each number.
#[verifier::ext_equal]
pub struct Ram {
    pub source: SharedMemory,
    pub accesses: Seq<RamAccess>,
    pub answers: RamAnswers,
}

impl Ram {
    /// The memory of a guest that no device has touched.
    pub open spec fn fresh(source: SharedMemory) -> Ram {
        Ram { source, accesses: Seq::empty(), answers: recorded(Seq::empty()) }
    }

    /// The same accesses of a guest with other answers.
    pub open spec fn under(self, answers: RamAnswers) -> Ram {
        Ram { answers, ..self }
    }

    /// Whether the memories that were loaded, and the bytes that were read, are those of some
    /// answers.
    pub closed spec fn agrees(self, answers: RamAnswers) -> bool {
        &&& forall|n: nat|
            n < self.accesses.len() ==> (match self.accesses[n as int] {
                RamAccess::Load { memory, .. } => (#[trigger] answers(n)).memory == memory,
                _ => true,
            })
        &&& forall|n: nat, i: int|
            n < self.accesses.len() ==> (match self.accesses[n as int] {
                RamAccess::Read { data, .. } => 0 <= i < data.len() ==> #[trigger] (answers(
                    n,
                ).bytes)(i) == data[i],
                _ => true,
            })
    }

    /// Whether the memories and the bytes are those of its own answers.
    pub open spec fn settled(self) -> bool {
        self.agrees(self.answers)
    }

    /// Whether this is the memory after more accesses.
    pub closed spec fn follows(self, earlier: Ram) -> bool {
        &&& self.source == earlier.source
        &&& earlier.accesses.is_prefix_of(self.accesses)
    }

    pub open spec fn plus(self, access: RamAccess) -> Ram {
        Ram { accesses: self.accesses.push(access), ..self }
    }

    /// The `length` bytes that the next access delivers.
    pub open spec fn answer(self, length: nat) -> Seq<u8> {
        let bytes = (self.answers)(self.accesses.len()).bytes;
        Seq::new(length, |i: int| bytes(i))
    }

    /// The memory that the guest has at present.
    pub open spec fn loaded(self) -> (Ram, Mapped) {
        let memory = (self.answers)(self.accesses.len()).memory;
        (self.plus(RamAccess::Load { source: self.source, memory }), memory)
    }

    /// A read into `length` bytes that were zeros, and how many of them the memory holds. It
    /// fails where it would touch a region that cannot be read.
    pub open spec fn read(
        self,
        memory: Mapped,
        address: u64,
        length: nat,
    ) -> (Ram, Option<(nat, Seq<u8>)>) {
        let regions = memory_regions(memory);
        if !permitted(backed_by(regions), open_to(regions, PROT_READ), address, length) {
            (self, None)
        } else {
            match copied(backed_by(regions), address, length) {
                None => (self, None),
                Some(count) => {
                    let data = self.answer(count as nat);
                    (
                        self.plus(RamAccess::Read { memory, address, data }),
                        Some((count as nat, data + crate::bytes::zeros((length - count) as nat))),
                    )
                },
            }
        }
    }

    /// A write, and how many bytes of it the memory took. It fails where it would touch a
    /// region that cannot be written.
    pub open spec fn write(
        self,
        memory: Mapped,
        address: u64,
        data: Seq<u8>,
    ) -> (Ram, Option<nat>) {
        let regions = memory_regions(memory);
        if !permitted(backed_by(regions), open_to(regions, PROT_WRITE), address, data.len()) {
            (self, None)
        } else {
            match copied(backed_by(regions), address, data.len()) {
                None => (self, None),
                Some(count) => (
                    self.plus(RamAccess::Write { memory, address, data: data.take(count as int) }),
                    Some(count as nat),
                ),
            }
        }
    }

    /// A read of the memory that the guest has at present.
    pub open spec fn read_present(self, address: u64, length: nat) -> (
        Ram,
        Option<(nat, Seq<u8>)>,
    ) {
        let (ram, memory) = self.loaded();
        ram.read(memory, address, length)
    }

    /// A write to the memory that the guest has at present.
    pub open spec fn write_present(self, address: u64, data: Seq<u8>) -> (Ram, Option<nat>) {
        let (ram, memory) = self.loaded();
        ram.write(memory, address, data)
    }
}

pub proof fn lemma_reach_bounded(backed: Set<u64>, address: u64, length: nat)
    ensures
        reach(backed, address, length) <= length,
    decreases length,
{
    if length > 0 && backed.contains(address) && address < u64::MAX {
        lemma_reach_bounded(backed, (address + 1) as u64, (length - 1) as nat);
    }
}

/// A copy touches only addresses that are backed, and open to it.
pub proof fn copies_stay_in_memory(
    backed: Set<u64>,
    open: Set<u64>,
    address: u64,
    length: nat,
    i: nat,
)
    requires
        i < reach(backed, address, length),
        permitted(backed, open, address, length),
    ensures
        address + i <= u64::MAX,
        backed.contains((address + i) as u64),
        open.contains((address + i) as u64),
    decreases length,
{
    if i > 0 {
        copies_stay_in_memory(
            backed,
            open,
            (address + 1) as u64,
            (length - 1) as nat,
            (i - 1) as nat,
        );
    }
}

/// A range that is backed and open from its first address to its last one is copied as a
/// whole.
pub proof fn backed_ranges_are_copied_whole(
    backed: Set<u64>,
    open: Set<u64>,
    address: u64,
    length: nat,
)
    requires
        address + length <= u64::MAX + 1,
        forall|a: u64| address <= a < address + length ==> backed.contains(a),
        forall|a: u64| address <= a < address + length ==> open.contains(a),
    ensures
        reach(backed, address, length) == length,
        permitted(backed, open, address, length),
    decreases length,
{
    if length > 0 {
        assert(backed.contains(address));
        if address < u64::MAX {
            backed_ranges_are_copied_whole(
                backed,
                open,
                (address + 1) as u64,
                (length - 1) as nat,
            );
        }
    }
}

/// A memory with only one kind of regions allows every copy of that kind.
pub proof fn open_memories_permit_every_copy(
    regions: Seq<(u64, u64, i32)>,
    flag: i32,
    address: u64,
    length: nat,
)
    requires
        forall|i: int| 0 <= i < regions.len() ==> (#[trigger] regions[i]).2 & flag != 0,
    ensures
        permitted(backed_by(regions), open_to(regions, flag), address, length),
    decreases length,
{
    if length > 0 && backed_by(regions).contains(address) {
        let i = choose|i: int| 0 <= i < regions.len() && #[trigger] holds(regions[i], address);
        assert(regions[i].2 & flag != 0);
        if address < u64::MAX {
            open_memories_permit_every_copy(
                regions,
                flag,
                (address + 1) as u64,
                (length - 1) as nat,
            );
        }
    }
}

/// The first addresses of a copy can be passed over as far as they are backed and open.
proof fn lemma_permitted_from(
    backed: Set<u64>,
    open: Set<u64>,
    address: u64,
    length: nat,
    count: nat,
)
    requires
        count <= length,
        address + count <= u64::MAX,
        forall|a: u64| address <= a < address + count ==> backed.contains(a),
        forall|a: u64| address <= a < address + count ==> open.contains(a),
    ensures
        permitted(backed, open, address, length) == permitted(
            backed,
            open,
            (address + count) as u64,
            (length - count) as nat,
        ),
    decreases count,
{
    if count > 0 {
        assert(backed.contains(address));
        lemma_permitted_from(
            backed,
            open,
            (address + 1) as u64,
            (length - 1) as nat,
            (count - 1) as nat,
        );
    }
}

/// A copy to the end of the addresses is allowed if it is backed and open so far.
proof fn lemma_permitted_to_the_end(
    backed: Set<u64>,
    open: Set<u64>,
    address: u64,
    length: nat,
)
    requires
        forall|a: u64| address <= a < address + length ==> backed.contains(a),
        forall|a: u64| address <= a < address + length ==> open.contains(a),
    ensures
        permitted(backed, open, address, length),
    decreases length,
{
    if length > 0 {
        assert(backed.contains(address));
        if address < u64::MAX {
            lemma_permitted_to_the_end(backed, open, (address + 1) as u64, (length - 1) as nat);
        }
    }
}

/// Looks for a region that holds an address, with a bit of its protection if one is given.
fn find_region(regions: &Vec<(u64, u64, i32)>, address: u64, flag: Option<i32>) -> (r: Option<
    usize,
>)
    ensures
        match r {
            Some(i) => i < regions@.len() && holds(regions@[i as int], address) && (
            flag matches Some(bit) ==> regions@[i as int].2 & bit != 0),
            None => match flag {
                Some(bit) => !open_to(regions@, bit).contains(address),
                None => !backed_by(regions@).contains(address),
            },
        },
{
    let mut i: usize = 0;
    while i < regions.len()
        invariant
            i <= regions@.len(),
            forall|k: int|
                0 <= k < i && #[trigger] holds(regions@[k], address) ==> (flag matches Some(bit)
                    && regions@[k].2 & bit == 0),
        decreases regions@.len() - i,
    {
        let (start, length, protection) = regions[i];
        if start <= address && address - start < length {
            match flag {
                Some(bit) => {
                    if protection & bit != 0 {
                        return Some(i);
                    }
                },
                None => {
                    return Some(i);
                },
            }
        }
        i = i + 1;
    }
    None
}

/// Tests whether a copy touches only regions whose protection has the bit `flag`.
fn is_permitted(
    regions: &Vec<(u64, u64, i32)>,
    flag: i32,
    address: u64,
    length: usize,
) -> (r: bool)
    ensures
        r == permitted(backed_by(regions@), open_to(regions@, flag), address, length as nat),
{
    let ghost backed = backed_by(regions@);
    let ghost open = open_to(regions@, flag);
    let mut place: u64 = address;
    let mut left: u64 = length as u64;
    while left > 0
        invariant
            left <= length,
            backed == backed_by(regions@),
            open == open_to(regions@, flag),
            permitted(backed, open, address, length as nat) == permitted(
                backed,
                open,
                place,
                left as nat,
            ),
        decreases left,
    {
        match find_region(regions, place, Some(flag)) {
            Some(i) => {
                let (start, size, _) = regions[i];
                let room: u64 = size - (place - start);
                proof {
                    assert forall|a: u64| place <= a < place + room implies backed.contains(a) by {
                        assert(holds(regions@[i as int], a));
                    }
                    assert forall|a: u64| place <= a < place + room implies open.contains(a) by {
                        assert(holds(regions@[i as int], a));
                    }
                }
                if room >= left || room > u64::MAX - place {
                    proof {
                        if room >= left {
                            lemma_permitted_to_the_end(backed, open, place, left as nat);
                        } else {
                            lemma_permitted_to_the_end(backed, open, place, room as nat);
                            lemma_permitted_past_the_end(
                                backed,
                                open,
                                place,
                                room as nat,
                                left as nat,
                            );
                        }
                    }
                    return true;
                }
                proof {
                    lemma_permitted_from(backed, open, place, left as nat, room as nat);
                }
                place = place + room;
                left = left - room;
            },
            None => {
                return find_region(regions, place, None).is_none();
            },
        }
    }
    true
}

/// What lies beyond the last address does not matter.
proof fn lemma_permitted_past_the_end(
    backed: Set<u64>,
    open: Set<u64>,
    address: u64,
    length: nat,
    longer: nat,
)
    requires
        address + length > u64::MAX,
        length <= longer,
        permitted(backed, open, address, length),
    ensures
        permitted(backed, open, address, longer),
    decreases length,
{
    if longer > 0 && backed.contains(address) && address < u64::MAX {
        lemma_permitted_past_the_end(
            backed,
            open,
            (address + 1) as u64,
            (length - 1) as nat,
            (longer - 1) as nat,
        );
    }
}

/// A memory after one more access follows the one before it.
proof fn lemma_pushed(before: Ram, after: Ram)
    requires
        after.source == before.source,
        exists|access: RamAccess| after.accesses == #[trigger] before.accesses.push(access),
    ensures
        after.follows(before),
{
    assert(before.accesses =~= after.accesses.take(before.accesses.len() as int));
}

/// Answers that agree with a memory agree with what it was before.
pub broadcast proof fn lemma_agrees_before(earlier: Ram, later: Ram, answers: RamAnswers)
    requires
        #[trigger] later.follows(earlier),
        #[trigger] later.agrees(answers),
    ensures
        earlier.agrees(answers),
{
    assert forall|n: nat| n < earlier.accesses.len() implies earlier.accesses[n as int]
        == #[trigger] later.accesses[n as int] by {}
}

/// What follows a memory that follows another one follows that one too.
pub broadcast proof fn lemma_follows_joins(first: Ram, second: Ram, third: Ram)
    requires
        #[trigger] second.follows(first),
        #[trigger] third.follows(second),
    ensures
        third.follows(first),
{
    assert forall|i: int| 0 <= i < first.accesses.len() implies first.accesses[i]
        == third.accesses[i] by {
        assert(first.accesses[i] == second.accesses[i]);
    }
    assert(first.accesses =~= third.accesses.take(first.accesses.len() as int));
}

/// A memory follows itself, and what follows a memory has its source and its accesses.
pub broadcast proof fn lemma_follows_keeps(earlier: Ram, later: Ram)
    ensures
        #[trigger] later.follows(earlier) ==> later.source == earlier.source
            && earlier.accesses.is_prefix_of(later.accesses),
        later == earlier ==> later.follows(earlier),
{
}

/// The answers of a memory are those that it recorded.
pub broadcast proof fn lemma_settled(memory: &GuestRam)
    ensures
        (#[trigger] memory@).settled(),
{
}

pub broadcast group group_answers {
    lemma_agrees_before,
    lemma_follows_joins,
    lemma_follows_keeps,
}

/// There are answers that agree with every memory: those that it recorded.
pub proof fn the_recorded_answers_agree(memory: &GuestRam)
    ensures
        memory@.agrees(memory@.answers),
        memory@.under(memory@.answers) == memory@,
{
}

/// The memory of a guest.
pub struct GuestRam {
    source: SharedMemory,
    log: RamLog,
}

impl View for GuestRam {
    type V = Ram;

    closed spec fn view(&self) -> Ram {
        Ram { source: self.source, accesses: self.log@, answers: recorded(self.log@) }
    }
}

impl GuestRam {
    pub fn new(source: SharedMemory) -> (r: Self)
        ensures
            r@ == Ram::fresh(source),
    {
        GuestRam { source, log: RamLog::new() }
    }

    /// Takes hold of the memory that the guest has at present.
    pub fn load(&mut self) -> (r: Arc<Mapped>)
        ensures
            final(self)@.follows(old(self)@),
            final(self)@.settled(),
            forall|answers: RamAnswers| #[trigger]
                final(self)@.agrees(answers) ==> (final(self)@.under(answers), *r) == old(
                    self,
                )@.under(answers).loaded(),
    {
        let memory = present_memory(&self.source, &mut self.log);
        proof {
            lemma_pushed(old(self)@, self@);
            let n = old(self)@.accesses.len();
            assert(self@.accesses[n as int] == (RamAccess::Load {
                source: self.source,
                memory: *memory,
            }));
            assert forall|answers: RamAnswers| #[trigger] self@.agrees(answers) implies answers(
                n,
            ).memory == *memory by {}
        }
        memory
    }

    /// Reads `length` bytes, and tells how many of them the memory holds; the others are
    /// zeros.
    pub fn read(
        &mut self,
        memory: &Mapped,
        address: u64,
        length: usize,
    ) -> (r: Option<(usize, Vec<u8>)>)
        ensures
            final(self)@.follows(old(self)@),
            final(self)@.settled(),
            r matches Some(got) ==> got.1@.len() == length && got.0 <= length,
            forall|answers: RamAnswers| #[trigger]
                final(self)@.agrees(answers) ==> {
                    let (ram, wanted) = old(self)@.under(answers).read(
                        *memory,
                        address,
                        length as nat,
                    );
                    &&& final(self)@.under(answers) == ram
                    &&& match wanted {
                        None => r is None,
                        Some((count, bytes)) => r matches Some(got) && got.0 == count && got.1@
                            == bytes,
                    }
                },
    {
        let regions = regions_of(memory);
        if !is_permitted(&regions, PROT_READ, address, length) {
            return None;
        }
        let mut data = zeroed(length);
        let ghost blank = data@;
        proof {
            lemma_reach_bounded(backed_by(regions@), address, length as nat);
        }
        match copy_from_ram(memory, address, &mut data, &mut self.log) {
            None => {
                assert(self@ == old(self)@);
                None
            },
            Some(count) => {
                proof {
                    lemma_pushed(old(self)@, self@);
                    let n = old(self)@.accesses.len();
                    assert(self@.accesses[n as int] == (RamAccess::Read {
                        memory: *memory,
                        address,
                        data: data@.take(count as int),
                    }));
                    assert(blank.skip(count as int) =~= crate::bytes::zeros(
                        (length - count) as nat,
                    ));
                    assert(data@ =~= data@.take(count as int) + data@.skip(count as int));
                    assert forall|answers: RamAnswers| #[trigger] self@.agrees(answers) implies old(
                        self,
                    )@.under(answers).answer(count as nat) == data@.take(count as int) by {
                        assert forall|i: int| 0 <= i < count implies data@.take(count as int)[i]
                            == #[trigger] (answers(n).bytes)(i) by {}
                        assert(old(self)@.under(answers).answer(count as nat) =~= data@.take(
                            count as int,
                        ));
                    }
                }
                Some((count, data))
            },
        }
    }

    /// Writes bytes, and tells how many of them the memory took.
    pub fn write(
        &mut self,
        memory: &Mapped,
        address: u64,
        data: &[u8],
    ) -> (r: Option<usize>)
        ensures
            final(self)@.follows(old(self)@),
            final(self)@.settled(),
            forall|answers: RamAnswers| #[trigger]
                final(self)@.agrees(answers) ==> final(self)@.under(answers) == old(self)@.under(
                    answers,
                ).write(*memory, address, data@).0,
            match old(self)@.write(*memory, address, data@).1 {
                None => r is None,
                Some(count) => r == Some(count as usize) && count <= data@.len(),
            },
    {
        let regions = regions_of(memory);
        if !is_permitted(&regions, PROT_WRITE, address, data.len()) {
            return None;
        }
        proof {
            lemma_reach_bounded(backed_by(regions@), address, data@.len());
        }
        match copy_to_ram(memory, address, data, &mut self.log) {
            None => {
                assert(self@ == old(self)@);
                None
            },
            Some(count) => {
                proof {
                    lemma_pushed(old(self)@, self@);
                }
                Some(count)
            },
        }
    }

    /// Reads from the memory that the guest has at present.
    pub fn read_present(&mut self, address: u64, length: usize) -> (r: Option<(usize, Vec<u8>)>)
        ensures
            final(self)@.follows(old(self)@),
            final(self)@.settled(),
            r matches Some(got) ==> got.1@.len() == length && got.0 <= length,
            forall|answers: RamAnswers| #[trigger]
                final(self)@.agrees(answers) ==> {
                    let (ram, wanted) = old(self)@.under(answers).read_present(
                        address,
                        length as nat,
                    );
                    &&& final(self)@.under(answers) == ram
                    &&& match wanted {
                        None => r is None,
                        Some((count, bytes)) => r matches Some(got) && got.0 == count && got.1@
                            == bytes,
                    }
                },
    {
        broadcast use group_answers;

        let memory = self.load();
        self.read(&memory, address, length)
    }

    /// Writes to the memory that the guest has at present.
    pub fn write_present(&mut self, address: u64, data: &[u8]) -> (r: Option<usize>)
        ensures
            final(self)@.follows(old(self)@),
            final(self)@.settled(),
            r matches Some(count) ==> count <= data@.len(),
            forall|answers: RamAnswers| #[trigger]
                final(self)@.agrees(answers) ==> {
                    let (ram, taken) = old(self)@.under(answers).write_present(address, data@);
                    &&& final(self)@.under(answers) == ram
                    &&& match taken {
                        None => r is None,
                        Some(count) => r matches Some(got) && got == count,
                    }
                },
    {
        broadcast use group_answers;

        let memory = self.load();
        self.write(&memory, address, data)
    }
}

} // verus!
