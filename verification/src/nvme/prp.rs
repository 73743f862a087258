//! Transfers through physical region pages: a first page, and then a second one or a list
//! of pages.
use vstd::prelude::*;

use crate::bytes::{get_le64, push_range, push_zeros, range_of, zeroed};
use crate::nvme::{Error, NVME_PAGE_SIZE};
use crate::ram::{GuestRam, Mapped, RamAnswers};

verus! {

broadcast use {crate::ram::group_answers, crate::ram::lemma_settled};

/// How much of a transfer lies in the first page.
pub open spec fn first_part(prp1: u64, length: nat) -> nat {
    let room = (NVME_PAGE_SIZE - prp1 % NVME_PAGE_SIZE) as nat;
    if length <= room {
        length
    } else {
        room
    }
}

/// The page after the first one, if it has an address.
pub open spec fn next_page(prp1: u64) -> Option<u64> {
    let address = prp1 - prp1 % NVME_PAGE_SIZE + NVME_PAGE_SIZE;
    if address <= u64::MAX {
        Some(address as u64)
    } else {
        None
    }
}

/// How much of the rest of a transfer lies in one page of a list.
pub open spec fn page_part(length: nat) -> nat {
    if length <= NVME_PAGE_SIZE {
        length
    } else {
        NVME_PAGE_SIZE as nat
    }
}

/// Where the second part of a transfer lies.
pub enum SecondPart {
    /// Nowhere.
    Nowhere,
    /// In one page.
    Page(u64),
    /// In the pages of a list.
    List(u64),
}

/// Where the `rest` bytes after the first page lie: without a second entry, in the next page
/// if the first one was not used from its start on; else in one page, if they fit, or in the
/// pages of a list.
pub open spec fn second_part(prp1: u64, prp2: u64, rest: nat) -> SecondPart {
    if prp2 == 0 {
        if prp1 % NVME_PAGE_SIZE != 0 && rest <= NVME_PAGE_SIZE {
            match next_page(prp1) {
                None => SecondPart::Nowhere,
                Some(page) => SecondPart::Page(page),
            }
        } else {
            SecondPart::Nowhere
        }
    } else if rest <= NVME_PAGE_SIZE {
        SecondPart::Page(prp2)
    } else {
        SecondPart::List(prp2)
    }
}

/// The bytes of one page, or an error where the page is not backed.
pub open spec fn page_read(ram: crate::ram::Ram, memory: Mapped, address: u64, length: nat) -> (
    crate::ram::Ram,
    Result<Seq<u8>, Error>,
) {
    let (after, got) = ram.read(memory, address, length);
    match got {
        None => (after, Err(Error::GuestMemory)),
        Some((_, bytes)) => (after, Ok(bytes)),
    }
}

/// The bytes of the pages of a list. An entry of zero ends the list; zeros stand for what it
/// does not hold.
pub open spec fn list_read(ram: crate::ram::Ram, memory: Mapped, list: u64, length: nat) -> (
    crate::ram::Ram,
    Result<Seq<u8>, Error>,
)
    decreases length,
{
    if length == 0 {
        (ram, Ok(Seq::empty()))
    } else {
        let (fetched, entry) = page_read(ram, memory, list, 8);
        match entry {
            Err(error) => (fetched, Err(error)),
            Ok(entry) => {
                let page = crate::bytes::le64(entry, 0);
                let size = page_part(length);
                if page == 0 {
                    (fetched, Ok(crate::bytes::zeros(length)))
                } else {
                    let (copied, head) = page_read(fetched, memory, page, size);
                    match head {
                        Err(error) => (copied, Err(error)),
                        Ok(head) => if length == size {
                            (copied, Ok(head))
                        } else if list + 8 > u64::MAX {
                            (copied, Err(Error::InvalidPrpList))
                        } else {
                            let (done, tail) = list_read(
                                copied,
                                memory,
                                (list + 8) as u64,
                                (length - size) as nat,
                            );
                            match tail {
                                Err(error) => (done, Err(error)),
                                Ok(tail) => (done, Ok(head + tail)),
                            }
                        },
                    }
                }
            },
        }
    }
}

/// The `length` bytes that the pages hold; zeros where there are no pages.
pub open spec fn prp_read(ram: crate::ram::Ram, prp1: u64, prp2: u64, length: nat) -> (
    crate::ram::Ram,
    Result<Seq<u8>, Error>,
) {
    let first = first_part(prp1, length);
    let rest = (length - first) as nat;
    if prp1 == 0 {
        (ram, Ok(crate::bytes::zeros(length)))
    } else if length == 0 {
        (ram.loaded().0, Ok(Seq::empty()))
    } else {
        let (loaded, memory) = ram.loaded();
        let (started, head) = page_read(loaded, memory, prp1, first);
        match head {
            Err(error) => (started, Err(error)),
            Ok(head) => if rest == 0 {
                (started, Ok(head))
            } else {
                let (done, tail) = match second_part(prp1, prp2, rest) {
                    SecondPart::Nowhere => (started, Err(Error::InvalidPrpList)),
                    SecondPart::Page(page) => page_read(started, memory, page, rest),
                    SecondPart::List(list) => list_read(started, memory, list, rest),
                };
                match tail {
                    Err(error) => (done, Err(error)),
                    Ok(tail) => (done, Ok(head + tail)),
                }
            },
        }
    }
}

/// Bytes written to one page, or an error where the page is not backed.
pub open spec fn page_write(ram: crate::ram::Ram, memory: Mapped, address: u64, data: Seq<u8>) -> (
    crate::ram::Ram,
    Result<(), Error>,
) {
    let (after, taken) = ram.write(memory, address, data);
    match taken {
        None => (after, Err(Error::GuestMemory)),
        Some(_) => (after, Ok(())),
    }
}

/// Bytes written to the pages of a list. An entry of zero ends the list, and what it has no
/// room for is dropped.
pub open spec fn list_write(ram: crate::ram::Ram, memory: Mapped, list: u64, data: Seq<u8>) -> (
    crate::ram::Ram,
    Result<(), Error>,
)
    decreases data.len(),
{
    if data.len() == 0 {
        (ram, Ok(()))
    } else {
        let (fetched, entry) = page_read(ram, memory, list, 8);
        match entry {
            Err(error) => (fetched, Err(error)),
            Ok(entry) => {
                let page = crate::bytes::le64(entry, 0);
                let size = page_part(data.len());
                if page == 0 {
                    (fetched, Ok(()))
                } else {
                    let (copied, outcome) = page_write(
                        fetched,
                        memory,
                        page,
                        data.take(size as int),
                    );
                    match outcome {
                        Err(error) => (copied, Err(error)),
                        Ok(()) => if data.len() == size {
                            (copied, Ok(()))
                        } else if list + 8 > u64::MAX {
                            (copied, Err(Error::InvalidPrpList))
                        } else {
                            list_write(copied, memory, (list + 8) as u64, data.skip(size as int))
                        },
                    }
                }
            },
        }
    }
}

/// Bytes written to the pages; nothing is written where there are none.
pub open spec fn prp_write(ram: crate::ram::Ram, prp1: u64, prp2: u64, data: Seq<u8>) -> (
    crate::ram::Ram,
    Result<(), Error>,
) {
    let first = first_part(prp1, data.len());
    let rest = data.skip(first as int);
    if prp1 == 0 {
        (ram, Ok(()))
    } else if data.len() == 0 {
        (ram.loaded().0, Ok(()))
    } else {
        let (loaded, memory) = ram.loaded();
        let (started, outcome) = page_write(loaded, memory, prp1, data.take(first as int));
        match outcome {
            Err(error) => (started, Err(error)),
            Ok(()) => if rest.len() == 0 {
                (started, Ok(()))
            } else {
                match second_part(prp1, prp2, rest.len()) {
                    SecondPart::Nowhere => (started, Err(Error::InvalidPrpList)),
                    SecondPart::Page(page) => page_write(started, memory, page, rest),
                    SecondPart::List(list) => list_write(started, memory, list, rest),
                }
            },
        }
    }
}

/// How many bytes two entries hold that are no list: none, or what is left of the first page
/// and, as far as there is a second one, that too.
pub open spec fn capacity(prp1: u64, prp2: u64) -> int {
    if prp1 == 0 {
        0
    } else {
        let first = NVME_PAGE_SIZE - prp1 % NVME_PAGE_SIZE;
        if prp2 == 0 && prp1 % NVME_PAGE_SIZE == 0 {
            first
        } else if prp2 % 2 != 0 {
            first
        } else {
            first + NVME_PAGE_SIZE
        }
    }
}

fn first_length(prp1: u64, length: usize) -> (r: usize)
    ensures
        r == first_part(prp1, length as nat),
        r <= length,
        length > 0 ==> r > 0,
{
    let room: u64 = NVME_PAGE_SIZE - prp1 % NVME_PAGE_SIZE;
    if length as u64 <= room {
        length
    } else {
        room as usize
    }
}

fn page_length(length: usize) -> (r: usize)
    ensures
        r == page_part(length as nat),
        r <= length,
        length > 0 ==> r > 0,
{
    if length as u64 <= NVME_PAGE_SIZE {
        length
    } else {
        NVME_PAGE_SIZE as usize
    }
}

fn locate_second(prp1: u64, prp2: u64, rest: usize) -> (r: SecondPart)
    ensures
        r == second_part(prp1, prp2, rest as nat),
{
    if prp2 == 0 {
        if prp1 % NVME_PAGE_SIZE != 0 && rest as u64 <= NVME_PAGE_SIZE {
            match (prp1 - prp1 % NVME_PAGE_SIZE).checked_add(NVME_PAGE_SIZE) {
                None => SecondPart::Nowhere,
                Some(page) => SecondPart::Page(page),
            }
        } else {
            SecondPart::Nowhere
        }
    } else if rest as u64 <= NVME_PAGE_SIZE {
        SecondPart::Page(prp2)
    } else {
        SecondPart::List(prp2)
    }
}

fn read_page(ram: &mut GuestRam, memory: &Mapped, address: u64, length: usize) -> (r: Result<
    Vec<u8>,
    Error,
>)
    ensures
        final(ram)@.follows(old(ram)@),
        r matches Ok(got) ==> got@.len() == length,
        forall|answers: RamAnswers| #[trigger]
            final(ram)@.agrees(answers) ==> {
                let (next, wanted) = page_read(
                    old(ram)@.under(answers),
                    *memory,
                    address,
                    length as nat,
                );
                &&& final(ram)@.under(answers) == next
                &&& match wanted {
                    Err(error) => r == Err::<Vec<u8>, Error>(error),
                    Ok(bytes) => r matches Ok(got) && got@ == bytes,
                }
            },
{
    match ram.read(memory, address, length) {
        None => Err(Error::GuestMemory),
        Some((_, bytes)) => Ok(bytes),
    }
}

fn write_page(ram: &mut GuestRam, memory: &Mapped, address: u64, data: &[u8]) -> (r: Result<
    (),
    Error,
>)
    ensures
        final(ram)@.follows(old(ram)@),
        forall|answers: RamAnswers| #[trigger]
            final(ram)@.agrees(answers) ==> (final(ram)@.under(answers), r) == page_write(
                old(ram)@.under(answers),
                *memory,
                address, data@,
            ),
{
    match ram.write(memory, address, data) {
        None => Err(Error::GuestMemory),
        Some(_) => Ok(()),
    }
}

proof fn lemma_page_read_length(ram: crate::ram::Ram, memory: Mapped, address: u64, length: nat)
    ensures
        page_read(ram, memory, address, length).1 matches Ok(bytes) ==> bytes.len() == length,
{
    crate::ram::lemma_reach_bounded(
        crate::ram::backed_by(crate::ram::memory_regions(memory)),
        address,
        length,
    );
}

proof fn lemma_list_read_length(ram: crate::ram::Ram, memory: Mapped, list: u64, length: nat)
    ensures
        list_read(ram, memory, list, length).1 matches Ok(bytes) ==> bytes.len() == length,
    decreases length,
{
    if length > 0 {
        let (fetched, entry) = page_read(ram, memory, list, 8);
        if let Ok(entry) = entry {
            let page = crate::bytes::le64(entry, 0);
            let size = page_part(length);
            lemma_page_read_length(fetched, memory, page, size);
            if page != 0 && length != size && list + 8 <= u64::MAX {
                lemma_list_read_length(
                    page_read(fetched, memory, page, size).0,
                    memory,
                    (list + 8) as u64,
                    (length - size) as nat,
                );
            }
        }
    }
}

/// What is read through pages is as long as was asked for.
pub proof fn transfers_are_whole(ram: crate::ram::Ram, prp1: u64, prp2: u64, length: nat)
    ensures
        prp_read(ram, prp1, prp2, length).1 matches Ok(bytes) ==> bytes.len() == length,
{
    let first = first_part(prp1, length);
    let rest = (length - first) as nat;
    if prp1 != 0 && length != 0 {
        let (loaded, memory) = ram.loaded();
        lemma_page_read_length(loaded, memory, prp1, first);
        let started = page_read(loaded, memory, prp1, first).0;
        match second_part(prp1, prp2, rest) {
            SecondPart::Nowhere => {},
            SecondPart::Page(page) => {
                lemma_page_read_length(started, memory, page, rest);
            },
            SecondPart::List(list) => {
                lemma_list_read_length(started, memory, list, rest);
            },
        }
    }
}

/// What was read from a list, behind bytes that were read before.
spec fn joined(
    head: Seq<u8>,
    tail: (crate::ram::Ram, Result<Seq<u8>, Error>),
) -> (crate::ram::Ram, Result<Seq<u8>, Error>) {
    match tail.1 {
        Err(_) => tail,
        Ok(bytes) => (tail.0, Ok(head + bytes)),
    }
}

fn read_list(ram: &mut GuestRam, memory: &Mapped, list: u64, length: usize) -> (r: Result<
    Vec<u8>,
    Error,
>)
    ensures
        final(ram)@.follows(old(ram)@),
        r matches Ok(got) ==> got@.len() == length,
        forall|answers: RamAnswers| #[trigger]
            final(ram)@.agrees(answers) ==> {
                let (next, wanted) = list_read(
                    old(ram)@.under(answers),
                    *memory,
                    list,
                    length as nat,
                );
                &&& final(ram)@.under(answers) == next
                &&& match wanted {
                    Err(error) => r == Err::<Vec<u8>, Error>(error),
                    Ok(bytes) => r matches Ok(got) && got@ == bytes,
                }
            },
{
    let mut data: Vec<u8> = Vec::new();
    let mut address: u64 = list;
    let mut left: usize = length;
    assert forall|answers: RamAnswers| #[trigger] ram@.agrees(answers) implies joined(
        data@,
        list_read(ram@.under(answers), *memory, list, length as nat),
    ) == list_read(old(ram)@.under(answers), *memory, list, length as nat) by {
        let whole = list_read(old(ram)@.under(answers), *memory, list, length as nat);
        if let Ok(bytes) = whole.1 {
            assert(data@ + bytes =~= bytes);
        }
    }
    while left > 0
        invariant
            left <= length,
            data@.len() + left == length,
            ram@.follows(old(ram)@),
            forall|answers: RamAnswers| #[trigger]
                ram@.agrees(answers) ==> joined(
                    data@,
                    list_read(ram@.under(answers), *memory, address, left as nat),
                ) == list_read(old(ram)@.under(answers), *memory, list, length as nat),
        decreases left,
    {
        let ghost before = ram@;
        let ghost had = data@;
        let ghost place = address;
        let ghost wanted = left as nat;
        let entry = match read_page(ram, memory, address, 8) {
            Ok(entry) => entry,
            Err(error) => {
                return Err(error);
            },
        };
        let page: u64 = get_le64(&entry, 0);
        if page == 0 {
            push_zeros(&mut data, left);
            return Ok(data);
        }
        let size: usize = page_length(left);
        let bytes = match read_page(ram, memory, page, size) {
            Ok(bytes) => bytes,
            Err(error) => {
                return Err(error);
            },
        };
        push_range(&mut data, &bytes, 0, bytes.len());
        assert(bytes@.subrange(0, bytes@.len() as int) =~= bytes@);
        if left == size {
            assert(data@ == had + bytes@);
            return Ok(data);
        }
        if address > u64::MAX - 8 {
            return Err(Error::InvalidPrpList);
        }
        address = address + 8;
        left = left - size;
        proof {
            assert forall|answers: RamAnswers| #[trigger] ram@.agrees(answers) implies joined(
                data@,
                list_read(ram@.under(answers), *memory, address, left as nat),
            ) == list_read(old(ram)@.under(answers), *memory, list, length as nat) by {
                let rest = list_read(before.under(answers), *memory, place, wanted);
                let tail = list_read(ram@.under(answers), *memory, address, left as nat);
                if let Ok(more) = tail.1 {
                    assert(rest.1 == Ok::<Seq<u8>, Error>(bytes@ + more));
                    assert(had + (bytes@ + more) =~= data@ + more);
                }
            }
        }
    }
    assert(data@ + Seq::<u8>::empty() =~= data@);
    Ok(data)
}

/// The `length` bytes that the pages hold.
pub fn read_prp(ram: &mut GuestRam, prp1: u64, prp2: u64, length: usize) -> (r: Result<
    Vec<u8>,
    Error,
>)
    ensures
        final(ram)@.follows(old(ram)@),
        final(ram)@.settled(),
        r matches Ok(got) ==> got@.len() == length,
        forall|answers: RamAnswers| #[trigger]
            final(ram)@.agrees(answers) ==> {
                let (next, wanted) = prp_read(old(ram)@.under(answers), prp1, prp2, length as nat);
                &&& final(ram)@.under(answers) == next
                &&& match wanted {
                    Err(error) => r == Err::<Vec<u8>, Error>(error),
                    Ok(bytes) => r matches Ok(got) && got@ == bytes,
                }
            },
{
    if prp1 == 0 {
        return Ok(zeroed(length));
    }
    let memory = ram.load();
    if length == 0 {
        return Ok(Vec::new());
    }
    let first: usize = first_length(prp1, length);
    let mut data = match read_page(ram, &memory, prp1, first) {
        Ok(data) => data,
        Err(error) => {
            return Err(error);
        },
    };
    let rest: usize = length - first;
    if rest == 0 {
        return Ok(data);
    }
    let tail = match locate_second(prp1, prp2, rest) {
        SecondPart::Nowhere => Err(Error::InvalidPrpList),
        SecondPart::Page(page) => read_page(ram, &memory, page, rest),
        SecondPart::List(list) => read_list(ram, &memory, list, rest),
    };
    match tail {
        Err(error) => Err(error),
        Ok(tail) => {
            push_range(&mut data, &tail, 0, tail.len());
            assert(tail@.subrange(0, tail@.len() as int) =~= tail@);
            Ok(data)
        },
    }
}

fn write_list(ram: &mut GuestRam, memory: &Mapped, list: u64, data: &[u8]) -> (r: Result<(), Error>)
    ensures
        final(ram)@.follows(old(ram)@),
        forall|answers: RamAnswers| #[trigger]
            final(ram)@.agrees(answers) ==> (final(ram)@.under(answers), r) == list_write(
                old(ram)@.under(answers),
                *memory,
                list, data@,
            ),
{
    let mut address: u64 = list;
    let mut done: usize = 0;
    assert(data@.skip(0) =~= data@);
    while done < data.len()
        invariant
            done <= data@.len(),
            ram@.follows(old(ram)@),
            forall|answers: RamAnswers| #[trigger]
                ram@.agrees(answers) ==> list_write(old(ram)@.under(answers), *memory, list, data@)
                    == list_write(ram@.under(answers), *memory, address, data@.skip(done as int)),
        decreases data@.len() - done,
    {
        let entry = match read_page(ram, memory, address, 8) {
            Ok(entry) => entry,
            Err(error) => {
                return Err(error);
            },
        };
        let page: u64 = get_le64(&entry, 0);
        if page == 0 {
            return Ok(());
        }
        let left: usize = data.len() - done;
        let size: usize = page_length(left);
        let part = range_of(data, done, done + size);
        assert(part@ =~= data@.skip(done as int).take(size as int));
        match write_page(ram, memory, page, &part) {
            Ok(()) => {},
            Err(error) => {
                return Err(error);
            },
        }
        if left == size {
            return Ok(());
        }
        if address > u64::MAX - 8 {
            return Err(Error::InvalidPrpList);
        }
        assert(data@.skip(done as int).skip(size as int) =~= data@.skip(done + size));
        address = address + 8;
        done = done + size;
    }
    Ok(())
}

/// Writes bytes to the pages.
pub fn write_prp(ram: &mut GuestRam, prp1: u64, prp2: u64, data: &[u8]) -> (r: Result<
    (),
    Error,
>)
    ensures
        final(ram)@.follows(old(ram)@),
        final(ram)@.settled(),
        forall|answers: RamAnswers| #[trigger]
            final(ram)@.agrees(answers) ==> (final(ram)@.under(answers), r) == prp_write(
                old(ram)@.under(answers),
                prp1, prp2, data@,
            ),
{
    if prp1 == 0 {
        return Ok(());
    }
    let memory = ram.load();
    if data.len() == 0 {
        return Ok(());
    }
    let first: usize = first_length(prp1, data.len());
    let head = range_of(data, 0, first);
    assert(head@ =~= data@.take(first as int));
    match write_page(ram, &memory, prp1, &head) {
        Ok(()) => {},
        Err(error) => {
            return Err(error);
        },
    }
    let rest = range_of(data, first, data.len());
    assert(rest@ =~= data@.skip(first as int));
    if rest.len() == 0 {
        return Ok(());
    }
    match locate_second(prp1, prp2, rest.len()) {
        SecondPart::Nowhere => Err(Error::InvalidPrpList),
        SecondPart::Page(page) => write_page(ram, &memory, page, &rest),
        SecondPart::List(list) => write_list(ram, &memory, list, &rest),
    }
}

/// How many bytes two entries hold that are no list.
pub fn prp_capacity(prp1: u64, prp2: u64) -> (r: u64)
    ensures
        r == capacity(prp1, prp2),
{
    if prp1 == 0 {
        return 0;
    }
    let page_offset: u64 = prp1 % NVME_PAGE_SIZE;
    let first: u64 = NVME_PAGE_SIZE - page_offset;
    if prp2 == 0 && page_offset == 0 {
        first
    } else if prp2 % 2 != 0 {
        first
    } else {
        first + NVME_PAGE_SIZE
    }
}

} // verus!
