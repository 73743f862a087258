//! The pages that the Identify command returns.
use vstd::prelude::*;

use crate::bytes::{push_le16, push_le32, push_le64, push_range, push_zeros};
use crate::nvme::LBA_SIZE;

verus! {

/// The size of a page.
pub const IDENTIFY_SIZE: usize = 4096;

pub const PCI_VENDOR: u16 = 0x1af4;

/// The serial number, filled up with spaces.
pub const SERIAL: [u8; 20] = [
    0x43,
    0x4c,
    0x4f,
    0x55,
    0x44,
    0x48,
    0x56,
    0x20,
    0x20,
    0x20,
    0x20,
    0x20,
    0x20,
    0x20,
    0x20,
    0x20,
    0x20,
    0x20,
    0x20,
    0x20,
];

/// The model, filled up with spaces.
pub const MODEL: [u8; 40] = [
    0x43,
    0x4c,
    0x4f,
    0x55,
    0x44,
    0x48,
    0x56,
    0x2d,
    0x4e,
    0x56,
    0x4d,
    0x45,
    0x20,
    0x20,
    0x20,
    0x20,
    0x20,
    0x20,
    0x20,
    0x20,
    0x20,
    0x20,
    0x20,
    0x20,
    0x20,
    0x20,
    0x20,
    0x20,
    0x20,
    0x20,
    0x20,
    0x20,
    0x20,
    0x20,
    0x20,
    0x20,
    0x20,
    0x20,
    0x20,
    0x20,
];

/// The firmware revision, filled up with spaces.
pub const FIRMWARE: [u8; 8] = [
    0x31,
    0x2e,
    0x30,
    0x2e,
    0x30,
    0x20,
    0x20,
    0x20,
];

/// The first part of the page of the controller: who made it, and what it can transfer.
pub open spec fn controller_head() -> Seq<u8> {
    crate::bytes::le16_bytes(PCI_VENDOR) + crate::bytes::le16_bytes(PCI_VENDOR) + SERIAL@ + MODEL@
        + FIRMWARE@ + seq![2u8, 0x14, 0x00, 0x00, 0, 4, 1, 0] + crate::bytes::le32_bytes(0x14)
}

/// The second part of the page of the controller: its optional commands and its capacity.
pub open spec fn controller_middle(capacity: u64) -> Seq<u8> {
    seq![7u8, 0, 3, 8, 7, 1, 8, 1] + crate::bytes::zeros(16) + crate::bytes::le64_bytes(
        (capacity * LBA_SIZE) as u64,
    )
}

/// The third part of the page of the controller: its queues and its namespace.
pub open spec fn controller_tail() -> Seq<u8> {
    seq![0x66u8, 0x22, 0xff, 0xff] + crate::bytes::le32_bytes(1) + crate::bytes::le16_bytes(3)
        + crate::bytes::le16_bytes(3) + crate::bytes::zeros(4) + seq![1u8]
}

/// The page of the controller, for a namespace of `capacity` logical blocks.
pub open spec fn controller_page(capacity: u64) -> Seq<u8> {
    controller_head() + crate::bytes::zeros(0xac) + controller_middle(capacity)
        + crate::bytes::zeros(0xe0) + controller_tail() + crate::bytes::zeros(0xdef)
}

/// The page of a namespace of `capacity` logical blocks, all of them in use, of one format.
pub open spec fn namespace_page(capacity: u64) -> Seq<u8> {
    crate::bytes::le64_bytes(capacity) + crate::bytes::le64_bytes(capacity)
        + crate::bytes::le64_bytes(capacity) + crate::bytes::zeros(104) + seq![0u8, 0, 9, 1]
        + crate::bytes::zeros(0xf7c)
}

/// The page that lists the one namespace.
pub open spec fn namespace_list() -> Seq<u8> {
    seq![1u8] + crate::bytes::zeros(0xfff)
}

/// Every page has the size that the command transfers.
pub proof fn pages_are_whole(capacity: u64)
    ensures
        controller_page(capacity).len() == IDENTIFY_SIZE,
        namespace_page(capacity).len() == IDENTIFY_SIZE,
        namespace_list().len() == IDENTIFY_SIZE,
{
}

pub fn identify_controller(capacity: u64) -> (r: Vec<u8>)
    requires
        capacity * LBA_SIZE <= u64::MAX,
    ensures
        r@ == controller_page(capacity),
{
    let mut page: Vec<u8> = Vec::new();
    push_le16(&mut page, PCI_VENDOR);
    push_le16(&mut page, PCI_VENDOR);
    push_range(&mut page, &SERIAL, 0, 20);
    assert(SERIAL@.subrange(0, 20) =~= SERIAL@);
    push_range(&mut page, &MODEL, 0, 40);
    assert(MODEL@.subrange(0, 40) =~= MODEL@);
    push_range(&mut page, &FIRMWARE, 0, 8);
    assert(FIRMWARE@.subrange(0, 8) =~= FIRMWARE@);
    let limits: Vec<u8> = vec![2, 0x14, 0x00, 0x00, 0, 4, 1, 0];
    push_range(&mut page, &limits, 0, 8);
    push_le32(&mut page, 0x14);
    assert(page@ =~= controller_head());
    push_zeros(&mut page, 0xac);
    let ghost head = page@;
    let support: Vec<u8> = vec![7, 0, 3, 8, 7, 1, 8, 1];
    push_range(&mut page, &support, 0, 8);
    push_zeros(&mut page, 16);
    push_le64(&mut page, capacity * LBA_SIZE);
    assert(page@ =~= head + controller_middle(capacity));
    push_zeros(&mut page, 0xe0);
    let ghost middle = page@;
    let queues: Vec<u8> = vec![0x66, 0x22, 0xff, 0xff];
    push_range(&mut page, &queues, 0, 4);
    push_le32(&mut page, 1);
    push_le16(&mut page, 3);
    push_le16(&mut page, 3);
    push_zeros(&mut page, 4);
    page.push(1);
    assert(page@ =~= middle + controller_tail());
    push_zeros(&mut page, 0xdef);
    page
}

pub fn identify_namespace(capacity: u64) -> (r: Vec<u8>)
    ensures
        r@ == namespace_page(capacity),
{
    let mut page: Vec<u8> = Vec::new();
    push_le64(&mut page, capacity);
    push_le64(&mut page, capacity);
    push_le64(&mut page, capacity);
    push_zeros(&mut page, 104);
    let format: Vec<u8> = vec![0, 0, 9, 1];
    push_range(&mut page, &format, 0, 4);
    assert(format@.subrange(0, 4) =~= seq![0u8, 0, 9, 1]);
    push_zeros(&mut page, 0xf7c);
    page
}

pub fn identify_namespace_list() -> (r: Vec<u8>)
    ensures
        r@ == namespace_list(),
{
    let mut page: Vec<u8> = Vec::new();
    page.push(1);
    push_zeros(&mut page, 0xfff);
    assert(page@ =~= namespace_list());
    page
}

} // verus!
