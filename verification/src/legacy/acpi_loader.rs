//! The script by which firmware loads the ACPI tables: it allocates the files, patches the
//! pointers between them and computes the checksums.
use vstd::prelude::*;

use acpi_tables::rsdp::Rsdp;
use zerocopy::IntoBytes;

use crate::bytes::{push_le32, push_range, push_zeros};
use crate::legacy::fw_cfg::{create_file_name, FwCfgContent, FwCfgItem};

verus! {

pub const COMMAND_ALLOCATE: u32 = 0x1;

pub const COMMAND_ADD_POINTER: u32 = 0x2;

pub const COMMAND_ADD_CHECKSUM: u32 = 0x3;

pub const ALLOC_ZONE_HIGH: u8 = 0x1;

pub const ALLOC_ZONE_FSEG: u8 = 0x2;

/// The size of every command of the script.
pub const COMMAND_SIZE: usize = 128;

/// Where a table holds its checksum.
pub const TABLE_CHECKSUM: usize = 9;

/// Where the root pointer holds the checksum of its first part.
pub const RSDP_CHECKSUM: u32 = 8;

/// The size of the first part of the root pointer.
pub const RSDP_LENGTH: u32 = 20;

/// Where the root pointer holds the address of the table of tables.
pub const RSDP_XSDT_ADDR: u32 = 24;

/// Where the root pointer holds the checksum of the whole.
pub const RSDP_EXTENDED_CHECKSUM: u32 = 32;

pub const RSDP_SIZE: u32 = 36;

/// `acpi_tables::rsdp::Rsdp`, the root pointer of the tables.
#[verifier::external_type_specification]
#[verifier::external_body]
pub struct ExRsdp(acpi_tables::rsdp::Rsdp);

/// The bytes of a root pointer in memory.
pub uninterp spec fn rsdp_image(rsdp: acpi_tables::rsdp::Rsdp) -> Seq<u8>;

/// `zerocopy::IntoBytes::as_bytes` of an `Rsdp`: the bytes of the root pointer, as many as
/// the packed structure has.
#[verifier::external_body]
fn bytes_of_rsdp(rsdp: &Rsdp) -> (r: Vec<u8>)
    ensures
        r@ == rsdp_image(*rsdp),
        r@.len() == RSDP_SIZE,
{
    rsdp.as_bytes().to_vec()
}

/// The tables, the root pointer to them, where the tables point into each other, and the
/// start and the length of what each checksum covers.
pub struct AcpiTable {
    pub rsdp: Rsdp,
    pub tables: Vec<u8>,
    pub table_pointers: Vec<usize>,
    pub table_checksums: Vec<(usize, usize)>,
}

/// The command that allocates a file in a zone of memory.
pub open spec fn allocate(file: Seq<char>, zone: u8) -> Seq<u8> {
    crate::bytes::le32_bytes(COMMAND_ALLOCATE) + crate::legacy::fw_cfg::file_name(file)
        + crate::bytes::le32_bytes(4) + seq![zone] + crate::bytes::zeros(63)
}

/// The command that adds the address of the file `src` to the eight bytes at `offset` of the
/// file `dst`.
pub open spec fn add_pointer(dst: Seq<char>, src: Seq<char>, offset: u32) -> Seq<u8> {
    crate::bytes::le32_bytes(COMMAND_ADD_POINTER) + crate::legacy::fw_cfg::file_name(dst)
        + crate::legacy::fw_cfg::file_name(src) + crate::bytes::le32_bytes(offset) + seq![8u8]
        + crate::bytes::zeros(7)
}

/// The command that puts the checksum of `length` bytes from `start` on at `offset` of a file.
pub open spec fn add_checksum(file: Seq<char>, offset: u32, start: u32, length: u32) -> Seq<u8> {
    crate::bytes::le32_bytes(COMMAND_ADD_CHECKSUM) + crate::legacy::fw_cfg::file_name(file)
        + crate::bytes::le32_bytes(offset) + crate::bytes::le32_bytes(start)
        + crate::bytes::le32_bytes(length) + crate::bytes::zeros(56)
}

/// A command for each pointer inside the tables.
pub open spec fn table_pointer_commands(pointers: Seq<usize>) -> Seq<u8>
    decreases pointers.len(),
{
    if pointers.len() == 0 {
        Seq::empty()
    } else {
        table_pointer_commands(pointers.drop_last()) + add_pointer(
            "acpi/tables"@,
            "acpi/tables"@,
            pointers.last() as u32,
        )
    }
}

/// A command for each checksum inside the tables.
pub open spec fn table_checksum_commands(checksums: Seq<(usize, usize)>) -> Seq<u8>
    decreases checksums.len(),
{
    if checksums.len() == 0 {
        Seq::empty()
    } else {
        let (start, length) = checksums.last();
        table_checksum_commands(checksums.drop_last()) + add_checksum(
            "acpi/tables"@,
            (start + TABLE_CHECKSUM) as u32,
            start as u32,
            length as u32,
        )
    }
}

/// The whole script.
pub open spec fn loader_script(
    pointers: Seq<usize>,
    checksums: Seq<(usize, usize)>,
) -> Seq<u8> {
    allocate("acpi/rsdp"@, ALLOC_ZONE_FSEG) + allocate("acpi/tables"@, ALLOC_ZONE_HIGH)
        + table_pointer_commands(pointers) + table_checksum_commands(checksums) + add_pointer(
        "acpi/rsdp"@,
        "acpi/tables"@,
        RSDP_XSDT_ADDR,
    ) + add_checksum("acpi/rsdp"@, RSDP_CHECKSUM, 0, RSDP_LENGTH) + add_checksum(
        "acpi/rsdp"@,
        RSDP_EXTENDED_CHECKSUM,
        0,
        RSDP_SIZE,
    )
}

/// The script is made of whole commands: two allocations, one for each pointer and each
/// checksum of the tables, and three for the root pointer.
pub proof fn the_script_has_whole_commands(pointers: Seq<usize>, checksums: Seq<(usize, usize)>)
    ensures
        loader_script(pointers, checksums).len() == COMMAND_SIZE * (5 + pointers.len()
            + checksums.len()),
{
    lemma_pointer_commands_length(pointers);
    lemma_checksum_commands_length(checksums);
}

proof fn lemma_pointer_commands_length(pointers: Seq<usize>)
    ensures
        table_pointer_commands(pointers).len() == COMMAND_SIZE * pointers.len(),
    decreases pointers.len(),
{
    if pointers.len() > 0 {
        lemma_pointer_commands_length(pointers.drop_last());
    }
}

proof fn lemma_checksum_commands_length(checksums: Seq<(usize, usize)>)
    ensures
        table_checksum_commands(checksums).len() == COMMAND_SIZE * checksums.len(),
    decreases checksums.len(),
{
    if checksums.len() > 0 {
        lemma_checksum_commands_length(checksums.drop_last());
    }
}

fn push_file_name(script: &mut Vec<u8>, name: &str)
    ensures
        final(script)@ == old(script)@ + crate::legacy::fw_cfg::file_name(name@),
{
    let c_name = create_file_name(name);
    push_range(script, &c_name, 0, 56);
    assert(c_name@.subrange(0, 56) =~= c_name@);
}

fn push_allocate(script: &mut Vec<u8>, file: &str, zone: u8)
    ensures
        final(script)@ == old(script)@ + allocate(file@, zone),
{
    push_le32(script, COMMAND_ALLOCATE);
    push_file_name(script, file);
    push_le32(script, 4);
    script.push(zone);
    push_zeros(script, 63);
    assert(script@ =~= old(script)@ + allocate(file@, zone));
}

fn push_pointer(script: &mut Vec<u8>, dst: &str, src: &str, offset: u32)
    ensures
        final(script)@ == old(script)@ + add_pointer(dst@, src@, offset),
{
    push_le32(script, COMMAND_ADD_POINTER);
    push_file_name(script, dst);
    push_file_name(script, src);
    push_le32(script, offset);
    script.push(8);
    push_zeros(script, 7);
    assert(script@ =~= old(script)@ + add_pointer(dst@, src@, offset));
}

fn push_checksum(script: &mut Vec<u8>, file: &str, offset: u32, start: u32, length: u32)
    ensures
        final(script)@ == old(script)@ + add_checksum(file@, offset, start, length),
{
    push_le32(script, COMMAND_ADD_CHECKSUM);
    push_file_name(script, file);
    push_le32(script, offset);
    push_le32(script, start);
    push_le32(script, length);
    push_zeros(script, 56);
    assert(script@ =~= old(script)@ + add_checksum(file@, offset, start, length));
}

/// The script that loads the tables.
pub fn create_script(pointers: &Vec<usize>, checksums: &Vec<(usize, usize)>) -> (r: Vec<u8>)
    requires
        forall|i: int|
            0 <= i < checksums@.len() ==> (#[trigger] checksums@[i]).0 + TABLE_CHECKSUM
                <= usize::MAX,
    ensures
        r@ == loader_script(pointers@, checksums@),
{
    let mut script: Vec<u8> = Vec::new();
    push_allocate(&mut script, "acpi/rsdp", ALLOC_ZONE_FSEG);
    push_allocate(&mut script, "acpi/tables", ALLOC_ZONE_HIGH);
    let ghost allocated = script@;
    assert(allocated =~= allocate("acpi/rsdp"@, ALLOC_ZONE_FSEG) + allocate(
        "acpi/tables"@,
        ALLOC_ZONE_HIGH,
    ));
    let mut i: usize = 0;
    assert(script@ =~= allocated + table_pointer_commands(pointers@.take(0)));
    while i < pointers.len()
        invariant
            i <= pointers@.len(),
            script@ == allocated + table_pointer_commands(pointers@.take(i as int)),
        decreases pointers@.len() - i,
    {
        push_pointer(&mut script, "acpi/tables", "acpi/tables", pointers[i] as u32);
        assert(pointers@.take(i + 1).drop_last() =~= pointers@.take(i as int));
        i = i + 1;
        assert(script@ =~= allocated + table_pointer_commands(pointers@.take(i as int)));
    }
    assert(pointers@.take(i as int) =~= pointers@);
    let ghost pointed = script@;
    let mut k: usize = 0;
    assert(script@ =~= pointed + table_checksum_commands(checksums@.take(0)));
    while k < checksums.len()
        invariant
            k <= checksums@.len(),
            forall|i: int|
                0 <= i < checksums@.len() ==> (#[trigger] checksums@[i]).0 + TABLE_CHECKSUM
                    <= usize::MAX,
            script@ == pointed + table_checksum_commands(checksums@.take(k as int)),
        decreases checksums@.len() - k,
    {
        let start: usize = checksums[k].0;
        let length: usize = checksums[k].1;
        assert(checksums@[k as int].0 == start);
        push_checksum(
            &mut script,
            "acpi/tables",
            (start + TABLE_CHECKSUM) as u32,
            start as u32,
            length as u32,
        );
        assert(checksums@.take(k + 1).drop_last() =~= checksums@.take(k as int));
        k = k + 1;
        assert(script@ =~= pointed + table_checksum_commands(checksums@.take(k as int)));
    }
    assert(checksums@.take(k as int) =~= checksums@);
    push_pointer(&mut script, "acpi/rsdp", "acpi/tables", RSDP_XSDT_ADDR);
    push_checksum(&mut script, "acpi/rsdp", RSDP_CHECKSUM, 0, RSDP_LENGTH);
    push_checksum(&mut script, "acpi/rsdp", RSDP_EXTENDED_CHECKSUM, 0, RSDP_SIZE);
    script
}

/// The three files of a set of tables: the script, the root pointer and the tables.
pub open spec fn loader_items(table: AcpiTable) -> Seq<crate::legacy::fw_cfg::Item> {
    seq![
        crate::legacy::fw_cfg::Item {
            name: "etc/table-loader"@,
            content: crate::legacy::fw_cfg::owned_content(
                loader_script(table.table_pointers@, table.table_checksums@),
            ),
        },
        crate::legacy::fw_cfg::Item {
            name: "acpi/rsdp"@,
            content: crate::legacy::fw_cfg::owned_content(rsdp_image(table.rsdp)),
        },
        crate::legacy::fw_cfg::Item {
            name: "acpi/tables"@,
            content: crate::legacy::fw_cfg::owned_content(table.tables@),
        },
    ]
}

/// The three files of a set of tables.
pub fn create_acpi_loader(acpi_table: AcpiTable) -> (r: (FwCfgItem, FwCfgItem, FwCfgItem))
    requires
        forall|i: int|
            0 <= i < acpi_table.table_checksums@.len() ==> (
            #[trigger] acpi_table.table_checksums@[i]).0 + TABLE_CHECKSUM <= usize::MAX,
    ensures
        seq![r.0@, r.1@, r.2@] == loader_items(acpi_table),
        r.0.content.valid(),
        r.1.content.valid(),
        r.2.content.valid(),
{
    let script = create_script(&acpi_table.table_pointers, &acpi_table.table_checksums);
    let rsdp = bytes_of_rsdp(&acpi_table.rsdp);
    (
        FwCfgItem { name: "etc/table-loader".to_owned(), content: FwCfgContent::Bytes(script) },
        FwCfgItem { name: "acpi/rsdp".to_owned(), content: FwCfgContent::Bytes(rsdp) },
        FwCfgItem {
            name: "acpi/tables".to_owned(),
            content: FwCfgContent::Bytes(acpi_table.tables),
        },
    )
}

/// A command of a script: 128 bytes.
pub open spec fn command(script: Seq<u8>, k: int) -> Seq<u8> {
    script.subrange(128 * k, 128 * k + 128)
}

/// Whether a command has its kind in the first four bytes, and a file name after them.
pub open spec fn names(bytes: Seq<u8>, kind: nat, file: Seq<char>) -> bool {
    &&& bytes.len() == 128
    &&& crate::bytes::number_at(bytes, 0, 4) == kind
    &&& bytes.subrange(4, 60) == crate::legacy::fw_cfg::file_name(file)
}

/// Whether a command allocates a file, in high memory or, for 2, in the segment of the firmware.
pub open spec fn allocates(bytes: Seq<u8>, file: Seq<char>, zone: u8) -> bool {
    names(bytes, 1, file) && bytes[64] == zone
}

/// Whether a command adds the address of one file to eight bytes of another.
pub open spec fn points(bytes: Seq<u8>, file: Seq<char>, target: Seq<char>, offset: nat) -> bool {
    &&& names(bytes, 2, file)
    &&& bytes.subrange(60, 116) == crate::legacy::fw_cfg::file_name(target)
    &&& crate::bytes::number_at(bytes, 116, 4) == offset
    &&& bytes[120] == 8
}

/// Whether a command puts a checksum into a file.
pub open spec fn sums(bytes: Seq<u8>, file: Seq<char>, offset: nat, start: nat, length: nat) -> bool {
    &&& names(bytes, 3, file)
    &&& crate::bytes::number_at(bytes, 60, 4) == offset
    &&& crate::bytes::number_at(bytes, 64, 4) == start
    &&& crate::bytes::number_at(bytes, 68, 4) == length
}

proof fn lemma_allocates(file: Seq<char>, zone: u8)
    ensures
        allocates(allocate(file, zone), file, zone),
{
    let bytes = allocate(file, zone);
    crate::bytes::le_bytes_hold_the_value(0, 1, 0);
    assert(bytes.subrange(0, 4) =~= crate::bytes::le32_bytes(1));
    assert(bytes.subrange(4, 60) =~= crate::legacy::fw_cfg::file_name(file));
}

proof fn lemma_points(file: Seq<char>, target: Seq<char>, offset: u32)
    ensures
        points(add_pointer(file, target, offset), file, target, offset as nat),
{
    let bytes = add_pointer(file, target, offset);
    crate::bytes::le_bytes_hold_the_value(0, 2, 0);
    crate::bytes::le_bytes_hold_the_value(0, offset, 0);
    assert(bytes.subrange(0, 4) =~= crate::bytes::le32_bytes(2));
    assert(bytes.subrange(4, 60) =~= crate::legacy::fw_cfg::file_name(file));
    assert(bytes.subrange(60, 116) =~= crate::legacy::fw_cfg::file_name(target));
    assert(bytes.subrange(116, 120) =~= crate::bytes::le32_bytes(offset));
}

proof fn lemma_sums(file: Seq<char>, offset: u32, start: u32, length: u32)
    ensures
        sums(
            add_checksum(file, offset, start, length),
            file,
            offset as nat,
            start as nat,
            length as nat,
        ),
{
    let bytes = add_checksum(file, offset, start, length);
    crate::bytes::le_bytes_hold_the_value(0, 3, 0);
    crate::bytes::le_bytes_hold_the_value(0, offset, 0);
    crate::bytes::le_bytes_hold_the_value(0, start, 0);
    crate::bytes::le_bytes_hold_the_value(0, length, 0);
    assert(bytes.subrange(0, 4) =~= crate::bytes::le32_bytes(3));
    assert(bytes.subrange(4, 60) =~= crate::legacy::fw_cfg::file_name(file));
    assert(bytes.subrange(60, 64) =~= crate::bytes::le32_bytes(offset));
    assert(bytes.subrange(64, 68) =~= crate::bytes::le32_bytes(start));
    assert(bytes.subrange(68, 72) =~= crate::bytes::le32_bytes(length));
}

proof fn lemma_pointer_command(pointers: Seq<usize>, i: int)
    requires
        0 <= i < pointers.len(),
    ensures
        command(table_pointer_commands(pointers), i) == add_pointer(
            "acpi/tables"@,
            "acpi/tables"@,
            pointers[i] as u32,
        ),
    decreases pointers.len(),
{
    let n = pointers.len() - 1;
    let before = table_pointer_commands(pointers.drop_last());
    let all = table_pointer_commands(pointers);
    lemma_pointer_commands_length(pointers.drop_last());
    lemma_pointer_commands_length(pointers);
    if i < n {
        lemma_pointer_command(pointers.drop_last(), i);
        assert(command(all, i) =~= command(before, i));
    } else {
        assert(command(all, n) =~= add_pointer(
            "acpi/tables"@,
            "acpi/tables"@,
            pointers[n] as u32,
        ));
    }
}

proof fn lemma_checksum_command(checksums: Seq<(usize, usize)>, i: int)
    requires
        0 <= i < checksums.len(),
    ensures
        command(table_checksum_commands(checksums), i) == add_checksum(
            "acpi/tables"@,
            (checksums[i].0 + 9) as u32,
            checksums[i].0 as u32,
            checksums[i].1 as u32,
        ),
    decreases checksums.len(),
{
    let n = checksums.len() - 1;
    let before = table_checksum_commands(checksums.drop_last());
    let all = table_checksum_commands(checksums);
    lemma_checksum_commands_length(checksums.drop_last());
    lemma_checksum_commands_length(checksums);
    if i < n {
        lemma_checksum_command(checksums.drop_last(), i);
        assert(command(all, i) =~= command(before, i));
    } else {
        assert(command(all, n) =~= add_checksum(
            "acpi/tables"@,
            (checksums[n].0 + 9) as u32,
            checksums[n].0 as u32,
            checksums[n].1 as u32,
        ));
    }
}

/// The firmware is told to do, in this order: place the root pointer and the tables, make the
/// pointers of the tables point into them, sum up each table with the checksum at its byte 9, make
/// the root pointer at byte 24 point to the tables, and put its two checksums, at byte 8 over its
/// first 20 bytes and at byte 32 over all 36.
pub proof fn the_script_places_and_links_the_tables(
    pointers: Seq<usize>,
    checksums: Seq<(usize, usize)>,
    i: int,
    j: int,
)
    requires
        0 <= i < pointers.len() ==> pointers[i] <= u32::MAX,
        0 <= j < checksums.len() ==> checksums[j].0 + 9 <= u32::MAX && checksums[j].1 <= u32::MAX,
    ensures
        ({
            let script = loader_script(pointers, checksums);
            let (p, c) = (pointers.len() as int, checksums.len() as int);
            &&& script.len() == 128 * (p + c + 5)
            &&& allocates(command(script, 0), "acpi/rsdp"@, 2)
            &&& allocates(command(script, 1), "acpi/tables"@, 1)
            &&& 0 <= i < p ==> points(
                command(script, 2 + i),
                "acpi/tables"@,
                "acpi/tables"@,
                pointers[i] as nat,
            )
            &&& 0 <= j < c ==> sums(
                command(script, 2 + p + j),
                "acpi/tables"@,
                (checksums[j].0 + 9) as nat,
                checksums[j].0 as nat,
                checksums[j].1 as nat,
            )
            &&& points(command(script, 2 + p + c), "acpi/rsdp"@, "acpi/tables"@, 24)
            &&& sums(command(script, 3 + p + c), "acpi/rsdp"@, 8, 0, 20)
            &&& sums(command(script, 4 + p + c), "acpi/rsdp"@, 32, 0, 36)
        }),
{
    let script = loader_script(pointers, checksums);
    let (p, c) = (pointers.len() as int, checksums.len() as int);
    let a = table_pointer_commands(pointers);
    let b = table_checksum_commands(checksums);
    lemma_pointer_commands_length(pointers);
    lemma_checksum_commands_length(checksums);
    lemma_allocates("acpi/rsdp"@, 2);
    lemma_allocates("acpi/tables"@, 1);
    lemma_points("acpi/rsdp"@, "acpi/tables"@, 24);
    lemma_sums("acpi/rsdp"@, 8, 0, 20);
    lemma_sums("acpi/rsdp"@, 32, 0, 36);
    assert(command(script, 0) =~= allocate("acpi/rsdp"@, 2));
    assert(command(script, 1) =~= allocate("acpi/tables"@, 1));
    assert(command(script, 2 + p + c) =~= add_pointer("acpi/rsdp"@, "acpi/tables"@, 24));
    assert(command(script, 3 + p + c) =~= add_checksum("acpi/rsdp"@, 8, 0, 20));
    assert(command(script, 4 + p + c) =~= add_checksum("acpi/rsdp"@, 32, 0, 36));
    if 0 <= i < p {
        lemma_pointer_command(pointers, i);
        lemma_points("acpi/tables"@, "acpi/tables"@, pointers[i] as u32);
        assert(command(script, 2 + i) =~= command(a, i));
    }
    if 0 <= j < c {
        lemma_checksum_command(checksums, j);
        lemma_sums(
            "acpi/tables"@,
            (checksums[j].0 + 9) as u32,
            checksums[j].0 as u32,
            checksums[j].1 as u32,
        );
        assert(command(script, 2 + p + j) =~= command(b, j));
    }
}

} // verus!
