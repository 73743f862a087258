use acpi_tables::rsdp::Rsdp;
use hvdevices::legacy::acpi_loader::{create_script, COMMAND_SIZE};
use hvdevices::legacy::fw_cfg::{
    create_file_name, is_kernel_measurable, FwCfg, FwCfgContent, FwCfgError, FwCfgItem, BOOT_PARAMS_SIZE, DMA_READ,
    DMA_SELECT, DMA_SKIP, DMA_WRITE, FW_CFG_CMDLINE_DATA, FW_CFG_CMDLINE_SIZE,
    FW_CFG_DMA_SIGNATURE_CONTENT, FW_CFG_FEATURE, FW_CFG_FILE_DIR, FW_CFG_FILE_FIRST, FW_CFG_ID,
    FW_CFG_INITRD_DATA, FW_CFG_INITRD_SIZE, FW_CFG_KERNEL_DATA, FW_CFG_KERNEL_SIZE,
    FW_CFG_SETUP_DATA, FW_CFG_SETUP_SIZE, FW_CFG_SIGNATURE, FW_CFG_SIGNATURE_CONTENT,
    FW_CFG_SMP_CPU_COUNT, SETUP_SECTS, TYPE_OF_LOADER,
};
use hvdevices::ram::SharedMemory;
use vm_memory::bitmap::AtomicBitmap;
use vm_memory::{Bytes, GuestAddress, GuestMemoryAtomic, GuestMemoryMmap};
use vmm_sys_util::tempfile::TempFile;
use zerocopy::IntoBytes;

use std::io::{Read, Seek, SeekFrom, Write};

const SELECTOR_OFFSET: u64 = 0;
const DATA_OFFSET: u64 = 1;
const DMA_OFFSET: u64 = 4;

fn shared(memory: GuestMemoryMmap<AtomicBitmap>) -> SharedMemory {
    SharedMemory {
        memory: GuestMemoryAtomic::new(memory),
    }
}

fn empty_memory() -> SharedMemory {
    shared(GuestMemoryMmap::new())
}

fn full_memory() -> SharedMemory {
    shared(GuestMemoryMmap::from_ranges(&[(GuestAddress(0), 0x10_0000)]).unwrap())
}

fn select(fw_cfg: &mut FwCfg, selector: u16) {
    fw_cfg.write(0, SELECTOR_OFFSET, &selector.to_le_bytes());
}

fn read_item(fw_cfg: &mut FwCfg, selector: u16, length: usize) -> Vec<u8> {
    select(fw_cfg, selector);
    let mut data = vec![0xEF; length];
    fw_cfg.read(0, DATA_OFFSET, &mut data);
    data
}

#[test]
fn test_signature() {
    let mut fw_cfg = FwCfg::new(full_memory(), 1);

    let mut data = vec![0u8];

    let mut sig_iter = FW_CFG_SIGNATURE_CONTENT.into_iter();
    fw_cfg.write(0, SELECTOR_OFFSET, &[FW_CFG_SIGNATURE as u8, 0]);
    loop {
        if let Some(char) = sig_iter.next() {
            fw_cfg.read(0, DATA_OFFSET, &mut data);
            assert_eq!(data[0], char);
        } else {
            return;
        }
    }
}

#[test]
fn test_kernel_cmdline() {
    let mut fw_cfg = FwCfg::new(full_memory(), 1);

    let cmdline = *b"cmdline\0";

    fw_cfg.add_kernel_cmdline(cmdline.to_vec());

    let mut data = vec![0u8];

    let mut cmdline_iter = cmdline.into_iter();
    fw_cfg.write(0, SELECTOR_OFFSET, &[FW_CFG_CMDLINE_DATA as u8, 0]);
    loop {
        if let Some(char) = cmdline_iter.next() {
            fw_cfg.read(0, DATA_OFFSET, &mut data);
            assert_eq!(data[0], char);
        } else {
            return;
        }
    }
}

#[test]
fn test_initram_fs() {
    let mut fw_cfg = FwCfg::new(full_memory(), 1);

    let temp = TempFile::new().unwrap();
    let mut temp_file = temp.as_file();

    let initram_content = b"this is the initramfs";
    let written = temp_file.write(initram_content);
    assert_eq!(written.unwrap(), 21);
    let mut image = Vec::new();
    temp_file.seek(SeekFrom::Start(0)).unwrap();
    temp_file.read_to_end(&mut image).unwrap();
    fw_cfg.add_initramfs_data(image);

    let mut data = vec![0u8];

    let mut initram_iter = (*initram_content).into_iter();
    fw_cfg.write(0, SELECTOR_OFFSET, &[FW_CFG_INITRD_DATA as u8, 0]);
    loop {
        if let Some(char) = initram_iter.next() {
            fw_cfg.read(0, DATA_OFFSET, &mut data);
            assert_eq!(data[0], char);
        } else {
            return;
        }
    }
}

#[test]
fn test_string_item() {
    let mut fw_cfg = FwCfg::new(full_memory(), 1);

    // Simulate OVMF X-PciMmio64Mb string item for GPU CC passthrough
    let item = FwCfgItem {
        name: "opt/ovmf/X-PciMmio64Mb".to_owned(),
        content: FwCfgContent::Bytes("262144".as_bytes().to_vec()),
    };
    fw_cfg.add_item(item).unwrap();

    let expected = b"262144";
    let mut data = vec![0u8];

    // Select the added file item (index 1, since etc/ramfb occupies index 0)
    fw_cfg.write(
        0,
        SELECTOR_OFFSET,
        &((FW_CFG_FILE_FIRST + 1) as u16).to_le_bytes(),
    );
    for &byte in expected.iter() {
        fw_cfg.read(0, DATA_OFFSET, &mut data);
        assert_eq!(data[0], byte);
    }
}

#[test]
fn test_dma() {
    let code = [
        0xba, 0xf8, 0x03, 0x00, 0xd8, 0x04, b'0', 0xee, 0xb0, b'\n', 0xee, 0xf4,
    ];

    let content = FwCfgContent::Bytes(code.to_vec());

    let mem_size = 0x1000;
    let load_addr = GuestAddress(0x1000);
    let mem: GuestMemoryMmap<AtomicBitmap> =
        GuestMemoryMmap::from_ranges(&[(load_addr, mem_size)]).unwrap();

    // guest address for data
    let code_address = 0x1900_u64;
    // control word, length of data to access and its address
    let mut access = Vec::new();
    access.extend(DMA_READ.to_be_bytes());
    access.extend((code.len() as u32).to_be_bytes());
    access.extend(code_address.to_be_bytes());
    // access address is where to put the code
    let access_address = GuestAddress(load_addr.0);
    let address_bytes = access_address.0.to_be_bytes();
    let dma_lo: [u8; 4] = address_bytes[0..4].try_into().unwrap();
    let dma_hi: [u8; 4] = address_bytes[4..8].try_into().unwrap();

    let _ = mem.write(&access, access_address);
    let mut fw_cfg = FwCfg::new(shared(mem.clone()), 1);
    let cfg_item = FwCfgItem {
        name: "code".to_string(),
        content,
    };
    let _ = fw_cfg.add_item(cfg_item);

    let mut data = [0u8; 12];

    let _ = mem.read(&mut data, GuestAddress(code_address));
    assert_ne!(data, code);

    fw_cfg.write(0, SELECTOR_OFFSET, &[FW_CFG_FILE_FIRST as u8, 0]);
    fw_cfg.write(0, DMA_OFFSET, &dma_lo);
    fw_cfg.write(0, DMA_OFFSET + 4, &dma_hi);
    let _ = mem.read(&mut data, GuestAddress(code_address));

    // Assert the DMA path is currently deactivated
    assert_eq!(data, [0u8; 12]);
    assert_eq!(fw_cfg.data_offset, 0);
}

#[test]
fn test_register_invalid_reads_zero_buffer() {
    // Reads with unsupported size zero the whole buffer in QEMU. We mimic this behavior.
    let mut fw_cfg = FwCfg::new(empty_memory(), 1);
    fw_cfg.write(0, SELECTOR_OFFSET, &[FW_CFG_SIGNATURE as u8, 0]);
    // 1-byte read returns actual data
    let mut buff = [0xEF; 1];
    fw_cfg.read(0, DATA_OFFSET, &mut buff);
    assert_eq!(fw_cfg.data_offset, 1);
    assert_eq!(buff, [b'Q']);
}

#[test]
fn test_register_qemu_selector_read_quirk() {
    // While defined as write-only, QEMU uses a port-mapping that leaves the select register
    // readable. For full compatibility we also allow reading from the selector register as a
    // quirk.
    let mut fw_cfg = FwCfg::new(empty_memory(), 1);
    fw_cfg.write(0, SELECTOR_OFFSET, &[FW_CFG_SIGNATURE as u8, 0]);
    // 1-byte read returns actual data
    let mut buff = [0xEF; 1];
    fw_cfg.read(0, SELECTOR_OFFSET, &mut buff);
    assert_eq!(fw_cfg.data_offset, 1);
    assert_eq!(buff, [b'Q']);
    // Forbidden access zeros buffer similar to data register access. Offset isn't moved.
    let mut buff = [0xEF; 2];
    fw_cfg.read(0, SELECTOR_OFFSET, &mut buff);
    assert_eq!(fw_cfg.data_offset, 1);
    assert_eq!(buff, [0x0; 2]);
}

#[test]
fn test_register_reads_past_eof_return_zero() {
    let mut fw_cfg = FwCfg::new(empty_memory(), 1);
    fw_cfg.write(0, SELECTOR_OFFSET, &[FW_CFG_SIGNATURE as u8, 0]);
    let mut buff = [0xEF; 8];
    let max_offset = FW_CFG_SIGNATURE_CONTENT.len() as u32;
    for (offset, byte) in buff.iter_mut().enumerate() {
        fw_cfg.read(0, DATA_OFFSET, byte.as_mut_bytes());
        let expected_offset = if (offset as u32 + 1) < max_offset {
            offset as u32 + 1
        } else {
            max_offset
        };
        assert_eq!(fw_cfg.data_offset, expected_offset);
    }
    assert_eq!(buff[..4], FW_CFG_SIGNATURE_CONTENT);
    assert_eq!(buff[4..], [0; 4]);
}

#[test]
fn test_register_reads_with_invalid_selector() {
    const SELECTOR_INITIALIZED_WITH_DEFAULT: u16 = 0x08;
    let mut fw_cfg = FwCfg::new(empty_memory(), 1);
    fw_cfg.known_items[SELECTOR_INITIALIZED_WITH_DEFAULT as usize] = FwCfgContent::Slice(&[]);
    fw_cfg.write(0, SELECTOR_OFFSET, &[0xFF, 0]);
    let mut buff = [0xEF_u8; 8];
    for byte in buff.iter_mut() {
        fw_cfg.read(0, DATA_OFFSET, byte.as_mut_bytes());
        assert_eq!(fw_cfg.data_offset, 0);
    }
    assert_eq!(buff, [0; 8]);

    fw_cfg.write(
        0,
        SELECTOR_OFFSET,
        &SELECTOR_INITIALIZED_WITH_DEFAULT.to_le_bytes(),
    );
    let mut buff = [0xEF_u8; 8];
    for byte in buff.iter_mut() {
        fw_cfg.read(0, DATA_OFFSET, byte.as_mut_bytes());
        assert_eq!(fw_cfg.data_offset, 0);
    }
    assert_eq!(buff, [0; 8]);
}

#[test]
fn test_register_writing_select_resets_internal_cursor() {
    let mut fw_cfg = FwCfg::new(empty_memory(), 1);
    let payload_bytes = [0x11, 0x22, 0x33, 0x44, 0x55, 0x66];
    let content = FwCfgContent::Bytes(payload_bytes.to_vec());
    let cfg_item = FwCfgItem {
        name: "payload".to_string(),
        content,
    };
    fw_cfg.add_item(cfg_item).unwrap();

    // read the same bytes twice, demonstrating that we can reset the cursor by selecting a new item.
    for _ in 0..2 {
        fw_cfg.write(
            0,
            SELECTOR_OFFSET,
            &((FW_CFG_FILE_FIRST + 1) as u16).to_le_bytes(),
        );
        assert_eq!(fw_cfg.data_offset, 0);
        let mut buffer = [0xEF_u8; 6];
        const MAX_INDEX: usize = 4;
        for (index, byte) in buffer.iter_mut().enumerate().take(MAX_INDEX) {
            fw_cfg.read(0, DATA_OFFSET, byte.as_mut_bytes());
            assert_eq!(fw_cfg.data_offset as usize, index + 1);
        }
        assert_eq!(buffer[..MAX_INDEX], payload_bytes[..MAX_INDEX]);
        assert_eq!(buffer[MAX_INDEX..], [0xEF; 2]);
        assert_eq!(fw_cfg.data_offset, MAX_INDEX as u32);
    }
}

#[test]
fn known_items_describe_the_machine() {
    let mut fw_cfg = FwCfg::new(empty_memory(), 3);
    assert_eq!(FW_CFG_DMA_SIGNATURE_CONTENT, *b"QEMU CFG");
    assert_eq!(read_item(&mut fw_cfg, FW_CFG_ID, 4), FW_CFG_FEATURE);
    assert_eq!(
        read_item(&mut fw_cfg, FW_CFG_SMP_CPU_COUNT, 5),
        [3, 0, 0, 0, 0]
    );
}

#[test]
fn names_are_cut_off_and_filled_up() {
    let name = create_file_name("etc/e820");
    assert_eq!(&name[..9], b"etc/e820\0");
    assert_eq!(name[9..], [0; 47]);
    let long = create_file_name(&"x".repeat(80));
    assert_eq!(long[..55], [b'x'; 55]);
    assert_eq!(long[55], 0);
}

#[test]
fn the_directory_lists_the_files() {
    let mut fw_cfg = FwCfg::new(empty_memory(), 1);
    let item = FwCfgItem {
        name: "opt/a".to_owned(),
        content: FwCfgContent::U32(7),
    };
    fw_cfg.add_item(item).unwrap();
    let directory = read_item(&mut fw_cfg, FW_CFG_FILE_DIR, 4 + 2 * 64 + 1);
    assert_eq!(directory[..4], [0, 0, 0, 2]);
    assert_eq!(directory[4..12], [0, 0, 0, 28, 0, 0x20, 0, 0]);
    assert_eq!(directory[12..22], *b"etc/ramfb\0");
    assert_eq!(directory[68..76], [0, 0, 0, 4, 0, 0x21, 0, 0]);
    assert_eq!(directory[76..82], *b"opt/a\0");
    assert_eq!(directory[132], 0);
    assert_eq!(
        read_item(&mut fw_cfg, FW_CFG_FILE_FIRST + 1, 4),
        [7, 0, 0, 0]
    );
}

#[test]
fn content_errors_are_told_apart() {
    let mut fw_cfg = FwCfg::new(empty_memory(), 1);
    let mut data = [0; 4];
    select(&mut fw_cfg, 0x4000);
    assert_eq!(
        fw_cfg.read_content(&mut data),
        Err(FwCfgError::IllegalSelector)
    );
    select(&mut fw_cfg, FW_CFG_SIGNATURE);
    fw_cfg.data_offset = 5;
    assert_eq!(fw_cfg.read_content(&mut data), Err(FwCfgError::ReadError));
    fw_cfg.data_offset = 2;
    assert_eq!(fw_cfg.read_content(&mut data), Ok(2));
    assert_eq!(data, [b'M', b'U', 0, 0]);
}

#[test]
fn the_memory_map_is_split_around_the_devices() {
    let mut fw_cfg = FwCfg::new(empty_memory(), 1);
    fw_cfg.add_e820(0x4000_0000).unwrap();
    fw_cfg.add_e820(0x1_0000_0000).unwrap();
    let small = read_item(&mut fw_cfg, FW_CFG_FILE_FIRST + 1, 101);
    assert_eq!(small[..20], [0, 0, 0, 0, 0, 0, 0, 0, 0, 0, 10, 0, 0, 0, 0, 0, 1, 0, 0, 0]);
    assert_eq!(small[20..28], 0xc000_0000u64.to_le_bytes());
    assert_eq!(small[28..36], (640u64 << 20).to_le_bytes());
    assert_eq!(small[36..40], [2, 0, 0, 0]);
    assert_eq!(small[40..48], 0xe800_0000u64.to_le_bytes());
    assert_eq!(small[60..68], 0xfffe_0000u64.to_le_bytes());
    assert_eq!(small[80..88], 0x10_0000u64.to_le_bytes());
    assert_eq!(small[88..96], 0x3ff0_0000u64.to_le_bytes());
    assert_eq!(small[100], 0);
    let large = read_item(&mut fw_cfg, FW_CFG_FILE_FIRST + 2, 120);
    assert_eq!(large[88..96], 0xbff0_0000u64.to_le_bytes());
    assert_eq!(large[100..108], 0x1_0000_0000u64.to_le_bytes());
    assert_eq!(large[108..116], 0x4000_0000u64.to_le_bytes());
}

#[test]
fn kernels_are_split_after_their_setup_sectors() {
    let mut image = vec![0x5a; 0x3000];
    image[SETUP_SECTS] = 0;
    let mut fw_cfg = FwCfg::new(empty_memory(), 1);
    fw_cfg.add_kernel_data(image.clone(), false).unwrap();
    assert_eq!(
        read_item(&mut fw_cfg, FW_CFG_SETUP_SIZE, 4),
        2560u32.to_le_bytes()
    );
    let setup = read_item(&mut fw_cfg, FW_CFG_SETUP_DATA, 2561);
    assert_eq!(setup[SETUP_SECTS], 4);
    assert_eq!(setup[TYPE_OF_LOADER], 0xff);
    assert_eq!(setup[2559..], [0x5a, 0]);
    assert_eq!(
        read_item(&mut fw_cfg, FW_CFG_KERNEL_SIZE, 4),
        (0x3000u32 - 2560).to_le_bytes()
    );
    assert_eq!(
        read_item(&mut fw_cfg, FW_CFG_KERNEL_DATA, 0x3000)[..0x3000 - 2560],
        [0x5a; 0x3000 - 2560]
    );

    fw_cfg.add_kernel_data(image.clone(), true).unwrap();
    let setup = read_item(&mut fw_cfg, FW_CFG_SETUP_DATA, 2560);
    assert_eq!(setup[SETUP_SECTS], 0);
    assert_eq!(setup[TYPE_OF_LOADER], 0x5a);

    image[SETUP_SECTS] = 30;
    assert_eq!(
        fw_cfg.add_kernel_data(image.clone(), false),
        Err(FwCfgError::ReadError)
    );
    assert_eq!(
        fw_cfg.add_kernel_data(image[..BOOT_PARAMS_SIZE - 1].to_vec(), false),
        Err(FwCfgError::ReadError)
    );
}

#[test]
fn everything_is_populated_in_order() {
    let mut fw_cfg = FwCfg::new(empty_memory(), 1);
    let item = FwCfgItem {
        name: "opt/x".to_owned(),
        content: FwCfgContent::Slice(b"yes"),
    };
    fw_cfg
        .populate_fw_cfg(
            Some(0x4000_0000),
            Some(vec![1; 0x2000]),
            Some(vec![2; 5]),
            Some(b"quiet\0".to_vec()),
            Some(vec![item]),
            false,
        )
        .unwrap();
    assert_eq!(read_item(&mut fw_cfg, FW_CFG_FILE_FIRST + 2, 3), *b"yes");
    assert_eq!(
        read_item(&mut fw_cfg, FW_CFG_CMDLINE_SIZE, 4),
        [6, 0, 0, 0]
    );
    assert_eq!(read_item(&mut fw_cfg, FW_CFG_INITRD_SIZE, 4), [5, 0, 0, 0]);
    assert_eq!(read_item(&mut fw_cfg, FW_CFG_INITRD_DATA, 5), [2; 5]);
    assert_eq!(
        fw_cfg.populate_fw_cfg(None, Some(vec![1; 9]), None, None, None, false),
        Err(FwCfgError::ReadError)
    );
}

#[test]
fn acpi_tables_come_with_their_script() {
    let rsdp = Rsdp::new(*b"CHYPER", 0x1234);
    let mut fw_cfg = FwCfg::new(empty_memory(), 1);
    fw_cfg
        .add_acpi(rsdp, vec![7; 40], vec![(0, 40)], vec![36])
        .unwrap();
    let script = read_item(&mut fw_cfg, FW_CFG_FILE_FIRST + 1, 7 * COMMAND_SIZE + 1);
    assert_eq!(script, {
        let mut script = create_script(&vec![36], &vec![(0, 40)]);
        script.push(0);
        script
    });
    assert_eq!(script[..13], *b"\x01\0\0\0acpi/rsdp");
    assert_eq!(script[60..65], [4, 0, 0, 0, 2]);
    assert_eq!(script[128 + 64], 1);
    assert_eq!(script[256..260], [2, 0, 0, 0]);
    assert_eq!(script[256 + 116..256 + 121], [36, 0, 0, 0, 8]);
    assert_eq!(
        script[384 + 60..384 + 72],
        [9, 0, 0, 0, 0, 0, 0, 0, 40, 0, 0, 0]
    );
    assert_eq!(script[512 + 116], 24);
    assert_eq!(
        script[640 + 60..640 + 72],
        [8, 0, 0, 0, 0, 0, 0, 0, 20, 0, 0, 0]
    );
    assert_eq!(
        script[768 + 60..768 + 72],
        [32, 0, 0, 0, 0, 0, 0, 0, 36, 0, 0, 0]
    );
    let root = read_item(&mut fw_cfg, FW_CFG_FILE_FIRST + 2, 36);
    assert_eq!(root, rsdp.as_bytes());
    assert_eq!(root[..8], *b"RSD PTR ");
    assert_eq!(root[24..32], 0x1234u64.to_le_bytes());
    assert_eq!(read_item(&mut fw_cfg, FW_CFG_FILE_FIRST + 3, 40), [7; 40]);
}

fn dma_device(access: &[u8]) -> (FwCfg, GuestMemoryMmap<AtomicBitmap>) {
    let mem: GuestMemoryMmap<AtomicBitmap> =
        GuestMemoryMmap::from_ranges(&[(GuestAddress(0x1000), 0x1000)]).unwrap();
    mem.write(access, GuestAddress(0x1000)).unwrap();
    let mut fw_cfg = FwCfg::new(shared(mem.clone()), 1);
    fw_cfg.write(0, DMA_OFFSET, &[0, 0, 0, 0]);
    fw_cfg.write(0, DMA_OFFSET + 4, &[0, 0, 0x10, 0]);
    assert_eq!(fw_cfg.dma_address, 0x1000);
    (fw_cfg, mem)
}

fn dma_request(control: u32, length: u32, address: u64) -> Vec<u8> {
    let mut access = Vec::new();
    access.extend(control.to_be_bytes());
    access.extend(length.to_be_bytes());
    access.extend(address.to_be_bytes());
    access
}

fn bytes_at(mem: &GuestMemoryMmap<AtomicBitmap>, address: u64, length: usize) -> Vec<u8> {
    let mut data = vec![0; length];
    assert_eq!(mem.read(&mut data, GuestAddress(address)).unwrap(), length);
    data
}

#[test]
fn a_dma_access_copies_the_selected_item() {
    let (mut fw_cfg, mem) = dma_device(&dma_request(DMA_READ | DMA_SELECT, 3, 0x1100));
    select(&mut fw_cfg, FW_CFG_SIGNATURE);
    fw_cfg.data_offset = 2;
    fw_cfg.dma_access();
    assert_eq!(bytes_at(&mem, 0x1100, 4), [b'Q', b'E', b'M', 0]);
    assert_eq!(bytes_at(&mem, 0x1000, 4), [0; 4]);
    assert_eq!(fw_cfg.data_offset, 3);
    let mut address = [0; 4];
    fw_cfg.read(0, DMA_OFFSET + 4, &mut address);
    assert_eq!(address, [0, 0, 0x10, 0]);
}

#[test]
fn a_dma_access_writes_the_framebuffer_configuration_only() {
    let (mut fw_cfg, mem) = dma_device(&dma_request(DMA_WRITE, 4, 0x1200));
    mem.write(&[1, 2, 3, 4], GuestAddress(0x1200)).unwrap();
    select(&mut fw_cfg, FW_CFG_FILE_FIRST);
    fw_cfg.dma_access();
    assert_eq!(bytes_at(&mem, 0x1000, 4), [0; 4]);
    assert_eq!(
        read_item(&mut fw_cfg, FW_CFG_FILE_FIRST, 5),
        [1, 2, 3, 4, 0]
    );

    mem.write(&dma_request(DMA_WRITE, 29, 0x1200), GuestAddress(0x1000))
        .unwrap();
    select(&mut fw_cfg, FW_CFG_FILE_FIRST);
    fw_cfg.dma_access();
    assert_eq!(bytes_at(&mem, 0x1000, 4), [0, 0, 0, 1]);
    assert_eq!(fw_cfg.data_offset, 0);
}

#[test]
fn a_dma_access_can_skip_or_fail() {
    let (mut fw_cfg, mem) = dma_device(&dma_request(DMA_SKIP, 2, 0));
    fw_cfg.dma_access();
    assert_eq!(fw_cfg.data_offset, 2);
    assert_eq!(bytes_at(&mem, 0x1000, 4), [0; 4]);

    mem.write(&dma_request(DMA_READ, 2, 0x9000), GuestAddress(0x1000))
        .unwrap();
    fw_cfg.dma_access();
    assert_eq!(bytes_at(&mem, 0x1000, 4), [0, 0, 0, 1]);
    assert_eq!(fw_cfg.data_offset, 2);

    mem.write(&dma_request(0, 2, 0x1100), GuestAddress(0x1000))
        .unwrap();
    fw_cfg.dma_access();
    assert_eq!(bytes_at(&mem, 0x1000, 4), [0, 0, 0, 1]);
}

#[test]
fn preconditions_can_be_tested() {
    assert!(is_kernel_measurable(&[1; 9]));
    assert!(is_kernel_measurable(&vec![1; 0x2000]));
    assert!(FwCfgContent::File(3, vec![0; 3]).starts_inside());
    assert!(!FwCfgContent::File(4, vec![0; 3]).starts_inside());
    assert!(FwCfgContent::U32(9).starts_inside());
}

#[test]
fn a_dma_access_goes_to_the_memory_that_is_there() {
    let request = dma_request(DMA_READ | DMA_SELECT, 3, 0x1100);
    let memory = || -> GuestMemoryMmap<AtomicBitmap> {
        GuestMemoryMmap::from_ranges(&[(GuestAddress(0x1000), 0x1000)]).unwrap()
    };
    let (first, second) = (memory(), memory());
    second.write(&request, GuestAddress(0x1000)).unwrap();
    let source = GuestMemoryAtomic::new(first.clone());
    let mut fw_cfg = FwCfg::new(
        SharedMemory {
            memory: source.clone(),
        },
        1,
    );
    fw_cfg.write(0, DMA_OFFSET, &[0, 0, 0, 0]);
    fw_cfg.write(0, DMA_OFFSET + 4, &[0, 0, 0x10, 0]);
    source.lock().unwrap().replace(second.clone());
    select(&mut fw_cfg, FW_CFG_SIGNATURE);
    fw_cfg.dma_access();
    assert_eq!(bytes_at(&second, 0x1100, 3), *b"QEM");
    assert_eq!(bytes_at(&first, 0x1100, 3), [0; 3]);
}
