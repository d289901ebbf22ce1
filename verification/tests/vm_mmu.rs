use simulatron::vm::bus::{Access, DeviceBytes};
use simulatron::vm::memory::Memory;
use simulatron::vm::mmu::{
    Intent, BEGIN_RAM, PAGE_FAULT_COW, PAGE_FAULT_ILLEGAL_ACCESS, PAGE_FAULT_INVALID_PAGE, PAGE_FAULT_NOT_PRESENT,
};

fn devices() -> DeviceBytes {
    DeviceBytes {
        keyboard: vec![0, 0],
        disk_a_control: vec![0; 9],
        disk_b_control: vec![0; 9],
        disk_a_data: vec![0; 0x1000],
        disk_b_data: vec![0; 0x1000],
    }
}

fn memory() -> Memory {
    Memory::new(vec![0u8; 512])
}

/// Page table entries with the valid bit clear, as the random values
/// shifted left by one that the invalid-page test writes.
const INVALID_ENTRIES: [u32; 3] = [0x8E3C_52F6, 0x0000_0FFE, 0xFFFF_FFFE];

#[test]
fn test_address_translation_external_interface() {
    let mut m = memory();
    let dev = devices();
    const PDPR: u32 = 0x00100000;
    // Frame 0 of RAM, Valid.
    m.store_physical_32(0x00100000, 0x00004001);
    // Frame 10 of RAM, Valid, Present, Readable, Writable.
    m.store_physical_32(0x00004000, 0x0000A00F);
    // Write a pattern via virtual.
    assert_eq!(m.store_virtual_8(&dev, PDPR, 0, 0x55).1, Access::Done(()));
    assert_eq!(m.store_virtual_32(&dev, PDPR, 1, 0xDEADBEEF).1, Access::Done(()));
    // Read it back through virtual.
    assert_eq!(m.load_virtual_32(&dev, PDPR, 0, false), Access::Done(0x55DEADBE));
    assert_eq!(m.load_virtual_8(&dev, PDPR, 4, false), Access::Done(0xEF));
    // Read it back through physical where we expect it to be.
    assert_eq!(m.load_physical_32(&dev, 0x0000A000), Some(0x55DEADBE));
    assert_eq!(m.load_physical_8(0x0000A004), simulatron::vm::memory::Loaded::Value(0xEF));
}

#[test]
fn test_invalid_page_fault() {
    let mut m = memory();
    let dev = devices();
    const PDPR: u32 = BEGIN_RAM;
    // 0 is an invalid page directory entry: any translation fails.
    assert!(!matches!(m.virtual_to_physical_address(&dev, 0, PDPR, Intent::Read), Access::Done(_)));
    assert!(!matches!(m.virtual_to_physical_address(&dev, 1246, PDPR, Intent::Write), Access::Done(_)));
    assert!(!matches!(m.virtual_to_physical_address(&dev, 678424657, PDPR, Intent::Execute), Access::Done(_)));
    // Now write a valid page directory entry, and some invalid page table
    // entries.
    m.store_physical_32(BEGIN_RAM, 0x00005001);
    for i in 0..3u32 {
        m.store_physical_32(BEGIN_RAM + 0x1000 + i * 4, INVALID_ENTRIES[i as usize]);
    }
    // Any translation still fails.
    assert!(!matches!(m.virtual_to_physical_address(&dev, 0x0000, PDPR, Intent::Read), Access::Done(_)));
    assert!(!matches!(m.virtual_to_physical_address(&dev, 0x1000, PDPR, Intent::Write), Access::Done(_)));
    assert!(!matches!(m.virtual_to_physical_address(&dev, 0x2000, PDPR, Intent::Execute), Access::Done(_)));
    assert!(!matches!(m.virtual_to_physical_address(&dev, 0x3000, PDPR, Intent::Read), Access::Done(_)));
    // Through the directory at BEGIN_RAM the entries are invalid pages.
    assert_eq!(
        m.virtual_to_physical_address(&dev, PDPR, 0x1000, Intent::Read),
        Access::PageFault(PAGE_FAULT_INVALID_PAGE)
    );
    assert_eq!(
        m.virtual_to_physical_address(&dev, PDPR, 0x3000, Intent::Read),
        Access::PageFault(PAGE_FAULT_INVALID_PAGE)
    );
}

#[test]
fn test_illegal_access_fault() {
    let mut m = memory();
    let dev = devices();
    const PDPR: u32 = 0x00004000;
    m.store_physical_32(0x00004000, 0x00005001);
    // Read only, write only, execute only.
    m.store_physical_32(0x00005000, 0x00006007);
    m.store_physical_32(0x00005004, 0x0000700B);
    m.store_physical_32(0x00005008, 0x00008013);

    // First page entry only allows read.
    assert_eq!(m.load_virtual_32(&dev, PDPR, 0x0000, false), Access::Done(0));
    assert_eq!(m.store_virtual_32(&dev, PDPR, 0x0000, 56).1, Access::PageFault(PAGE_FAULT_ILLEGAL_ACCESS));
    assert_eq!(m.load_virtual_32(&dev, PDPR, 0x0000, true), Access::PageFault(PAGE_FAULT_ILLEGAL_ACCESS));

    // Second page entry only allows write.
    assert_eq!(m.load_virtual_32(&dev, PDPR, 0x1000, false), Access::PageFault(PAGE_FAULT_ILLEGAL_ACCESS));
    assert_eq!(m.store_virtual_32(&dev, PDPR, 0x1000, 56).1, Access::Done(()));
    assert_eq!(m.load_virtual_32(&dev, PDPR, 0x1000, true), Access::PageFault(PAGE_FAULT_ILLEGAL_ACCESS));

    // Third page entry only allows execute.
    assert_eq!(m.load_virtual_32(&dev, PDPR, 0x2000, false), Access::PageFault(PAGE_FAULT_ILLEGAL_ACCESS));
    assert_eq!(m.store_virtual_32(&dev, PDPR, 0x2000, 56).1, Access::PageFault(PAGE_FAULT_ILLEGAL_ACCESS));
    assert_eq!(m.load_virtual_32(&dev, PDPR, 0x2000, true), Access::Done(0));
}

#[test]
fn test_not_present_fault() {
    let mut m = memory();
    let dev = devices();
    const PDPR: u32 = 0x00004000;
    m.store_physical_32(0x00004000, 0x00005001);
    // All permissions but not present.
    m.store_physical_32(0x00005000, 0x0000601D);
    m.store_physical_8(0x6FFF, 12);
    assert_eq!(m.load_virtual_8(&dev, PDPR, 0x0FFF, false), Access::PageFault(PAGE_FAULT_NOT_PRESENT));
    // Set present.
    m.store_physical_8(0x00005003, 0x1F);
    assert_eq!(m.load_virtual_8(&dev, PDPR, 0x0FFF, true), Access::Done(12));
}

#[test]
fn test_cow_fault() {
    let mut m = memory();
    let dev = devices();
    const PDPR: u32 = 0x00004000;
    m.store_physical_32(0x00004000, 0x00005001);
    // All permissions but copy-on-write.
    m.store_physical_32(0x00005000, 0x0000603F);
    assert_eq!(m.store_virtual_32(&dev, PDPR, 0x0123, 0x420).1, Access::PageFault(PAGE_FAULT_COW));
    // Disable write permission.
    m.store_physical_8(0x00005003, 0x37);
    assert_eq!(m.store_virtual_32(&dev, PDPR, 0x0123, 0x420).1, Access::PageFault(PAGE_FAULT_ILLEGAL_ACCESS));
    // The write went through neither time.
    assert_eq!(m.load_physical_32(&dev, 0x6123), Some(0));
}
