use simulatron::vm::display::UICommand;
use simulatron::vm::memory::{Loaded, Memory, Ram, Stored};
use simulatron::vm::mmu::{Device, ROM_SIZE};

#[test]
fn test_physical_ram() {
    let mut mem = Memory::new(vec![0; ROM_SIZE]);
    assert_eq!(mem.load_physical_8(0x4000), Loaded::Value(0));
    assert_eq!(mem.store_physical_8(0x4000, 0x01), Stored::Memory);
    assert_eq!(mem.store_physical_8(0x4002, 0x12), Stored::Memory);
    assert_eq!(mem.store_physical_8(0x4003, 0x34), Stored::Memory);
    let word: Vec<Loaded> = (0x4000..0x4004).map(|a| mem.load_physical_8(a)).collect();
    assert_eq!(word, vec![Loaded::Value(0x01), Loaded::Value(0), Loaded::Value(0x12), Loaded::Value(0x34)]);
    // The top of the address space is RAM too.
    assert_eq!(mem.store_physical_8(0xFFFF_FFFF, 0xAB), Stored::Memory);
    assert_eq!(mem.load_physical_8(0xFFFF_FFFF), Loaded::Value(0xAB));
    assert_eq!(mem.load_physical_8(0xFFFF_FFFE), Loaded::Value(0));
}

#[test]
fn test_memory_map_accesses() {
    let mut rom = vec![0; ROM_SIZE];
    rom[1] = 0x77;
    let mut mem = Memory::new(rom);
    // The interrupt vector reads back what was written.
    assert_eq!(mem.store_physical_8(0x04, 0x99), Stored::Memory);
    assert_eq!(mem.load_physical_8(0x04), Loaded::Value(0x99));
    // The ROM reads, and refuses writes.
    assert_eq!(mem.load_physical_8(0x41), Loaded::Value(0x77));
    assert_eq!(mem.store_physical_8(0x41, 0), Stored::Refused);
    assert_eq!(mem.load_physical_8(0x41), Loaded::Value(0x77));
    // The display takes writes only.
    assert_eq!(
        mem.store_physical_8(0x240, b'A'),
        Stored::Display(Some(UICommand::SetChar { row: 0, col: 0, character: 'A' }))
    );
    assert_eq!(mem.load_physical_8(0x240), Loaded::Refused);
    // The keyboard and the disks are passed on.
    assert_eq!(mem.load_physical_8(0x19B0), Loaded::Device(Device::Keyboard, 0));
    assert_eq!(mem.store_physical_8(0x2005, 1), Stored::Device(Device::DiskAData, 5, 1));
    assert_eq!(mem.store_physical_8(0x20, 1), Stored::Refused);
}

#[test]
fn test_ram_pages() {
    let mut ram = Ram::new();
    ram.store(4095, 1);
    ram.store(4096, 2);
    assert_eq!(ram.load(4095), 1);
    assert_eq!(ram.load(4096), 2);
    assert_eq!(ram.load(4097), 0);
    assert_eq!(ram.load(0), 0);
}
