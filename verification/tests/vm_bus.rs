use simulatron::vm::access::{
    enter_interrupt, instruction_blockcopy, instruction_blockset, instruction_load, instruction_store, instruction_swap, pop,
    push,
};
use simulatron::vm::bus::{Access, DeviceBytes};
use simulatron::vm::cpu::{Registers, TypedValue, ValueType};
use simulatron::vm::memory::{Memory, Stored};

fn devices() -> DeviceBytes {
    DeviceBytes {
        keyboard: vec![0x41, 0x02],
        disk_a_control: vec![1, 2, 3, 4, 5, 6, 7, 8, 9],
        disk_b_control: vec![0; 9],
        disk_a_data: vec![0xAB; 0x1000],
        disk_b_data: vec![0; 0x1000],
    }
}

fn memory() -> Memory {
    let mut rom = vec![0u8; 512];
    rom[0] = 0x12;
    rom[1] = 0x34;
    Memory::new(rom)
}

/// Page directory at 0x4000; its entry 0 points to a page table at 0x5000,
/// whose entry 0 maps virtual page 0 to frame 0x6000 with the given flags.
fn paged(flags: u32) -> Memory {
    let mut m = memory();
    m.store_physical_32(0x4000, 0x5000 | 1);
    m.store_physical_32(0x5000, 0x6000 | flags);
    m
}

#[test]
fn test_physical_word_round_trip() {
    let mut m = memory();
    let dev = devices();
    let acts = m.store_physical_32(0x4100, 0xDEADBEEF);
    assert_eq!(acts, vec![Stored::Memory; 4]);
    assert_eq!(m.load_physical_32(&dev, 0x4100), Some(0xDEADBEEF));
    assert_eq!(m.load_physical_16(&dev, 0x4102), Some(0xBEEF));
    m.store_physical_16(0x4100, 0x0102);
    assert_eq!(m.load_physical_32(&dev, 0x4100), Some(0x0102BEEF));
}

#[test]
fn test_physical_rom_and_devices() {
    let mut m = memory();
    let dev = devices();
    assert_eq!(m.load_physical_16(&dev, 0x40), Some(0x1234));
    assert_eq!(m.load_physical_16(&dev, 0x19B0), Some(0x4102));
    assert_eq!(m.load_physical_32(&dev, 0x1FEC), Some(0x01020304));
    assert_eq!(m.load_physical_16(&dev, 0x2000), Some(0xABAB));
    // Reserved space refuses loads.
    assert_eq!(m.load_physical_32(&dev, 0x20), None);
    // The ROM refuses stores: the first byte's store is refused and ends it.
    assert_eq!(m.store_physical_32(0x40, 0xFFFF_FFFF), vec![Stored::Refused]);
    assert_eq!(m.load_physical_16(&dev, 0x40), Some(0x1234));
    // A store to a disk's control is handed on.
    let acts = m.store_physical_16(0x1FF1, 0x0102);
    assert_eq!(acts.len(), 2);
    assert!(matches!(acts[0], Stored::Device(_, 0x5, 0x01)));
}

#[test]
fn test_translation() {
    let m = paged(0x1F);
    let dev = devices();
    assert_eq!(m.virtual_to_physical_address(&dev, 0x4000, 0x0123, simulatron::vm::mmu::Intent::Read), Access::Done(0x6123));
    // Directory entry 1 is zero: the invalid page fault.
    assert_eq!(
        m.virtual_to_physical_address(&dev, 0x4000, 0x40_0000, simulatron::vm::mmu::Intent::Read),
        Access::PageFault(0)
    );
}

#[test]
fn test_virtual_round_trip() {
    let mut m = paged(0x1F);
    let dev = devices();
    let (acts, r) = m.store_virtual_32(&dev, 0x4000, 0x10, 0xCAFEF00D);
    assert_eq!(r, Access::Done(()));
    assert_eq!(acts, vec![Stored::Memory; 4]);
    assert_eq!(m.load_physical_32(&dev, 0x6010), Some(0xCAFEF00D));
    assert_eq!(m.load_virtual_32(&dev, 0x4000, 0x10, false), Access::Done(0xCAFEF00D));
    assert_eq!(m.load_virtual_16(&dev, 0x4000, 0x12, true), Access::Done(0xF00D));
    assert_eq!(m.load_virtual_8(&dev, 0x4000, 0x11, false), Access::Done(0xFE));
}

#[test]
fn test_virtual_faults() {
    // Present and valid, readable but not writable or executable.
    let mut m = paged(0x07);
    let dev = devices();
    let (acts, r) = m.store_virtual_8(&dev, 0x4000, 0x10, 1);
    assert_eq!(r, Access::PageFault(1));
    assert!(acts.is_empty());
    assert_eq!(m.load_virtual_8(&dev, 0x4000, 0x10, true), Access::PageFault(1));
    assert_eq!(m.load_virtual_8(&dev, 0x4000, 0x10, false), Access::Done(0));
    // Valid but not present.
    let m = paged(0x01);
    assert_eq!(m.load_virtual_8(&dev, 0x4000, 0x10, false), Access::PageFault(2));
    // Copy-on-write.
    let mut m = paged(0x3F);
    let (_, r) = m.store_virtual_16(&dev, 0x4000, 0x10, 7);
    assert_eq!(r, Access::PageFault(3));
}

#[test]
fn test_interrupt_entry_and_stack() {
    let mut m = memory();
    let dev = devices();
    let mut regs = Registers::new();
    regs.set_imr(0x00FF);
    regs.set_flags(0x0003);
    // The handler of interrupt 2 is at 0x1234.
    m.store_physical_32(8, 0x1234);
    let (acts, handler) = enter_interrupt(&mut regs, &mut m, &dev, 0x100, 2);
    assert_eq!(handler, Some(0x1234));
    assert_eq!(acts, vec![Stored::Memory; 8]);
    assert!(regs.kernel_mode());
    assert_eq!(regs.imr(), 0);
    assert_eq!(regs.stack_pointer(), 0xFFFF_FFF8);
    // Flags with bit 15 set for the old (kernel) mode, then the program
    // counter, then the interrupt mask.
    assert_eq!(m.load_physical_16(&dev, 0xFFFF_FFFE), Some(0x8003));
    assert_eq!(m.load_physical_32(&dev, 0xFFFF_FFFA), Some(0x100));
    assert_eq!(m.load_physical_16(&dev, 0xFFFF_FFF8), Some(0x00FF));
    // Popping them back in reverse order.
    assert_eq!(pop(&mut regs, &m, &dev, ValueType::Half), Access::Done(TypedValue::Half(0x00FF)));
    assert_eq!(pop(&mut regs, &m, &dev, ValueType::Word), Access::Done(TypedValue::Word(0x100)));
    assert_eq!(pop(&mut regs, &m, &dev, ValueType::Half), Access::Done(TypedValue::Half(0x8003)));
    assert_eq!(regs.stack_pointer(), 0);
    // A push and a pop of a byte.
    let (_, r) = push(&mut regs, &mut m, &dev, TypedValue::Byte(7));
    assert_eq!(r, Access::Done(()));
    assert_eq!(pop(&mut regs, &m, &dev, ValueType::Byte), Access::Done(TypedValue::Byte(7)));
}

#[test]
fn test_load_store_swap_instructions() {
    let mut m = memory();
    let dev = devices();
    let mut regs = Registers::new();
    m.store_physical_32(0x5000, 0x11223344);
    // LOAD r0 (a word register) and r0h (a half register) from memory.
    assert_eq!(instruction_load(&mut regs, &m, &dev, 0x00, 0x5000), Access::Done(()));
    assert_eq!(regs.read_from_register(0x00, 0), Ok(TypedValue::Word(0x11223344)));
    assert_eq!(instruction_load(&mut regs, &m, &dev, 0x09, 0x5002), Access::Done(()));
    assert_eq!(regs.read_from_register(0x09, 0), Ok(TypedValue::Half(0x3344)));
    // No such register.
    assert_eq!(instruction_load(&mut regs, &m, &dev, 0xFF, 0x5000), Access::Illegal);
    // STORE r0 to 0x5100.
    let (_, r) = instruction_store(&regs, &mut m, &dev, 0x5100, 0x00, 0);
    assert_eq!(r, Access::Done(()));
    assert_eq!(m.load_physical_32(&dev, 0x5100), Some(0x11223344));
    // A store to the ROM is refused.
    let (_, r) = instruction_store(&regs, &mut m, &dev, 0x40, 0x00, 0);
    assert_eq!(r, Access::Illegal);
    // SWAP r1 (its low half loaded above) with the word at 0x5100.
    let (_, r) = instruction_swap(&mut regs, &mut m, &dev, 0x01, 0x5100, 0);
    assert_eq!(r, Access::Done(()));
    assert_eq!(regs.read_from_register(0x01, 0), Ok(TypedValue::Word(0x11223344)));
    assert_eq!(m.load_physical_32(&dev, 0x5100), Some(0x3344));
}

#[test]
fn test_block_instructions() {
    let mut m = memory();
    let dev = devices();
    let regs = Registers::new();
    let (acts, r) = instruction_blockset(&regs, &mut m, &dev, 3, 0x5000, 0xAA);
    assert_eq!(r, Access::Done(()));
    assert_eq!(acts.len(), 3);
    assert_eq!(m.load_physical_32(&dev, 0x5000), Some(0xAAAAAA00));
    let (_, r) = instruction_blockcopy(&regs, &mut m, &dev, 4, 0x6000, 0x5000);
    assert_eq!(r, Access::Done(()));
    assert_eq!(m.load_physical_32(&dev, 0x6000), Some(0xAAAAAA00));
    // Copying from the reserved space is refused at the first byte.
    let (acts, r) = instruction_blockcopy(&regs, &mut m, &dev, 2, 0x6000, 0x20);
    assert_eq!(r, Access::Illegal);
    assert!(acts.is_empty());
    // Setting into the ROM is refused at the first byte.
    let (acts, r) = instruction_blockset(&regs, &mut m, &dev, 2, 0x40, 1);
    assert_eq!(r, Access::Illegal);
    assert_eq!(acts, vec![Stored::Refused]);
    // Nothing to do.
    assert_eq!(instruction_blockset(&regs, &mut m, &dev, 0, 0x40, 1).1, Access::Done(()));
}
