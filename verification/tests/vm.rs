use simulatron::vm::alu::{
    execute_int_op, IntOp, int_addcarry, int_bitop, int_lrot, int_mul, int_negate, int_not, int_rotate_carry, int_rrot, int_sdiv,
    int_srem, int_subborrow, int_udiv, int_urem, BitOp,
};
use simulatron::vm::cpu::{
    block_compare, pop_address, push_address, pushed_flags, returned_state, int_add, int_lshift, int_srshift, int_sub, int_urshift, jump_condition, rcl, rcr,
    reg_ref_type, CPUError, Condition, InterruptLatch, Registers, TypedValue, ValueType, FLAG_CARRY,
    FLAG_NEGATIVE, FLAG_OVERFLOW, FLAG_ZERO, INTERRUPT_DIV_BY_0, INTERRUPT_ILLEGAL_OPERATION, INTERRUPT_KEYBOARD, INTERRUPT_TIMER, JOIN_THREAD,
};
use simulatron::vm::display::{rgb, u8_to_printable_char, DisplayController, UICommand};
use simulatron::vm::keys::{key_action, key_to_u8, KeyAction, KeyCode, KeyMessage};
use simulatron::vm::mmu::{
    directory_entry_address, load_target, store_target, table_entry_address, translate, Device, Intent,
    PAGE_FAULT_COW, PAGE_FAULT_ILLEGAL_ACCESS, PAGE_FAULT_INVALID_PAGE, PAGE_FAULT_NOT_PRESENT,
};

#[test]
fn test_key_codes() {
    assert_eq!(key_to_u8(KeyCode::F(1)), Some(1));
    assert_eq!(key_to_u8(KeyCode::F(12)), Some(12));
    assert_eq!(key_to_u8(KeyCode::F(13)), None);
    assert_eq!(key_to_u8(KeyCode::Esc), Some(13));
    assert_eq!(key_to_u8(KeyCode::Tab), Some(22));
    assert_eq!(key_to_u8(KeyCode::Right), Some(26));
    assert_eq!(key_to_u8(KeyCode::Char('A')), Some(65));
    assert_eq!(key_to_u8(KeyCode::Char(' ')), Some(32));
    assert_eq!(key_to_u8(KeyCode::Char('£')), Some(31));
    assert_eq!(key_to_u8(KeyCode::Char('¬')), Some(127));
    assert_eq!(key_to_u8(KeyCode::Char('é')), None);
    assert_eq!(key_to_u8(KeyCode::Other), None);
}

#[test]
fn test_key_actions() {
    assert_eq!(key_action(KeyCode::Char('Q'), false, true, true), KeyAction::Quit);
    assert_eq!(
        key_action(KeyCode::Char('Q'), false, true, false),
        KeyAction::Send(KeyMessage::Key(81, false, true))
    );
    assert_eq!(key_action(KeyCode::Enter, true, false, false), KeyAction::Send(KeyMessage::Key(15, true, false)));
    assert_eq!(key_action(KeyCode::Other, false, false, false), KeyAction::Ignore);
    assert_eq!(KeyMessage::Key(65, true, true).metadata(), 3);
    assert_eq!(KeyMessage::Key(65, false, true).metadata(), 2);
    assert_eq!(KeyMessage::Key(65, false, false).metadata(), 0);
}

#[test]
fn test_character_set_round_trip() {
    for b in 0u8..=255 {
        if let Some(c) = u8_to_printable_char(b) {
            assert_eq!(key_to_u8(KeyCode::Char(c)), Some(b));
        }
    }
    assert_eq!(u8_to_printable_char(31), Some('£'));
    assert_eq!(u8_to_printable_char(127), Some('¬'));
    assert_eq!(u8_to_printable_char(10), None);
}

#[test]
fn test_display_store() {
    let d = DisplayController::new();
    assert_eq!(d.store(81, b'x'), Some(UICommand::SetChar { row: 1, col: 1, character: 'x' }));
    assert_eq!(d.store(0, 7), None);
    assert_eq!(d.store(2000 + 160, 0b00110110), Some(UICommand::SetFg { row: 2, col: 0, r: 255, g: 85, b: 170 }));
    assert_eq!(d.store(5999, 0), Some(UICommand::SetBg { row: 24, col: 79, r: 0, g: 0, b: 0 }));
    assert_eq!(rgb(0b00110110), (255, 85, 170));
    assert_eq!(rgb(0xFF), (255, 255, 255));
}

#[test]
fn test_registers_read_write() {
    let mut regs = Registers::new();
    regs.write_to_register(0x00, TypedValue::Word(0x1234_5678)).unwrap();
    assert_eq!(regs.read_from_register(0x00, 0), Ok(TypedValue::Word(0x1234_5678)));
    assert_eq!(regs.read_from_register(0x08, 0), Ok(TypedValue::Half(0x5678)));
    assert_eq!(regs.read_from_register(0x10, 0), Ok(TypedValue::Byte(0x78)));
    regs.write_to_register(0x10, TypedValue::Byte(0xAB)).unwrap();
    assert_eq!(regs.read_from_register(0x00, 0), Ok(TypedValue::Word(0x1234_56AB)));
    regs.write_to_register(0x08, TypedValue::Half(0xCDEF)).unwrap();
    assert_eq!(regs.read_from_register(0x00, 0), Ok(TypedValue::Word(0x1234_CDEF)));
    // A wrong type is refused and changes nothing.
    assert_eq!(regs.write_to_register(0x00, TypedValue::Byte(1)), Err(CPUError::TryAgainError));
    assert_eq!(regs.read_from_register(0x00, 0), Ok(TypedValue::Word(0x1234_CDEF)));
    // FLAGS keeps its low fifteen bits.
    regs.write_to_register(0x20, TypedValue::Half(0xFFFF)).unwrap();
    assert_eq!(regs.flags(), 0x7FFF);
    // The page fault status register reads the value given.
    assert_eq!(regs.read_from_register(0x25, 3), Ok(TypedValue::Word(3)));
    assert_eq!(reg_ref_type(0x18), Some(ValueType::Float));
    assert_eq!(reg_ref_type(0x26), None);
}

#[test]
fn test_registers_privilege() {
    let mut regs = Registers::new();
    regs.write_to_register(0x22, TypedValue::Word(0x100)).unwrap();
    regs.set_kernel_mode(false);
    assert!(!regs.kernel_mode());
    assert_eq!(regs.read_from_register(0x22, 0), Err(CPUError::TryAgainError));
    assert_eq!(regs.write_to_register(0x24, TypedValue::Half(1)), Err(CPUError::TryAgainError));
    regs.write_to_register(0x21, TypedValue::Word(0x200)).unwrap();
    assert_eq!(regs.read_from_register(0x21, 0), Ok(TypedValue::Word(0x200)));
    regs.set_kernel_mode(true);
    assert_eq!(regs.read_from_register(0x22, 0), Ok(TypedValue::Word(0x100)));
}

#[test]
fn test_integer_flags() {
    assert_eq!(int_add(ValueType::Byte, 0x7F, 1), (0x80, FLAG_NEGATIVE | FLAG_OVERFLOW));
    assert_eq!(int_add(ValueType::Byte, 0xFF, 1), (0, FLAG_ZERO | FLAG_CARRY));
    assert_eq!(int_add(ValueType::Word, 2, 3), (5, 0));
    assert_eq!(int_sub(ValueType::Half, 0, 1), (0xFFFF, FLAG_NEGATIVE | FLAG_CARRY));
    assert_eq!(int_sub(ValueType::Byte, 0x80, 1), (0x7F, FLAG_OVERFLOW));
    assert_eq!(int_sub(ValueType::Word, 7, 7), (0, FLAG_ZERO));
}

#[test]
fn test_shifts() {
    assert_eq!(int_lshift(ValueType::Byte, 0x81, 1), (0x02, FLAG_CARRY));
    assert_eq!(int_lshift(ValueType::Byte, 0x01, 7), (0x80, FLAG_NEGATIVE));
    assert_eq!(int_lshift(ValueType::Byte, 0x01, 8), (0, FLAG_ZERO | FLAG_CARRY));
    assert_eq!(int_lshift(ValueType::Word, 0x8000_0001, 0), (0x8000_0001, FLAG_NEGATIVE));
    assert_eq!(int_urshift(ValueType::Half, 0x8001, 1), (0x4000, FLAG_CARRY));
    assert_eq!(int_urshift(ValueType::Half, 0x8000, 15), (1, 0));
    assert_eq!(int_urshift(ValueType::Word, 5, 40), (0, FLAG_ZERO | FLAG_CARRY));
    assert_eq!(int_srshift(ValueType::Byte, 0x80, 1), (0xC0, FLAG_NEGATIVE));
    assert_eq!(int_srshift(ValueType::Byte, 0xFF, 4), (0xFF, FLAG_NEGATIVE | FLAG_CARRY));
    assert_eq!(int_srshift(ValueType::Byte, 0x7F, 3), (0x0F, FLAG_CARRY));
    assert_eq!(int_srshift(ValueType::Word, 0x8000_0000, 200), (0xFFFF_FFFF, FLAG_NEGATIVE | FLAG_CARRY));
    assert_eq!(int_srshift(ValueType::Half, 0x1234, 16), (0, FLAG_ZERO | FLAG_CARRY));
}

#[test]
fn test_rotate_through_carry() {
    assert_eq!(rcl(ValueType::Byte, 0x81, false), (0x02, true));
    assert_eq!(rcl(ValueType::Byte, 0x01, true), (0x03, false));
    assert_eq!(rcr(ValueType::Half, 0x0001, true), (0x8000, true));
    assert_eq!(rcr(ValueType::Word, 0x4, false), (0x2, false));
}

#[test]
fn test_block_compare() {
    assert_eq!(block_compare(&[1, 2, 3], &[1, 2, 3]), FLAG_ZERO);
    assert_eq!(block_compare(&[1, 3, 0], &[1, 2, 9]), 0);
    assert_eq!(block_compare(&[1, 2, 3], &[1, 2, 4]), FLAG_NEGATIVE);
    assert_eq!(block_compare(&[], &[]), FLAG_ZERO);
}

#[test]
fn test_typed_values() {
    assert_eq!(TypedValue::Byte(0).size_in_bytes(), 1);
    assert_eq!(TypedValue::Half(0).size_in_bytes(), 2);
    assert_eq!(TypedValue::Float(0).size_in_bytes(), 4);
    assert!(TypedValue::Word(0).is_integer_zero());
    assert!(!TypedValue::Word(1).is_integer_zero());
    assert!(!TypedValue::Float(0).is_integer_zero());
    assert_eq!(TypedValue::Half(3).value_type(), ValueType::Half);
}

#[test]
fn test_interrupt_latch() {
    let mut latch = InterruptLatch::new();
    // The keyboard interrupt is masked, so it is latched.
    assert!(!latch.offer(INTERRUPT_KEYBOARD, 0));
    assert!(!latch.offer(INTERRUPT_TIMER, 0));
    assert_eq!(latch.take_latched(0), None);
    // Once enabled, the lowest latched interrupt comes first.
    let imr = (1 << INTERRUPT_KEYBOARD) | (1 << INTERRUPT_TIMER);
    assert_eq!(latch.take_latched(imr), Some(INTERRUPT_KEYBOARD));
    assert_eq!(latch.take_latched(imr), Some(INTERRUPT_TIMER));
    assert_eq!(latch.take_latched(imr), None);
    // Enabled interrupts and the stop command are handled at once.
    assert!(latch.offer(INTERRUPT_TIMER, imr));
    assert!(latch.offer(JOIN_THREAD, 0));
}

#[test]
fn test_memory_map() {
    assert_eq!(store_target(0x10), Some((Device::InterruptVector, 0x10)));
    assert_eq!(load_target(0x10), Some((Device::InterruptVector, 0x10)));
    assert_eq!(store_target(0x40), None);
    assert_eq!(load_target(0x41), Some((Device::Rom, 1)));
    assert_eq!(store_target(0x241), Some((Device::Display, 1)));
    assert_eq!(load_target(0x241), None);
    assert_eq!(load_target(0x19B1), Some((Device::Keyboard, 1)));
    assert_eq!(store_target(0x19B1), None);
    assert_eq!(load_target(0x1FEC), Some((Device::DiskAControl, 0)));
    assert_eq!(store_target(0x1FEC), None);
    assert_eq!(store_target(0x1FF5), Some((Device::DiskAControl, 9)));
    assert_eq!(load_target(0x1FF5), None);
    assert_eq!(store_target(0x1FFF), Some((Device::DiskBControl, 9)));
    assert_eq!(load_target(0x2001), Some((Device::DiskAData, 1)));
    assert_eq!(store_target(0x3001), Some((Device::DiskBData, 1)));
    assert_eq!(load_target(0x4000), Some((Device::Ram, 0)));
    assert_eq!(store_target(0xFFFF_FFFF), Some((Device::Ram, 0xFFFF_BFFF)));
}

#[test]
fn test_address_translation() {
    // A single directory entry and page table entry, as the unit's own
    // test lays them out in RAM.
    let pdpr = 0x4000;
    let vaddr = 0x0000_0ABC;
    assert_eq!(directory_entry_address(pdpr, vaddr), 0x4000);
    assert_eq!(directory_entry_address(pdpr, 0x0040_0000), 0x4004);
    let directory_entry = 0x0000_5001; // Frame 1 of RAM, valid.
    assert_eq!(table_entry_address(directory_entry, vaddr), Ok(0x5000));
    assert_eq!(table_entry_address(directory_entry, 0x0000_3123), Ok(0x500C));
    let page_entry = 0x0000_6007; // Frame 2 of RAM, valid, present, readable.
    assert_eq!(translate(vaddr, Intent::Read, page_entry), Ok(0x6ABC));
    assert_eq!(translate(vaddr, Intent::Write, page_entry), Err(PAGE_FAULT_ILLEGAL_ACCESS));
    assert_eq!(translate(vaddr, Intent::Execute, page_entry), Err(PAGE_FAULT_ILLEGAL_ACCESS));
}

#[test]
fn test_page_faults() {
    assert_eq!(table_entry_address(0x0000_5000, 0), Err(PAGE_FAULT_INVALID_PAGE));
    assert_eq!(translate(0, Intent::Read, 0x0000_6006), Err(PAGE_FAULT_INVALID_PAGE));
    assert_eq!(translate(0, Intent::Read, 0x0000_6005), Err(PAGE_FAULT_NOT_PRESENT));
    // Writable and copy-on-write: a write faults, a read does not.
    assert_eq!(translate(0x10, Intent::Write, 0x0000_602F), Err(PAGE_FAULT_COW));
    assert_eq!(translate(0x10, Intent::Read, 0x0000_602F), Ok(0x6010));
    assert_eq!(translate(0xFFF, Intent::Execute, 0xFFFF_F013), Ok(0xFFFF_FFFF));
}

/// The flags the processor sets for an integer result, as its reference
/// semantics computes them from the signed result.
fn flags_of(signed_result: i64, carry: bool, overflow: bool) -> u16 {
    let mut flags = 0;
    if signed_result == 0 {
        flags |= FLAG_ZERO;
    } else if signed_result < 0 {
        flags |= FLAG_NEGATIVE;
    }
    if carry {
        flags |= FLAG_CARRY;
    }
    if overflow {
        flags |= FLAG_OVERFLOW;
    }
    flags
}

#[test]
fn test_byte_arithmetic_against_std() {
    for x in 0u8..=255 {
        for y in 0u8..=255 {
            let (ua, uc) = x.overflowing_add(y);
            let (sa, so) = (x as i8).overflowing_add(y as i8);
            assert_eq!(int_add(ValueType::Byte, x as u32, y as u32), (ua as u32, flags_of(sa as i64, uc, so)));
            let (us, ub) = x.overflowing_sub(y);
            let (ss, so) = (x as i8).overflowing_sub(y as i8);
            assert_eq!(int_sub(ValueType::Byte, x as u32, y as u32), (us as u32, flags_of(ss as i64, ub, so)));
            let (um, mc) = x.overflowing_mul(y);
            let (sm, mo) = (x as i8).overflowing_mul(y as i8);
            assert_eq!(int_mul(ValueType::Byte, x as u32, y as u32), (um as u32, flags_of(sm as i64, mc, mo)));
            if y != 0 {
                let (q, qo) = (x as i8).overflowing_div(y as i8);
                assert_eq!(int_sdiv(ValueType::Byte, x as u32, y as u32), (q as u8 as u32, flags_of(q as i64, false, qo)));
                let (r, ro) = (x as i8).overflowing_rem(y as i8);
                assert_eq!(int_srem(ValueType::Byte, x as u32, y as u32), (r as u8 as u32, flags_of(r as i64, false, ro)));
                let q = x / y;
                assert_eq!(int_udiv(ValueType::Byte, x as u32, y as u32), (q as u32, flags_of(q as i8 as i64, false, false)));
                let r = x % y;
                assert_eq!(int_urem(ValueType::Byte, x as u32, y as u32), (r as u32, flags_of(r as i8 as i64, false, false)));
            }
            for (op, v) in [(BitOp::And, x & y), (BitOp::Or, x | y), (BitOp::Xor, x ^ y)] {
                assert_eq!(int_bitop(ValueType::Byte, op, x as u32, y as u32), (v as u32, flags_of(v as i8 as i64, false, false)));
            }
            let n = y;
            let l = x.rotate_left(n as u32);
            assert_eq!(int_lrot(ValueType::Byte, x as u32, n), (l as u32, flags_of(l as i8 as i64, false, false)));
            let r = x.rotate_right(n as u32);
            assert_eq!(int_rrot(ValueType::Byte, x as u32, n), (r as u32, flags_of(r as i8 as i64, false, false)));
        }
        let nx = !x;
        assert_eq!(int_not(ValueType::Byte, x as u32), (nx as u32, flags_of(nx as i8 as i64, false, false)));
        if x != 0x80 {
            assert_eq!(int_negate(ValueType::Byte, x as u32), (-(x as i8)) as u8 as u32);
        }
    }
}

#[test]
fn test_word_arithmetic_samples() {
    let samples: [u32; 8] = [0, 1, 2, 0x7FFF_FFFF, 0x8000_0000, 0x8000_0001, 0xFFFF_FFFE, 0xFFFF_FFFF];
    for &x in samples.iter() {
        for &y in samples.iter() {
            let (um, mc) = x.overflowing_mul(y);
            let (sm, mo) = (x as i32).overflowing_mul(y as i32);
            assert_eq!(int_mul(ValueType::Word, x, y), (um, flags_of(sm as i64, mc, mo)));
            if y != 0 {
                let (q, qo) = (x as i32).overflowing_div(y as i32);
                assert_eq!(int_sdiv(ValueType::Word, x, y), (q as u32, flags_of(q as i64, false, qo)));
                let (r, ro) = (x as i32).overflowing_rem(y as i32);
                assert_eq!(int_srem(ValueType::Word, x, y), (r as u32, flags_of(r as i64, false, ro)));
            }
            let n = (y % 64) as u8;
            assert_eq!(int_lrot(ValueType::Word, x, n).0, x.rotate_left(n as u32));
            assert_eq!(int_rrot(ValueType::Word, x, n).0, x.rotate_right(n as u32));
        }
    }
    assert_eq!(int_addcarry(ValueType::Half, 0xFFFF, 0, true), (0, FLAG_ZERO | FLAG_CARRY));
    assert_eq!(int_subborrow(ValueType::Half, 5, 1, true), (3, 0));
}

#[test]
fn test_rotate_through_carry_repeated() {
    // Nine rotations of a byte through the carry come back to the start.
    assert_eq!(int_rotate_carry(ValueType::Byte, 0xA5, true, 9, true), (0xA5, FLAG_NEGATIVE | FLAG_CARRY));
    assert_eq!(int_rotate_carry(ValueType::Byte, 0x01, false, 1, false), (0x00, FLAG_ZERO | FLAG_CARRY));
    assert_eq!(int_rotate_carry(ValueType::Half, 0x8000, false, 2, true), (0x0001, 0));
}

#[test]
fn test_compare_then_jump() {
    // 0x80 is 128 unsigned but -128 signed.
    let (_, flags) = int_sub(ValueType::Byte, 0x80, 0x01);
    assert!(jump_condition(Condition::UnsignedGreater, flags));
    assert!(jump_condition(Condition::SignedLesser, flags));
    assert!(!jump_condition(Condition::SignedGreaterEq, flags));
    assert!(jump_condition(Condition::NotEqual, flags));
    let (_, flags) = int_sub(ValueType::Word, 7, 7);
    assert!(jump_condition(Condition::Equal, flags));
    assert!(jump_condition(Condition::UnsignedLesserEq, flags));
    assert!(jump_condition(Condition::SignedGreaterEq, flags));
    assert!(!jump_condition(Condition::UnsignedLesser, flags));
    for x in 0u32..256 {
        for y in 0u32..256 {
            let (_, f) = int_sub(ValueType::Byte, x, y);
            let (sx, sy) = (x as u8 as i8, y as u8 as i8);
            assert_eq!(jump_condition(Condition::UnsignedGreater, f), x > y);
            assert_eq!(jump_condition(Condition::UnsignedLesserEq, f), x <= y);
            assert_eq!(jump_condition(Condition::SignedGreater, f), sx > sy);
            assert_eq!(jump_condition(Condition::SignedLesserEq, f), sx <= sy);
        }
    }
}

#[test]
fn test_byte_shifts_against_std() {
    for x in 0u8..=255 {
        for n in 0u8..=20 {
            let v = n as u32;
            let (l, lc) = match x.checked_shl(v) {
                Some(z) => (z, x.leading_zeros() < v),
                None => (0, true),
            };
            assert_eq!(int_lshift(ValueType::Byte, x as u32, n), (l as u32, flags_of(l as i8 as i64, lc, false)));
            let (u, uc) = match x.checked_shr(v) {
                Some(z) => (z, x.trailing_zeros() < v),
                None => (0, true),
            };
            assert_eq!(int_urshift(ValueType::Byte, x as u32, n), (u as u32, flags_of(u as i8 as i64, uc, false)));
            let (s, sc) = match (x as i8).checked_shr(v) {
                Some(z) => (z as u8, x.trailing_zeros() < v),
                None => (if (x as i8) < 0 { u8::MAX } else { 0 }, true),
            };
            assert_eq!(int_srshift(ValueType::Byte, x as u32, n), (s as u32, flags_of(s as i8 as i64, sc, false)));
        }
    }
}

#[test]
fn test_execute_int_op() {
    let mut regs = Registers::new();
    regs.write_to_register(0x00, TypedValue::Word(0x0000_01FF)).unwrap();
    // A byte register: only the low byte of r0 changes.
    assert_eq!(execute_int_op(&mut regs, IntOp::Add, 0x10, 1, 0), Ok(()));
    assert_eq!(regs.read_from_register(0x00, 0), Ok(TypedValue::Word(0x0000_0100)));
    assert_eq!(regs.flags(), FLAG_ZERO | FLAG_CARRY);
    // The carry goes into the next addition.
    assert_eq!(execute_int_op(&mut regs, IntOp::AddCarry, 0x00, 1, 0), Ok(()));
    assert_eq!(regs.read_from_register(0x00, 0), Ok(TypedValue::Word(0x0000_0102)));
    assert_eq!(regs.flags(), 0);
    // A comparison sets the flags and writes nothing.
    assert_eq!(execute_int_op(&mut regs, IntOp::Compare, 0x00, 0x200, 0), Ok(()));
    assert_eq!(regs.read_from_register(0x00, 0), Ok(TypedValue::Word(0x0000_0102)));
    assert_eq!(regs.flags(), FLAG_NEGATIVE | FLAG_CARRY);
    // Division by zero raises its interrupt and changes nothing.
    assert_eq!(execute_int_op(&mut regs, IntOp::UDiv, 0x00, 0, 0), Err(INTERRUPT_DIV_BY_0));
    assert_eq!(regs.flags(), FLAG_NEGATIVE | FLAG_CARRY);
    // The fault status register can be read but not written.
    assert_eq!(execute_int_op(&mut regs, IntOp::Add, 0x25, 1, 7), Err(INTERRUPT_ILLEGAL_OPERATION));
    assert_eq!(execute_int_op(&mut regs, IntOp::Compare, 0x25, 7, 7), Ok(()));
    assert_eq!(regs.flags(), FLAG_ZERO);
    // Shifts take a count.
    assert_eq!(execute_int_op(&mut regs, IntOp::LShift, 0x08, 4, 0), Ok(()));
    assert_eq!(regs.read_from_register(0x08, 0), Ok(TypedValue::Half(0x1020)));
    assert_eq!(execute_int_op(&mut regs, IntOp::LRotCarry, 0x10, 1, 0), Ok(()));
    assert_eq!(regs.read_from_register(0x10, 0), Ok(TypedValue::Byte(0x40)));
}

#[test]
fn test_interrupt_frame() {
    let pushed = pushed_flags(FLAG_CARRY | FLAG_ZERO, true);
    assert_eq!(pushed, 0x8005);
    assert_eq!(returned_state(pushed), (true, 0x0005));
    let pushed = pushed_flags(FLAG_NEGATIVE, false);
    assert_eq!(pushed, 0x0002);
    assert_eq!(returned_state(pushed), (false, 0x0002));
    assert_eq!(push_address(0, 4), 0xFFFF_FFFC);
    assert_eq!(pop_address(0xFFFF_FFFC, 4), 0);
    assert_eq!(push_address(0x100, 2), 0xFE);
}
