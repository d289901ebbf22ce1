//! The memory management unit's decisions: where a physical address lands
//! in the memory map, and how a virtual address is translated through the
//! two-level page table.
//!
//! The unit itself holds the devices and performs the loads and stores; for
//! each access it asks these functions where to go, and for each
//! translation it loads the two entries that they name.
use vstd::prelude::*;

verus! {

/// A page fault: the directory or page entry is not valid.
pub const PAGE_FAULT_INVALID_PAGE: u32 = 0;

/// A page fault: the page does not permit the access.
pub const PAGE_FAULT_ILLEGAL_ACCESS: u32 = 1;

/// A page fault: the page is not present.
pub const PAGE_FAULT_NOT_PRESENT: u32 = 2;

/// A page fault: a write to a copy-on-write page.
pub const PAGE_FAULT_COW: u32 = 3;

/// The interrupt handler addresses (read and write).
pub const BEGIN_INTERRUPT_VECTOR: u32 = 0x0000;

/// A reserved zone (no access).
pub const BEGIN_RESERVED_1: u32 = 0x0020;

/// The ROM (read only).
pub const BEGIN_ROM: u32 = 0x0040;

/// The display memory (write only).
pub const BEGIN_DISPLAY: u32 = 0x0240;

/// The keyboard buffers (read only).
pub const BEGIN_KEYBOARD: u32 = 0x19B0;

/// A reserved zone (no access).
pub const BEGIN_RESERVED_2: u32 = 0x19B2;

/// Disk A's status (read only).
pub const BEGIN_DISK_A_STATUS: u32 = 0x1FEC;

/// Disk A's block address (read and write).
pub const BEGIN_DISK_A_ADDRESS: u32 = 0x1FF1;

/// Disk A's command (write only).
pub const BEGIN_DISK_A_COMMAND: u32 = 0x1FF5;

/// Disk B's status (read only).
pub const BEGIN_DISK_B_STATUS: u32 = 0x1FF6;

/// Disk B's block address (read and write).
pub const BEGIN_DISK_B_ADDRESS: u32 = 0x1FFB;

/// Disk B's command (write only).
pub const BEGIN_DISK_B_COMMAND: u32 = 0x1FFF;

/// Disk A's data buffer (read and write).
pub const BEGIN_DISK_A_DATA: u32 = 0x2000;

/// Disk B's data buffer (read and write).
pub const BEGIN_DISK_B_DATA: u32 = 0x3000;

/// The RAM (read and write), to the top of the address space.
pub const BEGIN_RAM: u32 = 0x4000;

/// The size of the ROM in bytes.
pub const ROM_SIZE: usize = 0x200;

/// The size of the RAM in bytes.
pub const RAM_SIZE: usize = 0xFFFF_C000;

/// What a memory access is for: it decides which permission of a page it
/// needs.
#[derive(Debug, Clone, Copy, PartialEq, Eq, Structural)]
pub enum Intent {
    Read,
    Write,
    Execute,
}

/// The part of the memory map that an access reaches. A disk's control is
/// its status, block address and command registers; a load reads its status
/// and address, a store writes its address and command.
#[derive(Debug, Clone, Copy, PartialEq, Eq, Structural)]
pub enum Device {
    InterruptVector,
    Rom,
    Display,
    Keyboard,
    DiskAControl,
    DiskBControl,
    DiskAData,
    DiskBData,
    Ram,
}

/// Where a physical store lands: the device and the offset from the start
/// of its zone, or `None` where stores are refused (reserved, ROM, keyboard,
/// a disk's status).
pub open spec fn store_target_spec(a: u32) -> Option<(Device, u32)> {
    if a < BEGIN_RESERVED_1 {
        Some((Device::InterruptVector, a))
    } else if a < BEGIN_DISPLAY {
        None
    } else if a < BEGIN_KEYBOARD {
        Some((Device::Display, (a - BEGIN_DISPLAY) as u32))
    } else if a < BEGIN_DISK_A_ADDRESS {
        None
    } else if a < BEGIN_DISK_B_STATUS {
        Some((Device::DiskAControl, (a - BEGIN_DISK_A_STATUS) as u32))
    } else if a < BEGIN_DISK_B_ADDRESS {
        None
    } else if a < BEGIN_DISK_A_DATA {
        Some((Device::DiskBControl, (a - BEGIN_DISK_B_STATUS) as u32))
    } else if a < BEGIN_DISK_B_DATA {
        Some((Device::DiskAData, (a - BEGIN_DISK_A_DATA) as u32))
    } else if a < BEGIN_RAM {
        Some((Device::DiskBData, (a - BEGIN_DISK_B_DATA) as u32))
    } else {
        Some((Device::Ram, (a - BEGIN_RAM) as u32))
    }
}

/// Where a physical load lands: the device and the offset from the start of
/// its zone, or `None` where loads are refused (reserved, display, a disk's
/// command).
pub open spec fn load_target_spec(a: u32) -> Option<(Device, u32)> {
    if a < BEGIN_RESERVED_1 {
        Some((Device::InterruptVector, a))
    } else if a < BEGIN_ROM {
        None
    } else if a < BEGIN_DISPLAY {
        Some((Device::Rom, (a - BEGIN_ROM) as u32))
    } else if a < BEGIN_KEYBOARD {
        None
    } else if a < BEGIN_RESERVED_2 {
        Some((Device::Keyboard, (a - BEGIN_KEYBOARD) as u32))
    } else if a < BEGIN_DISK_A_STATUS {
        None
    } else if a < BEGIN_DISK_A_COMMAND {
        Some((Device::DiskAControl, (a - BEGIN_DISK_A_STATUS) as u32))
    } else if a < BEGIN_DISK_B_STATUS {
        None
    } else if a < BEGIN_DISK_B_COMMAND {
        Some((Device::DiskBControl, (a - BEGIN_DISK_B_STATUS) as u32))
    } else if a < BEGIN_DISK_A_DATA {
        None
    } else if a < BEGIN_DISK_B_DATA {
        Some((Device::DiskAData, (a - BEGIN_DISK_A_DATA) as u32))
    } else if a < BEGIN_RAM {
        Some((Device::DiskBData, (a - BEGIN_DISK_B_DATA) as u32))
    } else {
        Some((Device::Ram, (a - BEGIN_RAM) as u32))
    }
}

/// Where a physical store lands, as `store_target_spec` says; `None` for a
/// store that the memory map refuses.
pub fn store_target(address: u32) -> (r: Option<(Device, u32)>)
    ensures
        r == store_target_spec(address),
{
    if address < BEGIN_RESERVED_1 {
        Some((Device::InterruptVector, address))
    } else if address < BEGIN_DISPLAY {
        None
    } else if address < BEGIN_KEYBOARD {
        Some((Device::Display, address - BEGIN_DISPLAY))
    } else if address < BEGIN_DISK_A_ADDRESS {
        None
    } else if address < BEGIN_DISK_B_STATUS {
        Some((Device::DiskAControl, address - BEGIN_DISK_A_STATUS))
    } else if address < BEGIN_DISK_B_ADDRESS {
        None
    } else if address < BEGIN_DISK_A_DATA {
        Some((Device::DiskBControl, address - BEGIN_DISK_B_STATUS))
    } else if address < BEGIN_DISK_B_DATA {
        Some((Device::DiskAData, address - BEGIN_DISK_A_DATA))
    } else if address < BEGIN_RAM {
        Some((Device::DiskBData, address - BEGIN_DISK_B_DATA))
    } else {
        Some((Device::Ram, address - BEGIN_RAM))
    }
}

/// Where a physical load lands, as `load_target_spec` says; `None` for a
/// load that the memory map refuses.
pub fn load_target(address: u32) -> (r: Option<(Device, u32)>)
    ensures
        r == load_target_spec(address),
{
    if address < BEGIN_RESERVED_1 {
        Some((Device::InterruptVector, address))
    } else if address < BEGIN_ROM {
        None
    } else if address < BEGIN_DISPLAY {
        Some((Device::Rom, address - BEGIN_ROM))
    } else if address < BEGIN_KEYBOARD {
        None
    } else if address < BEGIN_RESERVED_2 {
        Some((Device::Keyboard, address - BEGIN_KEYBOARD))
    } else if address < BEGIN_DISK_A_STATUS {
        None
    } else if address < BEGIN_DISK_A_COMMAND {
        Some((Device::DiskAControl, address - BEGIN_DISK_A_STATUS))
    } else if address < BEGIN_DISK_B_STATUS {
        None
    } else if address < BEGIN_DISK_B_COMMAND {
        Some((Device::DiskBControl, address - BEGIN_DISK_B_STATUS))
    } else if address < BEGIN_DISK_A_DATA {
        None
    } else if address < BEGIN_DISK_B_DATA {
        Some((Device::DiskAData, address - BEGIN_DISK_A_DATA))
    } else if address < BEGIN_RAM {
        Some((Device::DiskBData, address - BEGIN_DISK_B_DATA))
    } else {
        Some((Device::Ram, address - BEGIN_RAM))
    }
}

/// The zones that both loads and stores reach (the interrupt vector, the
/// disks' data buffers and the RAM) are reached by both at the same offset,
/// so that a load there reads the memory a store wrote.
pub proof fn lemma_shared_zones(a: u32)
    ensures
        (store_target_spec(a) matches Some((d, o)) && (d == Device::InterruptVector || d
            == Device::DiskAData || d == Device::DiskBData || d == Device::Ram)) ==> load_target_spec(a)
            == store_target_spec(a),
        (load_target_spec(a) matches Some((d, o)) && (d == Device::InterruptVector || d
            == Device::DiskAData || d == Device::DiskBData || d == Device::Ram)) ==> load_target_spec(a)
            == store_target_spec(a),
{
}

/// Where each device's zone of the memory map begins.
pub open spec fn zone_start(d: Device) -> int {
    match d {
        Device::InterruptVector => BEGIN_INTERRUPT_VECTOR as int,
        Device::Rom => BEGIN_ROM as int,
        Device::Display => BEGIN_DISPLAY as int,
        Device::Keyboard => BEGIN_KEYBOARD as int,
        Device::DiskAControl => BEGIN_DISK_A_STATUS as int,
        Device::DiskBControl => BEGIN_DISK_B_STATUS as int,
        Device::DiskAData => BEGIN_DISK_A_DATA as int,
        Device::DiskBData => BEGIN_DISK_B_DATA as int,
        Device::Ram => BEGIN_RAM as int,
    }
}

/// Where each device's zone of the memory map ends (exclusive).
pub open spec fn zone_end(d: Device) -> int {
    match d {
        Device::InterruptVector => BEGIN_RESERVED_1 as int,
        Device::Rom => BEGIN_DISPLAY as int,
        Device::Display => BEGIN_KEYBOARD as int,
        Device::Keyboard => BEGIN_RESERVED_2 as int,
        Device::DiskAControl => BEGIN_DISK_B_STATUS as int,
        Device::DiskBControl => BEGIN_DISK_A_DATA as int,
        Device::DiskAData => BEGIN_DISK_B_DATA as int,
        Device::DiskBData => BEGIN_RAM as int,
        Device::Ram => 0x1_0000_0000,
    }
}

/// Every load and every store reaches the device whose zone holds the
/// address, at the address's offset from the start of that zone; and where
/// both a load and a store reach an address, they reach the same device at
/// the same offset.
pub proof fn lemma_targets_in_zone(a: u32)
    ensures
        load_target_spec(a) matches Some((d, o)) ==> zone_start(d) <= a < zone_end(d) && o == a - zone_start(d),
        store_target_spec(a) matches Some((d, o)) ==> zone_start(d) <= a < zone_end(d) && o == a - zone_start(d),
        (load_target_spec(a) is Some && store_target_spec(a) is Some) ==> load_target_spec(a) == store_target_spec(a),
{
}

/// The zones do not overlap, and each readable one is read whole: every
/// address of the interrupt vector, the ROM, the keyboard, a disk's status
/// and block address, a disk's data and the RAM loads from that device.
pub proof fn lemma_readable_zones(a: u32, d: Device)
    requires
        zone_start(d) <= a < zone_end(d),
        d != Device::Display,
        d == Device::DiskAControl ==> a < BEGIN_DISK_A_COMMAND,
        d == Device::DiskBControl ==> a < BEGIN_DISK_B_COMMAND,
    ensures
        load_target_spec(a) == Some((d, (a - zone_start(d)) as u32)),
{
}

/// Each writable zone is written whole: every address of the interrupt
/// vector, the display, a disk's block address and command, a disk's data
/// and the RAM stores to that device.
pub proof fn lemma_writable_zones(a: u32, d: Device)
    requires
        zone_start(d) <= a < zone_end(d),
        d != Device::Rom && d != Device::Keyboard,
        d == Device::DiskAControl ==> a >= BEGIN_DISK_A_ADDRESS,
        d == Device::DiskBControl ==> a >= BEGIN_DISK_B_ADDRESS,
    ensures
        store_target_spec(a) == Some((d, (a - zone_start(d)) as u32)),
{
}

/// The index of a virtual address's page directory entry: its top ten bits.
pub open spec fn directory_index(vaddr: u32) -> int {
    vaddr as int / 0x40_0000
}

/// The index of a virtual address's page table entry: its middle ten bits.
pub open spec fn table_index(vaddr: u32) -> int {
    (vaddr as int / 0x1000) % 0x400
}

/// Whether bit `k` of an entry is set.
pub open spec fn bit(e: u32, k: nat) -> bool {
    (e as int / vstd::arithmetic::power2::pow2(k) as int) % 2 == 1
}

/// The address of a page's frame in an entry: the entry without its low
/// twelve bits.
pub open spec fn frame_of(e: u32) -> int {
    (e as int / 0x1000) * 0x1000
}

/// The address of the directory entry for a virtual address: four bytes for
/// each entry after the directory's start.
pub fn directory_entry_address(pdpr: u32, vaddr: u32) -> (r: u32)
    requires
        pdpr + 4 * directory_index(vaddr) <= u32::MAX,
    ensures
        r == pdpr + 4 * directory_index(vaddr),
{
    assert((vaddr >> 22u32) == vaddr / 0x40_0000) by (bit_vector);
    pdpr + 4 * (vaddr >> 22u32)
}

/// The address of the page table entry for a virtual address, given its
/// directory entry: where the entry is valid (bit 0), four bytes for each
/// entry after the table's frame; else the invalid-page fault.
pub fn table_entry_address(directory_entry: u32, vaddr: u32) -> (r: Result<u32, u32>)
    ensures
        match r {
            Ok(a) => bit(directory_entry, 0) && a == frame_of(directory_entry) + 4 * table_index(vaddr),
            Err(f) => !bit(directory_entry, 0) && f == PAGE_FAULT_INVALID_PAGE,
        },
{
    proof {
        vstd::arithmetic::power2::lemma2_to64();
    }
    if (directory_entry & 1) == 0 {
        assert((directory_entry & 1) == directory_entry % 2) by (bit_vector);
        return Err(PAGE_FAULT_INVALID_PAGE);
    }
    assert((directory_entry & 1) == directory_entry % 2) by (bit_vector);
    let d = directory_entry;
    assert((d & 0xFFFF_F000) == (d / 0x1000) * 0x1000) by (bit_vector);
    assert((d & 0xFFFF_F000) <= 0xFFFF_F000) by (bit_vector);
    assert(((vaddr >> 12u32) & 0x3FF) == (vaddr / 0x1000) % 0x400) by (bit_vector);
    assert(((vaddr >> 12u32) & 0x3FF) <= 0x3FF) by (bit_vector);
    let base = d & 0xFFFF_F000;
    let offset = 4 * ((vaddr >> 12u32) & 0x3FF);
    Ok(base + offset)
}

/// What a valid directory entry's page entry gives a virtual address: the
/// invalid-page fault where the entry is not valid (bit 0), not-present
/// where the page is absent (bit 1), illegal-access where the page lacks
/// the permission (read bit 2, write bit 3, execute bit 4), copy-on-write
/// for a write to such a page (bit 5); else the frame's address with the
/// virtual address's low twelve bits.
pub open spec fn translate_spec(vaddr: u32, intent: Intent, page_entry: u32) -> Result<u32, u32> {
    if !bit(page_entry, 0) {
        Err(PAGE_FAULT_INVALID_PAGE)
    } else if !bit(page_entry, 1) {
        Err(PAGE_FAULT_NOT_PRESENT)
    } else if !bit(
        page_entry,
        match intent {
            Intent::Read => 2,
            Intent::Write => 3,
            Intent::Execute => 4,
        },
    ) {
        Err(PAGE_FAULT_ILLEGAL_ACCESS)
    } else if intent == Intent::Write && bit(page_entry, 5) {
        Err(PAGE_FAULT_COW)
    } else {
        Ok((frame_of(page_entry) + vaddr as int % 0x1000) as u32)
    }
}

/// Translate a virtual address with its page entry, as `translate_spec`
/// says: the physical address, which keeps the address's offset in its
/// page, or the kind of page fault.
pub fn translate(vaddr: u32, intent: Intent, page_entry: u32) -> (r: Result<u32, u32>)
    ensures
        r == translate_spec(vaddr, intent, page_entry),
        r matches Ok(p) ==> p % 0x1000 == vaddr % 0x1000,
{
    proof {
        vstd::arithmetic::power2::lemma2_to64();
    }
    let e = page_entry;
    assert((e & 1) == e % 2) by (bit_vector);
    assert((e & 2) == 0 <==> (e / 2) % 2 == 0) by (bit_vector);
    assert((e & 4) == 0 <==> (e / 4) % 2 == 0) by (bit_vector);
    assert((e & 8) == 0 <==> (e / 8) % 2 == 0) by (bit_vector);
    assert((e & 16) == 0 <==> (e / 16) % 2 == 0) by (bit_vector);
    assert((e & 32) == 0 <==> (e / 32) % 2 == 0) by (bit_vector);
    if (e & 1) == 0 {
        return Err(PAGE_FAULT_INVALID_PAGE);
    }
    if (e & 2) == 0 {
        return Err(PAGE_FAULT_NOT_PRESENT);
    }
    let legal = match intent {
        Intent::Read => e & 4,
        Intent::Write => e & 8,
        Intent::Execute => e & 16,
    };
    if legal == 0 {
        return Err(PAGE_FAULT_ILLEGAL_ACCESS);
    }
    if intent == Intent::Write && (e & 32) != 0 {
        return Err(PAGE_FAULT_COW);
    }
    let v = vaddr;
    assert(((e & 0xFFFF_F000) | (v & 0xFFF)) == (e / 0x1000) * 0x1000 + v % 0x1000) by (bit_vector);
    assert((((e & 0xFFFF_F000) | (v & 0xFFF)) as u32) % 0x1000 == v % 0x1000) by (bit_vector);
    Ok((e & 0xFFFF_F000) | (v & 0xFFF))
}

} // verus!
