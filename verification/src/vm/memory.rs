//! The machine's own memory: the interrupt vector, the ROM and the RAM, with
//! the memory map deciding where a physical access lands. The RAM is
//! allocated a page at a time, on the first store to the page, and reads as
//! zero until then. Accesses to the display give the terminal's command;
//! accesses to the keyboard and the disks are passed on to them.
use vstd::prelude::*;
use crate::vm::display::{store_spec, DisplayController, UICommand};
use crate::vm::mmu::{load_target, load_target_spec, store_target, store_target_spec, Device, RAM_SIZE, ROM_SIZE};

verus! {

/// The size of a RAM page in bytes.
pub const PAGE_SIZE: usize = 4096;

/// The number of RAM pages.
pub const NUM_PAGES: usize = 0xF_FFFC;

/// The RAM: pages allocated on their first store.
#[derive(Debug)]
pub struct Ram {
    pages: Vec<Option<Vec<u8>>>,
}

impl Ram {
    /// The byte at an offset: zero in a page not yet allocated.
    pub closed spec fn byte_at(&self, off: int) -> u8 {
        match self.pages@[off / PAGE_SIZE as int] {
            Some(p) => p@[off % PAGE_SIZE as int],
            None => 0,
        }
    }

    /// Whether there is a page for every page number, each of a page's
    /// size.
    pub closed spec fn wf(&self) -> bool {
        &&& self.pages@.len() == NUM_PAGES
        &&& forall|i: int| 0 <= i < NUM_PAGES ==> (#[trigger] self.pages@[i] matches Some(p) ==> p@.len() == PAGE_SIZE)
    }
}

impl View for Ram {
    type V = Seq<u8>;

    /// The RAM's bytes, from offset zero.
    closed spec fn view(&self) -> Seq<u8> {
        Seq::new(RAM_SIZE as nat, |i: int| self.byte_at(i))
    }
}

impl Ram {
    /// RAM that reads as zero throughout.
    pub fn new() -> (r: Self)
        ensures
            r.wf(),
            r@ == Seq::new(RAM_SIZE as nat, |i: int| 0u8),
    {
        let mut pages: Vec<Option<Vec<u8>>> = Vec::new();
        let mut i: usize = 0;
        while i < NUM_PAGES
            invariant
                i <= NUM_PAGES,
                pages@.len() == i,
                forall|j: int| 0 <= j < i ==> #[trigger] pages@[j] is None,
            decreases NUM_PAGES - i,
        {
            pages.push(None);
            i = i + 1;
        }
        let r = Ram { pages };
        assert(r@ =~= Seq::new(RAM_SIZE as nat, |i: int| 0u8)) by {
            assert forall|k: int| 0 <= k < RAM_SIZE implies #[trigger] r.byte_at(k) == 0u8 by {
                assert(0 <= k / (PAGE_SIZE as int) && k / (PAGE_SIZE as int) < NUM_PAGES);
            }
        }
        r
    }

    /// The byte at an offset.
    pub fn load(&self, off: u32) -> (r: u8)
        requires
            self.wf(),
            off < RAM_SIZE,
        ensures
            r == self@[off as int],
    {
        let page = off as usize / PAGE_SIZE;
        match &self.pages[page] {
            Some(p) => p[off as usize % PAGE_SIZE],
            None => 0,
        }
    }

    /// Store a byte at an offset.
    pub fn store(&mut self, off: u32, value: u8)
        requires
            old(self).wf(),
            off < RAM_SIZE,
        ensures
            final(self).wf(),
            final(self)@ == old(self)@.update(off as int, value),
    {
        let page = off as usize / PAGE_SIZE;
        let index = off as usize % PAGE_SIZE;
        let mut slot: Option<Vec<u8>> = None;
        core::mem::swap(&mut slot, &mut self.pages[page]);
        let mut data = match slot {
            Some(p) => p,
            None => vec![0u8; PAGE_SIZE],
        };
        data.set(index, value);
        self.pages.set(page, Some(data));
        assert(self@ =~= old(self)@.update(off as int, value)) by {
            assert forall|k: int| 0 <= k < RAM_SIZE implies #[trigger] self.byte_at(k) == old(self)@.update(
                off as int,
                value,
            )[k] by {
                assert(0 <= k / (PAGE_SIZE as int) && k / (PAGE_SIZE as int) < NUM_PAGES);
                if k / PAGE_SIZE as int == page as int {
                    if k != off as int {
                        assert(k % PAGE_SIZE as int != index as int);
                    }
                }
            }
        }
    }
}

/// What a store does: it goes to memory, gives the terminal a command
/// (where any), goes to a device at an offset with its byte, or is refused.
#[derive(Debug, Clone, Copy, PartialEq, Eq, Structural)]
pub enum Stored {
    Memory,
    Display(Option<UICommand>),
    Device(Device, u32, u8),
    Refused,
}

/// What a load gives: a byte of memory, an offset of a device to read, or a
/// refusal.
#[derive(Debug, Clone, Copy, PartialEq, Eq, Structural)]
pub enum Loaded {
    Value(u8),
    Device(Device, u32),
    Refused,
}

/// The contents of the machine's memory.
pub struct MemoryView {
    pub interrupt_vector: Seq<u8>,
    pub rom: Seq<u8>,
    pub ram: Seq<u8>,
}

/// A store of `value` at physical address `a`: the memory after it, and
/// what it does.
pub open spec fn store_view(m: MemoryView, a: u32, value: u8) -> (MemoryView, Stored) {
    match store_target_spec(a) {
        None => (m, Stored::Refused),
        Some((Device::InterruptVector, o)) => (
            MemoryView { interrupt_vector: m.interrupt_vector.update(o as int, value), ..m },
            Stored::Memory,
        ),
        Some((Device::Ram, o)) => (MemoryView { ram: m.ram.update(o as int, value), ..m }, Stored::Memory),
        Some((Device::Display, o)) => (m, Stored::Display(store_spec(o, value))),
        Some((d, o)) => (m, Stored::Device(d, o, value)),
    }
}

/// A load from physical address `a`.
pub open spec fn load_view(m: MemoryView, a: u32) -> Loaded {
    match load_target_spec(a) {
        None => Loaded::Refused,
        Some((Device::InterruptVector, o)) => Loaded::Value(m.interrupt_vector[o as int]),
        Some((Device::Rom, o)) => Loaded::Value(m.rom[o as int]),
        Some((Device::Ram, o)) => Loaded::Value(m.ram[o as int]),
        Some((d, o)) => Loaded::Device(d, o),
    }
}

/// The machine's memory: the interrupt vector, the ROM and the RAM, and the
/// display controller for stores to the display.
#[derive(Debug)]
pub struct Memory {
    interrupt_vector: Vec<u8>,
    rom: Vec<u8>,
    ram: Ram,
    display: DisplayController,
}

impl View for Memory {
    type V = MemoryView;

    closed spec fn view(&self) -> MemoryView {
        MemoryView { interrupt_vector: self.interrupt_vector@, rom: self.rom@, ram: self.ram@ }
    }
}

impl Memory {
    /// Whether the memory's parts have their sizes.
    pub closed spec fn wf(&self) -> bool {
        &&& self.interrupt_vector@.len() == 32
        &&& self.rom@.len() == ROM_SIZE
        &&& self.ram.wf()
    }

    /// Memory with the given ROM, the interrupt vector and the RAM zero.
    pub fn new(rom: Vec<u8>) -> (r: Self)
        requires
            rom@.len() == ROM_SIZE,
        ensures
            r.wf(),
            r@.rom == rom@,
            r@.interrupt_vector == Seq::new(32, |i: int| 0u8),
            r@.ram == Seq::new(RAM_SIZE as nat, |i: int| 0u8),
    {
        let interrupt_vector = vec![0u8; 32];
        let r = Memory { interrupt_vector, rom, ram: Ram::new(), display: DisplayController::new() };
        assert(r@.interrupt_vector =~= Seq::new(32, |i: int| 0u8));
        r
    }

    /// Store a byte at a physical address, as `store_view` says.
    pub fn store_physical_8(&mut self, address: u32, value: u8) -> (r: Stored)
        requires
            old(self).wf(),
        ensures
            final(self).wf(),
            (final(self)@, r) == store_view(old(self)@, address, value),
    {
        match store_target(address) {
            None => Stored::Refused,
            Some((Device::InterruptVector, o)) => {
                self.interrupt_vector.set(o as usize, value);
                Stored::Memory
            },
            Some((Device::Ram, o)) => {
                self.ram.store(o, value);
                Stored::Memory
            },
            Some((Device::Display, o)) => Stored::Display(self.display.store(o, value)),
            Some((d, o)) => Stored::Device(d, o, value),
        }
    }

    /// Load a byte from a physical address, as `load_view` says.
    pub fn load_physical_8(&self, address: u32) -> (r: Loaded)
        requires
            self.wf(),
        ensures
            r == load_view(self@, address),
    {
        match load_target(address) {
            None => Loaded::Refused,
            Some((Device::InterruptVector, o)) => Loaded::Value(self.interrupt_vector[o as usize]),
            Some((Device::Rom, o)) => Loaded::Value(self.rom[o as usize]),
            Some((Device::Ram, o)) => Loaded::Value(self.ram.load(o)),
            Some((d, o)) => Loaded::Device(d, o),
        }
    }
}

/// A load from the interrupt vector or the RAM reads what the last store
/// there wrote, and a store elsewhere leaves it unchanged.
pub proof fn lemma_read_after_write(m: MemoryView, a: u32, b: u32, value: u8)
    requires
        m.interrupt_vector.len() == 32,
        m.rom.len() == ROM_SIZE,
        m.ram.len() == RAM_SIZE,
        store_view(m, a, value).1 == Stored::Memory,
    ensures
        load_view(store_view(m, a, value).0, a) == Loaded::Value(value),
        b != a ==> load_view(store_view(m, a, value).0, b) == load_view(m, b),
{
}

/// The ROM cannot be written: a store there is refused and changes
/// nothing.
pub proof fn lemma_rom_read_only(m: MemoryView, a: u32, value: u8)
    requires
        load_target_spec(a) matches Some((Device::Rom, o)),
    ensures
        store_view(m, a, value) == (m, Stored::Refused),
{
}

} // verus!
