//! The memory unit's accesses of more than one byte and through the page
//! tables: big-endian 16- and 32-bit physical loads and stores, the
//! translation of a virtual address through the page directory and page
//! table held in memory, and virtual loads and stores of 8, 16 and 32 bits,
//! each byte translated on its own, in ascending order.
//!
//! The keyboard's and the disks' readable bytes come in as `DeviceBytes`,
//! what they hold when the access is made; stores to devices come back as
//! the `Stored` outcomes for the caller to carry out.
use vstd::prelude::*;
use crate::bytes::{be_u16_bytes, be_u32_bytes, u16_to_be, u32_to_be};
use crate::vm::memory::{load_view, store_view, Loaded, Memory, MemoryView, Stored};
use crate::vm::mmu::{
    bit, directory_entry_address, directory_index, frame_of, load_target_spec, table_entry_address, table_index,
    translate, translate_spec, Device, Intent, BEGIN_RAM, PAGE_FAULT_INVALID_PAGE, RAM_SIZE, ROM_SIZE,
};

verus! {

/// What the readable device registers hold: the keyboard's key and
/// metadata buffers, each disk's status, block count and block address
/// bytes, and each disk's data buffer.
#[derive(Debug)]
pub struct DeviceBytes {
    pub keyboard: Vec<u8>,
    pub disk_a_control: Vec<u8>,
    pub disk_b_control: Vec<u8>,
    pub disk_a_data: Vec<u8>,
    pub disk_b_data: Vec<u8>,
}

/// The contents of the readable device registers.
pub struct DeviceBytesView {
    pub keyboard: Seq<u8>,
    pub disk_a_control: Seq<u8>,
    pub disk_b_control: Seq<u8>,
    pub disk_a_data: Seq<u8>,
    pub disk_b_data: Seq<u8>,
}

impl View for DeviceBytes {
    type V = DeviceBytesView;

    open spec fn view(&self) -> DeviceBytesView {
        DeviceBytesView {
            keyboard: self.keyboard@,
            disk_a_control: self.disk_a_control@,
            disk_b_control: self.disk_b_control@,
            disk_a_data: self.disk_a_data@,
            disk_b_data: self.disk_b_data@,
        }
    }
}

/// Whether each register zone has its size: two keyboard bytes, nine
/// readable control bytes per disk, a 4096-byte buffer per disk.
pub open spec fn devices_wf(d: DeviceBytesView) -> bool {
    &&& d.keyboard.len() == 2
    &&& d.disk_a_control.len() == 9
    &&& d.disk_b_control.len() == 9
    &&& d.disk_a_data.len() == 0x1000
    &&& d.disk_b_data.len() == 0x1000
}

/// The outcome of an access: done, with its result; refused by the memory
/// map; or a page fault of a kind.
#[derive(Debug, Clone, Copy, PartialEq, Eq, Structural)]
pub enum Access<T> {
    Done(T),
    Illegal,
    PageFault(u32),
}

/// The byte of a readable device register.
pub open spec fn device_byte(d: DeviceBytesView, dev: Device, o: u32) -> u8 {
    match dev {
        Device::Keyboard => d.keyboard[o as int],
        Device::DiskAControl => d.disk_a_control[o as int],
        Device::DiskBControl => d.disk_b_control[o as int],
        Device::DiskAData => d.disk_a_data[o as int],
        Device::DiskBData => d.disk_b_data[o as int],
        _ => 0,
    }
}

/// The byte a physical load from `a` reads, or `None` where it is refused.
pub open spec fn byte_spec(m: MemoryView, d: DeviceBytesView, a: u32) -> Option<u8> {
    match load_view(m, a) {
        Loaded::Value(v) => Some(v),
        Loaded::Device(dev, o) => Some(device_byte(d, dev, o)),
        Loaded::Refused => None,
    }
}

/// The `n` bytes from physical address `a` as a big-endian number, or
/// `None` where a load of one of them is refused.
pub open spec fn word_spec(m: MemoryView, d: DeviceBytesView, a: u32, n: nat) -> Option<int>
    decreases n,
{
    if n == 0 {
        Some(0)
    } else {
        match (word_spec(m, d, a, (n - 1) as nat), byte_spec(m, d, (a + n - 1) as u32)) {
            (Some(w), Some(b)) => Some(w * 256 + b),
            _ => None,
        }
    }
}

/// The largest number of `n` bytes.
pub open spec fn max_of_bytes(n: nat) -> int
    decreases n,
{
    if n == 0 {
        0
    } else {
        max_of_bytes((n - 1) as nat) * 256 + 255
    }
}

/// Translate virtual address `vaddr` for an access of intent `intent`
/// through the page directory at `pdpr`: the directory entry, then the page
/// entry, each a big-endian word loaded from physical memory; an invalid
/// directory entry is the invalid-page fault; the page entry decides as
/// `translate_spec` says.
pub open spec fn translate_view(m: MemoryView, d: DeviceBytesView, pdpr: u32, vaddr: u32, intent: Intent) -> Access<u32> {
    match word_spec(m, d, (pdpr + 4 * directory_index(vaddr)) as u32, 4) {
        None => Access::Illegal,
        Some(de) => if !bit(de as u32, 0) {
            Access::PageFault(PAGE_FAULT_INVALID_PAGE)
        } else {
            match word_spec(m, d, (frame_of(de as u32) + 4 * table_index(vaddr)) as u32, 4) {
                None => Access::Illegal,
                Some(pe) => match translate_spec(vaddr, intent, pe as u32) {
                    Err(f) => Access::PageFault(f),
                    Ok(p) => Access::Done(p),
                },
            }
        },
    }
}

/// Whether the directory entry of each of the `n` addresses from `a` lies,
/// with its four bytes, below 2^32.
pub open spec fn directory_fits(pdpr: u32, a: u32, n: nat) -> bool {
    forall|i: int| 0 <= i < n ==> pdpr + 4 * directory_index(#[trigger] ((a + i) as u32)) + 3 <= u32::MAX
}

/// A virtual load of `n` bytes from `a` as a big-endian number: each byte's
/// address translated, then loaded, in ascending order; the first fault or
/// refusal ends it.
pub open spec fn load_virtual_view(m: MemoryView, d: DeviceBytesView, pdpr: u32, a: u32, n: nat, intent: Intent) -> Access<
    int,
>
    decreases n,
{
    if n == 0 {
        Access::Done(0)
    } else {
        match load_virtual_view(m, d, pdpr, a, (n - 1) as nat, intent) {
            Access::Done(w) => match translate_view(m, d, pdpr, (a + n - 1) as u32, intent) {
                Access::Done(p) => match byte_spec(m, d, p) {
                    Some(b) => Access::Done(w * 256 + b),
                    None => Access::Illegal,
                },
                Access::Illegal => Access::Illegal,
                Access::PageFault(f) => Access::PageFault(f),
            },
            Access::Illegal => Access::Illegal,
            Access::PageFault(f) => Access::PageFault(f),
        }
    }
}

/// The intent of a load: execution for an instruction fetch, else reading.
pub open spec fn load_intent(is_fetch: bool) -> Intent {
    if is_fetch {
        Intent::Execute
    } else {
        Intent::Read
    }
}

/// Physical stores of `bytes` from `a` on, in ascending order, the first
/// refusal ending them: the memory after them, and what each did.
pub open spec fn store_bytes_view(m: MemoryView, a: u32, bytes: Seq<u8>) -> (MemoryView, Seq<Stored>)
    decreases bytes.len(),
{
    if bytes.len() == 0 {
        (m, Seq::empty())
    } else {
        let (m1, acts) = store_bytes_view(m, a, bytes.drop_last());
        if acts.len() > 0 && acts.last() == Stored::Refused {
            (m1, acts)
        } else {
            let (m2, st) = store_view(m1, (a + bytes.len() - 1) as u32, bytes.last());
            (m2, acts.push(st))
        }
    }
}

/// Virtual stores of `bytes` from `a` on, each byte's address translated
/// for writing in the memory as the earlier stores left it, in ascending
/// order, the first fault or refusal ending them: the memory after them,
/// what each store did, and the outcome.
pub open spec fn store_virtual_view(m: MemoryView, d: DeviceBytesView, pdpr: u32, a: u32, bytes: Seq<u8>) -> (
    MemoryView,
    Seq<Stored>,
    Access<()>,
)
    decreases bytes.len(),
{
    if bytes.len() == 0 {
        (m, Seq::empty(), Access::Done(()))
    } else {
        let (m1, acts, r) = store_virtual_view(m, d, pdpr, a, bytes.drop_last());
        match r {
            Access::Done(_) => match translate_view(m1, d, pdpr, (a + bytes.len() - 1) as u32, Intent::Write) {
                Access::Done(p) => {
                    let (m2, st) = store_view(m1, p, bytes.last());
                    (m2, acts.push(st), if st == Stored::Refused {
                        Access::Illegal
                    } else {
                        Access::Done(())
                    })
                },
                Access::Illegal => (m1, acts, Access::Illegal),
                Access::PageFault(f) => (m1, acts, Access::PageFault(f)),
            },
            _ => (m1, acts, r),
        }
    }
}

/// Whether a run of physical stores ended with a refusal.
pub open spec fn refused(acts: Seq<Stored>) -> bool {
    acts.len() > 0 && acts.last() == Stored::Refused
}

/// Once a prefix of a multi-byte load is refused, so is the whole.
proof fn lemma_word_none(m: MemoryView, d: DeviceBytesView, a: u32, k: nat, n: nat)
    requires
        k <= n,
        word_spec(m, d, a, k) is None,
    ensures
        word_spec(m, d, a, n) is None,
    decreases n - k,
{
    if k < n {
        lemma_word_none(m, d, a, k, (n - 1) as nat);
    }
}

/// Once a prefix of a virtual load fails, the whole fails the same way.
proof fn lemma_load_virtual_stuck(m: MemoryView, d: DeviceBytesView, pdpr: u32, a: u32, k: nat, n: nat, intent: Intent)
    requires
        k <= n,
        !(load_virtual_view(m, d, pdpr, a, k, intent) is Done),
    ensures
        load_virtual_view(m, d, pdpr, a, n, intent) == load_virtual_view(m, d, pdpr, a, k, intent),
    decreases n - k,
{
    if k < n {
        lemma_load_virtual_stuck(m, d, pdpr, a, k, (n - 1) as nat, intent);
    }
}

/// Once a store of a prefix is refused, the stores of the whole stop there.
proof fn lemma_store_stuck(m: MemoryView, a: u32, bytes: Seq<u8>, k: int)
    requires
        0 <= k <= bytes.len(),
        refused(store_bytes_view(m, a, bytes.take(k)).1),
    ensures
        store_bytes_view(m, a, bytes) == store_bytes_view(m, a, bytes.take(k)),
    decreases bytes.len() - k,
{
    if k < bytes.len() {
        assert(bytes.drop_last().take(k) =~= bytes.take(k));
        lemma_store_stuck(m, a, bytes.drop_last(), k);
    } else {
        assert(bytes.take(k) =~= bytes);
    }
}

/// Once virtual stores of a prefix fail, the stores of the whole stop there.
proof fn lemma_store_virtual_stuck(m: MemoryView, d: DeviceBytesView, pdpr: u32, a: u32, bytes: Seq<u8>, k: int)
    requires
        0 <= k <= bytes.len(),
        !(store_virtual_view(m, d, pdpr, a, bytes.take(k)).2 is Done),
    ensures
        store_virtual_view(m, d, pdpr, a, bytes) == store_virtual_view(m, d, pdpr, a, bytes.take(k)),
    decreases bytes.len() - k,
{
    if k < bytes.len() {
        assert(bytes.drop_last().take(k) =~= bytes.take(k));
        lemma_store_virtual_stuck(m, d, pdpr, a, bytes.drop_last(), k);
    } else {
        assert(bytes.take(k) =~= bytes);
    }
}

/// The byte a physical load reads, as `byte_spec` says.
pub fn read_byte(mem: &Memory, dev: &DeviceBytes, a: u32) -> (r: Option<u8>)
    requires
        mem.wf(),
        devices_wf(dev@),
    ensures
        r == byte_spec(mem@, dev@, a),
{
    match mem.load_physical_8(a) {
        Loaded::Value(v) => Some(v),
        Loaded::Refused => None,
        Loaded::Device(d, o) => {
            assert(load_target_spec(a) == Some((d, o)));
            match d {
                Device::Keyboard => Some(dev.keyboard[o as usize]),
                Device::DiskAControl => Some(dev.disk_a_control[o as usize]),
                Device::DiskBControl => Some(dev.disk_b_control[o as usize]),
                Device::DiskAData => Some(dev.disk_a_data[o as usize]),
                Device::DiskBData => Some(dev.disk_b_data[o as usize]),
                _ => Some(0),
            }
        },
    }
}

impl Memory {
    /// `n` bytes from physical address `a` as a big-endian number, as
    /// `word_spec` says.
    fn load_word(&self, dev: &DeviceBytes, a: u32, n: u32) -> (r: Option<u32>)
        requires
            self.wf(),
            devices_wf(dev@),
            1 <= n <= 4,
            a + n - 1 <= u32::MAX,
        ensures
            match word_spec(self@, dev@, a, n as nat) {
                Some(w) => r == Some(w as u32) && w == r->0 as int,
                None => r is None,
            },
    {
        proof {
            reveal_with_fuel(max_of_bytes, 5);
        }
        assert(max_of_bytes(3) == 0xFF_FFFF);
        let mut w: u32 = 0;
        let mut i: u32 = 0;
        while i < n
            invariant
                i <= n <= 4,
                a + n - 1 <= u32::MAX,
                self.wf(),
                devices_wf(dev@),
                word_spec(self@, dev@, a, i as nat) == Some(w as int),
                w as int <= max_of_bytes(i as nat),
                max_of_bytes(3) == 0xFF_FFFF,
            decreases n - i,
        {
            proof {
                reveal_with_fuel(max_of_bytes, 5);
            }
            assert(w as int <= 0xFF_FFFF) by {
                if i == 0 {
                } else if i == 1 {
                } else if i == 2 {
                } else {
                }
            }
            let b = match read_byte(self, dev, a + i) {
                Some(b) => b,
                None => {
                    proof {
                        assert(word_spec(self@, dev@, a, (i + 1) as nat) is None);
                        lemma_word_none(self@, dev@, a, (i + 1) as nat, n as nat);
                    }
                    return None;
                },
            };
            w = w * 256 + b as u32;
            i = i + 1;
        }
        Some(w)
    }

    /// A big-endian 16-bit physical load, as `word_spec` says.
    pub fn load_physical_16(&self, dev: &DeviceBytes, address: u32) -> (r: Option<u16>)
        requires
            self.wf(),
            devices_wf(dev@),
            address + 1 <= u32::MAX,
        ensures
            match word_spec(self@, dev@, address, 2) {
                Some(w) => r == Some(w as u16),
                None => r is None,
            },
    {
        proof {
            reveal_with_fuel(max_of_bytes, 3);
        }
        match self.load_word(dev, address, 2) {
            Some(w) => {
                assert(w <= 0xFFFF) by {
                    reveal_with_fuel(word_spec, 3);
                }
                Some(w as u16)
            },
            None => None,
        }
    }

    /// A big-endian 32-bit physical load, as `word_spec` says.
    pub fn load_physical_32(&self, dev: &DeviceBytes, address: u32) -> (r: Option<u32>)
        requires
            self.wf(),
            devices_wf(dev@),
            address + 3 <= u32::MAX,
        ensures
            match word_spec(self@, dev@, address, 4) {
                Some(w) => r == Some(w as u32),
                None => r is None,
            },
    {
        self.load_word(dev, address, 4)
    }

    /// Translate a virtual address through the page tables, as
    /// `translate_view` says.
    pub fn virtual_to_physical_address(&self, dev: &DeviceBytes, pdpr: u32, vaddr: u32, intent: Intent) -> (r: Access<u32>)
        requires
            self.wf(),
            devices_wf(dev@),
            pdpr + 4 * directory_index(vaddr) + 3 <= u32::MAX,
        ensures
            r == translate_view(self@, dev@, pdpr, vaddr, intent),
    {
        let dea = directory_entry_address(pdpr, vaddr);
        let de = match self.load_word(dev, dea, 4) {
            None => return Access::Illegal,
            Some(x) => x,
        };
        let tea = match table_entry_address(de, vaddr) {
            Err(f) => return Access::PageFault(f),
            Ok(t) => t,
        };
        assert(frame_of(de) <= 0xFFFF_F000);
        let pe = match self.load_word(dev, tea, 4) {
            None => return Access::Illegal,
            Some(x) => x,
        };
        match translate(vaddr, intent, pe) {
            Err(f) => Access::PageFault(f),
            Ok(p) => Access::Done(p),
        }
    }

    /// A virtual load of `n` bytes as a big-endian number, as
    /// `load_virtual_view` says.
    fn load_virtual(&self, dev: &DeviceBytes, pdpr: u32, a: u32, n: u32, intent: Intent) -> (r: Access<u32>)
        requires
            self.wf(),
            devices_wf(dev@),
            1 <= n <= 4,
            a + n - 1 <= u32::MAX,
            directory_fits(pdpr, a, n as nat),
        ensures
            match load_virtual_view(self@, dev@, pdpr, a, n as nat, intent) {
                Access::Done(w) => r == Access::Done(w as u32) && w == r->Done_0 as int,
                Access::Illegal => r == Access::<u32>::Illegal,
                Access::PageFault(f) => r == Access::<u32>::PageFault(f),
            },
    {
        proof {
            reveal_with_fuel(max_of_bytes, 5);
        }
        let mut w: u32 = 0;
        let mut i: u32 = 0;
        while i < n
            invariant
                i <= n <= 4,
                a + n - 1 <= u32::MAX,
                self.wf(),
                devices_wf(dev@),
                directory_fits(pdpr, a, n as nat),
                load_virtual_view(self@, dev@, pdpr, a, i as nat, intent) == Access::Done(w as int),
                w as int <= max_of_bytes(i as nat),
                max_of_bytes(3) == 0xFF_FFFF,
            decreases n - i,
        {
            proof {
                reveal_with_fuel(max_of_bytes, 5);
            }
            assert(w as int <= 0xFF_FFFF) by {
                if i == 0 {
                } else if i == 1 {
                } else if i == 2 {
                } else {
                }
            }
            assert(pdpr + 4 * directory_index(((a + (i as int)) as u32)) + 3 <= u32::MAX);
            let p = match self.virtual_to_physical_address(dev, pdpr, a + i, intent) {
                Access::Done(p) => p,
                Access::Illegal => {
                    proof {
                        lemma_load_virtual_stuck(self@, dev@, pdpr, a, (i + 1) as nat, n as nat, intent);
                    }
                    return Access::Illegal;
                },
                Access::PageFault(f) => {
                    proof {
                        lemma_load_virtual_stuck(self@, dev@, pdpr, a, (i + 1) as nat, n as nat, intent);
                    }
                    return Access::PageFault(f);
                },
            };
            let b = match read_byte(self, dev, p) {
                Some(b) => b,
                None => {
                    proof {
                        lemma_load_virtual_stuck(self@, dev@, pdpr, a, (i + 1) as nat, n as nat, intent);
                    }
                    return Access::Illegal;
                },
            };
            w = w * 256 + b as u32;
            i = i + 1;
        }
        Access::Done(w)
    }

    /// An 8-bit virtual load: for execution where it fetches an instruction,
    /// else for reading; as `load_virtual_view` says.
    pub fn load_virtual_8(&self, dev: &DeviceBytes, pdpr: u32, address: u32, is_fetch: bool) -> (r: Access<u8>)
        requires
            self.wf(),
            devices_wf(dev@),
            directory_fits(pdpr, address, 1),
        ensures
            match load_virtual_view(self@, dev@, pdpr, address, 1, load_intent(is_fetch)) {
                Access::Done(w) => r == Access::Done(w as u8),
                Access::Illegal => r == Access::<u8>::Illegal,
                Access::PageFault(f) => r == Access::<u8>::PageFault(f),
            },
    {
        let intent = if is_fetch { Intent::Execute } else { Intent::Read };
        proof {
            reveal_with_fuel(max_of_bytes, 2);
            reveal_with_fuel(load_virtual_view, 2);
        }
        match self.load_virtual(dev, pdpr, address, 1, intent) {
            Access::Done(w) => {
                assert(w <= 0xFF);
                Access::Done(w as u8)
            },
            Access::Illegal => Access::Illegal,
            Access::PageFault(f) => Access::PageFault(f),
        }
    }

    /// A big-endian 16-bit virtual load, as `load_virtual_view` says.
    pub fn load_virtual_16(&self, dev: &DeviceBytes, pdpr: u32, address: u32, is_fetch: bool) -> (r: Access<u16>)
        requires
            self.wf(),
            devices_wf(dev@),
            address + 1 <= u32::MAX,
            directory_fits(pdpr, address, 2),
        ensures
            match load_virtual_view(self@, dev@, pdpr, address, 2, load_intent(is_fetch)) {
                Access::Done(w) => r == Access::Done(w as u16),
                Access::Illegal => r == Access::<u16>::Illegal,
                Access::PageFault(f) => r == Access::<u16>::PageFault(f),
            },
    {
        let intent = if is_fetch { Intent::Execute } else { Intent::Read };
        proof {
            reveal_with_fuel(load_virtual_view, 3);
        }
        match self.load_virtual(dev, pdpr, address, 2, intent) {
            Access::Done(w) => {
                assert(w <= 0xFFFF);
                Access::Done(w as u16)
            },
            Access::Illegal => Access::Illegal,
            Access::PageFault(f) => Access::PageFault(f),
        }
    }

    /// A big-endian 32-bit virtual load, as `load_virtual_view` says.
    pub fn load_virtual_32(&self, dev: &DeviceBytes, pdpr: u32, address: u32, is_fetch: bool) -> (r: Access<u32>)
        requires
            self.wf(),
            devices_wf(dev@),
            address + 3 <= u32::MAX,
            directory_fits(pdpr, address, 4),
        ensures
            match load_virtual_view(self@, dev@, pdpr, address, 4, load_intent(is_fetch)) {
                Access::Done(w) => r == Access::Done(w as u32),
                Access::Illegal => r == Access::<u32>::Illegal,
                Access::PageFault(f) => r == Access::<u32>::PageFault(f),
            },
    {
        let intent = if is_fetch { Intent::Execute } else { Intent::Read };
        self.load_virtual(dev, pdpr, address, 4, intent)
    }

    /// Physical stores of `bytes` from `a` on, as `store_bytes_view` says:
    /// what each did, the last a refusal where one stopped them.
    pub(crate) fn store_bytes(&mut self, a: u32, bytes: &Vec<u8>) -> (acts: Vec<Stored>)
        requires
            old(self).wf(),
            bytes@.len() >= 1,
            a + bytes@.len() - 1 <= u32::MAX,
        ensures
            final(self).wf(),
            (final(self)@, acts@) == store_bytes_view(old(self)@, a, bytes@),
    {
        let mut acts: Vec<Stored> = Vec::new();
        let mut i: usize = 0;
        assert(bytes@.take(0) =~= Seq::<u8>::empty());
        while i < bytes.len()
            invariant
                i <= bytes@.len(),
                a + bytes@.len() - 1 <= u32::MAX,
                self.wf(),
                (self@, acts@) == store_bytes_view(old(self)@, a, bytes@.take(i as int)),
                !refused(acts@),
            decreases bytes@.len() - i,
        {
            assert(bytes@.take(i + 1).drop_last() =~= bytes@.take(i as int));
            let st = self.store_physical_8(a + i as u32, bytes[i]);
            acts.push(st);
            if let Stored::Refused = st {
                proof {
                    lemma_store_stuck(old(self)@, a, bytes@, i + 1);
                }
                return acts;
            }
            i = i + 1;
        }
        assert(bytes@.take(i as int) =~= bytes@);
        acts
    }

    /// A big-endian 16-bit physical store, as `store_bytes_view` says.
    pub fn store_physical_16(&mut self, address: u32, value: u16) -> (acts: Vec<Stored>)
        requires
            old(self).wf(),
            address + 1 <= u32::MAX,
        ensures
            final(self).wf(),
            (final(self)@, acts@) == store_bytes_view(old(self)@, address, be_u16_bytes(value)),
    {
        let b = u16_to_be(value);
        let v: Vec<u8> = vec![b[0], b[1]];
        assert(v@ =~= be_u16_bytes(value));
        self.store_bytes(address, &v)
    }

    /// A big-endian 32-bit physical store, as `store_bytes_view` says.
    pub fn store_physical_32(&mut self, address: u32, value: u32) -> (acts: Vec<Stored>)
        requires
            old(self).wf(),
            address + 3 <= u32::MAX,
        ensures
            final(self).wf(),
            (final(self)@, acts@) == store_bytes_view(old(self)@, address, be_u32_bytes(value)),
    {
        let b = u32_to_be(value);
        let v: Vec<u8> = vec![b[0], b[1], b[2], b[3]];
        assert(v@ =~= be_u32_bytes(value));
        self.store_bytes(address, &v)
    }

    /// Virtual stores of `bytes` from `a` on, as `store_virtual_view` says.
    pub(crate) fn store_virtual(&mut self, dev: &DeviceBytes, pdpr: u32, a: u32, bytes: &Vec<u8>) -> (r: (Vec<Stored>, Access<()>))
        requires
            old(self).wf(),
            devices_wf(dev@),
            bytes@.len() >= 1,
            a + bytes@.len() - 1 <= u32::MAX,
            directory_fits(pdpr, a, bytes@.len()),
        ensures
            final(self).wf(),
            (final(self)@, r.0@, r.1) == store_virtual_view(old(self)@, dev@, pdpr, a, bytes@),
    {
        let mut acts: Vec<Stored> = Vec::new();
        let mut i: usize = 0;
        assert(bytes@.take(0) =~= Seq::<u8>::empty());
        while i < bytes.len()
            invariant
                i <= bytes@.len(),
                a + bytes@.len() - 1 <= u32::MAX,
                self.wf(),
                devices_wf(dev@),
                directory_fits(pdpr, a, bytes@.len()),
                (self@, acts@, Access::<()>::Done(())) == store_virtual_view(old(self)@, dev@, pdpr, a, bytes@.take(i as int)),
            decreases bytes@.len() - i,
        {
            assert(bytes@.take(i + 1).drop_last() =~= bytes@.take(i as int));
            assert(pdpr + 4 * directory_index(((a + (i as int)) as u32)) + 3 <= u32::MAX);
            match self.virtual_to_physical_address(dev, pdpr, a + i as u32, Intent::Write) {
                Access::Done(p) => {
                    let st = self.store_physical_8(p, bytes[i]);
                    acts.push(st);
                    if let Stored::Refused = st {
                        proof {
                            lemma_store_virtual_stuck(old(self)@, dev@, pdpr, a, bytes@, i + 1);
                        }
                        return (acts, Access::Illegal);
                    }
                },
                Access::Illegal => {
                    proof {
                        lemma_store_virtual_stuck(old(self)@, dev@, pdpr, a, bytes@, i + 1);
                    }
                    return (acts, Access::Illegal);
                },
                Access::PageFault(f) => {
                    proof {
                        lemma_store_virtual_stuck(old(self)@, dev@, pdpr, a, bytes@, i + 1);
                    }
                    return (acts, Access::PageFault(f));
                },
            }
            i = i + 1;
        }
        assert(bytes@.take(i as int) =~= bytes@);
        (acts, Access::Done(()))
    }

    /// An 8-bit virtual store, as `store_virtual_view` says.
    pub fn store_virtual_8(&mut self, dev: &DeviceBytes, pdpr: u32, address: u32, value: u8) -> (r: (Vec<Stored>, Access<()>))
        requires
            old(self).wf(),
            devices_wf(dev@),
            directory_fits(pdpr, address, 1),
        ensures
            final(self).wf(),
            (final(self)@, r.0@, r.1) == store_virtual_view(old(self)@, dev@, pdpr, address, seq![value]),
    {
        let v: Vec<u8> = vec![value];
        assert(v@ =~= seq![value]);
        self.store_virtual(dev, pdpr, address, &v)
    }

    /// A big-endian 16-bit virtual store, as `store_virtual_view` says.
    pub fn store_virtual_16(&mut self, dev: &DeviceBytes, pdpr: u32, address: u32, value: u16) -> (r: (Vec<Stored>, Access<()>))
        requires
            old(self).wf(),
            devices_wf(dev@),
            address + 1 <= u32::MAX,
            directory_fits(pdpr, address, 2),
        ensures
            final(self).wf(),
            (final(self)@, r.0@, r.1) == store_virtual_view(old(self)@, dev@, pdpr, address, be_u16_bytes(value)),
    {
        let b = u16_to_be(value);
        let v: Vec<u8> = vec![b[0], b[1]];
        assert(v@ =~= be_u16_bytes(value));
        self.store_virtual(dev, pdpr, address, &v)
    }

    /// A big-endian 32-bit virtual store, as `store_virtual_view` says.
    pub fn store_virtual_32(&mut self, dev: &DeviceBytes, pdpr: u32, address: u32, value: u32) -> (r: (Vec<Stored>, Access<()>))
        requires
            old(self).wf(),
            devices_wf(dev@),
            address + 3 <= u32::MAX,
            directory_fits(pdpr, address, 4),
        ensures
            final(self).wf(),
            (final(self)@, r.0@, r.1) == store_virtual_view(old(self)@, dev@, pdpr, address, be_u32_bytes(value)),
    {
        let b = u32_to_be(value);
        let v: Vec<u8> = vec![b[0], b[1], b[2], b[3]];
        assert(v@ =~= be_u32_bytes(value));
        self.store_virtual(dev, pdpr, address, &v)
    }
}

/// A 32-bit physical store to the RAM is read back by a 32-bit physical
/// load from the same address, whatever the devices hold.
pub proof fn lemma_word_read_after_write(m: MemoryView, d: DeviceBytesView, a: u32, v: u32)
    requires
        m.interrupt_vector.len() == 32,
        m.rom.len() == ROM_SIZE,
        m.ram.len() == RAM_SIZE,
        BEGIN_RAM <= a,
        a + 3 <= u32::MAX,
    ensures
        store_bytes_view(m, a, be_u32_bytes(v)).1 == seq![Stored::Memory, Stored::Memory, Stored::Memory, Stored::Memory],
        word_spec(store_bytes_view(m, a, be_u32_bytes(v)).0, d, a, 4) == Some(v as int),
{
    reveal_with_fuel(store_bytes_view, 5);
    reveal_with_fuel(word_spec, 5);
    let bs = be_u32_bytes(v);
    assert(bs.drop_last().drop_last().drop_last().drop_last() =~= Seq::<u8>::empty());
    let m4 = store_bytes_view(m, a, bs).0;
    assert(v as int == ((bs[0] as int * 256 + bs[1] as int) * 256 + bs[2] as int) * 256 + bs[3] as int) by {
        assert(v == (v / 16777216) * 16777216 + ((v / 65536) % 256) * 65536 + ((v / 256) % 256) * 256 + v % 256)
            by (nonlinear_arith);
    }
}

} // verus!
