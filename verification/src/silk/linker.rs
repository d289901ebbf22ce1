//! Combining object files and linking them into ROM and disk images.
//!
//! Address arithmetic on section starts, symbol values and references wraps
//! at 32 bits, as the unchecked additions of a release build do.
use vstd::prelude::*;
use crate::bytes::{be_u32_bytes, u32_to_be};
use crate::silk::data::{
    sections_ordered, section_holds, FLAG_ENTRYPOINT, FLAG_EXECUTE, FLAG_WRITE, INVALID_FLAGS,
    ROM_BASE, ROM_SIZE, DISK_ALIGN, DISK_BASE, find_name, lemma_find_name, names_unique, EntryView, ObjectFile, ObjectFileView, OFError,
    OFErrorKind, Section, SectionView, SymbolRecord, SymbolTable, record_views, section_views, SymbolTableEntry,
    SYMBOL_TYPE_EXTERNAL, SYMBOL_TYPE_INTERNAL, SYMBOL_TYPE_PUBLIC,
};
use crate::text::{decimal, decimal_bytes};

verus! {

/// 32-bit addition that wraps around.
pub open spec fn wadd(a: u32, b: u32) -> u32 {
    if a + b > u32::MAX {
        (a + b - 0x1_0000_0000) as u32
    } else {
        (a + b) as u32
    }
}

/// The address just past the last section: where the next object file's
/// sections are placed.
pub open spec fn end_offset(secs: Seq<SectionView>) -> u32 {
    if secs.len() == 0 {
        0
    } else {
        wadd(secs.last().start, secs.last().length)
    }
}

/// Sections moved up by `offset`.
pub open spec fn shift_sections(secs: Seq<SectionView>, offset: u32) -> Seq<SectionView> {
    secs.map_values(|s: SectionView| SectionView { start: wadd(s.start, offset), ..s })
}

/// A symbol entry moved up by `offset`: its value and references.
pub open spec fn shift_entry(e: EntryView, offset: u32) -> EntryView {
    EntryView {
        symbol_type: e.symbol_type,
        value: match e.value {
            Some(v) => Some(wadd(v, offset)),
            None => None,
        },
        references: e.references.map_values(|r: u32| wadd(r, offset)),
    }
}

/// The smallest suffix from `k` on (up to `u32::MAX`) that, appended in
/// decimal to `base`, gives a name not in `table`.
pub open spec fn free_suffix(table: Seq<(Seq<u8>, EntryView)>, base: Seq<u8>, k: nat) -> Option<nat>
    decreases 0x1_0000_0000 - k,
{
    if k > u32::MAX {
        None
    } else if find_name(table, base + decimal(k)) is None {
        Some(k)
    } else {
        free_suffix(table, base, k + 1)
    }
}

/// The name that renaming `base` gives: `base` followed by the smallest
/// decimal suffix that is not yet taken.
pub open spec fn fresh_name(table: Seq<(Seq<u8>, EntryView)>, base: Seq<u8>) -> Option<Seq<u8>> {
    match free_suffix(table, base, 0) {
        Some(k) => Some(base + decimal(k)),
        None => None,
    }
}

/// What adding symbols to a table comes to: the new table, an error with the
/// name it concerns, or two external symbols of one name meeting (which the
/// linker cannot handle).
pub enum AddOutcome {
    Done(Seq<(Seq<u8>, EntryView)>),
    Fail(OFErrorKind, Seq<u8>),
    Clash,
}

/// Add one (already relocated) symbol to a table.
pub open spec fn add_one(table: Seq<(Seq<u8>, EntryView)>, name: Seq<u8>, e: EntryView) -> AddOutcome {
    match find_name(table, name) {
        None => AddOutcome::Done(table.push((name, e))),
        Some(j) => {
            let ex = table[j].1;
            if e.symbol_type == SYMBOL_TYPE_INTERNAL {
                match fresh_name(table, name) {
                    None => AddOutcome::Fail(OFErrorKind::RenameFailed, name),
                    Some(n) => AddOutcome::Done(table.push((n, e))),
                }
            } else if ex.symbol_type == SYMBOL_TYPE_INTERNAL {
                match fresh_name(table, name) {
                    None => AddOutcome::Fail(OFErrorKind::RenameFailed, name),
                    Some(n) => AddOutcome::Done(table.update(j, (n, ex)).push((name, e))),
                }
            } else if e.symbol_type == SYMBOL_TYPE_EXTERNAL && ex.symbol_type == SYMBOL_TYPE_PUBLIC {
                AddOutcome::Done(
                    table.update(j, (name, EntryView { references: ex.references + e.references, ..ex })),
                )
            } else if e.symbol_type == SYMBOL_TYPE_PUBLIC && ex.symbol_type == SYMBOL_TYPE_EXTERNAL {
                AddOutcome::Done(
                    table.update(
                        j,
                        (
                            name,
                            EntryView {
                                symbol_type: SYMBOL_TYPE_PUBLIC,
                                value: e.value,
                                references: ex.references + e.references,
                            },
                        ),
                    ),
                )
            } else if e.symbol_type == SYMBOL_TYPE_PUBLIC && ex.symbol_type == SYMBOL_TYPE_PUBLIC {
                AddOutcome::Fail(OFErrorKind::MultipleDefinitions, name)
            } else {
                AddOutcome::Clash
            }
        },
    }
}

/// Add the symbols `syms[i..]`, each moved up by `offset`, one after another.
pub open spec fn add_from(
    table: Seq<(Seq<u8>, EntryView)>,
    syms: Seq<(Seq<u8>, EntryView)>,
    offset: u32,
    i: nat,
) -> AddOutcome
    decreases syms.len() - i,
{
    if i >= syms.len() {
        AddOutcome::Done(table)
    } else {
        match add_one(table, syms[i as int].0, shift_entry(syms[i as int].1, offset)) {
            AddOutcome::Done(t) => add_from(t, syms, offset, i + 1),
            other => other,
        }
    }
}

/// The symbol table of combining `l` with `of`.
pub open spec fn add_spec(l: ObjectFileView, of: ObjectFileView) -> AddOutcome {
    add_from(l.symbols, of.symbols, end_offset(l.sections), 0)
}

/// Find a fresh name for `base`: `base` followed by the smallest decimal
/// number that makes a name not yet in the table.
pub fn gen_non_conflicting_name(table: &SymbolTable, base: &[u8]) -> (r: Result<Vec<u8>, OFError>)
    ensures
        match fresh_name(table@, base@) {
            Some(n) => r matches Ok(v) && v@ == n,
            None => r matches Err(e) && e.kind == OFErrorKind::RenameFailed && e.symbol@ == base@,
        },
{
    let mut suffix: u64 = 0;
    while suffix <= 0xFFFF_FFFF
        invariant
            suffix <= 0x1_0000_0000,
            free_suffix(table@, base@, 0) == free_suffix(table@, base@, suffix as nat),
        decreases 0x1_0000_0000 - suffix,
    {
        let mut candidate: Vec<u8> = crate::bytes::copy_bytes(base);
        let digits = decimal_bytes(suffix);
        crate::bytes::extend_bytes(&mut candidate, digits.as_slice());
        assert(candidate@ == base@ + decimal(suffix as nat));
        proof {
            lemma_find_name(table@, candidate@);
        }
        if !table.contains(candidate.as_slice()) {
            return Ok(candidate);
        }
        suffix = suffix + 1;
    }
    Err(OFError::with_symbol(OFErrorKind::RenameFailed, crate::bytes::copy_bytes(base)))
}

/// Add one relocated symbol to a table, as `add_one` says, reporting a clash
/// of two external symbols as `Ok(false)`.
fn merge_one(table: &mut SymbolTable, name: Vec<u8>, entry: SymbolTableEntry) -> (r: Result<bool, OFError>)
    ensures
        match add_one(old(table)@, name@, entry@) {
            AddOutcome::Done(t) => r == Ok::<bool, OFError>(true) && final(table)@ == t,
            AddOutcome::Fail(kind, n) => r matches Err(e) && e.kind == kind && e.symbol@ == n,
            AddOutcome::Clash => r == Ok::<bool, OFError>(false),
        },
{
    proof {
        lemma_find_name(table@, name@);
    }
    match table.find(name.as_slice()) {
        None => {
            table.push(name, entry);
            Ok(true)
        },
        Some(j) => {
            let ex_type = table.get(j).entry.symbol_type;
            if entry.symbol_type == SYMBOL_TYPE_INTERNAL {
                let n = match gen_non_conflicting_name(table, name.as_slice()) {
                    Ok(n) => n,
                    Err(e) => return Err(e),
                };
                table.push(n, entry);
                Ok(true)
            } else if ex_type == SYMBOL_TYPE_INTERNAL {
                let n = match gen_non_conflicting_name(table, name.as_slice()) {
                    Ok(n) => n,
                    Err(e) => return Err(e),
                };
                table.rename(j, n);
                table.push(name, entry);
                Ok(true)
            } else if entry.symbol_type == SYMBOL_TYPE_EXTERNAL && ex_type == SYMBOL_TYPE_PUBLIC {
                let ex_value = table.get(j).entry.value;
                table.absorb(j, ex_type, ex_value, entry.references);
                Ok(true)
            } else if entry.symbol_type == SYMBOL_TYPE_PUBLIC && ex_type == SYMBOL_TYPE_EXTERNAL {
                table.absorb(j, SYMBOL_TYPE_PUBLIC, entry.value, entry.references);
                Ok(true)
            } else if entry.symbol_type == SYMBOL_TYPE_PUBLIC && ex_type == SYMBOL_TYPE_PUBLIC {
                Err(OFError::with_symbol(OFErrorKind::MultipleDefinitions, name))
            } else {
                Ok(false)
            }
        },
    }
}

/// Move an entry up by `offset`.
fn shift_symbol_entry(entry: SymbolTableEntry, offset: u32) -> (r: SymbolTableEntry)
    ensures
        r@ == shift_entry(entry@, offset),
{
    let mut refs = entry.references;
    let ghost orig = refs@;
    let mut k: usize = 0;
    while k < refs.len()
        invariant
            k <= refs@.len(),
            refs@.len() == orig.len(),
            forall|m: int| 0 <= m < k ==> refs@[m] == wadd(#[trigger] orig[m], offset),
            forall|m: int| k <= m < refs@.len() ==> refs@[m] == orig[m],
        decreases refs@.len() - k,
    {
        let v = refs[k].wrapping_add(offset);
        refs.set(k, v);
        k = k + 1;
    }
    let value = match entry.value {
        Some(v) => Some(v.wrapping_add(offset)),
        None => None,
    };
    let r = SymbolTableEntry { symbol_type: entry.symbol_type, value, references: refs };
    assert(r@.references =~= orig.map_values(|x: u32| wadd(x, offset)));
    r
}

/// Add symbols moved up by `offset` to a table, as `add_from` says,
/// reporting a clash as `Ok(false)`.
fn merge_symbols(table: &mut SymbolTable, records: Vec<SymbolRecord>, offset: u32) -> (r: Result<bool, OFError>)
    ensures
        match add_from(old(table)@, record_views(records@), offset, 0) {
            AddOutcome::Done(t) => r == Ok::<bool, OFError>(true) && final(table)@ == t,
            AddOutcome::Fail(kind, n) => r matches Err(e) && e.kind == kind && e.symbol@ == n,
            AddOutcome::Clash => r == Ok::<bool, OFError>(false),
        },
{
    let ghost syms = record_views(records@);
    let ghost t0 = table@;
    let mut rest = records;
    let mut i: usize = 0;
    let total = rest.len();
    let ghost n = syms.len();
    while rest.len() > 0
        invariant
            i + rest@.len() == n,
            n == syms.len(),
            n == total,
            record_views(rest@) == syms.subrange(i as int, n as int),
            t0 == old(table)@,
            syms == record_views(records@),
            add_from(t0, syms, offset, 0) == add_from(table@, syms, offset, i as nat),
        decreases rest@.len(),
    {
        let ghost before = rest@;
        let rec = rest.remove(0);
        assert(record_views(before)[0] == syms.subrange(i as int, n as int)[0]);
        assert(rec@ == syms[i as int]);
        let SymbolRecord { name, entry } = rec;
        let shifted = shift_symbol_entry(entry, offset);
        let ghost tb = table@;
        let res = merge_one(table, name, shifted);
        proof {
            assert(i < syms.len());
            assert(shifted@ == shift_entry(syms[i as int].1, offset));
            assert(add_from(tb, syms, offset, i as nat) == match add_one(tb, syms[i as int].0, shift_entry(syms[i as int].1, offset)) {
                AddOutcome::Done(t) => add_from(t, syms, offset, (i + 1) as nat),
                other => other,
            });
        }
        match res {
            Ok(true) => {},
            _ => {
                proof {
                    match add_one(tb, syms[i as int].0, shift_entry(syms[i as int].1, offset)) {
                        AddOutcome::Done(t) => {},
                        AddOutcome::Fail(kind, nm) => {
                            assert(add_from(t0, syms, offset, 0) == AddOutcome::Fail(kind, nm));
                        },
                        AddOutcome::Clash => {
                            assert(add_from(t0, syms, offset, 0) == AddOutcome::Clash);
                        },
                    }
                }
                return res;
            },
        }
        assert forall|k: int| 0 <= k < rest@.len() implies #[trigger] rest@[k]@ == syms[i + 1 + k] by {
            assert(rest@[k] == before[k + 1]);
            assert(record_views(before)[k + 1] == syms.subrange(i as int, n as int)[k + 1]);
        }
        assert(record_views(rest@) =~= syms.subrange(i + 1, n as int));
        i = i + 1;
    }
    Ok(true)
}


/// A linker: the object file that the files added so far combine into.
#[derive(Debug)]
pub struct Linker {
    data: ObjectFile,
}

impl View for Linker {
    type V = ObjectFileView;

    closed spec fn view(&self) -> ObjectFileView {
        self.data@
    }
}

impl Linker {
    /// A linker with nothing in it.
    pub fn new() -> (r: Self)
        ensures
            r@.symbols == Seq::<(Seq<u8>, EntryView)>::empty(),
            r@.sections == Seq::<SectionView>::empty(),
    {
        let r = Linker { data: ObjectFile { symbols: SymbolTable::new(), sections: Vec::new() } };
        assert(r@.sections =~= Seq::<SectionView>::empty());
        r
    }

    /// A linker that starts from the given object file.
    pub fn from(of: ObjectFile) -> (r: Self)
        ensures
            r@ == of@,
    {
        Linker { data: of }
    }

    /// The object file combined so far.
    pub fn object(&self) -> (r: &ObjectFile)
        ensures
            r@ == self@,
    {
        &self.data
    }

    /// Add an object file: its sections go after the present ones, moved up
    /// past them, and its symbols, moved likewise, are added one by one as
    /// `add_spec` says. The inputs on which two external symbols of one name
    /// would meet are left out.
    pub fn add(self, of: ObjectFile) -> (r: Result<Self, OFError>)
        requires
            !(add_spec(self@, of@) is Clash),
        ensures
            match add_spec(self@, of@) {
                AddOutcome::Done(t) => r matches Ok(l) && l@.symbols == t && l@.sections
                    == self@.sections + shift_sections(of@.sections, end_offset(self@.sections)),
                AddOutcome::Fail(kind, n) => r matches Err(e) && e.kind == kind && e.symbol@ == n,
                AddOutcome::Clash => false,
            },
    {
        match self.try_add(of) {
            Some(r) => r,
            None => {
                assert(false);
                Err(OFError::new(OFErrorKind::MultipleDefinitions))
            },
        }
    }

    /// `add`, or `None` where two external symbols of one name would meet.
    pub fn try_add(self, of: ObjectFile) -> (r: Option<Result<Self, OFError>>)
        ensures
            match add_spec(self@, of@) {
                AddOutcome::Done(t) => r matches Some(Ok(l)) && l@.symbols == t && l@.sections
                    == self@.sections + shift_sections(of@.sections, end_offset(self@.sections)),
                AddOutcome::Fail(kind, n) => r matches Some(Err(e)) && e.kind == kind && e.symbol@
                    == n,
                AddOutcome::Clash => r is None,
            },
    {
        let ghost old_secs = self@.sections;
        let ghost of_view = of@;
        let mut data = self.data;
        let offset: u32 = if data.sections.len() == 0 {
            0
        } else {
            let last = data.sections.len() - 1;
            data.sections[last].start.wrapping_add(data.sections[last].length)
        };
        assert(offset == end_offset(old_secs));
        let ObjectFile { symbols, sections } = of;
        let mut moved = sections;
        let ghost orig = section_views(moved@);
        let mut k: usize = 0;
        while k < moved.len()
            invariant
                k <= moved@.len(),
                moved@.len() == orig.len(),
                forall|m: int| 0 <= m < k ==> #[trigger] section_views(moved@)[m] == (SectionView {
                    start: wadd(orig[m].start, offset),
                    ..orig[m]
                }),
                forall|m: int| k <= m < moved@.len() ==> #[trigger] section_views(moved@)[m] == orig[m],
            decreases moved@.len() - k,
        {
            let ghost prev = moved@;
            assert(section_views(prev)[k as int] == orig[k as int]);
            let mut sec = moved.remove(k);
            sec.start = sec.start.wrapping_add(offset);
            let ghost sv = sec@;
            assert(sv == (SectionView { start: wadd(orig[k as int].start, offset), ..orig[k as int] }));
            moved.insert(k, sec);
            assert(moved@ =~= prev.update(k as int, moved@[k as int]));
            assert(section_views(moved@) =~= section_views(prev).update(k as int, sv));
            k = k + 1;
        }
        assert(section_views(moved@) =~= shift_sections(orig, offset));
        let ghost before = section_views(data.sections@);
        data.sections.append(&mut moved);
        assert(section_views(data.sections@) =~= before + shift_sections(orig, offset));
        match merge_symbols(&mut data.symbols, symbols.into_records(), offset) {
            Ok(true) => Some(Ok(Linker { data })),
            Ok(false) => None,
            Err(e) => Some(Err(e)),
        }
    }
}


/// The index of the entrypoint section, or the first problem with the
/// sections' flags, scanning from `i` with `found` the entrypoint seen so far.
pub open spec fn check_sections(
    secs: Seq<SectionView>,
    read_only: bool,
    i: nat,
    found: Option<nat>,
) -> Result<nat, OFErrorKind>
    decreases secs.len() - i,
{
    if i >= secs.len() {
        match found {
            Some(e) => Ok(e),
            None => Err(OFErrorKind::NoEntrypoint),
        }
    } else {
        let f = secs[i as int].flags;
        if f & INVALID_FLAGS != 0 {
            Err(OFErrorKind::InvalidSectionFlags)
        } else if read_only && f & FLAG_WRITE != 0 {
            Err(OFErrorKind::WritableInReadOnly)
        } else if f & FLAG_ENTRYPOINT != 0 {
            if f & FLAG_EXECUTE == 0 {
                Err(OFErrorKind::EntrypointNotExecutable)
            } else if found is Some {
                Err(OFErrorKind::MultipleEntrypoints)
            } else {
                check_sections(secs, read_only, i + 1, Some(i))
            }
        } else {
            check_sections(secs, read_only, i + 1, found)
        }
    }
}

/// Where an address goes when the entrypoint section, which spanned
/// `cutoff .. cutoff + offset`, moves to address zero and the sections before
/// it move up by `offset`.
pub open spec fn relocate(v: u32, cutoff: u32, offset: u32) -> u32 {
    if v < cutoff {
        wadd(v, offset)
    } else if v < cutoff + offset {
        (v - cutoff) as u32
    } else {
        v
    }
}

/// The sections with the entrypoint section `e` moved to the front at address
/// zero, and those before it moved up by its length.
pub open spec fn entry_layout(secs: Seq<SectionView>, e: int) -> Seq<SectionView> {
    seq![SectionView { start: 0, ..secs[e] }] + shift_sections(secs.subrange(0, e), secs[e].length)
        + secs.subrange(e + 1, secs.len() as int)
}

/// The index of the section that covers an address, where there is one.
pub open spec fn locate(l: Seq<SectionView>, a: u32) -> Option<int> {
    if exists|k: int| 0 <= k < l.len() && section_holds(#[trigger] l[k], a) {
        Some(choose|k: int| 0 <= k < l.len() && section_holds(#[trigger] l[k], a))
    } else {
        None
    }
}

/// Write `bytes` over the four zero bytes that address `a` points at in the
/// section data `datas` laid out as `l`; `None` where `a` is in no section, the
/// four bytes run past the section's data, or they are not all zero.
pub open spec fn patch_ref(datas: Seq<Seq<u8>>, l: Seq<SectionView>, a: u32, bytes: Seq<u8>) -> Option<Seq<Seq<u8>>> {
    match locate(l, a) {
        None => None,
        Some(k) => {
            let off = a - l[k].start;
            if off + 4 <= datas[k].len() && datas[k].subrange(off, off + 4) == seq![0u8, 0u8, 0u8, 0u8] {
                Some(datas.update(k, datas[k].subrange(0, off) + bytes + datas[k].subrange(off + 4, datas[k].len() as int)))
            } else {
                None
            }
        },
    }
}

/// Patch the references `refs[j..]`, each relocated, one after another.
pub open spec fn patch_refs(
    datas: Seq<Seq<u8>>,
    l: Seq<SectionView>,
    refs: Seq<u32>,
    j: nat,
    cutoff: u32,
    offset: u32,
    bytes: Seq<u8>,
) -> Option<Seq<Seq<u8>>>
    decreases refs.len() - j,
{
    if j >= refs.len() {
        Some(datas)
    } else {
        match patch_ref(datas, l, relocate(refs[j as int], cutoff, offset), bytes) {
            None => None,
            Some(d) => patch_refs(d, l, refs, j + 1, cutoff, offset, bytes),
        }
    }
}

/// What resolving the symbols comes to: the patched section data, the name of
/// an unresolved symbol, or a reference that the linker cannot patch.
pub enum PatchOutcome {
    Patched(Seq<Seq<u8>>),
    Unresolved(Seq<u8>),
    Invalid,
}

/// Resolve the symbols `syms[i..]` one after another: each must have a value,
/// which (relocated, plus `base`) is written at each of its references.
pub open spec fn patch_syms(
    datas: Seq<Seq<u8>>,
    l: Seq<SectionView>,
    syms: Seq<(Seq<u8>, EntryView)>,
    i: nat,
    cutoff: u32,
    offset: u32,
    base: u32,
) -> PatchOutcome
    decreases syms.len() - i,
{
    if i >= syms.len() {
        PatchOutcome::Patched(datas)
    } else {
        match syms[i as int].1.value {
            None => PatchOutcome::Unresolved(syms[i as int].0),
            Some(v) => {
                let bytes = be_u32_bytes(wadd(base, relocate(v, cutoff, offset)));
                match patch_refs(datas, l, syms[i as int].1.references, 0, cutoff, offset, bytes) {
                    None => PatchOutcome::Invalid,
                    Some(d) => patch_syms(d, l, syms, i + 1, cutoff, offset, base),
                }
            },
        }
    }
}

/// The data of each section.
pub open spec fn section_datas(l: Seq<SectionView>) -> Seq<Seq<u8>> {
    l.map_values(|s: SectionView| s.data)
}

/// The concatenation of byte sequences.
pub open spec fn concat_all(d: Seq<Seq<u8>>) -> Seq<u8>
    decreases d.len(),
{
    if d.len() == 0 {
        Seq::empty()
    } else {
        concat_all(d.drop_last()) + d.last()
    }
}

/// What linking comes to: an image, an error with the name it concerns, or
/// an input the linker cannot handle (a reference it cannot patch, or
/// sections that overlap once the entrypoint has moved to the front).
pub enum LinkOutcome {
    Image(Seq<u8>),
    Fail(OFErrorKind, Seq<u8>),
    Invalid,
}

/// Link an object file into an unpadded image loaded at `base`.
pub open spec fn link_spec(of: ObjectFileView, read_only: bool, base: u32) -> LinkOutcome {
    match check_sections(of.sections, read_only, 0, None) {
        Err(kind) => LinkOutcome::Fail(kind, Seq::empty()),
        Ok(e) => {
            let cutoff = of.sections[e as int].start;
            let offset = of.sections[e as int].length;
            let l = entry_layout(of.sections, e as int);
            if !sections_ordered(l) {
                LinkOutcome::Invalid
            } else {
                match patch_syms(section_datas(l), l, of.symbols, 0, cutoff, offset, base) {
                    PatchOutcome::Invalid => LinkOutcome::Invalid,
                    PatchOutcome::Unresolved(n) => LinkOutcome::Fail(OFErrorKind::UnresolvedSymbol, n),
                    PatchOutcome::Patched(d) => if concat_all(d).len() == 0 {
                        LinkOutcome::Fail(OFErrorKind::EmptyImage, Seq::empty())
                    } else {
                        LinkOutcome::Image(concat_all(d))
                    },
                }
            }
        },
    }
}

/// Move the element at `index` to the front, shifting those before it up by
/// one.
pub fn move_to_start(v: &mut Vec<Section>, index: usize)
    requires
        index < old(v)@.len(),
    ensures
        final(v)@ == seq![old(v)@[index as int]] + old(v)@.subrange(0, index as int) + old(v)@.subrange(
            index as int + 1,
            old(v)@.len() as int,
        ),
{
    let item = v.remove(index);
    v.insert(0, item);
    assert(v@ =~= seq![old(v)@[index as int]] + old(v)@.subrange(0, index as int) + old(v)@.subrange(
        index as int + 1,
        old(v)@.len() as int,
    ));
}


/// The views of a list of byte vectors.
pub open spec fn vec_views(v: Seq<Vec<u8>>) -> Seq<Seq<u8>> {
    v.map_values(|d: Vec<u8>| d@)
}

/// Two section lists with the same starts and lengths.
pub open spec fn same_spans(a: Seq<SectionView>, b: Seq<SectionView>) -> bool {
    a.len() == b.len() && forall|k: int|
        0 <= k < a.len() ==> #[trigger] a[k].start == b[k].start && a[k].length == b[k].length
}

/// In ordered sections, at most one covers an address.
proof fn lemma_locate_unique(l: Seq<SectionView>, a: u32, k: int)
    requires
        sections_ordered(l),
        0 <= k < l.len(),
        section_holds(l[k], a),
    ensures
        locate(l, a) == Some(k),
{
    let j = choose|j: int| 0 <= j < l.len() && section_holds(#[trigger] l[j], a);
    if j < k {
        assert(l[j].start + l[j].length <= l[k].start);
    } else if j > k {
        assert(l[k].start + l[k].length <= l[j].start);
    }
}

/// Adjacent sections in order make all of them ordered.
proof fn lemma_ordered_adjacent(l: Seq<SectionView>)
    requires
        forall|i: int| 0 <= i < l.len() - 1 ==> #[trigger] l[i].start + l[i].length <= l[i + 1].start,
    ensures
        sections_ordered(l),
    decreases l.len(),
{
    if l.len() > 1 {
        let d = l.drop_last();
        assert forall|i: int| 0 <= i < d.len() - 1 implies #[trigger] d[i].start + d[i].length <= d[i + 1].start by {
            assert(d[i] == l[i] && d[i + 1] == l[i + 1]);
        }
        lemma_ordered_adjacent(d);
        assert forall|i: int, j: int| 0 <= i < j < l.len() implies #[trigger] l[i].start + l[i].length <= #[trigger] l[j].start by {
            if j < l.len() - 1 {
                assert(d[i] == l[i] && d[j] == l[j]);
            } else if i < j - 1 {
                assert(d[i] == l[i] && d[j - 1] == l[j - 1]);
                assert(l[j - 1].start + l[j - 1].length <= l[j].start);
            }
        }
    }
}

/// Whether the sections are ordered and do not overlap.
fn sections_are_ordered(v: &Vec<Section>) -> (r: bool)
    ensures
        r == sections_ordered(section_views(v@)),
{
    let ghost l = section_views(v@);
    if v.len() == 0 {
        return true;
    }
    let mut i: usize = 0;
    while i < v.len() - 1
        invariant
            v@.len() > 0,
            l == section_views(v@),
            forall|m: int| 0 <= m < i && m < l.len() - 1 ==> #[trigger] l[m].start + l[m].length <= l[m + 1].start,
        decreases v@.len() - i,
    {
        if (v[i].start as u64) + (v[i].length as u64) > v[i + 1].start as u64 {
            assert(l[i as int].start + l[i as int].length > l[i + 1].start);
            return false;
        }
        i = i + 1;
    }
    proof {
        lemma_ordered_adjacent(l);
    }
    true
}

/// `relocate`, computed.
fn relocate_address(v: u32, cutoff: u32, offset: u32) -> (r: u32)
    ensures
        r == relocate(v, cutoff, offset),
{
    if v < cutoff {
        v.wrapping_add(offset)
    } else if (v as u64) < (cutoff as u64) + (offset as u64) {
        v - cutoff
    } else {
        v
    }
}

/// Write four bytes at `off` over four zero bytes; `false`, leaving the data
/// alone, where they run past the end or are not all zero.
fn patch_at(d: &mut Vec<u8>, off: u32, bytes: [u8; 4]) -> (r: bool)
    ensures
        r == (off + 4 <= old(d)@.len() && old(d)@.subrange(off as int, off + 4) == seq![0u8, 0u8, 0u8, 0u8]),
        r ==> final(d)@ == old(d)@.subrange(0, off as int) + bytes@ + old(d)@.subrange(
            off + 4,
            old(d)@.len() as int,
        ),
        !r ==> final(d)@ == old(d)@,
{
    let len = d.len();
    if (off as u64) + 4 > len as u64 {
        return false;
    }
    let o = off as usize;
    if !(d[o] == 0 && d[o + 1] == 0 && d[o + 2] == 0 && d[o + 3] == 0) {
        assert(old(d)@.subrange(off as int, off + 4)[0] == d@[o as int]);
        assert(old(d)@.subrange(off as int, off + 4)[1] == d@[o + 1]);
        assert(old(d)@.subrange(off as int, off + 4)[2] == d@[o + 2]);
        assert(old(d)@.subrange(off as int, off + 4)[3] == d@[o + 3]);
        return false;
    }
    assert(old(d)@.subrange(off as int, off + 4) =~= seq![0u8, 0u8, 0u8, 0u8]);
    d.set(o, bytes[0]);
    d.set(o + 1, bytes[1]);
    d.set(o + 2, bytes[2]);
    d.set(o + 3, bytes[3]);
    assert(d@ =~= old(d)@.subrange(0, off as int) + bytes@ + old(d)@.subrange(off + 4, old(d)@.len() as int));
    true
}


/// Check the sections' flags and find the entrypoint, as `check_sections`
/// says.
fn find_entrypoint(sections: &Vec<Section>, read_only: bool) -> (r: Result<usize, OFError>)
    ensures
        match check_sections(section_views(sections@), read_only, 0, None) {
            Ok(e) => r matches Ok(i) && i == e && e < sections@.len(),
            Err(kind) => r matches Err(err) && err.kind == kind && err.symbol@ == Seq::<u8>::empty(),
        },
{
    let ghost l = section_views(sections@);
    let mut found: Option<usize> = None;
    let mut i: usize = 0;
    while i < sections.len()
        invariant
            i <= sections@.len(),
            l == section_views(sections@),
            found matches Some(e) ==> e < i,
            check_sections(l, read_only, 0, None) == check_sections(
                l,
                read_only,
                i as nat,
                match found {
                    Some(e) => Some(e as nat),
                    None => None,
                },
            ),
        decreases sections@.len() - i,
    {
        let f = sections[i].flags;
        assert(f == l[i as int].flags);
        if f & INVALID_FLAGS != 0 {
            return Err(OFError::new(OFErrorKind::InvalidSectionFlags));
        }
        if read_only && f & FLAG_WRITE != 0 {
            return Err(OFError::new(OFErrorKind::WritableInReadOnly));
        }
        if f & FLAG_ENTRYPOINT != 0 {
            if f & FLAG_EXECUTE == 0 {
                return Err(OFError::new(OFErrorKind::EntrypointNotExecutable));
            }
            if found.is_some() {
                return Err(OFError::new(OFErrorKind::MultipleEntrypoints));
            }
            found = Some(i);
        }
        i = i + 1;
    }
    match found {
        Some(e) => Ok(e),
        None => Err(OFError::new(OFErrorKind::NoEntrypoint)),
    }
}

/// Move the entrypoint section `e` to the front at address zero, and the
/// sections before it up by its length.
fn relocate_sections(sections: &mut Vec<Section>, e: usize)
    requires
        e < old(sections)@.len(),
    ensures
        section_views(final(sections)@) == entry_layout(section_views(old(sections)@), e as int),
{
    let ghost l0 = section_views(sections@);
    let offset = sections[e].length;
    let mut i: usize = 0;
    while i < e
        invariant
            i <= e < sections@.len(),
            sections@.len() == l0.len(),
            offset == l0[e as int].length,
            forall|m: int| 0 <= m < i ==> #[trigger] section_views(sections@)[m] == (SectionView {
                start: wadd(l0[m].start, offset),
                ..l0[m]
            }),
            forall|m: int| i <= m < sections@.len() ==> #[trigger] section_views(sections@)[m] == l0[m],
        decreases e - i,
    {
        let ghost prev = sections@;
        assert(section_views(prev)[i as int] == l0[i as int]);
        let mut sec = sections.remove(i);
        sec.start = sec.start.wrapping_add(offset);
        let ghost sv = sec@;
        sections.insert(i, sec);
        assert(sections@ =~= prev.update(i as int, sections@[i as int]));
        assert(section_views(sections@) =~= section_views(prev).update(i as int, sv));
        i = i + 1;
    }
    let ghost prev = sections@;
    assert(section_views(prev)[e as int] == l0[e as int]);
    let mut entry = sections.remove(e);
    entry.start = 0;
    sections.insert(0, entry);
    let ghost mid = section_views(prev);
    assert(section_views(sections@) =~= seq![SectionView { start: 0, ..l0[e as int] }] + mid.subrange(0, e as int)
        + mid.subrange(e + 1, mid.len() as int));
    assert(mid.subrange(0, e as int) =~= shift_sections(l0.subrange(0, e as int), offset));
    assert(mid.subrange(e + 1, mid.len() as int) =~= l0.subrange(e + 1, l0.len() as int));
}

/// Take the data out of each section, leaving the sections empty.
fn take_datas(sections: &mut Vec<Section>) -> (r: Vec<Vec<u8>>)
    ensures
        vec_views(r@) == section_datas(section_views(old(sections)@)),
        same_spans(section_views(final(sections)@), section_views(old(sections)@)),
{
    let ghost l0 = section_views(sections@);
    let mut datas: Vec<Vec<u8>> = Vec::new();
    let mut i: usize = 0;
    while i < sections.len()
        invariant
            i <= sections@.len(),
            sections@.len() == l0.len(),
            vec_views(datas@) == section_datas(l0).subrange(0, i as int),
            forall|m: int| 0 <= m < sections@.len() ==> #[trigger] section_views(sections@)[m].start == l0[m].start
                && section_views(sections@)[m].length == l0[m].length,
            forall|m: int| i <= m < sections@.len() ==> #[trigger] section_views(sections@)[m] == l0[m],
        decreases sections@.len() - i,
    {
        let ghost prev = sections@;
        assert(section_views(prev)[i as int] == l0[i as int]);
        let Section { flags, start, length, data } = sections.remove(i);
        let ghost dv = data@;
        assert(dv == section_datas(l0)[i as int]);
        let ghost vv = vec_views(datas@);
        datas.push(data);
        assert(vec_views(datas@) =~= vv.push(dv));
        sections.insert(i, Section { flags, start, length, data: Vec::new() });
        assert(sections@ =~= prev.update(i as int, sections@[i as int]));
        assert(section_views(sections@) =~= section_views(prev).update(i as int, section_views(sections@)[i as int]));
        assert(vec_views(datas@) =~= section_datas(l0).subrange(0, i + 1));
        i = i + 1;
    }
    assert(section_datas(l0).subrange(0, i as int) =~= section_datas(l0));
    datas
}

/// Patch the references `refs`, each relocated, with `bytes`, as
/// `patch_refs` says; `false` where one cannot be patched.
fn patch_symbol_refs(
    datas: &mut Vec<Vec<u8>>,
    sections: &Vec<Section>,
    Ghost(l): Ghost<Seq<SectionView>>,
    refs: &Vec<u32>,
    cutoff: u32,
    offset: u32,
    bytes: [u8; 4],
) -> (r: bool)
    requires
        same_spans(section_views(sections@), l),
        sections_ordered(l),
        old(datas)@.len() == l.len(),
    ensures
        match patch_refs(vec_views(old(datas)@), l, refs@, 0, cutoff, offset, bytes@) {
            Some(d) => r && vec_views(final(datas)@) == d,
            None => !r,
        },
        final(datas)@.len() == l.len(),
{
    let ghost hdr = section_views(sections@);
    let ghost d_i = vec_views(datas@);
    let ghost bv = bytes@;
    let mut j: usize = 0;
    while j < refs.len()
        invariant
            j <= refs@.len(),
            same_spans(hdr, l),
            hdr == section_views(sections@),
            sections_ordered(l),
            datas@.len() == l.len(),
            bv == bytes@,
            d_i == vec_views(old(datas)@),
            patch_refs(d_i, l, refs@, 0, cutoff, offset, bv) == patch_refs(
                vec_views(datas@),
                l,
                refs@,
                j as nat,
                cutoff,
                offset,
                bv,
            ),
        decreases refs@.len() - j,
    {
        let a = relocate_address(refs[j], cutoff, offset);
        match Section::find_index(sections, a) {
            None => {
                proof {
                    assert(sections_ordered(hdr)) by {
                        assert forall|x: int, y: int| 0 <= x < y < hdr.len() implies #[trigger] hdr[x].start + hdr[x].length <= #[trigger] hdr[y].start by {
                            assert(l[x].start + l[x].length <= l[y].start);
                        }
                    }
                    assert forall|k: int| 0 <= k < l.len() implies !section_holds(#[trigger] l[k], a) by {
                        assert(!crate::silk::data::section_contains(hdr[k], a as int));
                    }
                }
                return false;
            },
            Some(k) => {
                let ghost dv = vec_views(datas@);
                proof {
                    assert(hdr[k as int].start == l[k as int].start);
                    assert(section_holds(l[k as int], a));
                    lemma_locate_unique(l, a, k as int);
                }
                let off = a - sections[k].start;
                let ghost prev = datas@;
                let mut d = datas.remove(k);
                assert(d@ == dv[k as int]);
                let ok = patch_at(&mut d, off, bytes);
                let ghost dnew = d@;
                datas.insert(k, d);
                assert(datas@ =~= prev.update(k as int, datas@[k as int]));
                assert(vec_views(datas@) =~= dv.update(k as int, dnew));
                if !ok {
                    return false;
                }
            },
        }
        j = j + 1;
    }
    true
}

impl Linker {
    /// Link into an unpadded image loaded at `base_address`, as `link_spec`
    /// says; `None` where the linker cannot handle the input.
    fn link_as_image(self, read_only: bool, base_address: u32) -> (r: Option<Result<Vec<u8>, OFError>>)
        ensures
            match link_spec(self@, read_only, base_address) {
                LinkOutcome::Image(img) => r matches Some(Ok(v)) && v@ == img,
                LinkOutcome::Fail(kind, n) => r matches Some(Err(e)) && e.kind == kind && e.symbol@ == n,
                LinkOutcome::Invalid => r is None,
            },
    {
        let ghost v0 = self@;
        let ObjectFile { symbols, sections } = self.data;
        let mut sections = sections;
        assert(section_views(sections@) == v0.sections);
        let e = match find_entrypoint(&sections, read_only) {
            Ok(e) => e,
            Err(err) => return Some(Err(err)),
        };
        assert(check_sections(v0.sections, read_only, 0, None) == Ok::<nat, OFErrorKind>(e as nat));
        let cutoff = sections[e].start;
        let offset = sections[e].length;
        assert(cutoff == v0.sections[e as int].start && offset == v0.sections[e as int].length);
        relocate_sections(&mut sections, e);
        let ghost l = section_views(sections@);
        if !sections_are_ordered(&sections) {
            return None;
        }
        let mut datas = take_datas(&mut sections);
        let ghost hdr = section_views(sections@);
        assert(datas@.len() == vec_views(datas@).len());
        let ghost outcome = match patch_syms(section_datas(l), l, symbols@, 0, cutoff, offset, base_address) {
            PatchOutcome::Invalid => LinkOutcome::Invalid,
            PatchOutcome::Unresolved(n) => LinkOutcome::Fail(OFErrorKind::UnresolvedSymbol, n),
            PatchOutcome::Patched(d) => if concat_all(d).len() == 0 {
                LinkOutcome::Fail(OFErrorKind::EmptyImage, Seq::empty())
            } else {
                LinkOutcome::Image(concat_all(d))
            },
        };
        assert(section_views(sections@).len() == l.len());
        assert(entry_layout(v0.sections, e as int) == l);
        assert(symbols@ == v0.symbols);
        assert(link_spec(v0, read_only, base_address) == outcome);
        let records = symbols.records();
        let ghost syms = symbols@;
        let mut i: usize = 0;
        while i < records.len()
            invariant
                i <= records@.len(),
                v0 == self@,
                link_spec(v0, read_only, base_address) == outcome,
                outcome == match patch_syms(section_datas(l), l, syms, 0, cutoff, offset, base_address) {
                    PatchOutcome::Invalid => LinkOutcome::Invalid,
                    PatchOutcome::Unresolved(n) => LinkOutcome::Fail(OFErrorKind::UnresolvedSymbol, n),
                    PatchOutcome::Patched(d) => if concat_all(d).len() == 0 {
                        LinkOutcome::Fail(OFErrorKind::EmptyImage, Seq::empty())
                    } else {
                        LinkOutcome::Image(concat_all(d))
                    },
                },
                record_views(records@) == syms,
                same_spans(hdr, l),
                hdr == section_views(sections@),
                sections_ordered(l),
                datas@.len() == l.len(),
                patch_syms(section_datas(l), l, syms, 0, cutoff, offset, base_address) == patch_syms(
                    vec_views(datas@),
                    l,
                    syms,
                    i as nat,
                    cutoff,
                    offset,
                    base_address,
                ),
            decreases records@.len() - i,
        {
            let rec = &records[i];
            assert(rec@ == syms[i as int]);
            let value = match rec.entry.value {
                Some(v) => v,
                None => return Some(Err(OFError::with_symbol(OFErrorKind::UnresolvedSymbol, crate::bytes::copy_bytes(rec.name.as_slice())))),
            };
            let bytes = u32_to_be(base_address.wrapping_add(relocate_address(value, cutoff, offset)));
            let ghost bv = bytes@;
            let refs = &rec.entry.references;
            let ghost d_i = vec_views(datas@);
            let ok = patch_symbol_refs(&mut datas, &sections, Ghost(l), refs, cutoff, offset, bytes);
            if !ok {
                return None;
            }
            assert(patch_refs(d_i, l, refs@, 0, cutoff, offset, bv) == Some(vec_views(datas@)));
            assert(patch_syms(d_i, l, syms, i as nat, cutoff, offset, base_address) == patch_syms(
                vec_views(datas@),
                l,
                syms,
                (i + 1) as nat,
                cutoff,
                offset,
                base_address,
            ));
            i = i + 1;
        }
        let mut image: Vec<u8> = Vec::new();
        let mut k: usize = 0;
        let ghost dfin = vec_views(datas@);
        while k < datas.len()
            invariant
                k <= datas@.len(),
                dfin == vec_views(datas@),
                image@ == concat_all(dfin.subrange(0, k as int)),
            decreases datas@.len() - k,
        {
            crate::bytes::extend_bytes(&mut image, datas[k].as_slice());
            assert(dfin.subrange(0, k + 1).drop_last() =~= dfin.subrange(0, k as int));
            k = k + 1;
        }
        assert(dfin.subrange(0, k as int) =~= dfin);
        if image.len() == 0 {
            return Some(Err(OFError::new(OFErrorKind::EmptyImage)));
        }
        Some(Ok(image))
    }
}


/// `n` zero bytes.
pub open spec fn zeros(n: nat) -> Seq<u8> {
    Seq::new(n, |i: int| 0u8)
}

/// The length of a disk image: the next multiple of the disk alignment.
pub open spec fn disk_len(n: nat) -> nat {
    if n % (DISK_ALIGN as nat) == 0 {
        n
    } else {
        (n + DISK_ALIGN - n % (DISK_ALIGN as nat)) as nat
    }
}

/// Append zero bytes up to a length.
fn pad_to(image: &mut Vec<u8>, len: usize)
    requires
        old(image)@.len() <= len,
    ensures
        final(image)@ == old(image)@ + zeros((len - old(image)@.len()) as nat),
{
    let ghost start = image@;
    while image.len() < len
        invariant
            start.len() <= image@.len() <= len,
            image@ == start + zeros((image@.len() - start.len()) as nat),
        decreases len - image@.len(),
    {
        image.push(0);
        assert(image@ =~= start + zeros((image@.len() - start.len()) as nat));
    }
}

impl Linker {
    /// Link into a ROM image: loaded at the ROM base address, padded with
    /// zeros to the ROM size, and an error where it is larger.
    pub fn link_as_rom(self) -> (r: Result<Vec<u8>, OFError>)
        requires
            !(link_spec(self@, true, ROM_BASE) is Invalid),
        ensures
            match link_spec(self@, true, ROM_BASE) {
                LinkOutcome::Image(img) => if img.len() <= ROM_SIZE {
                    r matches Ok(v) && v@ == img + zeros((ROM_SIZE - img.len()) as nat)
                } else {
                    r matches Err(e) && e.kind == OFErrorKind::TooBigForRom && e.size == img.len()
                        && e.symbol@ == Seq::<u8>::empty()
                },
                LinkOutcome::Fail(kind, n) => r matches Err(e) && e.kind == kind && e.symbol@ == n,
                LinkOutcome::Invalid => false,
            },
    {
        match self.link_as_rom_checked() {
            Some(r) => r,
            None => {
                assert(false);
                Err(OFError::new(OFErrorKind::EmptyImage))
            },
        }
    }

    /// `link_as_rom`, or `None` where the linker cannot handle the input.
    pub fn link_as_rom_checked(self) -> (r: Option<Result<Vec<u8>, OFError>>)
        ensures
            match link_spec(self@, true, ROM_BASE) {
                LinkOutcome::Image(img) => if img.len() <= ROM_SIZE {
                    r matches Some(Ok(v)) && v@ == img + zeros((ROM_SIZE - img.len()) as nat)
                } else {
                    r matches Some(Err(e)) && e.kind == OFErrorKind::TooBigForRom && e.size == img.len()
                        && e.symbol@ == Seq::<u8>::empty()
                },
                LinkOutcome::Fail(kind, n) => r matches Some(Err(e)) && e.kind == kind && e.symbol@ == n,
                LinkOutcome::Invalid => r is None,
            },
    {
        let mut image = match self.link_as_image(true, ROM_BASE) {
            None => return None,
            Some(Err(e)) => return Some(Err(e)),
            Some(Ok(image)) => image,
        };
        if image.len() > ROM_SIZE {
            return Some(Err(OFError { kind: OFErrorKind::TooBigForRom, symbol: Vec::new(), size: image.len() }));
        }
        pad_to(&mut image, ROM_SIZE);
        Some(Ok(image))
    }

    /// Link into a disk image: loaded at the disk base address, and padded
    /// with zeros to a multiple of the disk alignment.
    pub fn link_as_disk(self) -> (r: Result<Vec<u8>, OFError>)
        requires
            !(link_spec(self@, false, DISK_BASE) is Invalid),
            link_spec(self@, false, DISK_BASE) matches LinkOutcome::Image(img) ==> img.len() + DISK_ALIGN
                <= usize::MAX,
        ensures
            match link_spec(self@, false, DISK_BASE) {
                LinkOutcome::Image(img) => r matches Ok(v) && v@ == img + zeros(
                    (disk_len(img.len()) - img.len()) as nat,
                ),
                LinkOutcome::Fail(kind, n) => r matches Err(e) && e.kind == kind && e.symbol@ == n,
                LinkOutcome::Invalid => false,
            },
    {
        match self.link_as_disk_checked() {
            Some(r) => r,
            None => {
                assert(false);
                Err(OFError::new(OFErrorKind::EmptyImage))
            },
        }
    }

    /// `link_as_disk`, or `None` where the linker cannot handle the input (or
    /// the padded image would not fit in memory).
    pub fn link_as_disk_checked(self) -> (r: Option<Result<Vec<u8>, OFError>>)
        ensures
            match link_spec(self@, false, DISK_BASE) {
                LinkOutcome::Image(img) => if img.len() + DISK_ALIGN <= usize::MAX {
                    r matches Some(Ok(v)) && v@ == img + zeros((disk_len(img.len()) - img.len()) as nat)
                } else {
                    r is None
                },
                LinkOutcome::Fail(kind, n) => r matches Some(Err(e)) && e.kind == kind && e.symbol@ == n,
                LinkOutcome::Invalid => r is None,
            },
    {
        let mut image = match self.link_as_image(false, DISK_BASE) {
            None => return None,
            Some(Err(e)) => return Some(Err(e)),
            Some(Ok(image)) => image,
        };
        if image.len() > usize::MAX - DISK_ALIGN {
            return None;
        }
        let remainder = image.len() % DISK_ALIGN;
        if remainder > 0 {
            let new_len = image.len() + DISK_ALIGN - remainder;
            pad_to(&mut image, new_len);
        } else {
            assert(image@ =~= image@ + zeros(0));
        }
        Some(Ok(image))
    }
}

} // verus!
