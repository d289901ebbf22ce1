//! The in-memory form of a SimObj object file: sections, symbols, and the
//! errors of reading and linking them.
use vstd::prelude::*;
use crate::bytes::bytes_eq;
use vstd::string::StringSliceAdditionalSpecFns;
use crate::text::{ascii_chars, bytes_to_string, decimal, decimal_string, hex_fixed, hex_string, utf8_decode, utf8_lossy, utf8_text};
use vstd::string::StringExecFns;
use std::cmp::Ordering;

verus! {

/// A symbol only visible within its object file.
pub const SYMBOL_TYPE_INTERNAL: u8 = 73;

/// A symbol defined here and visible to other object files.
pub const SYMBOL_TYPE_PUBLIC: u8 = 80;

/// A symbol used here and defined in another object file.
pub const SYMBOL_TYPE_EXTERNAL: u8 = 69;

/// The section holds the entrypoint.
pub const FLAG_ENTRYPOINT: u8 = 0x01;

/// The section is readable.
pub const FLAG_READ: u8 = 0x04;

/// The section is writable.
pub const FLAG_WRITE: u8 = 0x08;

/// The section is executable.
pub const FLAG_EXECUTE: u8 = 0x10;

/// Every bit that is not a defined flag.
pub const INVALID_FLAGS: u8 = 0xE2;

/// The size of a ROM image.
pub const ROM_SIZE: usize = 512;

/// Disk images are padded to a multiple of this.
pub const DISK_ALIGN: usize = 4096;

/// The address at which a ROM image is loaded.
pub const ROM_BASE: u32 = 0x40;

/// The address at which a disk image is loaded.
pub const DISK_BASE: u32 = 0x4000;

/// Whether a byte is one of the three symbol types.
pub open spec fn valid_symbol_type(t: u8) -> bool {
    t == SYMBOL_TYPE_INTERNAL || t == SYMBOL_TYPE_PUBLIC || t == SYMBOL_TYPE_EXTERNAL
}

/// The human-readable name of a symbol type.
pub fn symbol_type_name(symbol_type: u8) -> (r: Result<&'static str, OFError>)
    ensures
        r is Ok <==> valid_symbol_type(symbol_type),
        symbol_type == SYMBOL_TYPE_INTERNAL ==> r == Ok::<&'static str, OFError>("Internal"),
        symbol_type == SYMBOL_TYPE_PUBLIC ==> r == Ok::<&'static str, OFError>("Public"),
        symbol_type == SYMBOL_TYPE_EXTERNAL ==> r == Ok::<&'static str, OFError>("External"),
        r matches Err(e) ==> e.kind == OFErrorKind::InvalidSymbolType && e.symbol@ == Seq::<u8>::empty(),
{
    if symbol_type == SYMBOL_TYPE_INTERNAL {
        Ok("Internal")
    } else if symbol_type == SYMBOL_TYPE_PUBLIC {
        Ok("Public")
    } else if symbol_type == SYMBOL_TYPE_EXTERNAL {
        Ok("External")
    } else {
        Err(OFError::new(OFErrorKind::InvalidSymbolType))
    }
}

/// What went wrong while reading or linking object files.
#[derive(Debug, Clone, Copy, PartialEq, Eq, Structural)]
pub enum OFErrorKind {
    UnexpectedEof,
    InvalidMagic,
    UnsupportedAbiVersion,
    InvalidSymbolType,
    EmptySymbolName,
    InvalidSymbolName,
    MultipleDefinitions,
    NonZeroReference,
    RenameFailed,
    InvalidSectionFlags,
    WritableInReadOnly,
    EntrypointNotExecutable,
    MultipleEntrypoints,
    NoEntrypoint,
    UnresolvedSymbol,
    EmptyImage,
    TooBigForRom,
    AddressTooSmall(u32),
    AddressTooLarge(u32),
}

/// An error of the object file reader or the linker: its kind, the symbol it
/// concerns (where there is one), and the image size (for an oversized ROM).
#[derive(Debug)]
pub struct OFError {
    pub kind: OFErrorKind,
    pub symbol: Vec<u8>,
    pub size: usize,
}

/// Result type of the object file reader and the linker.
pub type OFResult<T> = Result<T, OFError>;

impl OFError {
    /// An error that concerns no particular symbol.
    pub fn new(kind: OFErrorKind) -> (r: Self)
        ensures
            r.kind == kind,
            r.symbol@ == Seq::<u8>::empty(),
            r.size == 0,
    {
        OFError { kind, symbol: Vec::new(), size: 0 }
    }

    /// An error about the named symbol.
    pub fn with_symbol(kind: OFErrorKind, symbol: Vec<u8>) -> (r: Self)
        ensures
            r.kind == kind,
            r.symbol == symbol,
            r.size == 0,
    {
        OFError { kind, symbol, size: 0 }
    }

    /// The human-readable description of the error, as `message_text`
    /// says.
    pub fn message(&self) -> (r: String)
        ensures
            r@ == message_text(self.kind, self.symbol@, self.size),
    {
        let sym = bytes_to_string(self.symbol.as_slice());
        match self.kind {
            OFErrorKind::UnexpectedEof => String::from_str("IO error: Unexpected EOF."),
            OFErrorKind::InvalidMagic => String::from_str("Invalid magic header."),
            OFErrorKind::UnsupportedAbiVersion => String::from_str("Unsupported ABI version."),
            OFErrorKind::InvalidSymbolType => String::from_str("Invalid symbol type."),
            OFErrorKind::EmptySymbolName => String::from_str("Symbol name cannot be the empty string."),
            OFErrorKind::InvalidSymbolName => match utf8_text(self.symbol.as_slice()) {
                Some(name) => {
                    let mut m = String::from_str("Invalid symbol name: ");
                    m.append(name.as_str());
                    m
                },
                None => String::from_str("Invalid symbol name (unprintable)."),
            },
            OFErrorKind::MultipleDefinitions => {
                let mut m = String::from_str("Multiple definitions for symbol ");
                m.append(sym.as_str());
                m.append(".");
                m
            },
            OFErrorKind::NonZeroReference => String::from_str("Symbol reference was non-zero."),
            OFErrorKind::RenameFailed => {
                let mut m = String::from_str("Failed to rename symbol ");
                m.append(sym.as_str());
                m.append(" to a unique value.");
                m
            },
            OFErrorKind::InvalidSectionFlags => String::from_str("Invalid section flags."),
            OFErrorKind::WritableInReadOnly => String::from_str("Cannot have a writable section in a read-only image."),
            OFErrorKind::EntrypointNotExecutable => String::from_str("Section had entrypoint but not execute set."),
            OFErrorKind::MultipleEntrypoints => String::from_str("Multiple entrypoint sections were defined."),
            OFErrorKind::NoEntrypoint => String::from_str("No entrypoint section was defined."),
            OFErrorKind::UnresolvedSymbol => {
                let mut m = String::from_str("Unresolved symbol: ");
                m.append(sym.as_str());
                m
            },
            OFErrorKind::EmptyImage => String::from_str("Cannot produce an empty image."),
            OFErrorKind::TooBigForRom => {
                let n = decimal_string(self.size);
                let cap = decimal_string(ROM_SIZE);
                let mut m = String::from_str("Binary (");
                m.append(n.as_str());
                m.append(" bytes) exceeds rom capacity (");
                m.append(cap.as_str());
                m.append(" bytes).");
                m
            },
            OFErrorKind::AddressTooSmall(a) => {
                let h = hex_string(a);
                let mut m = String::from_str("Address too small: 0x");
                m.append(h.as_str());
                m
            },
            OFErrorKind::AddressTooLarge(a) => {
                let h = hex_string(a);
                let mut m = String::from_str("Address too large: 0x");
                m.append(h.as_str());
                m
            },
        }
    }
}

/// The description of an error of a kind, about a symbol, with an image
/// size. A bad symbol name is shown where it is valid UTF-8; other names
/// are shown as `String::from_utf8_lossy` makes them.
pub open spec fn message_text(kind: OFErrorKind, symbol: Seq<u8>, size: usize) -> Seq<char> {
    match kind {
        OFErrorKind::UnexpectedEof => "IO error: Unexpected EOF."@,
        OFErrorKind::InvalidMagic => "Invalid magic header."@,
        OFErrorKind::UnsupportedAbiVersion => "Unsupported ABI version."@,
        OFErrorKind::InvalidSymbolType => "Invalid symbol type."@,
        OFErrorKind::EmptySymbolName => "Symbol name cannot be the empty string."@,
        OFErrorKind::InvalidSymbolName => match utf8_decode(symbol) {
            Some(t) => "Invalid symbol name: "@ + t,
            None => "Invalid symbol name (unprintable)."@,
        },
        OFErrorKind::MultipleDefinitions => "Multiple definitions for symbol "@ + utf8_lossy(symbol) + "."@,
        OFErrorKind::NonZeroReference => "Symbol reference was non-zero."@,
        OFErrorKind::RenameFailed => "Failed to rename symbol "@ + utf8_lossy(symbol) + " to a unique value."@,
        OFErrorKind::InvalidSectionFlags => "Invalid section flags."@,
        OFErrorKind::WritableInReadOnly => "Cannot have a writable section in a read-only image."@,
        OFErrorKind::EntrypointNotExecutable => "Section had entrypoint but not execute set."@,
        OFErrorKind::MultipleEntrypoints => "Multiple entrypoint sections were defined."@,
        OFErrorKind::NoEntrypoint => "No entrypoint section was defined."@,
        OFErrorKind::UnresolvedSymbol => "Unresolved symbol: "@ + utf8_lossy(symbol),
        OFErrorKind::EmptyImage => "Cannot produce an empty image."@,
        OFErrorKind::TooBigForRom => "Binary ("@ + ascii_chars(decimal(size as nat)) + " bytes) exceeds rom capacity ("@
            + ascii_chars(decimal(ROM_SIZE as nat)) + " bytes)."@,
        OFErrorKind::AddressTooSmall(a) => "Address too small: 0x"@ + ascii_chars(hex_fixed(a as nat, 8)),
        OFErrorKind::AddressTooLarge(a) => "Address too large: 0x"@ + ascii_chars(hex_fixed(a as nat, 8)),
    }
}

/// The abstract contents of a section.
pub struct SectionView {
    pub flags: u8,
    pub start: u32,
    pub length: u32,
    pub data: Seq<u8>,
}

/// An object code section.
#[derive(Debug)]
pub struct Section {
    pub flags: u8,
    pub start: u32,
    pub length: u32,
    pub data: Vec<u8>,
}

impl View for Section {
    type V = SectionView;

    open spec fn view(&self) -> SectionView {
        SectionView { flags: self.flags, start: self.start, length: self.length, data: self.data@ }
    }
}

/// The views of a list of sections.
pub open spec fn section_views(s: Seq<Section>) -> Seq<SectionView> {
    s.map_values(|x: Section| x@)
}

/// Whether a section covers an address.
pub open spec fn section_contains(s: SectionView, address: int) -> bool {
    s.start <= address < s.start + s.length
}

/// Whether a section covers a 32-bit address.
pub open spec fn section_holds(s: SectionView, address: u32) -> bool {
    section_contains(s, address as int)
}

/// Sections ordered by start address, each ending no later than the next
/// begins.
pub open spec fn sections_ordered(secs: Seq<SectionView>) -> bool {
    forall|i: int, j: int|
        0 <= i < j < secs.len() ==> #[trigger] secs[i].start + secs[i].length <= #[trigger] secs[j].start
}

impl Section {
    /// Compare the section's range against an address: `Greater` if the
    /// section lies above it, `Equal` if it contains it, `Less` if below.
    pub fn compare_address(&self, index: u32) -> (r: Ordering)
        ensures
            (r == Ordering::Greater) <==> index < self.start,
            (r == Ordering::Equal) <==> section_holds(self@, index),
            (r == Ordering::Less) <==> self.start + self.length <= index,
    {
        if index < self.start {
            Ordering::Greater
        } else if (index - self.start) < self.length {
            Ordering::Equal
        } else {
            Ordering::Less
        }
    }

    /// Binary search for the index of the section containing `address`.
    /// When the sections are ordered, the search finds the section exactly
    /// when there is one.
    pub fn find_index(sections: &Vec<Section>, address: u32) -> (r: Option<usize>)
        ensures
            r matches Some(i) ==> i < sections@.len() && section_contains(
                sections@[i as int]@,
                address as int,
            ),
            r is None && sections_ordered(section_views(sections@)) ==> forall|
                i: int,
            |
                0 <= i < sections@.len() ==> !section_contains(
                    #[trigger] sections@[i]@,
                    address as int,
                ),
    {
        let ghost views = section_views(sections@);
        let mut lo: usize = 0;
        let mut hi: usize = sections.len();
        while lo < hi
            invariant
                lo <= hi <= sections@.len(),
                views == section_views(sections@),
                sections_ordered(views) ==> forall|i: int|
                    0 <= i < lo ==> !section_contains(#[trigger] sections@[i]@, address as int),
                sections_ordered(views) ==> forall|i: int|
                    hi <= i < sections@.len() ==> !section_contains(
                        #[trigger] sections@[i]@,
                        address as int,
                    ),
            decreases hi - lo,
        {
            let mid = lo + (hi - lo) / 2;
            let sec = &sections[mid];
            if address < sec.start {
                    proof {
                        if sections_ordered(views) {
                            assert forall|i: int| mid <= i < sections@.len() implies !section_contains(
                                #[trigger] sections@[i]@,
                                address as int,
                            ) by {
                                if i > mid {
                                    assert(views[mid as int].start + views[mid as int].length
                                        <= views[i].start);
                                }
                            }
                        }
                    }
                hi = mid;
            } else if address - sec.start < sec.length {
                return Some(mid);
            } else {
                    proof {
                        if sections_ordered(views) {
                            assert forall|i: int| 0 <= i <= mid implies !section_contains(
                                #[trigger] sections@[i]@,
                                address as int,
                            ) by {
                                if i < mid {
                                    assert(views[i].start + views[i].length
                                        <= views[mid as int].start);
                                }
                            }
                        }
                    }
                lo = mid + 1;
            }
        }
        None
    }

    /// Find the section containing the given address, to change it.
    pub fn find_mut(sections: &mut Vec<Section>, address: u32) -> (r: Option<&mut Section>)
        ensures
            match r {
                Some(s) => exists|i: int|
                    0 <= i < old(sections)@.len() && *s == old(sections)@[i] && section_contains(
                        old(sections)@[i]@,
                        address as int,
                    ) && final(sections)@ == old(sections)@.update(i, *final(s)),
                None => final(sections)@ == old(sections)@ && (sections_ordered(section_views(old(sections)@))
                    ==> forall|i: int|
                    0 <= i < old(sections)@.len() ==> !section_contains(
                        #[trigger] old(sections)@[i]@,
                        address as int,
                    )),
            },
    {
        match Self::find_index(sections, address) {
            Some(i) => Some(&mut sections[i]),
            None => None,
        }
    }

    /// Find the section containing the given address.
    pub fn find(sections: &Vec<Section>, address: u32) -> (r: Option<&Section>)
        ensures
            r matches Some(s) ==> section_contains(s@, address as int) && sections@.contains(*s),
            r is None && sections_ordered(section_views(sections@)) ==> forall|
                i: int,
            |
                0 <= i < sections@.len() ==> !section_contains(
                    #[trigger] sections@[i]@,
                    address as int,
                ),
    {
        match Self::find_index(sections, address) {
            Some(i) => {
                assert(sections@[i as int] == sections@[i as int]);
                Some(&sections[i])
            },
            None => None,
        }
    }
}

/// The abstract contents of a symbol table entry.
pub struct EntryView {
    pub symbol_type: u8,
    pub value: Option<u32>,
    pub references: Seq<u32>,
}

/// A symbol table entry.
#[derive(Debug)]
pub struct SymbolTableEntry {
    pub symbol_type: u8,
    pub value: Option<u32>,
    pub references: Vec<u32>,
}

impl View for SymbolTableEntry {
    type V = EntryView;

    open spec fn view(&self) -> EntryView {
        EntryView {
            symbol_type: self.symbol_type,
            value: self.value,
            references: self.references@,
        }
    }
}

/// A named symbol table entry.
#[derive(Debug)]
pub struct SymbolRecord {
    pub name: Vec<u8>,
    pub entry: SymbolTableEntry,
}

impl View for SymbolRecord {
    type V = (Seq<u8>, EntryView);

    open spec fn view(&self) -> (Seq<u8>, EntryView) {
        (self.name@, self.entry@)
    }
}

/// Whether no name occurs twice.
pub open spec fn names_unique(s: Seq<(Seq<u8>, EntryView)>) -> bool {
    forall|i: int, j: int| 0 <= i < j < s.len() ==> #[trigger] s[i].0 != #[trigger] s[j].0
}

/// The first position at or after `k` of `name` in a table, if it is there.
pub open spec fn find_name_from(s: Seq<(Seq<u8>, EntryView)>, name: Seq<u8>, k: nat) -> Option<int>
    decreases s.len() - k,
{
    if k >= s.len() {
        None
    } else if s[k as int].0 == name {
        Some(k as int)
    } else {
        find_name_from(s, name, k + 1)
    }
}

/// The first position of `name` in a table, if it is there.
pub open spec fn find_name(s: Seq<(Seq<u8>, EntryView)>, name: Seq<u8>) -> Option<int> {
    find_name_from(s, name, 0)
}

proof fn lemma_find_name_from(s: Seq<(Seq<u8>, EntryView)>, name: Seq<u8>, k: nat)
    requires
        k <= s.len(),
    ensures
        find_name_from(s, name, k) matches Some(i) ==> k <= i < s.len() && s[i].0 == name
            && forall|j: int| k <= j < i ==> #[trigger] s[j].0 != name,
        find_name_from(s, name, k) is None <==> forall|i: int| k <= i < s.len() ==> #[trigger] s[i].0 != name,
    decreases s.len() - k,
{
    if k < s.len() {
        lemma_find_name_from(s, name, k + 1);
    }
}

/// `find_name` finds the first occurrence of the name, and finds nothing
/// exactly when the name does not occur.
pub proof fn lemma_find_name(s: Seq<(Seq<u8>, EntryView)>, name: Seq<u8>)
    ensures
        find_name(s, name) matches Some(i) ==> 0 <= i < s.len() && s[i].0 == name
            && forall|j: int| 0 <= j < i ==> #[trigger] s[j].0 != name,
        find_name(s, name) is None <==> forall|i: int| 0 <= i < s.len() ==> #[trigger] s[i].0 != name,
        names_unique(s) ==> forall|i: int|
            0 <= i < s.len() && #[trigger] s[i].0 == name ==> find_name(s, name) == Some(i),
{
    lemma_find_name_from(s, name, 0);
}

/// The views of a list of symbol records.
pub open spec fn record_views(s: Seq<SymbolRecord>) -> Seq<(Seq<u8>, EntryView)> {
    s.map_values(|r: SymbolRecord| r@)
}

/// A symbol table: named entries, each name at most once, kept in the order
/// in which they were added.
#[derive(Debug)]
pub struct SymbolTable {
    records: Vec<SymbolRecord>,
}

impl View for SymbolTable {
    type V = Seq<(Seq<u8>, EntryView)>;

    closed spec fn view(&self) -> Seq<(Seq<u8>, EntryView)> {
        record_views(self.records@)
    }
}

impl SymbolTable {
    /// An empty table.
    pub fn new() -> (r: Self)
        ensures
            r@ == Seq::<(Seq<u8>, EntryView)>::empty(),
    {
        let r = SymbolTable { records: Vec::new() };
        assert(r@ =~= Seq::<(Seq<u8>, EntryView)>::empty());
        r
    }

    /// The number of entries.
    pub fn len(&self) -> (r: usize)
        ensures
            r == self@.len(),
    {
        self.records.len()
    }

    /// The first position of `name`, if present.
    pub fn find(&self, name: &[u8]) -> (r: Option<usize>)
        ensures
            match find_name(self@, name@) {
                Some(i) => r == Some(i as usize),
                None => r is None,
            },
            r matches Some(i) ==> i < self@.len() && self@[i as int].0 == name@,
            r is None <==> forall|i: int| 0 <= i < self@.len() ==> #[trigger] self@[i].0 != name@,
    {
        proof {
            lemma_find_name(self@, name@);
        }
        let mut i: usize = 0;
        while i < self.records.len()
            invariant
                i <= self.records@.len(),
                find_name(self@, name@) == find_name_from(self@, name@, i as nat),
                forall|j: int| 0 <= j < i ==> #[trigger] self@[j].0 != name@,
            decreases self.records@.len() - i,
        {
            if bytes_eq(self.records[i].name.as_slice(), name) {
                assert(self@[i as int].0 == name@);
                return Some(i);
            }
            i = i + 1;
        }
        None
    }

    /// Whether `name` is present.
    pub fn contains(&self, name: &[u8]) -> (r: bool)
        ensures
            r <==> exists|i: int| 0 <= i < self@.len() && #[trigger] self@[i].0 == name@,
    {
        match self.find(name) {
            Some(i) => true,
            None => false,
        }
    }

    /// The record at a position.
    pub fn get(&self, i: usize) -> (r: &SymbolRecord)
        requires
            i < self@.len(),
        ensures
            r@ == self@[i as int],
    {
        &self.records[i]
    }

    /// Add a record at the end.
    pub fn push(&mut self, name: Vec<u8>, entry: SymbolTableEntry)
        ensures
            final(self)@ == old(self)@.push((name@, entry@)),
    {
        self.records.push(SymbolRecord { name, entry });
        assert(self@ =~= old(self)@.push((name@, entry@)));
    }

    /// Replace the record at a position.
    pub fn set(&mut self, i: usize, name: Vec<u8>, entry: SymbolTableEntry)
        requires
            i < old(self)@.len(),
        ensures
            final(self)@ == old(self)@.update(i as int, (name@, entry@)),
    {
        self.records[i] = SymbolRecord { name, entry };
        assert(self@ =~= old(self)@.update(i as int, (name@, entry@)));
    }

    /// Give the record at a position a new name.
    pub fn rename(&mut self, i: usize, name: Vec<u8>)
        requires
            i < old(self)@.len(),
        ensures
            final(self)@ == old(self)@.update(i as int, (name@, old(self)@[i as int].1)),
    {
        let mut rec = self.records.remove(i);
        rec.name = name;
        self.records.insert(i, rec);
        assert(self@ =~= old(self)@.update(i as int, (name@, old(self)@[i as int].1)));
    }

    /// Set the type and value of the entry at a position, and append
    /// references to it.
    pub fn absorb(&mut self, i: usize, symbol_type: u8, value: Option<u32>, refs: Vec<u32>)
        requires
            i < old(self)@.len(),
        ensures
            final(self)@ == old(self)@.update(
                i as int,
                (
                    old(self)@[i as int].0,
                    EntryView {
                        symbol_type,
                        value,
                        references: old(self)@[i as int].1.references + refs@,
                    },
                ),
            ),
    {
        let ghost added = refs@;
        let mut more = refs;
        let mut rec = self.records.remove(i);
        rec.entry.symbol_type = symbol_type;
        rec.entry.value = value;
        rec.entry.references.append(&mut more);
        self.records.insert(i, rec);
        assert(self@ =~= old(self)@.update(
            i as int,
            (
                old(self)@[i as int].0,
                EntryView {
                    symbol_type,
                    value,
                    references: old(self)@[i as int].1.references + added,
                },
            ),
        ));
    }

    /// Take the records out.
    pub fn into_records(self) -> (r: Vec<SymbolRecord>)
        ensures
            record_views(r@) == self@,
    {
        self.records
    }

    /// Borrow the records.
    pub fn records(&self) -> (r: &Vec<SymbolRecord>)
        ensures
            record_views(r@) == self@,
    {
        &self.records
    }
}

/// A whole parsed object file.
#[derive(Debug)]
pub struct ObjectFile {
    pub symbols: SymbolTable,
    pub sections: Vec<Section>,
}

/// The abstract contents of an object file.
pub struct ObjectFileView {
    pub symbols: Seq<(Seq<u8>, EntryView)>,
    pub sections: Seq<SectionView>,
}

impl View for ObjectFile {
    type V = ObjectFileView;

    open spec fn view(&self) -> ObjectFileView {
        ObjectFileView {
            symbols: self.symbols@,
            sections: section_views(self.sections@),
        }
    }
}

} // verus!
