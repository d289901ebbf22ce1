//! Reading SimObj object files.
//!
//! A file starts with the magic `SIMOBJ`, a 16-bit ABI version, and four
//! 32-bit words: the symbol table's offset and entry count, then the section
//! headers' offset and count. Each section header is a flags byte, three bytes
//! of padding, the section's offset in the file and its length. Each symbol
//! table entry is a type byte, a 32-bit value, a length-prefixed name, a
//! reference count and that many 32-bit reference offsets; every reference
//! must point at four zero bytes.
use vstd::prelude::*;
use crate::bytes::{be_u16_value, be_u32_value, ByteReader, ReadBE, ReadError};
use crate::silk::data::{
    record_views, valid_symbol_type, symbol_type_name, EntryView, ObjectFile, OFError, OFErrorKind,
    Section, SectionView, SymbolTable, section_views, SymbolTableEntry, SYMBOL_TYPE_EXTERNAL,
};

verus! {

/// The magic bytes `SIMOBJ`.
pub open spec fn magic_header() -> Seq<u8> {
    seq![83u8, 73u8, 77u8, 79u8, 66u8, 74u8]
}

/// The only supported ABI version.
pub const ABI_VERSION: u16 = 1;

/// The big-endian word at `p`.
pub open spec fn word_at(b: Seq<u8>, p: int) -> int {
    be_u32_value(b.subrange(p, p + 4))
}

/// The file header: symbol table offset, symbol count, section header offset
/// and section count; or the error met while reading it.
pub open spec fn header_spec(b: Seq<u8>) -> Result<(u32, u32, u32, u32), OFErrorKind> {
    if b.len() < 6 {
        Err(OFErrorKind::UnexpectedEof)
    } else if b.subrange(0, 6) != magic_header() {
        Err(OFErrorKind::InvalidMagic)
    } else if b.len() < 8 {
        Err(OFErrorKind::UnexpectedEof)
    } else if be_u16_value(b.subrange(6, 8)) != ABI_VERSION {
        Err(OFErrorKind::UnsupportedAbiVersion)
    } else if b.len() < 24 {
        Err(OFErrorKind::UnexpectedEof)
    } else {
        Ok(
            (
                word_at(b, 8) as u32,
                word_at(b, 12) as u32,
                word_at(b, 16) as u32,
                word_at(b, 20) as u32,
            ),
        )
    }
}

/// The section whose header starts at `p`.
pub open spec fn section_at(b: Seq<u8>, p: int) -> Result<SectionView, OFErrorKind> {
    if p + 12 > b.len() {
        Err(OFErrorKind::UnexpectedEof)
    } else {
        let start = word_at(b, p + 4);
        let length = word_at(b, p + 8);
        if length > 0 && start + length > b.len() {
            Err(OFErrorKind::UnexpectedEof)
        } else {
            Ok(
                SectionView {
                    flags: b[p],
                    start: start as u32,
                    length: length as u32,
                    data: if length > 0 {
                        b.subrange(start, start + length)
                    } else {
                        Seq::empty()
                    },
                },
            )
        }
    }
}

/// The sections whose headers are at `base + 12 * i` for `i` in `from..n`,
/// appended to `acc`, in header order; or the first error.
pub open spec fn sections_from(
    b: Seq<u8>,
    base: int,
    from: nat,
    n: nat,
    acc: Seq<SectionView>,
) -> Result<Seq<SectionView>, OFErrorKind>
    decreases n - from,
{
    if from >= n {
        Ok(acc)
    } else {
        match section_at(b, base + 12 * from) {
            Err(e) => Err(e),
            Ok(s) => sections_from(b, base, from + 1, n, acc.push(s)),
        }
    }
}

/// Whether a byte may appear in a symbol name: a digit, a letter or `_`.
pub open spec fn name_byte_ok(c: u8) -> bool {
    (48 <= c <= 57) || (65 <= c <= 90) || c == 95 || (97 <= c <= 122)
}

/// Whether every byte of a name may appear in a symbol name.
pub open spec fn name_ok(name: Seq<u8>) -> bool {
    forall|i: int| 0 <= i < name.len() ==> name_byte_ok(#[trigger] name[i])
}

/// The bytes of symbol names are those of the assembler's identifiers, so
/// every identifier is a valid symbol name.
pub proof fn lemma_identifiers_are_names(s: Seq<u8>, c: u8)
    ensures
        name_byte_ok(c) == crate::salt::lexer::is_ident_continue(c),
        crate::salt::lexer::ident_text(s) ==> name_ok(s),
{
    if crate::salt::lexer::ident_text(s) {
        assert forall|i: int| 0 <= i < s.len() implies name_byte_ok(#[trigger] s[i]) by {
            if i >= 1 {
                assert(crate::salt::lexer::is_ident_continue(s[i]));
            }
        }
    }
}

/// The first part of a symbol entry at `p`: its type, value, name and the
/// position after the name.
pub open spec fn symbol_head(b: Seq<u8>, p: int) -> Result<(u8, u32, Seq<u8>, int), (OFErrorKind, Seq<u8>)> {
    if p + 1 > b.len() {
        Err((OFErrorKind::UnexpectedEof, Seq::empty()))
    } else if !valid_symbol_type(b[p]) {
        Err((OFErrorKind::InvalidSymbolType, Seq::empty()))
    } else if p + 6 > b.len() {
        Err((OFErrorKind::UnexpectedEof, Seq::empty()))
    } else if b[p + 5] == 0 {
        Err((OFErrorKind::EmptySymbolName, Seq::empty()))
    } else if p + 6 + b[p + 5] > b.len() {
        Err((OFErrorKind::UnexpectedEof, Seq::empty()))
    } else if !name_ok(b.subrange(p + 6, p + 6 + b[p + 5])) {
        Err((OFErrorKind::InvalidSymbolName, b.subrange(p + 6, p + 6 + b[p + 5])))
    } else {
        Ok((b[p], word_at(b, p + 1) as u32, b.subrange(p + 6, p + 6 + b[p + 5]), p + 6 + b[p + 5]))
    }
}

/// The `n` reference offsets stored from `p` on.
pub open spec fn refs_at(b: Seq<u8>, p: int, n: nat) -> Seq<u32> {
    Seq::new(n, |i: int| word_at(b, p + 4 * i) as u32)
}

/// The error of the first bad reference among `refs[from..]`, if any.
pub open spec fn first_bad_ref(b: Seq<u8>, refs: Seq<u32>, from: nat) -> Option<OFErrorKind>
    decreases refs.len() - from,
{
    if from >= refs.len() {
        None
    } else if refs[from as int] + 4 > b.len() {
        Some(OFErrorKind::UnexpectedEof)
    } else if word_at(b, refs[from as int] as int) != 0 {
        Some(OFErrorKind::NonZeroReference)
    } else {
        first_bad_ref(b, refs, from + 1)
    }
}

/// The references of a symbol entry whose count is at `q`, and the position
/// after them.
pub open spec fn symbol_refs(b: Seq<u8>, q: int) -> Result<(Seq<u32>, int), OFErrorKind> {
    if q + 4 > b.len() {
        Err(OFErrorKind::UnexpectedEof)
    } else {
        let n = word_at(b, q);
        if q + 4 + 4 * n > b.len() {
            Err(OFErrorKind::UnexpectedEof)
        } else {
            let refs = refs_at(b, q + 4, n as nat);
            match first_bad_ref(b, refs, 0) {
                Some(e) => Err(e),
                None => Ok((refs, q + 4 + 4 * n)),
            }
        }
    }
}

/// Whether a name is already in a table.
pub open spec fn table_has(table: Seq<(Seq<u8>, EntryView)>, name: Seq<u8>) -> bool {
    exists|i: int| 0 <= i < table.len() && #[trigger] table[i].0 == name
}

/// The `n` symbol entries from `p` on, appended to `table`; or the first
/// error, with the name it concerns (empty where it concerns none).
pub open spec fn symbols_from(
    b: Seq<u8>,
    p: int,
    n: nat,
    table: Seq<(Seq<u8>, EntryView)>,
) -> Result<Seq<(Seq<u8>, EntryView)>, (OFErrorKind, Seq<u8>)>
    decreases n,
{
    if n == 0 {
        Ok(table)
    } else {
        match symbol_head(b, p) {
            Err(e) => Err(e),
            Ok((t, value, name, q)) => {
                if table_has(table, name) {
                    Err((OFErrorKind::MultipleDefinitions, name))
                } else {
                    match symbol_refs(b, q) {
                        Err(e) => Err((e, Seq::empty())),
                        Ok((refs, next)) => {
                            let entry = EntryView {
                                symbol_type: t,
                                value: if t == SYMBOL_TYPE_EXTERNAL {
                                    None
                                } else {
                                    Some(value)
                                },
                                references: refs,
                            };
                            symbols_from(b, next, (n - 1) as nat, table.push((name, entry)))
                        },
                    }
                }
            },
        }
    }
}

/// What reading the parts of a file gives: its symbol table, and its
/// sections ordered by their place in the file; or the first error.
pub open spec fn read_spec(b: Seq<u8>) -> Result<
    (Seq<(Seq<u8>, EntryView)>, Seq<SectionView>),
    (OFErrorKind, Seq<u8>),
> {
    match header_spec(b) {
        Err(e) => Err((e, Seq::empty())),
        Ok((st, ns, sh, nsec)) => match sections_from(b, sh as int, 0, nsec as nat, Seq::empty()) {
            Err(e) => Err((e, Seq::empty())),
            Ok(secs) => match symbols_from(b, st as int, ns as nat, Seq::empty()) {
                Err(e) => Err(e),
                Ok(syms) => Ok((syms, sort_by_start(secs))),
            },
        },
    }
}

/// The start of section `i` once the sections are laid end to end from
/// zero in their order: the total length of those before it.
pub open spec fn packed_start(secs: Seq<SectionView>, i: int) -> int
    decreases i,
{
    if i <= 0 {
        0
    } else {
        packed_start(secs, i - 1) + secs[i - 1].length
    }
}

/// The first section, from `i` on, that holds address `a` of the file.
pub open spec fn holder(secs: Seq<SectionView>, a: u32, i: int) -> Option<int>
    decreases secs.len() - i,
{
    if i < 0 || i >= secs.len() {
        None
    } else if secs[i].start <= a && a < secs[i].start + secs[i].length {
        Some(i)
    } else {
        holder(secs, a, i + 1)
    }
}

/// Where an address of the file lands once the sections are laid end to
/// end: at the same place in the first section that holds it. An address
/// that no section holds is too small where it lies before the first
/// section (or there is none), and too large otherwise.
pub open spec fn pack_address(secs: Seq<SectionView>, a: u32) -> Result<u32, OFErrorKind> {
    match holder(secs, a, 0) {
        Some(i) => Ok((packed_start(secs, i) + (a - secs[i].start)) as u32),
        None => if secs.len() == 0 || a < secs[0].start {
            Err(OFErrorKind::AddressTooSmall(a))
        } else {
            Err(OFErrorKind::AddressTooLarge(a))
        },
    }
}

/// The references moved as `pack_address` says; the first that cannot be
/// moved gives the error.
pub open spec fn pack_refs(secs: Seq<SectionView>, refs: Seq<u32>) -> Result<Seq<u32>, OFErrorKind>
    decreases refs.len(),
{
    if refs.len() == 0 {
        Ok(Seq::empty())
    } else {
        match pack_refs(secs, refs.drop_last()) {
            Err(k) => Err(k),
            Ok(p) => match pack_address(secs, refs.last()) {
                Err(k) => Err(k),
                Ok(a) => Ok(p.push(a)),
            },
        }
    }
}

/// A symbol's value, where it has one, moved as `pack_address` says.
pub open spec fn pack_value(secs: Seq<SectionView>, value: Option<u32>) -> Result<Option<u32>, OFErrorKind> {
    match value {
        None => Ok(None),
        Some(a) => match pack_address(secs, a) {
            Ok(p) => Ok(Some(p)),
            Err(k) => Err(k),
        },
    }
}

/// An entry with its value, then its references, moved as `pack_address`
/// says.
pub open spec fn pack_entry(secs: Seq<SectionView>, e: EntryView) -> Result<EntryView, OFErrorKind> {
    match pack_value(secs, e.value) {
        Err(k) => Err(k),
        Ok(v) => match pack_refs(secs, e.references) {
            Err(k) => Err(k),
            Ok(refs) => Ok(EntryView { symbol_type: e.symbol_type, value: v, references: refs }),
        },
    }
}

/// Every entry of a symbol table moved as `pack_entry` says, in order.
pub open spec fn pack_symbols(secs: Seq<SectionView>, syms: Seq<(Seq<u8>, EntryView)>) -> Result<
    Seq<(Seq<u8>, EntryView)>,
    (OFErrorKind, Seq<u8>),
>
    decreases syms.len(),
{
    if syms.len() == 0 {
        Ok(Seq::empty())
    } else {
        match pack_symbols(secs, syms.drop_last()) {
            Err(e) => Err(e),
            Ok(p) => match pack_entry(secs, syms.last().1) {
                Err(k) => Err((k, Seq::empty())),
                Ok(e) => Ok(p.push((syms.last().0, e))),
            },
        }
    }
}

/// The sections laid end to end from zero.
pub open spec fn pack_sections(secs: Seq<SectionView>) -> Seq<SectionView> {
    Seq::new(
        secs.len(),
        |i: int|
            SectionView {
                flags: secs[i].flags,
                start: packed_start(secs, i) as u32,
                length: secs[i].length,
                data: secs[i].data,
            },
    )
}

/// What reading a whole file gives: its sections ordered by their place in
/// the file and laid end to end from zero, and its symbol table with every
/// value and reference moved along with its section; or the first error.
/// Sections whose lengths add up past a 32-bit address are too large.
pub open spec fn parse_spec(b: Seq<u8>) -> Result<
    (Seq<(Seq<u8>, EntryView)>, Seq<SectionView>),
    (OFErrorKind, Seq<u8>),
> {
    match read_spec(b) {
        Err(e) => Err(e),
        Ok((syms, secs)) => if packed_start(secs, secs.len() as int) > u32::MAX {
            Err((OFErrorKind::AddressTooLarge(0xFFFF_FFFF), Seq::empty()))
        } else {
            match pack_symbols(secs, syms) {
                Err(e) => Err(e),
                Ok(p) => Ok((p, pack_sections(secs))),
            }
        },
    }
}

proof fn lemma_packed_start_grows(secs: Seq<SectionView>, i: int, j: int)
    requires
        0 <= i <= j <= secs.len(),
    ensures
        packed_start(secs, i) <= packed_start(secs, j),
    decreases j - i,
{
    if i < j {
        lemma_packed_start_grows(secs, i, j - 1);
    }
}

/// Sections that follow each other without gaps from address zero.
pub open spec fn laid_end_to_end(secs: Seq<SectionView>) -> bool {
    &&& secs.len() > 0 ==> secs[0].start == 0
    &&& forall|i: int| 0 <= i < secs.len() - 1 ==> #[trigger] secs[i + 1].start == secs[i].start + secs[i].length
}

/// The sections of a file that reads without error are laid end to end
/// from zero, whatever gaps lay between them in the file.
pub proof fn lemma_parse_packs(b: Seq<u8>)
    ensures
        parse_spec(b) matches Ok((syms, secs)) ==> laid_end_to_end(secs),
{
    if let Ok((syms, raw)) = read_spec(b) {
        if packed_start(raw, raw.len() as int) <= u32::MAX {
            let p = pack_sections(raw);
            assert forall|i: int| 0 <= i < p.len() - 1 implies #[trigger] p[i + 1].start == p[i].start
                + p[i].length by {
                lemma_packed_start_grows(raw, i + 1, raw.len() as int);
                lemma_packed_start_grows(raw, 0, i);
                assert(packed_start(raw, i + 1) == packed_start(raw, i) + raw[i].length);
            }
        }
    }
}

/// Where an address lands, as `pack_address` says, given the sections and
/// their packed starts.
fn locate(sections: &Vec<Section>, starts: &Vec<u32>, a: u32) -> (r: Result<u32, OFError>)
    requires
        starts@.len() == sections@.len(),
        forall|k: int| 0 <= k < starts@.len() ==> #[trigger] starts@[k] == packed_start(
            section_views(sections@),
            k,
        ),
        packed_start(section_views(sections@), sections@.len() as int) <= u32::MAX,
    ensures
        match pack_address(section_views(sections@), a) {
            Ok(p) => r matches Ok(q) && q == p,
            Err(k) => r matches Err(e) && e.kind == k && e.symbol@ == Seq::<u8>::empty(),
        },
{
    let ghost secs = section_views(sections@);
    let mut i: usize = 0;
    while i < sections.len()
        invariant
            0 <= i <= sections@.len(),
            secs == section_views(sections@),
            starts@.len() == sections@.len(),
            forall|k: int| 0 <= k < starts@.len() ==> #[trigger] starts@[k] == packed_start(secs, k),
            packed_start(secs, sections@.len() as int) <= u32::MAX,
            holder(secs, a, 0) == holder(secs, a, i as int),
        decreases sections@.len() - i,
    {
        let s = &sections[i];
        assert(secs[i as int] == s@);
        if s.start <= a && (a as u64) < s.start as u64 + s.length as u64 {
            proof {
                lemma_packed_start_grows(secs, i + 1, sections@.len() as int);
            }
            return Ok(starts[i] + (a - s.start));
        }
        i = i + 1;
    }
    if sections.len() == 0 || a < sections[0].start {
        Err(OFError::new(OFErrorKind::AddressTooSmall(a)))
    } else {
        assert(secs[0] == sections@[0]@);
        Err(OFError::new(OFErrorKind::AddressTooLarge(a)))
    }
}

/// Move a symbol table entry as `pack_entry` says.
fn pack_entry_exec(sections: &Vec<Section>, starts: &Vec<u32>, e: SymbolTableEntry) -> (r: Result<
    SymbolTableEntry,
    OFError,
>)
    requires
        starts@.len() == sections@.len(),
        forall|k: int| 0 <= k < starts@.len() ==> #[trigger] starts@[k] == packed_start(
            section_views(sections@),
            k,
        ),
        packed_start(section_views(sections@), sections@.len() as int) <= u32::MAX,
    ensures
        match pack_entry(section_views(sections@), e@) {
            Ok(p) => r matches Ok(q) && q@ == p,
            Err(k) => r matches Err(err) && err.kind == k && err.symbol@ == Seq::<u8>::empty(),
        },
{
    let ghost secs = section_views(sections@);
    let value = match e.value {
        None => None,
        Some(a) => match locate(sections, starts, a) {
            Ok(p) => Some(p),
            Err(err) => return Err(err),
        },
    };
    let mut refs: Vec<u32> = Vec::new();
    let mut j: usize = 0;
    while j < e.references.len()
        invariant
            0 <= j <= e.references@.len(),
            secs == section_views(sections@),
            starts@.len() == sections@.len(),
            forall|k: int| 0 <= k < starts@.len() ==> #[trigger] starts@[k] == packed_start(secs, k),
            packed_start(secs, sections@.len() as int) <= u32::MAX,
            pack_value(secs, e@.value) == Ok::<Option<u32>, OFErrorKind>(value),
            pack_refs(secs, e.references@.take(j as int)) == Ok::<Seq<u32>, OFErrorKind>(refs@),
        decreases e.references@.len() - j,
    {
        assert(e.references@.take(j + 1).drop_last() =~= e.references@.take(j as int));
        assert(e.references@.take(j + 1).last() == e.references@[j as int]);
        match locate(sections, starts, e.references[j]) {
            Ok(p) => refs.push(p),
            Err(err) => {
                proof {
                    assert(pack_refs(secs, e.references@.take(j + 1)) is Err);
                    lemma_pack_refs_fails(secs, e.references@, j + 1);
                }
                return Err(err);
            },
        }
        j = j + 1;
    }
    assert(e.references@.take(j as int) =~= e.references@);
    Ok(SymbolTableEntry { symbol_type: e.symbol_type, value, references: refs })
}

/// Where the references up to `n` cannot all be moved, none of them can.
proof fn lemma_pack_refs_fails(secs: Seq<SectionView>, refs: Seq<u32>, n: int)
    requires
        0 <= n <= refs.len(),
        pack_refs(secs, refs.take(n)) is Err,
    ensures
        pack_refs(secs, refs) == pack_refs(secs, refs.take(n)),
    decreases refs.len() - n,
{
    if n < refs.len() {
        assert(refs.take(n + 1).drop_last() =~= refs.take(n));
        lemma_pack_refs_fails(secs, refs, n + 1);
    } else {
        assert(refs.take(n) =~= refs);
    }
}

/// Where the entries up to `n` cannot all be moved, none of them can.
proof fn lemma_pack_symbols_fails(secs: Seq<SectionView>, syms: Seq<(Seq<u8>, EntryView)>, n: int)
    requires
        0 <= n <= syms.len(),
        pack_symbols(secs, syms.take(n)) is Err,
    ensures
        pack_symbols(secs, syms) == pack_symbols(secs, syms.take(n)),
    decreases syms.len() - n,
{
    if n < syms.len() {
        assert(syms.take(n + 1).drop_last() =~= syms.take(n));
        lemma_pack_symbols_fails(secs, syms, n + 1);
    } else {
        assert(syms.take(n) =~= syms);
    }
}

/// Lay the sections end to end from zero and move every symbol value and
/// reference along with its section, as `parse_spec` says after reading.
fn pack(sections: Vec<Section>, symbols: SymbolTable) -> (r: Result<ObjectFile, OFError>)
    ensures
        ({
            let secs = section_views(sections@);
            if packed_start(secs, secs.len() as int) > u32::MAX {
                r matches Err(e) && e.kind == OFErrorKind::AddressTooLarge(0xFFFF_FFFF) && e.symbol@
                    == Seq::<u8>::empty()
            } else {
                match pack_symbols(secs, symbols@) {
                    Err((kind, name)) => r matches Err(e) && e.kind == kind && e.symbol@ == name,
                    Ok(p) => r matches Ok(of) && of.symbols@ == p && section_views(of.sections@)
                        == pack_sections(secs),
                }
            }
        }),
{
    let ghost secs = section_views(sections@);
    let mut starts: Vec<u32> = Vec::new();
    let mut acc: u64 = 0;
    let mut i: usize = 0;
    while i < sections.len()
        invariant
            0 <= i <= sections@.len(),
            secs == section_views(sections@),
            starts@.len() == i,
            acc == packed_start(secs, i as int),
            acc <= u32::MAX,
            forall|k: int| 0 <= k < i ==> #[trigger] starts@[k] == packed_start(secs, k),
        decreases sections@.len() - i,
    {
        assert(secs[i as int] == sections@[i as int]@);
        starts.push(acc as u32);
        acc = acc + sections[i].length as u64;
        if acc > 0xFFFF_FFFF {
            proof {
                lemma_packed_start_grows(secs, i + 1, sections@.len() as int);
            }
            return Err(OFError::new(OFErrorKind::AddressTooLarge(0xFFFF_FFFF)));
        }
        i = i + 1;
    }
    let ghost all = symbols@;
    let mut recs = symbols.into_records();
    let mut table = SymbolTable::new();
    let mut k: usize = 0;
    assert(all.skip(0) =~= all);
    assert(all.take(0) =~= Seq::<(Seq<u8>, EntryView)>::empty());
    let n: usize = recs.len();
    assert(record_views(recs@).len() == recs@.len());
    assert(all.len() == n);
    while recs.len() > 0
        invariant
            0 <= k <= all.len(),
            all.len() == n,
            all == symbols@,
            secs == section_views(sections@),
            starts@.len() == sections@.len(),
            forall|j: int| 0 <= j < starts@.len() ==> #[trigger] starts@[j] == packed_start(secs, j),
            packed_start(secs, sections@.len() as int) <= u32::MAX,
            record_views(recs@) == all.skip(k as int),
            pack_symbols(secs, all.take(k as int)) == Ok::<
                Seq<(Seq<u8>, EntryView)>,
                (OFErrorKind, Seq<u8>),
            >(table@),
        decreases recs@.len(),
    {
        let ghost before = recs@;
        assert(record_views(recs@).len() == recs@.len());
        assert(k < all.len());
        let rec = recs.remove(0);
        assert(record_views(before)[0] == all.skip(k as int)[0]);
        assert(rec@ == all[k as int]);
        assert(all.take(k + 1).drop_last() =~= all.take(k as int));
        assert(all.take(k + 1).last() == all[k as int]);
        let ghost entry = rec.entry@;
        match pack_entry_exec(&sections, &starts, rec.entry) {
            Ok(e) => table.push(rec.name, e),
            Err(err) => {
                proof {
                    assert(pack_entry(secs, entry) is Err);
                    assert(pack_symbols(secs, all.take(k + 1)) == Err::<
                        Seq<(Seq<u8>, EntryView)>,
                        (OFErrorKind, Seq<u8>),
                    >((err.kind, Seq::empty())));
                    lemma_pack_symbols_fails(secs, all, k + 1);
                }
                return Err(err);
            },
        }
        assert(record_views(recs@) =~= all.skip(k + 1)) by {
            assert forall|j: int| 0 <= j < recs@.len() implies #[trigger] record_views(recs@)[j]
                == all.skip(k + 1)[j] by {
                assert(recs@[j] == before[j + 1]);
                assert(record_views(before)[j + 1] == all.skip(k as int)[j + 1]);
            }
        }
        k = k + 1;
    }
    assert(all.take(k as int) =~= all);
    let mut packed: Vec<Section> = Vec::new();
    let mut rest = sections;
    let m: usize = rest.len();
    assert(section_views(rest@).len() == rest@.len());
    let mut i: usize = 0;
    while rest.len() > 0
        invariant
            0 <= i <= secs.len(),
            secs.len() == m,
            section_views(rest@) == secs.skip(i as int),
            starts@.len() == secs.len(),
            forall|j: int| 0 <= j < starts@.len() ==> #[trigger] starts@[j] == packed_start(secs, j),
            section_views(packed@) == pack_sections(secs).take(i as int),
        decreases rest@.len(),
    {
        let ghost before = rest@;
        assert(section_views(rest@).len() == rest@.len());
        assert(i < secs.len());
        let s = rest.remove(0);
        assert(section_views(before)[0] == secs.skip(i as int)[0]);
        let ghost prev = packed@;
        assert(section_views(prev).len() == prev.len());
        packed.push(Section { flags: s.flags, start: starts[i], length: s.length, data: s.data });
        assert(section_views(packed@) =~= pack_sections(secs).take(i + 1)) by {
            assert forall|j: int| 0 <= j <= i implies #[trigger] section_views(packed@)[j]
                == pack_sections(secs).take(i + 1)[j] by {
                if j < i {
                    assert(packed@[j] == prev[j]);
                    assert(section_views(prev)[j] == pack_sections(secs).take(i as int)[j]);
                } else {
                    assert(s@ == secs[i as int]);
                }
            }
        }
        assert(section_views(rest@) =~= secs.skip(i + 1)) by {
            assert forall|j: int| 0 <= j < rest@.len() implies #[trigger] section_views(rest@)[j]
                == secs.skip(i + 1)[j] by {
                assert(rest@[j] == before[j + 1]);
                assert(section_views(before)[j + 1] == secs.skip(i as int)[j + 1]);
            }
        }
        i = i + 1;
    }
    assert(pack_sections(secs).take(i as int) =~= pack_sections(secs));
    Ok(ObjectFile { symbols: table, sections: packed })
}

/// `sorted` with `s` inserted after every section that starts no later
/// than it.
pub open spec fn insert_by_start(sorted: Seq<SectionView>, s: SectionView) -> Seq<SectionView>
    decreases sorted.len(),
{
    if sorted.len() == 0 {
        seq![s]
    } else if sorted.last().start <= s.start {
        sorted.push(s)
    } else {
        insert_by_start(sorted.drop_last(), s).push(sorted.last())
    }
}

/// The sections ordered by start address, those with equal starts kept in
/// their original order.
pub open spec fn sort_by_start(s: Seq<SectionView>) -> Seq<SectionView>
    decreases s.len(),
{
    if s.len() == 0 {
        s
    } else {
        insert_by_start(sort_by_start(s.drop_last()), s.last())
    }
}

/// Inserting at the first position whose section starts later is
/// `insert_by_start`.
proof fn lemma_insert_at(sorted: Seq<SectionView>, s: SectionView, j: int)
    requires
        0 <= j <= sorted.len(),
        forall|k: int| j <= k < sorted.len() ==> #[trigger] sorted[k].start > s.start,
        j > 0 ==> sorted[j - 1].start <= s.start,
    ensures
        insert_by_start(sorted, s) == sorted.insert(j, s),
    decreases sorted.len(),
{
    if sorted.len() == 0 {
        assert(sorted.insert(j, s) =~= seq![s]);
    } else if j == sorted.len() {
        assert(sorted.insert(j, s) =~= sorted.push(s));
    } else {
        let d = sorted.drop_last();
        assert forall|k: int| j <= k < d.len() implies #[trigger] d[k].start > s.start by {
            assert(d[k] == sorted[k]);
        }
        lemma_insert_at(d, s, j);
        assert(sorted.insert(j, s) =~= d.insert(j, s).push(sorted.last()));
    }
}

/// Insert a section after every section that starts no later than it.
fn insert_sorted(v: &mut Vec<Section>, s: Section)
    ensures
        section_views(final(v)@) == insert_by_start(section_views(old(v)@), s@),
{
    let ghost views = section_views(v@);
    let mut j: usize = v.len();
    while j > 0 && v[j - 1].start > s.start
        invariant
            j <= v@.len(),
            views == section_views(v@),
            forall|k: int| j <= k < v@.len() ==> #[trigger] views[k].start > s.start,
        decreases j,
    {
        j = j - 1;
    }
    proof {
        lemma_insert_at(views, s@, j as int);
    }
    v.insert(j, s);
    assert(section_views(v@) =~= views.insert(j as int, s@));
}

/// Map a read failure to the object file error.
fn eof(e: ReadError) -> (r: OFError)
    ensures
        r.kind == OFErrorKind::UnexpectedEof,
        r.symbol@ == Seq::<u8>::empty(),
{
    OFError::new(OFErrorKind::UnexpectedEof)
}

/// Check a symbol name, handing it back if every byte is a digit, a letter or
/// an underscore.
pub fn validate_symbol_name(name: Vec<u8>) -> (r: Result<Vec<u8>, OFError>)
    ensures
        name_ok(name@) ==> (r matches Ok(n) && n@ == name@),
        !name_ok(name@) ==> (r matches Err(e) && e.kind == OFErrorKind::InvalidSymbolName && e.symbol@ == name@),
{
    let mut i: usize = 0;
    while i < name.len()
        invariant
            i <= name@.len(),
            forall|j: int| 0 <= j < i ==> name_byte_ok(#[trigger] name@[j]),
        decreases name@.len() - i,
    {
        let c = name[i];
        if !((48 <= c && c <= 57) || (65 <= c && c <= 90) || c == 95 || (97 <= c && c <= 122)) {
            assert(!name_byte_ok(name@[i as int]));
            return Err(OFError::with_symbol(OFErrorKind::InvalidSymbolName, name));
        }
        i = i + 1;
    }
    Ok(name)
}

/// A reader of object files.
pub struct Parser {
    source: ByteReader,
}

impl Parser {
    /// Parse a whole object file: the result is `parse_spec` of its bytes.
    pub fn parse(source: ByteReader) -> (r: Result<ObjectFile, OFError>)
        ensures
            match parse_spec(source.data_view()) {
                Ok((syms, secs)) => r matches Ok(of) && of.symbols@ == syms
                    && section_views(of.sections@) == secs,
                Err((kind, name)) => r matches Err(e) && e.kind == kind && e.symbol@ == name,
            },
    {
        let mut p = Parser { source };
        match p.run() {
            Err(e) => Err(e),
            Ok(of) => pack(of.sections, of.symbols),
        }
    }

    fn run(&mut self) -> (r: Result<ObjectFile, OFError>)
        ensures
            match read_spec(old(self).source.data_view()) {
                Ok((syms, secs)) => r matches Ok(of) && of.symbols@ == syms
                    && section_views(of.sections@) == secs,
                Err((kind, name)) => r matches Err(e) && e.kind == kind && e.symbol@ == name,
            },
    {
        let ghost b = self.source.data_view();
        self.source.seek(0);
        let magic = match self.source.read_exact(6) {
            Ok(m) => m,
            Err(e) => return Err(eof(e)),
        };
        if !(magic[0] == 83 && magic[1] == 73 && magic[2] == 77 && magic[3] == 79 && magic[4]
            == 66 && magic[5] == 74) {
            proof {
                assert(magic@ != magic_header());
            }
            return Err(OFError::new(OFErrorKind::InvalidMagic));
        }
        assert(b.subrange(0, 6) =~= magic_header());
        let version = match self.source.read_be_u16() {
            Ok(v) => v,
            Err(e) => return Err(eof(e)),
        };
        if version != ABI_VERSION {
            return Err(OFError::new(OFErrorKind::UnsupportedAbiVersion));
        }
        let symbol_table_start = match self.source.read_be_u32() {
            Ok(v) => v,
            Err(e) => return Err(eof(e)),
        };
        let num_symbols = match self.source.read_be_u32() {
            Ok(v) => v,
            Err(e) => return Err(eof(e)),
        };
        let section_headers_start = match self.source.read_be_u32() {
            Ok(v) => v,
            Err(e) => return Err(eof(e)),
        };
        let num_sections = match self.source.read_be_u32() {
            Ok(v) => v,
            Err(e) => return Err(eof(e)),
        };
        assert(header_spec(b) == Ok::<(u32, u32, u32, u32), OFErrorKind>(
            (symbol_table_start, num_symbols, section_headers_start, num_sections),
        ));
        let sections = match self.parse_sections(section_headers_start, num_sections) {
            Ok(s) => s,
            Err(e) => return Err(e),
        };
        let symbols = match self.parse_symbol_table(symbol_table_start, num_symbols) {
            Ok(s) => s,
            Err(e) => return Err(e),
        };
        Ok(ObjectFile { symbols, sections })
    }

    /// Read the section headers and the sections they describe, in header
    /// order.
    fn parse_sections(&mut self, base: u32, num_headers: u32) -> (r: Result<Vec<Section>, OFError>)
        ensures
            final(self).source.data_view() == old(self).source.data_view(),
            match sections_from(old(self).source.data_view(), base as int, 0, num_headers as nat, Seq::empty()) {
                Ok(secs) => r matches Ok(v) && section_views(v@) == sort_by_start(secs),
                Err(kind) => r matches Err(e) && e.kind == kind && e.symbol@ == Seq::<u8>::empty(),
            },
    {
        let ghost b = self.source.data_view();
        self.source.seek(base as u64);
        let mut sections: Vec<Section> = Vec::new();
        let mut i: u32 = 0;
        let ghost mut acc: Seq<SectionView> = Seq::empty();
        assert(section_views(sections@) =~= Seq::<SectionView>::empty());
        while i < num_headers
            invariant
                i <= num_headers,
                self.source.data_view() == b,
                b == old(self).source.data_view(),
                self.source.pos_view() == base + 12 * i,
                sections_from(b, base as int, 0, num_headers as nat, Seq::empty()) == sections_from(
                    b,
                    base as int,
                    i as nat,
                    num_headers as nat,
                    acc,
                ),
                section_views(sections@) == sort_by_start(acc),
            decreases num_headers - i,
        {
            let ghost p: int = base + 12 * i;
            let flags = match self.source.read_u8() {
                Ok(v) => v,
                Err(e) => return Err(eof(e)),
            };
            self.source.skip(3);
            let section_start = match self.source.read_be_u32() {
                Ok(v) => v,
                Err(e) => return Err(eof(e)),
            };
            let section_length = match self.source.read_be_u32() {
                Ok(v) => v,
                Err(e) => return Err(eof(e)),
            };
            let current_pos = self.source.position();
            let data: Vec<u8> = if section_length > 0 {
                self.source.seek(section_start as u64);
                match self.source.read_exact(section_length as usize) {
                    Ok(d) => d,
                    Err(e) => return Err(eof(e)),
                }
            } else {
                Vec::new()
            };
            self.source.seek(current_pos);
            let sec = Section { flags, start: section_start, length: section_length, data };
            proof {
                assert(section_at(b, p) == Ok::<SectionView, OFErrorKind>(sec@));
            }
            let ghost sv = sec@;
            insert_sorted(&mut sections, sec);
            proof {
                assert(acc.push(sv).drop_last() =~= acc);
                acc = acc.push(sv);
            }
            i = i + 1;
        }
        Ok(sections)
    }

    /// Read `num_entries` symbol table entries starting at `base`.
    fn parse_symbol_table(&mut self, base: u32, num_entries: u32) -> (r: Result<SymbolTable, OFError>)
        ensures
            final(self).source.data_view() == old(self).source.data_view(),
            match symbols_from(old(self).source.data_view(), base as int, num_entries as nat, Seq::empty()) {
                Ok(syms) => r matches Ok(t) && t@ == syms,
                Err((kind, name)) => r matches Err(e) && e.kind == kind && e.symbol@ == name,
            },
    {
        let ghost b = self.source.data_view();
        self.source.seek(base as u64);
        let mut table = SymbolTable::new();
        let mut i: u32 = 0;
        while i < num_entries
            invariant
                i <= num_entries,
                self.source.data_view() == b,
                b == old(self).source.data_view(),
                symbols_from(b, base as int, num_entries as nat, Seq::empty()) == symbols_from(
                    b,
                    self.source.pos_view(),
                    (num_entries - i) as nat,
                    table@,
                ),
            decreases num_entries - i,
        {
            let ghost p = self.source.pos_view();
            let symbol_type = match self.source.read_u8() {
                Ok(v) => v,
                Err(e) => return Err(eof(e)),
            };
            match symbol_type_name(symbol_type) {
                Ok(_) => {},
                Err(_) => return Err(OFError::new(OFErrorKind::InvalidSymbolType)),
            }
            let value = match self.source.read_be_u32() {
                Ok(v) => v,
                Err(e) => return Err(eof(e)),
            };
            let name_len = match self.source.read_u8() {
                Ok(v) => v,
                Err(e) => return Err(eof(e)),
            };
            if name_len == 0 {
                return Err(OFError::new(OFErrorKind::EmptySymbolName));
            }
            let name_buf = match self.source.read_exact(name_len as usize) {
                Ok(v) => v,
                Err(e) => return Err(eof(e)),
            };
            let name = match validate_symbol_name(name_buf) {
                Ok(n) => n,
                Err(e) => return Err(e),
            };
            assert(symbol_head(b, p) == Ok::<(u8, u32, Seq<u8>, int), (OFErrorKind, Seq<u8>)>(
                (symbol_type, value, name@, p + 6 + name_len),
            ));
            if table.contains(name.as_slice()) {
                return Err(OFError::with_symbol(OFErrorKind::MultipleDefinitions, name));
            }
            let num_refs = match self.source.read_be_u32() {
                Ok(v) => v,
                Err(e) => return Err(eof(e)),
            };
            let references = match self.parse_references(num_refs) {
                Ok(v) => v,
                Err(e) => return Err(e),
            };
            let entry_value = if symbol_type == SYMBOL_TYPE_EXTERNAL {
                None
            } else {
                Some(value)
            };
            let entry = SymbolTableEntry { symbol_type, value: entry_value, references };
            table.push(name, entry);
            i = i + 1;
        }
        Ok(table)
    }

    /// Read `num_refs` reference offsets, then check that each points at four
    /// zero bytes, leaving the position after the offsets.
    fn parse_references(&mut self, num_refs: u32) -> (r: Result<Vec<u32>, OFError>)
        requires
            old(self).source.pos_view() <= old(self).source.data_view().len(),
        ensures
            final(self).source.data_view() == old(self).source.data_view(),
            ({
                let b = old(self).source.data_view();
                let p = old(self).source.pos_view();
                if p + 4 * num_refs > b.len() {
                    r matches Err(e) && e.kind == OFErrorKind::UnexpectedEof && e.symbol@ == Seq::<u8>::empty()
                } else {
                    match first_bad_ref(b, refs_at(b, p, num_refs as nat), 0) {
                        Some(kind) => r matches Err(e) && e.kind == kind && e.symbol@ == Seq::<u8>::empty(),
                        None => r matches Ok(v) && v@ == refs_at(b, p, num_refs as nat)
                            && final(self).source.pos_view() == p + 4 * num_refs,
                    }
                }
            }),
    {
        let ghost b = self.source.data_view();
        let ghost p = self.source.pos_view();
        let mut offsets: Vec<u32> = Vec::new();
        let mut i: u32 = 0;
        while i < num_refs
            invariant
                i <= num_refs,
                self.source.data_view() == b,
                b == old(self).source.data_view(),
                p == old(self).source.pos_view(),
                self.source.pos_view() == p + 4 * i,
                p + 4 * i <= b.len(),
                offsets@ == refs_at(b, p, i as nat),
            decreases num_refs - i,
        {
            let offset = match self.source.read_be_u32() {
                Ok(v) => v,
                Err(e) => return Err(eof(e)),
            };
            offsets.push(offset);
            i = i + 1;
            assert(offsets@ =~= refs_at(b, p, i as nat));
        }
        let current_pos = self.source.position();
        let mut k: usize = 0;
        while k < offsets.len()
            invariant
                k <= offsets@.len(),
                offsets@ == refs_at(b, p, num_refs as nat),
                self.source.data_view() == b,
                b == old(self).source.data_view(),
                p == old(self).source.pos_view(),
                p + 4 * num_refs <= b.len(),
                current_pos == p + 4 * num_refs,
                first_bad_ref(b, offsets@, 0) == first_bad_ref(b, offsets@, k as nat),
            decreases offsets@.len() - k,
        {
            self.source.seek(offsets[k] as u64);
            let v = match self.source.read_be_u32() {
                Ok(v) => v,
                Err(e) => return Err(eof(e)),
            };
            if v != 0 {
                return Err(OFError::new(OFErrorKind::NonZeroReference));
            }
            k = k + 1;
        }
        self.source.seek(current_pos);
        Ok(offsets)
    }
}

} // verus!
