//! A readable listing of an object file: its symbols in name order, each
//! with its type, value and references, then its sections, each with its
//! flags, start, length and a hex dump of its data.
use vstd::prelude::*;
use crate::bytes::extend_bytes;
use crate::hexprint::{hex_block, hex_block_bytes};
use crate::silk::data::{EntryView, ObjectFile, Section, SectionView};
use crate::silk::linker::Linker;
use crate::sorting::{is_stable_order, key_views, sorted_order};
use crate::text::{ascii_chars, bytes_to_string, decimal, decimal_bytes, hex_bytes, hex_fixed, is_ascii_bytes};

verus! {

/// `n` as exactly `width` binary digits, most significant first.
pub open spec fn bin_fixed(n: nat, width: nat) -> Seq<u8>
    decreases width,
{
    if width == 0 {
        Seq::empty()
    } else {
        bin_fixed(n / 2, (width - 1) as nat).push((48 + n % 2) as u8)
    }
}

/// A word as `0x` and eight upper-case hexadecimal digits.
pub open spec fn hex_word(v: u32) -> Seq<u8> {
    seq![48u8, 120u8] + hex_fixed(v as nat, 8)
}

/// The lines of a symbol's references: two spaces and the reference each.
pub open spec fn refs_text(refs: Seq<u32>) -> Seq<u8>
    decreases refs.len(),
{
    if refs.len() == 0 {
        Seq::empty()
    } else {
        refs_text(refs.drop_last()) + seq![32u8, 32u8] + hex_word(refs.last()) + seq![10u8]
    }
}

/// A symbol's lines: its name, its type, its value where it has one, then
/// its references.
pub open spec fn symbol_text(name: Seq<u8>, e: EntryView) -> Seq<u8> {
    name + seq![32u8, e.symbol_type] + (match e.value {
        None => Seq::empty(),
        Some(v) => seq![32u8] + hex_word(v) + seq![32u8],
    }) + seq![10u8] + refs_text(e.references)
}

/// The symbols' lines, in the order `o`.
pub open spec fn symbols_text(syms: Seq<(Seq<u8>, EntryView)>, o: Seq<usize>) -> Seq<u8>
    decreases o.len(),
{
    if o.len() == 0 {
        Seq::empty()
    } else {
        symbols_text(syms, o.drop_last()) + symbol_text(syms[o.last() as int].0, syms[o.last() as int].1)
    }
}

/// A section's own lines: its flags, start and length, then the hex dump of
/// its data, addresses counted from its start.
pub open spec fn section_body(s: SectionView) -> Seq<u8> {
    "flags: "@.map_values(|c: char| c as u8) + bin_fixed(s.flags as nat, 8) + " start: "@.map_values(
        |c: char| c as u8,
    ) + hex_word(s.start) + " length: "@.map_values(|c: char| c as u8) + hex_word(s.length) + seq![10u8]
        + hex_block(s.data, s.start as nat)
}

/// Section `i`'s lines in the listing: its number, then its own lines.
pub open spec fn section_text(i: nat, s: SectionView) -> Seq<u8> {
    "Section "@.map_values(|c: char| c as u8) + decimal(i) + seq![32u8] + section_body(s) + seq![10u8]
}

/// Whether every section's addresses, counted from its start, fit in a
/// `usize`.
pub open spec fn sections_addressable(secs: Seq<SectionView>) -> bool {
    forall|i: int| 0 <= i < secs.len() ==> secs[i].start + secs[i].data.len() <= usize::MAX
}

/// The sections' lines, numbered from zero.
pub open spec fn sections_text(secs: Seq<SectionView>) -> Seq<u8>
    decreases secs.len(),
{
    if secs.len() == 0 {
        Seq::empty()
    } else {
        sections_text(secs.drop_last()) + section_text((secs.len() - 1) as nat, secs.last())
    }
}

/// The keys that order the symbols: their names.
pub open spec fn name_keys(syms: Seq<(Seq<u8>, EntryView)>) -> Seq<(u64, Seq<u8>)> {
    syms.map_values(|p: (Seq<u8>, EntryView)| (0u64, p.0))
}

/// The listing, with the symbols in the order `o`.
pub open spec fn listing(syms: Seq<(Seq<u8>, EntryView)>, secs: Seq<SectionView>, o: Seq<usize>) -> Seq<u8> {
    "---Symbols---\n"@.map_values(|c: char| c as u8) + symbols_text(syms, o)
        + "---Sections---\n"@.map_values(|c: char| c as u8) + sections_text(secs)
}

/// Append the bytes of a string literal.
fn push_text(out: &mut Vec<u8>, s: &str)
    requires
        s.is_ascii(),
    ensures
        final(out)@ == old(out)@ + s@.map_values(|c: char| c as u8),
{
    let b = s.as_bytes();
    proof {
        vstd::string::is_ascii_spec_bytes(s);
        assert(b@ =~= s@.map_values(|c: char| c as u8));
    }
    extend_bytes(out, b);
}

/// Append a word as `0x` and eight hexadecimal digits.
fn push_hex_word(out: &mut Vec<u8>, v: u32)
    ensures
        final(out)@ == old(out)@ + hex_word(v),
{
    out.push(48);
    out.push(120);
    let d = hex_bytes(v as u64, 8);
    extend_bytes(out, d.as_slice());
    assert(final(out)@ =~= old(out)@ + hex_word(v));
}

/// Append a byte as eight binary digits.
fn push_binary(out: &mut Vec<u8>, b: u8)
    ensures
        final(out)@ == old(out)@ + bin_fixed(b as nat, 8),
{
    let mut digits: Vec<u8> = Vec::new();
    let mut m: u8 = b;
    let mut j: usize = 0;
    while j < 8
        invariant
            j <= 8,
            digits@.len() == j,
            bin_fixed(b as nat, 8) == bin_fixed(m as nat, (8 - j) as nat) + digits@.reverse(),
        decreases 8 - j,
    {
        let ghost before = digits@;
        digits.push(48 + m % 2);
        assert(digits@.reverse() =~= seq![(48 + m % 2) as u8] + before.reverse());
        assert(bin_fixed(m as nat, (8 - j) as nat) == bin_fixed((m / 2) as nat, (8 - j - 1) as nat).push(
            (48 + m % 2) as u8,
        ));
        assert(bin_fixed((m / 2) as nat, (8 - j - 1) as nat).push((48 + m % 2) as u8) + before.reverse()
            =~= bin_fixed((m / 2) as nat, (8 - j - 1) as nat) + digits@.reverse());
        m = m / 2;
        j = j + 1;
    }
    assert(bin_fixed(m as nat, 0) =~= Seq::<u8>::empty());
    assert(bin_fixed(b as nat, 8) =~= digits@.reverse());
    let mut k: usize = 8;
    let ghost start = out@;
    while k > 0
        invariant
            k <= 8,
            digits@.len() == 8,
            out@ == start + digits@.reverse().take(8 - k),
        decreases k,
    {
        out.push(digits[k - 1]);
        assert(digits@.reverse().take(8 - k + 1) =~= digits@.reverse().take(8 - k).push(digits@[k - 1]));
        k = k - 1;
    }
    assert(digits@.reverse().take(8) =~= digits@.reverse());
}

/// Append a section's own lines.
fn push_section(out: &mut Vec<u8>, s: &Section)
    requires
        s.start + s.data@.len() <= usize::MAX,
    ensures
        final(out)@ == old(out)@ + section_body(s@),
{
    proof {
        reveal_strlit("flags: ");
    }
    push_text(out, "flags: ");
    push_binary(out, s.flags);
    proof {
        reveal_strlit(" start: ");
    }
    push_text(out, " start: ");
    push_hex_word(out, s.start);
    proof {
        reveal_strlit(" length: ");
    }
    push_text(out, " length: ");
    push_hex_word(out, s.length);
    out.push(10);
    let dump = hex_block_bytes(&s.data, s.start as usize);
    extend_bytes(out, dump.as_slice());
    assert(final(out)@ =~= old(out)@ + section_body(s@));
}

impl Section {
    /// A section's own lines: flags, start and length, then the hex dump of
    /// its data. The text is stated where it is ASCII, which it always is.
    pub fn to_text(&self) -> (r: String)
        requires
            self.start + self.data@.len() <= usize::MAX,
        ensures
            is_ascii_bytes(section_body(self@)) ==> r@ == ascii_chars(section_body(self@)),
    {
        let mut out: Vec<u8> = Vec::new();
        push_section(&mut out, self);
        assert(out@ =~= section_body(self@));
        bytes_to_string(out.as_slice())
    }
}

impl ObjectFile {
    /// The listing of the object file: `listing` of its symbols in name
    /// order (a stable order, which is the only one) and its sections. The
    /// text is stated where it is ASCII, as names and symbol types are once
    /// read.
    pub fn to_text(&self) -> (r: String)
        requires
            sections_addressable(self@.sections),
        ensures
            exists|o: Seq<usize>|
                is_stable_order(name_keys(self@.symbols), o) && (is_ascii_bytes(listing(self@.symbols, self@.sections, o))
                    ==> r@ == ascii_chars(listing(self@.symbols, self@.sections, o))),
    {
        let ghost syms = self@.symbols;
        let records = self.symbols.records();
        let mut keys: Vec<(u64, Vec<u8>)> = Vec::new();
        let mut k: usize = 0;
        while k < records.len()
            invariant
                k <= records@.len(),
                crate::silk::data::record_views(records@) == syms,
                key_views(keys@) =~= name_keys(syms).take(k as int),
            decreases records@.len() - k,
        {
            let nm = crate::bytes::copy_bytes(records[k].name.as_slice());
            let ghost kv0 = keys@;
            let ghost nv = nm@;
            keys.push((0u64, nm));
            assert(keys@ == kv0.push((0u64, nm)));
            assert(key_views(keys@) =~= key_views(kv0).push((0u64, nv)));
            assert(syms[k as int] == records@[k as int]@);
            assert(name_keys(syms).take(k + 1) =~= name_keys(syms).take(k as int).push(name_keys(syms)[k as int]));
            k = k + 1;
        }
        assert(key_views(keys@) =~= name_keys(syms));
        let o = sorted_order(&keys);
        let mut out: Vec<u8> = Vec::new();
        proof {
            reveal_strlit("---Symbols---\n");
        }
        push_text(&mut out, "---Symbols---\n");
        let mut m: usize = 0;
        let ghost head = out@;
        while m < o.len()
            invariant
                m <= o@.len(),
                is_stable_order(name_keys(syms), o@),
                crate::silk::data::record_views(records@) == syms,
                out@ == head + symbols_text(syms, o@.take(m as int)),
            decreases o@.len() - m,
        {
            let ghost before = out@;
            let rec = &records[o[m]];
            assert(syms[o@[m as int] as int] == rec@);
            extend_bytes(&mut out, rec.name.as_slice());
            out.push(32);
            out.push(rec.entry.symbol_type);
            match rec.entry.value {
                None => {},
                Some(v) => {
                    out.push(32);
                    push_hex_word(&mut out, v);
                    out.push(32);
                },
            }
            out.push(10);
            let ghost line = out@;
            let mut j: usize = 0;
            while j < rec.entry.references.len()
                invariant
                    j <= rec.entry.references@.len(),
                    out@ == line + refs_text(rec.entry.references@.take(j as int)),
                decreases rec.entry.references@.len() - j,
            {
                out.push(32);
                out.push(32);
                push_hex_word(&mut out, rec.entry.references[j]);
                out.push(10);
                assert(rec.entry.references@.take(j + 1).drop_last() =~= rec.entry.references@.take(j as int));
                j = j + 1;
            }
            assert(rec.entry.references@.take(j as int) =~= rec.entry.references@);
            assert(o@.take(m + 1).drop_last() =~= o@.take(m as int));
            assert(out@ =~= before + symbol_text(rec@.0, rec@.1));
            m = m + 1;
        }
        assert(o@.take(m as int) =~= o@);
        proof {
            reveal_strlit("---Sections---\n");
        }
        push_text(&mut out, "---Sections---\n");
        let ghost mid = out@;
        let mut i: usize = 0;
        while i < self.sections.len()
            invariant
                i <= self.sections@.len(),
                sections_addressable(self@.sections),
                out@ == mid + sections_text(self@.sections.take(i as int)),
            decreases self.sections@.len() - i,
        {
            let ghost before = out@;
            let s = &self.sections[i];
            proof {
                reveal_strlit("Section ");
            }
            push_text(&mut out, "Section ");
            let num = decimal_bytes(i as u64);
            extend_bytes(&mut out, num.as_slice());
            out.push(32);
            assert(self@.sections[i as int] == s@);
            push_section(&mut out, s);
            out.push(10);
            assert(self@.sections.take(i + 1).drop_last() =~= self@.sections.take(i as int));
            assert(out@ =~= before + section_text(i as nat, s@));
            i = i + 1;
        }
        assert(self@.sections.take(i as int) =~= self@.sections);
        assert(out@ =~= listing(syms, self@.sections, o@));
        bytes_to_string(out.as_slice())
    }
}

impl Linker {
    /// The listing of the object file that the linker holds.
    pub fn to_text(&self) -> (r: String)
        requires
            sections_addressable(self@.sections),
        ensures
            exists|o: Seq<usize>|
                is_stable_order(name_keys(self@.symbols), o) && (is_ascii_bytes(listing(self@.symbols, self@.sections, o))
                    ==> r@ == ascii_chars(listing(self@.symbols, self@.sections, o))),
    {
        self.object().to_text()
    }
}

} // verus!
