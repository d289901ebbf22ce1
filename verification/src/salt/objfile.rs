//! The SimObj object file of a generated program: the header, the symbol
//! table in name order, the section headers, and the code, read-only data
//! and read-write data sections.
use vstd::prelude::*;
use crate::bytes::{be_u16_bytes, be_u32_bytes, extend_bytes, WriteBE};
use crate::salt::codegen::{EntrySpec, LabelLocation, Symbol, SymbolTableEntry};

verus! {

/// The references from the code to an entry.
pub open spec fn refs_of(e: EntrySpec) -> Seq<u32> {
    match e {
        EntrySpec::D { references, .. } => references,
        EntrySpec::L { references, .. } => references,
        EntrySpec::E { references, .. } => references,
        EntrySpec::C { .. } => Seq::empty(),
    }
}

/// The number of bytes an entry takes in the symbol table: none for a
/// constant.
pub open spec fn entry_size(p: (Seq<u8>, EntrySpec)) -> nat {
    if p.1 is C {
        0
    } else {
        10 + p.0.len() + 4 * refs_of(p.1).len()
    }
}

/// The size of an entry's data in the read-write (`mutable`) or read-only
/// section.
pub open spec fn data_len(e: EntrySpec, mutable: bool) -> nat {
    match e {
        EntrySpec::D { mutable: m, size, .. } => if m == mutable {
            size as nat
        } else {
            0
        },
        _ => 0,
    }
}

/// For the entries at the positions `o`: how many go into the symbol table,
/// the bytes they take there, and the sizes of the read-only and read-write
/// data.
pub open spec fn table_stats(syms: Seq<(Seq<u8>, EntrySpec)>, o: Seq<usize>) -> (nat, nat, nat, nat)
    decreases o.len(),
{
    if o.len() == 0 {
        (0, 0, 0, 0)
    } else {
        let r = table_stats(syms, o.drop_last());
        let p = syms[o.last() as int];
        (
            r.0 + if p.1 is C {
                0nat
            } else {
                1nat
            },
            r.1 + entry_size(p),
            r.2 + data_len(p.1, false),
            r.3 + data_len(p.1, true),
        )
    }
}

/// The references' addresses: each offset into the code from the code's
/// base, big-endian.
pub open spec fn ref_bytes(refs: Seq<u32>, ib: u32) -> Seq<u8>
    decreases refs.len(),
{
    if refs.len() == 0 {
        Seq::empty()
    } else {
        ref_bytes(refs.drop_last(), ib) + be_u32_bytes((ib + refs.last()) as u32)
    }
}

/// Whether an entry can be written with the code at `ib`: a name of at most
/// 255 bytes, references that fit, and for a label, an offset whose address
/// fits.
pub open spec fn entry_ok(p: (Seq<u8>, EntrySpec), ib: u32) -> bool {
    p.1 is C || {
        &&& p.0.len() <= 255
        &&& refs_of(p.1).len() <= u32::MAX
        &&& forall|i: int| 0 <= i < refs_of(p.1).len() ==> ib + #[trigger] refs_of(p.1)[i] <= u32::MAX
        &&& match p.1 {
            EntrySpec::L { location, .. } => match location {
                LabelLocation::Offset(off) => ib + off <= u32::MAX,
                LabelLocation::Reference(_) => false,
            },
            _ => true,
        }
    }
}

/// The symbol type: public (`P`) or internal (`I`) data and labels, and
/// external symbols (`E`).
pub open spec fn type_byte(e: EntrySpec) -> u8 {
    match e {
        EntrySpec::D { public, .. } => if public {
            0x50
        } else {
            0x49
        },
        EntrySpec::L { public, .. } => if public {
            0x50
        } else {
            0x49
        },
        _ => 0x45,
    }
}

/// The symbol value: data's address in its section, a label's address in
/// the code, zero for an external symbol.
pub open spec fn entry_value(e: EntrySpec, ib: u32, ro: u32, rw: u32) -> u32 {
    match e {
        EntrySpec::D { mutable, .. } => if mutable {
            rw
        } else {
            ro
        },
        EntrySpec::L { location, .. } => match location {
            LabelLocation::Offset(off) => (ib + off) as u32,
            LabelLocation::Reference(_) => 0,
        },
        _ => 0,
    }
}

/// A symbol table entry: type, value, name length, name, number of
/// references and the references.
pub open spec fn entry_bytes(p: (Seq<u8>, EntrySpec), ib: u32, ro: u32, rw: u32) -> Seq<u8> {
    seq![type_byte(p.1)] + be_u32_bytes(entry_value(p.1, ib, ro, rw)) + seq![p.0.len() as u8] + p.0 + be_u32_bytes(
        refs_of(p.1).len() as u32,
    ) + ref_bytes(refs_of(p.1), ib)
}

/// The symbol table of the entries at the positions `o`, constants left
/// out, with the read-only and read-write data in the same order; `ro` and
/// `rw` are where the next data goes. `None` where an entry cannot be
/// written.
pub open spec fn table_bytes(syms: Seq<(Seq<u8>, EntrySpec)>, o: Seq<usize>, ib: u32, ro: u32, rw: u32) -> Option<
    (Seq<u8>, Seq<u8>, Seq<u8>),
>
    decreases o.len(),
{
    if o.len() == 0 {
        Some((Seq::empty(), Seq::empty(), Seq::empty()))
    } else {
        let p = syms[o[0] as int];
        if !entry_ok(p, ib) {
            None
        } else {
            match p.1 {
                EntrySpec::C { .. } => table_bytes(syms, o.skip(1), ib, ro, rw),
                EntrySpec::D { mutable, size, initialiser, .. } => {
                    let rest = if mutable {
                        table_bytes(syms, o.skip(1), ib, ro, rw.wrapping_add(size as u32))
                    } else {
                        table_bytes(syms, o.skip(1), ib, ro.wrapping_add(size as u32), rw)
                    };
                    match rest {
                        None => None,
                        Some((b, r1, r2)) => Some(
                            (
                                entry_bytes(p, ib, ro, rw) + b,
                                if mutable {
                                    r1
                                } else {
                                    initialiser + r1
                                },
                                if mutable {
                                    initialiser + r2
                                } else {
                                    r2
                                },
                            ),
                        ),
                    }
                },
                _ => match table_bytes(syms, o.skip(1), ib, ro, rw) {
                    None => None,
                    Some((b, r1, r2)) => Some((entry_bytes(p, ib, ro, rw) + b, r1, r2)),
                },
            }
        }
    }
}

/// The number of sections: code, read-only data and read-write data, each
/// where it is not empty.
pub open spec fn num_sections(code_len: nat, ro: nat, rw: nat) -> nat {
    (if code_len > 0 {
        1nat
    } else {
        0nat
    }) + (if ro > 0 {
        1nat
    } else {
        0nat
    }) + (if rw > 0 {
        1nat
    } else {
        0nat
    })
}

/// The section headers: flags and length of each section there is; the
/// code is executable, and the entrypoint where asked.
pub open spec fn section_headers(code_len: nat, ro: nat, rw: nat, entrypoint: bool) -> Seq<u8> {
    (if code_len > 0 {
        seq![
            if entrypoint {
                0x11u8
            } else {
                0x10u8
            },
        ] + be_u32_bytes(code_len as u32)
    } else {
        Seq::empty()
    }) + (if ro > 0 {
        seq![0x04u8] + be_u32_bytes(ro as u32)
    } else {
        Seq::empty()
    }) + (if rw > 0 {
        seq![0x0Cu8] + be_u32_bytes(rw as u32)
    } else {
        Seq::empty()
    })
}

/// The magic header of a SimObj file.
pub open spec fn simobj_magic() -> Seq<u8> {
    seq![0x53u8, 0x49u8, 0x4Du8, 0x4Fu8, 0x42u8, 0x4Au8]
}

/// The object file of a symbol table, written in the order `o`, and code,
/// where there is at least one section: the header (magic, ABI version 1,
/// number of symbols and of sections), the symbol table, the section
/// headers, then the code, read-only and read-write data. `None` where a
/// count, base or address does not fit in 32 bits, or an entry cannot be
/// written.
pub open spec fn simobj_spec(syms: Seq<(Seq<u8>, EntrySpec)>, code: Seq<u8>, o: Seq<usize>, entrypoint: bool) -> Option<
    Seq<u8>,
> {
    let st = table_stats(syms, o);
    let ns = num_sections(code.len(), st.2, st.3);
    let ib = 16 + st.1 + 5 * ns;
    let rob = ib + code.len();
    let rwb = rob + st.2;
    if st.0 > u32::MAX || rwb + st.3 > u32::MAX {
        None
    } else {
        match table_bytes(syms, o, ib as u32, rob as u32, rwb as u32) {
            None => None,
            Some((tb, rod, rwd)) => if rod.len() != st.2 || rwd.len() != st.3 {
                None
            } else {
                Some(
                    simobj_magic() + be_u16_bytes(1) + be_u32_bytes(st.0 as u32) + be_u32_bytes(ns as u32) + tb
                        + section_headers(code.len(), st.2, st.3, entrypoint) + code + rod + rwd,
                )
            },
        }
    }
}

/// The stats of a prefix are no more than those of the whole.
proof fn lemma_stats_prefix(syms: Seq<(Seq<u8>, EntrySpec)>, o: Seq<usize>, k: int)
    requires
        0 <= k <= o.len(),
    ensures
        table_stats(syms, o.take(k)).0 <= table_stats(syms, o).0,
        table_stats(syms, o.take(k)).1 <= table_stats(syms, o).1,
        table_stats(syms, o.take(k)).2 <= table_stats(syms, o).2,
        table_stats(syms, o.take(k)).3 <= table_stats(syms, o).3,
    decreases o.len() - k,
{
    if k < o.len() {
        lemma_stats_prefix(syms, o, k + 1);
        assert(o.take(k + 1).drop_last() =~= o.take(k));
    } else {
        assert(o.take(k) =~= o);
    }
}

/// The abstract entries of a symbol table.
pub open spec fn sym_views(s: Seq<Symbol>) -> Seq<(Seq<u8>, EntrySpec)> {
    s.map_values(|x: Symbol| x@)
}

/// The stats of the entries at the positions `o`, as `table_stats` says,
/// where each fits in 32 bits.
fn stats_of(syms: &Vec<Symbol>, o: &Vec<usize>) -> (r: Option<(u64, u64, u64, u64)>)
    requires
        forall|i: int| 0 <= i < o@.len() ==> #[trigger] o@[i] < syms@.len(),
    ensures
        match r {
            Some((n, size, ro, rw)) => (n as nat, size as nat, ro as nat, rw as nat) == table_stats(sym_views(syms@), o@)
                && n <= u32::MAX && size <= u32::MAX && ro <= u32::MAX && rw <= u32::MAX,
            None => table_stats(sym_views(syms@), o@).0 > u32::MAX || table_stats(sym_views(syms@), o@).1 > u32::MAX
                || table_stats(sym_views(syms@), o@).2 > u32::MAX || table_stats(sym_views(syms@), o@).3 > u32::MAX,
        },
{
    let ghost sv = sym_views(syms@);
    let mut n: u64 = 0;
    let mut size: u64 = 0;
    let mut ro: u64 = 0;
    let mut rw: u64 = 0;
    let mut k: usize = 0;
    assert(o@.take(0) =~= Seq::<usize>::empty());
    while k < o.len()
        invariant
            k <= o@.len(),
            sv == sym_views(syms@),
            forall|i: int| 0 <= i < o@.len() ==> #[trigger] o@[i] < syms@.len(),
            (n as nat, size as nat, ro as nat, rw as nat) == table_stats(sv, o@.take(k as int)),
            n <= u32::MAX,
            size <= u32::MAX,
            ro <= u32::MAX,
            rw <= u32::MAX,
        decreases o@.len() - k,
    {
        let ghost pre = o@.take(k as int);
        assert(o@.take(k + 1).drop_last() =~= pre);
        assert(o@.take(k + 1).last() == o@[k as int]);
        let j = o[k];
        assert(sv[j as int] == syms@[j as int]@);
        let sym = &syms[j];
        match &sym.entry {
            SymbolTableEntry::C { .. } => {},
            SymbolTableEntry::D { mutable, size: sz, references, .. } => {
                if sym.name.len() > 0xFFFF_FFFF || references.len() > 0xFFFF_FFFF || *sz > 0xFFFF_FFFF {
                    proof {
                        lemma_stats_prefix(sv, o@, k + 1);
                    }
                    return None;
                }
                n = n + 1;
                size = size + 10 + sym.name.len() as u64 + 4 * references.len() as u64;
                if *mutable {
                    rw = rw + *sz as u64;
                } else {
                    ro = ro + *sz as u64;
                }
            },
            SymbolTableEntry::L { references, .. } => {
                if sym.name.len() > 0xFFFF_FFFF || references.len() > 0xFFFF_FFFF {
                    proof {
                        lemma_stats_prefix(sv, o@, k + 1);
                    }
                    return None;
                }
                n = n + 1;
                size = size + 10 + sym.name.len() as u64 + 4 * references.len() as u64;
            },
            SymbolTableEntry::E { references, .. } => {
                if sym.name.len() > 0xFFFF_FFFF || references.len() > 0xFFFF_FFFF {
                    proof {
                        lemma_stats_prefix(sv, o@, k + 1);
                    }
                    return None;
                }
                n = n + 1;
                size = size + 10 + sym.name.len() as u64 + 4 * references.len() as u64;
            },
        }
        if n > 0xFFFF_FFFF || size > 0xFFFF_FFFF || ro > 0xFFFF_FFFF || rw > 0xFFFF_FFFF {
            proof {
                lemma_stats_prefix(sv, o@, k + 1);
            }
            return None;
        }
        k = k + 1;
    }
    assert(o@.take(k as int) =~= o@);
    Some((n, size, ro, rw))
}

/// Bytes put in front of a table's bytes and data.
pub open spec fn prepend3(
    a: Seq<u8>,
    b: Seq<u8>,
    c: Seq<u8>,
    t: Option<(Seq<u8>, Seq<u8>, Seq<u8>)>,
) -> Option<(Seq<u8>, Seq<u8>, Seq<u8>)> {
    match t {
        None => None,
        Some((x, y, z)) => Some((a + x, b + y, c + z)),
    }
}

/// Whether every reference's address fits.
fn refs_fit(refs: &Vec<u32>, ib: u32) -> (r: bool)
    ensures
        r == forall|i: int| 0 <= i < refs@.len() ==> ib + #[trigger] refs@[i] <= u32::MAX,
{
    let mut i: usize = 0;
    while i < refs.len()
        invariant
            i <= refs@.len(),
            forall|k: int| 0 <= k < i ==> ib + #[trigger] refs@[k] <= u32::MAX,
        decreases refs@.len() - i,
    {
        if ib as u64 + refs[i] as u64 > 0xFFFF_FFFF {
            return false;
        }
        i = i + 1;
    }
    true
}

/// Write the number of references and their addresses.
fn write_refs(out: &mut Vec<u8>, refs: &Vec<u32>, ib: u32)
    requires
        refs@.len() <= u32::MAX,
        forall|i: int| 0 <= i < refs@.len() ==> ib + #[trigger] refs@[i] <= u32::MAX,
    ensures
        final(out)@ == old(out)@ + be_u32_bytes(refs@.len() as u32) + ref_bytes(refs@, ib),
{
    out.write_be_u32(refs.len() as u32);
    let ghost base = out@;
    let mut i: usize = 0;
    assert(refs@.take(0) =~= Seq::<u32>::empty());
    while i < refs.len()
        invariant
            i <= refs@.len(),
            forall|k: int| 0 <= k < refs@.len() ==> ib + #[trigger] refs@[k] <= u32::MAX,
            out@ == base + ref_bytes(refs@.take(i as int), ib),
        decreases refs@.len() - i,
    {
        assert(refs@.take(i + 1).drop_last() =~= refs@.take(i as int));
        assert(ib + refs@[i as int] <= u32::MAX);
        out.write_be_u32(ib + refs[i]);
        assert(out@ =~= base + ref_bytes(refs@.take(i + 1), ib));
        i = i + 1;
    }
    assert(refs@.take(i as int) =~= refs@);
}

/// Whether an entry can be written, as `entry_ok` says.
fn entry_fits(sym: &Symbol, ib: u32) -> (r: bool)
    ensures
        r == entry_ok(sym@, ib),
{
    let refs = match &sym.entry {
        SymbolTableEntry::C { .. } => return true,
        SymbolTableEntry::D { references, .. } => references,
        SymbolTableEntry::L { references, .. } => references,
        SymbolTableEntry::E { references, .. } => references,
    };
    if sym.name.len() > 255 || refs.len() > 0xFFFF_FFFF || !refs_fit(refs, ib) {
        return false;
    }
    match &sym.entry {
        SymbolTableEntry::L { location, .. } => match location {
            LabelLocation::Offset(off) => *off <= 0xFFFF_FFFF && ib as u64 + *off as u64 <= 0xFFFF_FFFF,
            LabelLocation::Reference(_) => false,
        },
        _ => true,
    }
}

/// Write an entry, as `entry_bytes` says.
fn write_entry(out: &mut Vec<u8>, sym: &Symbol, ib: u32, ro: u32, rw: u32)
    requires
        entry_ok(sym@, ib),
        !(sym.entry@ is C),
    ensures
        final(out)@ == old(out)@ + entry_bytes(sym@, ib, ro, rw),
{
    let (ty, value): (u8, u32) = match &sym.entry {
        SymbolTableEntry::D { public, mutable, .. } => (
            if *public {
                0x50
            } else {
                0x49
            },
            if *mutable {
                rw
            } else {
                ro
            },
        ),
        SymbolTableEntry::L { public, location, .. } => (
            if *public {
                0x50
            } else {
                0x49
            },
            match location {
                LabelLocation::Offset(off) => ib + *off as u32,
                LabelLocation::Reference(_) => 0,
            },
        ),
        _ => (0x45, 0),
    };
    out.write_u8(ty);
    out.write_be_u32(value);
    out.write_u8(sym.name.len() as u8);
    extend_bytes(out, sym.name.as_slice());
    let refs = match &sym.entry {
        SymbolTableEntry::C { .. } => {
            return;
        },
        SymbolTableEntry::D { references, .. } => references,
        SymbolTableEntry::L { references, .. } => references,
        SymbolTableEntry::E { references, .. } => references,
    };
    write_refs(out, refs, ib);
    assert(out@ =~= old(out)@ + entry_bytes(sym@, ib, ro, rw));
}

/// The symbol table of the entries at the positions `o`, as `table_bytes`
/// says.
fn write_table(syms: &Vec<Symbol>, o: &Vec<usize>, ib: u32, ro: u32, rw: u32) -> (r: Option<(Vec<u8>, Vec<u8>, Vec<u8>)>)
    requires
        forall|i: int| 0 <= i < o@.len() ==> #[trigger] o@[i] < syms@.len(),
    ensures
        match table_bytes(sym_views(syms@), o@, ib, ro, rw) {
            None => r is None,
            Some((a, b, c)) => r matches Some((x, y, z)) && x@ == a && y@ == b && z@ == c,
        },
{
    let ghost sv = sym_views(syms@);
    let mut tb: Vec<u8> = Vec::new();
    let mut rod: Vec<u8> = Vec::new();
    let mut rwd: Vec<u8> = Vec::new();
    let mut next_ro = ro;
    let mut next_rw = rw;
    let mut k: usize = 0;
    assert(o@.skip(0) =~= o@);
    assert(prepend3(Seq::empty(), Seq::empty(), Seq::empty(), table_bytes(sv, o@, ib, ro, rw)) =~= table_bytes(sv, o@, ib, ro, rw)) by {
        match table_bytes(sv, o@, ib, ro, rw) {
            None => {},
            Some((x, y, z)) => {
                assert(Seq::<u8>::empty() + x =~= x);
                assert(Seq::<u8>::empty() + y =~= y);
                assert(Seq::<u8>::empty() + z =~= z);
            },
        }
    }
    while k < o.len()
        invariant
            k <= o@.len(),
            sv == sym_views(syms@),
            forall|i: int| 0 <= i < o@.len() ==> #[trigger] o@[i] < syms@.len(),
            table_bytes(sv, o@, ib, ro, rw) == prepend3(
                tb@,
                rod@,
                rwd@,
                table_bytes(sv, o@.skip(k as int), ib, next_ro, next_rw),
            ),
        decreases o@.len() - k,
    {
        let ghost rest = o@.skip(k as int);
        assert(rest[0] == o@[k as int]);
        assert(rest.skip(1) =~= o@.skip(k + 1));
        let j = o[k];
        assert(sv[j as int] == syms@[j as int]@);
        let sym = &syms[j];
        if !entry_fits(sym, ib) {
            return None;
        }
        let ghost (t0, r0, w0) = (tb@, rod@, rwd@);
        let ghost (nro0, nrw0) = (next_ro, next_rw);
        match &sym.entry {
            SymbolTableEntry::C { .. } => {},
            SymbolTableEntry::D { mutable, size, initialiser, .. } => {
                write_entry(&mut tb, sym, ib, next_ro, next_rw);
                if *mutable {
                    extend_bytes(&mut rwd, initialiser.as_slice());
                    next_rw = next_rw.wrapping_add(*size as u32);
                } else {
                    extend_bytes(&mut rod, initialiser.as_slice());
                    next_ro = next_ro.wrapping_add(*size as u32);
                }
            },
            _ => {
                write_entry(&mut tb, sym, ib, next_ro, next_rw);
            },
        }
        proof {
            let e = entry_bytes(sv[j as int], ib, nro0, nrw0);
            match table_bytes(sv, o@.skip(k + 1), ib, next_ro, next_rw) {
                None => {},
                Some((x, y, z)) => {
                    match sv[j as int].1 {
                        EntrySpec::C { .. } => {},
                        EntrySpec::D { mutable, initialiser, .. } => {
                            assert(t0 + (e + x) =~= tb@ + x);
                            if mutable {
                                assert(w0 + (initialiser + z) =~= rwd@ + z);
                            } else {
                                assert(r0 + (initialiser + y) =~= rod@ + y);
                            }
                        },
                        _ => {
                            assert(t0 + (e + x) =~= tb@ + x);
                        },
                    }
                },
            }
        }
        k = k + 1;
    }
    assert(o@.skip(k as int) =~= Seq::<usize>::empty());
    assert(tb@ + Seq::<u8>::empty() =~= tb@);
    assert(rod@ + Seq::<u8>::empty() =~= rod@);
    assert(rwd@ + Seq::<u8>::empty() =~= rwd@);
    Some((tb, rod, rwd))
}

/// Write the file header: magic, ABI version 1, and the numbers of symbols
/// and sections.
fn write_header(out: &mut Vec<u8>, n: u32, ns: u32)
    ensures
        final(out)@ == old(out)@ + (simobj_magic() + be_u16_bytes(1) + be_u32_bytes(n) + be_u32_bytes(ns)),
{
    let ghost o0 = out@;
    out.write_u8(0x53);
    out.write_u8(0x49);
    out.write_u8(0x4D);
    out.write_u8(0x4F);
    out.write_u8(0x42);
    out.write_u8(0x4A);
    out.write_be_u16(1);
    out.write_be_u32(n);
    out.write_be_u32(ns);
    assert(out@ =~= o0 + (simobj_magic() + be_u16_bytes(1) + be_u32_bytes(n) + be_u32_bytes(ns)));
}

/// Write the section headers.
fn write_section_headers(out: &mut Vec<u8>, code_len: usize, ro: u64, rw: u64, entrypoint: bool)
    requires
        code_len <= u32::MAX,
        ro <= u32::MAX,
        rw <= u32::MAX,
    ensures
        final(out)@ == old(out)@ + section_headers(code_len as nat, ro as nat, rw as nat, entrypoint),
{
    let ghost o0 = out@;
    if code_len > 0 {
        out.write_u8(if entrypoint { 0x11 } else { 0x10 });
        out.write_be_u32(code_len as u32);
    }
    if ro > 0 {
        out.write_u8(0x04);
        out.write_be_u32(ro as u32);
    }
    if rw > 0 {
        out.write_u8(0x0C);
        out.write_be_u32(rw as u32);
    }
    assert(out@ =~= o0 + section_headers(code_len as nat, ro as nat, rw as nat, entrypoint));
}

/// The object file, as `simobj_spec` says.
pub fn write_object(syms: &Vec<Symbol>, code: &Vec<u8>, o: &Vec<usize>, entrypoint: bool) -> (r: Option<Vec<u8>>)
    requires
        forall|i: int| 0 <= i < o@.len() ==> #[trigger] o@[i] < syms@.len(),
    ensures
        match simobj_spec(sym_views(syms@), code@, o@, entrypoint) {
            None => r is None,
            Some(b) => r matches Some(v) && v@ == b,
        },
{
    let (n, size, ro, rw) = match stats_of(syms, o) {
        None => return None,
        Some(x) => x,
    };
    if code.len() > 0xFFFF_FFFF {
        return None;
    }
    let ns: u64 = (if code.len() > 0 { 1u64 } else { 0u64 }) + (if ro > 0 { 1u64 } else { 0u64 }) + (if rw > 0 {
        1u64
    } else {
        0u64
    });
    let ib: u64 = 16 + size + 5 * ns;
    let rob: u64 = ib + code.len() as u64;
    let rwb: u64 = rob + ro;
    if n > 0xFFFF_FFFF || rwb + rw > 0xFFFF_FFFF {
        return None;
    }
    let (tb, rod, rwd) = match write_table(syms, o, ib as u32, rob as u32, rwb as u32) {
        None => return None,
        Some(x) => x,
    };
    if rod.len() as u64 != ro || rwd.len() as u64 != rw {
        return None;
    }
    let mut out: Vec<u8> = Vec::new();
    write_header(&mut out, n as u32, ns as u32);
    extend_bytes(&mut out, tb.as_slice());
    write_section_headers(&mut out, code.len(), ro, rw, entrypoint);
    extend_bytes(&mut out, code.as_slice());
    extend_bytes(&mut out, rod.as_slice());
    extend_bytes(&mut out, rwd.as_slice());
    Some(out)
}

} // verus!
