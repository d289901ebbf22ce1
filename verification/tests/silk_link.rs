use simulatron::bytes::ByteReader;
use simulatron::silk::data::{ObjectFile, DISK_ALIGN, ROM_SIZE};
use simulatron::silk::linker::Linker;
use simulatron::silk::{parse_and_combine, LinkError};
use simulatron::silk::parser::Parser;

/// A place in an object file: a section, by its position in the file's
/// section headers, and an offset into its data.
#[derive(Clone, Copy)]
struct Loc(usize, u32);

/// A symbol's value: none, a place in a section, or an offset in the file.
#[derive(Clone, Copy)]
enum V {
    Absent,
    At(Loc),
    Raw(u32),
}

/// A reference: a place in a section, or an offset in the file.
#[derive(Clone, Copy)]
enum R {
    At(Loc),
    Raw(u32),
}

/// A symbol: its type, value, name and references.
struct Sym {
    symbol_type: u8,
    value: V,
    name: &'static [u8],
    refs: Vec<R>,
}

/// An object file: the header, the section headers, the symbol table, then
/// the sections' data in order.
fn object(symbols: &[Sym], sections: &[(u8, Vec<u8>)]) -> Vec<u8> {
    object_with_gaps(symbols, sections, 0, 0)
}

/// An object file as `object` lays it out, with `gap` bytes of `fill` after
/// the header, the section headers, the symbol table and each section.
fn object_with_gaps(symbols: &[Sym], sections: &[(u8, Vec<u8>)], gap: u32, fill: u8) -> Vec<u8> {
    let headers_start = 24u32 + gap;
    let table_start = headers_start + 12 * sections.len() as u32 + gap;
    let table_len: u32 = symbols.iter().map(|s| 10 + s.name.len() as u32 + 4 * s.refs.len() as u32).sum();
    let mut starts = Vec::new();
    let mut next = table_start + table_len + gap;
    for (_, data) in sections {
        starts.push(next);
        next += data.len() as u32 + gap;
    }
    let at = |l: Loc| starts[l.0] + l.1;
    let filler = vec![fill; gap as usize];
    let mut v = vec![0x53, 0x49, 0x4D, 0x4F, 0x42, 0x4A, 0x00, 0x01];
    v.extend_from_slice(&table_start.to_be_bytes());
    v.extend_from_slice(&(symbols.len() as u32).to_be_bytes());
    v.extend_from_slice(&headers_start.to_be_bytes());
    v.extend_from_slice(&(sections.len() as u32).to_be_bytes());
    v.extend_from_slice(&filler);
    for (i, (flags, data)) in sections.iter().enumerate() {
        v.extend_from_slice(&[*flags, 0, 0, 0]);
        v.extend_from_slice(&starts[i].to_be_bytes());
        v.extend_from_slice(&(data.len() as u32).to_be_bytes());
    }
    v.extend_from_slice(&filler);
    for s in symbols {
        v.push(s.symbol_type);
        let value = match s.value {
            V::Absent => 0,
            V::At(l) => at(l),
            V::Raw(a) => a,
        };
        v.extend_from_slice(&value.to_be_bytes());
        v.push(s.name.len() as u8);
        v.extend_from_slice(s.name);
        v.extend_from_slice(&(s.refs.len() as u32).to_be_bytes());
        for r in &s.refs {
            let a = match *r {
                R::At(l) => at(l),
                R::Raw(a) => a,
            };
            v.extend_from_slice(&a.to_be_bytes());
        }
    }
    v.extend_from_slice(&filler);
    for (_, data) in sections {
        v.extend_from_slice(data);
        v.extend_from_slice(&filler);
    }
    v
}

fn parse(bytes: Vec<u8>) -> Result<ObjectFile, String> {
    Parser::parse(ByteReader::new(bytes)).map_err(|e| e.message())
}

fn link(files: Vec<Vec<u8>>) -> Result<Linker, String> {
    parse_and_combine(files).map_err(|e| e.message())
}

fn minimal() -> Vec<u8> {
    object(&[], &[(0x11, vec![0x00])])
}

fn single_symbol() -> Vec<u8> {
    let foo = Sym { symbol_type: b'P', value: V::At(Loc(0, 0)), name: b"foo", refs: vec![R::At(Loc(0, 1))] };
    object(&[foo], &[(0x11, vec![0x48, 0, 0, 0, 0])])
}

fn big() -> Vec<u8> {
    object(&[], &[(0x11, vec![0x42; 5000])])
}

/// One public symbol, foo, in the first of three sections, referred to from
/// the entrypoint section in the middle.
fn multi_section_parts() -> (Vec<Sym>, Vec<(u8, Vec<u8>)>) {
    let foo = Sym { symbol_type: b'P', value: V::At(Loc(0, 1)), name: b"foo", refs: vec![R::At(Loc(1, 1))] };
    (vec![foo], vec![(0x04, vec![0xAA, 0xBB]), (0x11, vec![0x48, 0, 0, 0, 0]), (0x04, vec![0xCC])])
}

fn multi_section() -> Vec<u8> {
    let (syms, secs) = multi_section_parts();
    object(&syms, &secs)
}

/// A public symbol foobaz and an internal symbol bar in one entrypoint
/// section that refers to both.
fn multi_symbol() -> Vec<u8> {
    let foobaz = Sym { symbol_type: b'P', value: V::At(Loc(0, 10)), name: b"foobaz", refs: vec![R::At(Loc(0, 1))] };
    let bar = Sym { symbol_type: b'I', value: V::At(Loc(0, 11)), name: b"bar", refs: vec![R::At(Loc(0, 6))] };
    object(&[foobaz, bar], &[(0x11, vec![0x48, 0, 0, 0, 0, 0x49, 0, 0, 0, 0, 0x01, 0x02])])
}

/// An external reference to foobaz.
fn external_symbol() -> Vec<u8> {
    let foobaz = Sym { symbol_type: b'E', value: V::Absent, name: b"foobaz", refs: vec![R::At(Loc(0, 0))] };
    object(&[foobaz], &[(0x04, vec![0, 0, 0, 0])])
}

/// An internal symbol foobaz, referred to from its own section.
fn internal_foobaz() -> Vec<u8> {
    let foobaz = Sym { symbol_type: b'I', value: V::At(Loc(0, 4)), name: b"foobaz", refs: vec![R::At(Loc(0, 0))] };
    object(&[foobaz], &[(0x04, vec![0, 0, 0, 0, 0x07])])
}

/// The image of the multi-symbol file, with more bytes after it.
fn multi_symbol_rom(rest: &[u8]) -> Vec<u8> {
    let mut v = vec![0x48, 0x00, 0x00, 0x00, 0x4A, 0x49, 0x00, 0x00, 0x00, 0x4B, 0x01, 0x02];
    v.extend_from_slice(rest);
    v.resize(ROM_SIZE, 0);
    v
}

#[test]
fn test_minimal() {
    let of = parse(minimal()).unwrap();
    assert_eq!(of.sections.len(), 1);
    assert_eq!(of.sections[0].flags, 0x11);
    assert_eq!(of.sections[0].start, 0);
    assert_eq!(of.sections[0].length, 1);
    assert_eq!(of.sections[0].data, vec![0x00]);
    assert_eq!(of.symbols.len(), 0);
}

#[test]
fn tests_test_minimal_link_rom() {
    let rom = link(vec![minimal()]).unwrap().link_as_rom().unwrap();
    assert_eq!(rom, vec![0; ROM_SIZE]);
}

#[test]
fn tests_test_minimal_link_disk() {
    let disk = link(vec![minimal()]).unwrap().link_as_disk().unwrap();
    assert_eq!(disk, vec![0; DISK_ALIGN]);
}

#[test]
fn tests_test_single_symbol() {
    let of = parse(single_symbol()).unwrap();
    assert_eq!(of.symbols.len(), 1);
    let record = of.symbols.get(0);
    assert_eq!(record.name, b"foo".to_vec());
    assert_eq!(record.entry.symbol_type, b'P');
    assert_eq!(record.entry.value, Some(0));
    assert_eq!(record.entry.references, vec![1]);
    assert_eq!(of.sections[0].data, vec![0x48, 0, 0, 0, 0]);
}

#[test]
fn tests_test_single_symbol_link() {
    let rom = link(vec![single_symbol()]).unwrap().link_as_rom().unwrap();
    let mut expected = vec![0x48, 0x00, 0x00, 0x00, 0x40];
    expected.resize(ROM_SIZE, 0);
    assert_eq!(rom, expected);
    let disk = link(vec![single_symbol()]).unwrap().link_as_disk().unwrap();
    let mut expected = vec![0x48, 0x00, 0x00, 0x40, 0x00];
    expected.resize(DISK_ALIGN, 0);
    assert_eq!(disk, expected);
}

#[test]
fn tests_test_multiple_entrypoints() {
    let error = link(vec![minimal(), single_symbol()]).unwrap().link_as_rom().unwrap_err();
    assert_eq!(error.message(), "Multiple entrypoint sections were defined.");
}

#[test]
fn tests_test_combine_public() {
    let error = link(vec![single_symbol(), single_symbol()]).unwrap_err();
    assert_eq!(error, "Multiple definitions for symbol foo.");
}

#[test]
fn tests_test_combine_internal() {
    let foo = Sym { symbol_type: b'I', value: V::At(Loc(0, 0)), name: b"foo", refs: vec![] };
    let internal = object(&[foo], &[(0x10, vec![0x01])]);
    let linker = link(vec![single_symbol(), internal]).unwrap();
    let rom = linker.link_as_rom().unwrap();
    let mut expected = vec![0x48, 0x00, 0x00, 0x00, 0x40, 0x01];
    expected.resize(ROM_SIZE, 0);
    assert_eq!(rom, expected);
}

#[test]
fn tests_test_writable() {
    let file = || object(&[], &[(0x11, vec![0x00]), (0x0C, vec![0x07])]);
    let error = link(vec![file()]).unwrap().link_as_rom().unwrap_err();
    assert_eq!(error.message(), "Cannot have a writable section in a read-only image.");
    let disk = link(vec![file()]).unwrap().link_as_disk().unwrap();
    let mut expected = vec![0x00, 0x07];
    expected.resize(DISK_ALIGN, 0);
    assert_eq!(disk, expected);
}

#[test]
fn tests_test_empty_section() {
    let error = link(vec![object(&[], &[(0x11, vec![])])]).unwrap().link_as_rom().unwrap_err();
    assert_eq!(error.message(), "Cannot produce an empty image.");
}

#[test]
fn tests_test_no_sections() {
    let error = link(vec![object(&[], &[])]).unwrap().link_as_rom().unwrap_err();
    assert_eq!(error.message(), "No entrypoint section was defined.");
}

#[test]
fn tests_test_no_entrypoint() {
    let error = link(vec![object(&[], &[(0x10, vec![0x00])])]).unwrap().link_as_disk().unwrap_err();
    assert_eq!(error.message(), "No entrypoint section was defined.");
}

#[test]
fn tests_test_non_exec_entrypoint() {
    let error = link(vec![object(&[], &[(0x05, vec![0x00])])]).unwrap().link_as_rom().unwrap_err();
    assert_eq!(error.message(), "Section had entrypoint but not execute set.");
}

#[test]
fn tests_test_too_big_for_rom() {
    let error = link(vec![big()]).unwrap().link_as_rom().unwrap_err();
    assert_eq!(error.message(), format!("Binary (5000 bytes) exceeds rom capacity ({} bytes).", ROM_SIZE));
}

#[test]
fn tests_test_disk_padding() {
    let disk = link(vec![big()]).unwrap().link_as_disk().unwrap();
    let mut expected = vec![0x42; 5000];
    expected.resize(DISK_ALIGN * 2, 0);
    assert_eq!(disk, expected);
}

#[test]
fn tests_test_too_small() {
    let mut bytes = minimal();
    bytes.truncate(20);
    assert_eq!(parse(bytes).unwrap_err(), "IO error: Unexpected EOF.");
}

#[test]
fn tests_test_bad_reference() {
    let foo = Sym { symbol_type: b'P', value: V::At(Loc(0, 0)), name: b"foo", refs: vec![R::At(Loc(0, 1))] };
    let bytes = object(&[foo], &[(0x11, vec![0x48, 0, 0, 1, 0])]);
    assert_eq!(parse(bytes).unwrap_err(), "Symbol reference was non-zero.");
}

#[test]
fn tests_test_invalid_symbol_type() {
    let foo = Sym { symbol_type: b'X', value: V::At(Loc(0, 0)), name: b"foo", refs: vec![] };
    let bytes = object(&[foo], &[(0x11, vec![0x00])]);
    assert_eq!(parse(bytes).unwrap_err(), "Invalid symbol type.");
}

#[test]
fn test_zero_length_name() {
    let foo = Sym { symbol_type: b'P', value: V::At(Loc(0, 0)), name: b"", refs: vec![] };
    let bytes = object(&[foo], &[(0x11, vec![0x00])]);
    assert_eq!(parse(bytes).unwrap_err(), "Symbol name cannot be the empty string.");
}

#[test]
fn test_invalid_name() {
    let foo = Sym { symbol_type: b'P', value: V::At(Loc(0, 0)), name: b"!yeet$", refs: vec![] };
    let bytes = object(&[foo], &[(0x11, vec![0x00])]);
    assert_eq!(parse(bytes).unwrap_err(), "Invalid symbol name: !yeet$");
}

#[test]
fn test_really_invalid_name() {
    let foo = Sym { symbol_type: b'P', value: V::At(Loc(0, 0)), name: b"\xFF\xFEyeet", refs: vec![] };
    let bytes = object(&[foo], &[(0x11, vec![0x00])]);
    assert_eq!(parse(bytes).unwrap_err(), "Invalid symbol name (unprintable).");
}

#[test]
fn tests_test_multi_section() {
    let of = parse(multi_section()).unwrap();
    assert_eq!(of.sections.len(), 3);
    let flags: Vec<u8> = of.sections.iter().map(|s| s.flags).collect();
    assert_eq!(flags, vec![0x04, 0x11, 0x04]);
    let lengths: Vec<u32> = of.sections.iter().map(|s| s.length).collect();
    assert_eq!(lengths, vec![2, 5, 1]);
    assert_eq!(of.symbols.len(), 1);
    let record = of.symbols.get(0);
    assert_eq!(record.name, b"foo".to_vec());
    assert_eq!(record.entry.symbol_type, b'P');
    assert_eq!(record.entry.value, Some(of.sections[0].start + 1));
    assert_eq!(record.entry.references, vec![of.sections[1].start + 1]);
}

#[test]
fn tests_test_multi_section_link() {
    let rom = link(vec![multi_section()]).unwrap().link_as_rom().unwrap();
    let mut expected = vec![0x48, 0x00, 0x00, 0x00, 0x46, 0xAA, 0xBB, 0xCC];
    expected.resize(ROM_SIZE, 0);
    assert_eq!(rom, expected);
}

#[test]
fn tests_test_multi_symbol() {
    let of = parse(multi_symbol()).unwrap();
    assert_eq!(of.sections.len(), 1);
    let start = of.sections[0].start;
    assert_eq!(of.symbols.len(), 2);
    let foobaz = of.symbols.get(0);
    assert_eq!(foobaz.name, b"foobaz".to_vec());
    assert_eq!(foobaz.entry.symbol_type, b'P');
    assert_eq!(foobaz.entry.value, Some(start + 10));
    assert_eq!(foobaz.entry.references, vec![start + 1]);
    let bar = of.symbols.get(1);
    assert_eq!(bar.name, b"bar".to_vec());
    assert_eq!(bar.entry.symbol_type, b'I');
    assert_eq!(bar.entry.value, Some(start + 11));
    assert_eq!(bar.entry.references, vec![start + 6]);
}

#[test]
fn tests_test_multi_symbol_link() {
    let rom = link(vec![multi_symbol()]).unwrap().link_as_rom().unwrap();
    assert_eq!(rom, multi_symbol_rom(&[]));
}

#[test]
fn tests_test_combine_external() {
    let linker = link(vec![multi_symbol(), external_symbol()]).unwrap();
    let of = linker.object();
    assert_eq!(of.symbols.len(), 2);
    let foobaz = of.symbols.get(0);
    assert_eq!(foobaz.name, b"foobaz".to_vec());
    assert_eq!(foobaz.entry.symbol_type, b'P');
    assert_eq!(foobaz.entry.references.len(), 2);
    let rom = linker.link_as_rom().unwrap();
    assert_eq!(rom, multi_symbol_rom(&[0x00, 0x00, 0x00, 0x4A]));
}

#[test]
fn tests_test_combine_external_reversed() {
    let linker = link(vec![external_symbol(), multi_symbol()]).unwrap();
    let of = linker.object();
    assert_eq!(of.symbols.len(), 2);
    let foobaz = of.symbols.get(0);
    assert_eq!(foobaz.name, b"foobaz".to_vec());
    assert_eq!(foobaz.entry.symbol_type, b'P');
    assert_eq!(foobaz.entry.references.len(), 2);
    let rom = linker.link_as_rom().unwrap();
    assert_eq!(rom, multi_symbol_rom(&[0x00, 0x00, 0x00, 0x4A]));
}

#[test]
fn tests_test_combine_public_internal() {
    let linker = link(vec![multi_symbol(), internal_foobaz()]).unwrap();
    let of = linker.object();
    let names: Vec<Vec<u8>> = of.symbols.records().iter().map(|r| r.name.clone()).collect();
    assert_eq!(names, vec![b"foobaz".to_vec(), b"bar".to_vec(), b"foobaz0".to_vec()]);
    assert_eq!(of.symbols.get(2).entry.symbol_type, b'I');
    let rom = linker.link_as_rom().unwrap();
    assert_eq!(rom, multi_symbol_rom(&[0x00, 0x00, 0x00, 0x50, 0x07]));
}

#[test]
fn tests_test_combine_external_internal() {
    let linker = link(vec![internal_foobaz(), external_symbol()]).unwrap();
    let of = linker.object();
    let names: Vec<Vec<u8>> = of.symbols.records().iter().map(|r| r.name.clone()).collect();
    assert_eq!(names, vec![b"foobaz0".to_vec(), b"foobaz".to_vec()]);
    assert_eq!(of.symbols.get(0).entry.symbol_type, b'I');
    assert_eq!(of.symbols.get(1).entry.symbol_type, b'E');
    assert_eq!(of.symbols.get(1).entry.value, None);
    assert_eq!(of.symbols.get(1).entry.references, vec![5]);
    let error = linker.link_as_disk().unwrap_err();
    assert_eq!(error.message(), "No entrypoint section was defined.");
}

#[test]
fn test_gaps() {
    let (syms, secs) = multi_section_parts();
    let rom1 = link(vec![object_with_gaps(&syms, &secs, 7, 0xEE)]).unwrap().link_as_rom().unwrap();
    let rom2 = link(vec![multi_section()]).unwrap().link_as_rom().unwrap();
    assert_eq!(rom1, rom2);
}

#[test]
fn test_symbol_value_range() {
    let foo = Sym { symbol_type: b'P', value: V::Raw(0), name: b"foo", refs: vec![] };
    let bytes = object(&[foo], &[(0x11, vec![0x00])]);
    assert_eq!(parse(bytes).unwrap_err(), "Address too small: 0x00000000");
    let foo = Sym { symbol_type: b'P', value: V::Raw(0x80), name: b"foo", refs: vec![] };
    let bytes = object(&[foo], &[(0x11, vec![0x00])]);
    assert_eq!(parse(bytes).unwrap_err(), "Address too large: 0x00000080");
}

#[test]
fn test_symbol_reference_range() {
    // Zero filler before the sections: a reference there is before them all.
    let foo = Sym { symbol_type: b'P', value: V::At(Loc(0, 0)), name: b"foo", refs: vec![R::Raw(0x18)] };
    let bytes = object_with_gaps(&[foo], &[(0x11, vec![0x48, 0, 0, 0, 0])], 4, 0);
    assert_eq!(bytes[0x18..0x1C].to_vec(), vec![0, 0, 0, 0]);
    assert_eq!(parse(bytes).unwrap_err(), "Address too small: 0x00000018");
    // Zero filler after the last section: a reference there is past them all.
    let foo = Sym { symbol_type: b'P', value: V::At(Loc(0, 0)), name: b"foo", refs: vec![R::Raw(0x52)] };
    let bytes = object_with_gaps(&[foo], &[(0x11, vec![0x48, 0, 0, 0, 0])], 8, 0);
    assert_eq!(bytes.len(), 0x52 + 8);
    assert_eq!(parse(bytes).unwrap_err(), "Address too large: 0x00000052");
}

#[test]
fn test_packed_sections() {
    let (syms, secs) = multi_section_parts();
    let of = parse(object_with_gaps(&syms, &secs, 3, 0xEE)).unwrap();
    let starts: Vec<u32> = of.sections.iter().map(|s| s.start).collect();
    assert_eq!(starts, vec![0, 2, 7]);
    assert_eq!(of.symbols.get(0).entry.value, Some(1));
    assert_eq!(of.symbols.get(0).entry.references, vec![3]);
}

#[test]
fn test_link_error_text() {
    let e = parse(vec![0x00; 3]).unwrap_err();
    assert_eq!(e, "IO error: Unexpected EOF.");
    let err = Parser::parse(ByteReader::new(vec![0x53, 0x49, 0x4D, 0x4F, 0x42, 0x4A, 0x00, 0x02])).unwrap_err();
    assert_eq!(LinkError::from_error(&err).0, "Unsupported ABI version.");
}

#[test]
fn test_listing_single_symbol() {
    let of = parse(single_symbol()).unwrap();
    let expected = format!(
        "---Symbols---\nfoo P 0x00000000 \n  0x00000001\n---Sections---\n\
         Section 0 flags: 00010001 start: 0x00000000 length: 0x00000005\n\
         0x00000000    48 00 00 00  00{}  |H....|\n",
        " ".repeat(35)
    );
    assert_eq!(of.to_text(), expected);
    let linker = link(vec![single_symbol()]).unwrap();
    assert_eq!(linker.to_text(), expected);
}

#[test]
fn test_listing_symbols_in_name_order() {
    let of = parse(multi_symbol()).unwrap();
    let expected = format!(
        "---Symbols---\nbar I 0x0000000B \n  0x00000006\nfoobaz P 0x0000000A \n  0x00000001\n\
         ---Sections---\nSection 0 flags: 00010001 start: 0x00000000 length: 0x0000000C\n\
         0x00000000    48 00 00 00  00 49 00 00  00 00 01 02{}  |H....I......|\n",
        " ".repeat(13)
    );
    assert_eq!(of.to_text(), expected);
}

#[test]
fn test_listing_external_symbol() {
    let of = parse(external_symbol()).unwrap();
    let expected = format!(
        "---Symbols---\nfoobaz E\n  0x00000000\n---Sections---\n\
         Section 0 flags: 00000100 start: 0x00000000 length: 0x00000004\n\
         0x00000000    00 00 00 00{}  |....|\n",
        " ".repeat(39)
    );
    assert_eq!(of.to_text(), expected);
    assert_eq!(
        of.sections[0].to_text(),
        format!("flags: 00000100 start: 0x00000000 length: 0x00000004\n0x00000000    00 00 00 00{}  |....|", " ".repeat(39))
    );
}
