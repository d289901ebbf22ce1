//! The SimObj object format: reading object files and linking them into
//! ROM and disk images.
pub mod data;
pub mod parser;
pub mod linker;
pub mod listing;

use vstd::prelude::*;
use crate::bytes::ByteReader;
use crate::silk::data::{message_text, EntryView, ObjectFileView, OFError, OFErrorKind, SectionView};
use crate::text::is_ascii_bytes;
use crate::silk::linker::{add_spec, end_offset, shift_sections, AddOutcome, Linker};
use crate::silk::parser::{parse_spec, Parser};

verus! {

/// What reading and combining object files comes to: the combined object
/// file, an error with the name it concerns, or two external symbols of one
/// name meeting.
pub enum CombineOutcome {
    Linked(ObjectFileView),
    Fail(OFErrorKind, Seq<u8>),
    Clash,
}

/// Read `files[i..]` one after another and add each to `acc`.
pub open spec fn combine_from(files: Seq<Seq<u8>>, i: nat, acc: ObjectFileView) -> CombineOutcome
    decreases files.len() - i,
{
    if i >= files.len() {
        CombineOutcome::Linked(acc)
    } else {
        match parse_spec(files[i as int]) {
            Err((kind, name)) => CombineOutcome::Fail(kind, name),
            Ok((syms, secs)) => {
                let of = ObjectFileView { symbols: syms, sections: secs };
                match add_spec(acc, of) {
                    AddOutcome::Clash => CombineOutcome::Clash,
                    AddOutcome::Fail(kind, name) => CombineOutcome::Fail(kind, name),
                    AddOutcome::Done(t) => combine_from(
                        files,
                        i + 1,
                        ObjectFileView {
                            symbols: t,
                            sections: acc.sections + shift_sections(secs, end_offset(acc.sections)),
                        },
                    ),
                }
            },
        }
    }
}

/// Nothing yet.
pub open spec fn empty_object() -> ObjectFileView {
    ObjectFileView { symbols: Seq::empty(), sections: Seq::empty() }
}

/// The views of a list of files.
pub open spec fn file_views(files: Seq<Vec<u8>>) -> Seq<Seq<u8>> {
    files.map_values(|f: Vec<u8>| f@)
}

/// Read each file and add it to a linker that starts empty. The inputs on
/// which two external symbols of one name would meet are left out.
pub fn parse_and_combine(inputs: Vec<Vec<u8>>) -> (r: Result<Linker, OFError>)
    requires
        !(combine_from(file_views(inputs@), 0, empty_object()) is Clash),
    ensures
        match combine_from(file_views(inputs@), 0, empty_object()) {
            CombineOutcome::Linked(v) => r matches Ok(l) && l@ == v,
            CombineOutcome::Fail(kind, n) => r matches Err(e) && e.kind == kind && e.symbol@ == n,
            CombineOutcome::Clash => false,
        },
{
    match parse_and_combine_checked(inputs) {
        Some(r) => r,
        None => {
            assert(false);
            Err(OFError::new(OFErrorKind::MultipleDefinitions))
        },
    }
}

/// `parse_and_combine`, or `None` where two external symbols of one name
/// would meet.
pub fn parse_and_combine_checked(inputs: Vec<Vec<u8>>) -> (r: Option<Result<Linker, OFError>>)
    ensures
        match combine_from(file_views(inputs@), 0, empty_object()) {
            CombineOutcome::Linked(v) => r matches Some(Ok(l)) && l@ == v,
            CombineOutcome::Fail(kind, n) => r matches Some(Err(e)) && e.kind == kind && e.symbol@ == n,
            CombineOutcome::Clash => r is None,
        },
{
    let ghost files = file_views(inputs@);
    let mut linker = Linker::new();
    assert(linker@ == empty_object());
    let mut rest = inputs;
    let total = rest.len();
    let mut i: usize = 0;
    while rest.len() > 0
        invariant
            i + rest@.len() == files.len(),
            files.len() == total,
            files == file_views(inputs@),
            file_views(rest@) == files.subrange(i as int, files.len() as int),
            combine_from(files, 0, empty_object()) == combine_from(files, i as nat, linker@),
        decreases rest@.len(),
    {
        let ghost before = rest@;
        let input = rest.remove(0);
        assert(file_views(before)[0] == files.subrange(i as int, files.len() as int)[0]);
        assert(input@ == files[i as int]);
        let parsed = match Parser::parse(ByteReader::new(input)) {
            Ok(of) => of,
            Err(e) => return Some(Err(e)),
        };
        let ghost lv = linker@;
        assert(parsed@ == ObjectFileView { symbols: parsed@.symbols, sections: parsed@.sections });
        linker = match linker.try_add(parsed) {
            None => return None,
            Some(Err(e)) => return Some(Err(e)),
            Some(Ok(l)) => l,
        };
        assert forall|k: int| 0 <= k < rest@.len() implies #[trigger] rest@[k]@ == files[i + 1 + k] by {
            assert(rest@[k] == before[k + 1]);
            assert(file_views(before)[k + 1] == files.subrange(i as int, files.len() as int)[k + 1]);
        }
        assert(file_views(rest@) =~= files.subrange(i + 1, files.len() as int));
        i = i + 1;
    }
    Some(Ok(linker))
}

/// An error met while linking, as the text that the linker reports.
pub struct LinkError(pub String);

impl LinkError {
    /// The link error that reports an object file error: its message.
    pub fn from_error(e: &OFError) -> (r: LinkError)
        ensures
            r.0@ == message_text(e.kind, e.symbol@, e.size),
    {
        LinkError(e.message())
    }
}

} // verus!
