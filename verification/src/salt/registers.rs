//! Register references of SimAsm: their names, binary encodings and types.
use vstd::prelude::*;
use crate::salt::literals::RegisterType;

verus! {

/// What kind of register an operand position accepts.
#[derive(Debug, Clone, Copy, PartialEq, Eq, Structural)]
pub enum RegRefType {
    RegRefAny,
    RegRefInt,
    RegRefByte,
    RegRefHalf,
    RegRefWord,
    RegRefFloat,
}

/// Whether a register of the given type fits an operand position that
/// accepts the given kind: any register, any integer register, or exactly
/// its type.
pub open spec fn reg_matches(reg: RegisterType, r: RegRefType) -> bool {
    match reg {
        RegisterType::Byte => r == RegRefType::RegRefAny || r == RegRefType::RegRefInt || r
            == RegRefType::RegRefByte,
        RegisterType::Half => r == RegRefType::RegRefAny || r == RegRefType::RegRefInt || r
            == RegRefType::RegRefHalf,
        RegisterType::Word => r == RegRefType::RegRefAny || r == RegRefType::RegRefInt || r
            == RegRefType::RegRefWord,
        RegisterType::Float => r == RegRefType::RegRefAny || r == RegRefType::RegRefFloat,
    }
}

/// Whether a register of the given type fits the given reference type.
pub fn register_type_matches(reg: RegisterType, r: RegRefType) -> (b: bool)
    ensures
        b == reg_matches(reg, r),
{
    match reg {
        RegisterType::Byte => r == RegRefType::RegRefAny || r == RegRefType::RegRefInt || r
            == RegRefType::RegRefByte,
        RegisterType::Half => r == RegRefType::RegRefAny || r == RegRefType::RegRefInt || r
            == RegRefType::RegRefHalf,
        RegisterType::Word => r == RegRefType::RegRefAny || r == RegRefType::RegRefInt || r
            == RegRefType::RegRefWord,
        RegisterType::Float => r == RegRefType::RegRefAny || r == RegRefType::RegRefFloat,
    }
}

/// The register a name refers to: `r0`..`r7` (words, 0x00-0x07), their
/// halves `r0h`..`r7h` (0x08-0x0F) and bytes `r0b`..`r7b` (0x10-0x17),
/// `f0`..`f7` (floats, 0x18-0x1F), and the special registers `flags` (half,
/// 0x20), `uspr` (0x21), `kspr` (0x22), `pdpr` (0x23), `imr` (half, 0x24)
/// and `pfsr` (0x25).
pub open spec fn reg_ref_spec(s: Seq<u8>) -> Option<(u8, RegisterType)> {
    if s.len() == 2 && s[0] == 114 && 48 <= s[1] <= 55 {
        Some(((s[1] - 48) as u8, RegisterType::Word))
    } else if s.len() == 3 && s[0] == 114 && 48 <= s[1] <= 55 && s[2] == 104 {
        Some(((s[1] - 48 + 8) as u8, RegisterType::Half))
    } else if s.len() == 3 && s[0] == 114 && 48 <= s[1] <= 55 && s[2] == 98 {
        Some(((s[1] - 48 + 16) as u8, RegisterType::Byte))
    } else if s.len() == 2 && s[0] == 102 && 48 <= s[1] <= 55 {
        Some(((s[1] - 48 + 24) as u8, RegisterType::Float))
    } else if s == seq![102u8, 108u8, 97u8, 103u8, 115u8] {
        Some((0x20u8, RegisterType::Half))
    } else if s == seq![117u8, 115u8, 112u8, 114u8] {
        Some((0x21u8, RegisterType::Word))
    } else if s == seq![107u8, 115u8, 112u8, 114u8] {
        Some((0x22u8, RegisterType::Word))
    } else if s == seq![112u8, 100u8, 112u8, 114u8] {
        Some((0x23u8, RegisterType::Word))
    } else if s == seq![105u8, 109u8, 114u8] {
        Some((0x24u8, RegisterType::Half))
    } else if s == seq![112u8, 102u8, 115u8, 114u8] {
        Some((0x25u8, RegisterType::Word))
    } else {
        None
    }
}

/// Whether `s` spells the given bytes.
fn spells(s: &[u8], w: &[u8]) -> (r: bool)
    ensures
        r == (s@ == w@),
{
    crate::bytes::bytes_eq(s, w)
}

/// The register a name refers to, and its type.
pub fn get_reg_ref(reg_ref: &[u8]) -> (r: Option<(u8, RegisterType)>)
    ensures
        r == reg_ref_spec(reg_ref@),
{
    let s = reg_ref;
    let n = s.len();
    if n == 2 && s[0] == 114 && 48 <= s[1] && s[1] <= 55 {
        return Some((s[1] - 48, RegisterType::Word));
    }
    if n == 3 && s[0] == 114 && 48 <= s[1] && s[1] <= 55 && s[2] == 104 {
        return Some((s[1] - 48 + 8, RegisterType::Half));
    }
    if n == 3 && s[0] == 114 && 48 <= s[1] && s[1] <= 55 && s[2] == 98 {
        return Some((s[1] - 48 + 16, RegisterType::Byte));
    }
    if n == 2 && s[0] == 102 && 48 <= s[1] && s[1] <= 55 {
        return Some((s[1] - 48 + 24, RegisterType::Float));
    }
    let flags: [u8; 5] = [102, 108, 97, 103, 115];
    let uspr: [u8; 4] = [117, 115, 112, 114];
    let kspr: [u8; 4] = [107, 115, 112, 114];
    let pdpr: [u8; 4] = [112, 100, 112, 114];
    let imr: [u8; 3] = [105, 109, 114];
    let pfsr: [u8; 4] = [112, 102, 115, 114];
    assert(flags@ =~= seq![102u8, 108u8, 97u8, 103u8, 115u8]);
    assert(uspr@ =~= seq![117u8, 115u8, 112u8, 114u8]);
    assert(kspr@ =~= seq![107u8, 115u8, 112u8, 114u8]);
    assert(pdpr@ =~= seq![112u8, 100u8, 112u8, 114u8]);
    assert(imr@ =~= seq![105u8, 109u8, 114u8]);
    assert(pfsr@ =~= seq![112u8, 102u8, 115u8, 114u8]);
    if spells(s, flags.as_slice()) {
        Some((0x20, RegisterType::Half))
    } else if spells(s, uspr.as_slice()) {
        Some((0x21, RegisterType::Word))
    } else if spells(s, kspr.as_slice()) {
        Some((0x22, RegisterType::Word))
    } else if spells(s, pdpr.as_slice()) {
        Some((0x23, RegisterType::Word))
    } else if spells(s, imr.as_slice()) {
        Some((0x24, RegisterType::Half))
    } else if spells(s, pfsr.as_slice()) {
        Some((0x25, RegisterType::Word))
    } else {
        None
    }
}

/// Whether a name has no lower-case ASCII letter.
pub open spec fn upper_text(s: Seq<u8>) -> bool {
    forall|i: int| 0 <= i < s.len() ==> !(97 <= #[trigger] s[i] <= 122)
}

/// Whether a name has no upper-case ASCII letter.
pub open spec fn lower_case_text(s: Seq<u8>) -> bool {
    forall|i: int| 0 <= i < s.len() ==> !(65 <= #[trigger] s[i] <= 90)
}

/// Whether a name is in upper case: it has no lower-case ASCII letter.
pub fn is_uppercase(s: &[u8]) -> (r: bool)
    ensures
        r == upper_text(s@),
{
    let mut i: usize = 0;
    while i < s.len()
        invariant
            i <= s@.len(),
            forall|j: int| 0 <= j < i ==> !(97 <= #[trigger] s@[j] <= 122),
        decreases s@.len() - i,
    {
        if 97 <= s[i] && s[i] <= 122 {
            return false;
        }
        i = i + 1;
    }
    true
}

/// Whether a name is in lower case: it has no upper-case ASCII letter.
pub fn is_lowercase(s: &[u8]) -> (r: bool)
    ensures
        r == lower_case_text(s@),
{
    let mut i: usize = 0;
    while i < s.len()
        invariant
            i <= s@.len(),
            forall|j: int| 0 <= j < i ==> !(65 <= #[trigger] s@[j] <= 90),
        decreases s@.len() - i,
    {
        if 65 <= s[i] && s[i] <= 90 {
            return false;
        }
        i = i + 1;
    }
    true
}

} // verus!
