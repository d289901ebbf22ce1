//! A stable sort of keys, through itertools, and what its result means.
use vstd::prelude::*;
use itertools::Itertools;

verus! {

/// Byte strings in lexicographic order: a proper prefix comes first.
pub open spec fn bytes_le(a: Seq<u8>, b: Seq<u8>) -> bool
    decreases a.len(),
{
    if a.len() == 0 {
        true
    } else if b.len() == 0 {
        false
    } else if a[0] != b[0] {
        a[0] < b[0]
    } else {
        bytes_le(a.skip(1), b.skip(1))
    }
}

/// A key: a number, then a byte string; ordered by the number, then by the
/// bytes.
pub open spec fn key_le(a: (u64, Seq<u8>), b: (u64, Seq<u8>)) -> bool {
    a.0 < b.0 || (a.0 == b.0 && bytes_le(a.1, b.1))
}

/// The abstract keys.
pub open spec fn key_views(keys: Seq<(u64, Vec<u8>)>) -> Seq<(u64, Seq<u8>)> {
    keys.map_values(|k: (u64, Vec<u8>)| (k.0, k.1@))
}

/// `o` lists the positions of `keys`, each once, in ascending order of
/// their keys, with equal keys in their original order.
pub open spec fn is_stable_order(keys: Seq<(u64, Seq<u8>)>, o: Seq<usize>) -> bool {
    &&& o.len() == keys.len()
    &&& forall|i: int| 0 <= i < o.len() ==> #[trigger] o[i] < keys.len()
    &&& forall|i: int, j: int| 0 <= i < j < o.len() ==> #[trigger] o[i] != #[trigger] o[j]
    &&& forall|i: int, j: int|
        0 <= i < j < o.len() ==> key_le(keys[#[trigger] o[i] as int], keys[#[trigger] o[j] as int])
    &&& forall|i: int, j: int|
        0 <= i < j < o.len() && keys[#[trigger] o[i] as int] == keys[#[trigger] o[j] as int] ==> o[i] < o[j]
}

/// The positions of the keys in sorted order, through itertools'
/// `sorted_by_key` on the enumerated keys. Its documentation says that it
/// sorts in ascending order and is stable; the order of the tuple keys is
/// std's, by the number and then lexicographically by the bytes. The
/// contract states exactly that of the positions it returns.
#[verifier::external_body]
pub fn sorted_order(keys: &Vec<(u64, Vec<u8>)>) -> (r: Vec<usize>)
    ensures
        is_stable_order(key_views(keys@), r@),
{
    keys.iter().enumerate().sorted_by_key(|p| p.1).map(|p| p.0).collect()
}

} // verus!
