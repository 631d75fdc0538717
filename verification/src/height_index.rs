//! The height/hash bijection, kept in a `bimap::BiHashMap` and described by
//! the map from each height to the characters of its hash.

use vstd::prelude::*;

verus! {

#[verifier::external_type_specification]
#[verifier::external_body]
#[verifier::reject_recursive_types(L)]
#[verifier::reject_recursive_types(R)]
#[verifier::reject_recursive_types(LS)]
#[verifier::reject_recursive_types(RS)]
pub struct ExBiHashMap<L, R, LS, RS>(bimap::BiHashMap<L, R, LS, RS>);

/// The pairs that a bimap holds, as the map from left values to right values.
pub uninterp spec fn bimap_pairs(m: bimap::BiHashMap<u32, String>) -> Map<u32, Seq<char>>;

/// No two heights share a hash.
pub open spec fn injective(m: Map<u32, Seq<char>>) -> bool {
    forall|a: u32, b: u32|
        m.contains_key(a) && m.contains_key(b) && #[trigger] m[a] == #[trigger] m[b] ==> a == b
}

/// The pairs after `(left, right)` is put in: every pair that shared its
/// left or its right value is gone.
pub open spec fn pairs_insert(m: Map<u32, Seq<char>>, left: u32, right: Seq<char>) -> Map<
    u32,
    Seq<char>,
> {
    Map::new(
        |l: u32| l == left || (m.contains_key(l) && m[l] != right),
        |l: u32|
            if l == left {
                right
            } else {
                m[l]
            },
    )
}

/// The pairs whose right value is not `right`.
pub open spec fn pairs_without_right(m: Map<u32, Seq<char>>, right: Seq<char>) -> Map<
    u32,
    Seq<char>,
> {
    Map::new(|l: u32| m.contains_key(l) && m[l] != right, |l: u32| m[l])
}

/// Whether a stored hash differs from `hash`.
pub fn differs(stored: &String, hash: &str) -> (r: bool)
    ensures
        r == (stored@ != hash@),
{
    !crate::strmap::str_eq(stored.as_str(), hash)
}

/// `BiHashMap::new`: a bimap without pairs.
#[verifier::external_body]
pub(crate) fn bimap_new() -> (fresh: bimap::BiHashMap<u32, String>)
    ensures
        bimap_pairs(fresh) == (Map::<u32, Seq<char>>::empty()),
{
    bimap::BiHashMap::new()
}

/// `BiHashMap::insert`: first removes the pair with this left value and the
/// pair with this right value, then adds the new pair. What was overwritten
/// is not handed on.
#[verifier::external_body]
pub(crate) fn bimap_insert(m: &mut bimap::BiHashMap<u32, String>, left: u32, right: String)
    ensures
        bimap_pairs(*final(m)) == pairs_insert(bimap_pairs(*old(m)), left, right@),
{
    m.insert(left, right);
}

/// `BiHashMap::retain`, keeping the pairs whose right value differs from
/// `hash`: all other pairs stay as they are.
#[verifier::external_body]
pub(crate) fn bimap_drop_right(m: &mut bimap::BiHashMap<u32, String>, hash: &str)
    ensures
        bimap_pairs(*final(m)) == pairs_without_right(bimap_pairs(*old(m)), hash@),
{
    m.retain(|_, v| differs(v, hash));
}

/// `BiHashMap::get_by_left`: the right value paired with `left`, copied out,
/// or `None` where no pair has that left value.
#[verifier::external_body]
pub(crate) fn bimap_get_by_left(m: &bimap::BiHashMap<u32, String>, left: u32) -> (r: Option<
    String,
>)
    ensures
        match r {
            Some(s) => bimap_pairs(*m).contains_key(left) && bimap_pairs(*m)[left] == s@,
            None => !bimap_pairs(*m).contains_key(left),
        },
{
    m.get_by_left(&left).cloned()
}

/// `BiHashMap::get_by_right`: the left value paired with `right`, or `None`
/// where no pair has that right value.
#[verifier::external_body]
pub(crate) fn bimap_get_by_right(m: &bimap::BiHashMap<u32, String>, right: &str) -> (r: Option<
    u32,
>)
    ensures
        match r {
            Some(l) => bimap_pairs(*m).contains_key(l) && bimap_pairs(*m)[l] == right@,
            None => forall|l: u32| bimap_pairs(*m).contains_key(l) ==> bimap_pairs(*m)[l] != right@,
        },
{
    m.get_by_right(right).copied()
}

} // verus!
