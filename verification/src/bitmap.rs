//! The compressed signer bitmap of a certificate, and its serialized form.
//!
//! The bitmap is an outside compressed-bitmap container; its contents are
//! exposed to the proofs as a finite set of 32-bit indices into the
//! committee's canonical enumeration.

use vstd::prelude::*;

use roaring::RoaringBitmap;

verus! {

#[verifier::external_type_specification]
#[verifier::external_body]
pub struct ExRoaringBitmap(RoaringBitmap);

/// The set of indices a bitmap holds.
pub uninterp spec fn bitmap_elems(b: RoaringBitmap) -> Set<u32>;

/// The standard serialized form of a bitmap with the given contents; the
/// on-disk format is portable and canonical for a given set.
pub uninterp spec fn bitmap_serialized(s: Set<u32>) -> Seq<u8>;

/// Relies on roaring's `RoaringBitmap::new`: an empty bitmap.
#[verifier::external_body]
pub(crate) fn rb_new() -> (r: RoaringBitmap)
    ensures
        bitmap_elems(r) == Set::<u32>::empty(),
        bitmap_elems(r).finite(),
{
    RoaringBitmap::new()
}

/// Relies on roaring's `RoaringBitmap::from_sorted_iter`, which succeeds on
/// a strictly increasing sequence and yields the bitmap of its values.
#[verifier::external_body]
pub fn rb_from_sorted(values: &Vec<u32>) -> (r: RoaringBitmap)
    requires
        forall|i: int, j: int| 0 <= i < j < values@.len() ==> values@[i] < values@[j],
    ensures
        forall|v: u32| #[trigger] bitmap_elems(r).contains(v) <==> values@.contains(v),
        bitmap_elems(r).finite(),
{
    RoaringBitmap::from_sorted_iter(values.iter().copied()).unwrap()
}

/// Relies on roaring's `RoaringBitmap::contains`.
#[verifier::external_body]
pub(crate) fn rb_contains(b: &RoaringBitmap, value: u32) -> (r: bool)
    ensures
        r == bitmap_elems(*b).contains(value),
{
    b.contains(value)
}

/// Relies on roaring's `RoaringBitmap::len`: the number of stored indices.
#[verifier::external_body]
pub(crate) fn rb_len(b: &RoaringBitmap) -> (r: u64)
    ensures
        r == bitmap_elems(*b).len(),
{
    b.len()
}

/// Relies on roaring's `RoaringBitmap::max`: the largest stored index, or
/// `None` on an empty bitmap.
#[verifier::external_body]
pub(crate) fn rb_max(b: &RoaringBitmap) -> (r: Option<u32>)
    ensures
        r is Some ==> bitmap_elems(*b).contains(r.unwrap()) && (forall|v: u32|
            bitmap_elems(*b).contains(v) ==> v <= r.unwrap()),
        r is None ==> bitmap_elems(*b) == Set::<u32>::empty(),
{
    b.max()
}

/// Relies on roaring's ascending iteration order: the stored indices,
/// strictly increasing.
#[verifier::external_body]
pub(crate) fn rb_to_vec(b: &RoaringBitmap) -> (r: Vec<u32>)
    ensures
        forall|i: int, j: int| 0 <= i < j < r@.len() ==> r@[i] < r@[j],
        forall|v: u32| #[trigger] bitmap_elems(*b).contains(v) == r@.contains(v),
{
    b.iter().collect()
}

/// Relies on roaring's `RoaringBitmap::serialize_into` writing the standard
/// portable format. The bitmap is first rebuilt from its own iteration, so
/// the container layout — and with it the serialized bytes — is a
/// deterministic function of the contents alone, whatever layout the input
/// arrived with.
#[verifier::external_body]
pub(crate) fn rb_serialize(b: &RoaringBitmap) -> (r: Vec<u8>)
    ensures
        r@ == bitmap_serialized(bitmap_elems(*b)),
{
    let canonical: RoaringBitmap = b.iter().collect();
    let mut bytes: Vec<u8> = Vec::with_capacity(canonical.serialized_size());
    canonical.serialize_into(&mut bytes).unwrap();
    bytes
}

/// Relies on roaring's `RoaringBitmap::deserialize_from`, the inverse of
/// `serialize_into`: on the serialization of contents `s` it succeeds and
/// returns a bitmap holding `s`; what holds of other inputs is left open.
#[verifier::external_body]
pub(crate) fn rb_deserialize(bytes: &Vec<u8>) -> (r: Option<RoaringBitmap>)
    ensures
        r is Some ==> bitmap_elems(r.unwrap()).finite(),
        forall|s: Set<u32>|
            bytes@ == #[trigger] bitmap_serialized(s) ==> r is Some && bitmap_elems(r.unwrap())
                == s,
{
    match RoaringBitmap::deserialize_from(&bytes[..]) {
        Ok(b) => Some(b),
        Err(_) => None,
    }
}

} // verus!
