//! The TIP-5 hash functions and the canonical text of a digest, as the
//! twenty-first library computes them.

use vstd::prelude::*;
use twenty_first::prelude::{BFieldElement, Tip5};
use crate::digest::Digest;

verus! {

/// The elements of `Tip5::hash_pair` of the digests with elements `left` and `right`.
pub uninterp spec fn tip5_pair(left: Seq<u64>, right: Seq<u64>) -> Seq<u64>;

/// The elements of `Tip5::hash_varlen` of the field elements `elements`.
pub uninterp spec fn tip5_varlen(elements: Seq<u64>) -> Seq<u64>;

/// The canonical text of the digest with elements `elements`.
pub uninterp spec fn digest_text(elements: Seq<u64>) -> Seq<char>;

/// Relies on twenty_first's `Tip5::hash_pair`: the hash of two digests,
/// which depends on their elements alone.
#[verifier::external_body]
pub(crate) fn hash_pair(left: &Digest, right: &Digest) -> (r: Digest)
    ensures
        r@ == tip5_pair(left@, right@),
{
    let l = twenty_first::prelude::Digest::new(left.elements.map(BFieldElement::new));
    let r = twenty_first::prelude::Digest::new(right.elements.map(BFieldElement::new));
    Digest::new(Tip5::hash_pair(l, r).values().map(|e| e.value()))
}

/// Relies on twenty_first's `Tip5::hash_varlen`: the hash of a sequence of
/// field elements of any length, which depends on the elements alone.
#[verifier::external_body]
pub(crate) fn hash_varlen(elements: &Vec<u64>) -> (r: Digest)
    ensures
        r@ == tip5_varlen(elements@),
{
    let input: Vec<BFieldElement> = elements.iter().map(|e| BFieldElement::new(*e)).collect();
    Digest::new(Tip5::hash_varlen(&input).values().map(|e| e.value()))
}

/// Relies on the `Display` impl of twenty_first's `Digest`: the canonical
/// text of a digest, which depends on its elements alone.
#[verifier::external_body]
pub(crate) fn render(d: &Digest) -> (r: String)
    ensures
        r@ == digest_text(d@),
{
    twenty_first::prelude::Digest::new(d.elements.map(BFieldElement::new)).to_string()
}

} // verus!
