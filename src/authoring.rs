//! The verified steps of authoring a block: the digest items a proposer puts
//! into a new header, and the claim used by tests and development chains.

use vstd::prelude::*;

use crate::digest::{
    item_pre_digest, item_salt, item_seal, item_solution_range, solution_well_formed, DigestItem,
    DigestItemModel, PreDigest, PreDigestModel, Solution, SolutionModel, VrfSignature,
    VrfSignatureModel, PIECE_SIZE, PUBLIC_KEY_SIZE, SALT_SIZE, TAG_SIZE,
    VRF_OUTPUT_SIZE, VRF_PROOF_SIZE,
};
use crate::header::{count_items, pre_digests, seal_count, sealed_digest_shape_ok};

verus! {

/// `n` zero bytes.
pub open spec fn zeros(n: nat) -> Seq<u8> {
    Seq::new(n, |i: int| 0u8)
}

/// The pre-digest of the placeholder claim on `slot`: every field zero.
pub open spec fn dummy_pre_digest(slot: u64) -> PreDigestModel {
    PreDigestModel {
        slot,
        solution: SolutionModel {
            public_key: zeros(PUBLIC_KEY_SIZE as nat),
            reward_address: zeros(PUBLIC_KEY_SIZE as nat),
            piece_index: 0,
            encoding: zeros(PIECE_SIZE as nat),
            tag: zeros(TAG_SIZE as nat),
            tag_signature: VrfSignatureModel {
                output: zeros(VRF_OUTPUT_SIZE as nat),
                proof: zeros(VRF_PROOF_SIZE as nat),
            },
            local_challenge: VrfSignatureModel {
                output: zeros(VRF_OUTPUT_SIZE as nat),
                proof: zeros(VRF_PROOF_SIZE as nat),
            },
        },
    }
}

fn zero_bytes(n: usize) -> (r: Vec<u8>)
    ensures
        r@ == zeros(n as nat),
{
    let r = vec![0u8; n];
    assert(r@ =~= zeros(n as nat));
    r
}

/// Claims `slot` with a placeholder solution whose every field is zero,
/// together with the all-zero author key. It always succeeds.
pub fn dummy_claim_slot(slot: u64) -> (r: Option<(PreDigest, Vec<u8>)>)
    ensures
        r is Some,
        r.unwrap().0@ == dummy_pre_digest(slot),
        r.unwrap().1@ == zeros(PUBLIC_KEY_SIZE as nat),
        solution_well_formed(dummy_pre_digest(slot).solution),
{
    let pre_digest = PreDigest {
        slot,
        solution: Solution {
            public_key: zero_bytes(PUBLIC_KEY_SIZE),
            reward_address: zero_bytes(PUBLIC_KEY_SIZE),
            piece_index: 0,
            encoding: zero_bytes(PIECE_SIZE),
            tag: zero_bytes(TAG_SIZE),
            tag_signature: VrfSignature {
                output: zero_bytes(VRF_OUTPUT_SIZE),
                proof: zero_bytes(VRF_PROOF_SIZE),
            },
            local_challenge: VrfSignature {
                output: zero_bytes(VRF_OUTPUT_SIZE),
                proof: zero_bytes(VRF_PROOF_SIZE),
            },
        },
    };
    Some((pre_digest, zero_bytes(PUBLIC_KEY_SIZE)))
}

/// The items a proposer puts into a new header, in this order: the
/// pre-digest, then the solution-range and salt descriptors.
pub fn proposal_digest(pre_digest: &PreDigest, solution_range: u64, salt: &[u8]) -> (r: Vec<
    DigestItem,
>)
    requires
        solution_well_formed(pre_digest@.solution),
        salt@.len() == SALT_SIZE,
    ensures
        r@.len() == 3,
        item_pre_digest(r@[0]@) == Some(pre_digest@),
        item_solution_range(r@[1]@) == Some(solution_range),
        item_salt(r@[2]@) == Some(salt@),
        proposal_items_shape(r@[0]@, r@[1]@, r@[2]@),
{
    let mut items: Vec<DigestItem> = Vec::new();
    items.push(DigestItem::subspace_pre_digest(pre_digest));
    items.push(DigestItem::solution_range_descriptor(solution_range));
    items.push(DigestItem::salt_descriptor(salt));
    items
}

/// Each proposal item is of its own kind only.
pub open spec fn proposal_items_shape(a: DigestItemModel, b: DigestItemModel, c: DigestItemModel) -> bool {
    &&& item_pre_digest(a) is Some && item_seal(a) is None && item_solution_range(a) is None && item_salt(a) is None
    &&& item_pre_digest(b) is None && item_seal(b) is None && item_solution_range(b) is Some && item_salt(b) is None
    &&& item_pre_digest(c) is None && item_seal(c) is None && item_solution_range(c) is None && item_salt(c) is Some
}

/// A header whose digest log is the proposal items followed by a seal is
/// well shaped for verification.
pub proof fn lemma_sealed_proposal_well_shaped(
    a: DigestItemModel,
    b: DigestItemModel,
    c: DigestItemModel,
    seal: DigestItemModel,
)
    requires
        proposal_items_shape(a, b, c),
        item_seal(seal) is Some,
    ensures
        sealed_digest_shape_ok(seq![a, b, c, seal]),
{
    let items = seq![a, b, c, seal];
    assert(items.drop_last() =~= seq![a, b, c]);
    assert(seq![a, b, c].drop_last() =~= seq![a, b]);
    assert(seq![a, b].drop_last() =~= seq![a]);
    assert(seq![a].drop_last() =~= Seq::<DigestItemModel>::empty());
    assert(item_pre_digest(seal) is None);
    assert(item_solution_range(seal) is None);
    assert(item_salt(seal) is None);
    reveal_with_fuel(pre_digests, 5);
    reveal_with_fuel(count_items, 5);
    assert(pre_digests(items).len() == 1);
    assert(seal_count(items) == 1);
}

} // verus!
