//! Solution verification: decides whether a sealed header is a legal block on
//! top of its parent, given the network parameters valid for it.

use vstd::prelude::*;

use crate::bytes::{bytes_equal, copy_range, from_be_u64, read_u64_be};
use crate::crypto::{
    compute_hmac_sha256, hmac_sha256, schnorr_signature_valid, verify_schnorr_signature,
    verify_vrf_proof, vrf_proof_valid,
};
use crate::digest::{item_seal, solution_well_formed, PreDigest, PreDigestModel, TAG_SIZE};
use crate::header::{
    find_pre_digest, header_fits, header_pre_digest, header_well_formed,
    lemma_pre_digests_well_formed, pre_digests, pre_seal_hash, pre_seal_hash_spec,
    sealed_digest_shape_is_ok, sealed_digest_shape_ok, Header, HeaderModel,
};

verus! {

/// Why a header was rejected.
#[derive(PartialEq, Eq, Structural, Debug, Clone, Copy)]
pub enum VerificationError {
    MalformedDigest,
    SlotNotIncreasing,
    InvalidTag,
    InvalidProof,
    SolutionRangeExceeded,
    InvalidEligibilityProof,
    BadSeal,
}

/// The network parameters valid as of the block being verified.
pub struct VerificationParams {
    pub global_challenge: Vec<u8>,
    pub salt: Vec<u8>,
    pub solution_range: u64,
}

pub struct VerificationParamsModel {
    pub global_challenge: Seq<u8>,
    pub salt: Seq<u8>,
    pub solution_range: u64,
}

impl View for VerificationParams {
    type V = VerificationParamsModel;

    open spec fn view(&self) -> VerificationParamsModel {
        VerificationParamsModel {
            global_challenge: self.global_challenge@,
            salt: self.salt@,
            solution_range: self.solution_range,
        }
    }
}

/// Signing context of seals, `subspace_reward`.
pub open spec fn reward_signing_context() -> Seq<u8> {
    seq![115u8, 117u8, 98u8, 115u8, 112u8, 97u8, 99u8, 101u8, 95u8, 114u8, 101u8, 119u8, 97u8, 114u8, 100u8]
}

/// Signing context of tag signatures, `subspace_tag`.
pub open spec fn tag_signing_context() -> Seq<u8> {
    seq![115u8, 117u8, 98u8, 115u8, 112u8, 97u8, 99u8, 101u8, 95u8, 116u8, 97u8, 103u8]
}

/// Signing context of local challenges, `subspace_local_challenge`.
pub open spec fn local_challenge_signing_context() -> Seq<u8> {
    seq![
        115u8, 117u8, 98u8, 115u8, 112u8, 97u8, 99u8, 101u8, 95u8, 108u8, 111u8, 99u8, 97u8,
        108u8, 95u8, 99u8, 104u8, 97u8, 108u8, 108u8, 101u8, 110u8, 103u8, 101u8,
    ]
}

/// The signing context of seals.
pub fn reward_context() -> (r: Vec<u8>)
    ensures
        r@ == reward_signing_context(),
{
    let r = vec![115u8, 117u8, 98u8, 115u8, 112u8, 97u8, 99u8, 101u8, 95u8, 114u8, 101u8, 119u8, 97u8, 114u8, 100u8];
    assert(r@ =~= reward_signing_context());
    r
}

/// The signing context of tag signatures.
pub fn tag_context() -> (r: Vec<u8>)
    ensures
        r@ == tag_signing_context(),
{
    let r = vec![115u8, 117u8, 98u8, 115u8, 112u8, 97u8, 99u8, 101u8, 95u8, 116u8, 97u8, 103u8];
    assert(r@ =~= tag_signing_context());
    r
}

/// The signing context of local challenges.
pub fn local_challenge_context() -> (r: Vec<u8>)
    ensures
        r@ == local_challenge_signing_context(),
{
    let r = vec![
        115u8, 117u8, 98u8, 115u8, 112u8, 97u8, 99u8, 101u8, 95u8, 108u8, 111u8, 99u8, 97u8,
        108u8, 95u8, 99u8, 104u8, 97u8, 108u8, 108u8, 101u8, 110u8, 103u8, 101u8,
    ];
    assert(r@ =~= local_challenge_signing_context());
    r
}

/// The tag of a piece encoding under a salt: the first eight bytes of
/// HMAC-SHA-256 of the encoding keyed by the salt.
pub open spec fn tag_spec(encoding: Seq<u8>, salt: Seq<u8>) -> Seq<u8> {
    hmac_sha256(salt, encoding).subrange(0, TAG_SIZE as int)
}

/// Computes the tag of `encoding` under `salt`.
pub fn create_tag(encoding: &[u8], salt: &[u8]) -> (r: Vec<u8>)
    ensures
        r@ == tag_spec(encoding@, salt@),
        r@.len() == TAG_SIZE,
{
    let mac = compute_hmac_sha256(salt, encoding);
    copy_range(mac.as_slice(), 0, TAG_SIZE)
}

/// Whether the stored tag of a solution is the tag of its encoding under `salt`.
pub open spec fn tag_matches(p: PreDigestModel, salt: Seq<u8>) -> bool {
    tag_spec(p.solution.encoding, salt) == p.solution.tag
}

/// Whether the tag of `pre_digest` is the one recomputed under `salt`.
pub fn is_tag_valid(pre_digest: &PreDigest, salt: &[u8]) -> (r: bool)
    ensures
        r == tag_matches(pre_digest@, salt@),
{
    let tag = create_tag(pre_digest.solution.encoding.as_slice(), salt);
    bytes_equal(tag.as_slice(), pre_digest.solution.tag.as_slice())
}

/// Checking a tag depends on the encoding, the stored tag and the salt alone:
/// any two checks of solutions that agree on those agree, whenever they run.
pub proof fn lemma_tag_check_deterministic(
    p1: PreDigestModel,
    p2: PreDigestModel,
    salt1: Seq<u8>,
    salt2: Seq<u8>,
)
    requires
        p1.solution.encoding == p2.solution.encoding,
        p1.solution.tag == p2.solution.tag,
        salt1 == salt2,
    ensures
        tag_matches(p1, salt1) == tag_matches(p2, salt2),
{
}

/// The target that a tag is measured against: the first eight bytes of the
/// global challenge, big-endian, with missing bytes taken as zero.
pub open spec fn challenge_target(global_challenge: Seq<u8>) -> u64 {
    from_be_u64((global_challenge + Seq::new(8, |i: int| 0u8)).subrange(0, 8))
}

/// Distance between two points on the ring of 64-bit integers.
pub open spec fn bidirectional_distance(a: u64, b: u64) -> int {
    let d = if a >= b {
        a - b
    } else {
        b - a
    };
    if d <= 0x1_0000_0000_0000_0000 - d {
        d
    } else {
        0x1_0000_0000_0000_0000 - d
    }
}

/// Whether a tag lies within the solution range around the target.
pub open spec fn within_solution_range(tag: Seq<u8>, target: u64, solution_range: u64) -> bool {
    bidirectional_distance(from_be_u64(tag), target) <= solution_range
}

/// Computes the distance between `a` and `b` on the ring of 64-bit integers.
pub fn distance(a: u64, b: u64) -> (r: u64)
    ensures
        r == bidirectional_distance(a, b),
{
    let d = if a >= b {
        a - b
    } else {
        b - a
    };
    if d == 0 {
        0
    } else {
        let other = u64::MAX - d + 1;
        if d <= other {
            d
        } else {
            other
        }
    }
}

/// The target derived from `global_challenge`.
pub fn target_of(global_challenge: &[u8]) -> (r: u64)
    ensures
        r == challenge_target(global_challenge@),
{
    let mut padded: Vec<u8> = Vec::new();
    let mut i: usize = 0;
    while i < 8
        invariant
            i <= 8,
            padded@ == (global_challenge@ + Seq::new(8, |j: int| 0u8)).subrange(0, i as int),
        decreases 8 - i,
    {
        if i < global_challenge.len() {
            padded.push(global_challenge[i]);
        } else {
            padded.push(0u8);
        }
        i = i + 1;
        assert(padded@ =~= (global_challenge@ + Seq::new(8, |j: int| 0u8)).subrange(0, i as int));
    }
    assert(padded@.subrange(0, 8) =~= padded@);
    read_u64_be(padded.as_slice(), 0)
}

/// What verification decides once the digests are well shaped and the slot
/// increases, given what the cryptographic checks returned: the recomputed
/// tag, and whether the tag signature, the local challenge and the seal
/// verify. The checks are made in this order and the first failure is
/// reported; a stored tag that is not eight bytes long never matches.
pub open spec fn solution_verdict(
    p: PreDigestModel,
    params: VerificationParamsModel,
    computed_tag: Seq<u8>,
    tag_signature_valid: bool,
    eligibility_valid: bool,
    seal_valid: bool,
) -> Result<(), VerificationError> {
    if computed_tag != p.solution.tag || p.solution.tag.len() != TAG_SIZE {
        Err(VerificationError::InvalidTag)
    } else if !tag_signature_valid {
        Err(VerificationError::InvalidProof)
    } else if !within_solution_range(
        p.solution.tag,
        challenge_target(params.global_challenge),
        params.solution_range,
    ) {
        Err(VerificationError::SolutionRangeExceeded)
    } else if !eligibility_valid {
        Err(VerificationError::InvalidEligibilityProof)
    } else if !seal_valid {
        Err(VerificationError::BadSeal)
    } else {
        Ok(())
    }
}

/// Decides on a solution from the outcomes of the cryptographic checks.
pub fn judge_solution(
    pre_digest: &PreDigest,
    params: &VerificationParams,
    computed_tag: &[u8],
    tag_signature_valid: bool,
    eligibility_valid: bool,
    seal_valid: bool,
) -> (r: Result<(), VerificationError>)
    ensures
        r == solution_verdict(
            pre_digest@,
            params@,
            computed_tag@,
            tag_signature_valid,
            eligibility_valid,
            seal_valid,
        ),
{
    if !bytes_equal(computed_tag, pre_digest.solution.tag.as_slice())
        || pre_digest.solution.tag.len() != TAG_SIZE {
        return Err(VerificationError::InvalidTag);
    }
    if !tag_signature_valid {
        return Err(VerificationError::InvalidProof);
    }
    let tag_value = read_u64_be(pre_digest.solution.tag.as_slice(), 0);
    proof {
        assert(pre_digest@.solution.tag.subrange(0, 8) =~= pre_digest@.solution.tag);
    }
    if distance(tag_value, target_of(params.global_challenge.as_slice())) > params.solution_range {
        return Err(VerificationError::SolutionRangeExceeded);
    }
    if !eligibility_valid {
        return Err(VerificationError::InvalidEligibilityProof);
    }
    if !seal_valid {
        return Err(VerificationError::BadSeal);
    }
    Ok(())
}

/// The slot of a parent header: that of its pre-digest, or zero for a genesis
/// header, which has none.
pub open spec fn parent_slot(parent: HeaderModel) -> Option<u64> {
    match header_pre_digest(parent) {
        Some(p) => Some(p.slot),
        None => if parent.number == 0 {
            Some(0)
        } else {
            None
        },
    }
}

/// The verdict on a sealed header `h` on top of `parent`. A global challenge
/// too long for the signing transcript (over 2^32 - 1 bytes) admits no valid
/// local challenge.
pub open spec fn header_verdict(
    h: HeaderModel,
    parent: HeaderModel,
    params: VerificationParamsModel,
) -> Result<(), VerificationError> {
    if !sealed_digest_shape_ok(h.digest) || !header_well_formed(h) {
        Err(VerificationError::MalformedDigest)
    } else {
        match parent_slot(parent) {
            None => Err(VerificationError::MalformedDigest),
            Some(ps) => {
                let p = header_pre_digest(h).unwrap();
                let s = p.solution;
                if p.slot <= ps {
                    Err(VerificationError::SlotNotIncreasing)
                } else {
                    solution_verdict(
                        p,
                        params,
                        tag_spec(s.encoding, params.salt),
                        vrf_proof_valid(
                            tag_signing_context(),
                            s.public_key,
                            s.tag,
                            s.tag_signature.output,
                            s.tag_signature.proof,
                        ),
                        params.global_challenge.len() <= u32::MAX && vrf_proof_valid(
                            local_challenge_signing_context(),
                            s.public_key,
                            params.global_challenge,
                            s.local_challenge.output,
                            s.local_challenge.proof,
                        ),
                        schnorr_signature_valid(
                            reward_signing_context(),
                            s.public_key,
                            pre_seal_hash_spec(h),
                            item_seal(h.digest.last()).unwrap(),
                        ),
                    )
                }
            },
        }
    }
}

/// A child whose slot does not exceed its parent's is rejected as such, for
/// every parent slot and every well-shaped child.
pub proof fn lemma_slot_must_increase(
    h: HeaderModel,
    parent: HeaderModel,
    params: VerificationParamsModel,
)
    requires
        sealed_digest_shape_ok(h.digest),
        header_well_formed(h),
        parent_slot(parent) is Some,
        header_pre_digest(h).unwrap().slot <= parent_slot(parent).unwrap(),
    ensures
        header_verdict(h, parent, params) == Err::<(), VerificationError>(
            VerificationError::SlotNotIncreasing,
        ),
{
}

/// The slot of `parent` as a parent header.
pub fn slot_of_parent(parent: &Header) -> (r: Option<u64>)
    ensures
        r == parent_slot(parent@),
{
    match find_pre_digest(parent) {
        Some(p) => Some(p.slot),
        None => if parent.number == 0 {
            Some(0)
        } else {
            None
        },
    }
}

/// Verifies a sealed header on top of its parent.
pub fn verify_header(
    header: &Header,
    parent: &Header,
    params: &VerificationParams,
) -> (r: Result<(), VerificationError>)
    ensures
        r == header_verdict(header@, parent@, params@),
{
    if !sealed_digest_shape_is_ok(header) || !header_fits(header) {
        return Err(VerificationError::MalformedDigest);
    }
    let parent_slot = match slot_of_parent(parent) {
        Some(s) => s,
        None => return Err(VerificationError::MalformedDigest),
    };
    let pre_digest = match find_pre_digest(header) {
        Some(p) => p,
        None => return Err(VerificationError::MalformedDigest),
    };
    proof {
        lemma_pre_digests_well_formed(header@.digest);
        assert(pre_digest@ == pre_digests(header@.digest)[0]);
    }
    if pre_digest.slot <= parent_slot {
        return Err(VerificationError::SlotNotIncreasing);
    }
    let s = &pre_digest.solution;
    let computed_tag = create_tag(s.encoding.as_slice(), params.salt.as_slice());
    if !bytes_equal(computed_tag.as_slice(), s.tag.as_slice()) {
        return Err(VerificationError::InvalidTag);
    }
    let tag_context = tag_context();
    let tag_signature_valid = verify_vrf_proof(
        tag_context.as_slice(),
        s.public_key.as_slice(),
        s.tag.as_slice(),
        s.tag_signature.output.as_slice(),
        s.tag_signature.proof.as_slice(),
    );
    if !tag_signature_valid {
        return Err(VerificationError::InvalidProof);
    }
    let local_challenge_context = local_challenge_context();
    let eligibility_valid = params.global_challenge.len() <= 0xffff_ffffusize && verify_vrf_proof(
        local_challenge_context.as_slice(),
        s.public_key.as_slice(),
        params.global_challenge.as_slice(),
        s.local_challenge.output.as_slice(),
        s.local_challenge.proof.as_slice(),
    );
    let n = header.digest.len();
    let seal = match header.digest[n - 1].as_subspace_seal() {
        Some(seal) => seal,
        None => return Err(VerificationError::MalformedDigest),
    };
    let hash = pre_seal_hash(header);
    let reward_context = reward_context();
    let seal_valid = if eligibility_valid {
        verify_schnorr_signature(
            reward_context.as_slice(),
            s.public_key.as_slice(),
            hash.as_slice(),
            seal.as_slice(),
        )
    } else {
        false
    };
    let r = judge_solution(
        &pre_digest,
        params,
        computed_tag.as_slice(),
        tag_signature_valid,
        eligibility_valid,
        seal_valid,
    );
    r
}

} // verus!
