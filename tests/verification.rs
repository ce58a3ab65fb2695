use hmac::Mac;
use subspace_consensus::authoring::proposal_digest;
use subspace_consensus::digest::{DigestItem, PreDigest, Solution, VrfSignature};
use subspace_consensus::header::{pre_seal_hash, seal_header, Header};
use subspace_consensus::verification::{
    create_tag, distance, is_tag_valid, judge_solution, local_challenge_context, reward_context,
    tag_context, target_of, verify_header, VerificationError, VerificationParams,
};

fn keypair(seed: u8) -> schnorrkel::Keypair {
    schnorrkel::MiniSecretKey::from_bytes(&[seed; 32])
        .unwrap()
        .expand_to_keypair(schnorrkel::ExpansionMode::Ed25519)
}

fn vrf(keypair: &schnorrkel::Keypair, context: &[u8], input: &[u8]) -> VrfSignature {
    let (in_out, proof, _) = keypair.vrf_sign(schnorrkel::signing_context(context).bytes(input));
    VrfSignature {
        output: in_out.to_output().to_bytes().to_vec(),
        proof: proof.to_bytes().to_vec(),
    }
}

fn params(solution_range: u64) -> VerificationParams {
    VerificationParams {
        global_challenge: vec![0x42u8; 32],
        salt: vec![5u8; 8],
        solution_range,
    }
}

fn solution(keypair: &schnorrkel::Keypair, params: &VerificationParams) -> Solution {
    let encoding = vec![0xabu8; 256];
    let tag = create_tag(&encoding, &params.salt);
    Solution {
        public_key: keypair.public.to_bytes().to_vec(),
        reward_address: keypair.public.to_bytes().to_vec(),
        piece_index: 3,
        tag_signature: vrf(keypair, &tag_context(), &tag),
        local_challenge: vrf(keypair, &local_challenge_context(), &params.global_challenge),
        encoding,
        tag,
    }
}

fn genesis() -> Header {
    Header {
        number: 0,
        parent_hash: vec![0u8; 32],
        state_root: vec![1u8; 32],
        extrinsics_root: vec![2u8; 32],
        digest: Vec::new(),
    }
}

fn unsealed(number: u64, pre_digest: &PreDigest, params: &VerificationParams) -> Header {
    Header {
        number,
        parent_hash: vec![7u8; 32],
        state_root: vec![8u8; 32],
        extrinsics_root: vec![9u8; 32],
        digest: proposal_digest(pre_digest, params.solution_range, &params.salt),
    }
}

fn sign_and_seal(keypair: &schnorrkel::Keypair, header: &mut Header) {
    let hash = pre_seal_hash(header);
    let signature = keypair.sign(schnorrkel::signing_context(&reward_context()).bytes(&hash));
    seal_header(header, signature.to_bytes().to_vec());
}

fn authored(seed: u8, slot: u64, number: u64, params: &VerificationParams) -> Header {
    let keypair = keypair(seed);
    let pre_digest = PreDigest { slot, solution: solution(&keypair, params) };
    let mut header = unsealed(number, &pre_digest, params);
    sign_and_seal(&keypair, &mut header);
    header
}

#[test]
fn valid_header_is_accepted() {
    let params = params(u64::MAX);
    let header = authored(1, 10, 1, &params);
    assert_eq!(verify_header(&header, &genesis(), &params), Ok(()));
}

#[test]
fn child_of_authored_parent_is_accepted() {
    let params = params(u64::MAX);
    let parent = authored(1, 10, 1, &params);
    let child = authored(2, 11, 2, &params);
    assert_eq!(verify_header(&child, &parent, &params), Ok(()));
}

#[test]
fn solution_range_exceeded_at_slot_ten() {
    let params = params(0);
    let header = authored(1, 10, 1, &params);
    assert_eq!(
        verify_header(&header, &genesis(), &params),
        Err(VerificationError::SolutionRangeExceeded)
    );
}

#[test]
fn missing_pre_digest_is_malformed() {
    let params = params(u64::MAX);
    let mut header = authored(1, 10, 1, &params);
    header.digest.remove(0);
    assert_eq!(
        verify_header(&header, &genesis(), &params),
        Err(VerificationError::MalformedDigest)
    );
}

#[test]
fn missing_seal_is_malformed() {
    let params = params(u64::MAX);
    let mut header = authored(1, 10, 1, &params);
    header.digest.pop();
    assert_eq!(
        verify_header(&header, &genesis(), &params),
        Err(VerificationError::MalformedDigest)
    );
}

#[test]
fn seal_not_last_is_malformed() {
    let params = params(u64::MAX);
    let mut header = authored(1, 10, 1, &params);
    header.digest.push(DigestItem::Other(vec![1u8, 2, 3]));
    assert_eq!(
        verify_header(&header, &genesis(), &params),
        Err(VerificationError::MalformedDigest)
    );
}

#[test]
fn two_pre_digests_are_malformed() {
    let params = params(u64::MAX);
    let keypair = keypair(1);
    let pre_digest = PreDigest { slot: 10, solution: solution(&keypair, &params) };
    let mut header = unsealed(1, &pre_digest, &params);
    header.digest.push(DigestItem::subspace_pre_digest(&pre_digest));
    sign_and_seal(&keypair, &mut header);
    assert_eq!(
        verify_header(&header, &genesis(), &params),
        Err(VerificationError::MalformedDigest)
    );
}

#[test]
fn equal_slots_are_not_increasing() {
    let params = params(u64::MAX);
    let parent = authored(1, 5, 1, &params);
    let child = authored(2, 5, 2, &params);
    assert_eq!(
        verify_header(&child, &parent, &params),
        Err(VerificationError::SlotNotIncreasing)
    );
}

#[test]
fn verify_slots_are_strictly_increasing_rejected() {
    let params = params(u64::MAX);
    let b1 = authored(1, 999, 1, &params);
    assert_eq!(verify_header(&b1, &genesis(), &params), Ok(()));
    let b2 = authored(1, 999, 2, &params);
    assert_eq!(
        verify_header(&b2, &b1, &params),
        Err(VerificationError::SlotNotIncreasing)
    );
    let b3 = authored(1, 998, 2, &params);
    assert_eq!(
        verify_header(&b3, &b1, &params),
        Err(VerificationError::SlotNotIncreasing)
    );
}

#[test]
fn genesis_child_at_slot_zero_is_not_increasing() {
    let params = params(u64::MAX);
    let header = authored(1, 0, 1, &params);
    assert_eq!(
        verify_header(&header, &genesis(), &params),
        Err(VerificationError::SlotNotIncreasing)
    );
}

#[test]
fn parent_without_pre_digest_is_malformed() {
    let params = params(u64::MAX);
    let mut parent = genesis();
    parent.number = 4;
    let header = authored(1, 10, 5, &params);
    assert_eq!(
        verify_header(&header, &parent, &params),
        Err(VerificationError::MalformedDigest)
    );
}

#[test]
fn wrong_salt_gives_invalid_tag() {
    let params = params(u64::MAX);
    let header = authored(1, 10, 1, &params);
    let mut other = params.salt.clone();
    other[0] ^= 1;
    let changed = VerificationParams { salt: other, ..params };
    assert_eq!(
        verify_header(&header, &genesis(), &changed),
        Err(VerificationError::InvalidTag)
    );
}

#[test]
fn foreign_tag_signature_gives_invalid_proof() {
    let params = params(u64::MAX);
    let keypair = keypair(1);
    let mut s = solution(&keypair, &params);
    s.tag_signature = vrf(&keypair, &tag_context(), b"something else");
    let pre_digest = PreDigest { slot: 10, solution: s };
    let mut header = unsealed(1, &pre_digest, &params);
    sign_and_seal(&keypair, &mut header);
    assert_eq!(
        verify_header(&header, &genesis(), &params),
        Err(VerificationError::InvalidProof)
    );
}

#[test]
fn local_challenge_for_other_round_is_invalid() {
    let params = params(u64::MAX);
    let keypair = keypair(1);
    let mut s = solution(&keypair, &params);
    s.local_challenge = vrf(&keypair, &local_challenge_context(), &[0x43u8; 32]);
    let pre_digest = PreDigest { slot: 10, solution: s };
    let mut header = unsealed(1, &pre_digest, &params);
    sign_and_seal(&keypair, &mut header);
    assert_eq!(
        verify_header(&header, &genesis(), &params),
        Err(VerificationError::InvalidEligibilityProof)
    );
}

#[test]
fn seal_by_another_key_is_bad() {
    let params = params(u64::MAX);
    let pre_digest = PreDigest { slot: 10, solution: solution(&keypair(1), &params) };
    let mut header = unsealed(1, &pre_digest, &params);
    sign_and_seal(&keypair(2), &mut header);
    assert_eq!(
        verify_header(&header, &genesis(), &params),
        Err(VerificationError::BadSeal)
    );
}

#[test]
fn seal_bytes_do_not_change_pre_seal_hash() {
    let params = params(u64::MAX);
    let pre_digest = PreDigest { slot: 10, solution: solution(&keypair(1), &params) };
    let header = unsealed(1, &pre_digest, &params);
    let unsealed_hash = pre_seal_hash(&header);
    assert_eq!(unsealed_hash.len(), 32);
    let mut a = unsealed(1, &pre_digest, &params);
    seal_header(&mut a, vec![0u8; 64]);
    let mut b = unsealed(1, &pre_digest, &params);
    seal_header(&mut b, vec![0xffu8; 64]);
    assert_eq!(pre_seal_hash(&a), unsealed_hash);
    assert_eq!(pre_seal_hash(&b), unsealed_hash);
    let mut c = unsealed(2, &pre_digest, &params);
    seal_header(&mut c, vec![0u8; 64]);
    assert_ne!(pre_seal_hash(&c), unsealed_hash);
}

#[test]
fn tag_check_is_deterministic() {
    let params = params(u64::MAX);
    let pre_digest = PreDigest { slot: 10, solution: solution(&keypair(1), &params) };
    let first = is_tag_valid(&pre_digest, &params.salt);
    let second = is_tag_valid(&pre_digest, &params.salt);
    assert!(first);
    assert_eq!(first, second);
    assert!(!is_tag_valid(&pre_digest, &[6u8; 8]));
}

#[test]
fn tag_is_keyed_hash_prefix() {
    let encoding = vec![0xabu8; 256];
    let tag = create_tag(&encoding, &[5u8; 8]);
    assert_eq!(tag.len(), 8);
    assert_eq!(tag, create_tag(&encoding, &[5u8; 8]));
    assert_ne!(tag, create_tag(&encoding, &[4u8; 8]));
    assert_ne!(tag, encoding[..8].to_vec());
    let mac = {
        let mut m = hmac::Hmac::<sha2::Sha256>::new_from_slice(&[5u8; 8]).unwrap();
        m.update(&encoding);
        m.finalize().into_bytes().to_vec()
    };
    assert_eq!(tag, mac[..8].to_vec());
}

#[test]
fn distance_wraps_around() {
    assert_eq!(distance(10, 3), 7);
    assert_eq!(distance(3, 10), 7);
    assert_eq!(distance(0, u64::MAX), 1);
    assert_eq!(distance(u64::MAX, 0), 1);
    assert_eq!(distance(5, 5), 0);
    assert_eq!(distance(0, 1u64 << 63), 1u64 << 63);
}

#[test]
fn target_is_big_endian_prefix() {
    assert_eq!(target_of(&[1u8, 2, 3, 4, 5, 6, 7, 8, 9]), 0x0102030405060708);
    assert_eq!(target_of(&[1u8]), 0x0100000000000000);
    assert_eq!(target_of(&[]), 0);
}

fn zero_pre_digest(tag: Vec<u8>) -> PreDigest {
    PreDigest {
        slot: 10,
        solution: Solution {
            public_key: vec![0u8; 32],
            reward_address: vec![0u8; 32],
            piece_index: 0,
            encoding: vec![],
            tag,
            tag_signature: VrfSignature { output: vec![0u8; 32], proof: vec![0u8; 64] },
            local_challenge: VrfSignature { output: vec![0u8; 32], proof: vec![0u8; 64] },
        },
    }
}

#[test]
fn judge_solution_reports_first_failure() {
    let tag = vec![0u8, 0, 0, 0, 0, 0, 0, 100];
    let p = zero_pre_digest(tag.clone());
    let params = VerificationParams { global_challenge: vec![0u8; 32], salt: vec![], solution_range: 100 };
    assert_eq!(judge_solution(&p, &params, &tag, true, true, true), Ok(()));
    assert_eq!(
        judge_solution(&p, &params, &[0u8; 8], true, true, true),
        Err(VerificationError::InvalidTag)
    );
    assert_eq!(
        judge_solution(&p, &params, &tag, false, false, false),
        Err(VerificationError::InvalidProof)
    );
    assert_eq!(
        judge_solution(&p, &params, &tag, true, false, false),
        Err(VerificationError::InvalidEligibilityProof)
    );
    assert_eq!(
        judge_solution(&p, &params, &tag, true, true, false),
        Err(VerificationError::BadSeal)
    );
    let short = zero_pre_digest(vec![0u8; 7]);
    assert_eq!(
        judge_solution(&short, &params, &[0u8; 7], true, true, true),
        Err(VerificationError::InvalidTag)
    );
    let narrow = VerificationParams { global_challenge: vec![0u8; 32], salt: vec![], solution_range: 99 };
    assert_eq!(
        judge_solution(&p, &narrow, &tag, true, false, false),
        Err(VerificationError::SolutionRangeExceeded)
    );
}

#[test]
fn slot_check_precedes_descriptor_and_crypto_checks() {
    let params = params(u64::MAX);
    let parent = authored(1, 5, 1, &params);
    let keypair = keypair(2);
    let mut s = solution(&keypair, &params);
    s.tag = vec![0u8; 8];
    let pre_digest = PreDigest { slot: 4, solution: s };
    let mut child = unsealed(2, &pre_digest, &params);
    child.digest.push(DigestItem::solution_range_descriptor(7));
    child.digest.push(DigestItem::salt_descriptor(&[1u8; 8]));
    seal_header(&mut child, vec![0u8; 64]);
    assert_eq!(
        verify_header(&child, &parent, &params),
        Err(VerificationError::SlotNotIncreasing)
    );
}
