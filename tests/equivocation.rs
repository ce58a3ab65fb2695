use subspace_consensus::authoring::proposal_digest;
use subspace_consensus::digest::{PreDigest, Solution, VrfSignature};
use subspace_consensus::equivocation::EquivocationDetector;
use subspace_consensus::header::{seal_header, Header};

fn header(number: u64, state: u8) -> Header {
    Header {
        number,
        parent_hash: vec![0u8; 32],
        state_root: vec![state; 32],
        extrinsics_root: vec![0u8; 32],
        digest: Vec::new(),
    }
}

fn authored(slot: u64, public_key: u8, state: u8, seal: u8) -> Header {
    let pre_digest = PreDigest {
        slot,
        solution: Solution {
            public_key: vec![public_key; 32],
            reward_address: vec![public_key; 32],
            piece_index: 0,
            encoding: vec![1u8; 16],
            tag: vec![0u8; 8],
            tag_signature: VrfSignature { output: vec![0u8; 32], proof: vec![0u8; 64] },
            local_challenge: VrfSignature { output: vec![0u8; 32], proof: vec![0u8; 64] },
        },
    };
    let mut h = header(1, state);
    h.digest = proposal_digest(&pre_digest, 10, &[0u8; 8]);
    seal_header(&mut h, vec![seal; 64]);
    h
}

#[test]
fn two_headers_same_slot_give_one_proof() {
    let mut detector = EquivocationDetector::new();
    assert!(detector.check_header(authored(7, 1, 1, 0)).is_none());
    let proof = detector.check_header(authored(7, 1, 2, 0)).unwrap();
    assert_eq!(proof.slot, 7);
    assert_eq!(proof.offender, vec![1u8; 32]);
    assert_eq!(proof.first_header.state_root, vec![1u8; 32]);
    assert_eq!(proof.second_header.state_root, vec![2u8; 32]);
    assert!(detector.check_header(authored(7, 1, 2, 0)).is_none());
    assert!(detector.check_header(authored(7, 1, 3, 0)).is_none());
    assert_eq!(detector.len(), 1);
}

#[test]
fn resealed_header_is_no_equivocation() {
    let mut detector = EquivocationDetector::new();
    assert!(detector.check_header(authored(7, 1, 1, 0)).is_none());
    assert!(detector.check_header(authored(7, 1, 1, 9)).is_none());
}

#[test]
fn other_slot_or_key_is_no_equivocation() {
    let mut detector = EquivocationDetector::new();
    assert!(detector.check_header(authored(7, 1, 1, 0)).is_none());
    assert!(detector.check_header(authored(8, 1, 2, 0)).is_none());
    assert!(detector.check_header(authored(7, 2, 3, 0)).is_none());
    assert_eq!(detector.len(), 3);
}

#[test]
fn header_without_pre_digest_is_ignored() {
    let mut detector = EquivocationDetector::new();
    assert!(detector.check_header(header(1, 1)).is_none());
    assert_eq!(detector.len(), 0);
}

#[test]
fn observe_reports_both_hashes() {
    let mut detector = EquivocationDetector::new();
    assert!(detector.observe(3, &[5u8; 32], &[1u8; 32], header(1, 1)).is_none());
    assert!(detector.observe(3, &[5u8; 32], &[1u8; 32], header(1, 1)).is_none());
    let proof = detector.observe(3, &[5u8; 32], &[2u8; 32], header(1, 2)).unwrap();
    assert_eq!(proof.first_header.state_root, vec![1u8; 32]);
    assert_eq!(proof.second_header.state_root, vec![2u8; 32]);
}
