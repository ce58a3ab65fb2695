use subspace_consensus::authoring::{dummy_claim_slot, proposal_digest};
use subspace_consensus::digest::{
    decode_pre_digest, encode_pre_digest, subspace_engine_id, DigestItem, PreDigest, Solution,
    VrfSignature,
};
use subspace_consensus::verification::reward_context;

fn keypair() -> schnorrkel::Keypair {
    schnorrkel::MiniSecretKey::from_bytes(&[9u8; 32])
        .unwrap()
        .expand_to_keypair(schnorrkel::ExpansionMode::Ed25519)
}

fn sample_pre_digest(slot: u64) -> PreDigest {
    PreDigest {
        slot,
        solution: Solution {
            public_key: vec![1u8; 32],
            reward_address: vec![2u8; 32],
            piece_index: 77,
            encoding: vec![3u8, 4, 5, 6, 7],
            tag: vec![8u8; 8],
            tag_signature: VrfSignature { output: vec![9u8; 32], proof: vec![10u8; 64] },
            local_challenge: VrfSignature { output: vec![11u8; 32], proof: vec![12u8; 64] },
        },
    }
}

#[test]
fn wrong_consensus_engine_id_rejected() {
    let keypair = keypair();
    let ctx = schnorrkel::signing_context(&reward_context());
    let bad_seal = DigestItem::Seal([0; 4], keypair.sign(ctx.bytes(b"")).to_bytes().to_vec());
    assert!(bad_seal.as_subspace_pre_digest().is_none());
    assert!(bad_seal.as_subspace_seal().is_none())
}

#[test]
fn malformed_pre_digest_rejected() {
    let bad_seal = DigestItem::subspace_seal(vec![0u8; 64]);
    assert!(bad_seal.as_subspace_pre_digest().is_none());
}

#[test]
fn sig_is_not_pre_digest() {
    let keypair = keypair();
    let ctx = schnorrkel::signing_context(&reward_context());
    let bad_seal = DigestItem::subspace_seal(keypair.sign(ctx.bytes(b"")).to_bytes().to_vec());
    assert!(bad_seal.as_subspace_pre_digest().is_none());
    assert!(bad_seal.as_subspace_seal().is_some())
}

#[test]
fn can_author_block() {
    let mut i: u64 = 0;
    // a claim may need a few attempts
    loop {
        match dummy_claim_slot(i) {
            None => i += 1,
            Some(s) => {
                assert_eq!(s.0.slot, i);
                assert_eq!(s.1, vec![0u8; 32]);
                assert_eq!(s.0.solution.encoding.len(), 4096);
                break;
            }
        }
    }
}

#[test]
fn pre_digest_encoding_layout() {
    let p = sample_pre_digest(0x0102030405060708);
    let bytes = encode_pre_digest(&p);
    assert_eq!(bytes.len(), 84 + 5 + 200);
    assert_eq!(&bytes[0..8], &[8u8, 7, 6, 5, 4, 3, 2, 1]);
    assert_eq!(&bytes[72..80], &[77u8, 0, 0, 0, 0, 0, 0, 0]);
    assert_eq!(&bytes[80..84], &[5u8, 0, 0, 0]);
    assert_eq!(&bytes[84..89], &[3u8, 4, 5, 6, 7]);
}

#[test]
fn pre_digest_round_trip() {
    let p = sample_pre_digest(42);
    let bytes = encode_pre_digest(&p);
    let d = decode_pre_digest(&bytes).unwrap();
    assert_eq!(d.slot, 42);
    assert_eq!(d.solution.public_key, p.solution.public_key);
    assert_eq!(d.solution.reward_address, p.solution.reward_address);
    assert_eq!(d.solution.piece_index, 77);
    assert_eq!(d.solution.encoding, p.solution.encoding);
    assert_eq!(d.solution.tag, p.solution.tag);
    assert_eq!(d.solution.tag_signature.output, p.solution.tag_signature.output);
    assert_eq!(d.solution.tag_signature.proof, p.solution.tag_signature.proof);
    assert_eq!(d.solution.local_challenge.output, p.solution.local_challenge.output);
    assert_eq!(d.solution.local_challenge.proof, p.solution.local_challenge.proof);
}

#[test]
fn truncated_pre_digest_is_absent() {
    let p = sample_pre_digest(42);
    let mut bytes = encode_pre_digest(&p);
    bytes.pop();
    assert!(decode_pre_digest(&bytes).is_none());
    assert!(decode_pre_digest(&[]).is_none());
    let item = DigestItem::PreRuntime(subspace_engine_id(), bytes);
    assert!(item.as_subspace_pre_digest().is_none());
}

#[test]
fn pre_digest_item_under_other_engine_is_absent() {
    let p = sample_pre_digest(1);
    let item = DigestItem::PreRuntime(*b"BABE", encode_pre_digest(&p));
    assert!(item.as_subspace_pre_digest().is_none());
    let ours = DigestItem::subspace_pre_digest(&p);
    assert_eq!(ours.as_subspace_pre_digest().unwrap().slot, 1);
    assert_eq!(subspace_engine_id(), *b"SUB_");
}

#[test]
fn descriptors_round_trip() {
    let range = DigestItem::solution_range_descriptor(u64::MAX - 5);
    assert_eq!(range.as_solution_range_descriptor(), Some(u64::MAX - 5));
    assert!(range.as_salt_descriptor().is_none());
    assert!(range.as_subspace_pre_digest().is_none());
    let salt = DigestItem::salt_descriptor(&0u64.to_le_bytes());
    assert_eq!(salt.as_salt_descriptor(), Some(vec![0u8; 8]));
    assert_eq!(salt.as_solution_range_descriptor(), None);
    assert!(salt.as_subspace_seal().is_none());
}

#[test]
fn seal_of_wrong_length_is_absent() {
    let item = DigestItem::Seal(subspace_engine_id(), vec![1u8; 63]);
    assert!(item.as_subspace_seal().is_none());
    let other = DigestItem::Other(vec![1u8; 64]);
    assert!(other.as_subspace_seal().is_none());
}

#[test]
fn proposal_digest_order() {
    let p = sample_pre_digest(3);
    let items = proposal_digest(&p, 1000, &[1u8, 2, 3, 4, 5, 6, 7, 8]);
    assert_eq!(items.len(), 3);
    assert_eq!(items[0].as_subspace_pre_digest().unwrap().slot, 3);
    assert_eq!(items[1].as_solution_range_descriptor(), Some(1000));
    assert_eq!(items[2].as_salt_descriptor(), Some(vec![1u8, 2, 3, 4, 5, 6, 7, 8]));
}
