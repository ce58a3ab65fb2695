use subspace_consensus::difficulty::{
    derive_salt, next_solution_range, SaltSchedule, Salts, SolutionRangeParams, SolutionRangeState,
    TotalSpacePledged,
};
use sha2::Digest;

fn params(should_adjust: bool) -> SolutionRangeParams {
    SolutionRangeParams { era_duration: 10, slot_probability: (1, 6), should_adjust }
}

#[test]
fn range_follows_block_rate() {
    let p = params(true);
    // expected slots: 10 * 6 / 1 = 60
    assert_eq!(next_solution_range(&p, 1000, 0, 60), 1000);
    assert_eq!(next_solution_range(&p, 1000, 0, 120), 2000);
    assert_eq!(next_solution_range(&p, 1000, 0, 30), 500);
    assert_eq!(next_solution_range(&p, 1000, 100, 145), 750);
}

#[test]
fn range_adjustment_is_clamped() {
    let p = params(true);
    assert_eq!(next_solution_range(&p, 1000, 0, 6000), 4000);
    assert_eq!(next_solution_range(&p, 1000, 0, 1), 250);
    assert_eq!(next_solution_range(&p, 1000, 50, 10), 250);
    assert_eq!(next_solution_range(&p, u64::MAX, 0, 600), u64::MAX);
}

#[test]
fn pinned_or_degenerate_range_stays() {
    assert_eq!(next_solution_range(&params(false), 1000, 0, 6000), 1000);
    let zero = SolutionRangeParams { era_duration: 10, slot_probability: (0, 6), should_adjust: true };
    assert_eq!(next_solution_range(&zero, 1000, 0, 6000), 1000);
    let empty = SolutionRangeParams { era_duration: 0, slot_probability: (1, 6), should_adjust: true };
    assert_eq!(next_solution_range(&empty, 1000, 0, 6000), 1000);
}

#[test]
fn era_boundary_recomputes_range() {
    let p = params(true);
    let mut s = SolutionRangeState { current: 1000, era_start_slot: 0 };
    s.on_block(&p, 9, 100);
    assert_eq!((s.current, s.era_start_slot), (1000, 0));
    s.on_block(&p, 10, 120);
    assert_eq!((s.current, s.era_start_slot), (2000, 120));
    s.on_block(&p, 0, 500);
    assert_eq!((s.current, s.era_start_slot), (2000, 120));
}

#[test]
fn salt_is_hash_prefix() {
    let salt = derive_salt(&[1u8, 2, 3], 4);
    let mut input = vec![1u8, 2, 3];
    input.extend_from_slice(&4u64.to_le_bytes());
    assert_eq!(salt, sha2::Sha256::digest(&input)[..8].to_vec());
}

#[test]
fn salt_revealed_before_activation() {
    let schedule = SaltSchedule { eon_duration: 100, next_salt_reveal: 80 };
    let mut salts = Salts { current: vec![0u8; 8], next: None, eon_index: 0 };
    salts.on_slot(&schedule, 50, &[1u8]);
    assert_eq!(salts.next, None);
    assert_eq!(salts.current, vec![0u8; 8]);
    salts.on_slot(&schedule, 80, &[2u8]);
    let revealed = derive_salt(&[2u8], 1);
    assert_eq!(salts.next, Some(revealed.clone()));
    salts.on_slot(&schedule, 90, &[3u8]);
    assert_eq!(salts.next, Some(revealed.clone()));
    salts.on_slot(&schedule, 100, &[4u8]);
    assert_eq!(salts.current, revealed);
    assert_eq!(salts.eon_index, 1);
    assert_eq!(salts.next, None);
}

#[test]
fn skipped_eon_derives_salt_directly() {
    let schedule = SaltSchedule { eon_duration: 100, next_salt_reveal: 80 };
    let mut salts = Salts { current: vec![0u8; 8], next: None, eon_index: 0 };
    salts.on_slot(&schedule, 285, &[7u8]);
    assert_eq!(salts.eon_index, 2);
    assert_eq!(salts.current, derive_salt(&[7u8], 2));
    assert_eq!(salts.next, Some(derive_salt(&[7u8], 3)));
}

#[test]
fn pledged_space_from_solution_range() {
    assert_eq!(
        TotalSpacePledged::get(u64::MAX, (1, 6)),
        (u64::MAX as u128) * 4096 / (u64::MAX as u128) / 6
    );
    assert_eq!(TotalSpacePledged::get(1, (1, 1)), (u64::MAX as u128) * 4096);
    assert_eq!(TotalSpacePledged::get(1, (u64::MAX, 1)), u128::MAX);
    assert_eq!(TotalSpacePledged::get(1 << 40, (1, 6)), (u64::MAX as u128) * 4096 / (1u128 << 40) / 6);
}
