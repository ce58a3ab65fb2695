use subspace_consensus::slot_clock::{slot_at, SlotNotifier};

#[test]
fn slot_is_elapsed_durations() {
    assert_eq!(slot_at(0, 1000), 0);
    assert_eq!(slot_at(999, 1000), 0);
    assert_eq!(slot_at(1000, 1000), 1);
    assert_eq!(slot_at(6_543_210, 1000), 6543);
}

#[test]
fn one_notification_per_new_slot() {
    let mut n = SlotNotifier::new();
    let info = n.tick(5000, 1000, &[1u8, 2], &[3u8]).unwrap();
    assert_eq!(info.slot, 5);
    assert_eq!(info.global_challenge, vec![1u8, 2]);
    assert_eq!(info.salt, vec![3u8]);
    assert!(n.tick(5999, 1000, &[1u8], &[3u8]).is_none());
    // a late tick still names the right slot
    assert_eq!(n.tick(9100, 1000, &[1u8], &[3u8]).unwrap().slot, 9);
    assert!(n.tick(8000, 1000, &[1u8], &[3u8]).is_none());
}

#[test]
fn first_solution_wins_the_round() {
    let mut n = SlotNotifier::new();
    assert!(!n.offer_solution(0));
    n.tick(5000, 1000, &[], &[]);
    assert_eq!(n.open_round(), Some(5));
    assert!(!n.offer_solution(4));
    assert!(n.offer_solution(5));
    assert!(!n.offer_solution(5));
    assert_eq!(n.open_round(), None);
    n.tick(6000, 1000, &[], &[]);
    assert!(!n.offer_solution(5));
    assert!(n.offer_solution(6));
}

#[test]
fn next_slot_closes_the_round() {
    let mut n = SlotNotifier::new();
    n.tick(5000, 1000, &[], &[]);
    n.tick(6000, 1000, &[], &[]);
    assert!(!n.offer_solution(5));
    assert!(n.offer_solution(6));
}
