use subspace_consensus::archiver::RootBlock;
use subspace_consensus::pending::PendingRootBlocks;

fn root_block(index: u64) -> RootBlock {
    RootBlock {
        segment_index: index,
        records_root: vec![index as u8; 32],
        prev_root_block_hash: vec![0u8; 32],
        last_archived_block: index * 10,
    }
}

fn indices(v: &[RootBlock]) -> Vec<u64> {
    v.iter().map(|r| r.segment_index).collect()
}

#[test]
fn failed_import_restores_root_blocks() {
    let mut pending = PendingRootBlocks::new();
    pending.stage(5, vec![root_block(0), root_block(1)]);
    pending.stage(6, vec![root_block(2)]);
    let taken = pending.take(5);
    assert_eq!(indices(taken.as_ref().unwrap()), vec![0, 1]);
    assert!(pending.take(5).is_none());
    assert!(pending.finish_import(5, taken, false).is_none());
    assert_eq!(indices(&pending.take(5).unwrap()), vec![0, 1]);
    assert_eq!(indices(&pending.take(6).unwrap()), vec![2]);
}

#[test]
fn successful_import_commits_root_blocks_once() {
    let mut pending = PendingRootBlocks::new();
    pending.stage(5, vec![root_block(0)]);
    let taken = pending.take(5);
    let committed = pending.finish_import(5, taken, true).unwrap();
    assert_eq!(indices(&committed), vec![0]);
    assert!(pending.take(5).is_none());
}

#[test]
fn staging_twice_appends() {
    let mut pending = PendingRootBlocks::new();
    pending.stage(5, vec![root_block(0)]);
    pending.stage(7, vec![root_block(3)]);
    pending.stage(5, vec![root_block(1)]);
    assert_eq!(indices(&pending.take(5).unwrap()), vec![0, 1]);
    assert_eq!(indices(&pending.take(7).unwrap()), vec![3]);
    assert!(pending.take(8).is_none());
}

#[test]
fn import_without_root_blocks() {
    let mut pending = PendingRootBlocks::new();
    let taken = pending.take(1);
    assert!(taken.is_none());
    assert!(pending.finish_import(1, taken, false).is_none());
    assert!(pending.take(1).is_none());
}
