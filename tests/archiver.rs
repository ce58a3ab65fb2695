use sha2::Digest;
use subspace_consensus::archiver::{
    encode_root_block, hash_root_block, ArchivedSegment, Archiver, ArchiverError, RootBlock,
};

const RECORD: usize = 4;
const SEGMENT: usize = 16;

fn block(number: u64, len: usize) -> Vec<u8> {
    (0..len).map(|i| (number as u8).wrapping_mul(31).wrapping_add(i as u8)).collect()
}

fn archive(count: u64, len: usize) -> (Archiver, Vec<ArchivedSegment>) {
    let mut archiver = Archiver::new(RECORD, SEGMENT).unwrap();
    let mut out = Vec::new();
    for n in 0..count {
        out.extend(archiver.add_block(n, &block(n, len)).unwrap());
    }
    (archiver, out)
}

fn same_root_block(a: &RootBlock, b: &RootBlock) -> bool {
    a.segment_index == b.segment_index
        && a.records_root == b.records_root
        && a.prev_root_block_hash == b.prev_root_block_hash
        && a.last_archived_block == b.last_archived_block
}

#[test]
fn one_segment_with_leftover() {
    let mut archiver = Archiver::new(RECORD, SEGMENT).unwrap();
    assert!(archiver.add_block(0, &block(0, 3)).unwrap().is_empty());
    assert!(archiver.add_block(1, &block(1, 3)).unwrap().is_empty());
    let segments = archiver.add_block(2, &block(2, 3)).unwrap();
    assert_eq!(segments.len(), 1);
    assert!(archiver.add_block(3, &block(3, 3)).unwrap().is_empty());
    assert_eq!(archiver.buffered_len(), 4 * 7 - 16);
    assert_eq!(archiver.next_segment_index(), 1);
    assert_eq!(archiver.last_archived_block(), Some(3));

    let mut stream = Vec::new();
    for n in 0..4u64 {
        stream.extend_from_slice(&3u32.to_le_bytes());
        stream.extend_from_slice(&block(n, 3));
    }
    assert_eq!(archiver.buffered(), &stream[16..]);

    let segment = &segments[0];
    assert_eq!(segment.root_block.segment_index, 0);
    assert_eq!(segment.root_block.prev_root_block_hash, vec![0u8; 32]);
    assert_eq!(segment.root_block.last_archived_block, 2);
    assert_eq!(segment.pieces.len(), 8);
    for (i, piece) in segment.pieces.iter().take(4).enumerate() {
        assert_eq!(piece, &stream[i * 4..i * 4 + 4].to_vec());
    }

    let mut shards: Vec<Vec<u8>> = segment.pieces[..4].to_vec();
    shards.extend(vec![vec![0u8; 4]; 4]);
    let codec = reed_solomon_erasure::galois_8::ReedSolomon::new(4, 4).unwrap();
    codec.encode(&mut shards).unwrap();
    assert_eq!(&shards[4..], &segment.pieces[4..]);
    assert_ne!(&segment.pieces[4..], &segment.pieces[..4]);

    let mut hashes = Vec::new();
    for piece in &segment.pieces {
        hashes.extend_from_slice(&sha2::Sha256::digest(piece));
    }
    assert_eq!(segment.root_block.records_root, sha2::Sha256::digest(&hashes).to_vec());
}

#[test]
fn archiving_is_deterministic() {
    let (a, first) = archive(20, 9);
    let (b, second) = archive(20, 9);
    assert!(first.len() > 1);
    assert_eq!(first.len(), second.len());
    for (x, y) in first.iter().zip(second.iter()) {
        assert!(same_root_block(&x.root_block, &y.root_block));
        assert_eq!(x.pieces, y.pieces);
    }
    assert_eq!(a.buffered(), b.buffered());
}

#[test]
fn segment_indices_are_contiguous() {
    let (archiver, segments) = archive(30, 11);
    assert_eq!(segments.len(), 30 * 15 / 16);
    for (i, segment) in segments.iter().enumerate() {
        assert_eq!(segment.root_block.segment_index, i as u64);
        if i == 0 {
            assert_eq!(segment.root_block.prev_root_block_hash, vec![0u8; 32]);
        } else {
            assert_eq!(
                segment.root_block.prev_root_block_hash,
                hash_root_block(&segments[i - 1].root_block)
            );
        }
    }
    assert_eq!(archiver.next_segment_index(), segments.len() as u64);
}

#[test]
fn large_block_fills_several_segments() {
    let mut archiver = Archiver::new(RECORD, SEGMENT).unwrap();
    let segments = archiver.add_block(0, &block(0, 60)).unwrap();
    assert_eq!(segments.len(), 4);
    assert_eq!(archiver.buffered_len(), 0);
    assert!(segments.iter().all(|s| s.root_block.last_archived_block == 0));
}

#[test]
fn blocks_out_of_order_are_refused() {
    let mut archiver = Archiver::new(RECORD, SEGMENT).unwrap();
    assert_eq!(archiver.add_block(1, &[1u8]).err(), Some(ArchiverError::OutOfOrder));
    assert!(archiver.add_block(0, &[1u8]).is_ok());
    assert_eq!(archiver.add_block(0, &[1u8]).err(), Some(ArchiverError::OutOfOrder));
    assert_eq!(archiver.add_block(2, &[1u8]).err(), Some(ArchiverError::OutOfOrder));
    assert_eq!(archiver.buffered_len(), 5);
    assert!(archiver.add_block(1, &[]).is_ok());
    assert_eq!(archiver.buffered_len(), 9);
}

#[test]
fn invalid_sizes_are_refused() {
    assert_eq!(Archiver::new(0, 16).err(), Some(ArchiverError::InvalidParameters));
    assert_eq!(Archiver::new(4, 18).err(), Some(ArchiverError::InvalidParameters));
    assert_eq!(Archiver::new(4, 0).err(), Some(ArchiverError::InvalidParameters));
    assert_eq!(Archiver::new(1, 129).err(), Some(ArchiverError::InvalidParameters));
    assert!(Archiver::new(1, 128).is_ok());
    assert!(Archiver::new(16, 16).is_ok());
}

#[test]
fn resumed_archiver_continues_identically() {
    let (_, all) = archive(12, 10);
    let mut first = Archiver::new(RECORD, SEGMENT).unwrap();
    let mut before = Vec::new();
    for n in 0..6u64 {
        before.extend(first.add_block(n, &block(n, 10)).unwrap());
    }
    let last = before.last().unwrap();
    let root_block = RootBlock {
        segment_index: last.root_block.segment_index,
        records_root: last.root_block.records_root.clone(),
        prev_root_block_hash: last.root_block.prev_root_block_hash.clone(),
        last_archived_block: last.root_block.last_archived_block,
    };
    let mut resumed =
        Archiver::resume(RECORD, SEGMENT, &root_block, first.buffered().to_vec(), 5).unwrap();
    let mut after = Vec::new();
    for n in 6..12u64 {
        after.extend(resumed.add_block(n, &block(n, 10)).unwrap());
    }
    assert_eq!(before.len() + after.len(), all.len());
    for (x, y) in before.iter().chain(after.iter()).zip(all.iter()) {
        assert!(same_root_block(&x.root_block, &y.root_block));
        assert_eq!(x.pieces, y.pieces);
    }
}

#[test]
fn resume_from_inconsistent_state_is_refused() {
    let root_block = RootBlock {
        segment_index: 3,
        records_root: vec![1u8; 32],
        prev_root_block_hash: vec![2u8; 32],
        last_archived_block: 10,
    };
    assert_eq!(
        Archiver::resume(RECORD, SEGMENT, &root_block, vec![], 9).err(),
        Some(ArchiverError::RootBlockGap)
    );
    assert_eq!(
        Archiver::resume(RECORD, SEGMENT, &root_block, vec![0u8; 16], 10).err(),
        Some(ArchiverError::RootBlockGap)
    );
    let a = Archiver::resume(RECORD, SEGMENT, &root_block, vec![0u8; 15], 10).unwrap();
    assert_eq!(a.next_segment_index(), 4);
    let exhausted = RootBlock { segment_index: u64::MAX, ..root_block };
    assert_eq!(
        Archiver::resume(RECORD, SEGMENT, &exhausted, vec![], 10).err(),
        Some(ArchiverError::SegmentIndexExhausted)
    );
}

#[test]
fn root_block_encoding_and_hash() {
    let rb = RootBlock {
        segment_index: 1,
        records_root: vec![3u8; 32],
        prev_root_block_hash: vec![4u8; 32],
        last_archived_block: 2,
    };
    let bytes = encode_root_block(&rb);
    assert_eq!(bytes.len(), 80);
    assert_eq!(&bytes[..8], &1u64.to_le_bytes());
    assert_eq!(&bytes[72..], &2u64.to_le_bytes());
    assert_eq!(hash_root_block(&rb), sha2::Sha256::digest(&bytes).to_vec());
}

#[test]
fn segment_pieces_have_one_shape() {
    let (_, segments) = archive(25, 13);
    assert!(segments.len() > 2);
    for segment in &segments {
        assert_eq!(segment.pieces.len(), 2 * SEGMENT / RECORD);
        assert!(segment.pieces.iter().all(|p| p.len() == RECORD));
    }
}
