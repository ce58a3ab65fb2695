//! The history archiver: turns finalized blocks, fed in order, into segments
//! of erasure-coded pieces, each committed to by a root block that extends a
//! hash chain of root blocks.

use vstd::prelude::*;

use crate::bytes::{byte_strings, le_u32, le_u64, push_all, push_u32_le, push_u64_le, copy_range};
use crate::crypto::{compute_reed_solomon_parity, compute_sha256, reed_solomon_parity, sha256};

verus! {

/// Length of a root block hash and of a records root.
pub const HASH_SIZE: usize = 32;

/// Most data records in one segment: data and parity records together may not
/// exceed the 256 elements of the coding field.
pub const MAX_RECORDS_PER_SEGMENT: usize = 128;

/// Why the archiver refused a request.
#[derive(PartialEq, Eq, Structural, Debug, Clone, Copy)]
pub enum ArchiverError {
    /// The record size is zero, the segment size is not a positive multiple
    /// of it, or a segment would hold more than 128 records.
    InvalidParameters,
    /// The block does not directly follow the last archived block.
    OutOfOrder,
    /// The block's length does not fit the four-byte length prefix, or the
    /// buffer would outgrow memory.
    BlockTooLarge,
    /// The segment indices would run past the largest 64-bit integer.
    SegmentIndexExhausted,
    /// The state to resume from contradicts its last root block.
    RootBlockGap,
}

/// A commitment to one archived segment.
pub struct RootBlock {
    pub segment_index: u64,
    pub records_root: Vec<u8>,
    pub prev_root_block_hash: Vec<u8>,
    pub last_archived_block: u64,
}

pub struct RootBlockModel {
    pub segment_index: u64,
    pub records_root: Seq<u8>,
    pub prev_root_block_hash: Seq<u8>,
    pub last_archived_block: u64,
}

impl View for RootBlock {
    type V = RootBlockModel;

    open spec fn view(&self) -> RootBlockModel {
        RootBlockModel {
            segment_index: self.segment_index,
            records_root: self.records_root@,
            prev_root_block_hash: self.prev_root_block_hash@,
            last_archived_block: self.last_archived_block,
        }
    }
}

/// The pieces of one segment and the root block that commits to them.
pub struct ArchivedSegment {
    pub root_block: RootBlock,
    pub pieces: Vec<Vec<u8>>,
}

pub struct ArchivedSegmentModel {
    pub root_block: RootBlockModel,
    pub pieces: Seq<Seq<u8>>,
}

impl View for ArchivedSegment {
    type V = ArchivedSegmentModel;

    open spec fn view(&self) -> ArchivedSegmentModel {
        ArchivedSegmentModel { root_block: self.root_block@, pieces: byte_strings(self.pieces@) }
    }
}

pub open spec fn segments_view(v: Seq<ArchivedSegment>) -> Seq<ArchivedSegmentModel> {
    v.map_values(|s: ArchivedSegment| s@)
}

pub struct ArchiverModel {
    pub record_size: nat,
    pub segment_size: nat,
    pub buffer: Seq<u8>,
    pub next_segment_index: u64,
    pub prev_root_block_hash: Seq<u8>,
    pub last_block: Option<u64>,
}

/// The record and segment sizes are usable: records are not empty, a segment
/// is a whole number of records, at least one and at most 128.
pub open spec fn sizes_valid(record_size: nat, segment_size: nat) -> bool {
    &&& record_size > 0
    &&& segment_size % record_size == 0
    &&& 0 < segment_size / record_size <= MAX_RECORDS_PER_SEGMENT
}

/// The archiver's state: valid sizes, and less than one segment buffered.
pub open spec fn archiver_well_formed(s: ArchiverModel) -> bool {
    &&& sizes_valid(s.record_size, s.segment_size)
    &&& s.buffer.len() < s.segment_size
}

/// The bytes of a root block: segment index, records root, previous root block
/// hash, last archived block; integers little-endian.
pub open spec fn encode_root_block_spec(rb: RootBlockModel) -> Seq<u8> {
    le_u64(rb.segment_index) + rb.records_root + rb.prev_root_block_hash + le_u64(
        rb.last_archived_block,
    )
}

/// The hash of a root block, which the next root block links to.
pub open spec fn root_block_hash(rb: RootBlockModel) -> Seq<u8> {
    sha256(encode_root_block_spec(rb))
}

/// The records of a segment: its bytes cut into records of `record_size`.
pub open spec fn records_of(bytes: Seq<u8>, record_size: nat) -> Seq<Seq<u8>> {
    Seq::new(
        bytes.len() / record_size,
        |i: int| bytes.subrange(i * record_size, (i + 1) * record_size),
    )
}

/// The pieces of a segment: its records followed by their parity records.
pub open spec fn pieces_of(records: Seq<Seq<u8>>) -> Seq<Seq<u8>> {
    records + reed_solomon_parity(records)
}

/// A segment has twice as many pieces as records, each a record long.
pub open spec fn pieces_shaped(pieces: Seq<Seq<u8>>, record_size: nat, segment_size: nat) -> bool {
    &&& pieces.len() == 2 * (segment_size / record_size)
    &&& forall|i: int| 0 <= i < pieces.len() ==> #[trigger] pieces[i].len() == record_size
}

/// The SHA-256 hashes of the pieces, one after the other.
pub open spec fn piece_hashes(pieces: Seq<Seq<u8>>) -> Seq<u8>
    decreases pieces.len(),
{
    if pieces.len() == 0 {
        seq![]
    } else {
        piece_hashes(pieces.drop_last()) + sha256(pieces.last())
    }
}

/// The commitment to a segment's pieces: SHA-256 of their hashes in order.
pub open spec fn records_root_spec(pieces: Seq<Seq<u8>>) -> Seq<u8> {
    sha256(piece_hashes(pieces))
}

/// The segment that the first `segment_size` buffered bytes make.
pub open spec fn next_segment(s: ArchiverModel, last_block: u64) -> ArchivedSegmentModel {
    let pieces = pieces_of(records_of(s.buffer.subrange(0, s.segment_size as int), s.record_size));
    ArchivedSegmentModel {
        root_block: RootBlockModel {
            segment_index: s.next_segment_index,
            records_root: records_root_spec(pieces),
            prev_root_block_hash: s.prev_root_block_hash,
            last_archived_block: last_block,
        },
        pieces,
    }
}

/// The state after the first segment is cut from the buffer.
pub open spec fn after_segment(s: ArchiverModel, last_block: u64) -> ArchiverModel {
    ArchiverModel {
        buffer: s.buffer.subrange(s.segment_size as int, s.buffer.len() as int),
        next_segment_index: (s.next_segment_index + 1) as u64,
        prev_root_block_hash: root_block_hash(next_segment(s, last_block).root_block),
        ..s
    }
}

/// Cuts every whole segment from the buffer, in order.
pub open spec fn cut_segments(s: ArchiverModel, last_block: u64) -> (ArchiverModel, Seq<
    ArchivedSegmentModel,
>)
    decreases s.buffer.len(),
{
    if s.segment_size == 0 || s.buffer.len() < s.segment_size {
        (s, seq![])
    } else {
        let rest = cut_segments(after_segment(s, last_block), last_block);
        (rest.0, seq![next_segment(s, last_block)] + rest.1)
    }
}

/// Whether block `number` directly follows the last archived block.
pub open spec fn in_order(last_block: Option<u64>, number: u64) -> bool {
    match last_block {
        None => number == 0,
        Some(n) => number == n + 1,
    }
}

/// Archiving block `number` with encoding `block`: it is appended to the
/// buffer behind its length, and every segment completed is cut off.
pub open spec fn add_block_spec(s: ArchiverModel, number: u64, block: Seq<u8>) -> Result<
    (ArchiverModel, Seq<ArchivedSegmentModel>),
    ArchiverError,
> {
    let total = s.buffer.len() + 4 + block.len();
    if !in_order(s.last_block, number) {
        Err(ArchiverError::OutOfOrder)
    } else if block.len() > u32::MAX || total > usize::MAX {
        Err(ArchiverError::BlockTooLarge)
    } else if s.next_segment_index + total / s.segment_size > u64::MAX {
        Err(ArchiverError::SegmentIndexExhausted)
    } else {
        Ok(
            cut_segments(
                ArchiverModel {
                    buffer: s.buffer + le_u32(block.len() as u32) + block,
                    last_block: Some(number),
                    ..s
                },
                number,
            ),
        )
    }
}

/// Archiving a sequence of blocks, each a number and an encoding, in order.
pub open spec fn archive_blocks(s: ArchiverModel, blocks: Seq<(u64, Seq<u8>)>) -> Result<
    (ArchiverModel, Seq<ArchivedSegmentModel>),
    ArchiverError,
>
    decreases blocks.len(),
{
    if blocks.len() == 0 {
        Ok((s, seq![]))
    } else {
        match archive_blocks(s, blocks.drop_last()) {
            Err(e) => Err(e),
            Ok((s1, segments1)) => match add_block_spec(s1, blocks.last().0, blocks.last().1) {
                Err(e) => Err(e),
                Ok((s2, segments2)) => Ok((s2, segments1 + segments2)),
            },
        }
    }
}

/// The state of a fresh archiver.
pub open spec fn fresh_archiver(record_size: nat, segment_size: nat) -> ArchiverModel {
    ArchiverModel {
        record_size,
        segment_size,
        buffer: seq![],
        next_segment_index: 0,
        prev_root_block_hash: Seq::new(HASH_SIZE as nat, |i: int| 0u8),
        last_block: None,
    }
}


/// The root blocks of a run of segments form a hash chain that starts at
/// `prev_hash`, and their indices count up from `first_index` without a gap.
pub open spec fn chained_from(
    segments: Seq<ArchivedSegmentModel>,
    first_index: int,
    prev_hash: Seq<u8>,
) -> bool {
    &&& forall|i: int|
        0 <= i < segments.len() ==> #[trigger] segments[i].root_block.segment_index == first_index
            + i
    &&& segments.len() > 0 ==> segments[0].root_block.prev_root_block_hash == prev_hash
    &&& forall|i: int|
        0 < i < segments.len() ==> #[trigger] segments[i].root_block.prev_root_block_hash
            == root_block_hash(segments[i - 1].root_block)
}

/// The hash the next root block will link to after a run of segments.
pub open spec fn chain_tip(segments: Seq<ArchivedSegmentModel>, prev_hash: Seq<u8>) -> Seq<u8> {
    if segments.len() == 0 {
        prev_hash
    } else {
        root_block_hash(segments.last().root_block)
    }
}

/// Cutting segments from the buffer continues the root block chain, counts the
/// segment index up by one per segment, and leaves less than a segment.
pub proof fn lemma_cut_segments(s: ArchiverModel, last_block: u64)
    requires
        sizes_valid(s.record_size, s.segment_size),
        s.next_segment_index + s.buffer.len() / s.segment_size <= u64::MAX,
    ensures
        ({
            let (s2, segments) = cut_segments(s, last_block);
            &&& chained_from(segments, s.next_segment_index as int, s.prev_root_block_hash)
            &&& s2.next_segment_index == s.next_segment_index + segments.len()
            &&& s2.prev_root_block_hash == chain_tip(segments, s.prev_root_block_hash)
            &&& s2.buffer.len() < s2.segment_size
            &&& s2.record_size == s.record_size
            &&& s2.segment_size == s.segment_size
            &&& s2.last_block == s.last_block
            &&& segments.len() == s.buffer.len() / s.segment_size
        }),
    decreases s.buffer.len(),
{
    if s.buffer.len() >= s.segment_size {
        let s1 = after_segment(s, last_block);
        let seg = next_segment(s, last_block);
        assert(s1.buffer.len() == s.buffer.len() - s.segment_size);
        vstd::arithmetic::div_mod::lemma_div_minus_one(s.buffer.len() as int, s.segment_size as int);
        assert(s1.buffer.len() / s.segment_size == s.buffer.len() / s.segment_size - 1);
        vstd::arithmetic::div_mod::lemma_div_is_ordered(s.segment_size as int, s.buffer.len() as int, s.segment_size as int);
        vstd::arithmetic::div_mod::lemma_div_by_self(s.segment_size as int);
        lemma_cut_segments(s1, last_block);
        let (s2, rest) = cut_segments(s1, last_block);
        let segments = seq![seg] + rest;
        assert(cut_segments(s, last_block).1 == segments);
        assert forall|i: int| 0 <= i < segments.len() implies #[trigger] segments[i].root_block.segment_index
            == s.next_segment_index + i by {
            if i > 0 {
                assert(segments[i] == rest[i - 1]);
            }
        }
        assert forall|i: int| 0 < i < segments.len() implies #[trigger] segments[i].root_block.prev_root_block_hash
            == root_block_hash(segments[i - 1].root_block) by {
            assert(segments[i] == rest[i - 1]);
            if i > 1 {
                assert(segments[i - 1] == rest[i - 2]);
            }
        }
        if rest.len() > 0 {
            assert(segments.last() == rest.last());
        }
    } else {
        vstd::arithmetic::div_mod::lemma_basic_div(s.buffer.len() as int, s.segment_size as int);
    }
}


/// Two chained runs, the second starting where the first ends, make one.
pub proof fn lemma_chained_concat(
    a: Seq<ArchivedSegmentModel>,
    b: Seq<ArchivedSegmentModel>,
    first_index: int,
    prev_hash: Seq<u8>,
)
    requires
        chained_from(a, first_index, prev_hash),
        chained_from(b, first_index + a.len(), chain_tip(a, prev_hash)),
    ensures
        chained_from(a + b, first_index, prev_hash),
        chain_tip(a + b, prev_hash) == chain_tip(b, chain_tip(a, prev_hash)),
{
    let c = a + b;
    assert forall|i: int| 0 <= i < c.len() implies #[trigger] c[i].root_block.segment_index
        == first_index + i by {
        if i >= a.len() {
            assert(c[i] == b[i - a.len()]);
        }
    }
    assert forall|i: int| 0 < i < c.len() implies #[trigger] c[i].root_block.prev_root_block_hash
        == root_block_hash(c[i - 1].root_block) by {
        if i > a.len() {
            let j = i - a.len();
            assert(c[i] == b[j]);
            assert(c[i - 1] == b[j - 1]);
            assert(b[j].root_block.prev_root_block_hash == root_block_hash(b[j - 1].root_block));
        } else if i == a.len() {
            assert(c[i] == b[0]);
            assert(c[i - 1] == a.last());
        } else {
            assert(c[i] == a[i]);
            assert(c[i - 1] == a[i - 1]);
            assert(a[i].root_block.prev_root_block_hash == root_block_hash(a[i - 1].root_block));
        }
    }
    if b.len() > 0 {
        assert(c.last() == b.last());
    } else {
        assert(c =~= a);
    }
}

/// Archiving one block keeps the archiver well formed and continues the root
/// block chain without a gap in segment indices.
pub proof fn lemma_add_block(s: ArchiverModel, number: u64, block: Seq<u8>)
    requires
        archiver_well_formed(s),
    ensures
        match add_block_spec(s, number, block) {
            Ok((s2, segments)) => {
                &&& archiver_well_formed(s2)
                &&& chained_from(segments, s.next_segment_index as int, s.prev_root_block_hash)
                &&& s2.next_segment_index == s.next_segment_index + segments.len()
                &&& s2.prev_root_block_hash == chain_tip(segments, s.prev_root_block_hash)
                &&& s2.last_block == Some(number)
                &&& s2.record_size == s.record_size
                &&& s2.segment_size == s.segment_size
            },
            Err(_) => true,
        },
{
    if add_block_spec(s, number, block) is Ok {
        let s1 = ArchiverModel {
            buffer: s.buffer + le_u32(block.len() as u32) + block,
            last_block: Some(number),
            ..s
        };
        assert(s1.buffer.len() == s.buffer.len() + 4 + block.len());
        lemma_cut_segments(s1, number);
    }
}

/// Archiving a run of blocks keeps the archiver well formed and continues the
/// root block chain without a gap in segment indices.
pub proof fn lemma_archive_blocks(s: ArchiverModel, blocks: Seq<(u64, Seq<u8>)>)
    requires
        archiver_well_formed(s),
    ensures
        match archive_blocks(s, blocks) {
            Ok((s2, segments)) => {
                &&& archiver_well_formed(s2)
                &&& chained_from(segments, s.next_segment_index as int, s.prev_root_block_hash)
                &&& s2.next_segment_index == s.next_segment_index + segments.len()
                &&& s2.prev_root_block_hash == chain_tip(segments, s.prev_root_block_hash)
                &&& s2.record_size == s.record_size
                &&& s2.segment_size == s.segment_size
            },
            Err(_) => true,
        },
    decreases blocks.len(),
{
    if blocks.len() > 0 {
        lemma_archive_blocks(s, blocks.drop_last());
        match archive_blocks(s, blocks.drop_last()) {
            Err(_) => {},
            Ok((s1, segments1)) => {
                lemma_add_block(s1, blocks.last().0, blocks.last().1);
                match add_block_spec(s1, blocks.last().0, blocks.last().1) {
                    Err(_) => {},
                    Ok((s2, segments2)) => {
                        lemma_chained_concat(
                            segments1,
                            segments2,
                            s.next_segment_index as int,
                            s.prev_root_block_hash,
                        );
                    },
                }
            },
        }
    } else {
        assert(chained_from(seq![], s.next_segment_index as int, s.prev_root_block_hash));
    }
}

/// From a fresh archiver, the root blocks of any linear block history have
/// segment indices 0, 1, 2, ... without a gap, each linking to the hash of the
/// one before, the first to the all-zero hash.
pub proof fn lemma_segment_indices_contiguous(
    record_size: nat,
    segment_size: nat,
    blocks: Seq<(u64, Seq<u8>)>,
)
    requires
        sizes_valid(record_size, segment_size),
    ensures
        match archive_blocks(fresh_archiver(record_size, segment_size), blocks) {
            Ok((s2, segments)) => {
                &&& forall|i: int|
                    0 <= i < segments.len() ==> #[trigger] segments[i].root_block.segment_index
                        == i
                &&& forall|i: int|
                    0 < i < segments.len() ==> #[trigger] segments[i].root_block.prev_root_block_hash
                        == root_block_hash(segments[i - 1].root_block)
                &&& segments.len() > 0 ==> segments[0].root_block.prev_root_block_hash == Seq::new(
                    HASH_SIZE as nat,
                    |i: int| 0u8,
                )
                &&& s2.next_segment_index == segments.len()
            },
            Err(_) => true,
        },
{
    lemma_archive_blocks(fresh_archiver(record_size, segment_size), blocks);
}

/// Archiving is deterministic: two fresh archivers with the same sizes, fed
/// the same blocks in the same order, emit identical segments and root blocks
/// and end in the same state.
pub proof fn lemma_archiving_deterministic(
    a: ArchiverModel,
    b: ArchiverModel,
    record_size: nat,
    segment_size: nat,
    blocks: Seq<(u64, Seq<u8>)>,
)
    requires
        a == fresh_archiver(record_size, segment_size),
        b == fresh_archiver(record_size, segment_size),
    ensures
        archive_blocks(a, blocks) == archive_blocks(b, blocks),
{
}

/// Archiving is resumable: archiving `first` and then, from the state reached,
/// `second` gives what archiving both in one run gives.
pub proof fn lemma_archiving_resumable(
    s: ArchiverModel,
    first: Seq<(u64, Seq<u8>)>,
    second: Seq<(u64, Seq<u8>)>,
)
    ensures
        archive_blocks(s, first + second) == match archive_blocks(s, first) {
            Err(e) => Err(e),
            Ok((s1, segments1)) => match archive_blocks(s1, second) {
                Err(e) => Err(e),
                Ok((s2, segments2)) => Ok((s2, segments1 + segments2)),
            },
        },
    decreases second.len(),
{
    if second.len() == 0 {
        assert(first + second =~= first);
        match archive_blocks(s, first) {
            Err(_) => {},
            Ok((s1, segments1)) => {
                assert(segments1 + seq![] =~= segments1);
            },
        }
    } else {
        assert((first + second).drop_last() =~= first + second.drop_last());
        assert((first + second).last() == second.last());
        lemma_archiving_resumable(s, first, second.drop_last());
        match archive_blocks(s, first) {
            Err(_) => {},
            Ok((s1, segments1)) => {
                match archive_blocks(s1, second.drop_last()) {
                    Err(_) => {},
                    Ok((s2, segments2)) => {
                        match add_block_spec(s2, second.last().0, second.last().1) {
                            Err(_) => {},
                            Ok((s3, segments3)) => {
                                assert(segments1 + segments2 + segments3 =~= segments1 + (
                                segments2 + segments3));
                            },
                        }
                    },
                }
            },
        }
    }
}


/// A block's encoding behind its four-byte little-endian length.
pub open spec fn framed(block: Seq<u8>) -> Seq<u8> {
    le_u32(block.len() as u32) + block
}

/// The framed encodings of a run of blocks, one after the other.
pub open spec fn framed_stream(blocks: Seq<(u64, Seq<u8>)>) -> Seq<u8>
    decreases blocks.len(),
{
    if blocks.len() == 0 {
        seq![]
    } else {
        framed_stream(blocks.drop_last()) + framed(blocks.last().1)
    }
}

/// Cutting segments leaves the bytes after the last whole segment.
pub proof fn lemma_cut_segments_leftover(s: ArchiverModel, last_block: u64)
    requires
        sizes_valid(s.record_size, s.segment_size),
    ensures
        cut_segments(s, last_block).0.buffer == s.buffer.subrange(
            (cut_segments(s, last_block).1.len() * s.segment_size) as int,
            s.buffer.len() as int,
        ),
        cut_segments(s, last_block).1.len() * s.segment_size <= s.buffer.len(),
    decreases s.buffer.len(),
{
    if s.buffer.len() >= s.segment_size {
        let s1 = after_segment(s, last_block);
        lemma_cut_segments_leftover(s1, last_block);
        let k = cut_segments(s1, last_block).1.len();
        let ss = s.segment_size as int;
        assert(cut_segments(s, last_block).1.len() == k + 1);
        assert((k + 1) * ss == k * ss + ss) by (nonlinear_arith);
        assert(cut_segments(s, last_block).0.buffer =~= s.buffer.subrange(
            (k + 1) * ss,
            s.buffer.len() as int,
        ));
    } else {
        assert(s.buffer.subrange(0, s.buffer.len() as int) =~= s.buffer);
    }
}

/// Appending to a tail of `all` gives a tail of `all` with the same appended.
pub proof fn lemma_tail_append(all: Seq<u8>, a: int, tail: Seq<u8>, more: Seq<u8>)
    requires
        0 <= a <= all.len(),
        tail == all.subrange(a, all.len() as int),
    ensures
        tail + more == (all + more).subrange(a, (all + more).len() as int),
{
    assert(tail + more =~= (all + more).subrange(a, (all + more).len() as int));
}

/// A tail of a tail of `all` is a tail of `all`.
pub proof fn lemma_tail_of_tail(all: Seq<u8>, a: int, tail: Seq<u8>, b: int)
    requires
        0 <= a <= all.len(),
        tail == all.subrange(a, all.len() as int),
        0 <= b <= tail.len(),
    ensures
        tail.subrange(b, tail.len() as int) == all.subrange(a + b, all.len() as int),
{
    assert(tail.subrange(b, tail.len() as int) =~= all.subrange(a + b, all.len() as int));
}

/// Whole segments before a point and after it add up to those of the whole.
pub proof fn lemma_counts_add(total: int, k1: int, rest: int, k2: int, ss: int)
    requires
        ss > 0,
        k1 >= 0,
        rest >= 0,
        total == k1 * ss + rest,
        k2 == rest / ss,
    ensures
        total / ss == k1 + k2,
        (k1 + k2) * ss == k1 * ss + k2 * ss,
{
    let r = rest % ss;
    vstd::arithmetic::div_mod::lemma_fundamental_div_mod(rest, ss);
    vstd::arithmetic::div_mod::lemma_mod_bound(rest, ss);
    assert(total == ss * (k1 + k2) + r) by (nonlinear_arith)
        requires
            total == k1 * ss + rest,
            rest == ss * k2 + r,
    ;
    vstd::arithmetic::div_mod::lemma_fundamental_div_mod_converse_div(total, ss, k1 + k2, r);
    assert((k1 + k2) * ss == k1 * ss + k2 * ss) by (nonlinear_arith);
}

/// One block's step of the run in `lemma_archive_blocks_leftover`.
pub proof fn lemma_leftover_step(
    s1: ArchiverModel,
    n: u64,
    block: Seq<u8>,
    before: Seq<u8>,
    k1: int,
)
    requires
        archiver_well_formed(s1),
        add_block_spec(s1, n, block) is Ok,
        k1 == before.len() / s1.segment_size,
        s1.buffer == before.subrange(k1 * s1.segment_size, before.len() as int),
    ensures
        ({
            let (s2, segments2) = add_block_spec(s1, n, block).unwrap();
            let all = before + framed(block);
            &&& k1 + segments2.len() == all.len() / s1.segment_size
            &&& s2.buffer == all.subrange(
                (k1 + segments2.len()) * s1.segment_size,
                all.len() as int,
            )
        }),
{
    let ss = s1.segment_size as int;
    let all = before + framed(block);
    let start = ArchiverModel {
        buffer: s1.buffer + le_u32(block.len() as u32) + block,
        last_block: Some(n),
        ..s1
    };
    assert(start.buffer =~= s1.buffer + framed(block));
    assert(add_block_spec(s1, n, block) == Ok::<(ArchiverModel, Seq<ArchivedSegmentModel>), ArchiverError>(cut_segments(start, n)));
    lemma_cut_segments(start, n);
    lemma_cut_segments_leftover(start, n);
    let k2 = cut_segments(start, n).1.len() as int;
    vstd::arithmetic::div_mod::lemma_fundamental_div_mod(before.len() as int, ss);
    vstd::arithmetic::div_mod::lemma_mod_bound(before.len() as int, ss);
    vstd::arithmetic::mul::lemma_mul_is_commutative(k1, ss);
    lemma_tail_append(before, k1 * ss, s1.buffer, framed(block));
    lemma_tail_of_tail(all, k1 * ss, start.buffer, k2 * ss);
    lemma_counts_add(all.len() as int, k1, start.buffer.len() as int, k2, ss);
}

/// Archiving a run of blocks from a well-formed state emits one segment per
/// whole segment in the buffered bytes followed by the framed blocks, and
/// keeps the bytes after the last whole segment buffered.
pub proof fn lemma_archive_blocks_leftover(s: ArchiverModel, blocks: Seq<(u64, Seq<u8>)>)
    requires
        archiver_well_formed(s),
    ensures
        match archive_blocks(s, blocks) {
            Ok((s2, segments)) => {
                let all = s.buffer + framed_stream(blocks);
                &&& segments.len() == all.len() / s.segment_size
                &&& s2.buffer == all.subrange((segments.len() * s.segment_size) as int, all.len() as int)
            },
            Err(_) => true,
        },
    decreases blocks.len(),
{
    let ss = s.segment_size as int;
    if blocks.len() == 0 {
        assert(s.buffer + framed_stream(blocks) =~= s.buffer);
        vstd::arithmetic::div_mod::lemma_basic_div(s.buffer.len() as int, ss);
        assert(s.buffer.subrange(0, s.buffer.len() as int) =~= s.buffer);
    } else {
        lemma_archive_blocks_leftover(s, blocks.drop_last());
        lemma_archive_blocks(s, blocks.drop_last());
        match archive_blocks(s, blocks.drop_last()) {
            Err(_) => {},
            Ok((s1, segments1)) => {
                let (n, block) = blocks.last();
                match add_block_spec(s1, n, block) {
                    Err(_) => {},
                    Ok((s2, segments2)) => {
                        let before = s.buffer + framed_stream(blocks.drop_last());
                        assert(s.buffer + framed_stream(blocks) =~= before + framed(block));
                        lemma_leftover_step(s1, n, block, before, segments1.len() as int);
                        let k1 = segments1.len() as int;
                        let k2 = segments2.len() as int;
                        assert((segments1 + segments2).len() == k1 + k2);
                    },
                }
            },
        }
    }
}

/// Blocks whose framed encodings fill at least one segment but less than two,
/// archived by a fresh archiver, give exactly one segment, with index 0, and
/// the bytes past that segment stay buffered for the next one.
pub proof fn lemma_one_segment_with_leftover(
    record_size: nat,
    segment_size: nat,
    blocks: Seq<(u64, Seq<u8>)>,
)
    requires
        sizes_valid(record_size, segment_size),
        segment_size <= framed_stream(blocks).len() < 2 * segment_size,
    ensures
        match archive_blocks(fresh_archiver(record_size, segment_size), blocks) {
            Ok((s2, segments)) => {
                &&& segments.len() == 1
                &&& segments[0].root_block.segment_index == 0
                &&& s2.buffer == framed_stream(blocks).subrange(
                    segment_size as int,
                    framed_stream(blocks).len() as int,
                )
            },
            Err(_) => true,
        },
{
    let s = fresh_archiver(record_size, segment_size);
    lemma_archive_blocks_leftover(s, blocks);
    lemma_segment_indices_contiguous(record_size, segment_size, blocks);
    assert(s.buffer + framed_stream(blocks) =~= framed_stream(blocks));
    let t = framed_stream(blocks).len() as int;
    let ss = segment_size as int;
    vstd::arithmetic::div_mod::lemma_fundamental_div_mod_converse_div(t, ss, 1, t - ss);
}

/// Resuming from the last committed root block, the bytes buffered since it
/// and the last archived block number.
pub open spec fn resume_spec(
    record_size: nat,
    segment_size: nat,
    last_root_block: RootBlockModel,
    buffer: Seq<u8>,
    last_block: u64,
) -> Result<ArchiverModel, ArchiverError> {
    if !sizes_valid(record_size, segment_size) {
        Err(ArchiverError::InvalidParameters)
    } else if buffer.len() >= segment_size || last_block < last_root_block.last_archived_block {
        Err(ArchiverError::RootBlockGap)
    } else if last_root_block.segment_index == u64::MAX {
        Err(ArchiverError::SegmentIndexExhausted)
    } else {
        Ok(
            ArchiverModel {
                record_size,
                segment_size,
                buffer,
                next_segment_index: (last_root_block.segment_index + 1) as u64,
                prev_root_block_hash: root_block_hash(last_root_block),
                last_block: Some(last_block),
            },
        )
    }
}

/// Whether the sizes are usable.
pub fn sizes_are_valid(record_size: usize, segment_size: usize) -> (r: bool)
    ensures
        r == sizes_valid(record_size as nat, segment_size as nat),
{
    record_size > 0 && segment_size % record_size == 0 && segment_size / record_size > 0
        && segment_size / record_size <= MAX_RECORDS_PER_SEGMENT
}

/// Encodes a root block.
pub fn encode_root_block(rb: &RootBlock) -> (r: Vec<u8>)
    ensures
        r@ == encode_root_block_spec(rb@),
{
    let mut out: Vec<u8> = Vec::new();
    push_u64_le(&mut out, rb.segment_index);
    push_all(&mut out, rb.records_root.as_slice());
    push_all(&mut out, rb.prev_root_block_hash.as_slice());
    push_u64_le(&mut out, rb.last_archived_block);
    out
}

/// Computes the hash of a root block.
pub fn hash_root_block(rb: &RootBlock) -> (r: Vec<u8>)
    ensures
        r@ == root_block_hash(rb@),
        r@.len() == HASH_SIZE,
{
    let bytes = encode_root_block(rb);
    compute_sha256(bytes.as_slice())
}

/// Computes the commitment to a segment's pieces.
pub fn records_root(pieces: &Vec<Vec<u8>>) -> (r: Vec<u8>)
    ensures
        r@ == records_root_spec(byte_strings(pieces@)),
{
    let mut hashes: Vec<u8> = Vec::new();
    let mut i: usize = 0;
    while i < pieces.len()
        invariant
            i <= pieces@.len(),
            hashes@ == piece_hashes(byte_strings(pieces@).subrange(0, i as int)),
        decreases pieces@.len() - i,
    {
        let h = compute_sha256(pieces[i].as_slice());
        push_all(&mut hashes, h.as_slice());
        proof {
            let v = byte_strings(pieces@);
            assert(v.subrange(0, i + 1).drop_last() =~= v.subrange(0, i as int));
            assert(v.subrange(0, i + 1).last() == pieces@[i as int]@);
        }
        i = i + 1;
    }
    assert(byte_strings(pieces@).subrange(0, i as int) =~= byte_strings(pieces@));
    compute_sha256(hashes.as_slice())
}

/// The pieces of a segment's bytes: its records, then their parity records.
pub fn erasure_code_segment(bytes: &[u8], record_size: usize) -> (r: Vec<Vec<u8>>)
    requires
        sizes_valid(record_size as nat, bytes@.len()),
    ensures
        byte_strings(r@) == pieces_of(records_of(bytes@, record_size as nat)),
        pieces_shaped(byte_strings(r@), record_size as nat, bytes@.len()),
{
    let len = bytes.len();
    let n = len / record_size;
    let ghost rs = record_size as int;
    let ghost target = records_of(bytes@, record_size as nat);
    proof {
        vstd::arithmetic::div_mod::lemma_fundamental_div_mod(len as int, rs);
        assert(len == rs * n);
        vstd::arithmetic::mul::lemma_mul_is_commutative(rs, n as int);
    }
    let mut records: Vec<Vec<u8>> = Vec::new();
    let mut i: usize = 0;
    let mut offset: usize = 0;
    while i < n
        invariant
            len == bytes@.len(),
            n == len / record_size,
            len == n * rs,
            rs == record_size,
            rs > 0,
            target == records_of(bytes@, record_size as nat),
            target.len() == n,
            i <= n,
            offset == i * rs,
            records@.len() == i,
            byte_strings(records@) == target.subrange(0, i as int),
            forall|j: int| 0 <= j < i ==> (#[trigger] records@[j])@.len() == rs,
        decreases n - i,
    {
        proof {
            assert(offset + rs <= len) by (nonlinear_arith)
                requires
                    offset == i * rs,
                    i < n,
                    len == n * rs,
                    rs > 0,
            ;
            assert((i + 1) * rs == offset + rs) by (nonlinear_arith)
                requires
                    offset == i * rs,
            ;
        }
        let record = copy_range(bytes, offset, record_size);
        assert(record@ == target[i as int]);
        records.push(record);
        proof {
            assert(byte_strings(records@) =~= target.subrange(0, i + 1));
        }
        i = i + 1;
        offset = offset + record_size;
    }
    assert(byte_strings(records@) =~= target);
    assert(records@.len() == n);
    proof {
        vstd::arithmetic::div_mod::lemma_div_pos_is_pos(len as int, rs);
    }
    let mut parity = compute_reed_solomon_parity(&records);
    let ghost parity_view = byte_strings(parity@);
    let ghost records_view = byte_strings(records@);
    let ghost records_before = records@;
    let ghost parity_before = parity@;
    records.append(&mut parity);
    assert(byte_strings(records@) =~= records_view + parity_view);
    assert forall|i: int| 0 <= i < byte_strings(records@).len() implies #[trigger] byte_strings(
        records@,
    )[i].len() == record_size by {
        if i < n {
            assert(records@[i] == records_before[i]);
        } else {
            assert(records@[i] == parity_before[i - n]);
        }
    }
    records
}

/// The archiver. It holds the bytes of blocks not yet in a segment, the index
/// of the next segment, the hash the next root block links to, and the
/// number of the last archived block.
pub struct Archiver {
    record_size: usize,
    segment_size: usize,
    buffer: Vec<u8>,
    next_segment_index: u64,
    prev_root_block_hash: Vec<u8>,
    last_block: Option<u64>,
}

impl View for Archiver {
    type V = ArchiverModel;

    closed spec fn view(&self) -> ArchiverModel {
        ArchiverModel {
            record_size: self.record_size as nat,
            segment_size: self.segment_size as nat,
            buffer: self.buffer@,
            next_segment_index: self.next_segment_index,
            prev_root_block_hash: self.prev_root_block_hash@,
            last_block: self.last_block,
        }
    }
}

impl Archiver {
    /// A fresh archiver, which expects block 0 first.
    pub fn new(record_size: usize, segment_size: usize) -> (r: Result<Archiver, ArchiverError>)
        ensures
            match r {
                Ok(a) => sizes_valid(record_size as nat, segment_size as nat) && a@ == fresh_archiver(
                    record_size as nat,
                    segment_size as nat,
                ),
                Err(e) => !sizes_valid(record_size as nat, segment_size as nat) && e
                    == ArchiverError::InvalidParameters,
            },
    {
        if !sizes_are_valid(record_size, segment_size) {
            return Err(ArchiverError::InvalidParameters);
        }
        let a = Archiver {
            record_size,
            segment_size,
            buffer: Vec::new(),
            next_segment_index: 0,
            prev_root_block_hash: vec![0u8; HASH_SIZE],
            last_block: None,
        };
        assert(a@.prev_root_block_hash =~= Seq::new(HASH_SIZE as nat, |i: int| 0u8));
        assert(a@ == fresh_archiver(record_size as nat, segment_size as nat));
        Ok(a)
    }

    /// An archiver that resumes after `last_root_block`, with the bytes
    /// buffered since and the last archived block number.
    pub fn resume(
        record_size: usize,
        segment_size: usize,
        last_root_block: &RootBlock,
        buffer: Vec<u8>,
        last_block: u64,
    ) -> (r: Result<Archiver, ArchiverError>)
        ensures
            match r {
                Ok(a) => resume_spec(
                    record_size as nat,
                    segment_size as nat,
                    last_root_block@,
                    buffer@,
                    last_block,
                ) == Ok::<ArchiverModel, ArchiverError>(a@),
                Err(e) => resume_spec(
                    record_size as nat,
                    segment_size as nat,
                    last_root_block@,
                    buffer@,
                    last_block,
                ) == Err::<ArchiverModel, ArchiverError>(e),
            },
    {
        if !sizes_are_valid(record_size, segment_size) {
            return Err(ArchiverError::InvalidParameters);
        }
        if buffer.len() >= segment_size || last_block < last_root_block.last_archived_block {
            return Err(ArchiverError::RootBlockGap);
        }
        if last_root_block.segment_index == u64::MAX {
            return Err(ArchiverError::SegmentIndexExhausted);
        }
        Ok(
            Archiver {
                record_size,
                segment_size,
                buffer,
                next_segment_index: last_root_block.segment_index + 1,
                prev_root_block_hash: hash_root_block(last_root_block),
                last_block: Some(last_block),
            },
        )
    }

    /// Index of the next segment to be emitted.
    pub fn next_segment_index(&self) -> (r: u64)
        ensures
            r == self@.next_segment_index,
    {
        self.next_segment_index
    }

    /// Number of the last archived block, if any.
    pub fn last_archived_block(&self) -> (r: Option<u64>)
        ensures
            r == self@.last_block,
    {
        self.last_block
    }

    /// The bytes buffered towards the next segment.
    pub fn buffered(&self) -> (r: &[u8])
        ensures
            r@ == self@.buffer,
    {
        self.buffer.as_slice()
    }

    /// Number of bytes buffered towards the next segment.
    pub fn buffered_len(&self) -> (r: usize)
        ensures
            r == self@.buffer.len(),
    {
        self.buffer.len()
    }

    /// Cuts the first segment off the buffer.
    fn cut_segment(&mut self, last_block: u64) -> (r: ArchivedSegment)
        requires
            sizes_valid(old(self)@.record_size, old(self)@.segment_size),
            old(self)@.buffer.len() >= old(self)@.segment_size,
            old(self)@.next_segment_index < u64::MAX,
        ensures
            r@ == next_segment(old(self)@, last_block),
            final(self)@ == after_segment(old(self)@, last_block),
            pieces_shaped(r@.pieces, old(self)@.record_size, old(self)@.segment_size),
    {
        let ghost s = self@;
        let mut bytes = self.buffer.split_off(self.segment_size);
        std::mem::swap(&mut self.buffer, &mut bytes);
        let pieces = erasure_code_segment(bytes.as_slice(), self.record_size);
        let root = records_root(&pieces);
        let mut prev: Vec<u8> = Vec::new();
        std::mem::swap(&mut self.prev_root_block_hash, &mut prev);
        let root_block = RootBlock {
            segment_index: self.next_segment_index,
            records_root: root,
            prev_root_block_hash: prev,
            last_archived_block: last_block,
        };
        self.prev_root_block_hash = hash_root_block(&root_block);
        self.next_segment_index = self.next_segment_index + 1;
        let r = ArchivedSegment { root_block, pieces };
        assert(r@ == next_segment(s, last_block));
        assert(self@ == after_segment(s, last_block));
        r
    }

    /// Archives block `number`, whose encoding is `block`. It must directly
    /// follow the last archived block (block 0 for a fresh archiver). Returns
    /// the segments completed by it, in order; on an error nothing changes.
    pub fn add_block(&mut self, number: u64, block: &[u8]) -> (r: Result<
        Vec<ArchivedSegment>,
        ArchiverError,
    >)
        requires
            archiver_well_formed(old(self)@),
        ensures
            archiver_well_formed(final(self)@),
            match r {
                Ok(segments) => add_block_spec(old(self)@, number, block@) == Ok::<
                    (ArchiverModel, Seq<ArchivedSegmentModel>),
                    ArchiverError,
                >((final(self)@, segments_view(segments@))),
                Err(e) => add_block_spec(old(self)@, number, block@) == Err::<
                    (ArchiverModel, Seq<ArchivedSegmentModel>),
                    ArchiverError,
                >(e) && final(self)@ == old(self)@,
            },
            r is Ok ==> forall|i: int|
                0 <= i < r->Ok_0@.len() ==> pieces_shaped(
                    (#[trigger] r->Ok_0@[i])@.pieces,
                    old(self)@.record_size,
                    old(self)@.segment_size,
                ),
    {
        let in_order = match self.last_block {
            None => number == 0,
            Some(n) => n < u64::MAX && number == n + 1,
        };
        if !in_order {
            return Err(ArchiverError::OutOfOrder);
        }
        if block.len() > 0xffff_ffffusize {
            return Err(ArchiverError::BlockTooLarge);
        }
        let buffered = self.buffer.len();
        if buffered > usize::MAX - 4 || block.len() > usize::MAX - 4 - buffered {
            return Err(ArchiverError::BlockTooLarge);
        }
        let total = buffered + 4 + block.len();
        if self.next_segment_index > u64::MAX - (total / self.segment_size) as u64 {
            return Err(ArchiverError::SegmentIndexExhausted);
        }
        push_u32_le(&mut self.buffer, block.len() as u32);
        push_all(&mut self.buffer, block);
        self.last_block = Some(number);
        let ghost start = self@;
        proof {
            assert(start.buffer =~= old(self)@.buffer + le_u32(block@.len() as u32) + block@);
            lemma_cut_segments(start, number);
        }
        let mut segments: Vec<ArchivedSegment> = Vec::new();
        while self.buffer.len() >= self.segment_size
            invariant
                sizes_valid(self@.record_size, self@.segment_size),
                self@.next_segment_index + self@.buffer.len() / self@.segment_size <= u64::MAX,
                cut_segments(start, number).0 == cut_segments(self@, number).0,
                cut_segments(start, number).1 == segments_view(segments@) + cut_segments(
                    self@,
                    number,
                ).1,
                self@.record_size == old(self)@.record_size,
                self@.segment_size == old(self)@.segment_size,
                forall|i: int|
                    0 <= i < segments@.len() ==> pieces_shaped(
                        (#[trigger] segments@[i])@.pieces,
                        old(self)@.record_size,
                        old(self)@.segment_size,
                    ),
            decreases self@.buffer.len(),
        {
            proof {
                let s = self@;
                vstd::arithmetic::div_mod::lemma_div_is_ordered(
                    s.segment_size as int,
                    s.buffer.len() as int,
                    s.segment_size as int,
                );
                vstd::arithmetic::div_mod::lemma_div_by_self(s.segment_size as int);
                vstd::arithmetic::div_mod::lemma_div_minus_one(
                    s.buffer.len() as int,
                    s.segment_size as int,
                );
                assert((s.buffer.len() - s.segment_size) / (s.segment_size as int) == (
                s.buffer.len() as int) / (s.segment_size as int) - 1);
            }
            let ghost before = segments_view(segments@);
            let ghost rest = cut_segments(after_segment(self@, number), number).1;
            let segment = self.cut_segment(number);
            segments.push(segment);
            proof {
                assert(segments_view(segments@) =~= before.push(segment@));
                assert(before + (seq![segment@] + rest) =~= before.push(segment@) + rest);
            }
        }
        proof {
            assert(cut_segments(self@, number).1 =~= seq![]);
            assert(segments_view(segments@) + seq![] =~= segments_view(segments@));
        }
        Ok(segments)
    }
}

} // verus!
