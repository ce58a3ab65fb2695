//! The difficulty and salt controller: the solution range follows the block
//! rate once per era, and the salt rotates once per eon, its successor
//! revealed some slots before it becomes active.

use vstd::prelude::*;

use crate::bytes::{copy_range, le_u64, push_all, push_u64_le};
use crate::crypto::{compute_sha256, sha256};
use crate::digest::{PIECE_SIZE, SALT_SIZE};

verus! {

/// How the solution range is adjusted.
pub struct SolutionRangeParams {
    /// Length of an era, in blocks.
    pub era_duration: u64,
    /// Probability that a slot has a block, as a numerator and a denominator.
    pub slot_probability: (u64, u64),
    /// Whether the range is adjusted at all, or pinned.
    pub should_adjust: bool,
}

/// Number of slots an era is expected to last: its blocks divided by the
/// probability that a slot has a block; zero when that probability is zero.
pub open spec fn expected_era_slots(era_duration: u64, slot_probability: (u64, u64)) -> int {
    if slot_probability.0 == 0 {
        0
    } else {
        (era_duration as int) * (slot_probability.1 as int) / (slot_probability.0 as int)
    }
}

/// The solution range for the next era: the current one scaled by the slots
/// the era took over the slots it was expected to take, but never below a
/// quarter or above four times the current range (nor above the largest
/// 64-bit integer). When no adjustment is made, or nothing is expected, it
/// stays.
pub open spec fn next_solution_range_spec(
    params: SolutionRangeParams,
    current: u64,
    era_start_slot: u64,
    slot: u64,
) -> u64 {
    let elapsed: int = if slot >= era_start_slot {
        slot - era_start_slot
    } else {
        0
    };
    let expected = expected_era_slots(params.era_duration, params.slot_probability);
    if !params.should_adjust || expected == 0 {
        current
    } else {
        let raw = (current as int) * elapsed / expected;
        let low = (current / 4) as int;
        let high = if (current as int) * 4 > u64::MAX {
            u64::MAX as int
        } else {
            (current as int) * 4
        };
        if raw < low {
            low as u64
        } else if raw > high {
            high as u64
        } else {
            raw as u64
        }
    }
}

/// Computes the solution range for the era that starts at `slot`.
pub fn next_solution_range(
    params: &SolutionRangeParams,
    current: u64,
    era_start_slot: u64,
    slot: u64,
) -> (r: u64)
    ensures
        r == next_solution_range_spec(*params, current, era_start_slot, slot),
{
    let elapsed: u64 = if slot >= era_start_slot {
        slot - era_start_slot
    } else {
        0
    };
    let (numerator, denominator) = params.slot_probability;
    if !params.should_adjust || numerator == 0 {
        return current;
    }
    proof {
        assert((params.era_duration as int) * (denominator as int) <= u64::MAX * u64::MAX) by (nonlinear_arith)
            requires
                params.era_duration <= u64::MAX,
                denominator <= u64::MAX,
        ;
    }
    let expected: u128 = (params.era_duration as u128) * (denominator as u128) / (numerator as u128);
    if expected == 0 {
        return current;
    }
    proof {
        assert((current as int) * (elapsed as int) <= u64::MAX * u64::MAX) by (nonlinear_arith)
            requires
                current <= u64::MAX,
                elapsed <= u64::MAX,
        ;
        assert((current as int) * (elapsed as int) / (expected as int) <= (current as int) * (elapsed as int)) by {
            vstd::arithmetic::div_mod::lemma_div_is_ordered_by_denominator((current as int) * (elapsed as int), 1, expected as int);
        }
    }
    let raw: u128 = (current as u128) * (elapsed as u128) / expected;
    let low: u64 = current / 4;
    let high: u64 = if current > u64::MAX / 4 {
        u64::MAX
    } else {
        current * 4
    };
    if raw < low as u128 {
        low
    } else if raw > high as u128 {
        high
    } else {
        raw as u64
    }
}

/// The solution range and the slot at which the current era began.
pub struct SolutionRangeState {
    pub current: u64,
    pub era_start_slot: u64,
}

/// Whether block `number` closes an era.
pub open spec fn is_era_boundary(era_duration: u64, number: u64) -> bool {
    era_duration > 0 && number > 0 && number % era_duration == 0
}

impl SolutionRangeState {
    /// Takes note of block `number`, produced at `slot`: at the end of an era
    /// the range is recomputed and a new era begins at `slot`.
    pub fn on_block(&mut self, params: &SolutionRangeParams, number: u64, slot: u64)
        ensures
            is_era_boundary(params.era_duration, number) ==> final(self).current
                == next_solution_range_spec(*params, old(self).current, old(self).era_start_slot, slot)
                && final(self).era_start_slot == slot,
            !is_era_boundary(params.era_duration, number) ==> *final(self) == *old(self),
    {
        if params.era_duration > 0 && number > 0 && number % params.era_duration == 0 {
            self.current = next_solution_range(params, self.current, self.era_start_slot, slot);
            self.era_start_slot = slot;
        }
    }
}

/// When salts rotate: every `eon_duration` slots, the next salt being revealed
/// `next_salt_reveal` slots into an eon.
pub struct SaltSchedule {
    pub eon_duration: u64,
    pub next_salt_reveal: u64,
}

pub open spec fn schedule_valid(s: SaltSchedule) -> bool {
    s.eon_duration > 0 && s.next_salt_reveal < s.eon_duration
}

/// The salt of eon `eon_index`: the first eight bytes of SHA-256 of the
/// randomness followed by the eon index.
pub open spec fn derive_salt_spec(randomness: Seq<u8>, eon_index: u64) -> Seq<u8> {
    sha256(randomness + le_u64(eon_index)).subrange(0, SALT_SIZE as int)
}

/// Computes the salt of eon `eon_index` from `randomness`.
pub fn derive_salt(randomness: &[u8], eon_index: u64) -> (r: Vec<u8>)
    ensures
        r@ == derive_salt_spec(randomness@, eon_index),
{
    let mut input: Vec<u8> = Vec::new();
    push_all(&mut input, randomness);
    push_u64_le(&mut input, eon_index);
    let hash = compute_sha256(input.as_slice());
    copy_range(hash.as_slice(), 0, SALT_SIZE)
}

/// The active salt, the revealed next salt if any, and the active eon.
pub struct Salts {
    pub current: Vec<u8>,
    pub next: Option<Vec<u8>>,
    pub eon_index: u64,
}

pub struct SaltsModel {
    pub current: Seq<u8>,
    pub next: Option<Seq<u8>>,
    pub eon_index: u64,
}

impl View for Salts {
    type V = SaltsModel;

    open spec fn view(&self) -> SaltsModel {
        SaltsModel {
            current: self.current@,
            next: match self.next {
                Some(n) => Some(n@),
                None => None,
            },
            eon_index: self.eon_index,
        }
    }
}

/// The salts after slot `slot` begins. When it opens a later eon, that eon's
/// salt becomes active: the revealed next salt, or, if none was revealed, the
/// salt derived now. Once `next_salt_reveal` slots of the active eon have
/// passed, the salt of the following eon is revealed.
pub open spec fn salts_on_slot(
    s: SaltsModel,
    schedule: SaltSchedule,
    slot: u64,
    randomness: Seq<u8>,
) -> SaltsModel {
    let eon = slot / schedule.eon_duration;
    let rotated = if eon > s.eon_index {
        SaltsModel {
            current: match s.next {
                Some(n) => n,
                None => derive_salt_spec(randomness, eon as u64),
            },
            next: None,
            eon_index: eon as u64,
        }
    } else {
        s
    };
    if eon == rotated.eon_index && slot % schedule.eon_duration >= schedule.next_salt_reveal
        && rotated.next is None && eon < u64::MAX {
        SaltsModel { next: Some(derive_salt_spec(randomness, (eon + 1) as u64)), ..rotated }
    } else {
        rotated
    }
}

/// A salt revealed before its eon is the one that becomes active when the
/// eon begins.
pub proof fn lemma_revealed_salt_activates(
    s: SaltsModel,
    schedule: SaltSchedule,
    slot: u64,
    randomness: Seq<u8>,
)
    requires
        schedule_valid(schedule),
        s.next is Some,
        slot / schedule.eon_duration == s.eon_index + 1,
    ensures
        salts_on_slot(s, schedule, slot, randomness).current == s.next.unwrap(),
        salts_on_slot(s, schedule, slot, randomness).eon_index == s.eon_index + 1,
{
}

/// Within an eon, before the reveal point, the salts do not change.
pub proof fn lemma_salts_stable_before_reveal(
    s: SaltsModel,
    schedule: SaltSchedule,
    slot: u64,
    randomness: Seq<u8>,
)
    requires
        schedule_valid(schedule),
        slot / schedule.eon_duration == s.eon_index,
        slot % schedule.eon_duration < schedule.next_salt_reveal,
    ensures
        salts_on_slot(s, schedule, slot, randomness) == s,
{
}

impl Salts {
    /// Advances the salts to slot `slot`.
    pub fn on_slot(&mut self, schedule: &SaltSchedule, slot: u64, randomness: &[u8])
        requires
            schedule_valid(*schedule),
        ensures
            final(self)@ == salts_on_slot(old(self)@, *schedule, slot, randomness@),
    {
        let eon = slot / schedule.eon_duration;
        if eon > self.eon_index {
            let mut next: Option<Vec<u8>> = None;
            std::mem::swap(&mut self.next, &mut next);
            self.current = match next {
                Some(n) => n,
                None => derive_salt(randomness, eon),
            };
            self.eon_index = eon;
        }
        if eon == self.eon_index && slot % schedule.eon_duration >= schedule.next_salt_reveal
            && self.next.is_none() && eon < u64::MAX {
            self.next = Some(derive_salt(randomness, eon + 1));
        }
    }
}

/// The space pledged by all farmers, in bytes, as the solution range
/// implies it: the largest 64-bit integer times the piece size times the
/// probability that a slot has a block, over the solution range (the product
/// saturating at the largest 128-bit integer, the divisions rounding down).
pub open spec fn total_space_pledged_spec(solution_range: u64, slot_probability: (u64, u64)) -> int {
    let product = (u64::MAX as int) * (PIECE_SIZE as int) * (slot_probability.0 as int);
    let saturated = if product > u128::MAX {
        u128::MAX as int
    } else {
        product
    };
    saturated / (solution_range as int) / (slot_probability.1 as int)
}

/// The space pledged by all farmers, estimated from the solution range.
pub struct TotalSpacePledged;

impl TotalSpacePledged {
    /// Estimates the pledged space from the current solution range and the
    /// probability that a slot has a block.
    pub fn get(solution_range: u64, slot_probability: (u64, u64)) -> (r: u128)
        requires
            solution_range > 0,
            slot_probability.1 > 0,
        ensures
            r == total_space_pledged_spec(solution_range, slot_probability),
    {
        let piece_size: u128 = PIECE_SIZE as u128;
        let base: u128 = (u64::MAX as u128) * piece_size;
        let product: u128 = if slot_probability.0 as u128 > u128::MAX / base {
            u128::MAX
        } else {
            base * slot_probability.0 as u128
        };
        proof {
            let p = (u64::MAX as int) * (PIECE_SIZE as int) * (slot_probability.0 as int);
            if slot_probability.0 as u128 > u128::MAX / base {
                assert(p > u128::MAX) by (nonlinear_arith)
                    requires
                        p == (base as int) * (slot_probability.0 as int),
                        slot_probability.0 as int > u128::MAX as int / (base as int),
                        base > 0,
                ;
            } else {
                assert((base as int) * (slot_probability.0 as int) <= u128::MAX) by (nonlinear_arith)
                    requires
                        slot_probability.0 as int <= u128::MAX as int / (base as int),
                        base > 0,
                ;
            }
        }
        product / solution_range as u128 / slot_probability.1 as u128
    }
}

} // verus!
