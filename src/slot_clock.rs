//! Slot timing and the one-winner-per-slot admission of solutions.

use vstd::prelude::*;

use crate::bytes::copy_bytes;

verus! {

/// The slot at `timestamp`, both in milliseconds: whole slot durations
/// elapsed since the epoch, so a missed tick never skews the count.
pub fn slot_at(timestamp: u64, slot_duration: u64) -> (r: u64)
    requires
        slot_duration > 0,
    ensures
        r == timestamp / slot_duration,
{
    timestamp / slot_duration
}

/// What farmers are told when a slot begins.
pub struct NewSlotInfo {
    pub slot: u64,
    pub global_challenge: Vec<u8>,
    pub salt: Vec<u8>,
}

/// The last slot announced, and the slot whose round still accepts a
/// solution, if any.
pub struct SlotNotifierModel {
    pub last_slot: Option<u64>,
    pub open_round: Option<u64>,
}

/// A tick at `timestamp`: when it falls in a slot later than the last one
/// announced, that slot is announced and its round opens, closing any earlier
/// round; otherwise nothing changes.
pub open spec fn tick_spec(s: SlotNotifierModel, timestamp: u64, slot_duration: u64) -> (
    SlotNotifierModel,
    Option<u64>,
) {
    let slot = (timestamp / slot_duration) as u64;
    match s.last_slot {
        Some(last) if slot <= last => (s, None),
        _ => (SlotNotifierModel { last_slot: Some(slot), open_round: Some(slot) }, Some(slot)),
    }
}

/// A solution offered for `slot`: accepted exactly when that slot's round is
/// open, which closes it.
pub open spec fn offer_spec(s: SlotNotifierModel, slot: u64) -> (SlotNotifierModel, bool) {
    if s.open_round == Some(slot) {
        (SlotNotifierModel { open_round: None, ..s }, true)
    } else {
        (s, false)
    }
}

/// At most one solution is accepted per round: once one is, every later
/// offer, for any slot, is refused until the next slot is announced.
pub proof fn lemma_one_winner_per_round(s: SlotNotifierModel, slot: u64, later: u64)
    requires
        offer_spec(s, slot).1,
    ensures
        offer_spec(offer_spec(s, slot).0, later) == (offer_spec(s, slot).0, false),
{
}

/// Announces slots and admits at most one solution per slot.
pub struct SlotNotifier {
    last_slot: Option<u64>,
    open_round: Option<u64>,
}

impl View for SlotNotifier {
    type V = SlotNotifierModel;

    closed spec fn view(&self) -> SlotNotifierModel {
        SlotNotifierModel { last_slot: self.last_slot, open_round: self.open_round }
    }
}

impl SlotNotifier {
    /// A notifier that has announced nothing.
    pub fn new() -> (r: SlotNotifier)
        ensures
            r@ == (SlotNotifierModel { last_slot: None, open_round: None }),
    {
        SlotNotifier { last_slot: None, open_round: None }
    }

    /// The slot whose round accepts a solution, if any.
    pub fn open_round(&self) -> (r: Option<u64>)
        ensures
            r == self@.open_round,
    {
        self.open_round
    }

    /// A tick of the clock at `timestamp`; returns what to announce for the
    /// slot that began, if one did.
    pub fn tick(
        &mut self,
        timestamp: u64,
        slot_duration: u64,
        global_challenge: &[u8],
        salt: &[u8],
    ) -> (r: Option<NewSlotInfo>)
        requires
            slot_duration > 0,
        ensures
            final(self)@ == tick_spec(old(self)@, timestamp, slot_duration).0,
            match r {
                Some(info) => tick_spec(old(self)@, timestamp, slot_duration).1 == Some(info.slot)
                    && info.global_challenge@ == global_challenge@ && info.salt@ == salt@,
                None => tick_spec(old(self)@, timestamp, slot_duration).1 is None,
            },
    {
        let slot = slot_at(timestamp, slot_duration);
        match self.last_slot {
            Some(last) => if slot <= last {
                return None;
            },
            None => {},
        }
        self.last_slot = Some(slot);
        self.open_round = Some(slot);
        Some(
            NewSlotInfo {
                slot,
                global_challenge: copy_bytes(global_challenge),
                salt: copy_bytes(salt),
            },
        )
    }

    /// Offers a solution for `slot`; returns whether it is the round's winner.
    pub fn offer_solution(&mut self, slot: u64) -> (r: bool)
        ensures
            (final(self)@, r) == offer_spec(old(self)@, slot),
    {
        match self.open_round {
            Some(open) => if open == slot {
                self.open_round = None;
                return true;
            },
            None => {},
        }
        false
    }
}

} // verus!
