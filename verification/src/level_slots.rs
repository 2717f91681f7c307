//! The slot array behind the sparse-array engine.
//!
//! The array is a `stable_vec::StableVec`. Nothing in this file is proved:
//! each function states what the `stable_vec` method it calls does, as that
//! crate documents it.

use crate::decimal::Decimal;
use stable_vec::StableVec;
use vstd::prelude::*;

verus! {

/// An upper bound on the bytes one slot takes.
pub const SLOT_BYTES: usize = 32;

/// A fixed range of slots, each empty or holding a quantity.
#[verifier::external_body]
pub struct LevelSlots {
    slots: StableVec<Decimal>,
}

/// The filled slots: the quantity held at each filled index.
pub uninterp spec fn slot_contents(slots: LevelSlots) -> Map<int, Decimal>;

/// The number of slots the array was made with. The array never has fewer.
pub uninterp spec fn slot_count(slots: LevelSlots) -> nat;

/// `StableVec::with_capacity`: an array of `capacity` slots, all empty.
///
/// The call panics when the slots would take more than `isize::MAX` bytes.
#[verifier::external_body]
pub(crate) fn slots_with_capacity(capacity: usize) -> (made: LevelSlots)
    requires
        capacity * SLOT_BYTES <= isize::MAX,
    ensures
        slot_contents(made).dom() == Set::<int>::empty(),
        slot_count(made) == capacity,
{
    LevelSlots { slots: StableVec::with_capacity(capacity) }
}

/// `StableVec::insert`: fills the slot at `index` with `qty`, replacing what
/// it held, and returns what it held. No other slot changes.
///
/// The call panics when `index` is not below the capacity.
#[verifier::external_body]
pub(crate) fn slots_insert(slots: &mut LevelSlots, index: usize, qty: Decimal) -> (prev: Option<
    Decimal,
>)
    requires
        index < slot_count(*old(slots)),
    ensures
        slot_contents(*final(slots)) == slot_contents(*old(slots)).insert(index as int, qty),
        slot_count(*final(slots)) == slot_count(*old(slots)),
        prev == (if slot_contents(*old(slots)).contains_key(index as int) {
            Some(slot_contents(*old(slots))[index as int])
        } else {
            None
        }),
{
    slots.slots.insert(index, qty)
}

/// `StableVec::remove`: empties the slot at `index` and returns what it
/// held. No other slot changes.
///
/// The call panics when `index` is not below the capacity.
#[verifier::external_body]
pub(crate) fn slots_remove(slots: &mut LevelSlots, index: usize) -> (prev: Option<Decimal>)
    requires
        index < slot_count(*old(slots)),
    ensures
        slot_contents(*final(slots)) == slot_contents(*old(slots)).remove(index as int),
        slot_count(*final(slots)) == slot_count(*old(slots)),
        prev == (if slot_contents(*old(slots)).contains_key(index as int) {
            Some(slot_contents(*old(slots))[index as int])
        } else {
            None
        }),
{
    slots.slots.remove(index)
}

/// `StableVec`'s index operator: the quantity in the filled slot at `index`.
///
/// The call panics when the slot is empty.
#[verifier::external_body]
pub(crate) fn slots_value(slots: &LevelSlots, index: usize) -> (qty: Decimal)
    requires
        slot_contents(*slots).contains_key(index as int),
    ensures
        qty == slot_contents(*slots)[index as int],
{
    slots.slots[index]
}

/// `StableVec::first_filled_slot_from`: the lowest filled index that is at
/// least `start`, or `None` when every slot from `start` on is empty.
///
/// The call panics when `start` is above the capacity.
#[verifier::external_body]
pub(crate) fn slots_first_filled_from(slots: &LevelSlots, start: usize) -> (found: Option<usize>)
    requires
        start <= slot_count(*slots),
    ensures
        match found {
            Some(index) => {
                &&& start <= index
                &&& slot_contents(*slots).contains_key(index as int)
                &&& forall|i: int|
                    start <= i < index ==> !#[trigger] slot_contents(*slots).contains_key(i)
            },
            None => forall|i: int| start <= i ==> !#[trigger] slot_contents(*slots).contains_key(i),
        },
{
    slots.slots.first_filled_slot_from(start)
}

/// `StableVec::first_filled_slot_below`: the highest filled index that is
/// below `start`, or `None` when every slot below `start` is empty.
///
/// The call panics when `start` is above the capacity.
#[verifier::external_body]
pub(crate) fn slots_first_filled_below(slots: &LevelSlots, start: usize) -> (found: Option<usize>)
    requires
        start <= slot_count(*slots),
    ensures
        match found {
            Some(index) => {
                &&& index < start
                &&& slot_contents(*slots).contains_key(index as int)
                &&& forall|i: int|
                    index < i < start ==> !#[trigger] slot_contents(*slots).contains_key(i)
            },
            None => forall|i: int|
                0 <= i < start ==> !#[trigger] slot_contents(*slots).contains_key(i),
        },
{
    slots.slots.first_filled_slot_below(start)
}

} // verus!
