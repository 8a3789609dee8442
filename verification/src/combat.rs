//! Combat data and the damage/death/drop event pipeline's pure parts.
//!
//! A damage event subtracts its amount from the target's health. When the
//! result is zero or below and the target carries an inventory, one drop
//! event is enqueued per physical item across every occupied slot, so a
//! stack of five yields five drop events. The death sweep itself lives
//! with the entity registry.

use vstd::prelude::*;
use crate::inventory::{Inventory, ItemDropEvent, Stack};
use crate::inventory::{spec_slot_len, spec_slots_count};

verus! {

/// Hit points of an entity; may go negative transiently within one step
/// before the death sweep destroys the entity.
#[derive(Clone, Copy, PartialEq, Eq, Structural, Debug)]
pub struct Health(pub i64);

/// Damage an attacker deals per hit.
#[derive(Clone, Copy, PartialEq, Eq, Structural, Debug)]
pub struct Damage(pub i64);

/// Single-step message: subtract `damage_dealt` from the health of
/// `target_id`, skipped silently when the target is already gone.
#[derive(Clone, Copy, PartialEq, Eq, Structural, Debug)]
pub struct DamageDealtEvent {
    pub damage_dealt: i64,
    pub target_id: usize,
}

/// `i64` subtraction clipped to the representable range.
pub open spec fn spec_sub_clip(a: int, b: int) -> int {
    if a - b < i64::MIN {
        i64::MIN as int
    } else if a - b > i64::MAX {
        i64::MAX as int
    } else {
        a - b
    }
}

/// Subtracts `b` from `a`, clipping at the ends of the `i64` range.
pub fn sub_saturating(a: i64, b: i64) -> (r: i64)
    ensures
        r == spec_sub_clip(a as int, b as int),
{
    let wide: i128 = (a as i128) - (b as i128);
    if wide < i64::MIN as i128 {
        i64::MIN
    } else if wide > i64::MAX as i128 {
        i64::MAX
    } else {
        wide as i64
    }
}

/// The drop events one item drop would enqueue: `n` copies of the same
/// slot request, one per item in the stack.
pub open spec fn spec_repeat_event(id: usize, slot: int, n: int) -> Seq<ItemDropEvent> {
    Seq::new(n as nat, |k: int| ItemDropEvent { inventory_id: id, item_slot: slot as usize })
}

/// Drop events for every item across the slots, in slot order.
pub open spec fn spec_drop_events_for(slots: Seq<Option<Stack>>, id: usize) -> Seq<ItemDropEvent>
    decreases slots.len(),
{
    if slots.len() == 0 {
        Seq::empty()
    } else {
        spec_drop_events_for(slots.drop_last(), id)
            + spec_repeat_event(id, slots.len() - 1, spec_slot_len(slots.last()))
    }
}

/// One drop event per physical item a dying entity's inventory holds:
/// a stack of `n` items in one slot yields `n` events for that slot.
pub fn emit_drop_events(inv: &Inventory, inventory_id: usize) -> (r: Vec<ItemDropEvent>)
    requires
        inv.wf(),
    ensures
        r@ == spec_drop_events_for(inv.item_slots@, inventory_id),
        r@.len() == inv.spec_count(),
        forall|j: int| 0 <= j < r@.len() ==> (#[trigger] r@[j]).inventory_id == inventory_id,
        forall|j: int| 0 <= j < r@.len() ==> {
            let s = (#[trigger] r@[j]).item_slot as int;
            s < inv.item_slots@.len() && inv.item_slots@[s] is Some
        },
{
    let mut r: Vec<ItemDropEvent> = Vec::new();
    let n = inv.item_slots.len();
    let mut slot_idx: usize = 0;
    while slot_idx < n
        invariant
            inv.wf(),
            n == inv.item_slots.len(),
            slot_idx <= n,
            r@ == spec_drop_events_for(inv.item_slots@.take(slot_idx as int), inventory_id),
            r@.len() == spec_slots_count(inv.item_slots@.take(slot_idx as int)),
            forall|j: int| 0 <= j < r@.len() ==> (#[trigger] r@[j]).inventory_id == inventory_id,
            forall|j: int| 0 <= j < r@.len() ==> {
                let s = (#[trigger] r@[j]).item_slot as int;
                s < inv.item_slots@.len() && inv.item_slots@[s] is Some
            },
        decreases n - slot_idx,
    {
        let ghost prefix = inv.item_slots@.take(slot_idx as int);
        let ghost prefix1 = inv.item_slots@.take(slot_idx as int + 1);
        proof {
            assert(prefix1.drop_last() =~= prefix);
            assert(prefix1.last() == inv.item_slots@[slot_idx as int]);
        }
        match &inv.item_slots[slot_idx] {
            None => {
                assert(r@ =~= spec_drop_events_for(prefix1, inventory_id));
            },
            Some(st) => {
                let count = st.items.len();
                let mut k: usize = 0;
                let ghost base = r@;
                while k < count
                    invariant
                        k <= count,
                        r@ == base + spec_repeat_event(inventory_id, slot_idx as int, k as int),
                        slot_idx < n,
                        n == inv.item_slots.len(),
                    decreases count - k,
                {
                    r.push(ItemDropEvent { inventory_id, item_slot: slot_idx });
                    proof {
                        assert(r@ =~= base + spec_repeat_event(
                            inventory_id,
                            slot_idx as int,
                            k as int + 1,
                        ));
                    }
                    k = k + 1;
                }
                proof {
                    assert(r@ =~= spec_drop_events_for(prefix1, inventory_id));
                    assert(forall|j: int| 0 <= j < r@.len() ==> (#[trigger] r@[j]).inventory_id
                        == inventory_id);
                }
            },
        }
        slot_idx = slot_idx + 1;
    }
    proof {
        assert(inv.item_slots@.take(n as int) =~= inv.item_slots@);
    }
    r
}

} // verus!
