//! Fixed-capacity slotted inventory with stacking, dropping, and pickup.
//!
//! Each slot is either empty or holds a stack: an ordered list of item
//! entity ids that all share one stackable kind, never longer than
//! `MAX_ITEM_STACK`. Dropping pops one id from the tail of a slot and an
//! emptied slot reverts to empty. Pickup routes an item to the first slot
//! already stacking the same kind with room, then to the first empty slot,
//! and otherwise fails silently, leaving the item in the world. A dropped
//! item carries its original owner and a countdown: the owner may not
//! re-collect it until the countdown elapses, while any other collector
//! may immediately.

use vstd::prelude::*;
use vstd::multiset::Multiset;

verus! {

broadcast use
    vstd::seq_lib::group_to_multiset_ensures,
    vstd::multiset::group_multiset_axioms;

/// Largest number of items one slot's stack may hold.
pub const MAX_ITEM_STACK: usize = 64;

/// How long a dropped item stays on cooldown for its own dropper,
/// in milliseconds.
pub const PICKUP_DELAY_MS: u32 = 2000;

/// Kind of an item entity; every kind carries its own stackability.
#[derive(Clone, Copy, PartialEq, Eq, Structural, Debug, Default)]
pub enum InventoryItem {
    #[default]
    Temporary,
}

impl InventoryItem {
    /// Whether items of this kind may share a slot.
    pub open spec fn spec_stackable(self) -> bool {
        match self {
            InventoryItem::Temporary => true,
        }
    }

    pub fn is_stackable(&self) -> (r: bool)
        ensures
            r == self.spec_stackable(),
    {
        match *self {
            InventoryItem::Temporary => true,
        }
    }
}

/// One occupied slot: an ordered group of item entity ids of one kind.
#[derive(Debug)]
pub struct Stack {
    pub kind: InventoryItem,
    pub items: Vec<usize>,
}

/// Fixed-length sequence of item slots owned by one entity.
#[derive(Debug)]
pub struct Inventory {
    pub item_slots: Vec<Option<Stack>>,
    pub item_slot_count: usize,
    pub keep_items: bool,
}

/// The item ids a slot holds, in stack order; empty for an empty slot.
pub open spec fn spec_slot_seq(slot: Option<Stack>) -> Seq<usize> {
    match slot {
        Some(st) => st.items@,
        None => Seq::empty(),
    }
}

/// The item ids a slot holds, as a multiset.
pub open spec fn spec_slot_items(slot: Option<Stack>) -> Multiset<usize> {
    match slot {
        Some(st) => st.items@.to_multiset(),
        None => Multiset::empty(),
    }
}

/// The item ids a slot holds, as a count.
pub open spec fn spec_slot_len(slot: Option<Stack>) -> int {
    match slot {
        Some(st) => st.items@.len() as int,
        None => 0,
    }
}

/// All item ids across a sequence of slots, as a multiset.
pub open spec fn spec_slots_items(slots: Seq<Option<Stack>>) -> Multiset<usize>
    decreases slots.len(),
{
    if slots.len() == 0 {
        Multiset::empty()
    } else {
        spec_slots_items(slots.drop_last()).add(spec_slot_items(slots.last()))
    }
}

/// Total number of item ids across a sequence of slots.
pub open spec fn spec_slots_count(slots: Seq<Option<Stack>>) -> int
    decreases slots.len(),
{
    if slots.len() == 0 {
        0
    } else {
        spec_slots_count(slots.drop_last()) + spec_slot_len(slots.last())
    }
}

/// Replacing one slot exchanges exactly that slot's items in the total.
pub proof fn lemma_slots_items_update(slots: Seq<Option<Stack>>, i: int, v: Option<Stack>)
    requires
        0 <= i < slots.len(),
    ensures
        spec_slots_items(slots.update(i, v)).add(spec_slot_items(slots[i]))
            == spec_slots_items(slots).add(spec_slot_items(v)),
    decreases slots.len(),
{
    let upd = slots.update(i, v);
    if i == slots.len() - 1 {
        assert(upd.drop_last() =~= slots.drop_last());
        assert(upd.last() == v);
        assert(slots.last() == slots[i]);
        assert(spec_slots_items(upd).add(spec_slot_items(slots[i]))
            =~= spec_slots_items(slots).add(spec_slot_items(v)));
    } else {
        assert(upd.drop_last() =~= slots.drop_last().update(i, v));
        assert(upd.last() == slots.last());
        assert(slots.drop_last()[i] == slots[i]);
        lemma_slots_items_update(slots.drop_last(), i, v);
        assert(spec_slots_items(upd)
            == spec_slots_items(upd.drop_last()).add(spec_slot_items(upd.last())));
        assert(spec_slots_items(slots)
            == spec_slots_items(slots.drop_last()).add(spec_slot_items(slots.last())));
        assert forall|x: usize|
            spec_slots_items(upd).add(spec_slot_items(slots[i])).count(x)
                == spec_slots_items(slots).add(spec_slot_items(v)).count(x) by {
            assert(spec_slots_items(upd.drop_last()).add(spec_slot_items(upd.last())).count(x)
                == spec_slots_items(upd.drop_last()).count(x)
                    + spec_slot_items(upd.last()).count(x));
            assert(spec_slots_items(slots.drop_last()).add(spec_slot_items(slots.last())).count(x)
                == spec_slots_items(slots.drop_last()).count(x)
                    + spec_slot_items(slots.last()).count(x));
            assert(spec_slots_items(slots.drop_last().update(i, v)).add(
                spec_slot_items(slots.drop_last()[i]),
            ).count(x) == spec_slots_items(slots.drop_last()).add(spec_slot_items(v)).count(x));
        }
        assert(spec_slots_items(upd).add(spec_slot_items(slots[i]))
            =~= spec_slots_items(slots).add(spec_slot_items(v)));
    }
}

impl Inventory {
    /// Slot-shape invariant: the declared slot count matches, and every
    /// occupied slot holds between 1 and `MAX_ITEM_STACK` items.
    pub open spec fn wf(self) -> bool {
        &&& self.item_slots.len() == self.item_slot_count
        &&& forall|i: int| 0 <= i < self.item_slots.len()
            ==> spec_slot_len(#[trigger] self.item_slots[i]) <= MAX_ITEM_STACK
        &&& forall|i: int| 0 <= i < self.item_slots.len()
            ==> ((#[trigger] self.item_slots[i]) is Some ==> spec_slot_len(self.item_slots[i]) >= 1)
    }

    /// All item ids this inventory holds, as a multiset.
    pub open spec fn spec_items(self) -> Multiset<usize> {
        spec_slots_items(self.item_slots@)
    }

    /// Total number of items across all slots.
    pub open spec fn spec_count(self) -> int {
        spec_slots_count(self.item_slots@)
    }

    /// Whether slot `i` already stacks `kind` and has room for one more.
    pub open spec fn spec_accepts_kind(self, i: int, kind: InventoryItem) -> bool {
        match self.item_slots[i] {
            Some(st) => st.items@.len() < MAX_ITEM_STACK && kind.spec_stackable() && st.kind == kind,
            None => false,
        }
    }

    /// Whether some slot can take one more item of `kind`: a matching
    /// stack with room, or an empty slot.
    pub open spec fn spec_can_accept(self, kind: InventoryItem) -> bool {
        ||| exists|i: int| 0 <= i < self.item_slots.len() && self.spec_accepts_kind(i, kind)
        ||| exists|i: int| 0 <= i < self.item_slots.len() && self.item_slots[i] is None
    }

    /// An inventory of `slot_count` empty slots.
    pub fn new(slot_count: usize, keep_items: bool) -> (r: Inventory)
        ensures
            r.wf(),
            r.item_slot_count == slot_count,
            r.keep_items == keep_items,
            forall|i: int| 0 <= i < slot_count ==> (#[trigger] r.item_slots[i]) is None,
            r.spec_items() == Multiset::<usize>::empty(),
            r.spec_count() == 0,
    {
        let mut item_slots: Vec<Option<Stack>> = Vec::new();
        let mut i: usize = 0;
        while i < slot_count
            invariant
                i <= slot_count,
                item_slots.len() == i,
                forall|j: int| 0 <= j < i ==> (#[trigger] item_slots[j]) is None,
                spec_slots_items(item_slots@) == Multiset::<usize>::empty(),
                spec_slots_count(item_slots@) == 0,
            decreases slot_count - i,
        {
            let ghost before = item_slots@;
            item_slots.push(None);
            assert(item_slots@.drop_last() =~= before);
            assert(spec_slots_items(item_slots@) =~= Multiset::<usize>::empty());
            i = i + 1;
        }
        Inventory { item_slots, item_slot_count: slot_count, keep_items }
    }

    /// Everything `drop_one` promises: how the popped id, the addressed
    /// slot, and the item multiset relate between the old and the new
    /// inventory.
    pub open spec fn spec_drop_one_post(inv0: Inventory, slot_idx: int, inv1: Inventory, r: Option<
        usize,
    >) -> bool {
        &&& inv1.wf()
        &&& inv1.item_slot_count == inv0.item_slot_count
        &&& inv1.keep_items == inv0.keep_items
        &&& (r is None <==> (slot_idx >= inv0.item_slots.len() || inv0.item_slots[slot_idx]
            is None))
        &&& (r is None ==> inv1 == inv0)
        &&& (r is Some ==> {
            let st = inv0.item_slots[slot_idx]->Some_0;
            let popped = r->Some_0;
            &&& popped == st.items@.last()
            &&& inv1.item_slots@.len() == inv0.item_slots@.len()
            &&& forall|k: int|
                0 <= k < inv0.item_slots@.len() && k != slot_idx ==> inv1.item_slots@[k]
                    == inv0.item_slots@[k]
            &&& if st.items@.len() == 1 {
                inv1.item_slots@[slot_idx] is None
            } else {
                &&& inv1.item_slots@[slot_idx] is Some
                &&& inv1.item_slots@[slot_idx]->Some_0.kind == st.kind
                &&& inv1.item_slots@[slot_idx]->Some_0.items@ == st.items@.drop_last()
            }
            &&& inv1.spec_items().insert(popped) == inv0.spec_items()
            &&& inv1.spec_count() + 1 == inv0.spec_count()
            &&& spec_slot_len(inv1.item_slots[slot_idx]) + 1 == spec_slot_len(
                inv0.item_slots[slot_idx],
            )
        })
    }

    /// Pops one item id from the tail of slot `slot_idx`. An emptied stack
    /// reverts its slot to empty. No-op returning `None` when the index is
    /// out of range or the slot is already empty.
    pub fn drop_one(&mut self, slot_idx: usize) -> (r: Option<usize>)
        requires
            old(self).wf(),
        ensures
            Inventory::spec_drop_one_post(*old(self), slot_idx as int, *final(self), r),
    {
        if slot_idx >= self.item_slots.len() {
            return None;
        }
        if self.item_slots[slot_idx].is_none() {
            return None;
        }
        let ghost slots0 = self.item_slots@;
        let ghost st0 = slots0[slot_idx as int]->Some_0;
        let mut taken: Option<Stack> = None;
        core::mem::swap(&mut taken, &mut self.item_slots[slot_idx]);
        let mut stack = taken.unwrap();
        let popped = stack.items.pop().unwrap();
        assert(stack.items@ =~= st0.items@.drop_last());
        let new_slot: Option<Stack> = if stack.items.len() == 0 {
            None
        } else {
            Some(stack)
        };
        self.item_slots[slot_idx] = new_slot;
        proof {
            assert(self.item_slots@ =~= slots0.update(slot_idx as int, new_slot));
            lemma_slots_items_update(slots0, slot_idx as int, new_slot);
            lemma_slots_count_update(slots0, slot_idx as int, new_slot);
            assert(st0.items@.drop_last() =~= st0.items@.remove(st0.items@.len() - 1));
            assert(st0.items@.remove(st0.items@.len() - 1).to_multiset()
                =~= st0.items@.to_multiset().remove(popped));
            assert(st0.items@.contains(popped));
            assert(st0.items@.to_multiset().count(popped) > 0);
            assert(stack.items@.to_multiset().len() == stack.items@.len());
            assert(spec_slot_items(new_slot).insert(popped) =~= spec_slot_items(Some(st0)));
            assert forall|x: usize|
                spec_slots_items(self.item_slots@).insert(popped).count(x)
                    == spec_slots_items(slots0).count(x) by {
                assert(spec_slots_items(self.item_slots@).add(
                    spec_slot_items(slots0[slot_idx as int]),
                ).count(x) == spec_slots_items(slots0).add(spec_slot_items(new_slot)).count(x));
                assert(spec_slot_items(new_slot).insert(popped).count(x)
                    == spec_slot_items(Some(st0)).count(x));
            }
            assert(spec_slots_items(self.item_slots@).insert(popped) =~= spec_slots_items(slots0));
        }
        Some(popped)
    }

    /// Everything `pickup` promises: success exactly when some slot can
    /// accept the kind, the chosen slot is the first matching stack with
    /// room and otherwise the first empty slot, and the item multiset
    /// gains exactly the new id.
    pub open spec fn spec_pickup_post(
        inv0: Inventory,
        item_id: usize,
        kind: InventoryItem,
        inv1: Inventory,
        picked: bool,
    ) -> bool {
        &&& inv1.wf()
        &&& inv1.item_slot_count == inv0.item_slot_count
        &&& inv1.keep_items == inv0.keep_items
        &&& picked == inv0.spec_can_accept(kind)
        &&& (!picked ==> inv1 == inv0)
        &&& (picked ==> exists|i: int|
            {
                &&& 0 <= i < inv0.item_slots.len()
                &&& {
                    ||| (inv0.spec_accepts_kind(i, kind) && forall|k: int|
                        0 <= k < i ==> !inv0.spec_accepts_kind(k, kind))
                    ||| ((forall|k: int|
                        0 <= k < inv0.item_slots.len() ==> !inv0.spec_accepts_kind(k, kind))
                        && inv0.item_slots[i] is None && forall|k: int|
                        0 <= k < i ==> !((#[trigger] inv0.item_slots[k]) is None))
                }
                &&& inv1.item_slots@.len() == inv0.item_slots@.len()
                &&& forall|k: int|
                    0 <= k < inv0.item_slots@.len() && k != i ==> inv1.item_slots@[k]
                        == inv0.item_slots@[k]
                &&& (#[trigger] inv1.item_slots@[i]) is Some
                &&& inv1.item_slots@[i]->Some_0.items@ == spec_slot_seq(
                    inv0.item_slots[i],
                ).push(item_id)
                &&& inv1.item_slots@[i]->Some_0.kind == match inv0.item_slots[i] {
                    Some(st) => st.kind,
                    None => kind,
                }
            })
        &&& (picked ==> inv1.spec_items() == inv0.spec_items().insert(item_id))
        &&& (picked ==> inv1.spec_count() == inv0.spec_count() + 1)
    }

    /// Adds item `item_id` of kind `kind`. The target slot is the first
    /// slot already stacking the same stackable kind with room under the
    /// per-slot cap, else the first empty slot; with neither, the pickup
    /// fails and the inventory is unchanged.
    pub fn pickup(&mut self, item_id: usize, kind: InventoryItem) -> (picked: bool)
        requires
            old(self).wf(),
        ensures
            Inventory::spec_pickup_post(*old(self), item_id, kind, *final(self), picked),
    {
        let ghost slots0 = self.item_slots@;
        let n = self.item_slots.len();

        let mut target: Option<usize> = None;
        let mut j: usize = 0;
        while j < n
            invariant
                self.wf(),
                n == self.item_slots.len(),
                j <= n,
                target is None ==> forall|k: int| 0 <= k < j ==> !self.spec_accepts_kind(k, kind),
                target is Some ==> {
                    let t = target->Some_0 as int;
                    &&& 0 <= t < n
                    &&& self.spec_accepts_kind(t, kind)
                    &&& forall|k: int| 0 <= k < t ==> !self.spec_accepts_kind(k, kind)
                },
            decreases n - j,
        {
            if target.is_none() {
                let accepts = match &self.item_slots[j] {
                    Some(st) => st.items.len() < MAX_ITEM_STACK && kind.is_stackable()
                        && st.kind == kind,
                    None => false,
                };
                if accepts {
                    target = Some(j);
                }
            }
            j = j + 1;
        }

        if target.is_none() {
            let mut j2: usize = 0;
            while j2 < n
                invariant
                    self.wf(),
                    n == self.item_slots.len(),
                    j2 <= n,
                    forall|k: int| 0 <= k < n ==> !self.spec_accepts_kind(k, kind),
                    target is None ==> forall|k: int|
                        0 <= k < j2 ==> !((#[trigger] self.item_slots[k]) is None),
                    target is Some ==> {
                        let t = target->Some_0 as int;
                        &&& 0 <= t < n
                        &&& self.item_slots[t] is None
                        &&& forall|k: int| 0 <= k < t ==> !((#[trigger] self.item_slots[k]) is None)
                    },
                decreases n - j2,
            {
                if target.is_none() && self.item_slots[j2].is_none() {
                    target = Some(j2);
                }
                j2 = j2 + 1;
            }
        }

        match target {
            None => {
                assert(!self.spec_can_accept(kind));
                false
            },
            Some(i) => {
                let mut taken: Option<Stack> = None;
                core::mem::swap(&mut taken, &mut self.item_slots[i]);
                let new_slot: Option<Stack> = match taken {
                    Some(mut stack) => {
                        stack.items.push(item_id);
                        assert(stack.items@ =~= slots0[i as int]->Some_0.items@.push(item_id));
                        Some(stack)
                    },
                    None => {
                        let mut items: Vec<usize> = Vec::new();
                        items.push(item_id);
                        assert(items@ =~= seq![item_id]);
                        Some(Stack { kind, items })
                    },
                };
                self.item_slots[i] = new_slot;
                proof {
                    assert(self.item_slots@ =~= slots0.update(i as int, new_slot));
                    lemma_slots_items_update(slots0, i as int, new_slot);
                    lemma_slots_count_update(slots0, i as int, new_slot);
                    if slots0[i as int] is Some {
                        let st0 = slots0[i as int]->Some_0;
                        assert(st0.items@.push(item_id).to_multiset()
                            =~= st0.items@.to_multiset().insert(item_id));
                    } else {
                        assert(new_slot->Some_0.items@ =~= Seq::<usize>::empty().push(item_id));
                        assert(Seq::<usize>::empty().push(item_id).to_multiset()
                            =~= Seq::<usize>::empty().to_multiset().insert(item_id));
                        assert(Seq::<usize>::empty().to_multiset().len() == 0);
                        assert(Seq::<usize>::empty().to_multiset() =~= Multiset::<usize>::empty());
                    }
                    assert(spec_slot_items(new_slot) =~= spec_slot_items(slots0[i as int]).insert(
                        item_id,
                    ));
                    assert forall|x: usize|
                        spec_slots_items(self.item_slots@).count(x)
                            == spec_slots_items(slots0).insert(item_id).count(x) by {
                        assert(spec_slots_items(self.item_slots@).add(
                            spec_slot_items(slots0[i as int]),
                        ).count(x) == spec_slots_items(slots0).add(spec_slot_items(new_slot)).count(
                            x,
                        ));
                        assert(spec_slot_items(new_slot).count(x)
                            == spec_slot_items(slots0[i as int]).insert(item_id).count(x));
                    }
                    assert(spec_slots_items(self.item_slots@) =~= spec_slots_items(
                        slots0,
                    ).insert(item_id));
                }
                true
            },
        }
    }
}

/// Replacing one slot changes the total count by that slot's difference.
pub proof fn lemma_slots_count_update(slots: Seq<Option<Stack>>, i: int, v: Option<Stack>)
    requires
        0 <= i < slots.len(),
    ensures
        spec_slots_count(slots.update(i, v)) + spec_slot_len(slots[i])
            == spec_slots_count(slots) + spec_slot_len(v),
    decreases slots.len(),
{
    let upd = slots.update(i, v);
    if i == slots.len() - 1 {
        assert(upd.drop_last() =~= slots.drop_last());
    } else {
        assert(upd.drop_last() =~= slots.drop_last().update(i, v));
        lemma_slots_count_update(slots.drop_last(), i, v);
    }
}

/// An item entity that was dropped into the world: tagged with its
/// original owner and a pickup-delay countdown.
#[derive(Clone, Copy, PartialEq, Eq, Structural, Debug)]
pub struct DroppedItem {
    pub owner: usize,
    pub pickup_delay_ms: u32,
}

/// Request to pop one item from `item_slot` of `inventory_id`.
#[derive(Clone, Copy, PartialEq, Eq, Structural, Debug)]
pub struct ItemDropEvent {
    pub inventory_id: usize,
    pub item_slot: usize,
}

/// Request for `inventory_id` to collect the world item `item_id`.
#[derive(Clone, Copy, PartialEq, Eq, Structural, Debug)]
pub struct ItemPickupEvent {
    pub item_id: usize,
    pub inventory_id: usize,
}

impl DroppedItem {
    /// The tag a fresh drop carries: full cooldown for its owner.
    pub open spec fn spec_new(owner: usize) -> DroppedItem {
        DroppedItem { owner, pickup_delay_ms: PICKUP_DELAY_MS }
    }

    /// Whether `collector` may pick this item up: anyone but the original
    /// owner immediately, the owner only once the countdown has elapsed.
    pub open spec fn spec_can_be_collected(self, collector: usize) -> bool {
        collector != self.owner || self.pickup_delay_ms == 0
    }

    pub fn new(owner: usize) -> (r: DroppedItem)
        ensures
            r == DroppedItem::spec_new(owner),
    {
        DroppedItem { owner, pickup_delay_ms: PICKUP_DELAY_MS }
    }

    pub fn can_be_collected(&self, collector: usize) -> (r: bool)
        ensures
            r == self.spec_can_be_collected(collector),
    {
        collector != self.owner || self.pickup_delay_ms == 0
    }

    /// Advances the countdown by `dt_ms`, stopping at zero.
    pub fn tick(&mut self, dt_ms: u32)
        ensures
            final(self).owner == old(self).owner,
            final(self).pickup_delay_ms == if dt_ms >= old(self).pickup_delay_ms {
                0u32
            } else {
                (old(self).pickup_delay_ms - dt_ms) as u32
            },
    {
        if dt_ms >= self.pickup_delay_ms {
            self.pickup_delay_ms = 0;
        } else {
            self.pickup_delay_ms = self.pickup_delay_ms - dt_ms;
        }
    }
}

/// Self-drop exclusion: immediately after a drop, the original owner
/// cannot re-collect the item, while any other collector can.
pub proof fn lemma_self_drop_exclusion(owner: usize, d: DroppedItem)
    requires
        d == DroppedItem::spec_new(owner),
    ensures
        !d.spec_can_be_collected(owner),
        forall|c: usize| c != owner ==> d.spec_can_be_collected(c),
{
}

/// Drop/pickup round trip: after popping an item of a stackable kind out
/// of its slot, picking the same item back up always succeeds — the
/// emptied or shortened slot can take it — and restores the inventory's
/// item contents exactly, as a multiset.
pub proof fn lemma_drop_pickup_round_trip(
    inv0: Inventory,
    slot_idx: int,
    inv1: Inventory,
    item_id: usize,
    kind: InventoryItem,
    inv2: Inventory,
    picked: bool,
)
    requires
        inv0.wf(),
        0 <= slot_idx < inv0.item_slots@.len(),
        inv0.item_slots@[slot_idx] is Some,
        Inventory::spec_drop_one_post(inv0, slot_idx, inv1, Some(item_id)),
        Inventory::spec_pickup_post(inv1, item_id, kind, inv2, picked),
        kind.spec_stackable(),
        inv0.item_slots@[slot_idx]->Some_0.kind == kind,
    ensures
        picked,
        inv2.spec_items() == inv0.spec_items(),
{
    let st = inv0.item_slots@[slot_idx]->Some_0;
    if st.items@.len() == 1 {
        assert(inv1.item_slots@[slot_idx] is None);
        assert(inv1.spec_can_accept(kind));
    } else {
        assert(inv1.item_slots@[slot_idx] is Some);
        assert(inv1.item_slots@[slot_idx]->Some_0.items@.len() == st.items@.len() - 1);
        assert(st.items@.len() <= MAX_ITEM_STACK);
        assert(inv1.spec_accepts_kind(slot_idx, kind));
        assert(inv1.spec_can_accept(kind));
    }
    assert(inv2.spec_items() == inv1.spec_items().insert(item_id));
    assert(inv1.spec_items().insert(item_id) == inv0.spec_items());
}

} // verus!
