use platformer_core::combat::emit_drop_events;
use platformer_core::inventory::{
    DroppedItem, Inventory, InventoryItem, MAX_ITEM_STACK, PICKUP_DELAY_MS,
};

fn total_items(inv: &Inventory) -> usize {
    inv.item_slots
        .iter()
        .map(|s| s.as_ref().map_or(0, |st| st.items.len()))
        .sum()
}

#[test]
fn pickup_stacks_up_to_cap_then_routes_to_empty_slot() {
    let mut inv = Inventory::new(2, false);
    for id in 0..MAX_ITEM_STACK {
        assert!(inv.pickup(id, InventoryItem::Temporary));
    }
    assert_eq!(inv.item_slots[0].as_ref().unwrap().items.len(), MAX_ITEM_STACK);
    assert!(inv.item_slots[1].is_none());

    // At the cap, a matching item must route to another, empty slot.
    assert!(inv.pickup(MAX_ITEM_STACK, InventoryItem::Temporary));
    assert_eq!(inv.item_slots[0].as_ref().unwrap().items.len(), MAX_ITEM_STACK);
    assert_eq!(inv.item_slots[1].as_ref().unwrap().items.len(), 1);
}

#[test]
fn pickup_fails_when_full() {
    let mut inv = Inventory::new(1, false);
    for id in 0..MAX_ITEM_STACK {
        assert!(inv.pickup(id, InventoryItem::Temporary));
    }
    // Cap reached and no empty slot: the pickup fails silently.
    assert!(!inv.pickup(999, InventoryItem::Temporary));
    assert_eq!(total_items(&inv), MAX_ITEM_STACK);
}

#[test]
fn drop_from_empty_slot_is_a_no_op() {
    let mut inv = Inventory::new(3, false);
    assert_eq!(inv.drop_one(1), None);
    assert_eq!(inv.drop_one(99), None);
    assert_eq!(total_items(&inv), 0);
}

#[test]
fn drop_pops_tail_and_empties_slot() {
    let mut inv = Inventory::new(1, false);
    assert!(inv.pickup(10, InventoryItem::Temporary));
    assert!(inv.pickup(11, InventoryItem::Temporary));
    assert_eq!(inv.drop_one(0), Some(11));
    assert_eq!(inv.drop_one(0), Some(10));
    // The emptied stack's slot reverts to empty.
    assert!(inv.item_slots[0].is_none());
    assert_eq!(inv.drop_one(0), None);
}

#[test]
fn drop_pickup_round_trip_preserves_contents() {
    let mut inv = Inventory::new(4, true);
    for id in [21, 22, 23] {
        assert!(inv.pickup(id, InventoryItem::Temporary));
    }
    let before = total_items(&inv);
    let dropped = inv.drop_one(0).unwrap();
    assert_eq!(total_items(&inv), before - 1);
    assert!(inv.pickup(dropped, InventoryItem::Temporary));
    assert_eq!(total_items(&inv), before);
    let slot = inv.item_slots[0].as_ref().unwrap();
    assert!(slot.items.contains(&dropped));
}

#[test]
fn self_drop_exclusion_and_delay() {
    let owner = 5;
    let other = 9;
    let mut d = DroppedItem::new(owner);
    // Immediately after the drop, the dropper may not re-collect it,
    // while any other collector may.
    assert!(!d.can_be_collected(owner));
    assert!(d.can_be_collected(other));
    d.tick(PICKUP_DELAY_MS - 1);
    assert!(!d.can_be_collected(owner));
    d.tick(1);
    assert!(d.can_be_collected(owner));
    assert!(d.can_be_collected(other));
}

#[test]
fn stackability_of_kinds() {
    assert!(InventoryItem::Temporary.is_stackable());
}

#[test]
fn one_drop_event_per_physical_item() {
    let mut inv = Inventory::new(3, false);
    for id in [1, 2, 3, 4, 5] {
        assert!(inv.pickup(id, InventoryItem::Temporary));
    }
    // A stack of five yields five drop events, all for the same slot.
    let events = emit_drop_events(&inv, 77);
    assert_eq!(events.len(), 5);
    for ev in &events {
        assert_eq!(ev.inventory_id, 77);
        assert_eq!(ev.item_slot, 0);
    }
}
