use platformer_core::combat::{DamageDealtEvent, Health};
use platformer_core::grid::{TileMap, TilePosition};
use platformer_core::inventory::{DroppedItem, Inventory, InventoryItem, PICKUP_DELAY_MS};
use platformer_core::physics::{
    BoundingBox, Friction, Gravity, InputState, MovementParams, SubPos, TerminalVelocity, Velocity,
};
use platformer_core::registry::{EntityRec, Registry};
use platformer_core::sim::{
    apply_damage_event, attack, hotbar_scrolling, intersect_items, load_level, on_damage_dealt,
    on_item_drops, on_item_pickups, physics_step, remove_dead_entities, step,
    update_current_hotbar_index, update_item_pickup_delays, SimState, ATTACK_DAMAGE,
};
use platformer_core::sweep::move_and_collide;
use platformer_core::worldgen::NoiseField;
use platformer_core::TILE_SUB;

fn default_params() -> MovementParams {
    MovementParams {
        acceleration: 1833,
        jump_power: 30000,
        friction: Friction { coefficient: 1667 },
        gravity: Gravity(1667),
        terminal: TerminalVelocity {
            x: 100000,
            y: 100000,
        },
    }
}

fn idle_input() -> InputState {
    InputState {
        move_left: false,
        move_right: false,
        jump_just_pressed: false,
        attack_pressed: false,
        interact_pressed: false,
        drop_just_pressed: false,
        hotbar_just_pressed: [false; 10],
        scroll_lines: 0,
        mouse: SubPos { x: 0, y: 0 },
    }
}

fn empty_state(width: usize, height: usize) -> SimState {
    SimState {
        tile_map: TileMap::new(width, height),
        registry: Registry::new(),
        damage_events: Vec::new(),
        drop_events: Vec::new(),
        pickup_events: Vec::new(),
        player_id: None,
        params: default_params(),
        flip_x: false,
    }
}

fn item_entity(pos: SubPos) -> EntityRec {
    let mut rec = EntityRec::empty();
    rec.alive = true;
    rec.pos = pos;
    rec.item_kind = Some(InventoryItem::Temporary);
    rec.bbox = Some(BoundingBox {
        width: 8000,
        height: 8000,
    });
    rec
}

#[test]
fn damage_to_zero_drops_one_event_per_item() {
    let mut state = empty_state(4, 4);
    // Three item entities, stacked in one slot of the victim.
    let a = state.registry.spawn(item_entity(SubPos { x: 0, y: 0 }));
    let b = state.registry.spawn(item_entity(SubPos { x: 0, y: 0 }));
    let c = state.registry.spawn(item_entity(SubPos { x: 0, y: 0 }));
    let mut victim = EntityRec::empty();
    victim.alive = true;
    victim.health = Some(Health(10));
    let mut inv = Inventory::new(2, false);
    for id in [a, b, c] {
        assert!(inv.pickup(id, InventoryItem::Temporary));
    }
    victim.inventory = Some(inv);
    let victim_id = state.registry.spawn(victim);

    state.damage_events.push(DamageDealtEvent {
        damage_dealt: 10,
        target_id: victim_id,
    });
    on_damage_dealt(&mut state);
    // A stack of three yields exactly three drop events.
    assert_eq!(state.drop_events.len(), 3);
    for ev in &state.drop_events {
        assert_eq!(ev.inventory_id, victim_id);
    }
    // Destroyed in the same step's death sweep.
    remove_dead_entities(&mut state);
    assert!(!state.registry.recs[victim_id].alive);
}

#[test]
fn two_hits_in_one_step_destroy() {
    let mut state = empty_state(4, 4);
    let mut rec = EntityRec::empty();
    rec.alive = true;
    rec.health = Some(Health(100));
    let id = state.registry.spawn(rec);
    state.damage_events.push(DamageDealtEvent {
        damage_dealt: 60,
        target_id: id,
    });
    state.damage_events.push(DamageDealtEvent {
        damage_dealt: 50,
        target_id: id,
    });
    on_damage_dealt(&mut state);
    remove_dead_entities(&mut state);
    assert!(!state.registry.recs[id].alive);
}

#[test]
fn damage_to_missing_target_is_skipped() {
    let mut state = empty_state(4, 4);
    apply_damage_event(
        &mut state,
        DamageDealtEvent {
            damage_dealt: 10,
            target_id: 42,
        },
    );
    assert_eq!(state.drop_events.len(), 0);
}

#[test]
fn fall_lands_on_tile_top_with_zero_velocity() {
    let mut map = TileMap::new(10, 10);
    // A solid tile in the bottom stored row: upward row 0, column 2.
    map.place(TilePosition { x: 2, y: 9 });
    // A body in column 2, three tiles up, moving straight down fast.
    let mut pos = SubPos {
        x: 2 * TILE_SUB + 3000,
        y: 3 * TILE_SUB,
    };
    let mut vel = Velocity { x: 0, y: -100000 };
    move_and_collide(&map, 12000, 21000, &mut pos, &mut vel, TILE_SUB, 800);
    // It ends resting exactly on the tile's top surface, not inside it,
    // with vertical velocity zero.
    assert_eq!(pos.y, TILE_SUB);
    assert_eq!(vel.y, 0);
    assert_eq!(pos.x, 2 * TILE_SUB + 3000);
}

#[test]
fn short_fall_without_contact_keeps_velocity() {
    let map = TileMap::new(10, 10);
    // Empty world: ground is the world floor at 0; start far above it.
    let mut pos = SubPos {
        x: 3 * TILE_SUB,
        y: 5 * TILE_SUB,
    };
    let mut vel = Velocity { x: 0, y: -10000 };
    move_and_collide(&map, 12000, 21000, &mut pos, &mut vel, TILE_SUB, 800);
    assert_eq!(pos.y, 5 * TILE_SUB - 10000);
    assert_eq!(vel.y, -10000);
}

#[test]
fn jump_impulse_only_when_grounded() {
    let params = default_params();
    let mut vel = Velocity { x: 0, y: 0 };
    let mut flip = false;
    let mut input = idle_input();
    input.jump_just_pressed = true;
    platformer_core::physics::move_player(&mut vel, &mut flip, &input, &params);
    // Grounded: the jump impulse applies, then gravity takes one step.
    assert_eq!(vel.y, params.jump_power - params.gravity.0);
    // Airborne (vertical velocity nonzero): no second impulse.
    let vy_before = vel.y;
    platformer_core::physics::move_player(&mut vel, &mut flip, &input, &params);
    assert_eq!(vel.y, vy_before - params.gravity.0);
}

#[test]
fn friction_never_overshoots_zero() {
    let params = default_params();
    let mut vel = Velocity { x: 900, y: 0 };
    let mut flip = false;
    let input = idle_input();
    platformer_core::physics::move_player(&mut vel, &mut flip, &input, &params);
    // 900 < the friction coefficient: decelerates exactly to zero.
    assert_eq!(vel.x, 0);
}

#[test]
fn self_drop_exclusion_in_world() {
    let mut state = empty_state(6, 6);
    let here = SubPos { x: 90000, y: 90000 };

    let mut dropper = EntityRec::empty();
    dropper.alive = true;
    dropper.pos = here;
    dropper.bbox = Some(BoundingBox {
        width: 12000,
        height: 21000,
    });
    dropper.inventory = Some(Inventory::new(4, true));
    let dropper_id = state.registry.spawn(dropper);

    let mut other = EntityRec::empty();
    other.alive = true;
    other.pos = here;
    other.bbox = Some(BoundingBox {
        width: 12000,
        height: 21000,
    });
    other.inventory = Some(Inventory::new(4, true));
    let other_id = state.registry.spawn(other);

    let mut item = item_entity(here);
    item.dropped = Some(DroppedItem::new(dropper_id));
    let item_id = state.registry.spawn(item);

    intersect_items(&mut state);
    // The dropper may not re-pick its own item yet; the other collector
    // may immediately.
    assert!(!state
        .pickup_events
        .iter()
        .any(|e| e.item_id == item_id && e.inventory_id == dropper_id));
    assert!(state
        .pickup_events
        .iter()
        .any(|e| e.item_id == item_id && e.inventory_id == other_id));

    // Once the delay elapses, the dropper is eligible too.
    state.pickup_events.clear();
    update_item_pickup_delays(&mut state, PICKUP_DELAY_MS);
    intersect_items(&mut state);
    assert!(state
        .pickup_events
        .iter()
        .any(|e| e.item_id == item_id && e.inventory_id == dropper_id));
}

#[test]
fn drop_then_pickup_round_trip_through_world() {
    let mut state = empty_state(6, 6);
    let here = SubPos { x: 54000, y: 54000 };

    let item_id = state.registry.spawn(item_entity(here));

    let mut owner = EntityRec::empty();
    owner.alive = true;
    owner.pos = here;
    owner.bbox = Some(BoundingBox {
        width: 12000,
        height: 21000,
    });
    let mut inv = Inventory::new(4, true);
    assert!(inv.pickup(item_id, InventoryItem::Temporary));
    owner.inventory = Some(inv);
    let owner_id = state.registry.spawn(owner);

    // Drop the only item.
    state
        .drop_events
        .push(platformer_core::inventory::ItemDropEvent {
            inventory_id: owner_id,
            item_slot: 0,
        });
    on_item_drops(&mut state);
    let inv_after = state.registry.recs[owner_id].inventory.as_ref().unwrap();
    assert!(inv_after.item_slots[0].is_none());
    assert!(state.registry.recs[item_id].visible);
    assert!(state.registry.recs[item_id].dropped.is_some());

    // After the cooldown, the same collector picks it back up.
    update_item_pickup_delays(&mut state, PICKUP_DELAY_MS);
    intersect_items(&mut state);
    on_item_pickups(&mut state);
    let inv_back = state.registry.recs[owner_id].inventory.as_ref().unwrap();
    let total: usize = inv_back
        .item_slots
        .iter()
        .map(|s| s.as_ref().map_or(0, |st| st.items.len()))
        .sum();
    assert_eq!(total, 1);
    assert!(!state.registry.recs[item_id].visible);
    assert!(state.registry.recs[item_id].dropped.is_none());
}

#[test]
fn attack_damages_entity_under_mouse() {
    let mut state = empty_state(6, 6);
    let target_pos = SubPos { x: 45000, y: 27000 };
    let mut rec = EntityRec::empty();
    rec.alive = true;
    rec.pos = target_pos;
    rec.health = Some(Health(100));
    let target = state.registry.spawn(rec);

    let mut input = idle_input();
    input.attack_pressed = true;
    input.mouse = target_pos;
    attack(&mut state, &input);
    assert_eq!(state.damage_events.len(), 1);
    assert_eq!(state.damage_events[0].target_id, target);
    assert_eq!(state.damage_events[0].damage_dealt, ATTACK_DAMAGE);

    // Without the control held, nothing happens.
    state.damage_events.clear();
    let idle = idle_input();
    attack(&mut state, &idle);
    assert!(state.damage_events.is_empty());
}

#[test]
fn hotbar_selection_and_scrolling() {
    let mut state = empty_state(6, 6);
    let mut player = EntityRec::empty();
    player.alive = true;
    player.player = Some(platformer_core::registry::Player {
        current_hotbar_index: 0,
    });
    let pid = state.registry.spawn(player);
    state.player_id = Some(pid);

    let mut input = idle_input();
    input.hotbar_just_pressed[2] = true;
    update_current_hotbar_index(&mut state, &input);
    assert_eq!(
        state.registry.recs[pid].player.unwrap().current_hotbar_index,
        2
    );

    // Scrolling one line down from slot 2 selects slot 1; scrolling
    // back up wraps within the ten slots.
    let mut scroll = idle_input();
    scroll.scroll_lines = 1;
    hotbar_scrolling(&mut state, &scroll);
    assert_eq!(
        state.registry.recs[pid].player.unwrap().current_hotbar_index,
        1
    );
    scroll.scroll_lines = -11;
    hotbar_scrolling(&mut state, &scroll);
    assert_eq!(
        state.registry.recs[pid].player.unwrap().current_hotbar_index,
        2
    );
}

#[test]
fn level_load_and_landing() {
    // A 9x9 level whose land band is solid except a one-cell pit under
    // the spawn column, so the player falls one cell and lands.
    let mut rows = vec![vec![false; 9]; 9];
    for y in 3..9 {
        for x in 0..9 {
            rows[y][x] = true;
        }
    }
    rows[3][4] = false;
    let field = NoiseField {
        width: 9,
        height: 9,
        rows,
    };
    let mut state = load_level(&field, default_params());
    let pid = state.player_id.unwrap();
    assert!(state.registry.recs[pid].alive);
    // Spawn cell (4, 2): grid-frame center of that cell.
    assert_eq!(
        state.registry.recs[pid].pos,
        SubPos {
            x: 4 * TILE_SUB + TILE_SUB / 2,
            y: 6 * TILE_SUB + TILE_SUB / 2
        }
    );

    let input = idle_input();
    for _ in 0..8 {
        step(&mut state, &input, 16);
    }
    // Landed on the pit's floor: body bottom on the tile top below the
    // pit, vertical velocity zero.
    let pos = state.player_position().unwrap();
    assert_eq!(pos.y, 5 * TILE_SUB + 21000 / 2);
    assert_eq!(state.registry.recs[pid].vel.unwrap().y, 0);

    // The occupancy matches the field's land band.
    for y in 0..9usize {
        for x in 0..9usize {
            let expect = y >= 3 && !(x == 4 && y == 3);
            assert_eq!(
                state.tile_map.is_occupied(TilePosition { x, y }),
                expect,
                "cell ({}, {})",
                x,
                y
            );
        }
    }
}

#[test]
fn physics_step_skips_without_collider_state() {
    let mut state = empty_state(6, 6);
    let mut rec = EntityRec::empty();
    rec.alive = true;
    rec.pos = SubPos { x: 54000, y: 54000 };
    rec.vel = Some(Velocity { x: 0, y: 0 });
    // No bounding box: collision response is skipped, never a fault.
    let pid = state.registry.spawn(rec);
    state.player_id = Some(pid);
    let input = idle_input();
    physics_step(&mut state, &input);
    assert_eq!(state.registry.recs[pid].pos, SubPos { x: 54000, y: 54000 });
}

#[test]
fn hotbar_queries_reflect_inventory() {
    let mut state = empty_state(6, 6);
    let item = state.registry.spawn(item_entity(SubPos { x: 0, y: 0 }));
    let mut player = EntityRec::empty();
    player.alive = true;
    player.player = Some(platformer_core::registry::Player {
        current_hotbar_index: 3,
    });
    let mut inv = Inventory::new(10, true);
    assert!(inv.pickup(item, InventoryItem::Temporary));
    player.inventory = Some(inv);
    let pid = state.registry.spawn(player);
    state.player_id = Some(pid);

    assert_eq!(state.selected_hotbar_index(), Some(3));
    assert_eq!(state.hotbar_slot_info(0), (1, Some(item)));
    assert_eq!(state.hotbar_slot_info(1), (0, None));
    assert_eq!(state.hotbar_slot_info(99), (0, None));
}

#[test]
fn step_up_over_one_tile_ledge() {
    let mut map = TileMap::new(10, 10);
    // Ground across the bottom stored row, one ledge tile at column 5.
    for x in 0..10 {
        map.place(TilePosition { x, y: 9 });
    }
    map.place(TilePosition { x: 5, y: 8 });
    // Standing on the ground in column 3, walking right into the ledge.
    let mut pos = SubPos {
        x: 3 * TILE_SUB,
        y: TILE_SUB,
    };
    let mut vel = Velocity { x: 30000, y: 0 };
    move_and_collide(&map, 12000, 21000, &mut pos, &mut vel, TILE_SUB, 800);
    // The ledge is one tile high: the body steps up onto it and keeps
    // its horizontal motion.
    assert_eq!(pos.y, 2 * TILE_SUB);
    assert_eq!(pos.x, 3 * TILE_SUB + 30000);
    assert_eq!(vel.x, 30000);
    assert_eq!(vel.y, 0);
}

#[test]
fn two_tile_wall_blocks_and_zeroes_velocity() {
    let mut map = TileMap::new(10, 10);
    for x in 0..10 {
        map.place(TilePosition { x, y: 9 });
    }
    // A wall two tiles high at column 5.
    map.place(TilePosition { x: 5, y: 8 });
    map.place(TilePosition { x: 5, y: 7 });
    let mut pos = SubPos {
        x: 3 * TILE_SUB,
        y: TILE_SUB,
    };
    let mut vel = Velocity { x: 30000, y: 0 };
    move_and_collide(&map, 12000, 21000, &mut pos, &mut vel, TILE_SUB, 800);
    // Too tall to step: the body stops flush against the wall's left
    // face and the blocked horizontal velocity is zeroed.
    assert_eq!(pos.y, TILE_SUB);
    assert_eq!(pos.x, 5 * TILE_SUB - 12000);
    assert_eq!(vel.x, 0);
    assert_eq!(vel.y, 0);
}
