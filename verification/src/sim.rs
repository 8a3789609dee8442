//! World orchestration: the simulation context built once per level and
//! the per-step systems that drive movement, combat, and the inventory
//! pipeline over the entity registry.
//!
//! Per level load: generate terrain, materialize tiles, spawn the player
//! at the designated entry cell. Per step, in this order: fixed-step
//! movement with collision response; input-driven systems (attack, drop,
//! hotbar); damage resolution; the death sweep; drop-event processing;
//! pickup-delay ticks; pickup-event processing; and finally pickup
//! evaluation for the next step. Entity positions are centers in the
//! grid frame, in sub-units, `y` growing upward from the level's bottom.

use vstd::prelude::*;
use crate::combat::{
    spec_drop_events_for, spec_sub_clip, sub_saturating, DamageDealtEvent, Health,
    emit_drop_events,
};
use crate::grid::{TileMap, TilePosition};
use crate::inventory::{
    DroppedItem, Inventory, InventoryItem, ItemDropEvent, ItemPickupEvent, Stack,
};
use crate::physics::{
    move_player, spec_apply_flip, spec_move_player, BoundingBox, InputState, MovementParams,
    SubPos, Velocity, VEL_LIMIT,
};
use crate::registry::{EntityRec, Player, Registry};
use crate::sweep::{
    body_clear_at, move_and_collide, spec_body_clear, spec_grid_sized, spec_horizontal_outcome,
    spec_vertical_outcome,
};
use crate::worldgen::{
    generate, lemma_tiles_are_the_land_cells, spec_emits, spec_spawn, spec_tiles, NoiseField,
    PlayerSpawnEvent, TileSpawnEvent,
};
use crate::{SUB, TILE_SUB};

verus! {

/// Bound on entity positions, in sub-units; far outside any level yet
/// far from `i64` overflow in overlap arithmetic.
pub const POS_LIMIT: i64 = 1000000000000;

/// Damage one attack hit deals.
pub const ATTACK_DAMAGE: i64 = 10;

/// Starting health of a tile entity.
pub const TILE_HEALTH: i64 = 100;

/// Appearance index a freshly placed tile starts with, before the
/// edge-aware pass recomputes it.
pub const INITIAL_TILE_APPEARANCE: usize = 122;

/// Contact-normal classification threshold, in milli-units.
pub const NORMAL_THRESHOLD: i64 = 800;

/// Number of inventory slots of the player.
pub const PLAYER_SLOT_COUNT: usize = 10;

/// Side lengths of the player's collision box, in sub-units.
pub const PLAYER_WIDTH: i64 = 12000;

/// Height of the player's collision box, in sub-units.
pub const PLAYER_HEIGHT: i64 = 21000;

/// Side length of a dropped item's pickup collision box, in sub-units.
pub const ITEM_PICKUP_SIZE: i64 = 8000;

/// Whether one entity record keeps the bounds the systems rely on.
pub open spec fn spec_rec_wf(rec: EntityRec) -> bool {
    &&& (rec.inventory is Some ==> rec.inventory->Some_0.wf())
    &&& (rec.vel is Some ==> rec.vel->Some_0.bounded(VEL_LIMIT as int))
    &&& -POS_LIMIT <= rec.pos.x <= POS_LIMIT
    &&& -POS_LIMIT <= rec.pos.y <= POS_LIMIT
    &&& (rec.bbox is Some ==> 0 < rec.bbox->Some_0.width <= POS_LIMIT && 0 < rec.bbox->Some_0.height
        <= POS_LIMIT)
    &&& (rec.player is Some ==> rec.player->Some_0.current_hotbar_index < PLAYER_SLOT_COUNT)
}

/// Index guard for one stacked member: entity `id` is live, carries an
/// inventory, slot `si` holds a stack, and `k` indexes its members.
pub open spec fn spec_holder_indexes(state: SimState, id: int, si: int, k: int) -> bool {
    &&& 0 <= id < state.registry.recs.len()
    &&& state.registry.recs[id].alive
    &&& state.registry.recs[id].inventory is Some
    &&& 0 <= si < state.registry.recs[id].inventory->Some_0.item_slots@.len()
    &&& state.registry.recs[id].inventory->Some_0.item_slots@[si] is Some
    &&& 0 <= k < state.registry.recs[id].inventory->Some_0.item_slots@[si]->Some_0.items@.len()
}

/// One stacked member is coherent: its id names a registry record whose
/// item kind equals the stack's kind.
pub open spec fn spec_slot_member_ok(state: SimState, id: int, si: int, k: int) -> bool {
    let st = state.registry.recs[id].inventory->Some_0.item_slots@[si]->Some_0;
    let m = st.items@[k];
    &&& m < state.registry.recs.len()
    &&& state.registry.recs[m as int].item_kind == Some(st.kind)
}

/// Stack homogeneity across the world: every member of every live
/// entity's stacks is an entity of exactly the stack's kind, so a
/// slot's members all share one kind in the registry's sense, not just
/// by the stack's own tag.
pub open spec fn spec_inventories_homogeneous(state: SimState) -> bool {
    forall|id: int, si: int, k: int|
        spec_holder_indexes(state, id, si, k) ==> #[trigger] spec_slot_member_ok(state, id, si, k)
}

/// The simulation context: everything a level owns, passed explicitly
/// to each subsystem call; no ambient globals.
pub struct SimState {
    pub tile_map: TileMap,
    pub registry: Registry,
    pub damage_events: Vec<DamageDealtEvent>,
    pub drop_events: Vec<ItemDropEvent>,
    pub pickup_events: Vec<ItemPickupEvent>,
    pub player_id: Option<usize>,
    pub params: MovementParams,
    pub flip_x: bool,
}

impl SimState {
    /// Level-wide invariant: grid shape, registry free list, movement
    /// parameters, and every record's component bounds.
    pub open spec fn wf(self) -> bool {
        &&& self.tile_map.wf()
        &&& spec_grid_sized(self.tile_map)
        &&& self.registry.wf()
        &&& self.params.wf()
        &&& forall|id: int| 0 <= id < self.registry.recs.len() ==> spec_rec_wf(
            #[trigger] self.registry.recs[id],
        )
        &&& (self.player_id is Some ==> self.player_id->Some_0 < self.registry.recs.len())
    }
}

/// Strict axis-aligned overlap of two boxes given by centers and sizes.
pub open spec fn spec_aabb_overlap(
    a: SubPos,
    aw: int,
    ah: int,
    b: SubPos,
    bw: int,
    bh: int,
) -> bool {
    &&& (a.x - b.x) * 2 < aw + bw
    &&& (b.x - a.x) * 2 < aw + bw
    &&& (a.y - b.y) * 2 < ah + bh
    &&& (b.y - a.y) * 2 < ah + bh
}

/// Whether two axis-aligned boxes, given by centers and sizes, overlap.
pub fn aabb_overlap(a: SubPos, aw: i64, ah: i64, b: SubPos, bw: i64, bh: i64) -> (r: bool)
    requires
        -POS_LIMIT <= a.x <= POS_LIMIT,
        -POS_LIMIT <= a.y <= POS_LIMIT,
        -POS_LIMIT <= b.x <= POS_LIMIT,
        -POS_LIMIT <= b.y <= POS_LIMIT,
        0 <= aw <= POS_LIMIT,
        0 <= ah <= POS_LIMIT,
        0 <= bw <= POS_LIMIT,
        0 <= bh <= POS_LIMIT,
    ensures
        r == spec_aabb_overlap(a, aw as int, ah as int, b, bw as int, bh as int),
{
    (a.x - b.x) * 2 < aw + bw && (b.x - a.x) * 2 < aw + bw && (a.y - b.y) * 2 < ah + bh && (b.y
        - a.y) * 2 < ah + bh
}

/// The grid-frame center of tile cell `(x, y)` of `map`, in sub-units.
pub open spec fn spec_tile_center(map: TileMap, x: int, y: int) -> SubPos {
    SubPos {
        x: (x * TILE_SUB + TILE_SUB / 2) as i64,
        y: ((map.height - 1 - y) * TILE_SUB + TILE_SUB / 2) as i64,
    }
}

/// The record of the hidden item entity a fresh tile carries.
pub open spec fn spec_tile_item_rec(rec: EntityRec, center: SubPos) -> bool {
    &&& rec.alive
    &&& rec.pos == center
    &&& rec.item_kind == Some(InventoryItem::Temporary)
    &&& rec.bbox == Some(BoundingBox { width: ITEM_PICKUP_SIZE, height: ITEM_PICKUP_SIZE })
    &&& !rec.visible
    &&& rec.dropped is None
}

/// Entity `tid` is a freshly materialized tile of cell `(x, y)`: placed
/// at the cell's center with the tile collider, full tile health, and a
/// one-slot inventory holding exactly one live hidden item entity of
/// the stackable kind.
pub open spec fn spec_tile_rec(state: SimState, tid: int, x: int, y: int) -> bool {
    let rec = state.registry.recs[tid];
    let center = spec_tile_center(state.tile_map, x, y);
    &&& state.registry.spec_alive(tid)
    &&& rec.tile_pos == Some(TilePosition { x: x as usize, y: y as usize })
    &&& rec.pos == center
    &&& rec.health == Some(Health(TILE_HEALTH))
    &&& rec.bbox == Some(BoundingBox { width: TILE_SUB, height: TILE_SUB })
    &&& rec.visible
    &&& rec.inventory is Some
    &&& rec.inventory->Some_0.item_slot_count == 1
    &&& rec.inventory->Some_0.item_slots@.len() == 1
    &&& rec.inventory->Some_0.item_slots@[0] is Some
    &&& rec.inventory->Some_0.item_slots@[0]->Some_0.kind == InventoryItem::Temporary
    &&& rec.inventory->Some_0.item_slots@[0]->Some_0.items@.len() == 1
    &&& ({
        let m = rec.inventory->Some_0.item_slots@[0]->Some_0.items@[0] as int;
        &&& 0 <= m < state.registry.recs.len()
        &&& spec_tile_item_rec(state.registry.recs[m], center)
    })
}

/// Some entity of the registry is the materialized tile of cell `(x, y)`.
pub open spec fn spec_tile_entity_at(state: SimState, x: int, y: int) -> bool {
    exists|tid: int|
        0 <= tid < state.registry.recs.len() && #[trigger] spec_tile_rec(state, tid, x, y)
}

/// Every live tile entity sits on an in-bounds, occupied grid cell.
pub open spec fn spec_tiles_indexed(state: SimState) -> bool {
    forall|id: int|
        0 <= id < state.registry.recs.len() && state.registry.recs[id].alive
            && (#[trigger] state.registry.recs[id].tile_pos) is Some ==> {
            let p = state.registry.recs[id].tile_pos->Some_0;
            &&& p.x < state.tile_map.width
            &&& p.y < state.tile_map.height
            &&& state.tile_map.spec_occupied(p.x as int, p.y as int)
        }
}

/// No two live tile entities share a grid cell.
pub open spec fn spec_tiles_unique(state: SimState) -> bool {
    forall|id1: int, id2: int|
        #![trigger state.registry.recs[id1].tile_pos, state.registry.recs[id2].tile_pos]
        0 <= id1 < state.registry.recs.len() && 0 <= id2 < state.registry.recs.len()
            && state.registry.recs[id1].alive && state.registry.recs[id2].alive
            && state.registry.recs[id1].tile_pos is Some && state.registry.recs[id2].tile_pos
            is Some && state.registry.recs[id1].tile_pos == state.registry.recs[id2].tile_pos
            ==> id1 == id2
}

/// Materializes tiles from spawn instructions: each first-time placement
/// marks the grid cell occupied and creates one tile entity carrying
/// health and a one-item inventory, plus its hidden item entity; a cell
/// already occupied, or out of the grid, spawns nothing.
pub fn tile_spawner(state: &mut SimState, events: &Vec<TileSpawnEvent>)
    requires
        old(state).wf(),
    ensures
        final(state).wf(),
        final(state).tile_map.width == old(state).tile_map.width,
        final(state).tile_map.height == old(state).tile_map.height,
        forall|x: int, y: int|
            0 <= x < old(state).tile_map.width && 0 <= y < old(state).tile_map.height
                ==> final(state).tile_map.spec_occupied(x, y) == (old(
                state,
            ).tile_map.spec_occupied(x, y) || exists|i: int|
                0 <= i < events@.len() && (#[trigger] events@[i]).tile_pos.x == x
                    && events@[i].tile_pos.y == y),
        forall|j: int| old(state).registry.spec_alive(j) ==> final(state).registry.spec_alive(j),
        final(state).player_id == old(state).player_id,
        final(state).damage_events == old(state).damage_events,
        final(state).drop_events == old(state).drop_events,
        final(state).pickup_events == old(state).pickup_events,
        final(state).params == old(state).params,
        forall|x: int, y: int|
            0 <= x < old(state).tile_map.width && 0 <= y < old(state).tile_map.height && !old(
                state,
            ).tile_map.spec_occupied(x, y) && final(state).tile_map.spec_occupied(x, y)
                ==> #[trigger] spec_tile_entity_at(*final(state), x, y),
        spec_tiles_indexed(*old(state)) && spec_tiles_unique(*old(state))
            ==> spec_tiles_indexed(*final(state)) && spec_tiles_unique(*final(state)),
        old(state).registry.free@.len() == 0 && spec_inventories_homogeneous(*old(state))
            ==> final(state).registry.free@.len() == 0 && spec_inventories_homogeneous(
            *final(state),
        ),
{
    let n = events.len();
    let mut i: usize = 0;
    while i < n
        invariant
            state.wf(),
            n == events@.len(),
            i <= n,
            state.tile_map.width == old(state).tile_map.width,
            state.tile_map.height == old(state).tile_map.height,
            forall|x: int, y: int|
                0 <= x < old(state).tile_map.width && 0 <= y < old(state).tile_map.height
                    ==> state.tile_map.spec_occupied(x, y) == (old(
                    state,
                ).tile_map.spec_occupied(x, y) || exists|k: int|
                    0 <= k < i && (#[trigger] events@[k]).tile_pos.x == x && events@[k].tile_pos.y
                        == y),
            forall|j: int| old(state).registry.spec_alive(j) ==> state.registry.spec_alive(j),
            state.player_id == old(state).player_id,
            state.damage_events == old(state).damage_events,
            state.drop_events == old(state).drop_events,
            state.pickup_events == old(state).pickup_events,
            state.params == old(state).params,
            forall|x: int, y: int|
                0 <= x < old(state).tile_map.width && 0 <= y < old(state).tile_map.height && !old(
                    state,
                ).tile_map.spec_occupied(x, y) && state.tile_map.spec_occupied(x, y)
                    ==> #[trigger] spec_tile_entity_at(*state, x, y),
            spec_tiles_indexed(*old(state)) && spec_tiles_unique(*old(state))
                ==> spec_tiles_indexed(*state) && spec_tiles_unique(*state),
            old(state).registry.free@.len() == 0 && spec_inventories_homogeneous(*old(state))
                ==> state.registry.free@.len() == 0 && spec_inventories_homogeneous(*state),
        decreases n - i,
    {
        let ghost pre_iter = *state;
        let ev = events[i];
        let pos = ev.tile_pos;
        if pos.x < state.tile_map.width && pos.y < state.tile_map.height {
            let first_time = state.tile_map.place(pos);
            if first_time {
                let cx = (pos.x as i64) * TILE_SUB + TILE_SUB / 2;
                let cy = ((state.tile_map.height - 1 - pos.y) as i64) * TILE_SUB + TILE_SUB / 2;
                let center = SubPos { x: cx, y: cy };

                let mut item_rec = EntityRec::empty();
                item_rec.alive = true;
                item_rec.pos = center;
                item_rec.item_kind = Some(InventoryItem::Temporary);
                item_rec.bbox = Some(
                    BoundingBox { width: ITEM_PICKUP_SIZE, height: ITEM_PICKUP_SIZE },
                );
                item_rec.visible = false;
                assert(spec_rec_wf(item_rec));
                let ghost reg_a = state.registry;
                let item_id = state.registry.spawn(item_rec);
                let ghost reg_b = state.registry;

                let mut items: Vec<usize> = Vec::new();
                items.push(item_id);
                let stack = Stack { kind: InventoryItem::Temporary, items };
                let mut item_slots: Vec<Option<Stack>> = Vec::new();
                item_slots.push(Some(stack));
                let inv = Inventory { item_slots, item_slot_count: 1, keep_items: false };
                assert(inv.wf());

                let mut tile_rec = EntityRec::empty();
                tile_rec.alive = true;
                tile_rec.pos = center;
                tile_rec.tile_pos = Some(pos);
                tile_rec.health = Some(Health(TILE_HEALTH));
                tile_rec.inventory = Some(inv);
                tile_rec.bbox = Some(BoundingBox { width: TILE_SUB, height: TILE_SUB });
                tile_rec.visible = true;
                tile_rec.appearance = INITIAL_TILE_APPEARANCE;
                assert(spec_rec_wf(tile_rec));
                let tile_id = state.registry.spawn(tile_rec);
                proof {
                    assert forall|id2: int| 0 <= id2 < state.registry.recs.len()
                        implies spec_rec_wf(#[trigger] state.registry.recs[id2]) by {
                        if id2 == tile_id as int {
                        } else {
                            assert(state.registry.recs[id2] == reg_b.recs[id2]);
                            if id2 == item_id as int {
                            } else {
                                assert(reg_b.recs[id2] == reg_a.recs[id2]);
                            }
                        }
                    }
                    assert(state.wf());
                    assert(stack.items@ =~= seq![item_id]);
                    assert(inv.item_slots@ =~= seq![Some(stack)]);
                    assert(state.registry.recs[tile_id as int] == tile_rec);
                    assert(state.registry.recs[item_id as int] == item_rec);
                    assert(center == spec_tile_center(
                        state.tile_map,
                        pos.x as int,
                        pos.y as int,
                    ));
                    assert(spec_tile_rec(*state, tile_id as int, pos.x as int, pos.y as int));
                    assert(spec_tile_entity_at(*state, pos.x as int, pos.y as int));
                    assert forall|x: int, y: int|
                        0 <= x < old(state).tile_map.width && 0 <= y < old(
                            state,
                        ).tile_map.height && !old(state).tile_map.spec_occupied(x, y)
                            && state.tile_map.spec_occupied(x, y) implies #[trigger] spec_tile_entity_at(
                        *state,
                        x,
                        y,
                    ) by {
                        if x == pos.x as int && y == pos.y as int {
                        } else {
                            assert(pre_iter.tile_map.spec_occupied(x, y));
                            assert(spec_tile_entity_at(pre_iter, x, y));
                            let tid = choose|tid: int|
                                0 <= tid < pre_iter.registry.recs.len()
                                    && #[trigger] spec_tile_rec(pre_iter, tid, x, y);
                            assert(pre_iter.registry.spec_alive(tid));
                            assert(state.registry.recs[tid] == pre_iter.registry.recs[tid]);
                            let m = pre_iter.registry.recs[tid].inventory->Some_0
                                .item_slots@[0]->Some_0.items@[0] as int;
                            assert(state.registry.recs[m] == pre_iter.registry.recs[m]);
                            assert(spec_tile_rec(*state, tid, x, y));
                        }
                    }
                    if old(state).registry.free@.len() == 0 && spec_inventories_homogeneous(
                        *old(state),
                    ) {
                        assert(state.registry.free@.len() == 0);
                        assert forall|hid: int, si: int, k: int|
                            spec_holder_indexes(*state, hid, si, k)
                            implies #[trigger] spec_slot_member_ok(*state, hid, si, k) by {
                            if hid == tile_id as int {
                                assert(si == 0 && k == 0);
                                assert(state.registry.recs[item_id as int].item_kind == Some(
                                    InventoryItem::Temporary,
                                ));
                            } else if hid == item_id as int {
                                assert(state.registry.recs[hid].inventory is None);
                            } else {
                                assert(state.registry.recs[hid] == pre_iter.registry.recs[hid]);
                                assert(spec_holder_indexes(pre_iter, hid, si, k));
                                assert(spec_slot_member_ok(pre_iter, hid, si, k));
                                let m = pre_iter.registry.recs[hid].inventory->Some_0
                                    .item_slots@[si]->Some_0.items@[k] as int;
                                assert(state.registry.recs[m] == pre_iter.registry.recs[m]);
                            }
                        }
                    }
                    if spec_tiles_indexed(*old(state)) && spec_tiles_unique(*old(state)) {
                        assert forall|id2: int|
                            0 <= id2 < state.registry.recs.len() && state.registry.recs[id2].alive
                                && (#[trigger] state.registry.recs[id2].tile_pos) is Some
                            implies {
                            let p = state.registry.recs[id2].tile_pos->Some_0;
                            &&& p.x < state.tile_map.width
                            &&& p.y < state.tile_map.height
                            &&& state.tile_map.spec_occupied(p.x as int, p.y as int)
                        } by {
                            if id2 == tile_id as int {
                            } else if id2 == item_id as int {
                            } else {
                                assert(state.registry.recs[id2] == pre_iter.registry.recs[id2]);
                            }
                        }
                        assert forall|id1: int, id2: int|
                            #![trigger state.registry.recs[id1].tile_pos, state.registry.recs[id2].tile_pos]
                            0 <= id1 < state.registry.recs.len() && 0 <= id2
                                < state.registry.recs.len() && state.registry.recs[id1].alive
                                && state.registry.recs[id2].alive
                                && state.registry.recs[id1].tile_pos is Some
                                && state.registry.recs[id2].tile_pos is Some
                                && state.registry.recs[id1].tile_pos
                                == state.registry.recs[id2].tile_pos implies id1 == id2 by {
                            if id1 == tile_id as int && id2 != tile_id as int {
                                assert(state.registry.recs[id2] == pre_iter.registry.recs[id2]);
                                assert(!pre_iter.tile_map.spec_occupied(pos.x as int, pos.y as int));
                            } else if id2 == tile_id as int && id1 != tile_id as int {
                                assert(state.registry.recs[id1] == pre_iter.registry.recs[id1]);
                                assert(!pre_iter.tile_map.spec_occupied(pos.x as int, pos.y as int));
                            } else if id1 != tile_id as int && id2 != tile_id as int {
                                assert(state.registry.recs[id1] == pre_iter.registry.recs[id1]);
                                assert(state.registry.recs[id2] == pre_iter.registry.recs[id2]);
                            }
                        }
                    }
                }
            }
        }
        i = i + 1;
    }
}

/// Everything the appearance pass does: every live tile entity's
/// appearance is recomputed from the grid's current four-neighbor
/// occupancy; no other field of any record changes.
pub open spec fn spec_tile_textures_post(pre: SimState, post: SimState) -> bool {
    &&& (post.wf())
    &&& (post.tile_map == pre.tile_map)
    &&& (post.registry.recs.len() == pre.registry.recs.len())
    &&& (forall|id: int| 0 <= id < pre.registry.recs.len()
            ==> post.registry.recs[id] == (EntityRec {
                appearance: post.registry.recs[id].appearance,
                ..pre.registry.recs[id]
            }))
    &&& (forall|id: int|
            {
                let rec = pre.registry.recs[id];
                0 <= id < pre.registry.recs.len() && rec.alive && rec.tile_pos is Some
                    && rec.tile_pos->Some_0.x < pre.tile_map.width
                    && rec.tile_pos->Some_0.y < pre.tile_map.height
                    ==> #[trigger] post.registry.recs[id].appearance as int == pre.tile_map.spec_appearance_at(
                    rec.tile_pos->Some_0.x as int,
                    rec.tile_pos->Some_0.y as int,
                )
            })
    &&& (post.damage_events == pre.damage_events)
    &&& (post.drop_events == pre.drop_events)
    &&& (post.pickup_events == pre.pickup_events)
    &&& (post.player_id == pre.player_id)
    &&& (post.params == pre.params)
    &&& (post.flip_x == pre.flip_x)
    &&& (spec_tiles_indexed(pre) && spec_tiles_unique(pre) ==> spec_tiles_indexed(
        post,
    ) && spec_tiles_unique(post))
    &&& (spec_inventories_homogeneous(pre) ==> spec_inventories_homogeneous(post))
}

/// Recomputes the edge-aware appearance of every existing tile entity
/// from the grid's current four-neighbor occupancy, not just newly
/// placed ones. Nothing else of any record changes.
pub fn update_tile_textures(state: &mut SimState)
    requires
        old(state).wf(),
    ensures
        spec_tile_textures_post(*old(state), *final(state)),
{
    let n = state.registry.recs.len();
    let mut id: usize = 0;
    while id < n
        invariant
            state.wf(),
            n == state.registry.recs.len(),
            id <= n,
            state.tile_map == old(state).tile_map,
            state.registry.recs.len() == old(state).registry.recs.len(),
            forall|j: int| 0 <= j < old(state).registry.recs.len()
                ==> state.registry.recs[j] == (EntityRec {
                    appearance: state.registry.recs[j].appearance,
                    ..old(state).registry.recs[j]
                }),
            forall|j: int|
                {
                    let rec = old(state).registry.recs[j];
                    0 <= j < id && rec.alive && rec.tile_pos is Some && rec.tile_pos->Some_0.x
                        < old(state).tile_map.width && rec.tile_pos->Some_0.y < old(
                        state,
                    ).tile_map.height ==> #[trigger] state.registry.recs[j].appearance as int
                        == old(state).tile_map.spec_appearance_at(
                        rec.tile_pos->Some_0.x as int,
                        rec.tile_pos->Some_0.y as int,
                    )
                },
            state.damage_events == old(state).damage_events,
            state.drop_events == old(state).drop_events,
            state.pickup_events == old(state).pickup_events,
            state.player_id == old(state).player_id,
            state.params == old(state).params,
            state.flip_x == old(state).flip_x,
        decreases n - id,
    {
        if state.registry.recs[id].alive {
            match state.registry.recs[id].tile_pos {
                Some(pos) => {
                    if pos.x < state.tile_map.width && pos.y < state.tile_map.height {
                        let idx = state.tile_map.appearance_index(pos);
                        state.registry.recs[id].appearance = idx;
                    }
                },
                None => {},
            }
        }
        id = id + 1;
    }
    proof {
        if spec_inventories_homogeneous(*old(state)) {
            assert forall|j: int|
                0 <= j < old(state).registry.recs.len() implies (#[trigger] state.registry
                    .recs[j]).alive == old(state).registry.recs[j].alive && state.registry
                    .recs[j].inventory == old(state).registry.recs[j].inventory && state.registry
                    .recs[j].item_kind == old(state).registry.recs[j].item_kind by {
                assert(state.registry.recs[j] == (EntityRec {
                    appearance: state.registry.recs[j].appearance,
                    ..old(state).registry.recs[j]
                }));
            }
            lemma_homogeneity_under_field_edits(*old(state), *state);
        }
        if spec_tiles_indexed(*old(state)) && spec_tiles_unique(*old(state)) {
            assert forall|id2: int|
                0 <= id2 < state.registry.recs.len() && state.registry.recs[id2].alive
                    && (#[trigger] state.registry.recs[id2].tile_pos) is Some implies {
                let p = state.registry.recs[id2].tile_pos->Some_0;
                &&& p.x < state.tile_map.width
                &&& p.y < state.tile_map.height
                &&& state.tile_map.spec_occupied(p.x as int, p.y as int)
            } by {
                assert(state.registry.recs[id2] == (EntityRec {
                    appearance: state.registry.recs[id2].appearance,
                    ..old(state).registry.recs[id2]
                }));
            }
            assert forall|id1: int, id2: int|
                #![trigger state.registry.recs[id1].tile_pos, state.registry.recs[id2].tile_pos]
                0 <= id1 < state.registry.recs.len() && 0 <= id2 < state.registry.recs.len()
                    && state.registry.recs[id1].alive && state.registry.recs[id2].alive
                    && state.registry.recs[id1].tile_pos is Some
                    && state.registry.recs[id2].tile_pos is Some
                    && state.registry.recs[id1].tile_pos == state.registry.recs[id2].tile_pos
                implies id1 == id2 by {
                assert(state.registry.recs[id1] == (EntityRec {
                    appearance: state.registry.recs[id1].appearance,
                    ..old(state).registry.recs[id1]
                }));
                assert(state.registry.recs[id2] == (EntityRec {
                    appearance: state.registry.recs[id2].appearance,
                    ..old(state).registry.recs[id2]
                }));
            }
        }
    }
}

/// Spawns the player entity at the designated entry position, with its
/// movement components, an empty ten-slot inventory that keeps its
/// items, the hotbar state, and two attached visual sub-parts.
pub fn spawn_player(state: &mut SimState, ev: PlayerSpawnEvent)
    requires
        old(state).wf(),
        -100000000 <= ev.pos.x <= 100000000,
        -100000000 <= ev.pos.y <= 100000000,
    ensures
        final(state).wf(),
        final(state).player_id is Some,
        ({
            let pid = final(state).player_id->Some_0 as int;
            let rec = final(state).registry.recs[pid];
            &&& final(state).registry.spec_alive(pid)
            &&& rec.player == Some(Player { current_hotbar_index: 0 })
            &&& rec.vel == Some(Velocity { x: 0, y: 0 })
            &&& rec.pos.x == ev.pos.x * SUB + (old(state).tile_map.width as int) * (TILE_SUB / 2)
            &&& rec.pos.y == ev.pos.y * SUB + (old(state).tile_map.height as int) * (TILE_SUB / 2)
            &&& rec.bbox == Some(BoundingBox { width: PLAYER_WIDTH, height: PLAYER_HEIGHT })
            &&& rec.inventory is Some
            &&& rec.inventory->Some_0.item_slot_count == PLAYER_SLOT_COUNT
            &&& rec.inventory->Some_0.spec_count() == 0
            &&& rec.inventory->Some_0.keep_items
            &&& rec.children@.len() == 2
            &&& ({
                let c0 = rec.children@[0] as int;
                let c1 = rec.children@[1] as int;
                &&& c0 != c1
                &&& c0 != pid
                &&& c1 != pid
                &&& final(state).registry.spec_alive(c0)
                &&& final(state).registry.spec_alive(c1)
                &&& final(state).registry.recs[c0].is_child
                &&& final(state).registry.recs[c1].is_child
                &&& final(state).registry.recs[c0].pos == rec.pos
                &&& final(state).registry.recs[c1].pos == rec.pos
                &&& final(state).registry.recs[c0].visible
                &&& final(state).registry.recs[c1].visible
            })
        }),
        final(state).tile_map == old(state).tile_map,
        forall|j: int| old(state).registry.spec_alive(j) ==> final(state).registry.spec_alive(j),
        forall|j: int|
            old(state).registry.spec_alive(j) ==> final(state).registry.recs[j] == old(
                state,
            ).registry.recs[j],
        final(state).damage_events == old(state).damage_events,
        final(state).drop_events == old(state).drop_events,
        final(state).pickup_events == old(state).pickup_events,
        final(state).params == old(state).params,
        spec_tiles_indexed(*old(state)) && spec_tiles_unique(*old(state))
            ==> spec_tiles_indexed(*final(state)) && spec_tiles_unique(*final(state)),
        old(state).registry.free@.len() == 0 && spec_inventories_homogeneous(*old(state))
            ==> final(state).registry.free@.len() == 0 && spec_inventories_homogeneous(
            *final(state),
        ),
{
    let gx = ev.pos.x * SUB + (state.tile_map.width as i64) * (TILE_SUB / 2);
    let gy = ev.pos.y * SUB + (state.tile_map.height as i64) * (TILE_SUB / 2);

    let ghost reg0 = state.registry;
    let mut eye_a = EntityRec::empty();
    eye_a.alive = true;
    eye_a.pos = SubPos { x: gx, y: gy };
    eye_a.is_child = true;
    eye_a.visible = true;
    let child_a = state.registry.spawn(eye_a);
    let ghost reg1 = state.registry;

    let mut eye_b = EntityRec::empty();
    eye_b.alive = true;
    eye_b.pos = SubPos { x: gx, y: gy };
    eye_b.is_child = true;
    eye_b.visible = true;
    let child_b = state.registry.spawn(eye_b);
    let ghost reg2 = state.registry;

    let mut rec = EntityRec::empty();
    rec.alive = true;
    rec.pos = SubPos { x: gx, y: gy };
    rec.vel = Some(Velocity { x: 0, y: 0 });
    rec.bbox = Some(BoundingBox { width: PLAYER_WIDTH, height: PLAYER_HEIGHT });
    rec.inventory = Some(Inventory::new(PLAYER_SLOT_COUNT, true));
    rec.player = Some(Player { current_hotbar_index: 0 });
    rec.visible = true;
    let pid = state.registry.spawn(rec);

    let ghost reg3 = state.registry;
    proof {
        assert forall|id2: int| 0 <= id2 < state.registry.recs.len()
            implies spec_rec_wf(#[trigger] state.registry.recs[id2]) by {
            if id2 == pid as int {
            } else {
                assert(reg3.recs[id2] == reg2.recs[id2]);
                if id2 == child_b as int {
                } else {
                    assert(reg2.recs[id2] == reg1.recs[id2]);
                    if id2 == child_a as int {
                    } else {
                        assert(reg1.recs[id2] == reg0.recs[id2]);
                    }
                }
            }
        }
    }
    state.registry.recs[pid].children.push(child_a);
    state.registry.recs[pid].children.push(child_b);
    state.player_id = Some(pid);
    proof {
        assert(state.registry.recs[pid as int].children@ =~= seq![child_a, child_b]);
        assert forall|id2: int| 0 <= id2 < state.registry.recs.len()
            implies spec_rec_wf(#[trigger] state.registry.recs[id2]) by {
            if id2 == pid as int {
                assert(spec_rec_wf(reg3.recs[id2]));
            } else {
                assert(state.registry.recs[id2] == reg3.recs[id2]);
                assert(spec_rec_wf(reg3.recs[id2]));
            }
        }
        assert(state.registry.wf());
        assert(state.wf());
        assert forall|j: int|
            old(state).registry.spec_alive(j) implies state.registry.recs[j] == old(
            state,
        ).registry.recs[j] by {
            assert(j != pid as int && j != child_a as int && j != child_b as int);
            assert(state.registry.recs[j] == reg3.recs[j]);
            assert(reg3.recs[j] == reg2.recs[j]);
            assert(reg2.recs[j] == reg1.recs[j]);
            assert(reg1.recs[j] == reg0.recs[j]);
        }
        if old(state).registry.free@.len() == 0 && spec_inventories_homogeneous(*old(state)) {
            assert(state.registry.free@.len() == 0);
            assert forall|hid: int, si: int, k: int|
                spec_holder_indexes(*state, hid, si, k) implies #[trigger] spec_slot_member_ok(
                *state,
                hid,
                si,
                k,
            ) by {
                if hid == pid as int {
                    assert(state.registry.recs[hid].inventory->Some_0.item_slots@[si] is None);
                } else if hid == child_a as int || hid == child_b as int {
                    assert(state.registry.recs[hid].inventory is None);
                } else {
                    assert(state.registry.recs[hid] == reg0.recs[hid]);
                    assert(spec_holder_indexes(*old(state), hid, si, k));
                    assert(spec_slot_member_ok(*old(state), hid, si, k));
                    let m = reg0.recs[hid].inventory->Some_0.item_slots@[si]->Some_0.items@[k]
                        as int;
                    assert(state.registry.recs[m] == reg0.recs[m]);
                }
            }
        }
        if spec_tiles_indexed(*old(state)) && spec_tiles_unique(*old(state)) {
            assert(state.registry.recs[pid as int].tile_pos is None);
            assert(state.registry.recs[child_a as int].tile_pos is None);
            assert(state.registry.recs[child_b as int].tile_pos is None);
            assert forall|id2: int|
                0 <= id2 < state.registry.recs.len() && state.registry.recs[id2].alive
                    && (#[trigger] state.registry.recs[id2].tile_pos) is Some implies {
                let p = state.registry.recs[id2].tile_pos->Some_0;
                &&& p.x < state.tile_map.width
                &&& p.y < state.tile_map.height
                &&& state.tile_map.spec_occupied(p.x as int, p.y as int)
            } by {
                assert(state.registry.recs[id2] == reg0.recs[id2]);
                assert(old(state).registry.spec_alive(id2));
            }
            assert forall|id1: int, id2: int|
                #![trigger state.registry.recs[id1].tile_pos, state.registry.recs[id2].tile_pos]
                0 <= id1 < state.registry.recs.len() && 0 <= id2 < state.registry.recs.len()
                    && state.registry.recs[id1].alive && state.registry.recs[id2].alive
                    && state.registry.recs[id1].tile_pos is Some
                    && state.registry.recs[id2].tile_pos is Some
                    && state.registry.recs[id1].tile_pos == state.registry.recs[id2].tile_pos
                implies id1 == id2 by {
                assert(state.registry.recs[id1] == reg0.recs[id1]);
                assert(state.registry.recs[id2] == reg0.recs[id2]);
                assert(old(state).registry.spec_alive(id1));
                assert(old(state).registry.spec_alive(id2));
            }
        }
    }
}

/// Builds a level from a sampled noise field: generates the tile set and
/// spawn point, materializes the tiles into a fresh grid and registry,
/// spawns the player at the entry cell, and computes every tile's
/// edge-aware appearance.
pub fn load_level(field: &NoiseField, params: MovementParams) -> (state: SimState)
    requires
        field.wf(),
        params.wf(),
    ensures
        state.wf(),
        state.tile_map.width == field.width,
        state.tile_map.height == field.height,
        forall|x: int, y: int|
            0 <= x < field.width && 0 <= y < field.height ==> state.tile_map.spec_occupied(x, y)
                == exists|i: int|
                0 <= i < spec_tiles(*field).len() && (#[trigger] spec_tiles(
                    *field,
                )[i]).tile_pos.x == x && spec_tiles(*field)[i].tile_pos.y == y,
        forall|x: int, y: int|
            0 <= x < field.width && 0 <= y < field.height
                ==> state.tile_map.spec_occupied(x, y) == spec_emits(*field, x, y),
        state.player_id is Some,
        ({
            let pid = state.player_id->Some_0 as int;
            let rec = state.registry.recs[pid];
            &&& state.registry.spec_alive(pid)
            &&& rec.pos.x == spec_spawn(*field).pos.x * SUB + (field.width as int) * (TILE_SUB / 2)
            &&& rec.pos.y == spec_spawn(*field).pos.y * SUB + (field.height as int) * (TILE_SUB
                / 2)
        }),
        forall|x: int, y: int|
            0 <= x < field.width && 0 <= y < field.height && state.tile_map.spec_occupied(x, y)
                ==> #[trigger] spec_tile_entity_at(state, x, y),
        spec_tiles_indexed(state),
        spec_tiles_unique(state),
        spec_inventories_homogeneous(state),
{
    let (tiles, spawn) = generate(field);
    let mut state = SimState {
        tile_map: TileMap::new(field.width, field.height),
        registry: Registry::new(),
        damage_events: Vec::new(),
        drop_events: Vec::new(),
        pickup_events: Vec::new(),
        player_id: None,
        params,
        flip_x: false,
    };
    proof {
        assert(spec_tiles_indexed(state) && spec_tiles_unique(state));
        assert(spec_inventories_homogeneous(state));
        assert(state.registry.free@.len() == 0);
    }
    let ghost fresh = state;
    tile_spawner(&mut state, &tiles);
    let ghost after_tiles = state;
    spawn_player(&mut state, spawn);
    let ghost after_player = state;
    update_tile_textures(&mut state);
    proof {
        lemma_tiles_are_the_land_cells(*field);
        assert forall|x: int, y: int|
            0 <= x < field.width && 0 <= y < field.height && state.tile_map.spec_occupied(x, y)
            implies #[trigger] spec_tile_entity_at(state, x, y) by {
            assert(!fresh.tile_map.spec_occupied(x, y));
            assert(spec_tile_entity_at(after_tiles, x, y));
            let tid = choose|tid: int|
                0 <= tid < after_tiles.registry.recs.len() && #[trigger] spec_tile_rec(
                    after_tiles,
                    tid,
                    x,
                    y,
                );
            assert(after_tiles.registry.spec_alive(tid));
            assert(after_player.registry.recs[tid] == after_tiles.registry.recs[tid]);
            let m = after_tiles.registry.recs[tid].inventory->Some_0
                .item_slots@[0]->Some_0.items@[0] as int;
            assert(after_tiles.registry.spec_alive(m));
            assert(after_player.registry.recs[m] == after_tiles.registry.recs[m]);
            assert(spec_tile_rec(after_player, tid, x, y));
            assert(state.registry.recs[tid] == (EntityRec {
                appearance: state.registry.recs[tid].appearance,
                ..after_player.registry.recs[tid]
            }));
            assert(state.registry.recs[m] == (EntityRec {
                appearance: state.registry.recs[m].appearance,
                ..after_player.registry.recs[m]
            }));
            assert(spec_tile_rec(state, tid, x, y));
        }
    }
    state
}


/// The hotbar slot index the input selects: the lowest-numbered hotbar
/// control that was just pressed, else the current index.
pub open spec fn spec_hotbar_choice(input: InputState, current: int) -> int {
    if input.hotbar_just_pressed[0] {
        0
    } else if input.hotbar_just_pressed[1] {
        1
    } else if input.hotbar_just_pressed[2] {
        2
    } else if input.hotbar_just_pressed[3] {
        3
    } else if input.hotbar_just_pressed[4] {
        4
    } else if input.hotbar_just_pressed[5] {
        5
    } else if input.hotbar_just_pressed[6] {
        6
    } else if input.hotbar_just_pressed[7] {
        7
    } else if input.hotbar_just_pressed[8] {
        8
    } else if input.hotbar_just_pressed[9] {
        9
    } else {
        current
    }
}

/// Everything the hotbar-selection system does: with a live player, the
/// lowest-numbered just-pressed hotbar control becomes the selection,
/// else it is kept; nothing else changes.
pub open spec fn spec_hotbar_index_post(pre: SimState, input: InputState, post: SimState) -> bool {
    &&& (post.wf())
    &&& (post.tile_map == pre.tile_map)
    &&& (post.registry.recs.len() == pre.registry.recs.len())
    &&& (post.damage_events == pre.damage_events)
    &&& (post.drop_events == pre.drop_events)
    &&& (post.pickup_events == pre.pickup_events)
    &&& (post.player_id == pre.player_id)
    &&& (post.params == pre.params)
    &&& (post.flip_x == pre.flip_x)
    &&& (({
            let pid = pre.player_id->Some_0 as int;
            if pre.player_id is Some && pre.registry.spec_alive(pid) && pre.registry.recs[pid].player is Some {
                let cur = pre.registry.recs[pid].player->Some_0.current_hotbar_index as int;
                &&& post.registry.recs[pid] == (EntityRec {
                    player: Some(
                        Player {
                            current_hotbar_index: spec_hotbar_choice(input, cur) as usize,
                        },
                    ),
                    ..pre.registry.recs[pid]
                })
                &&& forall|j: int| 0 <= j < pre.registry.recs.len() && j != pid
                    ==> post.registry.recs[j] == pre.registry.recs[j]
            } else {
                post == pre
            }
        }))
}

/// Selects the hotbar slot the just-pressed hotbar controls ask for,
/// keeping the current selection when none was pressed.
pub fn update_current_hotbar_index(state: &mut SimState, input: &InputState)
    requires
        old(state).wf(),
    ensures
        spec_hotbar_index_post(*old(state), *input, *final(state)),
{
    let pid = match state.player_id {
        Some(p) => p,
        None => {
            return ;
        },
    };
    if !state.registry.recs[pid].alive {
        return ;
    }
    let cur = match state.registry.recs[pid].player {
        Some(p) => p.current_hotbar_index,
        None => {
            return ;
        },
    };
    let mut choice: usize = cur;
    if input.hotbar_just_pressed[0] {
        choice = 0;
    } else if input.hotbar_just_pressed[1] {
        choice = 1;
    } else if input.hotbar_just_pressed[2] {
        choice = 2;
    } else if input.hotbar_just_pressed[3] {
        choice = 3;
    } else if input.hotbar_just_pressed[4] {
        choice = 4;
    } else if input.hotbar_just_pressed[5] {
        choice = 5;
    } else if input.hotbar_just_pressed[6] {
        choice = 6;
    } else if input.hotbar_just_pressed[7] {
        choice = 7;
    } else if input.hotbar_just_pressed[8] {
        choice = 8;
    } else if input.hotbar_just_pressed[9] {
        choice = 9;
    }
    state.registry.recs[pid].player = Some(Player { current_hotbar_index: choice });
}

/// Everything the hotbar-scroll system does: with a live player and a
/// nonzero scroll, the selection moves by the scrolled lines, wrapping
/// around the ten slots; nothing else changes.
pub open spec fn spec_hotbar_scroll_post(pre: SimState, input: InputState, post: SimState) -> bool {
    &&& (post.wf())
    &&& (post.tile_map == pre.tile_map)
    &&& (post.registry.recs.len() == pre.registry.recs.len())
    &&& (post.damage_events == pre.damage_events)
    &&& (post.drop_events == pre.drop_events)
    &&& (post.pickup_events == pre.pickup_events)
    &&& (post.player_id == pre.player_id)
    &&& (post.params == pre.params)
    &&& (post.flip_x == pre.flip_x)
    &&& (({
            let pid = pre.player_id->Some_0 as int;
            if pre.player_id is Some && pre.registry.spec_alive(pid) && pre.registry.recs[pid].player is Some && input.scroll_lines != 0 {
                let cur = pre.registry.recs[pid].player->Some_0.current_hotbar_index as int;
                let idx = (cur - input.scroll_lines) % (PLAYER_SLOT_COUNT as int);
                &&& post.registry.recs[pid] == (EntityRec {
                    player: Some(Player { current_hotbar_index: idx as usize }),
                    ..pre.registry.recs[pid]
                })
                &&& forall|j: int| 0 <= j < pre.registry.recs.len() && j != pid
                    ==> post.registry.recs[j] == pre.registry.recs[j]
            } else {
                post == pre
            }
        }))
}

/// Scrolls the hotbar selection: one line down moves one slot forward,
/// wrapping around the ten slots in either direction.
pub fn hotbar_scrolling(state: &mut SimState, input: &InputState)
    requires
        old(state).wf(),
        -1000000000 <= input.scroll_lines <= 1000000000,
    ensures
        spec_hotbar_scroll_post(*old(state), *input, *final(state)),
{
    let pid = match state.player_id {
        Some(p) => p,
        None => {
            return ;
        },
    };
    if !state.registry.recs[pid].alive {
        return ;
    }
    let cur = match state.registry.recs[pid].player {
        Some(p) => p.current_hotbar_index,
        None => {
            return ;
        },
    };
    if input.scroll_lines == 0 {
        return ;
    }
    let t: i64 = cur as i64 - input.scroll_lines;
    let shifted: u64 = (t + 10000000000) as u64;
    let idx = (shifted % 10) as usize;
    proof {
        vstd::arithmetic::div_mod::lemma_mod_multiples_vanish(1000000000, t as int, 10);
    }
    state.registry.recs[pid].player = Some(Player { current_hotbar_index: idx });
}

/// Everything the drop-control system does: on a just-pressed drop with
/// a live player, one drop event per item in the selected hotbar slot
/// is enqueued; otherwise the queue is kept.
pub open spec fn spec_drop_item_post(pre: SimState, input: InputState, post: SimState) -> bool {
    &&& (post.wf())
    &&& (post.tile_map == pre.tile_map)
    &&& (post.registry == pre.registry)
    &&& (post.damage_events == pre.damage_events)
    &&& (post.pickup_events == pre.pickup_events)
    &&& (post.player_id == pre.player_id)
    &&& (post.params == pre.params)
    &&& (post.flip_x == pre.flip_x)
    &&& (({
            let pid = pre.player_id->Some_0 as int;
            if input.drop_just_pressed && pre.player_id is Some && pre.registry.spec_alive(pid) && pre.registry.recs[pid].player is Some && pre.registry.recs[pid].inventory is Some {
                let inv = pre.registry.recs[pid].inventory->Some_0;
                let slot = pre.registry.recs[pid].player->Some_0.current_hotbar_index as int;
                let n = if slot < inv.item_slots@.len() {
                    crate::inventory::spec_slot_len(inv.item_slots@[slot])
                } else {
                    0
                };
                post.drop_events@ == pre.drop_events@
                    + crate::combat::spec_repeat_event(
                    pre.player_id->Some_0,
                    slot,
                    n,
                )
            } else {
                post.drop_events == pre.drop_events
            }
        }))
}

/// On a just-pressed drop control, enqueues one drop event per item in
/// the player's currently selected hotbar slot.
pub fn drop_item(state: &mut SimState, input: &InputState)
    requires
        old(state).wf(),
    ensures
        spec_drop_item_post(*old(state), *input, *final(state)),
{
    if !input.drop_just_pressed {
        return ;
    }
    let pid = match state.player_id {
        Some(p) => p,
        None => {
            return ;
        },
    };
    if !state.registry.recs[pid].alive {
        return ;
    }
    let slot = match state.registry.recs[pid].player {
        Some(p) => p.current_hotbar_index,
        None => {
            return ;
        },
    };
    let n: usize = match &state.registry.recs[pid].inventory {
        Some(inv) => {
            if slot < inv.item_slots.len() {
                match &inv.item_slots[slot] {
                    Some(st) => st.items.len(),
                    None => 0,
                }
            } else {
                0
            }
        },
        None => {
            return ;
        },
    };
    let ghost base = state.drop_events@;
    let mut k: usize = 0;
    while k < n
        invariant
            state.wf(),
            k <= n,
            pid < state.registry.recs.len(),
            state.drop_events@ == base + crate::combat::spec_repeat_event(pid, slot as int, k as int),
            state.tile_map == old(state).tile_map,
            state.registry == old(state).registry,
            state.damage_events == old(state).damage_events,
            state.pickup_events == old(state).pickup_events,
            state.player_id == old(state).player_id,
            state.params == old(state).params,
            state.flip_x == old(state).flip_x,
        decreases n - k,
    {
        state.drop_events.push(ItemDropEvent { inventory_id: pid, item_slot: slot });
        proof {
            assert(state.drop_events@ =~= base + crate::combat::spec_repeat_event(
                pid,
                slot as int,
                k as int + 1,
            ));
        }
        k = k + 1;
    }
}

/// On a held attack control, flips the player sprite toward the mouse
/// and deals one hit of damage to the first entity whose tile-sized box
/// contains the mouse position.
#[verifier::rlimit(60)]
/// Everything the attack system does: while the control is held, the
/// first entity whose tile-sized box contains the mouse receives one
/// damage event, and the sprite faces the mouse; otherwise nothing
/// changes.
pub open spec fn spec_attack_post(pre: SimState, input: InputState, post: SimState) -> bool {
    &&& (post.wf())
    &&& (post.tile_map == pre.tile_map)
    &&& (post.registry == pre.registry)
    &&& (post.drop_events == pre.drop_events)
    &&& (post.pickup_events == pre.pickup_events)
    &&& (post.player_id == pre.player_id)
    &&& (post.params == pre.params)
    &&& (!input.attack_pressed ==> post == pre)
    &&& (input.attack_pressed ==> {
            ||| (exists|i: int|
                {
                    &&& 0 <= i < pre.registry.recs.len()
                    &&& spec_attack_hit(pre, input, i)
                    &&& (forall|k: int| 0 <= k < i ==> !spec_attack_hit(pre, input, k))
                    &&& post.damage_events@ == pre.damage_events@.push(
                        DamageDealtEvent { damage_dealt: ATTACK_DAMAGE, target_id: i as usize },
                    )
                })
            ||| ((forall|k: int|
                0 <= k < pre.registry.recs.len() ==> !spec_attack_hit(
                    pre,
                    input,
                    k,
                )) && post.damage_events == pre.damage_events)
        })
}

pub fn attack(state: &mut SimState, input: &InputState)
    requires
        old(state).wf(),
        -POS_LIMIT <= input.mouse.x <= POS_LIMIT,
        -POS_LIMIT <= input.mouse.y <= POS_LIMIT,
    ensures
        spec_attack_post(*old(state), *input, *final(state)),
{
    if !input.attack_pressed {
        return ;
    }
    match state.player_id {
        Some(pid) => {
            if state.registry.recs[pid].alive {
                let px = state.registry.recs[pid].pos.x;
                if input.mouse.x < px {
                    state.flip_x = true;
                } else if input.mouse.x > px {
                    state.flip_x = false;
                }
            }
        },
        None => {},
    }
    let n = state.registry.recs.len();
    let mut i: usize = 0;
    while i < n
        invariant
            state.wf(),
            n == state.registry.recs.len(),
            i <= n,
            -POS_LIMIT <= input.mouse.x <= POS_LIMIT,
            -POS_LIMIT <= input.mouse.y <= POS_LIMIT,
            input.attack_pressed,
            forall|k: int| 0 <= k < i ==> !spec_attack_hit(*old(state), *input, k),
            state.registry == old(state).registry,
            state.tile_map == old(state).tile_map,
            state.damage_events == old(state).damage_events,
            state.drop_events == old(state).drop_events,
            state.pickup_events == old(state).pickup_events,
            state.player_id == old(state).player_id,
            state.params == old(state).params,
        decreases n - i,
    {
        if state.registry.recs[i].alive {
            let epos = state.registry.recs[i].pos;
            if aabb_overlap(input.mouse, SUB, SUB, epos, TILE_SUB, TILE_SUB) {
                state.damage_events.push(
                    DamageDealtEvent { damage_dealt: ATTACK_DAMAGE, target_id: i },
                );
                proof {
                    assert(spec_attack_hit(*old(state), *input, i as int));
                }
                return ;
            }
            proof {
                assert(!spec_attack_hit(*old(state), *input, i as int));
            }
        } else {
            proof {
                assert(!spec_attack_hit(*old(state), *input, i as int));
            }
        }
        i = i + 1;
    }
}

/// Whether the mouse point, as a pixel-sized box, overlaps the
/// tile-sized box centered on entity `i`.
pub open spec fn spec_attack_hit(state: SimState, input: InputState, i: int) -> bool {
    &&& state.registry.spec_alive(i)
    &&& spec_aabb_overlap(
        input.mouse,
        SUB as int,
        SUB as int,
        state.registry.recs[i].pos,
        TILE_SUB as int,
        TILE_SUB as int,
    )
}


/// Whether the damage event finds a live target with health; an absent
/// target is skipped without error.
pub open spec fn spec_damage_target_valid(state: SimState, ev: DamageDealtEvent) -> bool {
    &&& state.registry.spec_alive(ev.target_id as int)
    &&& state.registry.recs[ev.target_id as int].health is Some
}

/// Everything one damage event does to the state: on a live target
/// with health, exactly its health field takes the clipped subtraction,
/// and when the result is zero or below and the target carries an
/// inventory, the drop queue is extended by one event per item the
/// inventory holds; a missing target changes nothing. Stack
/// homogeneity is preserved.
pub open spec fn spec_apply_damage_post(pre: SimState, ev: DamageDealtEvent, post: SimState) -> bool {
    &&& post.wf()
    &&& post.tile_map == pre.tile_map
    &&& post.registry.recs.len() == pre.registry.recs.len()
    &&& post.damage_events == pre.damage_events
    &&& post.pickup_events == pre.pickup_events
    &&& post.player_id == pre.player_id
    &&& post.params == pre.params
    &&& post.flip_x == pre.flip_x
    &&& (!spec_damage_target_valid(pre, ev) ==> post == pre)
    &&& (spec_damage_target_valid(pre, ev) ==> ({
        let t = ev.target_id as int;
        let rec = pre.registry.recs[t];
        let h1 = spec_sub_clip(rec.health->Some_0.0 as int, ev.damage_dealt as int);
        &&& post.registry.recs[t] == (EntityRec { health: Some(Health(h1 as i64)), ..rec })
        &&& (forall|j: int|
            0 <= j < pre.registry.recs.len() && j != t ==> post.registry.recs[j]
                == pre.registry.recs[j])
        &&& post.drop_events@ == if h1 <= 0 && rec.inventory is Some {
            pre.drop_events@ + spec_drop_events_for(
                rec.inventory->Some_0.item_slots@,
                ev.target_id,
            )
        } else {
            pre.drop_events@
        }
    }))
    &&& (forall|j: int| post.registry.spec_alive(j) == pre.registry.spec_alive(j))
    &&& (spec_inventories_homogeneous(pre) ==> spec_inventories_homogeneous(post))
}

/// Applies one damage event: subtracts the damage from the target's
/// health, and when the result is zero or below and the target carries
/// an inventory, enqueues one drop event per item the inventory holds.
/// A missing target leaves the state untouched.
pub fn apply_damage_event(state: &mut SimState, ev: DamageDealtEvent)
    requires
        old(state).wf(),
    ensures
        spec_apply_damage_post(*old(state), ev, *final(state)),
{
    let t = ev.target_id;
    if t >= state.registry.recs.len() {
        return ;
    }
    if !state.registry.recs[t].alive {
        return ;
    }
    let h0 = match state.registry.recs[t].health {
        Some(Health(v)) => v,
        None => {
            return ;
        },
    };
    let h1 = sub_saturating(h0, ev.damage_dealt);
    state.registry.recs[t].health = Some(Health(h1));
    if h1 <= 0 {
        let evs: Option<Vec<ItemDropEvent>> = match &state.registry.recs[t].inventory {
            Some(inv) => Some(emit_drop_events(inv, t)),
            None => None,
        };
        match evs {
            Some(mut new_events) => {
                let ghost base = state.drop_events@;
                let ghost added = new_events@;
                state.drop_events.append(&mut new_events);
                assert(state.drop_events@ =~= base + added);
            },
            None => {},
        }
    }
    proof {
        if spec_inventories_homogeneous(*old(state)) {
            lemma_homogeneity_under_field_edits(*old(state), *state);
        }
    }
}

/// Stack homogeneity transfers between two states whose registries have
/// equal lengths, equal liveness, and record-wise equal inventories and
/// item kinds.
proof fn lemma_homogeneity_under_field_edits(pre: SimState, post: SimState)
    requires
        post.registry.recs.len() == pre.registry.recs.len(),
        forall|j: int|
            0 <= j < pre.registry.recs.len() ==> (#[trigger] post.registry.recs[j]).alive
                == pre.registry.recs[j].alive,
        forall|j: int|
            0 <= j < pre.registry.recs.len() ==> (#[trigger] post.registry.recs[j]).inventory
                == pre.registry.recs[j].inventory,
        forall|j: int|
            0 <= j < pre.registry.recs.len() ==> (#[trigger] post.registry.recs[j]).item_kind
                == pre.registry.recs[j].item_kind,
        spec_inventories_homogeneous(pre),
    ensures
        spec_inventories_homogeneous(post),
{
    assert forall|id: int, si: int, k: int|
        spec_holder_indexes(post, id, si, k) implies #[trigger] spec_slot_member_ok(
        post,
        id,
        si,
        k,
    ) by {
        assert(spec_holder_indexes(pre, id, si, k));
        assert(spec_slot_member_ok(pre, id, si, k));
    }
}

/// The damage pipeline fold: `post` results from applying one
/// `spec_apply_damage_post` step per event of `events`, in order,
/// starting from `pre`.
pub open spec fn spec_damage_chain(
    pre: SimState,
    events: Seq<DamageDealtEvent>,
    post: SimState,
) -> bool
    decreases events.len(),
{
    if events.len() == 0 {
        post == pre
    } else {
        exists|mid: SimState|
            #[trigger] spec_apply_damage_post(pre, events.first(), mid) && spec_damage_chain(
                mid,
                events.drop_first(),
                post,
            )
    }
}

/// Extending a damage fold by one more applied event.
pub proof fn lemma_damage_chain_snoc(
    pre: SimState,
    events: Seq<DamageDealtEvent>,
    mid: SimState,
    ev: DamageDealtEvent,
    post: SimState,
)
    requires
        spec_damage_chain(pre, events, mid),
        spec_apply_damage_post(mid, ev, post),
    ensures
        spec_damage_chain(pre, events.push(ev), post),
    decreases events.len(),
{
    let snoc = events.push(ev);
    if events.len() == 0 {
        assert(mid == pre);
        assert(snoc.first() == ev);
        assert(snoc.drop_first() =~= Seq::<DamageDealtEvent>::empty());
        assert(spec_damage_chain(post, snoc.drop_first(), post));
        assert(spec_apply_damage_post(pre, snoc.first(), post));
    } else {
        let m1 = choose|m1: SimState|
            #[trigger] spec_apply_damage_post(pre, events.first(), m1) && spec_damage_chain(
                m1,
                events.drop_first(),
                mid,
            );
        lemma_damage_chain_snoc(m1, events.drop_first(), mid, ev, post);
        assert(snoc.first() == events.first());
        assert(snoc.drop_first() =~= events.drop_first().push(ev));
        assert(spec_apply_damage_post(pre, snoc.first(), m1));
        assert(spec_damage_chain(m1, snoc.drop_first(), post));
    }
}

/// Everything `on_damage_dealt` promises: some start state equal to the
/// old one except for an already emptied damage queue leads to the
/// final state by the in-order fold of the pending damage events.
pub open spec fn spec_on_damage_dealt_post(pre: SimState, post: SimState) -> bool {
    exists|start: SimState|
        #[trigger] spec_damage_chain(start, pre.damage_events@, post) && start == (SimState {
            damage_events: start.damage_events,
            ..pre
        }) && start.damage_events@.len() == 0
}

/// Processes every pending damage event, in order, then clears the
/// queue; each event is consumed exactly once.
pub fn on_damage_dealt(state: &mut SimState)
    requires
        old(state).wf(),
    ensures
        final(state).wf(),
        final(state).tile_map == old(state).tile_map,
        final(state).registry.recs.len() == old(state).registry.recs.len(),
        final(state).damage_events@.len() == 0,
        final(state).pickup_events == old(state).pickup_events,
        final(state).player_id == old(state).player_id,
        final(state).params == old(state).params,
        forall|j: int| final(state).registry.spec_alive(j) == old(state).registry.spec_alive(j),
        spec_on_damage_dealt_post(*old(state), *final(state)),
        spec_inventories_homogeneous(*old(state)) ==> spec_inventories_homogeneous(*final(state)),
{
    let mut events: Vec<DamageDealtEvent> = Vec::new();
    core::mem::swap(&mut events, &mut state.damage_events);
    let ghost start = *state;
    proof {
        assert(events@ == old(state).damage_events@);
        assert(start == (SimState { damage_events: start.damage_events, ..*old(state) }));
        assert(events@.take(0) =~= Seq::<DamageDealtEvent>::empty());
    }
    let n = events.len();
    let mut i: usize = 0;
    while i < n
        invariant
            state.wf(),
            n == events@.len(),
            i <= n,
            state.tile_map == old(state).tile_map,
            state.registry.recs.len() == old(state).registry.recs.len(),
            state.damage_events@.len() == 0,
            state.pickup_events == old(state).pickup_events,
            state.player_id == old(state).player_id,
            state.params == old(state).params,
            forall|j: int| state.registry.spec_alive(j) == old(state).registry.spec_alive(j),
            spec_damage_chain(start, events@.take(i as int), *state),
            spec_inventories_homogeneous(start) ==> spec_inventories_homogeneous(*state),
        decreases n - i,
    {
        let ghost cur = *state;
        apply_damage_event(state, events[i]);
        proof {
            lemma_damage_chain_snoc(start, events@.take(i as int), cur, events@[i as int], *state);
            assert(events@.take(i as int).push(events@[i as int]) =~= events@.take(i as int + 1));
        }
        i = i + 1;
    }
    proof {
        assert(events@.take(n as int) =~= events@);
        assert(spec_damage_chain(start, old(state).damage_events@, *state));
        assert(start == (SimState { damage_events: start.damage_events, ..*old(state) }));
        assert(start.damage_events@.len() == 0);
        assert(spec_on_damage_dealt_post(*old(state), *state));
        if spec_inventories_homogeneous(*old(state)) {
            lemma_homogeneity_under_field_edits(*old(state), start);
        }
    }
}

/// Whether entity `t` is due for destruction this sweep: live, with
/// health at or below zero.
pub open spec fn spec_doomed(state: SimState, t: int) -> bool {
    &&& state.registry.spec_alive(t)
    &&& state.registry.recs[t].health is Some
    &&& state.registry.recs[t].health->Some_0.0 <= 0
}

/// Everything the death sweep promises: every doomed entity dies;
/// nothing comes alive; survivors keep their records unchanged; and a
/// live entity with positive or absent health that no doomed entity
/// lists as a child survives — a sweep may not destroy the healthy.
pub open spec fn spec_remove_dead_post(pre: SimState, post: SimState) -> bool {
    &&& post.wf()
    &&& post.tile_map == pre.tile_map
    &&& post.registry.recs.len() == pre.registry.recs.len()
    &&& post.damage_events == pre.damage_events
    &&& post.drop_events == pre.drop_events
    &&& post.pickup_events == pre.pickup_events
    &&& post.player_id == pre.player_id
    &&& post.params == pre.params
    &&& post.flip_x == pre.flip_x
    &&& (forall|j: int| spec_doomed(pre, j) ==> !post.registry.spec_alive(j))
    &&& (forall|j: int| post.registry.spec_alive(j) ==> pre.registry.spec_alive(j))
    &&& (forall|j: int| post.registry.spec_alive(j) ==> post.registry.recs[j]
        == pre.registry.recs[j])
    &&& (forall|j: int|
        pre.registry.spec_alive(j) && !spec_doomed(pre, j) && !(exists|t: int|
            #[trigger] spec_doomed(pre, t) && pre.registry.spec_child_of(t, j))
            ==> post.registry.spec_alive(j))
}

/// The death sweep: destroys every entity whose health is zero or
/// below, together with its attached children, regardless of whether a
/// damage event targeted it this step.
pub fn remove_dead_entities(state: &mut SimState)
    requires
        old(state).wf(),
    ensures
        final(state).wf(),
        final(state).tile_map == old(state).tile_map,
        final(state).registry.recs.len() == old(state).registry.recs.len(),
        final(state).damage_events == old(state).damage_events,
        final(state).drop_events == old(state).drop_events,
        final(state).pickup_events == old(state).pickup_events,
        final(state).player_id == old(state).player_id,
        final(state).params == old(state).params,
        forall|j: int|
            old(state).registry.spec_alive(j) && old(state).registry.recs[j].health is Some && old(
                state,
            ).registry.recs[j].health->Some_0.0 <= 0 ==> !final(state).registry.spec_alive(j),
        forall|j: int| final(state).registry.spec_alive(j) ==> old(state).registry.spec_alive(j),
        forall|j: int| final(state).registry.spec_alive(j)
            ==> final(state).registry.recs[j] == old(state).registry.recs[j],
        forall|j: int|
            old(state).registry.spec_alive(j) && !spec_doomed(*old(state), j) && !(exists|t: int|
                #[trigger] spec_doomed(*old(state), t) && old(state).registry.spec_child_of(t, j))
                ==> final(state).registry.spec_alive(j),
        spec_remove_dead_post(*old(state), *final(state)),
        spec_inventories_homogeneous(*old(state)) ==> spec_inventories_homogeneous(*final(state)),
{
    let n = state.registry.recs.len();
    let mut id: usize = 0;
    while id < n
        invariant
            state.wf(),
            n == state.registry.recs.len(),
            id <= n,
            state.tile_map == old(state).tile_map,
            state.registry.recs.len() == old(state).registry.recs.len(),
            state.damage_events == old(state).damage_events,
            state.drop_events == old(state).drop_events,
            state.pickup_events == old(state).pickup_events,
            state.player_id == old(state).player_id,
            state.params == old(state).params,
            state.flip_x == old(state).flip_x,
            forall|j: int|
                0 <= j < id && old(state).registry.spec_alive(j) && old(
                    state,
                ).registry.recs[j].health is Some && old(state).registry.recs[j].health->Some_0.0
                    <= 0 ==> !state.registry.spec_alive(j),
            forall|j: int| state.registry.spec_alive(j) ==> old(state).registry.spec_alive(j),
            forall|j: int| state.registry.spec_alive(j)
                ==> state.registry.recs[j] == old(state).registry.recs[j],
            forall|j: int|
                0 <= j < state.registry.recs.len() ==> (#[trigger] state.registry.recs[j]).item_kind
                    == old(state).registry.recs[j].item_kind,
            forall|j: int|
                0 <= j < state.registry.recs.len() ==> (#[trigger] state.registry.recs[j]).inventory
                    == old(state).registry.recs[j].inventory,
            forall|j: int|
                old(state).registry.spec_alive(j) && !spec_doomed(*old(state), j) && !(exists|
                    t: int,
                |
                    #[trigger] spec_doomed(*old(state), t) && old(state).registry.spec_child_of(
                        t,
                        j,
                    )) ==> state.registry.spec_alive(j),
        decreases n - id,
    {
        let doomed = state.registry.recs[id].alive && match state.registry.recs[id].health {
            Some(Health(v)) => v <= 0,
            None => false,
        };
        if doomed {
            let ghost before = state.registry;
            proof {
                assert(spec_doomed(*old(state), id as int));
            }
            state.registry.destroy_recursive(id);
            proof {
                assert forall|j: int| state.registry.spec_alive(j)
                    implies state.registry.recs[j] == old(state).registry.recs[j] by {
                    assert(before.spec_alive(j));
                    assert(state.registry.recs[j] == before.recs[j] || state.registry.recs[j]
                        == (EntityRec { alive: false, ..before.recs[j] }));
                    assert(state.registry.recs[j].alive);
                    assert(state.registry.recs[j] == before.recs[j]);
                }
                assert forall|j: int|
                    old(state).registry.spec_alive(j) && !spec_doomed(*old(state), j) && !(exists|
                        t: int,
                    |
                        #[trigger] spec_doomed(*old(state), t) && old(
                            state,
                        ).registry.spec_child_of(t, j)) implies state.registry.spec_alive(j) by {
                    assert(before.spec_alive(j));
                    assert(j != id);
                    if before.spec_child_of(id as int, j) {
                        assert(before.recs[id as int].children == old(
                            state,
                        ).registry.recs[id as int].children);
                        assert(old(state).registry.spec_child_of(id as int, j));
                    } else {
                        assert(state.registry.recs[j] == before.recs[j]);
                    }
                }
            }
        }
        id = id + 1;
    }
    proof {
        if spec_inventories_homogeneous(*old(state)) {
            lemma_homogeneity_under_field_edits_dead(*old(state), *state);
        }
    }
}

/// Stack homogeneity transfers to a state whose registry only lost
/// live entities, keeping every record's inventory and item kind.
proof fn lemma_homogeneity_under_field_edits_dead(pre: SimState, post: SimState)
    requires
        post.registry.recs.len() == pre.registry.recs.len(),
        forall|j: int| post.registry.spec_alive(j) ==> pre.registry.spec_alive(j),
        forall|j: int|
            0 <= j < pre.registry.recs.len() ==> (#[trigger] post.registry.recs[j]).inventory
                == pre.registry.recs[j].inventory,
        forall|j: int|
            0 <= j < pre.registry.recs.len() ==> (#[trigger] post.registry.recs[j]).item_kind
                == pre.registry.recs[j].item_kind,
        spec_inventories_homogeneous(pre),
    ensures
        spec_inventories_homogeneous(post),
{
    assert forall|id: int, si: int, k: int|
        spec_holder_indexes(post, id, si, k) implies #[trigger] spec_slot_member_ok(
        post,
        id,
        si,
        k,
    ) by {
        assert(pre.registry.spec_alive(id));
        assert(spec_holder_indexes(pre, id, si, k));
        assert(spec_slot_member_ok(pre, id, si, k));
    }
}


/// The item id a drop from `slot_idx` would pop: the tail of the
/// addressed stack, or nothing for an empty or out-of-range slot.
pub open spec fn spec_dropped_id(inv: Inventory, slot_idx: int) -> Option<usize> {
    if slot_idx >= inv.item_slots@.len() || inv.item_slots@[slot_idx] is None {
        None
    } else {
        Some(inv.item_slots@[slot_idx]->Some_0.items@.last())
    }
}

/// Whether a drop event names a live entity that carries an inventory.
pub open spec fn spec_drop_target_valid(state: SimState, ev: ItemDropEvent) -> bool {
    &&& state.registry.spec_alive(ev.inventory_id as int)
    &&& state.registry.recs[ev.inventory_id as int].inventory is Some
}

/// Everything one drop event does to the state: on a live inventory
/// entity, the addressed slot loses exactly its tail member per
/// `spec_drop_one_post`, the inventory entity changes in no other
/// field, and the popped item — when it names a live, distinct entity —
/// is repositioned at the owner, made visible, tagged as dropped by
/// this owner with the full cooldown, and given the pickup box; every
/// other record is untouched, and a missing entity or empty slot
/// changes nothing. Stack homogeneity is preserved.
pub open spec fn spec_apply_drop_post(pre: SimState, ev: ItemDropEvent, post: SimState) -> bool {
    &&& post.wf()
    &&& post.tile_map == pre.tile_map
    &&& post.registry.recs.len() == pre.registry.recs.len()
    &&& post.damage_events == pre.damage_events
    &&& post.drop_events == pre.drop_events
    &&& post.pickup_events == pre.pickup_events
    &&& post.player_id == pre.player_id
    &&& post.params == pre.params
    &&& post.flip_x == pre.flip_x
    &&& (forall|j: int| post.registry.spec_alive(j) == pre.registry.spec_alive(j))
    &&& (!spec_drop_target_valid(pre, ev) ==> post == pre)
    &&& (spec_drop_target_valid(pre, ev) ==> ({
        let iid = ev.inventory_id as int;
        let inv0 = pre.registry.recs[iid].inventory->Some_0;
        let r = spec_dropped_id(inv0, ev.item_slot as int);
        &&& post.registry.recs[iid].inventory is Some
        &&& Inventory::spec_drop_one_post(
            inv0,
            ev.item_slot as int,
            post.registry.recs[iid].inventory->Some_0,
            r,
        )
        &&& post.registry.recs[iid] == (EntityRec {
            inventory: post.registry.recs[iid].inventory,
            ..pre.registry.recs[iid]
        })
        &&& (r is None ==> (forall|j: int|
            0 <= j < pre.registry.recs.len() && j != iid ==> post.registry.recs[j]
                == pre.registry.recs[j]))
        &&& (r is Some && r->Some_0 < pre.registry.recs.len()
            && pre.registry.recs[r->Some_0 as int].alive && r->Some_0 != ev.inventory_id
            ==> post.registry.recs[r->Some_0 as int] == (EntityRec {
            pos: pre.registry.recs[iid].pos,
            visible: true,
            dropped: Some(DroppedItem::spec_new(ev.inventory_id)),
            bbox: Some(BoundingBox { width: ITEM_PICKUP_SIZE, height: ITEM_PICKUP_SIZE }),
            ..pre.registry.recs[r->Some_0 as int]
        }))
        &&& (r is Some ==> (forall|j: int|
            0 <= j < pre.registry.recs.len() && j != iid && j != r->Some_0
                ==> post.registry.recs[j] == pre.registry.recs[j]))
    }))
    &&& (spec_inventories_homogeneous(pre) ==> spec_inventories_homogeneous(post))
}

/// Applies one drop event: pops one item reference from the tail of the
/// addressed slot, repositions the item at the inventory owner's
/// current position, makes it visible, tags it as dropped by this owner
/// with the fixed pickup delay, and gives it a pickup collision shape.
/// An empty slot, or a missing inventory entity, is a no-op.
pub fn apply_drop_event(state: &mut SimState, ev: ItemDropEvent)
    requires
        old(state).wf(),
    ensures
        spec_apply_drop_post(*old(state), ev, *final(state)),
{
    let iid = ev.inventory_id;
    if iid >= state.registry.recs.len() {
        return ;
    }
    if !state.registry.recs[iid].alive {
        return ;
    }
    if state.registry.recs[iid].inventory.is_none() {
        return ;
    }
    let popped: Option<usize> = match &mut state.registry.recs[iid].inventory {
        Some(inv) => inv.drop_one(ev.item_slot),
        None => None,
    };
    let owner_pos = state.registry.recs[iid].pos;
    match popped {
        Some(item) => {
            if item < state.registry.recs.len() && item != iid && state.registry.recs[item].alive {
                state.registry.recs[item].pos = owner_pos;
                state.registry.recs[item].visible = true;
                state.registry.recs[item].dropped = Some(DroppedItem::new(iid));
                state.registry.recs[item].bbox = Some(
                    BoundingBox { width: ITEM_PICKUP_SIZE, height: ITEM_PICKUP_SIZE },
                );
            }
            proof {
                assert(spec_dropped_id(
                    old(state).registry.recs[iid as int].inventory->Some_0,
                    ev.item_slot as int,
                ) == Some(item));
            }
        },
        None => {
            proof {
                assert(spec_dropped_id(
                    old(state).registry.recs[iid as int].inventory->Some_0,
                    ev.item_slot as int,
                ) is None);
            }
        },
    }
    proof {
        if spec_inventories_homogeneous(*old(state)) {
            let n = state.registry.recs.len() as int;
            assert forall|mm: int| 0 <= mm < n implies #[trigger] state.registry.recs[mm].item_kind
                == old(state).registry.recs[mm].item_kind by {}
            assert forall|id: int, si: int, k: int|
                spec_holder_indexes(*state, id, si, k) implies #[trigger] spec_slot_member_ok(
                *state,
                id,
                si,
                k,
            ) by {
                let inv0 = old(state).registry.recs[iid as int].inventory->Some_0;
                let inv1 = state.registry.recs[iid as int].inventory->Some_0;
                let r = spec_dropped_id(inv0, ev.item_slot as int);
                if id == iid as int {
                    if r is Some && si == ev.item_slot as int {
                        let st0 = inv0.item_slots@[si]->Some_0;
                        assert(inv1.item_slots@[si]->Some_0.items@ == st0.items@.drop_last());
                        assert(inv1.item_slots@[si]->Some_0.items@[k] == st0.items@[k]);
                        assert(spec_holder_indexes(*old(state), id, si, k));
                        assert(spec_slot_member_ok(*old(state), id, si, k));
                    } else {
                        assert(inv1.item_slots@[si] == inv0.item_slots@[si]);
                        assert(spec_holder_indexes(*old(state), id, si, k));
                        assert(spec_slot_member_ok(*old(state), id, si, k));
                    }
                } else {
                    assert(state.registry.recs[id].inventory == old(
                        state,
                    ).registry.recs[id].inventory);
                    assert(spec_holder_indexes(*old(state), id, si, k));
                    assert(spec_slot_member_ok(*old(state), id, si, k));
                }
            }
        }
    }
}

/// The drop pipeline fold: `post` results from applying one
/// `spec_apply_drop_post` step per event of `events`, in order,
/// starting from `pre`.
pub open spec fn spec_drop_chain(pre: SimState, events: Seq<ItemDropEvent>, post: SimState) -> bool
    decreases events.len(),
{
    if events.len() == 0 {
        post == pre
    } else {
        exists|mid: SimState|
            #[trigger] spec_apply_drop_post(pre, events.first(), mid) && spec_drop_chain(
                mid,
                events.drop_first(),
                post,
            )
    }
}

/// Extending a drop fold by one more applied event.
pub proof fn lemma_drop_chain_snoc(
    pre: SimState,
    events: Seq<ItemDropEvent>,
    mid: SimState,
    ev: ItemDropEvent,
    post: SimState,
)
    requires
        spec_drop_chain(pre, events, mid),
        spec_apply_drop_post(mid, ev, post),
    ensures
        spec_drop_chain(pre, events.push(ev), post),
    decreases events.len(),
{
    let snoc = events.push(ev);
    if events.len() == 0 {
        assert(mid == pre);
        assert(snoc.first() == ev);
        assert(snoc.drop_first() =~= Seq::<ItemDropEvent>::empty());
        assert(spec_drop_chain(post, snoc.drop_first(), post));
        assert(spec_apply_drop_post(pre, snoc.first(), post));
    } else {
        let m1 = choose|m1: SimState|
            #[trigger] spec_apply_drop_post(pre, events.first(), m1) && spec_drop_chain(
                m1,
                events.drop_first(),
                mid,
            );
        lemma_drop_chain_snoc(m1, events.drop_first(), mid, ev, post);
        assert(snoc.first() == events.first());
        assert(snoc.drop_first() =~= events.drop_first().push(ev));
        assert(spec_apply_drop_post(pre, snoc.first(), m1));
        assert(spec_drop_chain(m1, snoc.drop_first(), post));
    }
}

/// Everything `on_item_drops` promises: some start state equal to the
/// old one except for an already emptied drop queue leads to the final
/// state by the in-order fold of the pending drop events.
pub open spec fn spec_on_item_drops_post(pre: SimState, post: SimState) -> bool {
    exists|start: SimState|
        #[trigger] spec_drop_chain(start, pre.drop_events@, post) && start == (SimState {
            drop_events: start.drop_events,
            ..pre
        }) && start.drop_events@.len() == 0
}

/// Processes every pending drop event, in order, then clears the queue.
pub fn on_item_drops(state: &mut SimState)
    requires
        old(state).wf(),
    ensures
        final(state).wf(),
        final(state).tile_map == old(state).tile_map,
        final(state).registry.recs.len() == old(state).registry.recs.len(),
        final(state).damage_events == old(state).damage_events,
        final(state).drop_events@.len() == 0,
        final(state).pickup_events == old(state).pickup_events,
        final(state).player_id == old(state).player_id,
        final(state).params == old(state).params,
        forall|j: int| final(state).registry.spec_alive(j) == old(state).registry.spec_alive(j),
        spec_on_item_drops_post(*old(state), *final(state)),
        spec_inventories_homogeneous(*old(state)) ==> spec_inventories_homogeneous(*final(state)),
{
    let mut events: Vec<ItemDropEvent> = Vec::new();
    core::mem::swap(&mut events, &mut state.drop_events);
    let ghost start = *state;
    proof {
        assert(events@ == old(state).drop_events@);
        assert(start == (SimState { drop_events: start.drop_events, ..*old(state) }));
        assert(events@.take(0) =~= Seq::<ItemDropEvent>::empty());
    }
    let n = events.len();
    let mut i: usize = 0;
    while i < n
        invariant
            state.wf(),
            n == events@.len(),
            i <= n,
            state.tile_map == old(state).tile_map,
            state.registry.recs.len() == old(state).registry.recs.len(),
            state.damage_events == old(state).damage_events,
            state.drop_events@.len() == 0,
            state.pickup_events == old(state).pickup_events,
            state.player_id == old(state).player_id,
            state.params == old(state).params,
            forall|j: int| state.registry.spec_alive(j) == old(state).registry.spec_alive(j),
            spec_drop_chain(start, events@.take(i as int), *state),
            spec_inventories_homogeneous(start) ==> spec_inventories_homogeneous(*state),
        decreases n - i,
    {
        let ghost cur = *state;
        apply_drop_event(state, events[i]);
        proof {
            lemma_drop_chain_snoc(start, events@.take(i as int), cur, events@[i as int], *state);
            assert(events@.take(i as int).push(events@[i as int]) =~= events@.take(i as int + 1));
        }
        i = i + 1;
    }
    proof {
        assert(events@.take(n as int) =~= events@);
        assert(spec_drop_chain(start, old(state).drop_events@, *state));
        assert(start == (SimState { drop_events: start.drop_events, ..*old(state) }));
        assert(start.drop_events@.len() == 0);
        assert(spec_on_item_drops_post(*old(state), *state));
        if spec_inventories_homogeneous(*old(state)) {
            lemma_homogeneity_under_field_edits(*old(state), start);
        }
    }
}

/// Everything the cooldown system does: every live dropped item's
/// countdown advances by the elapsed time, stopping at zero; nothing
/// else of any record changes.
pub open spec fn spec_delays_post(pre: SimState, dt_ms: u32, post: SimState) -> bool {
    &&& (post.wf())
    &&& (post.tile_map == pre.tile_map)
    &&& (post.registry.recs.len() == pre.registry.recs.len())
    &&& (post.damage_events == pre.damage_events)
    &&& (post.drop_events == pre.drop_events)
    &&& (post.pickup_events == pre.pickup_events)
    &&& (post.player_id == pre.player_id)
    &&& (post.params == pre.params)
    &&& (post.flip_x == pre.flip_x)
    &&& (forall|j: int| 0 <= j < pre.registry.recs.len()
            ==> post.registry.recs[j] == (EntityRec {
                dropped: post.registry.recs[j].dropped,
                ..pre.registry.recs[j]
            }))
    &&& (forall|j: int|
            {
                let rec = pre.registry.recs[j];
                0 <= j < pre.registry.recs.len() ==> #[trigger] post.registry.recs[j].dropped == if rec.alive && rec.dropped is Some {
                    Some(
                        DroppedItem {
                            owner: rec.dropped->Some_0.owner,
                            pickup_delay_ms: if dt_ms >= rec.dropped->Some_0.pickup_delay_ms {
                                0u32
                            } else {
                                (rec.dropped->Some_0.pickup_delay_ms - dt_ms) as u32
                            },
                        },
                    )
                } else {
                    rec.dropped
                }
            })
}

/// Advances every dropped item's pickup-delay countdown by `dt_ms`.
pub fn update_item_pickup_delays(state: &mut SimState, dt_ms: u32)
    requires
        old(state).wf(),
    ensures
        spec_delays_post(*old(state), dt_ms, *final(state)),
{
    let n = state.registry.recs.len();
    let mut id: usize = 0;
    while id < n
        invariant
            state.wf(),
            n == state.registry.recs.len(),
            id <= n,
            state.tile_map == old(state).tile_map,
            state.registry.recs.len() == old(state).registry.recs.len(),
            state.damage_events == old(state).damage_events,
            state.drop_events == old(state).drop_events,
            state.pickup_events == old(state).pickup_events,
            state.player_id == old(state).player_id,
            state.params == old(state).params,
            state.flip_x == old(state).flip_x,
            forall|j: int| 0 <= j < old(state).registry.recs.len()
                ==> state.registry.recs[j] == (EntityRec {
                    dropped: state.registry.recs[j].dropped,
                    ..old(state).registry.recs[j]
                }),
            forall|j: int|
                {
                    let rec = old(state).registry.recs[j];
                    0 <= j < id ==> #[trigger] state.registry.recs[j].dropped == if rec.alive
                        && rec.dropped is Some {
                        Some(
                            DroppedItem {
                                owner: rec.dropped->Some_0.owner,
                                pickup_delay_ms: if dt_ms >= rec.dropped->Some_0.pickup_delay_ms {
                                    0u32
                                } else {
                                    (rec.dropped->Some_0.pickup_delay_ms - dt_ms) as u32
                                },
                            },
                        )
                    } else {
                        rec.dropped
                    }
                },
            forall|j: int| id <= j < n
                ==> state.registry.recs[j].dropped == old(state).registry.recs[j].dropped,
        decreases n - id,
    {
        if state.registry.recs[id].alive {
            match &mut state.registry.recs[id].dropped {
                Some(d) => {
                    d.tick(dt_ms);
                },
                None => {},
            }
        }
        id = id + 1;
    }
}

/// Whether `collector` may pick up the world item `item` right now:
/// the item is a live dropped item, the collector is live with a
/// collision shape, the self-drop cooldown permits it, and their boxes
/// overlap.
pub open spec fn spec_pickup_eligible(state: SimState, item: int, collector: int) -> bool {
    &&& state.registry.spec_alive(collector)
    &&& state.registry.recs[collector].bbox is Some
    &&& state.registry.spec_alive(item)
    &&& state.registry.recs[item].bbox is Some
    &&& state.registry.recs[item].dropped is Some
    &&& state.registry.recs[item].dropped->Some_0.spec_can_be_collected(collector as usize)
    &&& spec_aabb_overlap(
        state.registry.recs[collector].pos,
        state.registry.recs[collector].bbox->Some_0.width as int,
        state.registry.recs[collector].bbox->Some_0.height as int,
        state.registry.recs[item].pos,
        state.registry.recs[item].bbox->Some_0.width as int,
        state.registry.recs[item].bbox->Some_0.height as int,
    )
}

/// Everything pickup evaluation does: the pickup queue keeps its prefix
/// and gains exactly one event per eligible collector-item pair — the
/// item off cooldown for that collector and their boxes overlapping;
/// nothing else changes.
pub open spec fn spec_intersect_post(pre: SimState, post: SimState) -> bool {
    &&& (post.wf())
    &&& (post.tile_map == pre.tile_map)
    &&& (post.registry == pre.registry)
    &&& (post.damage_events == pre.damage_events)
    &&& (post.drop_events == pre.drop_events)
    &&& (post.player_id == pre.player_id)
    &&& (post.params == pre.params)
    &&& (post.flip_x == pre.flip_x)
    &&& (pre.pickup_events@.len() <= post.pickup_events@.len())
    &&& (forall|k: int| 0 <= k < pre.pickup_events@.len()
            ==> post.pickup_events@[k] == pre.pickup_events@[k])
    &&& (forall|k: int|
            pre.pickup_events@.len() <= k < post.pickup_events@.len() ==> {
                let e = #[trigger] post.pickup_events@[k];
                spec_pickup_eligible(pre, e.item_id as int, e.inventory_id as int)
            })
    &&& (forall|it: int, c: int|
            0 <= it < pre.registry.recs.len() && 0 <= c < pre.registry.recs.len()
                && spec_pickup_eligible(pre, it, c) ==> exists|k: int|
                0 <= k < post.pickup_events@.len() && (#[trigger] post.pickup_events@[k]) == (ItemPickupEvent {
                    item_id: it as usize,
                    inventory_id: c as usize,
                }))
}

/// Scans every collector against every dropped item and enqueues a
/// pickup event for each eligible pair: the item off cooldown for that
/// collector and their collision boxes overlapping.
pub fn intersect_items(state: &mut SimState)
    requires
        old(state).wf(),
    ensures
        spec_intersect_post(*old(state), *final(state)),
{
    let n = state.registry.recs.len();
    let mut collector: usize = 0;
    while collector < n
        invariant
            state.wf(),
            n == state.registry.recs.len(),
            collector <= n,
            state.tile_map == old(state).tile_map,
            state.registry == old(state).registry,
            state.damage_events == old(state).damage_events,
            state.drop_events == old(state).drop_events,
            state.player_id == old(state).player_id,
            state.params == old(state).params,
            state.flip_x == old(state).flip_x,
            old(state).pickup_events@.len() <= state.pickup_events@.len(),
            forall|k: int| 0 <= k < old(state).pickup_events@.len()
                ==> state.pickup_events@[k] == old(state).pickup_events@[k],
            forall|k: int|
                old(state).pickup_events@.len() <= k < state.pickup_events@.len() ==> {
                    let e = #[trigger] state.pickup_events@[k];
                    spec_pickup_eligible(*old(state), e.item_id as int, e.inventory_id as int)
                },
            forall|it: int, c: int|
                0 <= it < n && 0 <= c < collector && spec_pickup_eligible(*old(state), it, c)
                    ==> exists|k: int|
                    0 <= k < state.pickup_events@.len() && (#[trigger] state.pickup_events@[k])
                        == (ItemPickupEvent { item_id: it as usize, inventory_id: c as usize }),
        decreases n - collector,
    {
        if state.registry.recs[collector].alive && state.registry.recs[collector].bbox.is_some() {
            let cpos = state.registry.recs[collector].pos;
            let cbox = match state.registry.recs[collector].bbox {
                Some(b) => b,
                None => BoundingBox { width: 0, height: 0 },
            };
            let mut item: usize = 0;
            while item < n
                invariant
                    state.wf(),
                    n == state.registry.recs.len(),
                    collector < n,
                    item <= n,
                    state.registry.recs[collector as int].alive,
                    state.registry.recs[collector as int].bbox == Some(cbox),
                    cpos == state.registry.recs[collector as int].pos,
                    state.tile_map == old(state).tile_map,
                    state.registry == old(state).registry,
                    state.damage_events == old(state).damage_events,
                    state.drop_events == old(state).drop_events,
                    state.player_id == old(state).player_id,
                    state.params == old(state).params,
                    state.flip_x == old(state).flip_x,
                    old(state).pickup_events@.len() <= state.pickup_events@.len(),
                    forall|k: int| 0 <= k < old(state).pickup_events@.len()
                        ==> state.pickup_events@[k] == old(state).pickup_events@[k],
                    forall|k: int|
                        old(state).pickup_events@.len() <= k < state.pickup_events@.len() ==> {
                            let e = #[trigger] state.pickup_events@[k];
                            spec_pickup_eligible(
                                *old(state),
                                e.item_id as int,
                                e.inventory_id as int,
                            )
                        },
                    forall|it: int, c: int|
                        0 <= it < n && 0 <= c < collector && spec_pickup_eligible(
                            *old(state),
                            it,
                            c,
                        ) ==> exists|k: int|
                            0 <= k < state.pickup_events@.len() && (#[trigger] state
                                .pickup_events@[k]) == (ItemPickupEvent {
                                item_id: it as usize,
                                inventory_id: c as usize,
                            }),
                    forall|it: int|
                        0 <= it < item && spec_pickup_eligible(*old(state), it, collector as int)
                            ==> exists|k: int|
                            0 <= k < state.pickup_events@.len() && (#[trigger] state
                                .pickup_events@[k]) == (ItemPickupEvent {
                                item_id: it as usize,
                                inventory_id: collector,
                            }),
                decreases n - item,
            {
                let ghost evs_top = state.pickup_events@;
                if state.registry.recs[item].alive && state.registry.recs[item].bbox.is_some() {
                    match state.registry.recs[item].dropped {
                        Some(d) => {
                            let ipos = state.registry.recs[item].pos;
                            let ibox = match state.registry.recs[item].bbox {
                                Some(b) => b,
                                None => BoundingBox { width: 0, height: 0 },
                            };
                            if d.can_be_collected(collector) && aabb_overlap(
                                cpos,
                                cbox.width,
                                cbox.height,
                                ipos,
                                ibox.width,
                                ibox.height,
                            ) {
                                state.pickup_events.push(
                                    ItemPickupEvent { item_id: item, inventory_id: collector },
                                );
                                proof {
                                    let k = state.pickup_events@.len() - 1;
                                    assert(state.pickup_events@[k] == (ItemPickupEvent {
                                        item_id: item,
                                        inventory_id: collector,
                                    }));
                                }
                            } else {
                                assert(!spec_pickup_eligible(
                                    *old(state),
                                    item as int,
                                    collector as int,
                                ));
                            }
                        },
                        None => {
                            assert(!spec_pickup_eligible(
                                *old(state),
                                item as int,
                                collector as int,
                            ));
                        },
                    }
                } else {
                    assert(!spec_pickup_eligible(*old(state), item as int, collector as int));
                }
                proof {
                    assert forall|it2: int, c2: int|
                        0 <= it2 < n && 0 <= c2 < collector && spec_pickup_eligible(
                            *old(state),
                            it2,
                            c2,
                        ) implies exists|k: int|
                        0 <= k < state.pickup_events@.len() && (#[trigger] state
                            .pickup_events@[k]) == (ItemPickupEvent {
                            item_id: it2 as usize,
                            inventory_id: c2 as usize,
                        }) by {
                        let k = choose|k: int|
                            0 <= k < evs_top.len() && (#[trigger] evs_top[k]) == (ItemPickupEvent {
                                item_id: it2 as usize,
                                inventory_id: c2 as usize,
                            });
                        assert(state.pickup_events@[k] == evs_top[k]);
                    }
                    assert forall|it2: int|
                        0 <= it2 < item + 1 && spec_pickup_eligible(
                            *old(state),
                            it2,
                            collector as int,
                        ) implies exists|k: int|
                        0 <= k < state.pickup_events@.len() && (#[trigger] state
                            .pickup_events@[k]) == (ItemPickupEvent {
                            item_id: it2 as usize,
                            inventory_id: collector,
                        }) by {
                        if it2 < item {
                            let k = choose|k: int|
                                0 <= k < evs_top.len() && (#[trigger] evs_top[k])
                                    == (ItemPickupEvent {
                                    item_id: it2 as usize,
                                    inventory_id: collector,
                                });
                            assert(state.pickup_events@[k] == evs_top[k]);
                        }
                    }
                }
                item = item + 1;
            }
        } else {
            assert forall|it: int|
                0 <= it < n implies !spec_pickup_eligible(*old(state), it, collector as int) by {
            }
        }
        collector = collector + 1;
    }
}

/// Whether a pickup event names a live item of some kind and a distinct
/// live collector entity carrying an inventory.
pub open spec fn spec_pickup_target_valid(state: SimState, ev: ItemPickupEvent) -> bool {
    &&& state.registry.spec_alive(ev.item_id as int)
    &&& state.registry.recs[ev.item_id as int].item_kind is Some
    &&& state.registry.spec_alive(ev.inventory_id as int)
    &&& state.registry.recs[ev.inventory_id as int].inventory is Some
    &&& ev.item_id != ev.inventory_id
}

/// Everything one pickup event does to the state: on a live item of
/// some kind and a distinct live collector with an inventory, the item
/// is routed per `spec_pickup_post` — first matching stack with room,
/// else first empty slot, else a silent failure leaving everything
/// unchanged — the collector entity changes in no other field, and on
/// success the item is hidden and loses its dropped tag; every other
/// record is untouched, and an invalid event changes nothing. Stack
/// homogeneity is preserved.
pub open spec fn spec_apply_pickup_post(pre: SimState, ev: ItemPickupEvent, post: SimState) -> bool {
    &&& post.wf()
    &&& post.tile_map == pre.tile_map
    &&& post.registry.recs.len() == pre.registry.recs.len()
    &&& post.damage_events == pre.damage_events
    &&& post.drop_events == pre.drop_events
    &&& post.pickup_events == pre.pickup_events
    &&& post.player_id == pre.player_id
    &&& post.params == pre.params
    &&& post.flip_x == pre.flip_x
    &&& (forall|j: int| post.registry.spec_alive(j) == pre.registry.spec_alive(j))
    &&& (!spec_pickup_target_valid(pre, ev) ==> post == pre)
    &&& (spec_pickup_target_valid(pre, ev) ==> ({
        let iid = ev.inventory_id as int;
        let item = ev.item_id as int;
        let inv0 = pre.registry.recs[iid].inventory->Some_0;
        let kind = pre.registry.recs[item].item_kind->Some_0;
        let picked = inv0.spec_can_accept(kind);
        &&& post.registry.recs[iid].inventory is Some
        &&& Inventory::spec_pickup_post(
            inv0,
            ev.item_id,
            kind,
            post.registry.recs[iid].inventory->Some_0,
            picked,
        )
        &&& post.registry.recs[iid] == (EntityRec {
            inventory: post.registry.recs[iid].inventory,
            ..pre.registry.recs[iid]
        })
        &&& (picked ==> post.registry.recs[item] == (EntityRec {
            visible: false,
            dropped: None,
            ..pre.registry.recs[item]
        }))
        &&& (!picked ==> (forall|j: int|
            0 <= j < pre.registry.recs.len() ==> post.registry.recs[j]
                == pre.registry.recs[j]))
        &&& (forall|j: int|
            0 <= j < pre.registry.recs.len() && j != iid && j != item ==> post.registry.recs[j]
                == pre.registry.recs[j])
    }))
    &&& (spec_inventories_homogeneous(pre) ==> spec_inventories_homogeneous(post))
}

/// Applies one pickup event: routes the item into the collector's
/// inventory per the slot-selection rule; on success the item is hidden
/// and loses its dropped-item tag, and on a full inventory the pickup
/// fails silently, leaving the item in the world.
pub fn apply_pickup_event(state: &mut SimState, ev: ItemPickupEvent)
    requires
        old(state).wf(),
    ensures
        spec_apply_pickup_post(*old(state), ev, *final(state)),
{
    let item = ev.item_id;
    let iid = ev.inventory_id;
    if item >= state.registry.recs.len() || iid >= state.registry.recs.len() || item == iid {
        return ;
    }
    if !state.registry.recs[item].alive || !state.registry.recs[iid].alive {
        return ;
    }
    let kind = match state.registry.recs[item].item_kind {
        Some(k) => k,
        None => {
            return ;
        },
    };
    if state.registry.recs[iid].inventory.is_none() {
        return ;
    }
    let picked: bool = match &mut state.registry.recs[iid].inventory {
        Some(inv) => inv.pickup(item, kind),
        None => false,
    };
    if picked {
        state.registry.recs[item].visible = false;
        state.registry.recs[item].dropped = None;
    }
    proof {
        if spec_inventories_homogeneous(*old(state)) {
            let n = state.registry.recs.len() as int;
            assert forall|mm: int| 0 <= mm < n implies #[trigger] state.registry.recs[mm].item_kind
                == old(state).registry.recs[mm].item_kind by {}
            let inv0 = old(state).registry.recs[iid as int].inventory->Some_0;
            let inv1 = state.registry.recs[iid as int].inventory->Some_0;
            if picked {
                let islot = choose|i: int|
                    {
                        &&& 0 <= i < inv0.item_slots.len()
                        &&& {
                            ||| (inv0.spec_accepts_kind(i, kind) && forall|kk: int|
                                0 <= kk < i ==> !inv0.spec_accepts_kind(kk, kind))
                            ||| ((forall|kk: int|
                                0 <= kk < inv0.item_slots.len() ==> !inv0.spec_accepts_kind(
                                    kk,
                                    kind,
                                )) && inv0.item_slots[i] is None && forall|kk: int|
                                0 <= kk < i ==> !((#[trigger] inv0.item_slots[kk]) is None))
                        }
                        &&& inv1.item_slots@.len() == inv0.item_slots@.len()
                        &&& (forall|kk: int|
                            0 <= kk < inv0.item_slots@.len() && kk != i ==> inv1.item_slots@[kk]
                                == inv0.item_slots@[kk])
                        &&& (#[trigger] inv1.item_slots@[i]) is Some
                        &&& inv1.item_slots@[i]->Some_0.items@ == crate::inventory::spec_slot_seq(
                            inv0.item_slots[i],
                        ).push(item)
                        &&& inv1.item_slots@[i]->Some_0.kind == match inv0.item_slots[i] {
                            Some(st) => st.kind,
                            None => kind,
                        }
                    };
                assert(inv1.item_slots@[islot]->Some_0.kind == kind);
                assert forall|id: int, si: int, k: int|
                    spec_holder_indexes(*state, id, si, k) implies #[trigger] spec_slot_member_ok(
                    *state,
                    id,
                    si,
                    k,
                ) by {
                    if id == iid as int {
                        if si == islot {
                            let members = inv1.item_slots@[si]->Some_0.items@;
                            if k == members.len() - 1 {
                                assert(members[k] == item);
                                assert(state.registry.recs[item as int].item_kind == Some(kind));
                            } else {
                                let st0 = inv0.item_slots@[si]->Some_0;
                                assert(members[k] == st0.items@[k]);
                                assert(spec_holder_indexes(*old(state), id, si, k));
                                assert(spec_slot_member_ok(*old(state), id, si, k));
                            }
                        } else {
                            assert(inv1.item_slots@[si] == inv0.item_slots@[si]);
                            assert(spec_holder_indexes(*old(state), id, si, k));
                            assert(spec_slot_member_ok(*old(state), id, si, k));
                        }
                    } else {
                        assert(state.registry.recs[id].inventory == old(
                            state,
                        ).registry.recs[id].inventory);
                        assert(spec_holder_indexes(*old(state), id, si, k));
                        assert(spec_slot_member_ok(*old(state), id, si, k));
                    }
                }
            } else {
                lemma_homogeneity_under_field_edits(*old(state), *state);
            }
        }
    }
}

/// The pickup pipeline fold: `post` results from applying one
/// `spec_apply_pickup_post` step per event of `events`, in order,
/// starting from `pre`.
pub open spec fn spec_pickup_chain(
    pre: SimState,
    events: Seq<ItemPickupEvent>,
    post: SimState,
) -> bool
    decreases events.len(),
{
    if events.len() == 0 {
        post == pre
    } else {
        exists|mid: SimState|
            #[trigger] spec_apply_pickup_post(pre, events.first(), mid) && spec_pickup_chain(
                mid,
                events.drop_first(),
                post,
            )
    }
}

/// Extending a pickup fold by one more applied event.
pub proof fn lemma_pickup_chain_snoc(
    pre: SimState,
    events: Seq<ItemPickupEvent>,
    mid: SimState,
    ev: ItemPickupEvent,
    post: SimState,
)
    requires
        spec_pickup_chain(pre, events, mid),
        spec_apply_pickup_post(mid, ev, post),
    ensures
        spec_pickup_chain(pre, events.push(ev), post),
    decreases events.len(),
{
    let snoc = events.push(ev);
    if events.len() == 0 {
        assert(mid == pre);
        assert(snoc.first() == ev);
        assert(snoc.drop_first() =~= Seq::<ItemPickupEvent>::empty());
        assert(spec_pickup_chain(post, snoc.drop_first(), post));
        assert(spec_apply_pickup_post(pre, snoc.first(), post));
    } else {
        let m1 = choose|m1: SimState|
            #[trigger] spec_apply_pickup_post(pre, events.first(), m1) && spec_pickup_chain(
                m1,
                events.drop_first(),
                mid,
            );
        lemma_pickup_chain_snoc(m1, events.drop_first(), mid, ev, post);
        assert(snoc.first() == events.first());
        assert(snoc.drop_first() =~= events.drop_first().push(ev));
        assert(spec_apply_pickup_post(pre, snoc.first(), m1));
        assert(spec_pickup_chain(m1, snoc.drop_first(), post));
    }
}

/// Everything `on_item_pickups` promises: some start state equal to the
/// old one except for an already emptied pickup queue leads to the
/// final state by the in-order fold of the pending pickup events.
pub open spec fn spec_on_item_pickups_post(pre: SimState, post: SimState) -> bool {
    exists|start: SimState|
        #[trigger] spec_pickup_chain(start, pre.pickup_events@, post) && start == (SimState {
            pickup_events: start.pickup_events,
            ..pre
        }) && start.pickup_events@.len() == 0
}

/// Processes every pending pickup event, in order, then clears the
/// queue.
pub fn on_item_pickups(state: &mut SimState)
    requires
        old(state).wf(),
    ensures
        final(state).wf(),
        final(state).tile_map == old(state).tile_map,
        final(state).registry.recs.len() == old(state).registry.recs.len(),
        final(state).damage_events == old(state).damage_events,
        final(state).drop_events == old(state).drop_events,
        final(state).pickup_events@.len() == 0,
        final(state).player_id == old(state).player_id,
        final(state).params == old(state).params,
        forall|j: int| final(state).registry.spec_alive(j) == old(state).registry.spec_alive(j),
        spec_on_item_pickups_post(*old(state), *final(state)),
        spec_inventories_homogeneous(*old(state)) ==> spec_inventories_homogeneous(*final(state)),
{
    let mut events: Vec<ItemPickupEvent> = Vec::new();
    core::mem::swap(&mut events, &mut state.pickup_events);
    let ghost start = *state;
    proof {
        assert(events@ == old(state).pickup_events@);
        assert(start == (SimState { pickup_events: start.pickup_events, ..*old(state) }));
        assert(events@.take(0) =~= Seq::<ItemPickupEvent>::empty());
    }
    let n = events.len();
    let mut i: usize = 0;
    while i < n
        invariant
            state.wf(),
            n == events@.len(),
            i <= n,
            state.tile_map == old(state).tile_map,
            state.registry.recs.len() == old(state).registry.recs.len(),
            state.damage_events == old(state).damage_events,
            state.drop_events == old(state).drop_events,
            state.pickup_events@.len() == 0,
            state.player_id == old(state).player_id,
            state.params == old(state).params,
            forall|j: int| state.registry.spec_alive(j) == old(state).registry.spec_alive(j),
            spec_pickup_chain(start, events@.take(i as int), *state),
            spec_inventories_homogeneous(start) ==> spec_inventories_homogeneous(*state),
        decreases n - i,
    {
        let ghost cur = *state;
        apply_pickup_event(state, events[i]);
        proof {
            lemma_pickup_chain_snoc(start, events@.take(i as int), cur, events@[i as int], *state);
            assert(events@.take(i as int).push(events@[i as int]) =~= events@.take(i as int + 1));
        }
        i = i + 1;
    }
    proof {
        assert(events@.take(n as int) =~= events@);
        assert(spec_pickup_chain(start, old(state).pickup_events@, *state));
        assert(start == (SimState { pickup_events: start.pickup_events, ..*old(state) }));
        assert(start.pickup_events@.len() == 0);
        assert(spec_on_item_pickups_post(*old(state), *state));
        if spec_inventories_homogeneous(*old(state)) {
            lemma_homogeneity_under_field_edits(*old(state), start);
        }
    }
}

/// Everything the fixed-step movement system does: with no live player
/// carrying both a velocity and a collision box, nothing changes; else
/// the force pipeline yields the post-force velocity, the sprite facing
/// follows the input, and — when the player's box lies inside the level
/// and clear of solid tiles — the box sweeps by that velocity
/// (horizontal with step-up, then vertical with ground snap) and each
/// blocked component of the stored velocity is zeroed; with no usable
/// collider state this step, the position is kept and only the
/// velocity is stored, never a fault.
pub open spec fn spec_physics_step_post(pre: SimState, input: InputState, post: SimState) -> bool {
    if pre.player_id is None || !pre.registry.spec_alive(pre.player_id->Some_0 as int)
        || pre.registry.recs[pre.player_id->Some_0 as int].vel is None
        || pre.registry.recs[pre.player_id->Some_0 as int].bbox is None {
        post == pre
    } else {
        let pid = pre.player_id->Some_0 as int;
        let rec = pre.registry.recs[pid];
        let v1 = spec_move_player(rec.vel->Some_0, input, pre.params);
        let bw = rec.bbox->Some_0.width as int;
        let bh = rec.bbox->Some_0.height as int;
        let blx = rec.pos.x - bw / 2;
        let bly = rec.pos.y - bh / 2;
        let gw = pre.tile_map.width * TILE_SUB;
        let gh = pre.tile_map.height * TILE_SUB;
        let resolvable = bw <= gw && bh + TILE_SUB <= gh && 0 <= blx && blx + bw <= gw && 0 <= bly
            && bly + bh <= gh && spec_body_clear(pre.tile_map, blx, bly, bw, bh);
        let h = spec_horizontal_outcome(pre.tile_map, bw, bh, blx, bly, v1.x as int);
        let v = spec_vertical_outcome(pre.tile_map, bw, bh, h.0, h.1, v1.y as int, TILE_SUB as int);
        let new_pos = if resolvable {
            SubPos { x: (h.0 + bw / 2) as i64, y: (v.0 + bh / 2) as i64 }
        } else {
            rec.pos
        };
        let new_vel = if resolvable {
            Velocity {
                x: if h.2 {
                    0i64
                } else {
                    v1.x
                },
                y: if v.1 {
                    0i64
                } else {
                    v1.y
                },
            }
        } else {
            v1
        };
        &&& post == (SimState {
            registry: post.registry,
            flip_x: spec_apply_flip(pre.flip_x, input),
            ..pre
        })
        &&& post.registry.recs.len() == pre.registry.recs.len()
        &&& post.registry.free == pre.registry.free
        &&& (forall|j: int|
            0 <= j < pre.registry.recs.len() && j != pid ==> post.registry.recs[j]
                == pre.registry.recs[j])
        &&& post.registry.recs[pid] == (EntityRec { pos: new_pos, vel: Some(new_vel), ..rec })
    }
}

/// The fixed-step movement system: applies the force pipeline to the
/// player's velocity, sweeps the player against the tile grid, and
/// zeroes blocked velocity components. When the player has no collider
/// state this step, or stands outside or inside solid geometry,
/// collision response is skipped for this step only; never a fault.
pub fn physics_step(state: &mut SimState, input: &InputState)
    requires
        old(state).wf(),
    ensures
        final(state).wf(),
        final(state).tile_map == old(state).tile_map,
        final(state).registry.recs.len() == old(state).registry.recs.len(),
        final(state).damage_events == old(state).damage_events,
        final(state).drop_events == old(state).drop_events,
        final(state).pickup_events == old(state).pickup_events,
        final(state).player_id == old(state).player_id,
        final(state).params == old(state).params,
        forall|j: int| final(state).registry.spec_alive(j) == old(state).registry.spec_alive(j),
        forall|j: int|
            0 <= j < old(state).registry.recs.len() && (old(state).player_id is None || j != old(
                state,
            ).player_id->Some_0) ==> final(state).registry.recs[j] == old(state).registry.recs[j],
        spec_physics_step_post(*old(state), *input, *final(state)),
{
    let pid = match state.player_id {
        Some(p) => p,
        None => {
            return ;
        },
    };
    if !state.registry.recs[pid].alive {
        return ;
    }
    let mut vel = match state.registry.recs[pid].vel {
        Some(v) => v,
        None => {
            return ;
        },
    };
    let bbox = match state.registry.recs[pid].bbox {
        Some(b) => b,
        None => {
            return ;
        },
    };
    let mut flip = state.flip_x;
    move_player(&mut vel, &mut flip, input, &state.params);
    state.flip_x = flip;

    let bw = bbox.width;
    let bh = bbox.height;
    let grid_w = (state.tile_map.width as i64) * TILE_SUB;
    let grid_h = (state.tile_map.height as i64) * TILE_SUB;
    let half_w = ((bw as u64) / 2) as i64;
    let half_h = ((bh as u64) / 2) as i64;
    proof {
        assert(half_w == bw as int / 2);
        assert(half_h == bh as int / 2);
    }
    let pos = state.registry.recs[pid].pos;
    let blx = pos.x - half_w;
    let bly = pos.y - half_h;
    if bw <= grid_w && bh + TILE_SUB <= grid_h && 0 <= blx && blx + bw <= grid_w && 0 <= bly && bly
        + bh <= grid_h {
        if body_clear_at(&state.tile_map, blx, bly, bw, bh) {
            let mut sub = SubPos { x: blx, y: bly };
            move_and_collide(
                &state.tile_map,
                bw,
                bh,
                &mut sub,
                &mut vel,
                TILE_SUB,
                NORMAL_THRESHOLD,
            );
            state.registry.recs[pid].pos = SubPos { x: sub.x + half_w, y: sub.y + half_h };
        }
    }
    state.registry.recs[pid].vel = Some(vel);
}

/// Everything one simulation step does: the final state is reached from
/// the old one by the twelve subsystems' postconditions composed in the
/// fixed order — movement and collision response, hotbar selection and
/// scrolling, attack, the drop control, damage resolution, the death
/// sweep, drop-event processing, cooldown ticks, pickup-event
/// processing, pickup evaluation for the next step, and the appearance
/// pass.
pub open spec fn spec_step_post(
    pre: SimState,
    input: InputState,
    dt_ms: u32,
    post: SimState,
) -> bool {
    exists|
        s1: SimState,
        s2: SimState,
        s3: SimState,
        s4: SimState,
        s5: SimState,
        s6: SimState,
        s7: SimState,
        s8: SimState,
        s9: SimState,
        s10: SimState,
        s11: SimState,
    |
        #![trigger spec_physics_step_post(pre, input, s1), spec_hotbar_index_post(s1, input, s2),
            spec_hotbar_scroll_post(s2, input, s3), spec_attack_post(s3, input, s4),
            spec_drop_item_post(s4, input, s5), spec_on_damage_dealt_post(s5, s6),
            spec_remove_dead_post(s6, s7), spec_on_item_drops_post(s7, s8),
            spec_delays_post(s8, dt_ms, s9), spec_on_item_pickups_post(s9, s10),
            spec_intersect_post(s10, s11)]
        {
            &&& spec_physics_step_post(pre, input, s1)
            &&& spec_hotbar_index_post(s1, input, s2)
            &&& spec_hotbar_scroll_post(s2, input, s3)
            &&& spec_attack_post(s3, input, s4)
            &&& spec_drop_item_post(s4, input, s5)
            &&& spec_on_damage_dealt_post(s5, s6)
            &&& spec_remove_dead_post(s6, s7)
            &&& spec_on_item_drops_post(s7, s8)
            &&& spec_delays_post(s8, dt_ms, s9)
            &&& spec_on_item_pickups_post(s9, s10)
            &&& spec_intersect_post(s10, s11)
            &&& spec_tile_textures_post(s11, post)
        }
}

/// Advances the simulation by one step: fixed-step movement and
/// collision response first, then the input-driven systems, then damage
/// resolution, the death sweep, drop-event processing, pickup-delay
/// ticks, pickup-event processing, pickup evaluation whose events the
/// next step consumes, and an edge-aware appearance pass over every
/// existing tile.
pub fn step(state: &mut SimState, input: &InputState, dt_ms: u32)
    requires
        old(state).wf(),
        -POS_LIMIT <= input.mouse.x <= POS_LIMIT,
        -POS_LIMIT <= input.mouse.y <= POS_LIMIT,
        -1000000000 <= input.scroll_lines <= 1000000000,
    ensures
        final(state).wf(),
        final(state).tile_map.width == old(state).tile_map.width,
        final(state).tile_map.height == old(state).tile_map.height,
        final(state).player_id == old(state).player_id,
        final(state).params == old(state).params,
        final(state).damage_events@.len() == 0,
        final(state).drop_events@.len() == 0,
        spec_step_post(*old(state), *input, dt_ms, *final(state)),
{
    physics_step(state, input);
    let ghost g1 = *state;
    update_current_hotbar_index(state, input);
    let ghost g2 = *state;
    hotbar_scrolling(state, input);
    let ghost g3 = *state;
    attack(state, input);
    let ghost g4 = *state;
    drop_item(state, input);
    let ghost g5 = *state;
    on_damage_dealt(state);
    let ghost g6 = *state;
    remove_dead_entities(state);
    let ghost g7 = *state;
    on_item_drops(state);
    let ghost g8 = *state;
    update_item_pickup_delays(state, dt_ms);
    let ghost g9 = *state;
    on_item_pickups(state);
    let ghost g10 = *state;
    intersect_items(state);
    let ghost g11 = *state;
    update_tile_textures(state);
    proof {
        assert(spec_physics_step_post(*old(state), *input, g1));
        assert(spec_hotbar_index_post(g1, *input, g2));
        assert(spec_hotbar_scroll_post(g2, *input, g3));
        assert(spec_attack_post(g3, *input, g4));
        assert(spec_drop_item_post(g4, *input, g5));
        assert(spec_on_damage_dealt_post(g5, g6));
        assert(spec_remove_dead_post(g6, g7));
        assert(spec_on_item_drops_post(g7, g8));
        assert(spec_delays_post(g8, dt_ms, g9));
        assert(spec_on_item_pickups_post(g9, g10));
        assert(spec_intersect_post(g10, g11));
        assert(spec_tile_textures_post(g11, *state));
        assert(spec_step_post(*old(state), *input, dt_ms, *state));
    }
}


impl SimState {
    /// The player's currently selected hotbar index, for the interface
    /// layer; nothing when no player entity is present this step.
    pub fn selected_hotbar_index(&self) -> (r: Option<usize>)
        requires
            self.wf(),
        ensures
            r == if self.player_id is Some && self.registry.spec_alive(
                self.player_id->Some_0 as int,
            ) && self.registry.recs[self.player_id->Some_0 as int].player is Some {
                Some(
                    self.registry.recs[self.player_id->Some_0 as int].player
                        ->Some_0.current_hotbar_index,
                )
            } else {
                None::<usize>
            },
    {
        match self.player_id {
            Some(pid) => {
                if self.registry.recs[pid].alive {
                    match self.registry.recs[pid].player {
                        Some(p) => Some(p.current_hotbar_index),
                        None => None,
                    }
                } else {
                    None
                }
            },
            None => None,
        }
    }

    /// The stack count and first item id of one player hotbar slot, for
    /// the interface layer: `(0, None)` for an empty or missing slot.
    pub fn hotbar_slot_info(&self, slot: usize) -> (r: (usize, Option<usize>))
        requires
            self.wf(),
        ensures
            ({
                let pid = self.player_id->Some_0 as int;
                if self.player_id is Some && self.registry.spec_alive(pid)
                    && self.registry.recs[pid].inventory is Some && slot
                    < self.registry.recs[pid].inventory->Some_0.item_slots@.len()
                    && self.registry.recs[pid].inventory->Some_0.item_slots@[slot as int]
                    is Some {
                    let st = self.registry.recs[pid].inventory->Some_0.item_slots@[slot as int]
                        ->Some_0;
                    r == ((st.items@.len() as usize, Some(st.items@[0])))
                } else {
                    r == ((0usize, None::<usize>))
                }
            }),
    {
        match self.player_id {
            Some(pid) => {
                if self.registry.recs[pid].alive {
                    match &self.registry.recs[pid].inventory {
                        Some(inv) => {
                            if slot < inv.item_slots.len() {
                                match &inv.item_slots[slot] {
                                    Some(st) => (st.items.len(), Some(st.items[0])),
                                    None => (0, None),
                                }
                            } else {
                                (0, None)
                            }
                        },
                        None => (0, None),
                    }
                } else {
                    (0, None)
                }
            },
            None => (0, None),
        }
    }

    /// The player's current position in the grid frame, for the camera
    /// layer; nothing when no player entity is present this step.
    pub fn player_position(&self) -> (r: Option<SubPos>)
        requires
            self.wf(),
        ensures
            r == if self.player_id is Some && self.registry.spec_alive(
                self.player_id->Some_0 as int,
            ) {
                Some(self.registry.recs[self.player_id->Some_0 as int].pos)
            } else {
                None::<SubPos>
            },
    {
        match self.player_id {
            Some(pid) => {
                if self.registry.recs[pid].alive {
                    Some(self.registry.recs[pid].pos)
                } else {
                    None
                }
            },
            None => None,
        }
    }
}

} // verus!
