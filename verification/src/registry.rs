//! Explicit entity registry: dense array of component records indexed by
//! a stable integer entity id, with free-list reuse after destruction.
//!
//! An entity is an index into `recs`; its components are optional fields
//! of the record. Destroyed slots keep their index on the free list and
//! are reused by later spawns. Visual sub-parts attach as children of one
//! parent, and destroying an entity removes its children in the same
//! atomic operation.

use vstd::prelude::*;
use crate::combat::Health;
use crate::grid::TilePosition;
use crate::inventory::{DroppedItem, Inventory, InventoryItem};
use crate::physics::{BoundingBox, SubPos, Velocity};

verus! {

/// Hotbar state of the player entity.
#[derive(Clone, Copy, PartialEq, Eq, Structural, Debug)]
pub struct Player {
    pub current_hotbar_index: usize,
}

/// Component record of one entity. `alive` is false for destroyed or
/// never-used slots; a dead record's other fields are meaningless.
pub struct EntityRec {
    pub alive: bool,
    pub pos: SubPos,
    pub vel: Option<Velocity>,
    pub health: Option<Health>,
    pub inventory: Option<Inventory>,
    pub bbox: Option<BoundingBox>,
    pub item_kind: Option<InventoryItem>,
    pub dropped: Option<DroppedItem>,
    pub player: Option<Player>,
    pub tile_pos: Option<TilePosition>,
    pub visible: bool,
    pub appearance: usize,
    pub children: Vec<usize>,
    pub is_child: bool,
}

impl EntityRec {
    /// A dead, component-free record, as used for never-filled slots.
    pub fn empty() -> (r: EntityRec)
        ensures
            !r.alive,
            r.pos == (SubPos { x: 0, y: 0 }),
            r.vel is None,
            r.health is None,
            r.inventory is None,
            r.bbox is None,
            r.item_kind is None,
            r.dropped is None,
            r.player is None,
            r.tile_pos is None,
            !r.visible,
            r.appearance == 0,
            r.children@.len() == 0,
            !r.is_child,
    {
        EntityRec {
            alive: false,
            pos: SubPos { x: 0, y: 0 },
            vel: None,
            health: None,
            inventory: None,
            bbox: None,
            item_kind: None,
            dropped: None,
            player: None,
            tile_pos: None,
            visible: false,
            appearance: 0,
            children: Vec::new(),
            is_child: false,
        }
    }
}

/// Dense entity storage plus the free list of reusable indices.
pub struct Registry {
    pub recs: Vec<EntityRec>,
    pub free: Vec<usize>,
}

impl Registry {
    /// Whether `id` names a live entity.
    pub open spec fn spec_alive(self, id: int) -> bool {
        0 <= id < self.recs.len() && self.recs[id].alive
    }

    /// Whether `j` is listed among the children of entity `parent`.
    pub open spec fn spec_child_of(self, parent: int, j: int) -> bool {
        exists|m: int| 0 <= m < self.recs[parent].children.len()
            && (#[trigger] self.recs[parent].children[m]) == j
    }

    /// Free-list invariant: every free index names a dead slot, and no
    /// index appears twice, so reuse never aliases two entities; and
    /// every child listed by a live entity is a valid index.
    pub open spec fn wf(self) -> bool {
        &&& forall|i: int| 0 <= i < self.free.len()
            ==> (#[trigger] self.free[i]) < self.recs.len()
        &&& forall|i: int| 0 <= i < self.free.len()
            ==> !self.recs[(#[trigger] self.free[i]) as int].alive
        &&& forall|i: int, j: int|
            #![trigger self.free[i], self.free[j]]
            0 <= i < j < self.free.len() ==> self.free[i] != self.free[j]
        &&& forall|id: int, k: int|
            self.spec_alive(id) && 0 <= k < self.recs[id].children.len()
                ==> (#[trigger] self.recs[id].children[k]) < self.recs.len()
    }

    /// An empty registry.
    pub fn new() -> (r: Registry)
        ensures
            r.wf(),
            r.recs@.len() == 0,
            r.free@.len() == 0,
    {
        Registry { recs: Vec::new(), free: Vec::new() }
    }

    /// Stores `rec` as a live entity, reusing a free slot when one
    /// exists, and returns its id. No other record changes.
    pub fn spawn(&mut self, rec: EntityRec) -> (id: usize)
        requires
            old(self).wf(),
            rec.alive,
            rec.children@.len() == 0,
        ensures
            final(self).wf(),
            id < final(self).recs.len(),
            final(self).recs[id as int] == rec,
            final(self).spec_alive(id as int),
            old(self).recs.len() <= final(self).recs.len(),
            (id < old(self).recs.len() && final(self).recs.len() == old(self).recs.len()) || (
            id == old(self).recs.len() && final(self).recs.len() == old(self).recs.len() + 1),
            old(self).free@.len() == 0 ==> final(self).free@.len() == 0 && id == old(
                self,
            ).recs.len(),
            !old(self).spec_alive(id as int),
            forall|j: int| 0 <= j < old(self).recs.len() && j != id
                ==> final(self).recs[j] == old(self).recs[j],
            forall|j: int| old(self).spec_alive(j) ==> final(self).spec_alive(j),
    {
        match self.free.pop() {
            Some(idx) => {
                self.recs[idx] = rec;
                idx
            },
            None => {
                let idx = self.recs.len();
                self.recs.push(rec);
                idx
            },
        }
    }

    /// Destroys entity `id` together with its attached children, as one
    /// atomic operation; a dead or out-of-range id is a no-op. Every
    /// entity that is neither `id` nor one of its children is untouched.
    pub fn destroy_recursive(&mut self, id: usize)
        requires
            old(self).wf(),
        ensures
            final(self).wf(),
            final(self).recs.len() == old(self).recs.len(),
            !final(self).spec_alive(id as int),
            forall|j: int| 0 <= j < old(self).recs.len() && j != id
                && !old(self).spec_child_of(id as int, j)
                ==> final(self).recs[j] == old(self).recs[j],
            forall|j: int| old(self).spec_alive(id as int) && old(self).spec_child_of(id as int, j)
                && 0 <= j < old(self).recs.len() ==> !final(self).spec_alive(j),
            forall|j: int| final(self).spec_alive(j) ==> old(self).spec_alive(j),
            forall|j: int| 0 <= j < old(self).recs.len()
                ==> final(self).recs[j] == old(self).recs[j] || final(self).recs[j] == (EntityRec {
                    alive: false,
                    ..old(self).recs[j]
                }),
            forall|j: int| 0 <= j < old(self).recs.len()
                ==> final(self).recs[j].children == old(self).recs[j].children,
    {
        if id >= self.recs.len() || !self.recs[id].alive {
            return;
        }
        let ghost before = *self;
        let n_children = self.recs[id].children.len();
        let mut k: usize = 0;
        while k < n_children
            invariant
                before.wf(),
                before.spec_alive(id as int),
                self.recs.len() == before.recs.len(),
                id < self.recs.len(),
                n_children == before.recs[id as int].children.len(),
                k <= n_children,
                self.recs[id as int] == before.recs[id as int],
                forall|j: int| 0 <= j < before.recs.len()
                    && !(exists|m: int| 0 <= m < k
                        && (#[trigger] before.recs[id as int].children[m]) == j)
                    ==> self.recs[j] == before.recs[j],
                forall|m: int| 0 <= m < k ==> {
                    let c = (#[trigger] before.recs[id as int].children[m]) as int;
                    c == id || !self.recs[c].alive
                },
                forall|j: int| 0 <= j < before.recs.len()
                    ==> self.recs[j] == before.recs[j] || self.recs[j] == (EntityRec {
                        alive: false,
                        ..before.recs[j]
                    }),
                forall|j: int| 0 <= j < before.recs.len()
                    ==> (#[trigger] self.recs[j]).children == before.recs[j].children,
                forall|i: int| 0 <= i < self.free.len()
                    ==> (#[trigger] self.free[i]) < self.recs.len(),
                forall|i: int| 0 <= i < self.free.len()
                    ==> !self.recs[(#[trigger] self.free[i]) as int].alive,
                forall|i: int, j: int|
                    #![trigger self.free[i], self.free[j]]
                    0 <= i < j < self.free.len() ==> self.free[i] != self.free[j],
                forall|j: int| self.spec_alive(j) ==> before.spec_alive(j),
            decreases n_children - k,
        {
            let c = self.recs[id].children[k];
            let ghost mid = *self;
            if c != id && self.recs[c].alive {
                self.recs[c].alive = false;
                self.free.push(c);
            }
            proof {
                let ch = before.recs[id as int].children;
                assert(c == ch[k as int]);
                assert forall|j: int|
                    0 <= j < before.recs.len() && !(exists|m: int|
                        0 <= m < k + 1 && (#[trigger] ch[m]) == j)
                    implies self.recs[j] == before.recs[j] by {
                    assert(ch[k as int] != j);
                    assert(!(exists|m: int| 0 <= m < k && (#[trigger] ch[m]) == j));
                    assert(mid.recs[j] == before.recs[j]);
                }
            }
            k = k + 1;
        }
        self.recs[id].alive = false;
        self.free.push(id);
    }
}

} // verus!
