use vstd::prelude::*;
use crate::fov::MAX_RANGE;
use crate::components::{
    BlocksTile, CombatStats, Entity, InBackpack, Item, Monster, Name, Player, Position, Potion,
    Renderable, SufferDamage, Viewshed, WantsToDrinkPotion, WantsToDropItem, WantsToMelee,
    WantsToPickupItem,
};

verus! {

/// The entity registry: one slot per entity ever created, and for each kind
/// of component a store with one optional entry per slot. A slot whose entity
/// was destroyed holds no component and is never handed out again.
pub struct World {
    pub alive: Vec<bool>,
    pub positions: Vec<Option<Position>>,
    pub renderables: Vec<Option<Renderable>>,
    pub players: Vec<Option<Player>>,
    pub monsters: Vec<Option<Monster>>,
    pub blockers: Vec<Option<BlocksTile>>,
    pub items: Vec<Option<Item>>,
    pub names: Vec<Option<Name>>,
    pub viewsheds: Vec<Option<Viewshed>>,
    pub combat_stats: Vec<Option<CombatStats>>,
    pub suffer_damage: Vec<Option<SufferDamage>>,
    pub wants_to_melee: Vec<Option<WantsToMelee>>,
    pub wants_to_pickup: Vec<Option<WantsToPickupItem>>,
    pub wants_to_drop: Vec<Option<WantsToDropItem>>,
    pub wants_to_drink: Vec<Option<WantsToDrinkPotion>>,
    pub in_backpack: Vec<Option<InBackpack>>,
    pub potions: Vec<Option<Potion>>,
}

/// Attack and defence are not negative, and health does not exceed its maximum.
pub open spec fn stats_ok(s: CombatStats) -> bool {
    0 <= s.power && 0 <= s.defense && s.hp <= s.max_hp
}

impl World {
    pub open spec fn len(&self) -> int {
        self.alive@.len() as int
    }

    pub open spec fn is_live(&self, e: Entity) -> bool {
        e.id < self.len() && self.alive@[e.id as int]
    }

    /// Slot `i` holds no component at all.
    pub open spec fn bare(&self, i: int) -> bool {
        self.positions@[i].is_none()
        && self.renderables@[i].is_none()
        && self.players@[i].is_none()
        && self.monsters@[i].is_none()
        && self.blockers@[i].is_none()
        && self.items@[i].is_none()
        && self.names@[i].is_none()
        && self.viewsheds@[i].is_none()
        && self.combat_stats@[i].is_none()
        && self.suffer_damage@[i].is_none()
        && self.wants_to_melee@[i].is_none()
        && self.wants_to_pickup@[i].is_none()
        && self.wants_to_drop@[i].is_none()
        && self.wants_to_drink@[i].is_none()
        && self.in_backpack@[i].is_none()
        && self.potions@[i].is_none()
    }

    /// Slot `i` holds the same in both registries.
    pub open spec fn same_slot(&self, other: World, i: int) -> bool {
        self.alive@[i] == other.alive@[i]
        && self.positions@[i] == other.positions@[i]
        && self.renderables@[i] == other.renderables@[i]
        && self.players@[i] == other.players@[i]
        && self.monsters@[i] == other.monsters@[i]
        && self.blockers@[i] == other.blockers@[i]
        && self.items@[i] == other.items@[i]
        && self.names@[i] == other.names@[i]
        && self.viewsheds@[i] == other.viewsheds@[i]
        && self.combat_stats@[i] == other.combat_stats@[i]
        && self.suffer_damage@[i] == other.suffer_damage@[i]
        && self.wants_to_melee@[i] == other.wants_to_melee@[i]
        && self.wants_to_pickup@[i] == other.wants_to_pickup@[i]
        && self.wants_to_drop@[i] == other.wants_to_drop@[i]
        && self.wants_to_drink@[i] == other.wants_to_drink@[i]
        && self.in_backpack@[i] == other.in_backpack@[i]
        && self.potions@[i] == other.potions@[i]
    }

    /// Slot `i` holds the same in both registries, but for its drink intent and liveness.
    pub open spec fn same_slot_but_drink(&self, other: World, i: int) -> bool {
        self.positions@[i] == other.positions@[i]
        && self.renderables@[i] == other.renderables@[i]
        && self.players@[i] == other.players@[i]
        && self.monsters@[i] == other.monsters@[i]
        && self.blockers@[i] == other.blockers@[i]
        && self.items@[i] == other.items@[i]
        && self.names@[i] == other.names@[i]
        && self.viewsheds@[i] == other.viewsheds@[i]
        && self.combat_stats@[i] == other.combat_stats@[i]
        && self.suffer_damage@[i] == other.suffer_damage@[i]
        && self.wants_to_melee@[i] == other.wants_to_melee@[i]
        && self.wants_to_pickup@[i] == other.wants_to_pickup@[i]
        && self.wants_to_drop@[i] == other.wants_to_drop@[i]
        && self.in_backpack@[i] == other.in_backpack@[i]
        && self.potions@[i] == other.potions@[i]
    }

    /// Slot `i` holds the same in both registries, but for its stats and drink intent and liveness.
    pub open spec fn same_slot_but_stats(&self, other: World, i: int) -> bool {
        self.positions@[i] == other.positions@[i]
        && self.renderables@[i] == other.renderables@[i]
        && self.players@[i] == other.players@[i]
        && self.monsters@[i] == other.monsters@[i]
        && self.blockers@[i] == other.blockers@[i]
        && self.items@[i] == other.items@[i]
        && self.names@[i] == other.names@[i]
        && self.viewsheds@[i] == other.viewsheds@[i]
        && self.suffer_damage@[i] == other.suffer_damage@[i]
        && self.wants_to_melee@[i] == other.wants_to_melee@[i]
        && self.wants_to_pickup@[i] == other.wants_to_pickup@[i]
        && self.wants_to_drop@[i] == other.wants_to_drop@[i]
        && self.in_backpack@[i] == other.in_backpack@[i]
        && self.potions@[i] == other.potions@[i]
    }

    /// Every store has one entry per slot, a destroyed entity keeps no
    /// component, and pending damage amounts are positive.
    pub open spec fn wf(&self) -> bool {
        &&& self.positions@.len() == self.len()
        &&& self.renderables@.len() == self.len()
        &&& self.players@.len() == self.len()
        &&& self.monsters@.len() == self.len()
        &&& self.blockers@.len() == self.len()
        &&& self.items@.len() == self.len()
        &&& self.names@.len() == self.len()
        &&& self.viewsheds@.len() == self.len()
        &&& self.combat_stats@.len() == self.len()
        &&& self.suffer_damage@.len() == self.len()
        &&& self.wants_to_melee@.len() == self.len()
        &&& self.wants_to_pickup@.len() == self.len()
        &&& self.wants_to_drop@.len() == self.len()
        &&& self.wants_to_drink@.len() == self.len()
        &&& self.in_backpack@.len() == self.len()
        &&& self.potions@.len() == self.len()
        &&& forall|i: int| 0 <= i < self.len() && !#[trigger] self.alive@[i] ==> self.bare(i)
        &&& forall|i: int, j: int|
            0 <= i < self.len() && #[trigger] self.suffer_damage@[i] is Some && 0 <= j < self.suffer_damage@[i]->0.amount@.len()
                ==> #[trigger] self.suffer_damage@[i]->0.amount@[j] > 0
        &&& forall|i: int|
            0 <= i < self.len() && #[trigger] self.viewsheds@[i] is Some ==> 0
                <= self.viewsheds@[i]->0.range <= MAX_RANGE
        &&& forall|i: int|
            0 <= i < self.len() && #[trigger] self.combat_stats@[i] is Some ==> stats_ok(
                self.combat_stats@[i]->0,
            )
    }

    /// An empty registry.
    pub fn new() -> (w: World)
        ensures
            w.wf(),
            w.len() == 0,
    {
        World {
            alive: Vec::new(),
            positions: Vec::new(),
            renderables: Vec::new(),
            players: Vec::new(),
            monsters: Vec::new(),
            blockers: Vec::new(),
            items: Vec::new(),
            names: Vec::new(),
            viewsheds: Vec::new(),
            combat_stats: Vec::new(),
            suffer_damage: Vec::new(),
            wants_to_melee: Vec::new(),
            wants_to_pickup: Vec::new(),
            wants_to_drop: Vec::new(),
            wants_to_drink: Vec::new(),
            in_backpack: Vec::new(),
            potions: Vec::new(),
        }
    }

    /// Adds an entity with no components.
    pub fn create_entity(&mut self) -> (e: Entity)
        requires
            old(self).wf(),
            old(self).len() < usize::MAX,
        ensures
            final(self).wf(),
            e.id == old(self).len(),
            final(self).alive@ == old(self).alive@.push(true),
            final(self).positions@ == old(self).positions@.push(None),
            final(self).renderables@ == old(self).renderables@.push(None),
            final(self).players@ == old(self).players@.push(None),
            final(self).monsters@ == old(self).monsters@.push(None),
            final(self).blockers@ == old(self).blockers@.push(None),
            final(self).items@ == old(self).items@.push(None),
            final(self).names@ == old(self).names@.push(None),
            final(self).viewsheds@ == old(self).viewsheds@.push(None),
            final(self).combat_stats@ == old(self).combat_stats@.push(None),
            final(self).suffer_damage@ == old(self).suffer_damage@.push(None),
            final(self).wants_to_melee@ == old(self).wants_to_melee@.push(None),
            final(self).wants_to_pickup@ == old(self).wants_to_pickup@.push(None),
            final(self).wants_to_drop@ == old(self).wants_to_drop@.push(None),
            final(self).wants_to_drink@ == old(self).wants_to_drink@.push(None),
            final(self).in_backpack@ == old(self).in_backpack@.push(None),
            final(self).potions@ == old(self).potions@.push(None),
    {
        let id = self.alive.len();
        self.alive.push(true);
        self.positions.push(None);
        self.renderables.push(None);
        self.players.push(None);
        self.monsters.push(None);
        self.blockers.push(None);
        self.items.push(None);
        self.names.push(None);
        self.viewsheds.push(None);
        self.combat_stats.push(None);
        self.suffer_damage.push(None);
        self.wants_to_melee.push(None);
        self.wants_to_pickup.push(None);
        self.wants_to_drop.push(None);
        self.wants_to_drink.push(None);
        self.in_backpack.push(None);
        self.potions.push(None);
        proof {
            assert forall|i: int, j: int|
                0 <= i < self.len() && #[trigger] self.suffer_damage@[i] is Some && 0 <= j < self.suffer_damage@[i]->0.amount@.len()
                    implies #[trigger] self.suffer_damage@[i]->0.amount@[j] > 0 by {
                assert(i < old(self).len());
                assert(self.suffer_damage@[i] == old(self).suffer_damage@[i]);
            }
            assert forall|i: int|
                0 <= i < self.len() && #[trigger] self.combat_stats@[i] is Some implies stats_ok(
                    self.combat_stats@[i]->0,
                ) by {
                assert(self.combat_stats@[i] == old(self).combat_stats@[i]);
            }
            assert forall|i: int|
                0 <= i < self.len() && #[trigger] self.viewsheds@[i] is Some implies 0
                    <= self.viewsheds@[i]->0.range <= MAX_RANGE by {
                assert(self.viewsheds@[i] == old(self).viewsheds@[i]);
            }
        }
        Entity { id }
    }

    /// Removes every component of `e` and retires its slot.
    pub fn delete_entity(&mut self, e: Entity)
        requires
            old(self).wf(),
            e.id < old(self).len(),
        ensures
            final(self).wf(),
            final(self).alive@ == old(self).alive@.update(e.id as int, false),
            final(self).positions@ == old(self).positions@.update(e.id as int, None),
            final(self).renderables@ == old(self).renderables@.update(e.id as int, None),
            final(self).players@ == old(self).players@.update(e.id as int, None),
            final(self).monsters@ == old(self).monsters@.update(e.id as int, None),
            final(self).blockers@ == old(self).blockers@.update(e.id as int, None),
            final(self).items@ == old(self).items@.update(e.id as int, None),
            final(self).names@ == old(self).names@.update(e.id as int, None),
            final(self).viewsheds@ == old(self).viewsheds@.update(e.id as int, None),
            final(self).combat_stats@ == old(self).combat_stats@.update(e.id as int, None),
            final(self).suffer_damage@ == old(self).suffer_damage@.update(e.id as int, None),
            final(self).wants_to_melee@ == old(self).wants_to_melee@.update(e.id as int, None),
            final(self).wants_to_pickup@ == old(self).wants_to_pickup@.update(e.id as int, None),
            final(self).wants_to_drop@ == old(self).wants_to_drop@.update(e.id as int, None),
            final(self).wants_to_drink@ == old(self).wants_to_drink@.update(e.id as int, None),
            final(self).in_backpack@ == old(self).in_backpack@.update(e.id as int, None),
            final(self).potions@ == old(self).potions@.update(e.id as int, None),
    {
        let i = e.id;
        self.alive.set(i, false);
        self.positions.set(i, None);
        self.renderables.set(i, None);
        self.players.set(i, None);
        self.monsters.set(i, None);
        self.blockers.set(i, None);
        self.items.set(i, None);
        self.names.set(i, None);
        self.viewsheds.set(i, None);
        self.combat_stats.set(i, None);
        self.suffer_damage.set(i, None);
        self.wants_to_melee.set(i, None);
        self.wants_to_pickup.set(i, None);
        self.wants_to_drop.set(i, None);
        self.wants_to_drink.set(i, None);
        self.in_backpack.set(i, None);
        self.potions.set(i, None);
        proof {
            assert forall|k: int, j: int|
                0 <= k < self.len() && #[trigger] self.suffer_damage@[k] is Some && 0 <= j < self.suffer_damage@[k]->0.amount@.len()
                    implies #[trigger] self.suffer_damage@[k]->0.amount@[j] > 0 by {
                assert(self.suffer_damage@[k] == old(self).suffer_damage@[k]);
            }
            assert forall|k: int|
                0 <= k < self.len() && #[trigger] self.combat_stats@[k] is Some implies stats_ok(
                    self.combat_stats@[k]->0,
                ) by {
                assert(self.combat_stats@[k] == old(self).combat_stats@[k]);
            }
            assert forall|k: int|
                0 <= k < self.len() && #[trigger] self.viewsheds@[k] is Some implies 0
                    <= self.viewsheds@[k]->0.range <= MAX_RANGE by {
                assert(self.viewsheds@[k] == old(self).viewsheds@[k]);
            }
        }
    }
}

} // verus!
