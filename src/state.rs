use vstd::prelude::*;
use bracket_lib::prelude::RandomNumberGenerator;
use crate::combat::{
    damage_effect, damage_system, dead_effect, delete_the_dead, lemma_log_extends_trans, log_extends,
    melee_combat_system, melee_effect,
};
use crate::components::{Entity, InBackpack, Position, WantsToDrinkPotion, WantsToDropItem};
use crate::gamelog::{GameLog, LogEvent};
use crate::inventory::{
    collect_effect, drink_trace, drop_trace, item_collection_system, item_drop_system, potion_use_system,
};
use crate::map::{GameMap, room_fits};
use crate::map_indexing::{index_effect, map_indexing_system};
use crate::monster_ai::{MonsterAI, ai_trace};
use crate::player::{Command, command_outcome, player_input};
use crate::rect::center_of;
use crate::spawner;
use crate::visibility::{at_most_one_player, positions_on_map, sight_effect, VisibilitySystem};
use crate::world::World;

verus! {

/// The phase of the turn.
#[derive(Clone, Copy, Debug, PartialEq, Eq, Structural)]
pub enum RunState {
    PreRun,
    AwaitingInput,
    PlayerTurn,
    MonsterTurn,
    ShowInventory,
    ShowDropItem,
}

/// The answer of an item menu.
#[derive(Clone, Copy, Debug, PartialEq, Eq, Structural)]
pub enum ItemMenuResult {
    Cancel,
    NoResponse,
    Selected,
}

/// A key pressed in an item menu: escape, or another key given as the
/// position of its letter in the alphabet (negative for a key that is no letter).
#[derive(Clone, Copy, Debug, PartialEq, Eq, Structural)]
pub enum MenuKey {
    Escape,
    Letter(i32),
}

/// One input event of a frame.
#[derive(Clone, Copy, Debug, PartialEq, Eq, Structural)]
pub enum Input {
    Key(Command),
    Choose(Entity),
    Cancel,
}

/// The items in the pack of `owner` that have a name, in slot order.
pub fn inventory_of(world: &World, owner: Entity) -> (items: Vec<Entity>)
    requires
        world.wf(),
    ensures
        forall|k: int| 0 <= k < items@.len() ==> {
            let e = #[trigger] items@[k];
            &&& e.id < world.len()
            &&& world.in_backpack@[e.id as int] == Some(InBackpack { owner })
            &&& world.names@[e.id as int] is Some
        },
        forall|k: int, j: int| 0 <= k < j < items@.len() ==> (#[trigger] items@[k]).id < (#[trigger] items@[j]).id,
        forall|i: int|
            0 <= i < world.len() && #[trigger] world.in_backpack@[i] == Some(InBackpack { owner })
                && world.names@[i] is Some ==> items@.contains(Entity { id: i as usize }),
{
    let n = world.alive.len();
    let mut items: Vec<Entity> = Vec::new();
    let mut i: usize = 0;
    while i < n
        invariant
            i <= n,
            n == world.len(),
            world.wf(),
            forall|k: int| 0 <= k < items@.len() ==> {
                let e = #[trigger] items@[k];
                &&& e.id < i
                &&& world.in_backpack@[e.id as int] == Some(InBackpack { owner })
                &&& world.names@[e.id as int] is Some
            },
            forall|k: int, j: int| 0 <= k < j < items@.len() ==> (#[trigger] items@[k]).id < (#[trigger] items@[j]).id,
            forall|m: int|
                0 <= m < i && #[trigger] world.in_backpack@[m] == Some(InBackpack { owner })
                    && world.names@[m] is Some ==> items@.contains(Entity { id: m as usize }),
        decreases n - i,
    {
        if world.in_backpack[i] == Some(InBackpack { owner }) && world.names[i].is_some() {
            let ghost before = items@;
            items.push(Entity { id: i });
            proof {
                assert forall|m: int|
                    0 <= m < i + 1 && #[trigger] world.in_backpack@[m] == Some(InBackpack { owner })
                        && world.names@[m] is Some implies items@.contains(Entity { id: m as usize }) by {
                    if m < i {
                        let k = choose|k: int| 0 <= k < before.len() && before[k] == Entity { id: m as usize };
                        assert(items@[k] == before[k]);
                    } else {
                        assert(items@[before.len() as int] == Entity { id: m as usize });
                    }
                }
            }
        }
        i = i + 1;
    }
    items
}

/// What a key does in an item menu listing `items`: escape cancels, the
/// letter of a listed item selects it, anything else is ignored.
pub fn menu_selection(items: &Vec<Entity>, key: Option<MenuKey>) -> (r: (ItemMenuResult, Option<Entity>))
    ensures
        key is None ==> r == (ItemMenuResult::NoResponse, None::<Entity>),
        key == Some(MenuKey::Escape) ==> r == (ItemMenuResult::Cancel, None::<Entity>),
        forall|sel: i32|
            key == Some(MenuKey::Letter(sel)) ==> r == if 0 <= sel < items@.len() {
                (ItemMenuResult::Selected, Some(items@[sel as int]))
            } else {
                (ItemMenuResult::NoResponse, None::<Entity>)
            },
{
    match key {
        None => (ItemMenuResult::NoResponse, None),
        Some(MenuKey::Escape) => (ItemMenuResult::Cancel, None),
        Some(MenuKey::Letter(selection)) => {
            if selection > -1 && (selection as usize) < items.len() {
                (ItemMenuResult::Selected, Some(items[selection as usize]))
            } else {
                (ItemMenuResult::NoResponse, None)
            }
        },
    }
}

/// `tr` is one world pass from `s0` to `s1`, in its fixed order: sight;
/// monster turns when `monsters_act`, else nothing; the occupancy index;
/// melee; damage; pickups; drinks; drops; removal of the dead, which tells
/// `died`; the index once more. Each pass changes only the parts of the state
/// it works on.
pub open spec fn phase_trace(s0: State, s1: State, monsters_act: bool, died: bool, tr: Seq<State>) -> bool {
    &&& tr.len() == 11
    &&& tr[0] == s0
    &&& tr[10] == s1
    &&& sight_effect(tr[0].world, tr[0].map, tr[1].world, tr[1].map)
    &&& tr[1] == State { world: tr[1].world, map: tr[1].map, ..tr[0] }
    &&& if monsters_act {
        &&& exists|atr: Seq<(World, GameMap)>|
            #[trigger] ai_trace(
                tr[1].world,
                tr[1].map,
                tr[2].world,
                tr[2].map,
                tr[1].player_pos,
                tr[1].player_entity,
                atr,
            )
        &&& tr[2] == State { world: tr[2].world, map: tr[2].map, ..tr[1] }
    } else {
        tr[2] == tr[1]
    }
    &&& index_effect(tr[2].world, tr[2].map, tr[3].map)
    &&& tr[3] == State { map: tr[3].map, ..tr[2] }
    &&& melee_effect(tr[3].world, tr[3].log.entries@, tr[4].world, tr[4].log.entries@)
    &&& tr[4] == State { world: tr[4].world, log: tr[4].log, ..tr[3] }
    &&& damage_effect(tr[4].world, tr[5].world)
    &&& tr[5] == State { world: tr[5].world, ..tr[4] }
    &&& collect_effect(tr[5].world, tr[5].log.entries@, tr[6].world, tr[6].log.entries@)
    &&& tr[6] == State { world: tr[6].world, log: tr[6].log, ..tr[5] }
    &&& exists|dtr: Seq<World>| #[trigger] drink_trace(tr[6].world, tr[7].world, dtr)
    &&& log_extends(tr[7].log.entries@, tr[6].log.entries@)
    &&& tr[7] == State { world: tr[7].world, log: tr[7].log, ..tr[6] }
    &&& exists|dtr: Seq<World>| #[trigger] drop_trace(tr[7].world, tr[8].world, dtr)
    &&& log_extends(tr[8].log.entries@, tr[7].log.entries@)
    &&& tr[8] == State { world: tr[8].world, log: tr[8].log, ..tr[7] }
    &&& dead_effect(tr[8].world, tr[8].log.entries@, tr[9].world, tr[9].log.entries@, died)
    &&& tr[9] == State { world: tr[9].world, log: tr[9].log, ..tr[8] }
    &&& index_effect(tr[9].world, tr[9].map, tr[10].map)
    &&& tr[10] == State { map: tr[10].map, ..tr[9] }
}

/// `s` in phase `r`.
pub open spec fn with_phase(s: State, r: RunState) -> State {
    State { runstate: r, ..s }
}

/// The classified command an input event carries, if any.
pub open spec fn command_of(input: Option<Input>) -> Option<Command> {
    match input {
        Some(Input::Key(c)) => Some(c),
        _ => None,
    }
}

/// The whole simulation: entities, map, the player's identity and tile, the
/// phase, and the message history.
pub struct State {
    pub world: World,
    pub map: GameMap,
    pub player_entity: Entity,
    pub player_pos: Position,
    pub runstate: RunState,
    pub log: GameLog,
}

impl State {
    pub open spec fn wf(&self) -> bool {
        &&& self.world.wf()
        &&& self.map.wf()
        &&& positions_on_map(self.world, self.map)
        &&& at_most_one_player(self.world)
        &&& self.map.in_bounds(self.player_pos.x as int, self.player_pos.y as int)
        &&& self.player_entity.id < self.world.len()
    }

    /// Runs one world pass in its fixed order: sight, then (when
    /// `monsters_act`) monster decisions, the occupancy index, melee, damage,
    /// pickups, potions, drops, removal of the dead, and the index once more.
    /// Tells whether the player died.
    pub fn run_systems(&mut self, monsters_act: bool) -> (player_died: bool)
        requires
            old(self).wf(),
        ensures
            final(self).wf(),
            final(self).player_entity == old(self).player_entity,
            final(self).player_pos == old(self).player_pos,
            final(self).runstate == old(self).runstate,
            final(self).map.tiles == old(self).map.tiles,
            final(self).map.width == old(self).map.width,
            final(self).map.height == old(self).map.height,
            forall|t: int|
                0 <= t < old(self).map.count() && #[trigger] old(self).map.revealed_tiles@[t] ==> final(self).map.revealed_tiles@[t],
            forall|k: int|
                0 <= k < final(self).world.len() && #[trigger] final(self).world.combat_stats@[k] is Some
                    ==> final(self).world.combat_stats@[k]->0.hp > 0,
            crate::combat::log_extends(final(self).log.entries@, old(self).log.entries@),
            exists|tr: Seq<State>| #[trigger] phase_trace(*old(self), *final(self), monsters_act, player_died, tr),
            forall|k: int|
                0 <= k < final(self).world.len() ==> #[trigger] final(self).world.wants_to_melee@[k] is None
                    && final(self).world.suffer_damage@[k] is None && final(self).world.wants_to_pickup@[k] is None
                    && final(self).world.wants_to_drink@[k] is None && final(self).world.wants_to_drop@[k] is None,
    {
        let ghost s0 = *self;
        let vis = VisibilitySystem {};
        vis.run(&mut self.world, &mut self.map);
        let ghost t1 = *self;
        if monsters_act {
            let mob = MonsterAI {};
            mob.run(&mut self.world, &mut self.map, self.player_pos, self.player_entity);
        }
        let ghost t2 = *self;
        map_indexing_system(&self.world, &mut self.map);
        let ghost s1 = *self;
        melee_combat_system(&mut self.world, &mut self.log);
        let ghost l1 = self.log.entries@;
        let ghost t4 = *self;
        damage_system(&mut self.world);
        let ghost t5 = *self;
        item_collection_system(&mut self.world, &mut self.log);
        let ghost s2 = *self;
        proof {
            assert forall|k: int| 0 <= k < self.world.len() && #[trigger] self.world.positions@[k] is Some
                implies self.map.in_bounds(self.world.positions@[k]->0.x as int, self.world.positions@[k]->0.y as int) by {
                assert(s1.world.positions@[k] is Some);
            }
        }
        potion_use_system(&mut self.world, &mut self.log);
        let ghost s3 = *self;
        proof {
            assert forall|k: int| 0 <= k < self.world.len() && #[trigger] self.world.positions@[k] is Some
                implies self.map.in_bounds(self.world.positions@[k]->0.x as int, self.world.positions@[k]->0.y as int) by {
                assert(crate::inventory::drink_outcome(s2.world, self.world, k));
                assert(s2.world.positions@[k] is Some);
            }
            assert forall|i: int, j: int|
                0 <= i < self.world.len() && 0 <= j < self.world.len() && #[trigger] self.world.players@[i] is Some
                    && #[trigger] self.world.players@[j] is Some implies i == j by {
                assert(crate::inventory::drink_outcome(s2.world, self.world, i));
                assert(crate::inventory::drink_outcome(s2.world, self.world, j));
                assert(s1.world.players@[i] is Some && s1.world.players@[j] is Some);
            }
        }
        item_drop_system(&mut self.world, &mut self.log);
        let ghost t8 = *self;
        proof {
            assert forall|k: int| 0 <= k < self.world.len() && #[trigger] self.world.positions@[k] is Some
                implies self.map.in_bounds(self.world.positions@[k]->0.x as int, self.world.positions@[k]->0.y as int) by {
                let j = choose|j: int|
                    0 <= j < s3.world.len() && #[trigger] s3.world.positions@[j] == self.world.positions@[k];
                assert(s3.world.positions@[j] is Some);
            }
        }
        let ghost s4 = *self;
        let player_died = delete_the_dead(&mut self.world, &mut self.log);
        let ghost t9 = *self;
        proof {
            assert forall|k: int|
                0 <= k < self.world.len() && #[trigger] self.world.combat_stats@[k] is Some implies self.world.combat_stats@[k]->0.hp > 0 by {
                if crate::combat::is_dead(s4.world, k) {
                    assert(self.world.bare(k));
                } else {
                    assert(self.world.same_slot(s4.world, k));
                }
            }
            assert forall|k: int| 0 <= k < self.world.len() && #[trigger] self.world.positions@[k] is Some
                implies self.map.in_bounds(self.world.positions@[k]->0.x as int, self.world.positions@[k]->0.y as int) by {
                if crate::combat::is_dead(s4.world, k) {
                    assert(self.world.bare(k));
                } else {
                    assert(self.world.same_slot(s4.world, k));
                }
            }
            assert forall|i: int, j: int|
                0 <= i < self.world.len() && 0 <= j < self.world.len() && #[trigger] self.world.players@[i] is Some
                    && #[trigger] self.world.players@[j] is Some implies i == j by {
                if crate::combat::is_dead(s4.world, i) {
                    assert(self.world.bare(i));
                } else {
                    assert(self.world.same_slot(s4.world, i));
                }
                if crate::combat::is_dead(s4.world, j) {
                    assert(self.world.bare(j));
                } else {
                    assert(self.world.same_slot(s4.world, j));
                }
            }
        }
        map_indexing_system(&self.world, &mut self.map);
        proof {
            lemma_log_extends_trans(s0.log.entries@, l1, s2.log.entries@);
            lemma_log_extends_trans(s0.log.entries@, s2.log.entries@, s3.log.entries@);
            lemma_log_extends_trans(s0.log.entries@, s3.log.entries@, s4.log.entries@);
            lemma_log_extends_trans(s0.log.entries@, s4.log.entries@, self.log.entries@);
        }
        proof {
            assert forall|k: int| 0 <= k < self.world.len() implies #[trigger] self.world.wants_to_melee@[k] is None
                && self.world.suffer_damage@[k] is None && self.world.wants_to_pickup@[k] is None
                && self.world.wants_to_drink@[k] is None && self.world.wants_to_drop@[k] is None by {
                assert(t5.world.wants_to_melee@[k] is None && t5.world.suffer_damage@[k] is None);
                assert(s2.world.wants_to_pickup@[k] is None);
                assert(crate::inventory::drink_outcome(s2.world, s3.world, k));
                assert(s3.world.wants_to_drink@[k] is None);
                assert(t8.world.wants_to_drop@[k] is None);
                if crate::combat::is_dead(t8.world, k) {
                    assert(t9.world.bare(k));
                } else {
                    assert(t9.world.same_slot(t8.world, k));
                }
            }
        }
        proof {
            let tr = seq![s0, t1, t2, s1, t4, t5, s2, s3, t8, t9, *self];
            assert(phase_trace(s0, *self, monsters_act, player_died, tr));
        }
        player_died
    }

    /// Records a drink or drop intent of the player for `item`, when both are
    /// live entities.
    fn choose_item(&mut self, item: Entity, drink: bool) -> (done: bool)
        requires
            old(self).wf(),
        ensures
            final(self).wf(),
            done == (item.id < old(self).world.len() && old(self).world.alive@[old(self).player_entity.id as int]
                && old(self).world.alive@[item.id as int]),
            !done ==> *final(self) == *old(self),
            done && drink ==> final(self).world.wants_to_drink@[old(self).player_entity.id as int] == Some(
                WantsToDrinkPotion { potion: item },
            ),
            done && !drink ==> final(self).world.wants_to_drop@[old(self).player_entity.id as int] == Some(
                WantsToDropItem { item },
            ),
            final(self).runstate == old(self).runstate,
            final(self).map == old(self).map,
            final(self).player_pos == old(self).player_pos,
            final(self).player_entity == old(self).player_entity,
    {
        let p = self.player_entity.id;
        if item.id < self.world.alive.len() && self.world.alive[p] && self.world.alive[item.id] {
            if drink {
                self.world.wants_to_drink.set(p, Some(WantsToDrinkPotion { potion: item }));
            } else {
                self.world.wants_to_drop.set(p, Some(WantsToDropItem { item }));
            }
            proof {
                assert forall|j: int| 0 <= j < self.world.len() && !#[trigger] self.world.alive@[j] implies self.world.bare(j) by {
                    assert(old(self).world.bare(j));
                }
            }
            true
        } else {
            false
        }
    }

    /// Advances the simulation by one frame with at most one input event, and
    /// tells whether the player has died (the game is over).
    pub fn tick(&mut self, input: Option<Input>) -> (game_over: bool)
        requires
            old(self).wf(),
        ensures
            final(self).wf(),
            old(self).runstate == RunState::AwaitingInput && input is None ==> *final(self) == *old(self) && !game_over,
            final(self).map.width == old(self).map.width && final(self).map.height == old(self).map.height,
            forall|t: int|
                0 <= t < old(self).map.count() && #[trigger] old(self).map.revealed_tiles@[t] ==> final(self).map.revealed_tiles@[t],
            old(self).runstate == RunState::PreRun ==> final(self).runstate == RunState::AwaitingInput && exists|tr: Seq<State>|
                #[trigger] phase_trace(*old(self), with_phase(*final(self), old(self).runstate), false, game_over, tr),
            old(self).runstate == RunState::PlayerTurn ==> exists|tr: Seq<State>|
                #[trigger] phase_trace(*old(self), with_phase(*final(self), old(self).runstate), false, game_over, tr),
            old(self).runstate == RunState::MonsterTurn ==> exists|tr: Seq<State>|
                #[trigger] phase_trace(*old(self), with_phase(*final(self), old(self).runstate), true, game_over, tr),
            old(self).runstate == RunState::AwaitingInput ==> !game_over && command_outcome(
                *old(self),
                with_phase(*final(self), old(self).runstate),
                command_of(input),
                final(self).runstate,
            ),
            old(self).runstate == RunState::PlayerTurn ==> final(self).runstate == RunState::MonsterTurn,
            old(self).runstate == RunState::MonsterTurn ==> final(self).runstate == RunState::AwaitingInput,
            (old(self).runstate == RunState::ShowInventory || old(self).runstate == RunState::ShowDropItem) && input
                == Some(Input::Cancel) ==> *final(self) == (State { runstate: RunState::AwaitingInput, ..*old(self) }),
            (old(self).runstate == RunState::ShowInventory || old(self).runstate == RunState::ShowDropItem) && input is None
                ==> *final(self) == *old(self),
            old(self).runstate == RunState::ShowInventory && input is Some && input->0 is Choose
                && final(self).runstate == RunState::PlayerTurn ==> final(self).world.wants_to_drink@[old(self).player_entity.id as int]
                == Some(WantsToDrinkPotion { potion: input->0->Choose_0 }),
            old(self).runstate == RunState::ShowDropItem && input is Some && input->0 is Choose
                && final(self).runstate == RunState::PlayerTurn ==> final(self).world.wants_to_drop@[old(self).player_entity.id as int]
                == Some(WantsToDropItem { item: input->0->Choose_0 }),
            game_over ==> old(self).runstate == RunState::PlayerTurn || old(self).runstate == RunState::MonsterTurn
                || old(self).runstate == RunState::PreRun,
    {
        match self.runstate {
            RunState::PreRun => {
                let died = self.run_systems(false);
                self.runstate = RunState::AwaitingInput;
                died
            },
            RunState::AwaitingInput => {
                let cmd = match input {
                    Some(Input::Key(c)) => Some(c),
                    _ => None,
                };
                assert(cmd == command_of(input));
                let ghost before = *self;
                let next = player_input(self, cmd);
                let ghost after = *self;
                self.runstate = next;
                assert(with_phase(*self, before.runstate) == after);
                false
            },
            RunState::PlayerTurn => {
                let died = self.run_systems(false);
                self.runstate = RunState::MonsterTurn;
                died
            },
            RunState::MonsterTurn => {
                let died = self.run_systems(true);
                self.runstate = RunState::AwaitingInput;
                died
            },
            RunState::ShowInventory => {
                match input {
                    Some(Input::Cancel) => {
                        self.runstate = RunState::AwaitingInput;
                    },
                    Some(Input::Choose(item)) => {
                        if self.choose_item(item, true) {
                            self.runstate = RunState::PlayerTurn;
                        }
                    },
                    _ => {},
                }
                false
            },
            RunState::ShowDropItem => {
                match input {
                    Some(Input::Cancel) => {
                        self.runstate = RunState::AwaitingInput;
                    },
                    Some(Input::Choose(item)) => {
                        if self.choose_item(item, false) {
                            self.runstate = RunState::PlayerTurn;
                        }
                    },
                    _ => {},
                }
                false
            },
        }
    }

    /// A new game: a generated map, the player at the centre of the first
    /// room, a random monster at the centre of every other room, and the
    /// welcome line in the log. The first frame runs the pre-turn pass.
    pub fn new_game(rng: &mut RandomNumberGenerator) -> (st: State)
        ensures
            st.wf(),
            st.runstate == RunState::PreRun,
            st.map.rooms@.len() >= 1,
            st.player_pos.x == center_of(st.map.rooms@[0]).0,
            st.player_pos.y == center_of(st.map.rooms@[0]).1,
            st.world.positions@[st.player_entity.id as int] == Some(st.player_pos),
            st.world.players@[st.player_entity.id as int] is Some,
            st.log.entries@.len() == 1,
            st.player_entity.id == 0,
            st.world.len() == st.map.rooms@.len(),
            forall|k: int|
                1 <= k < st.world.len() ==> #[trigger] st.world.monsters@[k] is Some && st.world.positions@[k] == Some(
                    Position { x: center_of(st.map.rooms@[k]).0 as i32, y: center_of(st.map.rooms@[k]).1 as i32 },
                ),
    {
        let map = GameMap::new_map_rooms_and_corridors(rng);
        let (player_x, player_y) = map.rooms[0].center();
        assert(room_fits(map.rooms@[0]));
        let mut world = World::new();
        let player_entity = spawner::player(&mut world, player_x, player_y);
        let mut r: usize = 1;
        while r < map.rooms.len()
            invariant
                1 <= r <= map.rooms@.len(),
                map.wf(),
                map.width == crate::map::MAPWIDTH,
                map.height == crate::map::MAPHEIGHT,
                map.rooms_fit(),
                map.rooms@.len() <= crate::map::MAX_ROOMS,
                world.wf(),
                world.len() == r,
                player_entity.id == 0,
                world.positions@[0] == Some(Position { x: player_x, y: player_y }),
                world.players@[0] is Some,
                positions_on_map(world, map),
                forall|k: int| 1 <= k < world.len() ==> #[trigger] world.players@[k] is None,
                forall|k: int|
                    1 <= k < world.len() ==> #[trigger] world.monsters@[k] is Some && world.positions@[k] == Some(
                        Position { x: center_of(map.rooms@[k]).0 as i32, y: center_of(map.rooms@[k]).1 as i32 },
                    ),
            decreases map.rooms@.len() - r,
        {
            assert(room_fits(map.rooms@[r as int]));
            let ghost before = world;
            spawner::spawn_room(&mut world, rng, &map.rooms[r]);
            proof {
                assert forall|k: int| 0 <= k < world.len() && #[trigger] world.positions@[k] is Some implies map.in_bounds(
                    world.positions@[k]->0.x as int,
                    world.positions@[k]->0.y as int,
                ) by {
                    if k < before.len() {
                        assert(world.same_slot(before, k));
                    }
                }
                assert forall|k: int| 1 <= k < world.len() implies #[trigger] world.players@[k] is None by {
                    if k < before.len() {
                        assert(world.same_slot(before, k));
                    }
                }
                assert forall|k: int|
                    1 <= k < world.len() implies #[trigger] world.monsters@[k] is Some && world.positions@[k] == Some(
                        Position { x: center_of(map.rooms@[k]).0 as i32, y: center_of(map.rooms@[k]).1 as i32 },
                    ) by {
                    if k < before.len() {
                        assert(world.same_slot(before, k));
                        assert(before.monsters@[k] is Some);
                    }
                }
                assert(world.same_slot(before, 0));
            }
            r = r + 1;
        }
        let mut log = GameLog::new();
        log.entries.push(LogEvent::Welcome);
        let st = State {
            world,
            map,
            player_entity,
            player_pos: Position { x: player_x, y: player_y },
            runstate: RunState::PreRun,
            log,
        };
        proof {
            assert forall|i: int, j: int|
                0 <= i < st.world.len() && 0 <= j < st.world.len() && #[trigger] st.world.players@[i] is Some
                    && #[trigger] st.world.players@[j] is Some implies i == j by {
                if i != 0 {
                    assert(st.world.players@[i] is None);
                }
                if j != 0 {
                    assert(st.world.players@[j] is None);
                }
            }
        }
        st
    }
}

} // verus!
