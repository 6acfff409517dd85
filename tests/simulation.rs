use roguelike::combat::{damage_dealt, damage_system, delete_the_dead, melee_combat_system};
use roguelike::components::{CombatStats, Entity, InBackpack, Position, WantsToMelee};
use roguelike::fov::line_is_clear;
use roguelike::gamelog::{GameLog, LogEvent};
use roguelike::map::{GameMap, TileType};
use roguelike::map_indexing::map_indexing_system;
use roguelike::pathfinding::a_star_search;
use roguelike::player::{Command, Direction};
use roguelike::rect::Rect;
use roguelike::spawner;
use roguelike::state::{inventory_of, menu_selection, Input, ItemMenuResult, MenuKey, RunState, State};
use roguelike::world::World;

fn open_map(w: i32, h: i32) -> GameMap {
    let mut m = GameMap::new_filled(w, h, TileType::Floor);
    for x in 0..w {
        let a = m.xy_idx(x, 0);
        let b = m.xy_idx(x, h - 1);
        m.tiles[a] = TileType::Wall;
        m.tiles[b] = TileType::Wall;
    }
    for y in 0..h {
        let a = m.xy_idx(0, y);
        let b = m.xy_idx(w - 1, y);
        m.tiles[a] = TileType::Wall;
        m.tiles[b] = TileType::Wall;
    }
    m.populate_blocked();
    m
}

fn state_with(world: World, map: GameMap, player: Entity, pos: Position) -> State {
    State { world, map, player_entity: player, player_pos: pos, runstate: RunState::PreRun, log: GameLog::new() }
}

fn hp(w: &World, e: Entity) -> i32 {
    w.combat_stats[e.id].unwrap().hp
}

#[test]
fn damage_is_power_less_defense_floored_at_zero() {
    let a = CombatStats { max_hp: 30, hp: 30, defense: 2, power: 5 };
    let t = CombatStats { max_hp: 16, hp: 16, defense: 1, power: 4 };
    assert_eq!(damage_dealt(&a, &t), 4);
    assert_eq!(damage_dealt(&t, &a), 2);
    let weak = CombatStats { max_hp: 5, hp: 5, defense: 0, power: 1 };
    assert_eq!(damage_dealt(&weak, &a), 0);
}

#[test]
fn three_hits_of_three_leave_seven() {
    let mut w = World::new();
    let attacker = spawner::monster(&mut w, 2, 2, 111, "Orc");
    let target = spawner::monster(&mut w, 3, 2, 103, "Goblin");
    let mut log = GameLog::new();
    for _ in 0..3 {
        w.wants_to_melee[attacker.id] = Some(WantsToMelee { target });
        melee_combat_system(&mut w, &mut log);
        assert!(w.wants_to_melee[attacker.id].is_none());
        damage_system(&mut w);
    }
    assert_eq!(hp(&w, target), 16 - 3 * 3);
    assert_eq!(hp(&w, target), 7);
}

#[test]
fn hits_in_one_turn_compound() {
    let mut w = World::new();
    let a = spawner::monster(&mut w, 2, 2, 111, "Orc");
    let b = spawner::monster(&mut w, 4, 2, 111, "Orc");
    let t = spawner::player(&mut w, 3, 2);
    let mut log = GameLog::new();
    w.wants_to_melee[a.id] = Some(WantsToMelee { target: t });
    w.wants_to_melee[b.id] = Some(WantsToMelee { target: t });
    melee_combat_system(&mut w, &mut log);
    assert_eq!(w.suffer_damage[t.id].as_ref().unwrap().amount, vec![2, 2]);
    damage_system(&mut w);
    assert!(w.suffer_damage[t.id].is_none());
    assert_eq!(hp(&w, t), 26);
    assert_eq!(log.entries.len(), 2);
}

#[test]
fn blow_without_damage_is_only_logged() {
    let mut w = World::new();
    let a = spawner::health_potion(&mut w, 1, 1);
    let t = spawner::player(&mut w, 2, 2);
    w.combat_stats[a.id] = Some(CombatStats { max_hp: 1, hp: 1, defense: 0, power: 1 });
    w.wants_to_melee[a.id] = Some(WantsToMelee { target: t });
    let mut log = GameLog::new();
    melee_combat_system(&mut w, &mut log);
    assert!(w.suffer_damage[t.id].is_none());
    assert!(matches!(log.entries[0], LogEvent::UnableToHurt { .. }));
}

#[test]
fn dead_entities_lose_every_component() {
    let mut w = World::new();
    let m = spawner::monster(&mut w, 2, 2, 111, "Orc");
    let p = spawner::player(&mut w, 3, 3);
    w.combat_stats[m.id] = Some(CombatStats { max_hp: 16, hp: 0, defense: 1, power: 4 });
    let mut log = GameLog::new();
    let player_died = delete_the_dead(&mut w, &mut log);
    assert!(!player_died);
    assert!(!w.alive[m.id]);
    assert!(w.positions[m.id].is_none());
    assert!(w.combat_stats[m.id].is_none());
    assert!(w.monsters[m.id].is_none());
    assert!(w.names[m.id].is_none());
    assert!(w.alive[p.id]);
    w.combat_stats[p.id] = Some(CombatStats { max_hp: 30, hp: -3, defense: 2, power: 5 });
    assert!(delete_the_dead(&mut w, &mut log));
    assert!(matches!(log.entries.last().unwrap(), LogEvent::PlayerDied));
}

#[test]
fn player_attack_then_monster_reply() {
    let map = open_map(20, 20);
    let mut w = World::new();
    let p = spawner::player(&mut w, 5, 5);
    let m = spawner::monster(&mut w, 6, 5, 111, "Orc");
    w.combat_stats[m.id] = Some(CombatStats { max_hp: 16, hp: 16, defense: 1, power: 4 });
    let mut st = state_with(w, map, p, Position { x: 5, y: 5 });
    assert!(!st.tick(None));
    assert_eq!(st.runstate, RunState::AwaitingInput);
    st.tick(Some(Input::Key(Command::Move(Direction::East))));
    assert_eq!(st.runstate, RunState::PlayerTurn);
    assert_eq!(st.world.wants_to_melee[p.id], Some(WantsToMelee { target: m }));
    st.tick(None);
    assert_eq!(st.runstate, RunState::MonsterTurn);
    assert_eq!(hp(&st.world, m), 12);
    assert_eq!(hp(&st.world, p), 30);
    st.tick(None);
    assert_eq!(st.runstate, RunState::AwaitingInput);
    assert_eq!(hp(&st.world, p), 28);
    assert_eq!(hp(&st.world, m), 12);
    assert_eq!(st.world.positions[p.id], Some(Position { x: 5, y: 5 }));
}

#[test]
fn no_input_while_waiting_changes_nothing() {
    let map = open_map(20, 20);
    let mut w = World::new();
    let p = spawner::player(&mut w, 5, 5);
    spawner::monster(&mut w, 9, 9, 103, "Goblin");
    let mut st = state_with(w, map, p, Position { x: 5, y: 5 });
    st.tick(None);
    let positions = st.world.positions.clone();
    let stats = st.world.combat_stats.clone();
    let revealed = st.map.revealed_tiles.clone();
    let blocked = st.map.blocked.clone();
    let log_len = st.log.entries.len();
    for _ in 0..5 {
        assert!(!st.tick(None));
        assert_eq!(st.runstate, RunState::AwaitingInput);
    }
    assert_eq!(st.world.positions, positions);
    assert_eq!(st.world.combat_stats, stats);
    assert_eq!(st.map.revealed_tiles, revealed);
    assert_eq!(st.map.blocked, blocked);
    assert_eq!(st.log.entries.len(), log_len);
}

#[test]
fn moving_into_a_wall_is_refused() {
    let map = open_map(10, 10);
    let mut w = World::new();
    let p = spawner::player(&mut w, 1, 1);
    let mut st = state_with(w, map, p, Position { x: 1, y: 1 });
    st.tick(None);
    st.tick(Some(Input::Key(Command::Move(Direction::West))));
    assert_eq!(st.world.positions[p.id], Some(Position { x: 1, y: 1 }));
    assert_eq!(st.player_pos, Position { x: 1, y: 1 });
    st.tick(None);
    st.tick(None);
    st.tick(Some(Input::Key(Command::Move(Direction::SouthEast))));
    assert_eq!(st.world.positions[p.id], Some(Position { x: 2, y: 2 }));
    assert_eq!(st.player_pos, Position { x: 2, y: 2 });
    assert!(st.world.viewsheds[p.id].as_ref().unwrap().dirty);
}

#[test]
fn pickup_then_drop_returns_item_to_player_tile() {
    let map = open_map(12, 12);
    let mut w = World::new();
    let p = spawner::player(&mut w, 4, 4);
    let potion = spawner::health_potion(&mut w, 4, 4);
    let mut st = state_with(w, map, p, Position { x: 4, y: 4 });
    st.tick(None);
    st.tick(Some(Input::Key(Command::PickUp)));
    assert_eq!(st.runstate, RunState::PlayerTurn);
    st.tick(None);
    assert!(st.world.positions[potion.id].is_none());
    assert_eq!(st.world.in_backpack[potion.id], Some(InBackpack { owner: p }));
    st.tick(None);
    st.tick(Some(Input::Key(Command::Move(Direction::East))));
    st.tick(None);
    st.tick(None);
    assert_eq!(st.player_pos, Position { x: 5, y: 4 });
    st.tick(Some(Input::Key(Command::OpenDrop)));
    assert_eq!(st.runstate, RunState::ShowDropItem);
    let items = inventory_of(&st.world, p);
    assert_eq!(items, vec![potion]);
    let (result, chosen) = menu_selection(&items, Some(MenuKey::Letter(0)));
    assert_eq!(result, ItemMenuResult::Selected);
    st.tick(Some(Input::Choose(chosen.unwrap())));
    assert_eq!(st.runstate, RunState::PlayerTurn);
    st.tick(None);
    assert_eq!(st.world.positions[potion.id], Some(Position { x: 5, y: 4 }));
    assert!(st.world.in_backpack[potion.id].is_none());
}

#[test]
fn nothing_to_pick_up_is_logged() {
    let map = open_map(10, 10);
    let mut w = World::new();
    let p = spawner::player(&mut w, 3, 3);
    let mut st = state_with(w, map, p, Position { x: 3, y: 3 });
    st.tick(None);
    st.tick(Some(Input::Key(Command::PickUp)));
    assert!(matches!(st.log.entries.last().unwrap(), LogEvent::NothingToPickUp));
}

#[test]
fn drinking_heals_up_to_the_maximum_and_consumes_the_potion() {
    let map = open_map(12, 12);
    let mut w = World::new();
    let p = spawner::player(&mut w, 4, 4);
    let potion = spawner::health_potion(&mut w, 4, 4);
    let spare = spawner::health_potion(&mut w, 4, 4);
    w.combat_stats[p.id] = Some(CombatStats { max_hp: 30, hp: 20, defense: 2, power: 5 });
    w.positions[potion.id] = None;
    w.in_backpack[potion.id] = Some(InBackpack { owner: p });
    w.positions[spare.id] = None;
    w.in_backpack[spare.id] = Some(InBackpack { owner: p });
    let mut st = state_with(w, map, p, Position { x: 4, y: 4 });
    st.tick(None);
    st.tick(Some(Input::Key(Command::OpenInventory)));
    assert_eq!(st.runstate, RunState::ShowInventory);
    st.tick(Some(Input::Choose(potion)));
    st.tick(None);
    assert_eq!(hp(&st.world, p), 28);
    assert!(!st.world.alive[potion.id]);
    assert!(st.world.potions[potion.id].is_none());
    assert!(st.world.alive[spare.id]);
    st.tick(None);
    st.tick(Some(Input::Key(Command::OpenInventory)));
    st.tick(Some(Input::Choose(spare)));
    st.tick(None);
    assert_eq!(hp(&st.world, p), 30);
    assert!(!st.world.alive[spare.id]);
}

#[test]
fn menu_escape_cancels() {
    let items = vec![Entity { id: 3 }, Entity { id: 7 }];
    assert_eq!(menu_selection(&items, Some(MenuKey::Escape)), (ItemMenuResult::Cancel, None));
    assert_eq!(menu_selection(&items, None), (ItemMenuResult::NoResponse, None));
    assert_eq!(menu_selection(&items, Some(MenuKey::Letter(1))), (ItemMenuResult::Selected, Some(Entity { id: 7 })));
    assert_eq!(menu_selection(&items, Some(MenuKey::Letter(2))), (ItemMenuResult::NoResponse, None));
    assert_eq!(menu_selection(&items, Some(MenuKey::Letter(-1))), (ItemMenuResult::NoResponse, None));
}

#[test]
fn escape_from_inventory_returns_to_waiting() {
    let map = open_map(10, 10);
    let mut w = World::new();
    let p = spawner::player(&mut w, 3, 3);
    let mut st = state_with(w, map, p, Position { x: 3, y: 3 });
    st.tick(None);
    st.tick(Some(Input::Key(Command::OpenInventory)));
    st.tick(None);
    assert_eq!(st.runstate, RunState::ShowInventory);
    st.tick(Some(Input::Cancel));
    assert_eq!(st.runstate, RunState::AwaitingInput);
}

#[test]
fn monster_walks_toward_a_seen_player() {
    let map = open_map(20, 20);
    let mut w = World::new();
    let p = spawner::player(&mut w, 3, 3);
    let m = spawner::monster(&mut w, 8, 3, 103, "Goblin");
    let mut st = state_with(w, map, p, Position { x: 3, y: 3 });
    st.tick(None);
    st.tick(Some(Input::Key(Command::Wait)));
    st.tick(None);
    st.tick(None);
    assert_eq!(st.world.positions[m.id], Some(Position { x: 7, y: 3 }));
    let old_idx = st.map.xy_idx(8, 3);
    let new_idx = st.map.xy_idx(7, 3);
    assert!(!st.map.blocked[old_idx]);
    assert!(st.map.blocked[new_idx]);
}

#[test]
fn index_marks_walls_and_blockers() {
    let mut map = open_map(10, 10);
    let mut w = World::new();
    let p = spawner::player(&mut w, 2, 2);
    let m = spawner::monster(&mut w, 5, 5, 111, "Orc");
    let potion = spawner::health_potion(&mut w, 5, 5);
    map_indexing_system(&w, &mut map);
    let wall = map.xy_idx(0, 3);
    let mon = map.xy_idx(5, 5);
    let me = map.xy_idx(2, 2);
    assert!(map.blocked[wall]);
    assert!(map.blocked[mon]);
    assert!(!map.blocked[me]);
    assert_eq!(map.tile_content[mon], vec![m, potion]);
    assert_eq!(map.tile_content[me], vec![p]);
    assert!(map.tile_content[wall].is_empty());
}

#[test]
fn a_wall_between_breaks_the_line() {
    let mut map = open_map(10, 10);
    let i = map.xy_idx(4, 4);
    map.tiles[i] = TileType::Wall;
    assert!(!line_is_clear(&map, Position { x: 2, y: 4 }, Position { x: 6, y: 4 }));
    assert!(line_is_clear(&map, Position { x: 2, y: 4 }, Position { x: 4, y: 4 }));
    assert!(line_is_clear(&map, Position { x: 2, y: 2 }, Position { x: 6, y: 2 }));
}

#[test]
fn revealed_only_grows_and_covers_visible() {
    let map = open_map(30, 20);
    let mut w = World::new();
    let p = spawner::player(&mut w, 2, 2);
    let mut st = state_with(w, map, p, Position { x: 2, y: 2 });
    st.tick(None);
    let mut before = st.map.revealed_tiles.clone();
    let steps = [Direction::East, Direction::East, Direction::SouthEast, Direction::South, Direction::East];
    for d in steps.iter() {
        st.tick(Some(Input::Key(Command::Move(*d))));
        st.tick(None);
        st.tick(None);
        for i in 0..before.len() {
            if before[i] {
                assert!(st.map.revealed_tiles[i]);
            }
            if st.map.visible_tiles[i] {
                assert!(st.map.revealed_tiles[i]);
            }
        }
        before = st.map.revealed_tiles.clone();
    }
    assert_eq!(st.player_pos, Position { x: 6, y: 4 });
}
