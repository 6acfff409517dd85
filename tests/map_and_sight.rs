use bracket_lib::prelude::RandomNumberGenerator;
use roguelike::components::Position;
use roguelike::fov::field_of_view;
use roguelike::map::{GameMap, TileType, MAPHEIGHT, MAPWIDTH, MAX_ROOMS};
use roguelike::pathfinding::a_star_search;
use roguelike::rect::Rect;
use roguelike::spawner;
use roguelike::state::State;
use roguelike::world::World;

fn open_map(w: i32, h: i32) -> GameMap {
    let mut m = GameMap::new_filled(w, h, TileType::Floor);
    for x in 0..w {
        let a = m.xy_idx(x, 0);
        let b = m.xy_idx(x, h - 1);
        m.tiles[a] = TileType::Wall;
        m.tiles[b] = TileType::Wall;
    }
    for y in 0..h {
        let a = m.xy_idx(0, y);
        let b = m.xy_idx(w - 1, y);
        m.tiles[a] = TileType::Wall;
        m.tiles[b] = TileType::Wall;
    }
    m.populate_blocked();
    m
}

#[test]
fn rect_overlap_is_inclusive() {
    let a = Rect::new(0, 0, 4, 4);
    let b = Rect::new(4, 4, 2, 2);
    let c = Rect::new(5, 0, 2, 2);
    assert!(a.intersect(&b));
    assert!(!a.intersect(&c));
    assert_eq!(a.center(), (2, 2));
    assert_eq!(Rect::new(1, 1, 5, 3).center(), (3, 2));
}

#[test]
fn xy_idx_is_row_major() {
    let m = GameMap::new_filled(80, 50, TileType::Wall);
    assert_eq!(m.xy_idx(0, 0), 0);
    assert_eq!(m.xy_idx(79, 0), 79);
    assert_eq!(m.xy_idx(3, 2), 163);
    assert_eq!(m.xy_idx(79, 49), 3999);
}

fn reachable_from(m: &GameMap, start: usize) -> Vec<bool> {
    let w = m.width as usize;
    let mut seen = vec![false; m.tiles.len()];
    let mut stack = vec![start];
    seen[start] = true;
    while let Some(i) = stack.pop() {
        let x = (i % w) as i32;
        let y = (i / w) as i32;
        for (dx, dy) in [(-1, 0), (1, 0), (0, -1), (0, 1)] {
            let nx = x + dx;
            let ny = y + dy;
            if nx >= 0 && ny >= 0 && nx < m.width && ny < m.height {
                let j = m.xy_idx(nx, ny);
                if !seen[j] && m.tiles[j] == TileType::Floor {
                    seen[j] = true;
                    stack.push(j);
                }
            }
        }
    }
    seen
}

#[test]
fn generated_maps_are_connected_and_rooms_apart() {
    for seed in 0..20u64 {
        let mut rng = RandomNumberGenerator::seeded(seed);
        let m = GameMap::new_map_rooms_and_corridors(&mut rng);
        assert_eq!(m.width, MAPWIDTH);
        assert_eq!(m.height, MAPHEIGHT);
        assert!(!m.rooms.is_empty());
        assert!(m.rooms.len() <= MAX_ROOMS as usize);
        for i in 0..m.rooms.len() {
            let r = m.rooms[i];
            assert!(r.x1 >= 0 && r.y1 >= 0 && r.x2 <= MAPWIDTH - 2 && r.y2 <= MAPHEIGHT - 2);
            for j in (i + 1)..m.rooms.len() {
                assert!(!r.intersect(&m.rooms[j]));
            }
        }
        let (cx, cy) = m.rooms[0].center();
        let seen = reachable_from(&m, m.xy_idx(cx, cy));
        for i in 0..m.tiles.len() {
            if m.tiles[i] == TileType::Floor {
                assert!(seen[i], "seed {} tile {}", seed, i);
            }
        }
        assert!(m.revealed_tiles.iter().all(|r| !r));
        assert!(m.blocked.iter().all(|b| !b));
    }
}

#[test]
fn new_game_places_player_in_first_room() {
    let mut rng = RandomNumberGenerator::seeded(7);
    let st = State::new_game(&mut rng);
    let (cx, cy) = st.map.rooms[0].center();
    assert_eq!(st.player_pos, Position { x: cx, y: cy });
    assert_eq!(st.world.positions[st.player_entity.id], Some(st.player_pos));
    assert_eq!(st.world.alive.len(), st.map.rooms.len());
    let monsters = st.world.monsters.iter().filter(|m| m.is_some()).count();
    assert_eq!(monsters, st.map.rooms.len() - 1);
}

#[test]
fn monster_glyphs_are_code_page_letters() {
    let mut w = World::new();
    let o = spawner::orc(&mut w, 1, 1);
    let g = spawner::goblin(&mut w, 2, 2);
    let p = spawner::player(&mut w, 3, 3);
    assert_eq!(w.renderables[o.id].unwrap().glyph, 111);
    assert_eq!(w.renderables[g.id].unwrap().glyph, 103);
    assert_eq!(w.renderables[p.id].unwrap().glyph, 64);
    let mut rng = RandomNumberGenerator::seeded(3);
    let r = spawner::random_monster(&mut w, &mut rng, 4, 4);
    let glyph = w.renderables[r.id].unwrap().glyph;
    assert!(glyph == 111 || glyph == 103);
}

fn wall_map() -> GameMap {
    let mut m = open_map(21, 21);
    for (x, y) in [(10, 8), (10, 9), (10, 10), (12, 12), (7, 13), (13, 6)] {
        let i = m.xy_idx(x, y);
        m.tiles[i] = TileType::Wall;
    }
    m.populate_blocked();
    m
}

#[test]
fn sight_is_symmetric() {
    let m = wall_map();
    let range = 8;
    for ay in 1..20 {
        for ax in 1..20 {
            let a = Position { x: ax, y: ay };
            let seen = field_of_view(&m, a, range);
            for b in seen.iter() {
                let back = field_of_view(&m, *b, range);
                assert!(back.contains(&a), "{:?} sees {:?} but not back", a, b);
            }
        }
    }
}

#[test]
fn walls_hide_what_is_behind_them() {
    let m = wall_map();
    let seen = field_of_view(&m, Position { x: 8, y: 9 }, 8);
    assert!(seen.contains(&Position { x: 10, y: 9 }));
    assert!(!seen.contains(&Position { x: 12, y: 9 }));
    assert!(seen.contains(&Position { x: 8, y: 1 }));
    assert!(!seen.contains(&Position { x: 8, y: 18 }));
    for p in seen.iter() {
        assert!(p.x >= 0 && p.x < 21 && p.y >= 0 && p.y < 21);
    }
    let zero = field_of_view(&m, Position { x: 5, y: 5 }, 0);
    assert_eq!(zero, vec![Position { x: 5, y: 5 }]);
}

#[test]
fn path_avoids_blocked_tiles_and_cut_corners() {
    let mut m = open_map(12, 12);
    let start = m.xy_idx(5, 5);
    let goal = m.xy_idx(6, 6);
    let direct = a_star_search(&m, start, goal).unwrap();
    assert_eq!(direct, vec![start, goal]);
    let flank = m.xy_idx(6, 5);
    m.blocked[flank] = true;
    let around = a_star_search(&m, start, goal).unwrap();
    assert_eq!(around.len(), 3);
    assert!(!around.contains(&flank));
    assert_eq!(around[1], m.xy_idx(5, 6));
    let exits = m.get_available_exits(start);
    let targets: Vec<usize> = exits.iter().map(|e| e.0).collect();
    assert_eq!(targets, vec![m.xy_idx(4, 5), m.xy_idx(5, 4), m.xy_idx(5, 6), m.xy_idx(4, 4), m.xy_idx(4, 6)]);
    assert_eq!(exits[0].1, 100);
    assert_eq!(exits[3].1, 145);
}

#[test]
fn walled_off_goal_has_no_path() {
    let mut m = open_map(12, 12);
    for y in 0..12 {
        let i = m.xy_idx(6, y);
        m.blocked[i] = true;
    }
    let start = m.xy_idx(3, 3);
    let goal = m.xy_idx(9, 3);
    assert!(a_star_search(&m, start, goal).is_none());
    let near = m.xy_idx(3, 8);
    let path = a_star_search(&m, start, near).unwrap();
    assert_eq!(path.len(), 6);
    for w in path.windows(2) {
        assert!(!m.blocked[w[1]]);
    }
}

#[test]
fn pathing_distance_is_octile() {
    let m = open_map(20, 20);
    assert_eq!(m.get_pathing_distance(m.xy_idx(1, 1), m.xy_idx(4, 2)), 345);
    assert_eq!(m.get_pathing_distance(m.xy_idx(4, 2), m.xy_idx(1, 1)), 345);
    assert_eq!(m.get_pathing_distance(m.xy_idx(2, 2), m.xy_idx(2, 2)), 0);
}

#[test]
fn tunnels_carve_only_inside_the_grid() {
    let mut m = GameMap::new_filled(10, 6, TileType::Wall);
    m.apply_horizontal_tunnel(8, 14, 2);
    m.apply_vertical_tunnel(-3, 1, 4);
    m.apply_room_to_map(&Rect::new(0, 2, 2, 2));
    let floors: Vec<usize> = (0..60).filter(|i| m.tiles[*i] == TileType::Floor).collect();
    assert_eq!(floors, vec![4, 14, 28, 29, 31, 32, 41, 42]);
    let _ = World::new();
}

#[test]
fn test_layout_has_a_wall_frame_and_an_open_centre() {
    let base = GameMap::new_filled(MAPWIDTH, MAPHEIGHT, TileType::Floor);
    let mut rng = RandomNumberGenerator::seeded(11);
    let tiles = base.new_map_test(&mut rng);
    assert_eq!(tiles.len(), 4000);
    for x in 0..80 {
        assert_eq!(tiles[base.xy_idx(x, 0)], TileType::Wall);
        assert_eq!(tiles[base.xy_idx(x, 49)], TileType::Wall);
    }
    for y in 0..50 {
        assert_eq!(tiles[base.xy_idx(0, y)], TileType::Wall);
        assert_eq!(tiles[base.xy_idx(79, y)], TileType::Wall);
    }
    assert_eq!(tiles[base.xy_idx(40, 25)], TileType::Floor);
    let inner_walls = (1..49)
        .flat_map(|y| (1..79).map(move |x| (x, y)))
        .filter(|(x, y)| tiles[base.xy_idx(*x, *y)] == TileType::Wall)
        .count();
    assert!(inner_walls > 0 && inner_walls <= 400);
}

#[test]
fn path_around_a_wall_is_cheapest() {
    let mut m = open_map(12, 12);
    for y in 2..10 {
        let i = m.xy_idx(5, y);
        m.blocked[i] = true;
    }
    let start = m.xy_idx(3, 5);
    let goal = m.xy_idx(7, 5);
    let path = a_star_search(&m, start, goal).unwrap();
    let mut cost = 0;
    for w in path.windows(2) {
        let (ax, ay) = (w[0] % 12, w[0] / 12);
        let (bx, by) = (w[1] % 12, w[1] / 12);
        cost += if ax != bx && ay != by { 145 } else { 100 };
        assert!(!m.blocked[w[1]]);
    }
    assert_eq!(path[0], start);
    assert_eq!(*path.last().unwrap(), goal);
    assert_eq!(cost, 1090);
}

#[test]
fn exits_of_open_centre_follow_the_fixed_order() {
    let m = GameMap::new_filled(5, 5, TileType::Floor);
    let exits = m.get_available_exits(12);
    assert_eq!(exits, vec![(11, 100), (13, 100), (7, 100), (17, 100), (6, 145), (8, 145), (16, 145), (18, 145)]);
}

#[test]
fn roll_of_one_gives_an_orc() {
    let mut w = World::new();
    let o = spawner::monster_of_roll(&mut w, 1, 2, 2);
    let g = spawner::monster_of_roll(&mut w, 2, 3, 3);
    assert_eq!(w.names[o.id].as_ref().unwrap().name, "Orc");
    assert_eq!(w.names[g.id].as_ref().unwrap().name, "Goblin");
    assert_eq!(w.combat_stats[o.id].unwrap().hp, 16);
    assert!(w.blockers[g.id].is_some());
}

#[test]
fn placed_room_is_carved_and_joined() {
    let mut m = GameMap::new_filled(MAPWIDTH, MAPHEIGHT, TileType::Wall);
    let a = Rect::new(2, 2, 4, 4);
    let b = Rect::new(20, 10, 4, 4);
    assert!(m.room_is_free(&a));
    m.place_room(a, true);
    assert!(m.room_is_free(&b));
    assert!(!m.room_is_free(&Rect::new(4, 4, 3, 3)));
    m.place_room(b, true);
    assert_eq!(m.rooms.len(), 2);
    assert_eq!(m.tiles[m.xy_idx(10, 4)], TileType::Floor);
    assert_eq!(m.tiles[m.xy_idx(22, 8)], TileType::Floor);
    assert_eq!(m.tiles[m.xy_idx(4, 8)], TileType::Wall);
}

#[test]
fn spots_become_walls_except_the_kept_tile() {
    let m = GameMap::new_filled(MAPWIDTH, MAPHEIGHT, TileType::Floor);
    let tiles = m.layout_with_spots(&vec![(3, 3), (40, 25), (79, 10)]);
    assert_eq!(tiles[m.xy_idx(3, 3)], TileType::Wall);
    assert_eq!(tiles[m.xy_idx(40, 25)], TileType::Floor);
    assert_eq!(tiles[m.xy_idx(4, 3)], TileType::Floor);
    let walls = tiles.iter().filter(|t| **t == TileType::Wall).count();
    assert_eq!(walls, 2 * 80 + 2 * 48 + 1);
}
