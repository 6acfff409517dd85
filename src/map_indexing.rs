use vstd::prelude::*;
use crate::components::Entity;
use crate::map::{GameMap, idx_of};
use crate::visibility::positions_on_map;
use crate::world::World;

verus! {

/// Slot `i` stands on tile `t` of a grid `width` wide.
pub open spec fn stands_on(w: World, width: int, i: int, t: int) -> bool {
    w.positions@[i] is Some && idx_of(width, w.positions@[i]->0.x as int, w.positions@[i]->0.y as int) == t
}

/// A live blocking entity stands on tile `t`.
pub open spec fn blocker_on(w: World, m: GameMap, t: int) -> bool {
    exists|i: int| 0 <= i < w.len() && w.blockers@[i] is Some && #[trigger] stands_on(w, m.width as int, i, t)
}

/// What indexing makes of a map, for the registry `w`.
pub open spec fn index_effect(w: World, m0: GameMap, m1: GameMap) -> bool {
    &&& m1.tiles == m0.tiles
    &&& m1.rooms == m0.rooms
    &&& m1.width == m0.width
    &&& m1.height == m0.height
    &&& m1.revealed_tiles == m0.revealed_tiles
    &&& m1.visible_tiles == m0.visible_tiles
    &&& forall|t: int|
            0 <= t < m1.count() ==> (#[trigger] m1.blocked@[t] <==> (m1.is_wall(t)
                || blocker_on(w, m1, t)))
    &&& forall|t: int, e: Entity|
            0 <= t < m1.count() ==> (#[trigger] m1.tile_content@[t]@.contains(e) <==> (
            e.id < w.len() && stands_on(w, m1.width as int, e.id as int, t)))
    &&& forall|t: int, a: int, b: int|
        0 <= t < m1.count() && 0 <= a < b < m1.tile_content@[t]@.len()
            ==> (#[trigger] m1.tile_content@[t]@[a]).id < (#[trigger] m1.tile_content@[t]@[b]).id
}

/// Rebuilds the occupancy layers: a tile is blocked exactly when it is a wall
/// or holds a blocking entity, and each tile lists the entities standing on
/// it, in slot order.
pub fn map_indexing_system(world: &World, map: &mut GameMap)
    requires
        world.wf(),
        old(map).wf(),
        positions_on_map(*world, *old(map)),
    ensures
        final(map).wf(),
        index_effect(*world, *old(map), *final(map)),
{
    map.populate_blocked();
    map.clear_content_index();
    let n = world.alive.len();
    let mut i: usize = 0;
    while i < n
        invariant
            i <= n,
            n == world.len(),
            world.wf(),
            map.wf(),
            map.tiles == old(map).tiles,
            map.rooms == old(map).rooms,
            map.width == old(map).width,
            map.height == old(map).height,
            map.revealed_tiles == old(map).revealed_tiles,
            map.visible_tiles == old(map).visible_tiles,
            positions_on_map(*world, *map),
            forall|t: int|
                0 <= t < map.count() ==> (#[trigger] map.blocked@[t] <==> (map.is_wall(t) || exists|j: int|
                    0 <= j < i && world.blockers@[j] is Some && #[trigger] stands_on(*world, map.width as int, j, t))),
            forall|t: int, e: Entity|
                0 <= t < map.count() ==> (#[trigger] map.tile_content@[t]@.contains(e) <==> (e.id < i
                    && stands_on(*world, map.width as int, e.id as int, t))),
            forall|t: int, a: int, b: int|
                0 <= t < map.count() && 0 <= a < b < map.tile_content@[t]@.len()
                    ==> (#[trigger] map.tile_content@[t]@[a]).id < (#[trigger] map.tile_content@[t]@[b]).id,
        decreases n - i,
    {
        if let Some(p) = world.positions[i] {
            let idx = map.xy_idx(p.x, p.y);
            let ghost before = *map;
            if world.blockers[i].is_some() {
                map.blocked.set(idx, true);
            }
            let mut here = map.tile_content[idx].clone();
            let ghost here_before = here@;
            proof {
                assert forall|a: int| 0 <= a < here_before.len() implies (#[trigger] here_before[a]).id < i by {
                    assert(here_before.contains(here_before[a]));
                }
            }
            here.push(Entity { id: i });
            map.tile_content.set(idx, here);
            proof {
                assert forall|t: int| 0 <= t < map.count() implies (#[trigger] map.blocked@[t] <==> (map.is_wall(t)
                    || exists|j: int| 0 <= j < i + 1 && world.blockers@[j] is Some && #[trigger] stands_on(*world, map.width as int, j, t))) by {
                    assert(stands_on(*world, map.width as int, i as int, t) <==> t == idx);
                    if t != idx {
                        assert(map.blocked@[t] == before.blocked@[t]);
                    }
                }
                assert forall|t: int, e: Entity| 0 <= t < map.count() implies (#[trigger] map.tile_content@[t]@.contains(e)
                    <==> (e.id < i + 1 && stands_on(*world, map.width as int, e.id as int, t))) by {
                    if t == idx {
                        vstd::seq_lib::lemma_seq_contains_after_push(here_before, Entity { id: i }, e);
                    } else {
                        assert(map.tile_content@[t] == before.tile_content@[t]);
                    }
                }
            }
        } else {
            proof {
                assert forall|t: int| 0 <= t < map.count() implies (#[trigger] map.blocked@[t] <==> (map.is_wall(t)
                    || exists|j: int| 0 <= j < i + 1 && world.blockers@[j] is Some && #[trigger] stands_on(*world, map.width as int, j, t))) by {
                    assert(!stands_on(*world, map.width as int, i as int, t));
                }
            }
        }
        i = i + 1;
    }
}

} // verus!
