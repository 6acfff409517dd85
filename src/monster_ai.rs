use vstd::prelude::*;
use crate::components::{Entity, Position, Viewshed, WantsToMelee};
use crate::fov::dist2;
use crate::map::GameMap;
use crate::pathfinding::{a_star_search, no_cheaper, path_cost, path_ok, reachable, tile_step_ok};
use crate::visibility::positions_on_map;
use crate::world::World;

verus! {

/// Slot `i` is a monster with a position and a viewshed.
pub open spec fn monster_acts(w: World, i: int) -> bool {
    &&& w.monsters@[i] is Some
    &&& w.viewsheds@[i] is Some
    &&& w.positions@[i] is Some
}

/// The monster in slot `i` sees the tile `target`.
pub open spec fn alert(w: World, i: int, target: Position) -> bool {
    w.viewsheds@[i]->0.visible_tiles@.contains(target)
}

/// Euclidean distance below 1.5: the same tile or one of its eight neighbours.
pub open spec fn adjacent(a: Position, b: Position) -> bool {
    dist2(a, b) <= 2
}

/// What one round of monster decisions may do to slot `i`.
pub open spec fn ai_outcome(before: World, after: World, m: GameMap, target: Position, player: Entity, i: int) -> bool {
    let acts = monster_acts(before, i) && alert(before, i, target);
    let strike = acts && adjacent(before.positions@[i]->0, target);
    &&& after.wants_to_melee@[i] == if strike {
        Some(WantsToMelee { target: player })
    } else {
        before.wants_to_melee@[i]
    }
    &&& after.positions@[i] == before.positions@[i] || {
        let from = before.positions@[i]->0;
        let to = after.positions@[i]->0;
        &&& acts
        &&& !strike
        &&& after.positions@[i] is Some
        &&& -1 <= to.x - from.x <= 1
        &&& -1 <= to.y - from.y <= 1
        &&& 1 <= to.x <= m.width - 1
        &&& 1 <= to.y <= m.height - 1
        &&& after.viewsheds@[i] is Some
        &&& after.viewsheds@[i]->0.dirty
        &&& after.viewsheds@[i]->0.range == before.viewsheds@[i]->0.range
    }
    &&& after.positions@[i] == before.positions@[i] ==> after.viewsheds@[i] == before.viewsheds@[i]
}

/// Monster `i`, seeing the player from afar, steps to tile `next`: its
/// position and the blocked layer follow it, and its viewshed is marked dirty.
pub open spec fn moved_to(w0: World, m0: GameMap, w1: World, m1: GameMap, i: int, from: int, next: int) -> bool {
    &&& w1 == World { positions: w1.positions, viewsheds: w1.viewsheds, ..w0 }
    &&& w1.positions@ == w0.positions@.update(i, Some(m0.pos_of(next)))
    &&& w1.viewsheds@ == w0.viewsheds@.update(i, Some(Viewshed { dirty: true, ..w0.viewsheds@[i]->0 }))
    &&& m1 == GameMap { blocked: m1.blocked, ..m0 }
    &&& m1.blocked@ == m0.blocked@.update(from, false).update(next, true)
}

/// The turn of slot `i`, taken on the registry and map as they stand (`w0`,
/// `m0`). A monster that does not see the player's tile does nothing. One
/// next to it strikes. Otherwise, when a walk to the player exists, it steps
/// to the second tile of a cheapest one; when none exists it stays.
pub open spec fn ai_step(
    w0: World,
    m0: GameMap,
    w1: World,
    m1: GameMap,
    target: Position,
    player: Entity,
    i: int,
) -> bool {
    let pos = w0.positions@[i];
    if !(w0.monsters@[i] is Some && pos is Some && w0.viewsheds@[i] is Some
        && w0.viewsheds@[i]->0.visible_tiles@.contains(target)) {
        w1 == w0 && m1 == m0
    } else if adjacent(pos->0, target) {
        &&& w1 == World { wants_to_melee: w1.wants_to_melee, ..w0 }
        &&& w1.wants_to_melee@ == w0.wants_to_melee@.update(i, Some(WantsToMelee { target: player }))
        &&& m1 == m0
    } else {
        let from = m0.idx(pos->0.x as int, pos->0.y as int);
        let to = m0.idx(target.x as int, target.y as int);
        if !reachable(m0, from, to) {
            w1 == w0 && m1 == m0
        } else {
            exists|p: Seq<usize>|
                #[trigger] path_ok(m0, p, from, to) && no_cheaper(m0, from, to, path_cost(m0, p)) && if p.len()
                    > 1 {
                    moved_to(w0, m0, w1, m1, i, from, p[1] as int)
                } else {
                    w1 == w0 && m1 == m0
                }
        }
    }
}

/// Turn `i` in the trace `tr` of registry and map states.
pub open spec fn ai_round(tr: Seq<(World, GameMap)>, target: Position, player: Entity, i: int) -> bool {
    ai_step(tr[i].0, tr[i].1, tr[i + 1].0, tr[i + 1].1, target, player, i)
}

/// `tr` runs the monster turns of every slot, in slot order, from
/// `(w0, m0)` to `(w1, m1)`.
pub open spec fn ai_trace(
    w0: World,
    m0: GameMap,
    w1: World,
    m1: GameMap,
    target: Position,
    player: Entity,
    tr: Seq<(World, GameMap)>,
) -> bool {
    &&& tr.len() == w0.len() + 1
    &&& tr[0] == (w0, m0)
    &&& tr.last() == (w1, m1)
    &&& forall|i: int| 0 <= i < w0.len() ==> #[trigger] ai_round(tr, target, player, i)
}

/// The blocked layer covers every blocking entity, no two blocking entities
/// share a tile, and every monster blocks.
pub open spec fn blockers_apart(w: World, m: GameMap) -> bool {
    &&& forall|i: int|
        0 <= i < w.len() && #[trigger] w.blockers@[i] is Some && w.positions@[i] is Some ==> m.blocked@[m.idx(
            w.positions@[i]->0.x as int,
            w.positions@[i]->0.y as int,
        )]
    &&& forall|i: int, j: int|
        0 <= i < w.len() && 0 <= j < w.len() && i != j && #[trigger] w.blockers@[i] is Some
            && #[trigger] w.blockers@[j] is Some && w.positions@[i] is Some ==> w.positions@[j]
            != w.positions@[i]
    &&& forall|i: int| 0 <= i < w.len() && #[trigger] w.monsters@[i] is Some ==> w.blockers@[i] is Some
}

/// Whether `tiles` holds `p`.
pub fn contains_position(tiles: &Vec<Position>, p: Position) -> (r: bool)
    ensures
        r == tiles@.contains(p),
{
    let mut k: usize = 0;
    while k < tiles.len()
        invariant
            k <= tiles@.len(),
            forall|j: int| 0 <= j < k ==> tiles@[j] != p,
        decreases tiles@.len() - k,
    {
        if tiles[k] == p {
            return true;
        }
        k = k + 1;
    }
    false
}

/// The monster decision system.
pub struct MonsterAI {}

impl MonsterAI {
/// One round of monster decisions, in slot order, each taken on the registry
/// and map as the earlier ones left them (`ai_trace`). A monster that sees the
/// player's tile strikes when next to it, and otherwise takes the first step
/// of a shortest path towards it, updating the blocked layer at once so that
/// later monsters see the move. A monster that does not see the player idles.
pub fn run(&self, world: &mut World, map: &mut GameMap, player_pos: Position, player: Entity)
    requires
        old(world).wf(),
        old(map).wf(),
        positions_on_map(*old(world), *old(map)),
        old(map).in_bounds(player_pos.x as int, player_pos.y as int),
    ensures
        final(world).wf(),
        final(map).wf(),
        positions_on_map(*final(world), *final(map)),
        final(map).tiles == old(map).tiles,
        final(map).rooms == old(map).rooms,
        final(map).width == old(map).width,
        final(map).height == old(map).height,
        final(map).revealed_tiles == old(map).revealed_tiles,
        final(map).visible_tiles == old(map).visible_tiles,
        final(map).tile_content == old(map).tile_content,
            final(world).alive == old(world).alive,
            final(world).renderables == old(world).renderables,
            final(world).players == old(world).players,
            final(world).monsters == old(world).monsters,
            final(world).blockers == old(world).blockers,
            final(world).items == old(world).items,
            final(world).names == old(world).names,
            final(world).combat_stats == old(world).combat_stats,
            final(world).suffer_damage == old(world).suffer_damage,
            final(world).wants_to_pickup == old(world).wants_to_pickup,
            final(world).wants_to_drop == old(world).wants_to_drop,
            final(world).wants_to_drink == old(world).wants_to_drink,
            final(world).in_backpack == old(world).in_backpack,
            final(world).potions == old(world).potions,
        forall|i: int|
            0 <= i < final(world).len() ==> #[trigger] ai_outcome(*old(world), *final(world), *old(map), player_pos, player, i),
        exists|tr: Seq<(World, GameMap)>|
            #[trigger] ai_trace(*old(world), *old(map), *final(world), *final(map), player_pos, player, tr),
        blockers_apart(*old(world), *old(map)) ==> blockers_apart(*final(world), *final(map)),
{
    let n = world.alive.len();
    let mut i: usize = 0;
    let ghost mut tr: Seq<(World, GameMap)> = seq![(*world, *map)];
    while i < n
        invariant
            i <= n,
            n == world.len(),
            world.wf(),
            map.wf(),
            positions_on_map(*world, *map),
            map.in_bounds(player_pos.x as int, player_pos.y as int),
            map.tiles == old(map).tiles,
            map.rooms == old(map).rooms,
            map.width == old(map).width,
            map.height == old(map).height,
            map.revealed_tiles == old(map).revealed_tiles,
            map.visible_tiles == old(map).visible_tiles,
            map.tile_content == old(map).tile_content,
            world.alive == old(world).alive,
            world.renderables == old(world).renderables,
            world.players == old(world).players,
            world.monsters == old(world).monsters,
            world.blockers == old(world).blockers,
            world.items == old(world).items,
            world.names == old(world).names,
            world.combat_stats == old(world).combat_stats,
            world.suffer_damage == old(world).suffer_damage,
            world.wants_to_pickup == old(world).wants_to_pickup,
            world.wants_to_drop == old(world).wants_to_drop,
            world.wants_to_drink == old(world).wants_to_drink,
            world.in_backpack == old(world).in_backpack,
            world.potions == old(world).potions,
            forall|j: int| 0 <= j < i ==> #[trigger] ai_outcome(*old(world), *world, *old(map), player_pos, player, j),
            forall|j: int| i <= j < n ==> #[trigger] world.positions@[j] == old(world).positions@[j],
            forall|j: int| i <= j < n ==> #[trigger] world.viewsheds@[j] == old(world).viewsheds@[j],
            forall|j: int| i <= j < n ==> #[trigger] world.wants_to_melee@[j] == old(world).wants_to_melee@[j],
            tr.len() == i + 1,
            tr[0] == (*old(world), *old(map)),
            tr.last() == (*world, *map),
            forall|j: int| 0 <= j < i ==> #[trigger] ai_round(tr, player_pos, player, j),
            blockers_apart(*old(world), *old(map)) ==> blockers_apart(*world, *map),
        decreases n - i,
    {
        let ghost wbefore = *world;
        let ghost mbefore = *map;
        let ghost tr_old = tr;
        let ghost mut wit: Seq<usize> = seq![];
        if world.monsters[i].is_some() {
            if let Some(pos) = world.positions[i] {
                let sees = match &world.viewsheds[i] {
                    Some(vs) => contains_position(&vs.visible_tiles, player_pos),
                    None => false,
                };
                if sees {
                    let dx: i64 = pos.x as i64 - player_pos.x as i64;
                    let dy: i64 = pos.y as i64 - player_pos.y as i64;
                    assert(0 <= dx * dx <= 1000000000000 && 0 <= dy * dy <= 1000000000000) by (nonlinear_arith)
                        requires
                            -1000000 <= dx <= 1000000,
                            -1000000 <= dy <= 1000000,
                    ;
                    assert(dist2(pos, player_pos) == dx * dx + dy * dy) by (nonlinear_arith)
                        requires
                            dx == pos.x - player_pos.x,
                            dy == pos.y - player_pos.y,
                    ;
                    if dx * dx + dy * dy <= 2 {
                        world.wants_to_melee.set(i, Some(WantsToMelee { target: player }));
                    } else {
                        let from = map.xy_idx(pos.x, pos.y);
                        let to = map.xy_idx(player_pos.x, player_pos.y);
                        let path = a_star_search(map, from, to);
                        if let Some(steps) = path {
                            proof {
                                wit = steps@;
                            }
                            if steps.len() > 1 {
                                let next = steps[1];
                                proof {
                                    assert(tile_step_ok(*map, steps@[0] as int, steps@[1] as int));
                                    map.lemma_idx(pos.x as int, pos.y as int);
                                    map.lemma_coords(next as int);
                                }
                                map.blocked.set(from, false);
                                let w = map.width as usize;
                                let nx = (next % w) as i32;
                                let ny = (next / w) as i32;
                                world.positions.set(i, Some(Position { x: nx, y: ny }));
                                map.blocked.set(next, true);
                                let vs = world.viewsheds[i].take();
                                if let Some(v) = vs {
                                    world.viewsheds.set(i, Some(Viewshed { dirty: true, ..v }));
                                }
                                proof {
                                    assert(world.viewsheds@ =~= wbefore.viewsheds@.update(
                                        i as int,
                                        Some(Viewshed { dirty: true, ..wbefore.viewsheds@[i as int]->0 }),
                                    ));
                                    assert(moved_to(wbefore, mbefore, *world, *map, i as int, from as int, wit[1] as int));
                                    if blockers_apart(*old(world), *old(map)) {
                                        assert(blockers_apart(wbefore, mbefore));
                                        assert(!mbefore.blocked@[next as int]);
                                        assert(wbefore.blockers@[i as int] is Some);
                                        assert forall|k: int|
                                            0 <= k < world.len() && #[trigger] world.blockers@[k] is Some
                                                && world.positions@[k] is Some implies map.blocked@[map.idx(
                                                world.positions@[k]->0.x as int,
                                                world.positions@[k]->0.y as int,
                                            )] by {
                                            if k != i {
                                                let q = wbefore.positions@[k]->0;
                                                assert(wbefore.positions@[k] != wbefore.positions@[i as int]);
                                                mbefore.lemma_idx(q.x as int, q.y as int);
                                                assert(mbefore.idx(q.x as int, q.y as int) != from);
                                            }
                                        }
                                        assert forall|k: int, j: int|
                                            0 <= k < world.len() && 0 <= j < world.len() && k != j
                                                && #[trigger] world.blockers@[k] is Some && #[trigger] world.blockers@[j] is Some
                                                && world.positions@[k] is Some implies world.positions@[j]
                                                != world.positions@[k] by {
                                            if k == i as int || j == i as int {
                                                let other = if k == i as int { j } else { k };
                                                if wbefore.positions@[other] is Some {
                                                    let q = wbefore.positions@[other]->0;
                                                    mbefore.lemma_idx(q.x as int, q.y as int);
                                                    assert(mbefore.blocked@[mbefore.idx(q.x as int, q.y as int)]);
                                                    assert(mbefore.idx(q.x as int, q.y as int) != next);
                                                    assert(mbefore.pos_of(next as int) != q);
                                                }
                                            }
                                        }
                                    }
                                }
                            }
                            proof {
                                assert(path_ok(mbefore, wit, from as int, to as int));
                            }
                        }
                    }
                }
            }
        }
        proof {
            tr = tr.push((*world, *map));
            assert(ai_round(tr, player_pos, player, i as int));
            assert forall|j: int| 0 <= j < i + 1 implies #[trigger] ai_round(tr, player_pos, player, j) by {
                if j < i {
                    assert(ai_round(tr_old, player_pos, player, j));
                    assert(tr[j] == tr_old[j] && tr[j + 1] == tr_old[j + 1]);
                }
            }
        }
        proof {
            assert forall|k: int| 0 <= k < world.len() && !#[trigger] world.alive@[k] implies world.bare(k) by {
                assert(wbefore.bare(k));
            }
            assert forall|k: int|
                0 <= k < world.len() && #[trigger] world.viewsheds@[k] is Some implies 0
                    <= world.viewsheds@[k]->0.range <= crate::fov::MAX_RANGE by {
                assert(wbefore.viewsheds@[k] is Some);
            }
            assert(ai_outcome(*old(world), *world, *old(map), player_pos, player, i as int));
            assert forall|j: int| 0 <= j < i + 1 implies #[trigger] ai_outcome(*old(world), *world, *old(map), player_pos, player, j) by {
                if j < i {
                    assert(ai_outcome(*old(world), wbefore, *old(map), player_pos, player, j));
                    assert(world.positions@[j] == wbefore.positions@[j]);
                    assert(world.viewsheds@[j] == wbefore.viewsheds@[j]);
                    assert(world.wants_to_melee@[j] == wbefore.wants_to_melee@[j]);
                }
            }
        }
        i = i + 1;
    }
    assert(ai_trace(*old(world), *old(map), *world, *map, player_pos, player, tr));
}

}

} // verus!
