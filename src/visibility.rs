use vstd::prelude::*;
use crate::components::Viewshed;
use crate::fov::{can_see, field_of_view, lemma_can_see_same_walls};
use crate::map::GameMap;
use crate::world::World;

verus! {

/// Every positioned entity stands on the map.
pub open spec fn positions_on_map(w: World, m: GameMap) -> bool {
    forall|i: int|
        0 <= i < w.len() && #[trigger] w.positions@[i] is Some ==> m.in_bounds(
            w.positions@[i]->0.x as int,
            w.positions@[i]->0.y as int,
        )
}

/// No two entities carry the player tag.
pub open spec fn at_most_one_player(w: World) -> bool {
    forall|i: int, j: int|
        0 <= i < w.len() && 0 <= j < w.len() && #[trigger] w.players@[i] is Some
            && #[trigger] w.players@[j] is Some ==> i == j
}

/// Slot `i` has a position and a viewshed marked for recomputation.
pub open spec fn needs_sight(w: World, i: int) -> bool {
    &&& w.viewsheds@[i] is Some
    &&& w.viewsheds@[i]->0.dirty
    &&& w.positions@[i] is Some
}

/// Slot `i` is the player and its sight is recomputed.
pub open spec fn player_needs_sight(w: World, i: int) -> bool {
    needs_sight(w, i) && w.players@[i] is Some
}

/// Tile `t` is seen from the position of slot `i` with the range of its viewshed.
pub open spec fn sees_tile(w: World, m: GameMap, i: int, t: int) -> bool {
    can_see(m, w.positions@[i]->0, m.pos_of(t), w.viewsheds@[i]->0.range as int)
}

/// What the sight system makes of a registry and a map.
pub open spec fn sight_effect(w0: World, m0: GameMap, w1: World, m1: GameMap) -> bool {
    &&& m1.same_but_sight(&m0)
    &&& w1.alive == w0.alive
    &&& w1.positions == w0.positions
    &&& w1.renderables == w0.renderables
    &&& w1.players == w0.players
    &&& w1.monsters == w0.monsters
    &&& w1.blockers == w0.blockers
    &&& w1.items == w0.items
    &&& w1.names == w0.names
    &&& w1.combat_stats == w0.combat_stats
    &&& w1.suffer_damage == w0.suffer_damage
    &&& w1.wants_to_melee == w0.wants_to_melee
    &&& w1.wants_to_pickup == w0.wants_to_pickup
    &&& w1.wants_to_drop == w0.wants_to_drop
    &&& w1.wants_to_drink == w0.wants_to_drink
    &&& w1.in_backpack == w0.in_backpack
    &&& w1.potions == w0.potions
    &&& forall|i: int|
            0 <= i < w1.len() && needs_sight(w0, i) ==> {
                let v = #[trigger] w1.viewsheds@[i];
                &&& v is Some
                &&& !v->0.dirty
                &&& v->0.range == w0.viewsheds@[i]->0.range
                &&& forall|p| #[trigger]
                    v->0.visible_tiles@.contains(p) <==> can_see(
                        m0,
                        w0.positions@[i]->0,
                        p,
                        v->0.range as int,
                    )
            }
    &&& forall|i: int|
            0 <= i < w1.len() && !needs_sight(w0, i) ==> #[trigger] w1.viewsheds@[i]
                == w0.viewsheds@[i]
    &&& forall|t: int|
            0 <= t < m1.count() && #[trigger] m0.revealed_tiles@[t] ==> m1.revealed_tiles@[t]
    &&& forall|t: int|
            0 <= t < m1.count() && #[trigger] m1.revealed_tiles@[t] ==> m0.revealed_tiles@[t]
                || m1.visible_tiles@[t]
    &&& forall|i: int, t: int|
            0 <= i < w1.len() && player_needs_sight(w0, i) && 0 <= t < m1.count()
                ==> (#[trigger] m1.visible_tiles@[t] <==> #[trigger] sees_tile(w0, m0, i, t))
    &&& (forall|i: int| 0 <= i < w0.len() ==> !#[trigger] player_needs_sight(w0, i))
            ==> m1.visible_tiles == m0.visible_tiles
}

/// The sight system.
pub struct VisibilitySystem {}

impl VisibilitySystem {
/// Recomputes every viewshed marked dirty from its owner's position, and
/// clears the mark. When the player's is recomputed, the map's visible layer
/// becomes exactly what the player sees, and that is added to what was
/// revealed. Other viewsheds leave the map alone.
pub fn run(&self, world: &mut World, map: &mut GameMap)
    requires
        old(world).wf(),
        old(map).wf(),
        positions_on_map(*old(world), *old(map)),
        at_most_one_player(*old(world)),
    ensures
        final(world).wf(),
        final(map).wf(),
        sight_effect(*old(world), *old(map), *final(world), *final(map)),
{
    let n = world.alive.len();
    let mut i: usize = 0;
    while i < n
        invariant
            i <= n,
            n == world.len(),
            world.wf(),
            map.wf(),
            old(map).wf(),
            map.same_but_sight(old(map)),
            world.alive == old(world).alive,
            world.positions == old(world).positions,
            world.renderables == old(world).renderables,
            world.players == old(world).players,
            world.monsters == old(world).monsters,
            world.blockers == old(world).blockers,
            world.items == old(world).items,
            world.names == old(world).names,
            world.combat_stats == old(world).combat_stats,
            world.suffer_damage == old(world).suffer_damage,
            world.wants_to_melee == old(world).wants_to_melee,
            world.wants_to_pickup == old(world).wants_to_pickup,
            world.wants_to_drop == old(world).wants_to_drop,
            world.wants_to_drink == old(world).wants_to_drink,
            world.in_backpack == old(world).in_backpack,
            world.potions == old(world).potions,
            positions_on_map(*old(world), *old(map)),
            at_most_one_player(*old(world)),
            forall|j: int|
                0 <= j < i && needs_sight(*old(world), j) ==> {
                    let v = #[trigger] world.viewsheds@[j];
                    &&& v is Some
                    &&& !v->0.dirty
                    &&& v->0.range == old(world).viewsheds@[j]->0.range
                    &&& forall|p| #[trigger]
                        v->0.visible_tiles@.contains(p) <==> can_see(
                            *old(map),
                            old(world).positions@[j]->0,
                            p,
                            v->0.range as int,
                        )
                },
            forall|j: int|
                0 <= j < n && !(j < i && needs_sight(*old(world), j)) ==> #[trigger] world.viewsheds@[j]
                    == old(world).viewsheds@[j],
            forall|t: int|
                0 <= t < map.count() && #[trigger] old(map).revealed_tiles@[t] ==> map.revealed_tiles@[t],
            forall|t: int|
                0 <= t < map.count() && #[trigger] map.revealed_tiles@[t] ==> old(map).revealed_tiles@[t]
                    || map.visible_tiles@[t],
            forall|j: int, t: int|
                0 <= j < i && player_needs_sight(*old(world), j) && 0 <= t < map.count()
                    ==> (#[trigger] map.visible_tiles@[t] <==> #[trigger] sees_tile(*old(world), *old(map), j, t)),
            (forall|j: int| 0 <= j < i ==> !#[trigger] player_needs_sight(*old(world), j))
                ==> map.visible_tiles == old(map).visible_tiles,
        decreases n - i,
    {
        let ghost wbefore = *world;
        let ghost mbefore = *map;
        let (dirty, range) = match &world.viewsheds[i] {
            Some(vs) => (vs.dirty, vs.range),
            None => (false, 0),
        };
        if dirty {
            if let Some(pos) = world.positions[i] {
                let seen = field_of_view(map, pos, range);
                if world.players[i].is_some() {
                    map.clear_visible();
                    proof {
                        assert forall|k: int| 0 <= k < seen@.len() implies map.in_bounds(
                            #[trigger] seen@[k].x as int,
                            seen@[k].y as int,
                        ) by {
                            assert(seen@.contains(seen@[k]));
                        }
                    }
                    let ghost mcleared = *map;
                    map.reveal_seen(&seen);
                    assert(player_needs_sight(*old(world), i as int));
                    proof {
                        assert forall|t: int| 0 <= t < map.count() implies (#[trigger] map.visible_tiles@[t]
                            <==> sees_tile(*old(world), *old(map), i as int, t)) by {
                            lemma_can_see_same_walls(mbefore, *old(map), pos, map.pos_of(t), range as int);
                            assert(seen@.contains(map.pos_of(t)) <==> sees_tile(*old(world), *old(map), i as int, t));
                        }
                        assert forall|t: int|
                            0 <= t < map.count() && #[trigger] map.revealed_tiles@[t] implies old(map).revealed_tiles@[t]
                                || map.visible_tiles@[t] by {
                            if seen@.contains(map.pos_of(t)) {
                                assert(map.visible_tiles@[t]);
                            } else {
                                assert(mcleared.revealed_tiles@[t]);
                                assert(mbefore.revealed_tiles@[t]);
                                if !old(map).revealed_tiles@[t] {
                                    assert(mbefore.visible_tiles@[t]);
                                    assert forall|j: int| 0 <= j < i implies !#[trigger] player_needs_sight(*old(world), j) by {
                                        if player_needs_sight(*old(world), j) {
                                            assert(old(world).players@[j] is Some && old(world).players@[i as int] is Some);
                                        }
                                    }
                                    assert(old(map).visible_tiles@[t]);
                                    assert(old(map).revealed_tiles@[t]);
                                }
                            }
                        }
                        assert forall|j: int, t: int|
                            0 <= j < i + 1 && player_needs_sight(*old(world), j) && 0 <= t < map.count()
                                implies (#[trigger] map.visible_tiles@[t] <==> #[trigger] sees_tile(
                                *old(world),
                                *old(map),
                                j,
                                t,
                            )) by {
                            assert(j == i);
                        }
                    }
                }
                proof {
                    assert forall|p| #[trigger] seen@.contains(p) <==> can_see(*old(map), pos, p, range as int) by {
                        lemma_can_see_same_walls(mbefore, *old(map), pos, p, range as int);
                    }
                }
                world.viewsheds.set(i, Some(Viewshed { visible_tiles: seen, range, dirty: false }));
            }
        }
        proof {
            assert forall|k: int| 0 <= k < world.len() && !#[trigger] world.alive@[k] implies world.bare(k) by {
                assert(wbefore.bare(k));
            }
            assert forall|k: int|
                0 <= k < world.len() && #[trigger] world.viewsheds@[k] is Some implies 0
                    <= world.viewsheds@[k]->0.range <= crate::fov::MAX_RANGE by {
                assert(wbefore.viewsheds@[k] is Some);
            }
        }
        i = i + 1;
    }
}

}

} // verus!
