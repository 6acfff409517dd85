use vstd::prelude::*;
use crate::components::{CombatStats, Entity, InBackpack, Position};
use crate::gamelog::{GameLog, LogEvent};
use crate::combat::{log_extends, name_of};
use crate::world::World;

verus! {

/// `after` is `before` with `item` moved from the ground into the pack of `owner`.
pub open spec fn picked_up(before: World, after: World, item: Entity, owner: Entity) -> bool {
    &&& after.alive == before.alive
    &&& after.renderables == before.renderables
    &&& after.players == before.players
    &&& after.monsters == before.monsters
    &&& after.blockers == before.blockers
    &&& after.items == before.items
    &&& after.names == before.names
    &&& after.viewsheds == before.viewsheds
    &&& after.combat_stats == before.combat_stats
    &&& after.suffer_damage == before.suffer_damage
    &&& after.wants_to_melee == before.wants_to_melee
    &&& after.wants_to_pickup == before.wants_to_pickup
    &&& after.wants_to_drop == before.wants_to_drop
    &&& after.wants_to_drink == before.wants_to_drink
    &&& after.potions == before.potions
    &&& after.positions@ == before.positions@.update(item.id as int, None)
    &&& after.in_backpack@ == before.in_backpack@.update(item.id as int, Some(InBackpack { owner }))
}

/// `after` is `before` with `item` taken out of any pack and laid at `at`.
pub open spec fn dropped(before: World, after: World, item: Entity, at: Position) -> bool {
    &&& after.alive == before.alive
    &&& after.renderables == before.renderables
    &&& after.players == before.players
    &&& after.monsters == before.monsters
    &&& after.blockers == before.blockers
    &&& after.items == before.items
    &&& after.names == before.names
    &&& after.viewsheds == before.viewsheds
    &&& after.combat_stats == before.combat_stats
    &&& after.suffer_damage == before.suffer_damage
    &&& after.wants_to_melee == before.wants_to_melee
    &&& after.wants_to_pickup == before.wants_to_pickup
    &&& after.wants_to_drop == before.wants_to_drop
    &&& after.wants_to_drink == before.wants_to_drink
    &&& after.potions == before.potions
    &&& after.positions@ == before.positions@.update(item.id as int, Some(at))
    &&& after.in_backpack@ == before.in_backpack@.update(item.id as int, None)
}

/// Health after drinking a potion that heals `heal`: raised, but never past
/// the maximum.
pub open spec fn healed_hp(s: CombatStats, heal: int) -> int {
    if s.hp + heal > s.max_hp {
        s.max_hp as int
    } else {
        s.hp + heal
    }
}

/// Puts `item` into the pack of `owner`; it leaves the ground.
pub fn pick_up(world: &mut World, item: Entity, owner: Entity)
    requires
        old(world).wf(),
        old(world).is_live(item),
    ensures
        final(world).wf(),
        picked_up(*old(world), *final(world), item, owner),
{
    world.positions.set(item.id, None);
    world.in_backpack.set(item.id, Some(InBackpack { owner }));
    proof {
        assert forall|k: int| 0 <= k < world.len() && !#[trigger] world.alive@[k] implies world.bare(k) by {
            assert(old(world).bare(k));
        }
    }
}

/// Lays `item` on the ground at `at`; it leaves any pack.
pub fn drop_item(world: &mut World, item: Entity, at: Position)
    requires
        old(world).wf(),
        old(world).is_live(item),
    ensures
        final(world).wf(),
        dropped(*old(world), *final(world), item, at),
{
    world.positions.set(item.id, Some(at));
    world.in_backpack.set(item.id, None);
    proof {
        assert forall|k: int| 0 <= k < world.len() && !#[trigger] world.alive@[k] implies world.bare(k) by {
            assert(old(world).bare(k));
        }
    }
}

/// Picking an item up and then dropping it where its owner stands puts it on
/// the owner's tile, in no pack, and leaves every other slot as it was.
pub proof fn lemma_pickup_then_drop(w0: World, w1: World, w2: World, item: Entity, actor: Entity)
    requires
        w0.wf(),
        w0.is_live(item),
        w0.is_live(actor),
        item != actor,
        w0.positions@[actor.id as int] is Some,
        picked_up(w0, w1, item, actor),
        dropped(w1, w2, item, w1.positions@[actor.id as int]->0),
    ensures
        w2.positions@[item.id as int] == w0.positions@[actor.id as int],
        w2.in_backpack@[item.id as int] is None,
        forall|k: int| 0 <= k < w0.len() && k != item.id ==> #[trigger] w2.same_slot(w0, k),
{
}

/// What `drinker` drinking `potion` makes of a registry: health raised by
/// the potion's amount up to the maximum and the potion destroyed, or nothing
/// when either part is missing.
pub open spec fn drink_effect(w0: World, w1: World, drinker: Entity, potion: Entity) -> bool {
    let heal = w0.potions@[potion.id as int];
    let stats = w0.combat_stats@[drinker.id as int];
    &&& w1.len() == w0.len()
    &&& forall|k: int| 0 <= k < w1.len() && k != potion.id ==> #[trigger] w1.alive@[k] == w0.alive@[k]
    &&& if heal is Some && stats is Some && heal->0.heal_amount >= 0 {
        &&& w1.combat_stats@[drinker.id as int] == Some(
            CombatStats { hp: healed_hp(stats->0, heal->0.heal_amount as int) as i32, ..stats->0 },
        )
        &&& !w1.alive@[potion.id as int]
        &&& w1.bare(potion.id as int)
        &&& w1.same_slot_but_stats(w0, drinker.id as int)
        &&& w1.wants_to_drink@[drinker.id as int] == w0.wants_to_drink@[drinker.id as int]
        &&& forall|k: int|
            0 <= k < w1.len() && k != potion.id && k != drinker.id ==> #[trigger] w1.same_slot(w0, k)
    } else {
        w1 == w0
    }
}

/// The drink intent of slot `i` in `w0`, carried out (`w1`).
pub open spec fn drink_step(w0: World, w1: World, i: int) -> bool {
    match w0.wants_to_drink@[i] {
        Some(intent) => if intent.potion.id < w0.len() && intent.potion.id != i {
            drink_effect(w0, w1, Entity { id: i as usize }, intent.potion)
        } else {
            w1 == w0
        },
        None => w1 == w0,
    }
}

/// `w1` is `w0` with the drink intent of slot `i` consumed.
pub open spec fn drink_cleared(w0: World, w1: World, i: int) -> bool {
    w1 == World { wants_to_drink: w1.wants_to_drink, ..w0 } && w1.wants_to_drink@ == w0.wants_to_drink@.update(
        i,
        None,
    )
}

/// Round `i` of the drink pass in the trace `tr`: the intent of slot `i` is
/// carried out on the registry as it stands, then consumed.
pub open spec fn drink_round(tr: Seq<World>, i: int) -> bool {
    drink_step(tr[2 * i], tr[2 * i + 1], i) && drink_cleared(tr[2 * i + 1], tr[2 * i + 2], i)
}

/// `tr` runs the drink pass over every slot, in slot order, from `w0` to `w1`.
pub open spec fn drink_trace(w0: World, w1: World, tr: Seq<World>) -> bool {
    &&& tr.len() == 2 * w0.len() + 1
    &&& tr[0] == w0
    &&& tr.last() == w1
    &&& forall|i: int| 0 <= i < w0.len() ==> #[trigger] drink_round(tr, i)
}

/// The drinker's health rises by the potion's amount, up to its maximum, and
/// the potion is destroyed. Nothing happens when either part is missing.
pub fn drink_potion(world: &mut World, log: &mut GameLog, drinker: Entity, potion: Entity)
    requires
        old(world).wf(),
        drinker.id < old(world).len(),
        potion.id < old(world).len(),
        drinker != potion,
    ensures
        final(world).wf(),
        log_extends(final(log).entries@, old(log).entries@),
        drink_effect(*old(world), *final(world), drinker, potion),
{
    if let Some(p) = world.potions[potion.id] {
        if let Some(st) = world.combat_stats[drinker.id] {
            if p.heal_amount >= 0 {
                let raised: i64 = st.hp as i64 + p.heal_amount as i64;
                let hp: i32 = if raised > st.max_hp as i64 { st.max_hp } else { raised as i32 };
                world.combat_stats.set(drinker.id, Some(CombatStats { hp, ..st }));
                let potion_name = name_of(world, potion.id);
                log.entries.push(LogEvent::Drank { potion: potion_name, healed: p.heal_amount });
                proof {
                    assert forall|k: int| 0 <= k < world.len() && !#[trigger] world.alive@[k] implies world.bare(k) by {
                        assert(old(world).bare(k));
                    }
                    assert forall|k: int|
                        0 <= k < world.len() && #[trigger] world.combat_stats@[k] is Some implies crate::world::stats_ok(
                            world.combat_stats@[k]->0,
                        ) by {
                        assert(old(world).combat_stats@[k] is Some);
                    }
                    assert(log.entries@.subrange(0, old(log).entries@.len() as int) =~= old(log).entries@);
                }
                world.delete_entity(potion);
            }
        }
    }
    proof {
        assert(log.entries@.subrange(0, old(log).entries@.len() as int) =~= old(log).entries@);
    }
}


/// Some pickup intent of a slot below `upto` names the live item `k`.
pub open spec fn pickup_named(w: World, k: int, upto: int) -> bool {
    exists|i: int|
        0 <= i < upto && #[trigger] w.wants_to_pickup@[i] is Some && w.wants_to_pickup@[i]->0.item.id == k
            && w.alive@[k]
}

/// What pickup resolution makes of a registry and a log.
pub open spec fn collect_effect(w0: World, l0: Seq<LogEvent>, w1: World, l1: Seq<LogEvent>) -> bool {
    &&& w1.alive == w0.alive
    &&& w1.renderables == w0.renderables
    &&& w1.players == w0.players
    &&& w1.monsters == w0.monsters
    &&& w1.blockers == w0.blockers
    &&& w1.items == w0.items
    &&& w1.names == w0.names
    &&& w1.viewsheds == w0.viewsheds
    &&& w1.combat_stats == w0.combat_stats
    &&& w1.suffer_damage == w0.suffer_damage
    &&& w1.wants_to_melee == w0.wants_to_melee
    &&& w1.wants_to_drop == w0.wants_to_drop
    &&& w1.wants_to_drink == w0.wants_to_drink
    &&& w1.potions == w0.potions
    &&& log_extends(l1, l0)
    &&& forall|i: int| 0 <= i < w1.len() ==> #[trigger] w1.wants_to_pickup@[i] is None
    &&& forall|k: int|
            0 <= k < w1.len() && #[trigger] pickup_named(w0, k, w0.len()) ==> {
                &&& w1.positions@[k] is None
                &&& w1.in_backpack@[k] is Some
                &&& exists|i: int|
                    0 <= i < w0.len() && #[trigger] w0.wants_to_pickup@[i] is Some
                        && w0.wants_to_pickup@[i]->0.item.id == k
                        && w0.wants_to_pickup@[i]->0.collected_by == w1.in_backpack@[k]->0.owner
            }
    &&& forall|k: int|
            0 <= k < w1.len() && !pickup_named(w0, k, w0.len()) ==> {
                &&& #[trigger] w1.positions@[k] == w0.positions@[k]
                &&& w1.in_backpack@[k] == w0.in_backpack@[k]
            }
}

/// Resolves every pickup intent: the item leaves the ground and goes into the
/// collector's pack. The intents are consumed.
pub fn item_collection_system(world: &mut World, log: &mut GameLog)
    requires
        old(world).wf(),
    ensures
        final(world).wf(),
        collect_effect(*old(world), old(log).entries@, *final(world), final(log).entries@),
{
    let n = world.alive.len();
    let mut i: usize = 0;
    assert(log.entries@.subrange(0, log.entries@.len() as int) =~= log.entries@);
    while i < n
        invariant
            i <= n,
            n == world.len(),
            world.wf(),
            world.alive == old(world).alive,
            world.renderables == old(world).renderables,
            world.players == old(world).players,
            world.monsters == old(world).monsters,
            world.blockers == old(world).blockers,
            world.items == old(world).items,
            world.names == old(world).names,
            world.viewsheds == old(world).viewsheds,
            world.combat_stats == old(world).combat_stats,
            world.suffer_damage == old(world).suffer_damage,
            world.wants_to_melee == old(world).wants_to_melee,
            world.wants_to_drop == old(world).wants_to_drop,
            world.wants_to_drink == old(world).wants_to_drink,
            world.potions == old(world).potions,
            log_extends(log.entries@, old(log).entries@),
            forall|j: int| 0 <= j < i ==> #[trigger] world.wants_to_pickup@[j] is None,
            forall|j: int| i <= j < n ==> #[trigger] world.wants_to_pickup@[j] == old(world).wants_to_pickup@[j],
            forall|k: int|
                0 <= k < n && #[trigger] pickup_named(*old(world), k, i as int) ==> {
                    &&& world.positions@[k] is None
                    &&& world.in_backpack@[k] is Some
                    &&& exists|j: int|
                        0 <= j < i && #[trigger] old(world).wants_to_pickup@[j] is Some
                            && old(world).wants_to_pickup@[j]->0.item.id == k
                            && old(world).wants_to_pickup@[j]->0.collected_by == world.in_backpack@[k]->0.owner
                },
            forall|k: int|
                0 <= k < n && !pickup_named(*old(world), k, i as int) ==> {
                    &&& #[trigger] world.positions@[k] == old(world).positions@[k]
                    &&& world.in_backpack@[k] == old(world).in_backpack@[k]
                },
        decreases n - i,
    {
        let ghost before = *world;
        let ghost log_before = log.entries@;
        if let Some(intent) = world.wants_to_pickup[i] {
            let item = intent.item;
            if item.id < n && world.alive[item.id] {
                pick_up(world, item, intent.collected_by);
                let name = name_of(world, item.id);
                log.entries.push(LogEvent::PickedUp { item: name });
            }
            world.wants_to_pickup.set(i, None);
            proof {
                assert forall|k: int| 0 <= k < world.len() && !#[trigger] world.alive@[k] implies world.bare(k) by {
                    assert(before.bare(k));
                }
            }
        }
        proof {
            assert(log.entries@.subrange(0, old(log).entries@.len() as int) =~= log_before.subrange(
                0,
                old(log).entries@.len() as int,
            ));
            assert forall|k: int| 0 <= k < n implies (#[trigger] pickup_named(*old(world), k, i + 1) <==> (pickup_named(
                *old(world),
                k,
                i as int,
            ) || (old(world).wants_to_pickup@[i as int] is Some && old(world).wants_to_pickup@[i as int]->0.item.id == k
                && old(world).alive@[k]))) by {
                if pickup_named(*old(world), k, i + 1) && !pickup_named(*old(world), k, i as int) {
                    let j = choose|j: int|
                        0 <= j < i + 1 && #[trigger] old(world).wants_to_pickup@[j] is Some
                            && old(world).wants_to_pickup@[j]->0.item.id == k && old(world).alive@[k];
                    assert(j == i);
                }
            }
            assert forall|k: int|
                0 <= k < n && #[trigger] pickup_named(*old(world), k, i + 1) implies {
                    &&& world.positions@[k] is None
                    &&& world.in_backpack@[k] is Some
                    &&& exists|j: int|
                        0 <= j < i + 1 && #[trigger] old(world).wants_to_pickup@[j] is Some
                            && old(world).wants_to_pickup@[j]->0.item.id == k
                            && old(world).wants_to_pickup@[j]->0.collected_by == world.in_backpack@[k]->0.owner
                } by {
                if old(world).wants_to_pickup@[i as int] is Some && old(world).wants_to_pickup@[i as int]->0.item.id == k
                    && old(world).alive@[k] {
                    assert(old(world).wants_to_pickup@[i as int]->0.collected_by == world.in_backpack@[k]->0.owner);
                } else {
                    assert(pickup_named(*old(world), k, i as int));
                    let j = choose|j: int|
                        0 <= j < i && #[trigger] old(world).wants_to_pickup@[j] is Some
                            && old(world).wants_to_pickup@[j]->0.item.id == k
                            && old(world).wants_to_pickup@[j]->0.collected_by == before.in_backpack@[k]->0.owner;
                    assert(world.in_backpack@[k] == before.in_backpack@[k]);
                }
            }
            assert forall|k: int|
                0 <= k < n && !pickup_named(*old(world), k, i + 1) implies {
                    &&& #[trigger] world.positions@[k] == old(world).positions@[k]
                    &&& world.in_backpack@[k] == old(world).in_backpack@[k]
                } by {
                assert(!pickup_named(*old(world), k, i as int));
                assert(world.positions@[k] == before.positions@[k]);
                assert(world.in_backpack@[k] == before.in_backpack@[k]);
            }
        }
        i = i + 1;
    }
}

/// Some drop intent of a slot below `upto` names `k`.
pub open spec fn drop_named(w: World, k: int, upto: int) -> bool {
    exists|i: int| 0 <= i < upto && #[trigger] w.wants_to_drop@[i] is Some && w.wants_to_drop@[i]->0.item.id == k
}

/// The drop intent of slot `i` in `w0`, carried out (`w1`): the item is laid
/// where slot `i` stands.
pub open spec fn drop_step(w0: World, w1: World, i: int) -> bool {
    match w0.wants_to_drop@[i] {
        Some(intent) => if intent.item.id < w0.len() && w0.alive@[intent.item.id as int]
            && w0.positions@[i] is Some {
            dropped(w0, w1, intent.item, w0.positions@[i]->0)
        } else {
            w1 == w0
        },
        None => w1 == w0,
    }
}

/// `w1` is `w0` with the drop intent of slot `i` consumed.
pub open spec fn drop_cleared(w0: World, w1: World, i: int) -> bool {
    w1 == World { wants_to_drop: w1.wants_to_drop, ..w0 } && w1.wants_to_drop@ == w0.wants_to_drop@.update(i, None)
}

/// Round `i` of the drop pass in the trace `tr`.
pub open spec fn drop_round(tr: Seq<World>, i: int) -> bool {
    drop_step(tr[2 * i], tr[2 * i + 1], i) && drop_cleared(tr[2 * i + 1], tr[2 * i + 2], i)
}

/// `tr` runs the drop pass over every slot, in slot order, from `w0` to `w1`.
pub open spec fn drop_trace(w0: World, w1: World, tr: Seq<World>) -> bool {
    &&& tr.len() == 2 * w0.len() + 1
    &&& tr[0] == w0
    &&& tr.last() == w1
    &&& forall|i: int| 0 <= i < w0.len() ==> #[trigger] drop_round(tr, i)
}

/// Resolves every drop intent, slot by slot (`drop_trace`): the item leaves
/// its pack and is laid where the dropping entity stands. The intents are
/// consumed.
pub fn item_drop_system(world: &mut World, log: &mut GameLog)
    requires
        old(world).wf(),
    ensures
        final(world).wf(),
            final(world).alive == old(world).alive,
            final(world).renderables == old(world).renderables,
            final(world).players == old(world).players,
            final(world).monsters == old(world).monsters,
            final(world).blockers == old(world).blockers,
            final(world).items == old(world).items,
            final(world).names == old(world).names,
            final(world).viewsheds == old(world).viewsheds,
            final(world).combat_stats == old(world).combat_stats,
            final(world).suffer_damage == old(world).suffer_damage,
            final(world).wants_to_melee == old(world).wants_to_melee,
            final(world).wants_to_pickup == old(world).wants_to_pickup,
            final(world).wants_to_drink == old(world).wants_to_drink,
            final(world).potions == old(world).potions,
        log_extends(final(log).entries@, old(log).entries@),
        forall|i: int| 0 <= i < final(world).len() ==> #[trigger] final(world).wants_to_drop@[i] is None,
        forall|k: int|
            0 <= k < final(world).len() ==> {
                ||| (#[trigger] final(world).positions@[k] == old(world).positions@[k]
                    && final(world).in_backpack@[k] == old(world).in_backpack@[k])
                ||| (drop_named(*old(world), k, old(world).len()) && final(world).positions@[k] is Some
                    && final(world).in_backpack@[k] is None)
            },
        forall|k: int|
            0 <= k < final(world).len() && #[trigger] final(world).positions@[k] is Some ==> exists|j: int|
                0 <= j < old(world).len() && #[trigger] old(world).positions@[j] == final(world).positions@[k],
        exists|tr: Seq<World>| #[trigger] drop_trace(*old(world), *final(world), tr),
{
    let n = world.alive.len();
    let mut i: usize = 0;
    assert(log.entries@.subrange(0, log.entries@.len() as int) =~= log.entries@);
    let ghost mut tr: Seq<World> = seq![*world];
    while i < n
        invariant
            i <= n,
            n == world.len(),
            world.wf(),
            world.alive == old(world).alive,
            world.renderables == old(world).renderables,
            world.players == old(world).players,
            world.monsters == old(world).monsters,
            world.blockers == old(world).blockers,
            world.items == old(world).items,
            world.names == old(world).names,
            world.viewsheds == old(world).viewsheds,
            world.combat_stats == old(world).combat_stats,
            world.suffer_damage == old(world).suffer_damage,
            world.wants_to_melee == old(world).wants_to_melee,
            world.wants_to_pickup == old(world).wants_to_pickup,
            world.wants_to_drink == old(world).wants_to_drink,
            world.potions == old(world).potions,
            log_extends(log.entries@, old(log).entries@),
            forall|j: int| 0 <= j < i ==> #[trigger] world.wants_to_drop@[j] is None,
            forall|j: int| i <= j < n ==> #[trigger] world.wants_to_drop@[j] == old(world).wants_to_drop@[j],
            forall|k: int|
                0 <= k < n ==> {
                    ||| (#[trigger] world.positions@[k] == old(world).positions@[k]
                        && world.in_backpack@[k] == old(world).in_backpack@[k])
                    ||| (drop_named(*old(world), k, i as int) && world.positions@[k] is Some
                        && world.in_backpack@[k] is None)
                },
            forall|k: int|
                0 <= k < n && #[trigger] world.positions@[k] is Some ==> exists|j: int|
                    0 <= j < n && #[trigger] old(world).positions@[j] == world.positions@[k],
            tr.len() == 2 * i + 1,
            tr[0] == *old(world),
            tr.last() == *world,
            forall|j: int| 0 <= j < i ==> #[trigger] drop_round(tr, j),
        decreases n - i,
    {
        let ghost before = *world;
        let ghost tr_old = tr;
        let ghost log_before = log.entries@;
        if let Some(intent) = world.wants_to_drop[i] {
            let item = intent.item;
            if item.id < n && world.alive[item.id] {
                if let Some(at) = world.positions[i] {
                    assert(world.positions@[i as int] is Some);
                    let ghost w = choose|j: int| 0 <= j < n && #[trigger] old(world).positions@[j] == world.positions@[i as int];
                    drop_item(world, item, at);
                    assert(old(world).positions@[w] == world.positions@[item.id as int]);
                    let name = name_of(world, item.id);
                    log.entries.push(LogEvent::Dropped { item: name });
                }
            }
            let ghost mid = *world;
            world.wants_to_drop.set(i, None);
            proof {
                tr = tr.push(mid).push(*world);
                assert(drop_round(tr, i as int));
            }
            proof {
                assert forall|k: int|
                    0 <= k < n && #[trigger] world.positions@[k] is Some implies exists|j: int|
                        0 <= j < n && #[trigger] old(world).positions@[j] == world.positions@[k] by {
                    if world.positions@[k] == before.positions@[k] {
                        assert(before.positions@[k] is Some);
                    }
                }
                assert forall|k: int| 0 <= k < world.len() && !#[trigger] world.alive@[k] implies world.bare(k) by {
                    assert(before.bare(k));
                }
            }
        }
        else {
            proof {
                assert(world.wants_to_drop@.update(i as int, None) =~= world.wants_to_drop@);
                tr = tr.push(*world).push(*world);
                assert(drop_round(tr, i as int));
            }
        }
        proof {
            assert forall|j: int| 0 <= j < i + 1 implies #[trigger] drop_round(tr, j) by {
                if j < i {
                    assert(drop_round(tr_old, j));
                    assert(tr[2 * j] == tr_old[2 * j] && tr[2 * j + 1] == tr_old[2 * j + 1] && tr[2 * j + 2]
                        == tr_old[2 * j + 2]);
                }
            }
        }
        proof {
            assert(log.entries@.subrange(0, old(log).entries@.len() as int) =~= log_before.subrange(
                0,
                old(log).entries@.len() as int,
            ));
            assert forall|k: int| 0 <= k < n implies {
                ||| (#[trigger] world.positions@[k] == old(world).positions@[k]
                    && world.in_backpack@[k] == old(world).in_backpack@[k])
                ||| (drop_named(*old(world), k, i + 1) && world.positions@[k] is Some
                    && world.in_backpack@[k] is None)
            } by {
                if world.positions@[k] == before.positions@[k] && world.in_backpack@[k] == before.in_backpack@[k] {
                    if drop_named(*old(world), k, i as int) {
                        let j = choose|j: int| 0 <= j < i && #[trigger] old(world).wants_to_drop@[j] is Some
                            && old(world).wants_to_drop@[j]->0.item.id == k;
                        assert(drop_named(*old(world), k, i + 1));
                    }
                } else {
                    assert(old(world).wants_to_drop@[i as int] is Some && old(world).wants_to_drop@[i as int]->0.item.id == k);
                    assert(drop_named(*old(world), k, i + 1));
                }
            }
        }
        i = i + 1;
    }
    assert(drop_trace(*old(world), *world, tr));
}

/// What the drink round may have done to slot `k`: nothing but consume its
/// intent; destroy it, being a potion; or raise its health, being a drinker.
pub open spec fn drink_outcome(before: World, after: World, k: int) -> bool {
    ||| after.alive@[k] == before.alive@[k] && after.same_slot_but_drink(before, k)
    ||| (after.bare(k) && !after.alive@[k] && before.potions@[k] is Some)
    ||| (after.same_slot_but_stats(before, k) && after.alive@[k] == before.alive@[k]
        && before.combat_stats@[k] is Some && after.combat_stats@[k] is Some
        && after.combat_stats@[k]->0.hp >= before.combat_stats@[k]->0.hp
        && after.combat_stats@[k]->0.max_hp == before.combat_stats@[k]->0.max_hp)
}

/// Resolves every drink intent with `drink_potion`, slot by slot, each on the
/// registry as the earlier ones left it (`drink_trace`); the intents are
/// consumed. Every slot either keeps its components, or drank (only its stats
/// changed, and its health did not fall), or was a potion that is now
/// destroyed.
pub fn potion_use_system(world: &mut World, log: &mut GameLog)
    requires
        old(world).wf(),
    ensures
        final(world).wf(),
        final(world).len() == old(world).len(),
        log_extends(final(log).entries@, old(log).entries@),
        forall|i: int| 0 <= i < final(world).len() ==> #[trigger] final(world).wants_to_drink@[i] is None,
        forall|k: int| 0 <= k < final(world).len() ==> #[trigger] drink_outcome(*old(world), *final(world), k),
        exists|tr: Seq<World>| #[trigger] drink_trace(*old(world), *final(world), tr),
{
    let n = world.alive.len();
    let mut i: usize = 0;
    assert(log.entries@.subrange(0, log.entries@.len() as int) =~= log.entries@);
    let ghost mut tr: Seq<World> = seq![*world];
    while i < n
        invariant
            i <= n,
            n == world.len(),
            n == old(world).len(),
            world.wf(),
            old(world).wf(),
            log_extends(log.entries@, old(log).entries@),
            forall|j: int| 0 <= j < i ==> #[trigger] world.wants_to_drink@[j] is None,
            forall|k: int| 0 <= k < n ==> #[trigger] drink_outcome(*old(world), *world, k),
            tr.len() == 2 * i + 1,
            tr[0] == *old(world),
            tr.last() == *world,
            forall|j: int| 0 <= j < i ==> #[trigger] drink_round(tr, j),
        decreases n - i,
    {
        let ghost before = *world;
        let ghost tr_old = tr;
        let ghost log_before = log.entries@;
        if let Some(intent) = world.wants_to_drink[i] {
            let potion = intent.potion;
            if potion.id < n && potion.id != i {
                drink_potion(world, log, Entity { id: i }, potion);
            }
            let ghost mid = *world;
            world.wants_to_drink.set(i, None);
            proof {
                tr = tr.push(mid).push(*world);
                assert(drink_round(tr, i as int));
            }
            proof {
                assert forall|k: int| 0 <= k < world.len() && !#[trigger] world.alive@[k] implies world.bare(k) by {
                    assert(mid.bare(k));
                }
                assert forall|k: int| 0 <= k < n implies #[trigger] drink_outcome(*old(world), *world, k) by {
                    assert(drink_outcome(*old(world), before, k));
                    if mid == before {
                        if k != i {
                            assert(world.same_slot(before, k));
                        } else {
                            assert(world.same_slot_but_drink(before, k));
                        }
                    } else if k == potion.id {
                        assert(mid.bare(k));
                        assert(before.potions@[k] is Some);
                    } else if k == i {
                        assert(mid.same_slot_but_stats(before, k));
                        assert(crate::world::stats_ok(before.combat_stats@[k]->0));
                    } else {
                        assert(mid.same_slot(before, k));
                        assert(world.same_slot(before, k));
                    }
                }
                assert forall|j: int| 0 <= j < i + 1 implies #[trigger] world.wants_to_drink@[j] is None by {
                    if j < i {
                        assert(before.wants_to_drink@[j] is None);
                        if mid != before && j == potion.id {
                            assert(mid.bare(j));
                        } else if mid != before {
                            assert(mid.same_slot(before, j));
                        }
                    }
                }
            }
        }
        else {
            proof {
                assert(world.wants_to_drink@.update(i as int, None) =~= world.wants_to_drink@);
                tr = tr.push(*world).push(*world);
                assert(drink_round(tr, i as int));
            }
        }
        proof {
            assert forall|j: int| 0 <= j < i + 1 implies #[trigger] drink_round(tr, j) by {
                if j < i {
                    assert(drink_round(tr_old, j));
                    assert(tr[2 * j] == tr_old[2 * j] && tr[2 * j + 1] == tr_old[2 * j + 1] && tr[2 * j + 2]
                        == tr_old[2 * j + 2]);
                }
            }
            assert(log.entries@.subrange(0, old(log).entries@.len() as int) =~= log_before.subrange(
                0,
                old(log).entries@.len() as int,
            ));
        }
        i = i + 1;
    }
    assert(drink_trace(*old(world), *world, tr));
}

} // verus!
