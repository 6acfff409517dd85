use vstd::prelude::*;
use crate::components::{CombatStats, Entity, SufferDamage};
use crate::gamelog::{GameLog, LogEvent};
use crate::world::{World, stats_ok};

verus! {

/// Damage of one blow: attack less defence, never below zero.
pub open spec fn melee_damage(attacker: CombatStats, target: CombatStats) -> int {
    if attacker.power - target.defense > 0 {
        attacker.power - target.defense
    } else {
        0
    }
}

/// The melee intent of `a` is aimed at `t`, both can fight, `t` still stands,
/// and the blow does some damage.
pub open spec fn attack_lands(w: World, a: int, t: int) -> bool {
    &&& w.wants_to_melee@[a] is Some
    &&& w.wants_to_melee@[a]->0.target.id == t
    &&& 0 <= t < w.len()
    &&& w.combat_stats@[a] is Some
    &&& w.combat_stats@[t] is Some
    &&& w.combat_stats@[t]->0.hp > 0
    &&& melee_damage(w.combat_stats@[a]->0, w.combat_stats@[t]->0) > 0
}

/// The damage dealt to `t` by the attackers in slots below `upto`, in slot order.
pub open spec fn hits_on(w: World, t: int, upto: int) -> Seq<i32>
    decreases upto,
{
    if upto <= 0 {
        seq![]
    } else {
        let earlier = hits_on(w, t, upto - 1);
        if attack_lands(w, upto - 1, t) {
            earlier.push(melee_damage(w.combat_stats@[upto - 1]->0, w.combat_stats@[t]->0) as i32)
        } else {
            earlier
        }
    }
}

/// Damage already waiting to be applied to `t`.
pub open spec fn pending_of(w: World, t: int) -> Seq<i32> {
    if w.suffer_damage@[t] is Some {
        w.suffer_damage@[t]->0.amount@
    } else {
        seq![]
    }
}

/// `longer` begins with `shorter`.
pub open spec fn log_extends(longer: Seq<LogEvent>, shorter: Seq<LogEvent>) -> bool {
    shorter.len() <= longer.len() && longer.subrange(0, shorter.len() as int) == shorter
}

pub proof fn lemma_log_extends_trans(a: Seq<LogEvent>, b: Seq<LogEvent>, c: Seq<LogEvent>)
    requires
        log_extends(b, a),
        log_extends(c, b),
    ensures
        log_extends(c, a),
{
    assert(c.subrange(0, a.len() as int) =~= c.subrange(0, b.len() as int).subrange(0, a.len() as int));
}

/// The sum of a list of damage amounts.
pub open spec fn total(s: Seq<i32>) -> int
    decreases s.len(),
{
    if s.len() == 0 {
        0
    } else {
        total(s.drop_last()) + s.last()
    }
}

/// `v` limited to the range of `i32`.
pub open spec fn clamp_i32(v: int) -> int {
    if v < i32::MIN {
        i32::MIN as int
    } else if v > i32::MAX {
        i32::MAX as int
    } else {
        v
    }
}

/// The entity in slot `i` has fighting stats and no health left.
pub open spec fn is_dead(w: World, i: int) -> bool {
    w.combat_stats@[i] is Some && w.combat_stats@[i]->0.hp <= 0
}

/// Damage of one blow, as `melee_damage` states it.
pub fn damage_dealt(attacker: &CombatStats, target: &CombatStats) -> (d: i32)
    requires
        stats_ok(*attacker),
        stats_ok(*target),
    ensures
        d == melee_damage(*attacker, *target),
{
    if attacker.power - target.defense > 0 {
        attacker.power - target.defense
    } else {
        0
    }
}

/// The display name of slot `i`, or an empty string when it has none.
pub fn name_of(world: &World, i: usize) -> (s: String)
    requires
        world.wf(),
        i < world.len(),
    ensures
        world.names@[i as int] is Some ==> s@ == world.names@[i as int]->0.name@,
        world.names@[i as int] is None ==> s@.len() == 0,
{
    match &world.names[i] {
        Some(n) => n.name.clone(),
        None => String::new(),
    }
}

/// What melee resolution makes of a registry and a log.
pub open spec fn melee_effect(w0: World, l0: Seq<LogEvent>, w1: World, l1: Seq<LogEvent>) -> bool {
    &&& w1.alive == w0.alive
    &&& w1.positions == w0.positions
    &&& w1.renderables == w0.renderables
    &&& w1.players == w0.players
    &&& w1.monsters == w0.monsters
    &&& w1.blockers == w0.blockers
    &&& w1.items == w0.items
    &&& w1.names == w0.names
    &&& w1.viewsheds == w0.viewsheds
    &&& w1.combat_stats == w0.combat_stats
    &&& w1.wants_to_pickup == w0.wants_to_pickup
    &&& w1.wants_to_drop == w0.wants_to_drop
    &&& w1.wants_to_drink == w0.wants_to_drink
    &&& w1.in_backpack == w0.in_backpack
    &&& w1.potions == w0.potions
    &&& forall|i: int| 0 <= i < w1.len() ==> #[trigger] w1.wants_to_melee@[i] is None
    &&& forall|t: int|
            0 <= t < w1.len() ==> (#[trigger] w1.suffer_damage@[t] is Some <==> (
            w0.suffer_damage@[t] is Some || hits_on(w0, t, w0.len()).len() > 0))
    &&& forall|t: int|
            0 <= t < w1.len() && #[trigger] w1.suffer_damage@[t] is Some
                ==> w1.suffer_damage@[t]->0.amount@ == pending_of(w0, t) + hits_on(
                w0,
                t,
                w0.len(),
            )
    &&& log_extends(l1, l0)
}

/// Turns every melee intent into damage waiting on its target, and consumes
/// the intent. A blow lands only when both sides have fighting stats and the
/// target still has health; one that does no damage is only logged.
pub fn melee_combat_system(world: &mut World, log: &mut GameLog)
    requires
        old(world).wf(),
    ensures
        final(world).wf(),
        melee_effect(*old(world), old(log).entries@, *final(world), final(log).entries@),
{
    let n = world.alive.len();
    let mut i: usize = 0;
    assert(log.entries@.subrange(0, log.entries@.len() as int) =~= log.entries@);
    while i < n
        invariant
            i <= n,
            n == world.len(),
            world.wf(),
            world.alive == old(world).alive,
            world.positions == old(world).positions,
            world.renderables == old(world).renderables,
            world.players == old(world).players,
            world.monsters == old(world).monsters,
            world.blockers == old(world).blockers,
            world.items == old(world).items,
            world.names == old(world).names,
            world.viewsheds == old(world).viewsheds,
            world.combat_stats == old(world).combat_stats,
            world.wants_to_pickup == old(world).wants_to_pickup,
            world.wants_to_drop == old(world).wants_to_drop,
            world.wants_to_drink == old(world).wants_to_drink,
            world.in_backpack == old(world).in_backpack,
            world.potions == old(world).potions,
            forall|j: int| 0 <= j < i ==> #[trigger] world.wants_to_melee@[j] is None,
            forall|j: int| i <= j < n ==> #[trigger] world.wants_to_melee@[j] == old(world).wants_to_melee@[j],
            forall|t: int|
                0 <= t < n ==> (#[trigger] world.suffer_damage@[t] is Some <==> (
                old(world).suffer_damage@[t] is Some || hits_on(*old(world), t, i as int).len() > 0)),
            forall|t: int|
                0 <= t < n && #[trigger] world.suffer_damage@[t] is Some
                    ==> world.suffer_damage@[t]->0.amount@ == pending_of(*old(world), t) + hits_on(
                    *old(world),
                    t,
                    i as int,
                ),
            log_extends(log.entries@, old(log).entries@),
        decreases n - i,
    {
        let ghost before = *world;
        let ghost log_before = log.entries@;
        let mut landed: Option<usize> = None;
        if let Some(intent) = world.wants_to_melee[i] {
            let t = intent.target.id;
            if t < n {
                if let Some(sa) = world.combat_stats[i] {
                    if let Some(st) = world.combat_stats[t] {
                        if st.hp > 0 {
                            let damage = damage_dealt(&sa, &st);
                            if damage > 0 {
                                let cur = world.suffer_damage[t].take();
                                let next = match cur {
                                    Some(s) => {
                                        let mut s = s;
                                        s.amount.push(damage);
                                        s
                                    },
                                    None => {
                                        let mut amount: Vec<i32> = Vec::new();
                                        amount.push(damage);
                                        SufferDamage { amount }
                                    },
                                };
                                world.suffer_damage.set(t, Some(next));
                                landed = Some(t);
                                let attacker = name_of(world, i);
                                let target = name_of(world, t);
                                log.entries.push(LogEvent::Hit { attacker, target, amount: damage });
                            } else {
                                let attacker = name_of(world, i);
                                let target = name_of(world, t);
                                log.entries.push(LogEvent::UnableToHurt { attacker, target });
                            }
                        }
                    }
                }
            }
            world.wants_to_melee.set(i, None);
        }
        proof {
            assert(log_extends(log.entries@, old(log).entries@)) by {
                assert(log.entries@.subrange(0, log_before.len() as int) == log_before);
                assert(log.entries@.subrange(0, old(log).entries@.len() as int) =~= log_before.subrange(
                    0,
                    old(log).entries@.len() as int,
                ));
            }
            assert forall|t: int| 0 <= t < n implies (#[trigger] world.suffer_damage@[t] is Some <==> (
                old(world).suffer_damage@[t] is Some || hits_on(*old(world), t, i + 1).len() > 0)) && (
                world.suffer_damage@[t] is Some ==> world.suffer_damage@[t]->0.amount@ == pending_of(
                *old(world),
                t,
            ) + hits_on(*old(world), t, i + 1)) by {
                assert(hits_on(*old(world), t, i + 1) == if attack_lands(*old(world), i as int, t) {
                    hits_on(*old(world), t, i as int).push(
                        melee_damage(old(world).combat_stats@[i as int]->0, old(world).combat_stats@[t]->0) as i32,
                    )
                } else {
                    hits_on(*old(world), t, i as int)
                });
                if landed == Some(t as usize) {
                    assert(attack_lands(*old(world), i as int, t));
                    assert(world.suffer_damage@[t]->0.amount@ =~= pending_of(*old(world), t) + hits_on(
                        *old(world),
                        t,
                        i + 1,
                    ));
                } else {
                    assert(!attack_lands(*old(world), i as int, t));
                    assert(world.suffer_damage@[t] == before.suffer_damage@[t]);
                }
            }
            assert forall|k: int, j: int|
                0 <= k < world.len() && #[trigger] world.suffer_damage@[k] is Some && 0 <= j
                    < world.suffer_damage@[k]->0.amount@.len() implies #[trigger] world.suffer_damage@[k]->0.amount@[j]
                    > 0 by {
                if landed == Some(k as usize) && j == world.suffer_damage@[k]->0.amount@.len() - 1 {
                } else if landed == Some(k as usize) {
                    assert(world.suffer_damage@[k]->0.amount@[j] == before.suffer_damage@[k]->0.amount@[j]);
                } else {
                    assert(world.suffer_damage@[k] == before.suffer_damage@[k]);
                }
            }
            assert forall|k: int| 0 <= k < world.len() && !#[trigger] world.alive@[k] implies world.bare(k) by {
                assert(before.bare(k));
            }
        }
        i = i + 1;
    }
}


/// `hp` after taking every amount of `amounts`, held to the range of `i32`.
pub open spec fn hp_after(hp: int, amounts: Seq<i32>) -> int {
    clamp_i32(hp - total(amounts))
}

/// What damage application makes of a registry.
pub open spec fn damage_effect(w0: World, w1: World) -> bool {
    &&& w1.alive == w0.alive
    &&& w1.positions == w0.positions
    &&& w1.renderables == w0.renderables
    &&& w1.players == w0.players
    &&& w1.monsters == w0.monsters
    &&& w1.blockers == w0.blockers
    &&& w1.items == w0.items
    &&& w1.names == w0.names
    &&& w1.viewsheds == w0.viewsheds
    &&& w1.wants_to_melee == w0.wants_to_melee
    &&& w1.wants_to_pickup == w0.wants_to_pickup
    &&& w1.wants_to_drop == w0.wants_to_drop
    &&& w1.wants_to_drink == w0.wants_to_drink
    &&& w1.in_backpack == w0.in_backpack
    &&& w1.potions == w0.potions
    &&& forall|i: int| 0 <= i < w1.len() ==> #[trigger] w1.suffer_damage@[i] is None
    &&& forall|i: int|
            0 <= i < w1.len() ==> #[trigger] w1.combat_stats@[i] == if w0.combat_stats@[i] is Some
                && w0.suffer_damage@[i] is Some {
                Some(
                    CombatStats {
                        hp: hp_after(
                            w0.combat_stats@[i]->0.hp as int,
                            w0.suffer_damage@[i]->0.amount@,
                        ) as i32,
                        ..w0.combat_stats@[i]->0
                    },
                )
            } else {
                w0.combat_stats@[i]
            }
}

/// Applies the damage waiting on every entity to its health and clears it.
/// Health may fall below zero.
pub fn damage_system(world: &mut World)
    requires
        old(world).wf(),
    ensures
        final(world).wf(),
        damage_effect(*old(world), *final(world)),
{
    let n = world.alive.len();
    let mut i: usize = 0;
    while i < n
        invariant
            i <= n,
            n == world.len(),
            world.wf(),
            world.alive == old(world).alive,
            world.positions == old(world).positions,
            world.renderables == old(world).renderables,
            world.players == old(world).players,
            world.monsters == old(world).monsters,
            world.blockers == old(world).blockers,
            world.items == old(world).items,
            world.names == old(world).names,
            world.viewsheds == old(world).viewsheds,
            world.wants_to_melee == old(world).wants_to_melee,
            world.wants_to_pickup == old(world).wants_to_pickup,
            world.wants_to_drop == old(world).wants_to_drop,
            world.wants_to_drink == old(world).wants_to_drink,
            world.in_backpack == old(world).in_backpack,
            world.potions == old(world).potions,
            forall|j: int| 0 <= j < i ==> #[trigger] world.suffer_damage@[j] is None,
            forall|j: int| i <= j < n ==> #[trigger] world.suffer_damage@[j] == old(world).suffer_damage@[j],
            forall|j: int| i <= j < n ==> #[trigger] world.combat_stats@[j] == old(world).combat_stats@[j],
            forall|j: int|
                0 <= j < i ==> #[trigger] world.combat_stats@[j] == if old(world).combat_stats@[j] is Some
                    && old(world).suffer_damage@[j] is Some {
                    Some(
                        CombatStats {
                            hp: hp_after(
                                old(world).combat_stats@[j]->0.hp as int,
                                old(world).suffer_damage@[j]->0.amount@,
                            ) as i32,
                            ..old(world).combat_stats@[j]->0
                        },
                    )
                } else {
                    old(world).combat_stats@[j]
                },
        decreases n - i,
    {
        let ghost before = *world;
        let pending = world.suffer_damage[i].take();
        if let Some(sd) = pending {
            if let Some(st) = world.combat_stats[i] {
                let hp = sum_damage(st.hp, &sd.amount);
                proof {
                    assert forall|j: int| 0 <= j < sd.amount@.len() implies #[trigger] sd.amount@[j] > 0 by {
                        assert(before.suffer_damage@[i as int]->0.amount@[j] > 0);
                    }
                }
                world.combat_stats.set(i, Some(CombatStats { hp, ..st }));
            }
        }
        proof {
            assert forall|k: int| 0 <= k < world.len() && !#[trigger] world.alive@[k] implies world.bare(k) by {
                assert(before.bare(k));
            }
            assert forall|k: int|
                0 <= k < world.len() && #[trigger] world.combat_stats@[k] is Some implies stats_ok(
                    world.combat_stats@[k]->0,
                ) by {
                assert(before.combat_stats@[k] is Some);
            }
        }
        i = i + 1;
    }
}

/// `hp` less the sum of `amounts`, held to the range of `i32`.
fn sum_damage(hp: i32, amounts: &Vec<i32>) -> (r: i32)
    requires
        forall|j: int| 0 <= j < amounts@.len() ==> #[trigger] amounts@[j] > 0,
    ensures
        r == hp_after(hp as int, amounts@),
        r <= hp,
{
    let cap: i64 = 1099511627776;
    let mut acc: i64 = 0;
    let mut k: usize = 0;
    while k < amounts.len()
        invariant
            k <= amounts@.len(),
            forall|j: int| 0 <= j < amounts@.len() ==> #[trigger] amounts@[j] > 0,
            cap == 1099511627776,
            0 <= acc <= cap + i32::MAX,
            acc == total(amounts@.subrange(0, k as int)) || (acc > cap && total(
                amounts@.subrange(0, k as int),
            ) > cap),
            total(amounts@.subrange(0, k as int)) >= 0,
        decreases amounts@.len() - k,
    {
        let a = amounts[k];
        assert(amounts@.subrange(0, k + 1).drop_last() =~= amounts@.subrange(0, k as int));
        assert(a > 0);
        if acc <= cap {
            acc = acc + a as i64;
        }
        k = k + 1;
    }
    assert(amounts@.subrange(0, amounts@.len() as int) =~= amounts@);
    let v: i64 = hp as i64 - acc;
    if v < i32::MIN as i64 {
        i32::MIN
    } else {
        v as i32
    }
}

/// What removal of the dead makes of a registry and a log, and whether the player died.
pub open spec fn dead_effect(w0: World, l0: Seq<LogEvent>, w1: World, l1: Seq<LogEvent>, died: bool) -> bool {
    &&& w1.len() == w0.len()
    &&& forall|i: int|
            0 <= i < w1.len() ==> #[trigger] w1.alive@[i] == (w0.alive@[i]
                && !is_dead(w0, i))
    &&& forall|i: int| 0 <= i < w1.len() && is_dead(w0, i) ==> #[trigger] w1.bare(i)
    &&& forall|i: int|
            0 <= i < w1.len() && !is_dead(w0, i) ==> #[trigger] w1.same_slot(w0, i)
    &&& died == exists|i: int|
            0 <= i < w0.len() && is_dead(w0, i) && #[trigger] w0.players@[i] is Some
    &&& log_extends(l1, l0)
}

/// Destroys every entity with fighting stats and no health left, and tells
/// whether the player was among them.
pub fn delete_the_dead(world: &mut World, log: &mut GameLog) -> (player_died: bool)
    requires
        old(world).wf(),
    ensures
        final(world).wf(),
        dead_effect(*old(world), old(log).entries@, *final(world), final(log).entries@, player_died),
{
    let n = world.alive.len();
    let mut player_died = false;
    let mut i: usize = 0;
    assert(log.entries@.subrange(0, log.entries@.len() as int) =~= log.entries@);
    while i < n
        invariant
            i <= n,
            n == world.len(),
            n == old(world).len(),
            world.wf(),
            forall|j: int|
                0 <= j < n ==> #[trigger] world.alive@[j] == (old(world).alive@[j] && !(j < i && is_dead(
                    *old(world),
                    j,
                ))),
            forall|j: int| 0 <= j < i && is_dead(*old(world), j) ==> #[trigger] world.bare(j),
            forall|j: int| 0 <= j < n && !(j < i && is_dead(*old(world), j)) ==> #[trigger] world.same_slot(*old(world), j),
            player_died == exists|j: int| 0 <= j < i && is_dead(*old(world), j) && #[trigger] old(world).players@[j] is Some,
            log_extends(log.entries@, old(log).entries@),
        decreases n - i,
    {
        let ghost log_before = log.entries@;
        let ghost before = *world;
        assert(world.same_slot(*old(world), i as int));
        if let Some(st) = world.combat_stats[i] {
            if st.hp < 1 {
                if world.players[i].is_some() {
                    player_died = true;
                    log.entries.push(LogEvent::PlayerDied);
                } else {
                    let name = name_of(world, i);
                    log.entries.push(LogEvent::Died { name });
                }
                world.delete_entity(Entity { id: i });
            }
        }
        proof {
            assert(log.entries@.subrange(0, old(log).entries@.len() as int) =~= log_before.subrange(
                0,
                old(log).entries@.len() as int,
            ));
            assert forall|j: int| 0 <= j < i + 1 && is_dead(*old(world), j) implies #[trigger] world.bare(j) by {
                if j < i {
                    assert(before.bare(j));
                }
            }
            assert forall|j: int| 0 <= j < n && !(j < i + 1 && is_dead(*old(world), j)) implies #[trigger] world.same_slot(
                *old(world),
                j,
            ) by {
                assert(before.same_slot(*old(world), j));
            }
        }
        i = i + 1;
    }
    player_died
}

} // verus!
