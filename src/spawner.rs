use vstd::prelude::*;
use bracket_lib::prelude::RandomNumberGenerator;
use crate::components::{
    BlocksTile, CombatStats, Entity, Item, Monster, Name, Player, Position, Potion, Renderable, Rgb,
    Viewshed,
};
use crate::fov::MAX_RANGE;
use crate::rect::{Rect, center_of};
use crate::rng::rng_roll_dice;
use crate::world::{World, stats_ok};

verus! {

/// Relies on `to_cp437` of bracket-terminal: a printable ASCII character keeps
/// its own code in code page 437.
#[verifier::external_body]
fn glyph_of(c: char) -> (g: u16)
    requires
        ' ' <= c <= '~',
    ensures
        g == c as u16,
{
    bracket_lib::prelude::to_cp437(c)
}

/// What a freshly spawned entity carries.
pub struct Blueprint {
    pub position: Position,
    pub renderable: Renderable,
    pub name: String,
    pub sight: Option<i32>,
    pub stats: Option<CombatStats>,
    pub player: bool,
    pub monster: bool,
    pub blocks: bool,
    pub item: bool,
    pub potion: Option<Potion>,
}

/// The new entity `e` carries exactly what `b` describes.
pub open spec fn carries(w: World, e: int, b: Blueprint) -> bool {
    &&& w.positions@[e] == Some(b.position)
    &&& w.renderables@[e] == Some(b.renderable)
    &&& w.names@[e] is Some && w.names@[e]->0.name@ == b.name@
    &&& (b.sight is Some <==> w.viewsheds@[e] is Some)
    &&& b.sight is Some ==> w.viewsheds@[e]->0.range == b.sight->0 && w.viewsheds@[e]->0.dirty
        && w.viewsheds@[e]->0.visible_tiles@.len() == 0
    &&& w.combat_stats@[e] == b.stats
    &&& w.players@[e] is Some == b.player
    &&& w.monsters@[e] is Some == b.monster
    &&& w.blockers@[e] is Some == b.blocks
    &&& w.items@[e] is Some == b.item
    &&& w.potions@[e] == b.potion
    &&& w.suffer_damage@[e] is None
    &&& w.wants_to_melee@[e] is None
    &&& w.wants_to_pickup@[e] is None
    &&& w.wants_to_drop@[e] is None
    &&& w.wants_to_drink@[e] is None
    &&& w.in_backpack@[e] is None
}

/// Adds an entity built from `b`; every earlier slot is left as it was.
pub fn spawn(world: &mut World, b: Blueprint) -> (e: Entity)
    requires
        old(world).wf(),
        old(world).len() < usize::MAX,
        b.sight is Some ==> 0 <= b.sight->0 <= MAX_RANGE,
        b.stats is Some ==> stats_ok(b.stats->0),
    ensures
        final(world).wf(),
        e.id == old(world).len(),
        final(world).len() == old(world).len() + 1,
        final(world).alive@[e.id as int],
        carries(*final(world), e.id as int, b),
        forall|k: int| 0 <= k < old(world).len() ==> #[trigger] final(world).same_slot(*old(world), k),
{
    let e = world.create_entity();
    let ghost created = *world;
    let i = e.id;
    world.positions.set(i, Some(b.position));
    world.renderables.set(i, Some(b.renderable));
    world.names.set(i, Some(Name { name: b.name }));
    match b.sight {
        Some(range) => {
            world.viewsheds.set(i, Some(Viewshed { visible_tiles: Vec::new(), range, dirty: true }));
        },
        None => {},
    }
    world.combat_stats.set(i, b.stats);
    if b.player {
        world.players.set(i, Some(Player {}));
    }
    if b.monster {
        world.monsters.set(i, Some(Monster {}));
    }
    if b.blocks {
        world.blockers.set(i, Some(BlocksTile {}));
    }
    if b.item {
        world.items.set(i, Some(Item {}));
    }
    world.potions.set(i, b.potion);
    proof {
        assert forall|k: int| 0 <= k < world.len() && !#[trigger] world.alive@[k] implies world.bare(k) by {
            assert(k != i);
            assert(created.bare(k));
        }
        assert forall|k: int|
            0 <= k < world.len() && #[trigger] world.combat_stats@[k] is Some implies stats_ok(
                world.combat_stats@[k]->0,
            ) by {
            if k != i {
                assert(created.combat_stats@[k] is Some);
            }
        }
        assert forall|k: int|
            0 <= k < world.len() && #[trigger] world.viewsheds@[k] is Some implies 0
                <= world.viewsheds@[k]->0.range <= MAX_RANGE by {
            if k != i {
                assert(created.viewsheds@[k] is Some);
            }
        }
        assert forall|k: int, j: int|
            0 <= k < world.len() && #[trigger] world.suffer_damage@[k] is Some && 0 <= j
                < world.suffer_damage@[k]->0.amount@.len() implies #[trigger] world.suffer_damage@[k]->0.amount@[j]
                > 0 by {
            assert(created.suffer_damage@[k] == world.suffer_damage@[k]);
        }
        assert forall|k: int| 0 <= k < old(world).len() implies #[trigger] world.same_slot(*old(world), k) by {
            assert(created.same_slot(*old(world), k));
        }
    }
    e
}

/// The player: health 30, defence 2, power 5, sight 8.
pub fn player(world: &mut World, player_x: i32, player_y: i32) -> (e: Entity)
    requires
        old(world).wf(),
        old(world).len() < usize::MAX,
    ensures
        final(world).wf(),
        e.id == old(world).len(),
        final(world).len() == old(world).len() + 1,
        final(world).alive@[e.id as int],
        final(world).positions@[e.id as int] == Some(Position { x: player_x, y: player_y }),
        final(world).players@[e.id as int] is Some,
        final(world).monsters@[e.id as int] is None,
        final(world).blockers@[e.id as int] is None,
        final(world).combat_stats@[e.id as int] == Some(CombatStats { max_hp: 30, hp: 30, defense: 2, power: 5 }),
        final(world).viewsheds@[e.id as int] is Some,
        final(world).viewsheds@[e.id as int]->0.range == 8,
        final(world).viewsheds@[e.id as int]->0.dirty,
        final(world).names@[e.id as int] is Some,
        final(world).names@[e.id as int]->0.name@ == "Player"@,
        final(world).viewsheds@[e.id as int]->0.visible_tiles@.len() == 0,
        final(world).renderables@[e.id as int] is Some,
        final(world).renderables@[e.id as int]->0.glyph == '@' as u16,
        forall|k: int| 0 <= k < old(world).len() ==> #[trigger] final(world).same_slot(*old(world), k),
{
    let b = Blueprint {
        position: Position { x: player_x, y: player_y },
        renderable: Renderable { glyph: glyph_of('@'), foreground: Rgb::new(255, 255, 0), background: Rgb::new(0, 0, 0), render_order: 0 },
        name: "Player".to_owned(),
        sight: Some(8),
        stats: Some(CombatStats { max_hp: 30, hp: 30, defense: 2, power: 5 }),
        player: true,
        monster: false,
        blocks: false,
        item: false,
        potion: None,
    };
    spawn(world, b)
}

/// A monster: health 16, defence 1, power 4, sight 8; it blocks its tile.
pub fn monster(world: &mut World, x: i32, y: i32, glyph: u16, name: &str) -> (e: Entity)
    requires
        old(world).wf(),
        old(world).len() < usize::MAX,
    ensures
        final(world).wf(),
        e.id == old(world).len(),
        final(world).len() == old(world).len() + 1,
        final(world).alive@[e.id as int],
        final(world).positions@[e.id as int] == Some(Position { x, y }),
        final(world).players@[e.id as int] is None,
        final(world).monsters@[e.id as int] is Some,
        final(world).blockers@[e.id as int] is Some,
        final(world).combat_stats@[e.id as int] == Some(CombatStats { max_hp: 16, hp: 16, defense: 1, power: 4 }),
        final(world).viewsheds@[e.id as int] is Some,
        final(world).viewsheds@[e.id as int]->0.range == 8,
        final(world).viewsheds@[e.id as int]->0.dirty,
        final(world).renderables@[e.id as int] is Some,
        final(world).renderables@[e.id as int]->0.glyph == glyph,
        final(world).names@[e.id as int] is Some,
        final(world).names@[e.id as int]->0.name@ == name@,
        final(world).viewsheds@[e.id as int]->0.visible_tiles@.len() == 0,
        forall|k: int| 0 <= k < old(world).len() ==> #[trigger] final(world).same_slot(*old(world), k),
{
    let b = Blueprint {
        position: Position { x, y },
        renderable: Renderable { glyph, foreground: Rgb::new(255, 0, 0), background: Rgb::new(0, 0, 0), render_order: 1 },
        name: name.to_owned(),
        sight: Some(8),
        stats: Some(CombatStats { max_hp: 16, hp: 16, defense: 1, power: 4 }),
        player: false,
        monster: true,
        blocks: true,
        item: false,
        potion: None,
    };
    spawn(world, b)
}

pub fn orc(world: &mut World, x: i32, y: i32) -> (e: Entity)
    requires
        old(world).wf(),
        old(world).len() < usize::MAX,
    ensures
        final(world).wf(),
        e.id == old(world).len(),
        final(world).len() == old(world).len() + 1,
        final(world).monsters@[e.id as int] is Some,
        final(world).positions@[e.id as int] == Some(Position { x, y }),
        final(world).renderables@[e.id as int] is Some,
        final(world).renderables@[e.id as int]->0.glyph == 'o' as u16,
        final(world).combat_stats@[e.id as int] == Some(CombatStats { max_hp: 16, hp: 16, defense: 1, power: 4 }),
        final(world).viewsheds@[e.id as int] is Some,
        final(world).viewsheds@[e.id as int]->0.range == 8,
        final(world).viewsheds@[e.id as int]->0.dirty,
        final(world).viewsheds@[e.id as int]->0.visible_tiles@.len() == 0,
        final(world).blockers@[e.id as int] is Some,
        final(world).names@[e.id as int] is Some,
        final(world).names@[e.id as int]->0.name@ == "Orc"@,
        final(world).players@[e.id as int] is None,
        forall|k: int| 0 <= k < old(world).len() ==> #[trigger] final(world).same_slot(*old(world), k),
{
    monster(world, x, y, glyph_of('o'), "Orc")
}

pub fn goblin(world: &mut World, x: i32, y: i32) -> (e: Entity)
    requires
        old(world).wf(),
        old(world).len() < usize::MAX,
    ensures
        final(world).wf(),
        e.id == old(world).len(),
        final(world).len() == old(world).len() + 1,
        final(world).monsters@[e.id as int] is Some,
        final(world).positions@[e.id as int] == Some(Position { x, y }),
        final(world).renderables@[e.id as int] is Some,
        final(world).renderables@[e.id as int]->0.glyph == 'g' as u16,
        final(world).combat_stats@[e.id as int] == Some(CombatStats { max_hp: 16, hp: 16, defense: 1, power: 4 }),
        final(world).viewsheds@[e.id as int] is Some,
        final(world).viewsheds@[e.id as int]->0.range == 8,
        final(world).viewsheds@[e.id as int]->0.dirty,
        final(world).viewsheds@[e.id as int]->0.visible_tiles@.len() == 0,
        final(world).blockers@[e.id as int] is Some,
        final(world).names@[e.id as int] is Some,
        final(world).names@[e.id as int]->0.name@ == "Goblin"@,
        final(world).players@[e.id as int] is None,
        forall|k: int| 0 <= k < old(world).len() ==> #[trigger] final(world).same_slot(*old(world), k),
{
    monster(world, x, y, glyph_of('g'), "Goblin")
}

/// The monster a roll of one die of two gives: an orc on 1, a goblin otherwise.
pub fn monster_of_roll(world: &mut World, roll: i32, x: i32, y: i32) -> (e: Entity)
    requires
        old(world).wf(),
        old(world).len() < usize::MAX,
    ensures
        final(world).wf(),
        e.id == old(world).len(),
        final(world).len() == old(world).len() + 1,
        final(world).monsters@[e.id as int] is Some,
        final(world).players@[e.id as int] is None,
        final(world).positions@[e.id as int] == Some(Position { x, y }),
        final(world).combat_stats@[e.id as int] == Some(CombatStats { max_hp: 16, hp: 16, defense: 1, power: 4 }),
        final(world).viewsheds@[e.id as int] is Some,
        final(world).viewsheds@[e.id as int]->0.range == 8,
        final(world).viewsheds@[e.id as int]->0.dirty,
        final(world).viewsheds@[e.id as int]->0.visible_tiles@.len() == 0,
        final(world).blockers@[e.id as int] is Some,
        final(world).names@[e.id as int] is Some,
        final(world).renderables@[e.id as int] is Some,
        roll == 1 ==> final(world).renderables@[e.id as int]->0.glyph == 'o' as u16
            && final(world).names@[e.id as int]->0.name@ == "Orc"@,
        roll != 1 ==> final(world).renderables@[e.id as int]->0.glyph == 'g' as u16
            && final(world).names@[e.id as int]->0.name@ == "Goblin"@,
        forall|k: int| 0 <= k < old(world).len() ==> #[trigger] final(world).same_slot(*old(world), k),
{
    if roll == 1 {
        orc(world, x, y)
    } else {
        goblin(world, x, y)
    }
}

/// An orc or a goblin, with even odds, at `(x, y)`.
pub fn random_monster(world: &mut World, rng: &mut RandomNumberGenerator, x: i32, y: i32) -> (e: Entity)
    requires
        old(world).wf(),
        old(world).len() < usize::MAX,
    ensures
        final(world).wf(),
        e.id == old(world).len(),
        final(world).len() == old(world).len() + 1,
        final(world).monsters@[e.id as int] is Some,
        final(world).players@[e.id as int] is None,
        final(world).positions@[e.id as int] == Some(Position { x, y }),
        final(world).combat_stats@[e.id as int] == Some(CombatStats { max_hp: 16, hp: 16, defense: 1, power: 4 }),
        final(world).viewsheds@[e.id as int] is Some,
        final(world).viewsheds@[e.id as int]->0.range == 8,
        final(world).viewsheds@[e.id as int]->0.dirty,
        final(world).viewsheds@[e.id as int]->0.visible_tiles@.len() == 0,
        final(world).blockers@[e.id as int] is Some,
        final(world).names@[e.id as int] is Some,
        final(world).renderables@[e.id as int] is Some,
        (final(world).renderables@[e.id as int]->0.glyph == 'o' as u16
            && final(world).names@[e.id as int]->0.name@ == "Orc"@) || (final(world).renderables@[e.id as int]->0.glyph
            == 'g' as u16 && final(world).names@[e.id as int]->0.name@ == "Goblin"@),
        forall|k: int| 0 <= k < old(world).len() ==> #[trigger] final(world).same_slot(*old(world), k),
{
    let roll = rng_roll_dice(rng, 1, 2);
    monster_of_roll(world, roll, x, y)
}

/// A potion that heals 8, lying at `(x, y)`.
pub fn health_potion(world: &mut World, x: i32, y: i32) -> (e: Entity)
    requires
        old(world).wf(),
        old(world).len() < usize::MAX,
    ensures
        final(world).wf(),
        e.id == old(world).len(),
        final(world).len() == old(world).len() + 1,
        final(world).alive@[e.id as int],
        final(world).positions@[e.id as int] == Some(Position { x, y }),
        final(world).items@[e.id as int] is Some,
        final(world).potions@[e.id as int] == Some(Potion { heal_amount: 8 }),
        final(world).combat_stats@[e.id as int] is None,
        final(world).blockers@[e.id as int] is None,
        final(world).in_backpack@[e.id as int] is None,
        forall|k: int| 0 <= k < old(world).len() ==> #[trigger] final(world).same_slot(*old(world), k),
{
    let b = Blueprint {
        position: Position { x, y },
        renderable: Renderable { glyph: glyph_of('!'), foreground: Rgb::new(255, 0, 255), background: Rgb::new(0, 0, 0), render_order: 2 },
        name: "Health Potion".to_owned(),
        sight: None,
        stats: None,
        player: false,
        monster: false,
        blocks: false,
        item: true,
        potion: Some(Potion { heal_amount: 8 }),
    };
    spawn(world, b)
}

/// Puts a random monster at the centre of `room`.
pub fn spawn_room(world: &mut World, rng: &mut RandomNumberGenerator, room: &Rect) -> (e: Entity)
    requires
        old(world).wf(),
        old(world).len() < usize::MAX,
    ensures
        final(world).wf(),
        e.id == old(world).len(),
        final(world).len() == old(world).len() + 1,
        final(world).monsters@[e.id as int] is Some,
        final(world).positions@[e.id as int] == Some(
            Position { x: center_of(*room).0 as i32, y: center_of(*room).1 as i32 },
        ),
        final(world).players@[e.id as int] is None,
        forall|k: int| 0 <= k < old(world).len() ==> #[trigger] final(world).same_slot(*old(world), k),
{
    let (x, y) = room.center();
    random_monster(world, rng, x, y)
}

} // verus!
