use vstd::prelude::*;

verus! {

/// An opaque identifier of an entity: the slot it occupies in the registry.
#[derive(Clone, Copy, Debug, PartialEq, Eq, Structural)]
pub struct Entity {
    pub id: usize,
}

/// A grid coordinate.
#[derive(Clone, Copy, Debug, PartialEq, Eq, Structural)]
pub struct Position {
    pub x: i32,
    pub y: i32,
}

/// A colour as three 8-bit channels.
#[derive(Clone, Copy, Debug, PartialEq, Eq, Structural)]
pub struct Rgb {
    pub r: u8,
    pub g: u8,
    pub b: u8,
}

impl Rgb {
    pub fn new(r: u8, g: u8, b: u8) -> (c: Rgb)
        ensures
            c == (Rgb { r, g, b }),
    {
        Rgb { r, g, b }
    }
}

/// How an entity is drawn; a lower `render_order` is drawn last, on top.
#[derive(Clone, Copy, Debug, PartialEq, Eq, Structural)]
pub struct Renderable {
    pub glyph: u16,
    pub foreground: Rgb,
    pub background: Rgb,
    pub render_order: i32,
}

#[derive(Clone, Copy, Debug, PartialEq, Eq, Structural)]
pub struct Player {}

#[derive(Clone, Copy, Debug, PartialEq, Eq, Structural)]
pub struct Monster {}

#[derive(Clone, Copy, Debug, PartialEq, Eq, Structural)]
pub struct BlocksTile {}

#[derive(Clone, Copy, Debug, PartialEq, Eq, Structural)]
pub struct Item {}

#[derive(Debug)]
pub struct Name {
    pub name: String,
}

/// What an entity sees, the radius it sees to, and whether it must be
/// recomputed.
#[derive(Debug)]
pub struct Viewshed {
    pub visible_tiles: Vec<Position>,
    pub range: i32,
    pub dirty: bool,
}

#[derive(Clone, Copy, Debug, PartialEq, Eq, Structural)]
pub struct CombatStats {
    pub max_hp: i32,
    pub hp: i32,
    pub defense: i32,
    pub power: i32,
}

/// Damage taken this turn, not yet applied.
#[derive(Debug)]
pub struct SufferDamage {
    pub amount: Vec<i32>,
}

#[derive(Clone, Copy, Debug, PartialEq, Eq, Structural)]
pub struct WantsToMelee {
    pub target: Entity,
}

#[derive(Clone, Copy, Debug, PartialEq, Eq, Structural)]
pub struct WantsToPickupItem {
    pub collected_by: Entity,
    pub item: Entity,
}

#[derive(Clone, Copy, Debug, PartialEq, Eq, Structural)]
pub struct WantsToDropItem {
    pub item: Entity,
}

#[derive(Clone, Copy, Debug, PartialEq, Eq, Structural)]
pub struct WantsToDrinkPotion {
    pub potion: Entity,
}

#[derive(Clone, Copy, Debug, PartialEq, Eq, Structural)]
pub struct InBackpack {
    pub owner: Entity,
}

#[derive(Clone, Copy, Debug, PartialEq, Eq, Structural)]
pub struct Potion {
    pub heal_amount: i32,
}

} // verus!
