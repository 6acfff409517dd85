use vstd::prelude::*;
use crate::components::{Entity, Position, Viewshed, WantsToMelee, WantsToPickupItem};
use crate::gamelog::LogEvent;
use crate::state::{RunState, State};
use crate::world::World;

verus! {

/// The eight directions a step can take.
#[derive(Clone, Copy, Debug, PartialEq, Eq, Structural)]
pub enum Direction {
    West,
    East,
    North,
    South,
    NorthWest,
    NorthEast,
    SouthWest,
    SouthEast,
}

/// One classified input event.
#[derive(Clone, Copy, Debug, PartialEq, Eq, Structural)]
pub enum Command {
    Move(Direction),
    Wait,
    PickUp,
    OpenInventory,
    OpenDrop,
    Escape,
}

pub open spec fn delta_of(d: Direction) -> (int, int) {
    match d {
        Direction::West => (-1, 0),
        Direction::East => (1, 0),
        Direction::North => (0, -1),
        Direction::South => (0, 1),
        Direction::NorthWest => (-1, -1),
        Direction::NorthEast => (1, -1),
        Direction::SouthWest => (-1, 1),
        Direction::SouthEast => (1, 1),
    }
}

impl Direction {
    pub fn delta(&self) -> (r: (i32, i32))
        ensures
            r.0 == delta_of(*self).0,
            r.1 == delta_of(*self).1,
    {
        match self {
            Direction::West => (-1, 0),
            Direction::East => (1, 0),
            Direction::North => (0, -1),
            Direction::South => (0, 1),
            Direction::NorthWest => (-1, -1),
            Direction::NorthEast => (1, -1),
            Direction::SouthWest => (-1, 1),
            Direction::SouthEast => (1, 1),
        }
    }
}

/// The first entity of `s` that has fighting stats.
pub open spec fn first_fighter(w: World, s: Seq<Entity>) -> Option<Entity>
    decreases s.len(),
{
    if s.len() == 0 {
        None
    } else if s[0].id < w.len() && w.combat_stats@[s[0].id as int] is Some {
        Some(s[0])
    } else {
        first_fighter(w, s.subrange(1, s.len() as int))
    }
}

/// The highest slot below `upto` holding an item that lies at `pos`.
pub open spec fn last_item_at(w: World, pos: Position, upto: int) -> Option<int>
    decreases upto,
{
    if upto <= 0 {
        None
    } else if w.items@[upto - 1] is Some && w.positions@[upto - 1] == Some(pos) {
        Some(upto - 1)
    } else {
        last_item_at(w, pos, upto - 1)
    }
}

/// The tile the player means to enter, when the player can act at all.
pub open spec fn move_target(s: State, dx: int, dy: int) -> Option<(int, int)> {
    let p = s.player_entity.id as int;
    if s.world.positions@[p] is Some && s.world.viewsheds@[p] is Some {
        Some((s.world.positions@[p]->0.x + dx, s.world.positions@[p]->0.y + dy))
    } else {
        None
    }
}

/// What a step attempt by `(dx, dy)` makes of the state `s0`: nothing when
/// the player cannot act or the target leaves the walkable frame; a melee
/// intent against the first fighter on the target tile; otherwise, when the
/// tile is not blocked, the move itself, with the viewshed marked dirty.
pub open spec fn move_outcome(s0: State, s1: State, dx: int, dy: int) -> bool {
    let p = s0.player_entity.id as int;
    match move_target(s0, dx, dy) {
        None => s1 == s0,
        Some((tx, ty)) => {
            if !(1 <= tx <= s0.map.width - 1 && 1 <= ty <= s0.map.height - 1) {
                s1 == s0
            } else {
                let dest = s0.map.idx(tx, ty);
                match first_fighter(s0.world, s0.map.tile_content@[dest]@) {
                    Some(t) => s1 == State {
                        world: World { wants_to_melee: s1.world.wants_to_melee, ..s0.world },
                        ..s0
                    } && s1.world.wants_to_melee@ == s0.world.wants_to_melee@.update(
                        p,
                        Some(WantsToMelee { target: t }),
                    ),
                    None => if s0.map.blocked@[dest] {
                        s1 == s0
                    } else {
                        &&& s1 == State {
                            world: World {
                                positions: s1.world.positions,
                                viewsheds: s1.world.viewsheds,
                                ..s0.world
                            },
                            player_pos: s1.player_pos,
                            ..s0
                        }
                        &&& s1.player_pos == Position { x: tx as i32, y: ty as i32 }
                        &&& s1.world.positions@ == s0.world.positions@.update(p, Some(s1.player_pos))
                        &&& s1.world.viewsheds@.len() == s0.world.viewsheds@.len()
                        &&& s1.world.viewsheds@[p] is Some
                        &&& s1.world.viewsheds@[p]->0.dirty
                        &&& s1.world.viewsheds@[p]->0.range == s0.world.viewsheds@[p]->0.range
                        &&& s1.world.viewsheds@[p]->0.visible_tiles@ == s0.world.viewsheds@[p]->0.visible_tiles@
                        &&& forall|k: int|
                            0 <= k < s0.world.len() && k != p ==> #[trigger] s1.world.viewsheds@[k]
                                == s0.world.viewsheds@[k]
                    },
                }
            }
        },
    }
}

/// What a pickup attempt makes of the state `s0`: a pickup intent of the
/// player for the item on its tile, or one "nothing here" line in the log.
pub open spec fn pickup_outcome(s0: State, s1: State) -> bool {
    match last_item_at(s0.world, s0.player_pos, s0.world.len() as int) {
        None => s1 == State { log: s1.log, ..s0 } && s1.log.entries@ == s0.log.entries@.push(
            LogEvent::NothingToPickUp,
        ),
        Some(item) => if s0.world.alive@[s0.player_entity.id as int] {
            s1 == State { world: World { wants_to_pickup: s1.world.wants_to_pickup, ..s0.world }, ..s0 }
                && s1.world.wants_to_pickup@ == s0.world.wants_to_pickup@.update(
                s0.player_entity.id as int,
                Some(WantsToPickupItem { collected_by: s0.player_entity, item: Entity { id: item as usize } }),
            )
        } else {
            s1 == s0
        },
    }
}

/// Moves the player one step, or, when the tile holds something that can
/// fight, records a melee intent against the first such entity instead. A
/// step off the walkable frame of the map or onto a blocked tile is not
/// taken.
pub fn try_move_player(delta_x: i32, delta_y: i32, st: &mut State)
    requires
        old(st).wf(),
        -1 <= delta_x <= 1,
        -1 <= delta_y <= 1,
    ensures
        final(st).wf(),
        move_outcome(*old(st), *final(st), delta_x as int, delta_y as int),
{
    let p = st.player_entity.id;
    let pos = match st.world.positions[p] {
        Some(pos) => pos,
        None => {
            return;
        },
    };
    if st.world.viewsheds[p].is_none() {
        return;
    }
    let tx = pos.x + delta_x;
    let ty = pos.y + delta_y;
    if tx < 1 || tx > st.map.width - 1 || ty < 1 || ty > st.map.height - 1 {
        return;
    }
    let dest = st.map.xy_idx(tx, ty);
    let n = st.world.alive.len();
    let mut k: usize = 0;
    let len = st.map.tile_content[dest].len();
    let ghost content = st.map.tile_content@[dest as int]@;
    assert(content.subrange(0, len as int) =~= content);
    while k < len
        invariant
            st == old(st),
            st.wf(),
            p == st.player_entity.id,
            st.world.positions@[p as int] is Some,
            move_target(*st, delta_x as int, delta_y as int) == Some((tx as int, ty as int)),
            1 <= tx <= st.map.width - 1,
            1 <= ty <= st.map.height - 1,
            dest == st.map.idx(tx as int, ty as int),
            dest < st.map.count(),
            content == st.map.tile_content@[dest as int]@,
            len == content.len(),
            n == st.world.len(),
            k <= len,
            first_fighter(st.world, content) == first_fighter(st.world, content.subrange(k as int, len as int)),
        decreases len - k,
    {
        let t = st.map.tile_content[dest][k];
        let ghost rest = content.subrange(k as int, len as int);
        assert(rest[0] == t);
        assert(rest.subrange(1, rest.len() as int) =~= content.subrange(k + 1, len as int));
        if t.id < n && st.world.combat_stats[t.id].is_some() {
            assert(first_fighter(st.world, rest) == Some(t));
            st.world.wants_to_melee.set(p, Some(WantsToMelee { target: t }));
            proof {
                assert forall|j: int| 0 <= j < st.world.len() && !#[trigger] st.world.alive@[j] implies st.world.bare(j) by {
                    assert(old(st).world.bare(j));
                }
            }
            return;
        }
        k = k + 1;
    }
    assert(content.subrange(len as int, len as int) =~= Seq::<Entity>::empty());
    if !st.map.blocked[dest] {
        let np = Position { x: tx, y: ty };
        st.world.positions.set(p, Some(np));
        let vs = st.world.viewsheds[p].take();
        if let Some(v) = vs {
            st.world.viewsheds.set(p, Some(Viewshed { dirty: true, ..v }));
        }
        st.player_pos = np;
        proof {
            assert forall|j: int| 0 <= j < st.world.len() && !#[trigger] st.world.alive@[j] implies st.world.bare(j) by {
                assert(old(st).world.bare(j));
            }
            assert forall|j: int|
                0 <= j < st.world.len() && #[trigger] st.world.viewsheds@[j] is Some implies 0
                    <= st.world.viewsheds@[j]->0.range <= crate::fov::MAX_RANGE by {
                assert(old(st).world.viewsheds@[j] is Some);
            }
            assert forall|j: int|
                0 <= j < st.world.len() && #[trigger] st.world.positions@[j] is Some implies st.map.in_bounds(
                    st.world.positions@[j]->0.x as int,
                    st.world.positions@[j]->0.y as int,
                ) by {
                if j != p {
                    assert(old(st).world.positions@[j] is Some);
                }
            }
        }
    }
}

/// Records the wish to pick up the item lying on the player's tile (the
/// highest slot when several lie there), or logs that there is none.
pub fn get_item(st: &mut State)
    requires
        old(st).wf(),
    ensures
        final(st).wf(),
        pickup_outcome(*old(st), *final(st)),
{
    let n = st.world.alive.len();
    let mut target: Option<usize> = None;
    let mut i: usize = 0;
    while i < n
        invariant
            st == old(st),
            n == st.world.len(),
            st.world.wf(),
            i <= n,
            match target {
                None => last_item_at(st.world, st.player_pos, i as int) is None,
                Some(t) => last_item_at(st.world, st.player_pos, i as int) == Some(t as int),
            },
        decreases n - i,
    {
        if st.world.items[i].is_some() && st.world.positions[i] == Some(st.player_pos) {
            target = Some(i);
        }
        i = i + 1;
    }
    match target {
        None => {
            st.log.entries.push(LogEvent::NothingToPickUp);
        },
        Some(item) => if st.world.alive[st.player_entity.id] {
            let p = st.player_entity;
            st.world.wants_to_pickup.set(p.id, Some(WantsToPickupItem { collected_by: p, item: Entity { id: item } }));
            proof {
                assert forall|j: int| 0 <= j < st.world.len() && !#[trigger] st.world.alive@[j] implies st.world.bare(j) by {
                    assert(old(st).world.bare(j));
                }
            }
        },
    }
}

/// What one classified input event makes of the state, and the phase it leads to.
pub open spec fn command_outcome(s0: State, s1: State, cmd: Option<Command>, next: RunState) -> bool {
    &&& s1.map == s0.map
    &&& cmd is None ==> s1 == s0 && next == RunState::AwaitingInput
    &&& cmd == Some(Command::Escape) ==> s1 == s0 && next == RunState::AwaitingInput
    &&& cmd == Some(Command::Wait) ==> s1 == s0 && next == RunState::PlayerTurn
    &&& cmd == Some(Command::OpenInventory) ==> s1 == s0 && next == RunState::ShowInventory
    &&& cmd == Some(Command::OpenDrop) ==> s1 == s0 && next == RunState::ShowDropItem
    &&& cmd == Some(Command::PickUp) ==> next == RunState::PlayerTurn && pickup_outcome(s0, s1)
    &&& forall|d: Direction|
            cmd == Some(Command::Move(d)) ==> next == RunState::PlayerTurn && move_outcome(
                s0,
                s1,
                delta_of(d).0,
                delta_of(d).1,
            )
}

/// Maps one input event to the player's action and the next phase. No event
/// changes nothing and keeps waiting.
pub fn player_input(st: &mut State, input: Option<Command>) -> (next: RunState)
    requires
        old(st).wf(),
    ensures
        final(st).wf(),
        final(st).runstate == old(st).runstate,
        command_outcome(*old(st), *final(st), input, next),
{
    match input {
        None => RunState::AwaitingInput,
        Some(cmd) => match cmd {
            Command::Move(d) => {
                let (dx, dy) = d.delta();
                try_move_player(dx, dy, st);
                RunState::PlayerTurn
            },
            Command::Wait => RunState::PlayerTurn,
            Command::PickUp => {
                get_item(st);
                RunState::PlayerTurn
            },
            Command::OpenInventory => RunState::ShowInventory,
            Command::OpenDrop => RunState::ShowDropItem,
            Command::Escape => RunState::AwaitingInput,
        },
    }
}

} // verus!
