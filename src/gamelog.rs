use vstd::prelude::*;

verus! {

/// One line of the message history, recorded as what happened; the display
/// layer turns it into text.
#[derive(Debug)]
pub enum LogEvent {
    Welcome,
    Hit { attacker: String, target: String, amount: i32 },
    UnableToHurt { attacker: String, target: String },
    Died { name: String },
    PlayerDied,
    NothingToPickUp,
    PickedUp { item: String },
    Drank { potion: String, healed: i32 },
    Dropped { item: String },
}

/// The append-only message history.
#[derive(Debug)]
pub struct GameLog {
    pub entries: Vec<LogEvent>,
}

impl GameLog {
    pub fn new() -> (l: GameLog)
        ensures
            l.entries@.len() == 0,
    {
        GameLog { entries: Vec::new() }
    }
}

} // verus!
