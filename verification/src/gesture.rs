//! What a recognised touch gesture means.
use vstd::prelude::*;

verus! {

/// How many fingers a swipe takes.
pub const FINGERS: u32 = 4;

/// Where the fingers moved.
#[derive(Debug, Clone, Copy, PartialEq, Eq, Structural)]
pub enum SwipeDirection {
    Left,
    Right,
    Up,
    Down,
}

/// A gesture that was recognised.
#[derive(Debug, Clone, Copy, PartialEq, Eq, Structural)]
pub struct Gesture {
    pub finger_count: u32,
    pub direction: SwipeDirection,
}

/// What to do about a touch event.
#[derive(Debug, Clone, Copy, PartialEq, Eq, Structural)]
pub enum Reaction {
    /// Nothing: go on reading.
    Ignore,
    /// Discard the rest of the physical swipe (lift-off, jitter), so that it
    /// can't be read as the start of another gesture.
    Discard,
    /// Discard the rest, and switch terminals.
    Switch(SwipeDirection),
}

/// What to do about what a touch event completed, if anything. Only swipes with
/// four fingers count, and only those to the side switch terminals.
pub fn react(gesture: Option<Gesture>) -> (reaction: Reaction)
    ensures
        reaction == match gesture {
            Some(g) if g.finger_count == FINGERS => match g.direction {
                SwipeDirection::Left | SwipeDirection::Right => Reaction::Switch(g.direction),
                SwipeDirection::Up | SwipeDirection::Down => Reaction::Discard,
            },
            _ => Reaction::Ignore,
        },
{
    match gesture {
        Some(g) => if g.finger_count != FINGERS {
            Reaction::Ignore
        } else {
            match g.direction {
                SwipeDirection::Left | SwipeDirection::Right => Reaction::Switch(g.direction),
                SwipeDirection::Up | SwipeDirection::Down => Reaction::Discard,
            }
        },
        None => Reaction::Ignore,
    }
}

} // verus!
