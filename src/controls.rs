use vstd::prelude::*;

verus! {

/// What the player asked for during one frame.
#[derive(Clone, Copy, Debug, PartialEq, Eq, Structural)]
pub enum ControlEvent {
    SpeedupStart,
    SpeedupEnd,
    Pause,
    Left,
    Right,
    RotateRight,
    RotateLeft,
}

} // verus!
