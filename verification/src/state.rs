//! The frame clock: total elapsed time and the last frame's delta, in
//! fixed-point seconds.

use vstd::prelude::*;

verus! {

/// Time kept by the world, advanced once per frame before any system runs.
#[derive(Clone, Copy, Debug, PartialEq, Eq, Structural)]
pub struct GameState {
    pub total_time: i64,
    pub delta_time: i64,
}

impl GameState {
    /// A clock at zero.
    pub fn new() -> (s: GameState)
        ensures
            s.total_time == 0,
            s.delta_time == 0,
    {
        GameState { total_time: 0, delta_time: 0 }
    }

    /// Record this frame's delta and add it to the accumulated total.
    pub fn update(&mut self, delta_time: i64)
        requires
            delta_time >= 0,
            old(self).total_time + delta_time <= i64::MAX,
        ensures
            *final(self) == (GameState {
                total_time: (old(self).total_time + delta_time) as i64,
                delta_time,
            }),
    {
        self.delta_time = delta_time;
        self.total_time = self.total_time + delta_time;
    }
}

} // verus!
