//! Rotating discs a capsule falls through: each disc has a number of
//! positions and a start position already offset by the drop delay, and two
//! aligned discs combine into one with the product of their periods.

use vstd::prelude::*;

verus! {

/// One rotating disc. `delayed_start_pos` is the position at time zero plus
/// the time the capsule takes to reach the disc, so that the capsule passes
/// exactly when `pos_at_time` of the button-press time is zero.
pub struct Disc {
    pub positions: usize,
    pub delayed_start_pos: usize,
}

impl Disc {
    /// A disc with `positions` positions, at `start_pos` at time zero,
    /// reached `drop_delay` ticks after the button press.
    pub fn new(positions: usize, start_pos: usize, drop_delay: usize) -> (r: Disc)
        requires
            positions > 0,
            start_pos + drop_delay <= usize::MAX,
        ensures
            r.positions == positions,
            r.delayed_start_pos == start_pos + drop_delay,
    {
        Disc { positions, delayed_start_pos: start_pos + drop_delay }
    }

    /// The disc's position when a capsule dropped at `time` reaches it.
    pub fn pos_at_time(&self, time: usize) -> (r: usize)
        requires
            self.positions > 0,
            self.delayed_start_pos + time <= usize::MAX,
        ensures
            r == (self.delayed_start_pos + time) % (self.positions as int),
    {
        (self.delayed_start_pos + time) % self.positions
    }

    /// Two discs that are both aligned at some time stay aligned with period
    /// equal to the product of their periods.
    pub fn combine_with(&self, other: Disc) -> (r: Disc)
        requires
            self.positions * other.positions <= usize::MAX,
        ensures
            r.positions == self.positions * other.positions,
            r.delayed_start_pos == 0,
    {
        Disc { positions: self.positions * other.positions, delayed_start_pos: 0 }
    }
}

} // verus!
