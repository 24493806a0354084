//! Indices drawn at random, for the shuffled standby playlist.

use vstd::prelude::*;

verus! {

/// Where a run of draws stands: how many it has made (counting round at 2^64). Its field is
/// private and only `new` and `draw` change it, so each draw gets its own number.
pub struct Dice {
    taken: u64,
}

/// The count after one more draw.
pub open spec fn next_count(c: u64) -> u64 {
    if c == u64::MAX { 0 } else { (c + 1) as u64 }
}

/// The count after `k` more draws.
pub open spec fn count_after(c: u64, k: nat) -> u64
    decreases k,
{
    if k == 0 { c } else { next_count(count_after(c, (k - 1) as nat)) }
}

impl Dice {
    /// How many draws have been made.
    pub closed spec fn count(&self) -> u64 {
        self.taken
    }

    /// No draws yet.
    pub fn new() -> (d: Dice)
        ensures
            d.count() == 0,
    {
        Dice { taken: 0 }
    }
}

/// An index drawn at random below a bound, numbered by the dice that drew it. Its fields are
/// private and only `draw` makes one, so a draw is a number chance gave rather than one
/// picked.
pub struct Draw {
    index: usize,
    bound: usize,
    serial: u64,
}

impl Draw {
    /// The index drawn.
    pub closed spec fn drawn(&self) -> usize {
        self.index
    }

    /// The bound it was drawn below.
    pub closed spec fn below(&self) -> usize {
        self.bound
    }

    /// Its number among the draws of its dice.
    pub closed spec fn serial(&self) -> u64 {
        self.serial
    }

    /// The index drawn.
    pub fn index(&self) -> (r: usize)
        ensures
            r == self.drawn(),
    {
        self.index
    }
}

/// Draws an index below `n` at random, as the next draw of `dice`.
pub fn draw(dice: &mut Dice, n: usize) -> (d: Draw)
    requires
        n > 0,
    ensures
        d.below() == n,
        d.drawn() < n,
        d.serial() == old(dice).count(),
        final(dice).count() == next_count(old(dice).count()),
{
    let serial = dice.taken;
    dice.taken = if dice.taken == u64::MAX { 0 } else { dice.taken + 1 };
    Draw { index: super::queue::random_below(n), bound: n, serial }
}

/// The indices of some draws, in order.
pub open spec fn drawn_indices(draws: Seq<Draw>) -> Seq<usize> {
    draws.map_values(|d: Draw| d.drawn())
}

} // verus!
