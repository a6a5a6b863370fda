//! Fitness scoring for one finished episode.

use vstd::prelude::*;

verus! {

/// Upper bound on `distance` so that the scoring formula `10 * distance`
/// cannot overflow an `i64`.
pub const MAX_DISTANCE: i64 = 900_000_000_000_000_000;

/// Outcome of one completed episode for a single agent.
///
/// Both fields are fixed-point integers in thousandths of a unit
/// (`crate::SCALE`): `distance` is how far the agent travelled along the
/// track, `time_alive` how long it survived. Both are non-negative; the
/// score is computed once at episode end and the value is then immutable.
#[derive(Debug, Clone, Copy, PartialEq, Eq, Structural)]
pub struct FitnessScore {
    pub distance: i64,
    pub time_alive: i64,
}

impl FitnessScore {
    /// Both components non-negative, and `distance` small enough that
    /// the score cannot overflow.
    pub open spec fn wf(self) -> bool {
        &&& 0 <= self.distance <= MAX_DISTANCE
        &&& 0 <= self.time_alive
    }

    /// The exact score `distance - time_alive / 10`, expressed in
    /// ten-thousandths of a unit so that the ten-percent time penalty is
    /// exact for every input.
    pub open spec fn value_spec(self) -> int {
        10 * self.distance - self.time_alive
    }

    pub fn new(distance: i64, time_alive: i64) -> (s: Self)
        requires
            0 <= distance <= MAX_DISTANCE,
            0 <= time_alive,
        ensures
            s == (FitnessScore { distance, time_alive }),
            s.wf(),
    {
        FitnessScore { distance, time_alive }
    }

    /// Final fitness: the distance travelled minus a tenth of the time
    /// alive, exactly. The result is in ten-thousandths of a unit (ten
    /// times finer than the fields) so no rounding occurs; it may be
    /// negative and is never clamped.
    pub fn value(&self) -> (v: i64)
        requires
            self.wf(),
        ensures
            v == self.value_spec(),
    {
        10 * self.distance - self.time_alive
    }
}

impl Default for FitnessScore {
    /// An empty episode: no distance covered, no time elapsed.
    fn default() -> (s: Self)
        ensures
            s == (FitnessScore { distance: 0, time_alive: 0 }),
            s.wf(),
    {
        FitnessScore { distance: 0, time_alive: 0 }
    }
}

} // verus!
