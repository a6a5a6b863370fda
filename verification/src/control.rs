//! Vehicle actuation output and its clamping to safe ranges.

use vstd::prelude::*;

use crate::SCALE;

verus! {

/// Clamp `v` into `[lo, hi]`.
pub open spec fn clamp_spec(v: int, lo: int, hi: int) -> int {
    if v < lo {
        lo
    } else if v > hi {
        hi
    } else {
        v
    }
}

/// Actuation command handed to the external physics collaborator.
///
/// Fields are fixed-point in thousandths (`crate::SCALE`): a steering of
/// one full unit left is `SCALE`, full throttle is `SCALE`. The intended
/// ranges are `steering` in `[-1, 1]` units, `throttle` and `brake` in
/// `[0, 1]` units; `clamped` is the sole path from raw network output to
/// a value inside those ranges and must be applied before any use.
#[derive(Debug, Clone, Copy, PartialEq, Eq, Structural)]
pub struct VehicleControl {
    pub steering: i64,
    pub throttle: i64,
    pub brake: i64,
}

impl VehicleControl {
    /// All three fields inside their intended ranges.
    pub open spec fn in_range(self) -> bool {
        &&& -SCALE <= self.steering <= SCALE
        &&& 0 <= self.throttle <= SCALE
        &&& 0 <= self.brake <= SCALE
    }

    /// The clamped command: steering into `[-SCALE, SCALE]`, throttle and
    /// brake into `[0, SCALE]`.
    pub open spec fn clamped_spec(self) -> VehicleControl {
        VehicleControl {
            steering: clamp_spec(self.steering as int, -SCALE as int, SCALE as int) as i64,
            throttle: clamp_spec(self.throttle as int, 0, SCALE as int) as i64,
            brake: clamp_spec(self.brake as int, 0, SCALE as int) as i64,
        }
    }

    /// Returns the command with every field clamped into its range; total
    /// over all inputs.
    pub fn clamped(self) -> (c: Self)
        ensures
            c == self.clamped_spec(),
            c.in_range(),
    {
        let steering: i64 = if self.steering < -SCALE {
            -SCALE
        } else if self.steering > SCALE {
            SCALE
        } else {
            self.steering
        };
        let throttle: i64 = if self.throttle < 0 {
            0
        } else if self.throttle > SCALE {
            SCALE
        } else {
            self.throttle
        };
        let brake: i64 = if self.brake < 0 {
            0
        } else if self.brake > SCALE {
            SCALE
        } else {
            self.brake
        };
        VehicleControl { steering, throttle, brake }
    }
}

impl Default for VehicleControl {
    /// The neutral command: no steering, no throttle, no brake.
    fn default() -> (c: Self)
        ensures
            c == (VehicleControl { steering: 0, throttle: 0, brake: 0 }),
            c.in_range(),
    {
        VehicleControl { steering: 0, throttle: 0, brake: 0 }
    }
}

/// Clamping is idempotent: clamping an already clamped command changes
/// nothing.
pub proof fn lemma_clamped_idempotent(c: VehicleControl)
    ensures
        c.clamped_spec().clamped_spec() == c.clamped_spec(),
{
}

/// A command already in range is left unchanged by clamping.
pub proof fn lemma_clamped_identity_in_range(c: VehicleControl)
    requires
        c.in_range(),
    ensures
        c.clamped_spec() == c,
{
}

} // verus!
