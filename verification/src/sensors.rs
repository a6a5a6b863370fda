//! Ray-cast sensor layout and the per-tick reading vector the network
//! consumes. The core owns only the shape and validation of this data;
//! the readings themselves come from the external ray-cast collaborator.

use vstd::prelude::*;

use crate::INPUT_LIMIT;

verus! {

/// Layout of the distance sensors on one vehicle.
///
/// `ray_count` rays, each reporting a distance in `[0, ray_length]`
/// (fixed-point thousandths); `ray_length` itself marks "no hit within
/// range". Both fields must be positive, and `ray_length` small enough
/// that a reading can always be fed to the network.
#[derive(Debug, Clone, Copy, PartialEq, Eq, Structural)]
pub struct SensorConfig {
    pub ray_count: usize,
    pub ray_length: i64,
}

impl SensorConfig {
    pub open spec fn wf(self) -> bool {
        &&& self.ray_count > 0
        &&& 0 < self.ray_length <= INPUT_LIMIT
    }
}

impl Default for SensorConfig {
    /// Eight rays of two hundred units each.
    fn default() -> (c: Self)
        ensures
            c == (SensorConfig { ray_count: 8, ray_length: 200_000 }),
            c.wf(),
    {
        SensorConfig { ray_count: 8, ray_length: 200_000 }
    }
}

/// One tick's sensor readings for one agent (fixed-point thousandths).
///
/// `distances` holds one value per ray, in `[0, ray_length]` by the
/// collaborator's contract; `speed` is forward-positive; `track_offset`
/// is the signed lateral deviation from the centerline, positive to the
/// left of the direction of travel.
#[derive(Debug, Clone, PartialEq, Eq)]
pub struct SensorReadings {
    pub distances: Vec<i64>,
    pub speed: i64,
    pub track_offset: i64,
}

impl SensorReadings {
    /// Every value inside the range the network accepts, and the
    /// distances inside the configured ray range.
    pub open spec fn in_range(self, config: SensorConfig) -> bool {
        &&& forall|i: int|
            0 <= i < self.distances@.len() ==> 0 <= #[trigger] self.distances@[i]
                <= config.ray_length
        &&& -INPUT_LIMIT <= self.speed <= INPUT_LIMIT
        &&& -INPUT_LIMIT <= self.track_offset <= INPUT_LIMIT
    }

    /// A reading with `ray_count` zeroed distances, zero speed and zero
    /// offset, used to reset an agent before the first real reading.
    pub fn zeroed(ray_count: usize) -> (r: Self)
        ensures
            r.distances@.len() == ray_count,
            forall|i: int| 0 <= i < ray_count ==> r.distances@[i] == 0,
            r.speed == 0,
            r.track_offset == 0,
    {
        let mut distances: Vec<i64> = Vec::new();
        let mut k: usize = 0;
        while k < ray_count
            invariant
                k <= ray_count,
                distances@.len() == k,
                forall|i: int| 0 <= i < k ==> distances@[i] == 0,
            decreases ray_count - k,
        {
            distances.push(0);
            k = k + 1;
        }
        SensorReadings { distances, speed: 0, track_offset: 0 }
    }

    /// An exact copy of this reading.
    pub fn duplicate(&self) -> (r: Self)
        ensures
            r.distances@ == self.distances@,
            r.speed == self.speed,
            r.track_offset == self.track_offset,
    {
        let mut distances: Vec<i64> = Vec::new();
        let mut i: usize = 0;
        while i < self.distances.len()
            invariant
                i <= self.distances@.len(),
                distances@ == self.distances@.take(i as int),
            decreases self.distances@.len() - i,
        {
            distances.push(self.distances[i]);
            proof {
                assert(distances@ =~= self.distances@.take(i as int + 1));
            }
            i = i + 1;
        }
        proof {
            assert(distances@ =~= self.distances@);
        }
        SensorReadings { distances, speed: self.speed, track_offset: self.track_offset }
    }

    /// Number of rays in this reading.
    pub fn ray_count(&self) -> (n: usize)
        ensures
            n == self.distances@.len(),
    {
        self.distances.len()
    }
}

} // verus!
