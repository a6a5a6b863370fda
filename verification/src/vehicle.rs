//! Spawn-grid layout: where each vehicle of a generation starts,
//! derived from the track's start pose. The actual spawning into the
//! scene is the rendering collaborator's job; the core only computes the
//! poses.

use vstd::prelude::*;

use crate::control::VehicleControl;
use crate::fitness::{FitnessScore, MAX_DISTANCE};
use crate::num::{lemma_tdiv_shrinks, tdiv64, tdiv_spec};
use crate::sensors::SensorReadings;
use crate::track::{StartPose, Vec2};
use crate::{COORD_LIMIT, SCALE};

verus! {

/// Largest vehicle count and row width the grid layout accepts, so every
/// intermediate product fits in 64 bits.
pub const GRID_LIMIT: usize = 1_000_000;

/// A direction vector with components in `[-SCALE, SCALE]`, as segment
/// unit directions are.
pub open spec fn dir_bounded(v: Vec2) -> bool {
    &&& -SCALE <= v.x <= SCALE
    &&& -SCALE <= v.y <= SCALE
}

/// The grid slot of agent `index`: rows stack backwards from the start
/// pose along the facing direction, columns spread sideways around the
/// centerline, all in fixed-point thousandths.
pub open spec fn grid_pos_spec(
    start: StartPose,
    index: int,
    per_row: int,
    forward_spacing: i64,
    lateral_spacing: i64,
) -> Vec2 {
    let row = index / per_row;
    let col = index % per_row;
    let fwd = start.direction;
    let fdist = row * forward_spacing;
    let loff2 = 2 * col - (per_row - 1);
    let ldisp = tdiv_spec(loff2 * lateral_spacing, 2);
    Vec2 {
        x: (start.position.x - tdiv_spec(fwd.x * fdist, SCALE as int) + tdiv_spec(
            fwd.y * ldisp,
            SCALE as int,
        )) as i64,
        y: (start.position.y - tdiv_spec(fwd.y * fdist, SCALE as int) + tdiv_spec(
            (-fwd.x) * ldisp,
            SCALE as int,
        )) as i64,
    }
}

/// Poses for a grid of `total` vehicles near the start pose, `per_row`
/// abreast (at least one), spaced `forward_spacing` between rows and
/// `lateral_spacing` between columns; a negative spacing mirrors the
/// grid. Every pose faces the start direction; an empty grid is
/// returned for zero vehicles.
pub fn grid_start_positions(
    start: StartPose,
    total: usize,
    per_row: usize,
    forward_spacing: i64,
    lateral_spacing: i64,
) -> (r: Vec<StartPose>)
    requires
        start.position.in_bounds(),
        dir_bounded(start.direction),
        -COORD_LIMIT <= forward_spacing <= COORD_LIMIT,
        -COORD_LIMIT <= lateral_spacing <= COORD_LIMIT,
        total <= GRID_LIMIT,
        per_row <= GRID_LIMIT,
    ensures
        r@.len() == total,
        forall|i: int|
            0 <= i < total ==> (#[trigger] r@[i]).direction == start.direction && r@[i].position
                == grid_pos_spec(
                start,
                i,
                (if per_row >= 1 {
                    per_row
                } else {
                    1
                }) as int,
                forward_spacing,
                lateral_spacing,
            ),
{
    let pr: usize = if per_row >= 1 {
        per_row
    } else {
        1
    };
    let mut r: Vec<StartPose> = Vec::new();
    let mut i: usize = 0;
    while i < total
        invariant
            i <= total,
            total <= GRID_LIMIT,
            1 <= pr <= GRID_LIMIT,
            pr == if per_row >= 1 {
                per_row as int
            } else {
                1
            },
            start.position.in_bounds(),
            dir_bounded(start.direction),
            -COORD_LIMIT <= forward_spacing <= COORD_LIMIT,
            -COORD_LIMIT <= lateral_spacing <= COORD_LIMIT,
            r@.len() == i,
            forall|t: int|
                0 <= t < i ==> (#[trigger] r@[t]).direction == start.direction && r@[t].position
                    == grid_pos_spec(start, t, pr as int, forward_spacing, lateral_spacing),
        decreases total - i,
    {
        let row: usize = i / pr;
        let col: usize = i % pr;
        let rowi: i64 = row as i64;
        let coli: i64 = col as i64;
        proof {
            assert(rowi <= i < GRID_LIMIT);
            assert(coli < pr <= GRID_LIMIT);
            assert(-1_000_000 * 1_000_000_000 <= rowi * forward_spacing <= 1_000_000
                * 1_000_000_000) by (nonlinear_arith)
                requires
                    0 <= rowi <= 1_000_000,
                    -1_000_000_000 <= forward_spacing <= 1_000_000_000,
            ;
        }
        let fdist: i64 = rowi * forward_spacing;
        let loff2: i64 = 2 * coli - ((pr as i64) - 1);
        proof {
            assert(-2_000_001 <= loff2 <= 2_000_000);
            assert(-2_000_001 * 1_000_000_000 <= loff2 * lateral_spacing <= 2_000_001
                * 1_000_000_000) by (nonlinear_arith)
                requires
                    -2_000_001 <= loff2 <= 2_000_000,
                    -1_000_000_000 <= lateral_spacing <= 1_000_000_000,
            ;
            lemma_tdiv_shrinks(loff2 as int * lateral_spacing as int, 2);
        }
        let ldisp: i64 = tdiv64(loff2 * lateral_spacing, 2);
        let fwd = start.direction;
        proof {
            assert(-1000 * 1_000_000_000_000_000 <= fwd.x as int * fdist as int <= 1000
                * 1_000_000_000_000_000) by (nonlinear_arith)
                requires
                    -1000 <= fwd.x as int <= 1000,
                    -1_000_000_000_000_000 <= fdist as int <= 1_000_000_000_000_000,
            ;
            assert(-1000 * 1_000_000_000_000_000 <= fwd.y as int * fdist as int <= 1000
                * 1_000_000_000_000_000) by (nonlinear_arith)
                requires
                    -1000 <= fwd.y as int <= 1000,
                    -1_000_000_000_000_000 <= fdist as int <= 1_000_000_000_000_000,
            ;
            assert(-1000 * 3_000_000_000_000_000 <= fwd.y as int * ldisp as int <= 1000
                * 3_000_000_000_000_000) by (nonlinear_arith)
                requires
                    -1000 <= fwd.y as int <= 1000,
                    -3_000_000_000_000_000 <= ldisp as int <= 3_000_000_000_000_000,
            ;
            assert(-1000 * 3_000_000_000_000_000 <= (-fwd.x) as int * ldisp as int <= 1000
                * 3_000_000_000_000_000) by (nonlinear_arith)
                requires
                    -1000 <= (-fwd.x) as int <= 1000,
                    -3_000_000_000_000_000 <= ldisp as int <= 3_000_000_000_000_000,
            ;
            lemma_tdiv_shrinks(fwd.x as int * fdist as int, SCALE as int);
            lemma_tdiv_shrinks(fwd.y as int * fdist as int, SCALE as int);
            lemma_tdiv_shrinks(fwd.y as int * ldisp as int, SCALE as int);
            lemma_tdiv_shrinks((-fwd.x) as int * ldisp as int, SCALE as int);
        }
        let px: i64 = start.position.x - tdiv64(fwd.x * fdist, SCALE) + tdiv64(
            fwd.y * ldisp,
            SCALE,
        );
        let py: i64 = start.position.y - tdiv64(fwd.y * fdist, SCALE) + tdiv64(
            (-fwd.x) * ldisp,
            SCALE,
        );
        r.push(StartPose { position: Vec2 { x: px, y: py }, direction: start.direction });
        i = i + 1;
    }
    r
}


/// One spawned agent's per-episode state: which genome drives it, the
/// last sensor reading and control it saw, and the episode accumulators
/// that become its fitness score.
#[derive(Debug)]
pub struct AgentRecord {
    pub genome_index: usize,
    pub latest_readings: SensorReadings,
    pub latest_control: VehicleControl,
    pub distance: i64,
    pub time_alive: i64,
}

impl AgentRecord {
    /// Accumulators non-negative and small enough to score.
    pub open spec fn wf(&self) -> bool {
        &&& 0 <= self.distance <= MAX_DISTANCE
        &&& 0 <= self.time_alive
    }
}

/// An explicit arena of agent records, indexed by a stable integer id:
/// the id is the position, and record `i` drives genome `i` of the
/// current generation.
#[derive(Debug)]
pub struct AgentArena {
    pub records: Vec<AgentRecord>,
}

impl AgentArena {
    /// Every record's accumulators valid.
    pub open spec fn wf(&self) -> bool {
        forall|i: int| 0 <= i < self.records@.len() ==> (#[trigger] self.records@[i]).wf()
    }

    /// One fresh record per agent: record `i` drives genome `i`, with
    /// zeroed readings of `ray_count` rays, a neutral control and empty
    /// accumulators.
    pub fn new(count: usize, ray_count: usize) -> (a: Self)
        ensures
            a.records@.len() == count,
            forall|i: int|
                0 <= i < count ==> {
                    let r = #[trigger] a.records@[i];
                    &&& r.genome_index == i
                    &&& r.latest_readings.distances@.len() == ray_count
                    &&& r.latest_control == (VehicleControl { steering: 0, throttle: 0, brake: 0 })
                    &&& r.distance == 0
                    &&& r.time_alive == 0
                },
            a.wf(),
    {
        let mut records: Vec<AgentRecord> = Vec::new();
        let mut i: usize = 0;
        while i < count
            invariant
                i <= count,
                records@.len() == i,
                forall|t: int|
                    0 <= t < i ==> {
                        let r = #[trigger] records@[t];
                        &&& r.genome_index == t
                        &&& r.latest_readings.distances@.len() == ray_count
                        &&& r.latest_control == (VehicleControl {
                            steering: 0,
                            throttle: 0,
                            brake: 0,
                        })
                        &&& r.distance == 0
                        &&& r.time_alive == 0
                    },
            decreases count - i,
        {
            records.push(
                AgentRecord {
                    genome_index: i,
                    latest_readings: SensorReadings::zeroed(ray_count),
                    latest_control: VehicleControl { steering: 0, throttle: 0, brake: 0 },
                    distance: 0,
                    time_alive: 0,
                },
            );
            i = i + 1;
        }
        AgentArena { records }
    }

    /// Number of agent records.
    pub fn len(&self) -> (n: usize)
        ensures
            n == self.records@.len(),
    {
        self.records.len()
    }

    /// Stores agent `id`'s newest sensor reading; nothing else changes.
    pub fn record_readings(&mut self, id: usize, readings: SensorReadings)
        requires
            id < old(self).records@.len(),
        ensures
            final(self).records@.len() == old(self).records@.len(),
            forall|j: int|
                0 <= j < old(self).records@.len() && j != id ==> final(self).records@[j] == old(
                    self,
                ).records@[j],
            final(self).records@[id as int].latest_readings == readings,
            final(self).records@[id as int].genome_index == old(
                self,
            ).records@[id as int].genome_index,
            final(self).records@[id as int].latest_control == old(
                self,
            ).records@[id as int].latest_control,
            final(self).records@[id as int].distance == old(self).records@[id as int].distance,
            final(self).records@[id as int].time_alive == old(self).records@[id as int].time_alive,
    {
        let genome_index = self.records[id].genome_index;
        let latest_control = self.records[id].latest_control;
        let distance = self.records[id].distance;
        let time_alive = self.records[id].time_alive;
        self.records.set(
            id,
            AgentRecord { genome_index, latest_readings: readings, latest_control, distance, time_alive },
        );
    }

    /// Stores agent `id`'s newest actuation; only clamped commands are
    /// accepted, so nothing unclamped ever reaches the physics side.
    pub fn record_control(&mut self, id: usize, control: VehicleControl)
        requires
            id < old(self).records@.len(),
            control.in_range(),
        ensures
            final(self).records@.len() == old(self).records@.len(),
            forall|j: int|
                0 <= j < old(self).records@.len() && j != id ==> final(self).records@[j] == old(
                    self,
                ).records@[j],
            final(self).records@[id as int].latest_control == control,
            final(self).records@[id as int].genome_index == old(
                self,
            ).records@[id as int].genome_index,
            final(self).records@[id as int].latest_readings.distances@ == old(
                self,
            ).records@[id as int].latest_readings.distances@,
            final(self).records@[id as int].distance == old(self).records@[id as int].distance,
            final(self).records@[id as int].time_alive == old(self).records@[id as int].time_alive,
    {
        let genome_index = self.records[id].genome_index;
        let latest_readings = self.records[id].latest_readings.duplicate();
        let distance = self.records[id].distance;
        let time_alive = self.records[id].time_alive;
        self.records.set(
            id,
            AgentRecord { genome_index, latest_readings, latest_control: control, distance, time_alive },
        );
    }

    /// Adds one tick's progress to agent `id`: both accumulators grow
    /// monotonically and the distance saturates at the largest scorable
    /// value, as episode accumulation demands.
    pub fn accumulate(&mut self, id: usize, distance_step: i64, time_step: i64)
        requires
            id < old(self).records@.len(),
            old(self).records@[id as int].wf(),
            0 <= distance_step,
            0 <= time_step,
            old(self).records@[id as int].time_alive + time_step <= i64::MAX,
        ensures
            final(self).records@.len() == old(self).records@.len(),
            forall|j: int|
                0 <= j < old(self).records@.len() && j != id ==> final(self).records@[j] == old(
                    self,
                ).records@[j],
            final(self).records@[id as int].distance == (if old(self).records@[id as int].distance
                + distance_step <= MAX_DISTANCE {
                old(self).records@[id as int].distance + distance_step
            } else {
                MAX_DISTANCE as int
            }),
            final(self).records@[id as int].time_alive == old(self).records@[id as int].time_alive
                + time_step,
            final(self).records@[id as int].distance >= old(self).records@[id as int].distance,
            final(self).records@[id as int].wf(),
            final(self).records@[id as int].genome_index == old(
                self,
            ).records@[id as int].genome_index,
            final(self).records@[id as int].latest_readings.distances@ == old(
                self,
            ).records@[id as int].latest_readings.distances@,
            final(self).records@[id as int].latest_control == old(
                self,
            ).records@[id as int].latest_control,
    {
        let genome_index = self.records[id].genome_index;
        let latest_readings = self.records[id].latest_readings.duplicate();
        let latest_control = self.records[id].latest_control;
        let old_distance = self.records[id].distance;
        let time_alive = self.records[id].time_alive + time_step;
        let distance: i64 = if old_distance <= MAX_DISTANCE - distance_step {
            old_distance + distance_step
        } else {
            MAX_DISTANCE
        };
        self.records.set(
            id,
            AgentRecord { genome_index, latest_readings, latest_control, distance, time_alive },
        );
    }

    /// The episode's final score for agent `id`.
    pub fn finish(&self, id: usize) -> (s: FitnessScore)
        requires
            id < self.records@.len(),
            self.records@[id as int].wf(),
        ensures
            s.distance == self.records@[id as int].distance,
            s.time_alive == self.records@[id as int].time_alive,
            s.wf(),
    {
        FitnessScore::new(self.records[id].distance, self.records[id].time_alive)
    }
}

} // verus!
