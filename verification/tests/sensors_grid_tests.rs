use raice::control::VehicleControl;
use raice::num::{isqrt64, tdiv128, tdiv64};
use raice::sensors::{SensorConfig, SensorReadings};
use raice::track::{StartPose, TrackSegment, Vec2};
use raice::vehicle::{grid_start_positions, AgentArena};

#[test]
fn default_sensor_config() {
    let c = SensorConfig::default();
    assert_eq!(c.ray_count, 8);
    assert_eq!(c.ray_length, 200_000);
}

#[test]
fn zeroed_readings_have_requested_shape() {
    let r = SensorReadings::zeroed(12);
    assert_eq!(r.ray_count(), 12);
    assert!(r.distances.iter().all(|d| *d == 0));
    assert_eq!(r.speed, 0);
    assert_eq!(r.track_offset, 0);
}

#[test]
fn integer_sqrt_and_truncating_division() {
    assert_eq!(isqrt64(100), 10);
    assert_eq!(isqrt64(99), 9);
    assert_eq!(isqrt64(0), 0);
    assert_eq!(isqrt64(u64::MAX), 4_294_967_295);
    assert_eq!(tdiv64(7, 2), 3);
    assert_eq!(tdiv64(-7, 2), -3);
    assert_eq!(tdiv128(-1_000_001, 1000), -1000);
}

#[test]
fn grid_of_zero_vehicles_is_empty() {
    let start = StartPose { position: Vec2::new(0, 0), direction: Vec2::new(1_000, 0) };
    assert!(grid_start_positions(start, 0, 3, 10_000, 5_000).is_empty());
}

#[test]
fn grid_spreads_rows_and_columns() {
    // facing positive x; two per row, one unit sideways, two units back
    let start = StartPose { position: Vec2::new(0, 0), direction: Vec2::new(1_000, 0) };
    let poses = grid_start_positions(start, 4, 2, 2_000, 2_000);
    assert_eq!(poses.len(), 4);
    // first row straddles the centerline: half a column spacing each side
    assert_eq!(poses[0].position, Vec2::new(0, 1_000));
    assert_eq!(poses[1].position, Vec2::new(0, -1_000));
    // second row sits two units behind the start
    assert_eq!(poses[2].position, Vec2::new(-2_000, 1_000));
    assert_eq!(poses[3].position, Vec2::new(-2_000, -1_000));
    assert!(poses.iter().all(|p| p.direction == Vec2::new(1_000, 0)));
}

#[test]
fn grid_treats_zero_per_row_as_one() {
    let start = StartPose { position: Vec2::new(0, 0), direction: Vec2::new(0, 1_000) };
    let poses = grid_start_positions(start, 2, 0, 1_000, 1_000);
    assert_eq!(poses.len(), 2);
    // single column: no lateral offset, rows go backwards along -y
    assert_eq!(poses[0].position, Vec2::new(0, 0));
    assert_eq!(poses[1].position, Vec2::new(0, -1_000));
}

#[test]
fn arena_tracks_one_episode() {
    let mut arena = AgentArena::new(3, 8);
    assert_eq!(arena.len(), 3);
    assert_eq!(arena.records[2].genome_index, 2);
    assert_eq!(arena.records[1].distance, 0);
    let mut reading = SensorReadings::zeroed(8);
    reading.speed = 500;
    arena.record_readings(1, reading);
    arena.record_control(1, VehicleControl { steering: 100, throttle: 900, brake: 0 });
    arena.accumulate(1, 700, 100);
    arena.accumulate(1, 300, 100);
    let score = arena.finish(1);
    assert_eq!(score.distance, 1_000);
    assert_eq!(score.time_alive, 200);
    // untouched agents keep their zeroed state
    assert_eq!(arena.records[0].distance, 0);
    assert_eq!(arena.records[0].latest_control, VehicleControl::default());
    assert_eq!(arena.records[1].latest_readings.speed, 500);
}

#[test]
fn negative_spacing_mirrors_the_grid() {
    let start = StartPose { position: Vec2::new(0, 0), direction: Vec2::new(1_000, 0) };
    let poses = grid_start_positions(start, 2, 2, 2_000, -2_000);
    assert_eq!(poses.len(), 2);
    // columns swap sides compared to a positive lateral spacing
    assert_eq!(poses[0].position, Vec2::new(0, -1_000));
    assert_eq!(poses[1].position, Vec2::new(0, 1_000));
}

#[test]
fn segment_direction_is_near_unit() {
    let s = TrackSegment::new(Vec2::new(0, 0), Vec2::new(3_000, 4_000)).unwrap();
    assert_eq!(s.length, 5_000);
    let mag_sq = s.dir.x * s.dir.x + s.dir.y * s.dir.y;
    assert!(995_999 <= mag_sq && mag_sq <= 1_002_000);
}
