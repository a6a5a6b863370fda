use raice::control::VehicleControl;
use raice::fitness::FitnessScore;

#[test]
fn fitness_formula_is_exact() {
    // 100.0 distance, 50.0 seconds: 100 - 0.1 * 50 = 95.0, in
    // ten-thousandths of a unit
    let s = FitnessScore::new(100_000, 50_000);
    assert_eq!(s.value(), 950_000);
}

#[test]
fn fitness_value_may_be_negative() {
    // an agent that sat still for 10 seconds scores -1.0
    let s = FitnessScore::new(0, 10_000);
    assert_eq!(s.value(), -10_000);
}

#[test]
fn fitness_of_nothing_is_zero() {
    let s = FitnessScore::default();
    assert_eq!(s.value(), 0);
    assert_eq!(s.distance, 0);
    assert_eq!(s.time_alive, 0);
}

#[test]
fn clamping_is_total_and_exact() {
    let c = VehicleControl { steering: 5_000, throttle: -3, brake: 700 };
    let k = c.clamped();
    assert_eq!(k.steering, 1_000);
    assert_eq!(k.throttle, 0);
    assert_eq!(k.brake, 700);
    let low = VehicleControl { steering: -5_000, throttle: 2_000, brake: 2_000 };
    let kl = low.clamped();
    assert_eq!(kl.steering, -1_000);
    assert_eq!(kl.throttle, 1_000);
    assert_eq!(kl.brake, 1_000);
}

#[test]
fn clamping_is_idempotent() {
    let raw = VehicleControl { steering: 123_456, throttle: -9, brake: 999 };
    let once = raw.clamped();
    let twice = once.clamped();
    assert_eq!(once, twice);
    assert!(once.steering >= -1_000 && once.steering <= 1_000);
    assert!(once.throttle >= 0 && once.throttle <= 1_000);
    assert!(once.brake >= 0 && once.brake <= 1_000);
}

#[test]
fn in_range_values_pass_through() {
    let c = VehicleControl { steering: -250, throttle: 500, brake: 0 };
    assert_eq!(c.clamped(), c);
}

#[test]
fn default_control_is_neutral() {
    let c = VehicleControl::default();
    assert_eq!(c, VehicleControl { steering: 0, throttle: 0, brake: 0 });
}
