use raice::brain::{brain_input, expected_weight_count, Brain, BrainError, Genome};
use raice::sensors::{SensorConfig, SensorReadings};

fn genome(hidden: Vec<usize>, weights: Vec<i64>) -> Genome {
    Genome { hidden_layers: hidden, weights }
}

#[test]
fn evaluate_returns_one_value_per_output() {
    // two inputs, two outputs, no hidden layer: 2*2 weights + 2 biases
    let b = Brain::new(2, 2);
    let g = genome(vec![], vec![1000, 0, 0, 1000, 0, 0]);
    let out = b.evaluate(&g, &vec![500, -500]).unwrap();
    assert_eq!(out.len(), 2);
}

#[test]
fn evaluate_is_deterministic() {
    // topology: 3 inputs, hidden [2], 2 outputs: (3*2+2) + (2*2+2) = 14 weights
    let b = Brain::new(3, 2);
    let g = genome(
        vec![2],
        vec![100, 200, 300, -100, -200, -300, 50, -50, 400, 500, -400, -500, 7, 9],
    );
    let x = vec![250, -750, 125];
    let a = b.evaluate(&g, &x).unwrap();
    let c = b.evaluate(&g, &x).unwrap();
    assert_eq!(a, c);
}

#[test]
fn direct_mapping_scenario() {
    // no hidden layers, 2 inputs, 1 output, weights [1.0, 1.0] and bias 0.0:
    // pre-activation for [3.0, 4.0] is 7.0; the bounded squash gives
    // 7000 * 1000 / 8000 = 875, strictly inside the output range
    let b = Brain::new(2, 1);
    let g = genome(vec![], vec![1000, 1000, 0]);
    let out = b.evaluate(&g, &vec![3000, 4000]).unwrap();
    assert_eq!(out.len(), 1);
    assert_eq!(out[0], 875);
    assert!(-1000 < out[0] && out[0] < 1000);
}

#[test]
fn squash_is_monotone_in_pre_activation() {
    let b = Brain::new(2, 1);
    let g = genome(vec![], vec![1000, 1000, 0]);
    let low = b.evaluate(&g, &vec![3000, 4000]).unwrap()[0];
    let high = b.evaluate(&g, &vec![4000, 4000]).unwrap()[0];
    assert!(high >= low);
    let negative = b.evaluate(&g, &vec![-3000, -4000]).unwrap()[0];
    assert!(negative <= low);
    assert!(-1000 < negative);
}

#[test]
fn wrong_weight_count_is_invalid_genome() {
    let b = Brain::new(2, 1);
    let g = genome(vec![], vec![1000, 1000]);
    assert_eq!(b.evaluate(&g, &vec![0, 0]), Err(BrainError::InvalidGenome));
}

#[test]
fn wrong_input_arity_is_shape_mismatch() {
    let b = Brain::new(2, 1);
    let g = genome(vec![], vec![1000, 1000, 0]);
    assert_eq!(b.evaluate(&g, &vec![1, 2, 3]), Err(BrainError::SensorShapeMismatch));
}

#[test]
fn expected_weight_count_matches_topology() {
    // 2 inputs, hidden [3], 1 output: (2*3+3) + (3*1+1) = 9 + 4 = 13
    assert_eq!(expected_weight_count(2, &vec![3], 1), Some(13));
    // no hidden layers: 2*1 + 1
    assert_eq!(expected_weight_count(2, &vec![], 1), Some(3));
}

#[test]
fn hidden_layer_network_evaluates() {
    // 1 input, hidden [1], 1 output; all weights 1.0, biases 0:
    // hidden pre = 500, squashed to 500*1000/1500 = 333;
    // output pre = 333, squashed to 333*1000/1333 = 249
    let b = Brain::new(1, 1);
    let g = genome(vec![1], vec![1000, 0, 1000, 0]);
    let out = b.evaluate(&g, &vec![500]).unwrap();
    assert_eq!(out, vec![249]);
}

#[test]
fn genome_new_and_clone() {
    let g = Genome::new(vec![4, 2]);
    assert_eq!(g.hidden_layers, vec![4, 2]);
    assert!(g.weights.is_empty());
    let h = genome(vec![1], vec![5, -5, 7, 0]);
    let c = h.clone();
    assert_eq!(c.hidden_layers, h.hidden_layers);
    assert_eq!(c.weights, h.weights);
}

#[test]
fn brain_input_appends_speed_and_offset() {
    let config = SensorConfig::default();
    let mut readings = SensorReadings::zeroed(8);
    readings.speed = 1234;
    readings.track_offset = -777;
    readings.distances[0] = 200_000;
    let v = brain_input(&readings, &config).unwrap();
    assert_eq!(v.len(), 10);
    assert_eq!(v[0], 200_000);
    assert_eq!(v[8], 1234);
    assert_eq!(v[9], -777);
}

#[test]
fn brain_input_rejects_wrong_ray_count() {
    let config = SensorConfig::default();
    let readings = SensorReadings::zeroed(5);
    assert_eq!(brain_input(&readings, &config), Err(BrainError::SensorShapeMismatch));
}

#[test]
fn throttle_and_brake_outputs_are_unipolar() {
    // one input, three outputs, no hidden layer: rows [1.0, 1.0, 1.0],
    // biases [-0.5, -0.5, -0.5]; on input -3.0 every pre-activation is
    // -3.5, squashed to -777. Slot zero (steering) keeps the bipolar
    // value; throttle and brake are folded into [0, SCALE) even though
    // the pre-activation is negative — no clamping involved.
    let b = Brain::new(1, 3);
    let g = genome(vec![], vec![1000, 1000, 1000, -500, -500, -500]);
    let out = b.evaluate(&g, &vec![-3000]).unwrap();
    assert_eq!(out[0], -777);
    assert_eq!(out[1], 111);
    assert_eq!(out[2], 111);
    assert!(out[1] >= 0 && out[1] < 1000);
    assert!(out[2] >= 0 && out[2] < 1000);
}
