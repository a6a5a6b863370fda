use raice::brain::Genome;
use raice::evolution::{
    advance, crossover, mutate, rank_indices, seed_population, EvolutionConfig, Population, Rng,
};
use raice::brain::BrainError;
use raice::fitness::FitnessScore;

fn genome(weights: Vec<i64>) -> Genome {
    Genome { hidden_layers: Vec::new(), weights }
}

#[test]
fn seeding_clones_the_template() {
    let template = genome(vec![10, 20, 30]);
    let p = seed_population(5, &template);
    assert_eq!(p.len(), 5);
    assert_eq!(p.generation, 0);
    for g in &p.genomes {
        assert_eq!(g.weights, template.weights);
        assert_eq!(g.hidden_layers, template.hidden_layers);
    }
}

#[test]
fn seeding_zero_yields_empty_population() {
    let template = genome(vec![1, 2, 3]);
    let p = seed_population(0, &template);
    assert_eq!(p.len(), 0);
    assert!(p.is_empty());
    assert_eq!(p.generation, 0);
}

#[test]
fn push_and_len() {
    let mut p = Population::new();
    assert!(p.is_empty());
    p.push(genome(vec![1, 2, 3]));
    p.push(genome(vec![4, 5, 6]));
    assert_eq!(p.len(), 2);
    assert!(!p.is_empty());
    assert_eq!(p.generation, 0);
}

#[test]
fn advance_preserves_size_and_counts_generations() {
    let template = genome(vec![1000, 1000, 0]);
    let prev = seed_population(6, &template);
    let scores: Vec<FitnessScore> = (0..6).map(|i| FitnessScore::new(i * 1000, 0)).collect();
    let config = EvolutionConfig::default();
    let next = advance(&prev, &scores, &config, 42);
    assert_eq!(next.len(), 6);
    assert_eq!(next.generation, 1);
    let after = advance(&next, &scores, &config, 43);
    assert_eq!(after.len(), 6);
    assert_eq!(after.generation, 2);
}

#[test]
fn advance_keeps_the_champion_in_front() {
    let genomes = vec![
        genome(vec![10, 10, 10]),
        genome(vec![20, 20, 20]),
        genome(vec![30, 30, 30]),
        genome(vec![40, 40, 40]),
    ];
    let prev = Population { generation: 7, genomes };
    let scores = vec![
        FitnessScore::new(10_000, 0),
        FitnessScore::new(40_000, 0),
        FitnessScore::new(20_000, 0),
        FitnessScore::new(30_000, 0),
    ];
    let next = advance(&prev, &scores, &EvolutionConfig::default(), 1);
    assert_eq!(next.generation, 8);
    assert_eq!(next.len(), 4);
    // agent 1 scored best; its genome survives verbatim in slot zero
    assert_eq!(next.genomes[0].weights, vec![20, 20, 20]);
}

#[test]
fn advance_of_empty_population_stays_empty() {
    let prev = Population { generation: 3, genomes: Vec::new() };
    let next = advance(&prev, &Vec::new(), &EvolutionConfig::default(), 9);
    assert_eq!(next.len(), 0);
    assert_eq!(next.generation, 4);
}

#[test]
fn ranking_orders_by_value_descending() {
    let scores = vec![
        FitnessScore::new(1_000, 0),
        FitnessScore::new(3_000, 0),
        FitnessScore::new(2_000, 0),
    ];
    let ranked = rank_indices(&scores);
    assert_eq!(ranked, vec![1, 2, 0]);
}

#[test]
fn crossover_mixes_parents_of_equal_topology() {
    let a = genome(vec![1, 1, 1, 1]);
    let b = genome(vec![2, 2, 2, 2]);
    let mut rng = Rng::new(5);
    let child = crossover(&a, &b, &mut rng).unwrap();
    assert_eq!(child.weights.len(), 4);
    for w in child.weights {
        assert!(w == 1 || w == 2);
    }
}

#[test]
fn crossover_rejects_mismatched_topologies() {
    let a = Genome { hidden_layers: vec![2], weights: vec![0; 7] };
    let b = Genome { hidden_layers: vec![3], weights: vec![0; 10] };
    let mut rng = Rng::new(5);
    assert!(matches!(crossover(&a, &b, &mut rng), Err(BrainError::InvalidGenome)));
}

#[test]
fn mutation_stays_within_range_and_bounds() {
    let template = genome(vec![0, 500, -500, 999_999]);
    let mut rng = Rng::new(123);
    let mutated = mutate(&template, 100, &mut rng);
    assert_eq!(mutated.weights.len(), 4);
    for (m, t) in mutated.weights.iter().zip(template.weights.iter()) {
        assert!((m - t).abs() <= 100);
        assert!(*m >= -1_000_000 && *m <= 1_000_000);
    }
}

#[test]
fn rng_is_reproducible() {
    let mut a = Rng::new(77);
    let mut b = Rng::new(77);
    for _ in 0..10 {
        assert_eq!(a.next_u64(), b.next_u64());
    }
    let mut c = Rng::new(78);
    assert_ne!(a.next_u64(), c.next_u64());
}

#[test]
fn default_population_is_empty() {
    let p = Population::default();
    assert_eq!(p.generation, 0);
    assert!(p.is_empty());
}
