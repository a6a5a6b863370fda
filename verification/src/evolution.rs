//! The population lifecycle: seeding a generation from a template genome,
//! ranking by fitness, and the generational advance (elitism, crossover
//! and bounded mutation driven by a deterministic seeded generator).

use vstd::prelude::*;

use crate::brain::{weights_bounded, BrainError, Genome};
use crate::fitness::FitnessScore;
use crate::WEIGHT_LIMIT;

verus! {

/// One generation's full set of genomes. `generation` counts up from
/// zero; `genomes` is ordered, the position being the agent index. All
/// genomes of a population share one topology.
#[derive(Debug)]
pub struct Population {
    pub generation: usize,
    pub genomes: Vec<Genome>,
}

impl Population {
    /// Every genome shares the first genome's topology and weight count.
    pub open spec fn wf(&self) -> bool {
        forall|i: int|
            0 <= i < self.genomes@.len() ==> (#[trigger] self.genomes@[i]).hidden_layers@
                == self.genomes@[0].hidden_layers@ && self.genomes@[i].weights@.len()
                == self.genomes@[0].weights@.len()
    }

    /// An empty population of generation zero.
    pub fn new() -> (p: Self)
        ensures
            p.generation == 0,
            p.genomes@.len() == 0,
            p.wf(),
    {
        Population { generation: 0, genomes: Vec::new() }
    }

    /// Appends one genome, preserving order. The genome must share the
    /// population's topology, so the population invariant is kept.
    pub fn push(&mut self, genome: Genome)
        requires
            old(self).wf(),
            old(self).genomes@.len() > 0 ==> genome.hidden_layers@ == old(
                self,
            ).genomes@[0].hidden_layers@ && genome.weights@.len() == old(
                self,
            ).genomes@[0].weights@.len(),
        ensures
            final(self).generation == old(self).generation,
            final(self).genomes@ == old(self).genomes@.push(genome),
            final(self).wf(),
    {
        self.genomes.push(genome);
    }

    /// Number of genomes in this generation.
    pub fn len(&self) -> (n: usize)
        ensures
            n == self.genomes@.len(),
    {
        self.genomes.len()
    }

    /// Whether the generation holds no genomes.
    pub fn is_empty(&self) -> (r: bool)
        ensures
            r == (self.genomes@.len() == 0),
    {
        self.genomes.len() == 0
    }
}

impl Default for Population {
    /// Same as an empty generation-zero population.
    fn default() -> (p: Self)
        ensures
            p.generation == 0,
            p.genomes@.len() == 0,
            p.wf(),
    {
        Population { generation: 0, genomes: Vec::new() }
    }
}

/// A generation-zero population of `size` exact copies of `template`;
/// size zero yields an empty, valid population.
pub fn seed_population(size: usize, template: &Genome) -> (p: Population)
    ensures
        p.generation == 0,
        p.genomes@.len() == size,
        forall|i: int|
            0 <= i < size ==> (#[trigger] p.genomes@[i]).hidden_layers@
                == template.hidden_layers@ && p.genomes@[i].weights@ == template.weights@,
        p.wf(),
{
    let mut genomes: Vec<Genome> = Vec::new();
    let mut i: usize = 0;
    while i < size
        invariant
            i <= size,
            genomes@.len() == i,
            forall|t: int|
                0 <= t < i ==> (#[trigger] genomes@[t]).hidden_layers@ == template.hidden_layers@
                    && genomes@[t].weights@ == template.weights@,
        decreases size - i,
    {
        genomes.push(template.duplicate());
        i = i + 1;
    }
    Population { generation: 0, genomes }
}

/// Reproduction policy knobs: how many top genomes survive unchanged,
/// how many of the best serve as parents, and the largest per-weight
/// mutation step (fixed-point thousandths).
#[derive(Debug, Clone, Copy, PartialEq, Eq, Structural)]
pub struct EvolutionConfig {
    pub elite_count: usize,
    pub parent_pool: usize,
    pub mutation_range: i64,
}

impl EvolutionConfig {
    /// At least one elite and one parent, and a mutation step the weight
    /// bound can absorb.
    pub open spec fn wf(&self) -> bool {
        &&& self.elite_count >= 1
        &&& self.parent_pool >= 1
        &&& 0 <= self.mutation_range <= WEIGHT_LIMIT
    }
}

impl Default for EvolutionConfig {
    /// Two elites, four parents, mutation steps of a tenth of a unit.
    fn default() -> (c: Self)
        ensures
            c == (EvolutionConfig { elite_count: 2, parent_pool: 4, mutation_range: 100 }),
            c.wf(),
    {
        EvolutionConfig { elite_count: 2, parent_pool: 4, mutation_range: 100 }
    }
}

/// Multiplier of the linear-congruential step.
pub const RNG_MUL: u64 = 6364136223846793005;

/// Increment of the linear-congruential step.
pub const RNG_INC: u64 = 1442695040888963407;

/// The successor state of the generator: a linear-congruential step
/// modulo two to the sixty-fourth.
pub open spec fn rng_next_spec(s: u64) -> u64 {
    (((s * RNG_MUL) + RNG_INC) % 0x1_0000_0000_0000_0000) as u64
}

/// Deterministic pseudo-random generator driving mutation and crossover;
/// the same seed always reproduces the same generation.
#[derive(Debug, Clone, Copy, PartialEq, Eq, Structural)]
pub struct Rng {
    pub state: u64,
}

impl Rng {
    pub fn new(seed: u64) -> (r: Self)
        ensures
            r.state == seed,
    {
        Rng { state: seed }
    }

    /// Steps the generator and returns the new state.
    pub fn next_u64(&mut self) -> (r: u64)
        ensures
            final(self).state == rng_next_spec(old(self).state),
            r == final(self).state,
    {
        proof {
            assert((self.state as int) * (RNG_MUL as int)
                <= 18_446_744_073_709_551_615 * (RNG_MUL as int)) by (nonlinear_arith)
                requires
                    self.state as int <= 18_446_744_073_709_551_615,
            ;
        }
        let wide: u128 = (self.state as u128) * (RNG_MUL as u128) + (RNG_INC as u128);
        let next: u64 = (wide % 0x1_0000_0000_0000_0000u128) as u64;
        self.state = next;
        next
    }

    /// A value below `bound`.
    pub fn below(&mut self, bound: u64) -> (r: u64)
        requires
            bound >= 1,
        ensures
            final(self).state == rng_next_spec(old(self).state),
            r == final(self).state % bound,
            r < bound,
    {
        let v = self.next_u64();
        v % bound
    }
}

/// The generator's state after `k` steps.
pub open spec fn rng_iter_spec(s: u64, k: nat) -> u64
    decreases k,
{
    if k == 0 {
        s
    } else {
        rng_next_spec(rng_iter_spec(s, (k - 1) as nat))
    }
}

/// The weight that mutation writes for a template weight `w`: the shift
/// drawn from generator state `s`, clamped back into bounds.
pub open spec fn mutated_weight_spec(w: i64, range: i64, s: u64) -> i64 {
    let d = (s % (2 * range + 1) as u64) - range;
    let raw = w + d;
    if raw < -WEIGHT_LIMIT {
        (-WEIGHT_LIMIT) as i64
    } else if raw > WEIGHT_LIMIT {
        WEIGHT_LIMIT as i64
    } else {
        raw as i64
    }
}

/// A fresh genome: `template` with every weight shifted by at most
/// `range` and clamped back into the accepted weight bounds. Topology is
/// preserved exactly, and the result is a pure function of the template,
/// the range and the generator's starting state.
pub fn mutate(template: &Genome, range: i64, rng: &mut Rng) -> (g: Genome)
    requires
        0 <= range <= WEIGHT_LIMIT,
        weights_bounded(template.weights@),
    ensures
        g.hidden_layers@ == template.hidden_layers@,
        g.weights@.len() == template.weights@.len(),
        forall|i: int|
            0 <= i < g.weights@.len() ==> #[trigger] g.weights@[i] == mutated_weight_spec(
                template.weights@[i],
                range,
                rng_iter_spec(old(rng).state, (i + 1) as nat),
            ),
        forall|i: int|
            0 <= i < g.weights@.len() ==> -range <= #[trigger] g.weights@[i]
                - template.weights@[i] <= range,
        weights_bounded(g.weights@),
        final(rng).state == rng_iter_spec(old(rng).state, template.weights@.len()),
{
    let base = template.duplicate();
    let mut weights: Vec<i64> = Vec::new();
    let mut i: usize = 0;
    while i < base.weights.len()
        invariant
            i <= base.weights@.len(),
            base.weights@ == template.weights@,
            weights_bounded(template.weights@),
            0 <= range <= WEIGHT_LIMIT,
            weights@.len() == i,
            rng.state == rng_iter_spec(old(rng).state, i as nat),
            forall|t: int|
                0 <= t < i ==> #[trigger] weights@[t] == mutated_weight_spec(
                    template.weights@[t],
                    range,
                    rng_iter_spec(old(rng).state, (t + 1) as nat),
                ),
            forall|t: int|
                0 <= t < i ==> -range <= #[trigger] weights@[t] - template.weights@[t] <= range,
            forall|t: int|
                0 <= t < i ==> -WEIGHT_LIMIT <= #[trigger] weights@[t] <= WEIGHT_LIMIT,
        decreases base.weights@.len() - i,
    {
        let span: u64 = 2 * (range as u64) + 1;
        let v = rng.below(span);
        let d: i64 = (v as i64) - range;
        let raw: i64 = base.weights[i] + d;
        let clamped: i64 = if raw < -WEIGHT_LIMIT {
            -WEIGHT_LIMIT
        } else if raw > WEIGHT_LIMIT {
            WEIGHT_LIMIT
        } else {
            raw
        };
        weights.push(clamped);
        i = i + 1;
    }
    Genome { hidden_layers: base.hidden_layers, weights }
}

/// Whether two vectors of layer sizes agree exactly.
fn eq_usize_vec(a: &Vec<usize>, b: &Vec<usize>) -> (r: bool)
    ensures
        r <==> a@ == b@,
{
    if a.len() != b.len() {
        return false;
    }
    let mut i: usize = 0;
    while i < a.len()
        invariant
            i <= a@.len(),
            a@.len() == b@.len(),
            forall|t: int| 0 <= t < i ==> a@[t] == b@[t],
        decreases a@.len() - i,
    {
        if a[i] != b[i] {
            return false;
        }
        i = i + 1;
    }
    proof {
        assert(a@ =~= b@);
    }
    true
}

/// A child taking each weight from one of the two parents, chosen by the
/// generator: parent `a`'s weight on an even draw, parent `b`'s on an
/// odd one. The parents must share a topology exactly; crossing
/// mismatched topologies is refused as an invalid genome.
pub fn crossover(a: &Genome, b: &Genome, rng: &mut Rng) -> (r: Result<Genome, BrainError>)
    ensures
        r is Ok <==> (a.hidden_layers@ == b.hidden_layers@ && a.weights@.len()
            == b.weights@.len()),
        r matches Err(e) ==> e == BrainError::InvalidGenome && final(rng).state == old(rng).state,
        r matches Ok(g) ==> {
            &&& g.hidden_layers@ == a.hidden_layers@
            &&& g.weights@.len() == a.weights@.len()
            &&& forall|i: int|
                0 <= i < g.weights@.len() ==> #[trigger] g.weights@[i] == (if rng_iter_spec(
                    old(rng).state,
                    (i + 1) as nat,
                ) % 2 == 0 {
                    a.weights@[i]
                } else {
                    b.weights@[i]
                })
            &&& forall|i: int|
                0 <= i < g.weights@.len() ==> #[trigger] g.weights@[i] == a.weights@[i]
                    || g.weights@[i] == b.weights@[i]
            &&& final(rng).state == rng_iter_spec(old(rng).state, a.weights@.len())
        },
{
    if !eq_usize_vec(&a.hidden_layers, &b.hidden_layers) {
        return Err(BrainError::InvalidGenome);
    }
    if a.weights.len() != b.weights.len() {
        return Err(BrainError::InvalidGenome);
    }
    let base = a.duplicate();
    let mut weights: Vec<i64> = Vec::new();
    let mut i: usize = 0;
    while i < base.weights.len()
        invariant
            i <= base.weights@.len(),
            base.weights@ == a.weights@,
            a.weights@.len() == b.weights@.len(),
            weights@.len() == i,
            rng.state == rng_iter_spec(old(rng).state, i as nat),
            forall|t: int|
                0 <= t < i ==> #[trigger] weights@[t] == (if rng_iter_spec(
                    old(rng).state,
                    (t + 1) as nat,
                ) % 2 == 0 {
                    a.weights@[t]
                } else {
                    b.weights@[t]
                }),
            forall|t: int|
                0 <= t < i ==> #[trigger] weights@[t] == a.weights@[t] || weights@[t]
                    == b.weights@[t],
        decreases base.weights@.len() - i,
    {
        let pick = rng.below(2);
        if pick == 0 {
            weights.push(base.weights[i]);
        } else {
            weights.push(b.weights[i]);
        }
        i = i + 1;
    }
    Ok(Genome { hidden_layers: base.hidden_layers, weights })
}

/// How many entries of `s` are true.
pub open spec fn count_true(s: Seq<bool>) -> int
    decreases s.len(),
{
    if s.len() == 0 {
        0
    } else {
        count_true(s.drop_last()) + (if s.last() {
            1int
        } else {
            0int
        })
    }
}

/// The count of trues never exceeds the length; when it is below the
/// length some entry is false.
proof fn lemma_count_true_bound(s: Seq<bool>)
    ensures
        0 <= count_true(s) <= s.len(),
        count_true(s) < s.len() ==> exists|j: int| 0 <= j < s.len() && !s[j],
    decreases s.len(),
{
    if s.len() > 0 {
        lemma_count_true_bound(s.drop_last());
        if count_true(s) < s.len() {
            if !s.last() {
                assert(!s[s.len() - 1]);
            } else {
                let j = choose|j: int| 0 <= j < s.drop_last().len() && !s.drop_last()[j];
                assert(!s[j]);
            }
        }
    }
}

/// Setting a false entry to true raises the count by one.
proof fn lemma_count_true_update(s: Seq<bool>, j: int)
    requires
        0 <= j < s.len(),
        !s[j],
    ensures
        count_true(s.update(j, true)) == count_true(s) + 1,
    decreases s.len(),
{
    let u = s.update(j, true);
    if j == s.len() - 1 {
        assert(u.drop_last() =~= s.drop_last());
    } else {
        assert(u.drop_last() =~= s.drop_last().update(j, true));
        lemma_count_true_update(s.drop_last(), j);
        assert(u.last() == s.last());
    }
}

/// Ranks the scored agents: returns the agent indices ordered by fitness
/// value, best first, each index exactly once.
pub fn rank_indices(scores: &Vec<FitnessScore>) -> (idx: Vec<usize>)
    requires
        forall|i: int| 0 <= i < scores@.len() ==> (#[trigger] scores@[i]).wf(),
    ensures
        idx@.len() == scores@.len(),
        forall|t: int| 0 <= t < idx@.len() ==> #[trigger] idx@[t] < scores@.len(),
        forall|t1: int, t2: int|
            0 <= t1 < t2 < idx@.len() ==> #[trigger] idx@[t1] != #[trigger] idx@[t2],
        forall|t1: int, t2: int|
            0 <= t1 < t2 < idx@.len() ==> scores@[idx@[t1] as int].value_spec()
                >= scores@[idx@[t2] as int].value_spec(),
{
    let n = scores.len();
    let mut used: Vec<bool> = Vec::new();
    let mut m: usize = 0;
    while m < n
        invariant
            m <= n,
            used@.len() == m,
            forall|t: int| 0 <= t < m ==> !(#[trigger] used@[t]),
        decreases n - m,
    {
        used.push(false);
        m = m + 1;
    }
    proof {
        assert forall|s: Seq<bool>|
            s.len() == 0 implies count_true(s) == 0 by {}
        assert(count_true(used@) == 0) by {
            lemma_count_all_false(used@);
        }
    }
    let mut idx: Vec<usize> = Vec::new();
    let mut k: usize = 0;
    while k < n
        invariant
            k <= n,
            n == scores@.len(),
            used@.len() == n,
            idx@.len() == k,
            forall|i: int| 0 <= i < scores@.len() ==> (#[trigger] scores@[i]).wf(),
            count_true(used@) == k,
            forall|t: int| 0 <= t < k ==> #[trigger] idx@[t] < n,
            forall|t: int| 0 <= t < k ==> used@[#[trigger] idx@[t] as int],
            forall|t1: int, t2: int|
                0 <= t1 < t2 < k ==> #[trigger] idx@[t1] != #[trigger] idx@[t2],
            forall|t1: int, t2: int|
                0 <= t1 < t2 < k ==> scores@[idx@[t1] as int].value_spec()
                    >= scores@[idx@[t2] as int].value_spec(),
            forall|t: int, j: int|
                0 <= t < k && 0 <= j < n && !(#[trigger] used@[j]) ==> scores@[(
                #[trigger] idx@[t]) as int].value_spec() >= scores@[j].value_spec(),
        decreases n - k,
    {
        proof {
            lemma_count_true_bound(used@);
        }
        let mut best: usize = n;
        let mut j: usize = 0;
        while j < n
            invariant
                j <= n,
                n == scores@.len(),
                used@.len() == n,
                forall|i: int| 0 <= i < scores@.len() ==> (#[trigger] scores@[i]).wf(),
                best <= n,
                best < n ==> !used@[best as int],
                best < n ==> forall|j2: int|
                    0 <= j2 < j && !used@[j2] ==> scores@[best as int].value_spec()
                        >= scores@[j2].value_spec(),
                best == n ==> forall|j2: int| 0 <= j2 < j ==> used@[j2],
            decreases n - j,
        {
            if !used[j] {
                if best == n {
                    best = j;
                } else {
                    let vj = scores[j].value();
                    let vb = scores[best].value();
                    if vj > vb {
                        best = j;
                    }
                }
            }
            j = j + 1;
        }
        proof {
            if best == n {
                assert forall|j2: int| 0 <= j2 < n implies used@[j2] by {}
                if count_true(used@) < used@.len() {
                    lemma_count_true_bound(used@);
                    let w = choose|w: int| 0 <= w < used@.len() && !used@[w];
                    assert(false);
                }
                assert(count_true(used@) == used@.len()) by {
                    lemma_count_true_bound(used@);
                }
                assert(false);
            }
            lemma_count_true_update(used@, best as int);
        }
        idx.push(best);
        used.set(best, true);
        k = k + 1;
    }
    idx
}

/// An all-false vector counts zero trues.
proof fn lemma_count_all_false(s: Seq<bool>)
    requires
        forall|t: int| 0 <= t < s.len() ==> !(#[trigger] s[t]),
    ensures
        count_true(s) == 0,
    decreases s.len(),
{
    if s.len() > 0 {
        lemma_count_all_false(s.drop_last());
    }
}

/// The generational advance: ranks the previous generation by fitness,
/// keeps the best genomes unchanged (elitism), and fills the remaining
/// slots with mutated crossovers of parents drawn from the top of the
/// ranking. The population size is preserved and the generation counter
/// rises by exactly one; every new genome keeps the population's
/// topology. The best-scoring genome of the previous generation survives
/// verbatim in slot zero.
pub fn advance(prev: &Population, scores: &Vec<FitnessScore>, config: &EvolutionConfig, seed: u64)
    -> (next: Population)
    requires
        prev.wf(),
        prev.generation < usize::MAX,
        config.wf(),
        scores@.len() == prev.genomes@.len(),
        forall|i: int| 0 <= i < scores@.len() ==> (#[trigger] scores@[i]).wf(),
        forall|i: int|
            0 <= i < prev.genomes@.len() ==> weights_bounded(
                (#[trigger] prev.genomes@[i]).weights@,
            ),
    ensures
        next.generation == prev.generation + 1,
        next.genomes@.len() == prev.genomes@.len(),
        next.wf(),
        forall|i: int|
            0 <= i < next.genomes@.len() ==> weights_bounded(
                (#[trigger] next.genomes@[i]).weights@,
            ),
        prev.genomes@.len() > 0 ==> forall|i: int|
            0 <= i < next.genomes@.len() ==> (#[trigger] next.genomes@[i]).hidden_layers@
                == prev.genomes@[0].hidden_layers@ && next.genomes@[i].weights@.len()
                == prev.genomes@[0].weights@.len(),
        prev.genomes@.len() > 0 ==> exists|c: int|
            {
                &&& 0 <= c < prev.genomes@.len()
                &&& next.genomes@[0].hidden_layers@ == prev.genomes@[c].hidden_layers@
                &&& next.genomes@[0].weights@ == prev.genomes@[c].weights@
                &&& forall|j: int|
                    0 <= j < scores@.len() ==> scores@[c].value_spec()
                        >= scores@[j].value_spec()
            },
{
    let n = prev.genomes.len();
    if n == 0 {
        return Population { generation: prev.generation + 1, genomes: Vec::new() };
    }
    let ranked = rank_indices(scores);
    let mut rng = Rng::new(seed);
    let elites: usize = if config.elite_count < n {
        config.elite_count
    } else {
        n
    };
    let pool: usize = if config.parent_pool < n {
        config.parent_pool
    } else {
        n
    };
    let mut genomes: Vec<Genome> = Vec::new();
    let mut i: usize = 0;
    while i < n
        invariant
            i <= n,
            n == prev.genomes@.len(),
            n == scores@.len(),
            ranked@.len() == n,
            1 <= elites <= n,
            1 <= pool <= n,
            prev.wf(),
            config.wf(),
            forall|t: int| 0 <= t < n ==> #[trigger] ranked@[t] < n,
            forall|t1: int, t2: int|
                0 <= t1 < t2 < n ==> scores@[ranked@[t1] as int].value_spec()
                    >= scores@[ranked@[t2] as int].value_spec(),
            forall|t: int| 0 <= t < scores@.len() ==> (#[trigger] scores@[t]).wf(),
            forall|t: int|
                0 <= t < prev.genomes@.len() ==> weights_bounded(
                    (#[trigger] prev.genomes@[t]).weights@,
                ),
            genomes@.len() == i,
            forall|t: int|
                0 <= t < i ==> (#[trigger] genomes@[t]).hidden_layers@
                    == prev.genomes@[0].hidden_layers@ && genomes@[t].weights@.len()
                    == prev.genomes@[0].weights@.len() && weights_bounded(genomes@[t].weights@),
            i >= 1 ==> genomes@[0].hidden_layers@ == prev.genomes@[ranked@[0] as int].hidden_layers@
                && genomes@[0].weights@ == prev.genomes@[ranked@[0] as int].weights@,
        decreases n - i,
    {
        if i < elites {
            let g = prev.genomes[ranked[i]].duplicate();
            genomes.push(g);
        } else {
            let p1: usize = ranked[i % pool];
            let p2: usize = ranked[(i + 1) % pool];
            let child = match crossover(&prev.genomes[p1], &prev.genomes[p2], &mut rng) {
                Ok(c) => c,
                Err(_) => prev.genomes[p1].duplicate(),
            };
            let mutated = mutate(&child, config.mutation_range, &mut rng);
            genomes.push(mutated);
        }
        i = i + 1;
    }
    proof {
        let c = ranked@[0] as int;
        assert(0 <= c < prev.genomes@.len());
        assert forall|j: int| 0 <= j < scores@.len() implies scores@[c].value_spec()
            >= scores@[j].value_spec() by {
            lemma_rank_dominates(ranked@, scores@, j);
        }
    }
    Population { generation: prev.generation + 1, genomes }
}

/// The first ranked index scores at least as well as every agent.
proof fn lemma_rank_dominates(ranked: Seq<usize>, scores: Seq<FitnessScore>, j: int)
    requires
        ranked.len() == scores.len(),
        scores.len() > 0,
        0 <= j < scores.len(),
        forall|t: int| 0 <= t < ranked.len() ==> #[trigger] ranked[t] < scores.len(),
        forall|t1: int, t2: int| 0 <= t1 < t2 < ranked.len() ==> #[trigger] ranked[t1] != #[trigger] ranked[t2],
        forall|t1: int, t2: int|
            0 <= t1 < t2 < ranked.len() ==> scores[ranked[t1] as int].value_spec()
                >= scores[ranked[t2] as int].value_spec(),
    ensures
        scores[ranked[0] as int].value_spec() >= scores[j].value_spec(),
{
    lemma_ranked_onto(ranked, scores.len() as int, j);
    let t = choose|t: int| 0 <= t < ranked.len() && ranked[t] == j;
    if t > 0 {
        assert(scores[ranked[0] as int].value_spec() >= scores[ranked[t] as int].value_spec());
    }
}

/// A sequence of `n` distinct indices below `n` covers every index.
proof fn lemma_ranked_onto(ranked: Seq<usize>, n: int, j: int)
    requires
        ranked.len() == n,
        0 <= j < n,
        forall|t: int| 0 <= t < ranked.len() ==> #[trigger] ranked[t] < n,
        forall|t1: int, t2: int| 0 <= t1 < t2 < ranked.len() ==> #[trigger] ranked[t1] != #[trigger] ranked[t2],
    ensures
        exists|t: int| 0 <= t < ranked.len() && ranked[t] == j,
{
    let vals = ranked.map_values(|v: usize| v as int);
    assert(vals.len() == n);
    if forall|t: int| 0 <= t < vals.len() ==> #[trigger] vals[t] != j {
        let squeezed = vals.map_values(
            |v: int|
                if v > j {
                    v - 1
                } else {
                    v
                },
        );
        assert(forall|t: int| 0 <= t < squeezed.len() ==> 0 <= #[trigger] squeezed[t] < n - 1);
        assert forall|t1: int, t2: int| 0 <= t1 < t2 < squeezed.len() implies #[trigger] squeezed[t1]
            != #[trigger] squeezed[t2] by {
            assert(vals[t1] != vals[t2]);
            assert(vals[t1] != j && vals[t2] != j);
        }
        lemma_distinct_le(squeezed, n - 1);
        assert(false);
    }
    let t = choose|t: int| 0 <= t < vals.len() && vals[t] == j;
    assert(ranked[t] == j);
}

/// Distinct values drawn from `m` possible ones number at most `m`.
proof fn lemma_distinct_le(vals: Seq<int>, m: int)
    requires
        m >= 0,
        forall|t: int| 0 <= t < vals.len() ==> 0 <= #[trigger] vals[t] < m,
        forall|t1: int, t2: int| 0 <= t1 < t2 < vals.len() ==> #[trigger] vals[t1] != #[trigger] vals[t2],
    ensures
        vals.len() <= m,
    decreases m,
{
    if vals.len() > 0 {
        assert(0 <= vals[0] < m);
        if forall|t: int| 0 <= t < vals.len() ==> #[trigger] vals[t] != m - 1 {
            assert(forall|t: int| 0 <= t < vals.len() ==> 0 <= #[trigger] vals[t] < m - 1);
            lemma_distinct_le(vals, m - 1);
        } else {
            let t0 = choose|t: int| 0 <= t < vals.len() && vals[t] == m - 1;
            let rest = vals.remove(t0);
            assert(rest.len() == vals.len() - 1);
            assert forall|t: int| 0 <= t < rest.len() implies 0 <= #[trigger] rest[t] < m - 1 by {
                if t < t0 {
                    assert(rest[t] == vals[t]);
                    assert(vals[t] != vals[t0]);
                } else {
                    assert(rest[t] == vals[t + 1]);
                    assert(vals[t + 1] != vals[t0]);
                }
            }
            assert forall|t1: int, t2: int| 0 <= t1 < t2 < rest.len() implies #[trigger] rest[t1]
                != #[trigger] rest[t2] by {
                if t2 < t0 {
                } else if t1 < t0 {
                    assert(rest[t1] == vals[t1] && rest[t2] == vals[t2 + 1]);
                } else {
                    assert(rest[t1] == vals[t1 + 1] && rest[t2] == vals[t2 + 1]);
                }
            }
            lemma_distinct_le(rest, m - 1);
        }
    }
}

} // verus!
