use std::collections::BTreeMap;

use genetic_algorithm::{
    create_all, Chromosome, CrossoverMethod, Error, GaussianMutation, GeneticAlgorithm,
    Individual, MutationMethod, Pass, Reply, Request, RouletteWheelSelection, SelectionMethod,
    Statistics, UniformCrossover,
};
use rand::seq::SliceRandom;
use rand::{Rng, RngCore, SeedableRng};
use rand::rngs::mock::StepRng;
use rand_chacha::ChaCha8Rng;

/// Answers one request with the given source of randomness.
fn answer(rng: &mut dyn RngCore, request: &Request) -> Reply {
    match request {
        Request::Choose { weights } => {
            let indices: Vec<usize> = (0..weights.len()).collect();
            let index = indices
                .choose_weighted(rng, |&index| f32::from_bits(weights[index]))
                .expect("got an empty population");
            Reply::Chosen(*index)
        }
        Request::Flip { chance } => Reply::Flipped(rng.gen_bool(f32::from_bits(*chance) as f64)),
        Request::Perturb { gene, coefficient, negative } => {
            let sign = if *negative { -1.0 } else { 1.0 };
            let mut gene = f32::from_bits(*gene);
            gene += sign * f32::from_bits(*coefficient) * rng.gen::<f32>();
            Reply::Value(gene.to_bits())
        }
        Request::Average { values } => {
            let mut sum = 0.0;
            for value in values {
                sum += f32::from_bits(*value);
            }
            Reply::Value((sum / (values.len() as f32)).to_bits())
        }
    }
}

/// Runs a pass to its end.
fn drive<P: Pass>(rng: &mut dyn RngCore, mut pass: P) -> P::Output {
    while let Some(request) = pass.request() {
        assert!(pass.reply(answer(rng, &request)));
    }
    pass.finish().expect("a pass that asks for nothing has come to its end")
}

fn bits(values: &[f32]) -> Vec<u32> {
    values.iter().map(|value| value.to_bits()).collect()
}

fn floats(chromosome: &Chromosome) -> Vec<f32> {
    chromosome.iter().iter().map(|gene| f32::from_bits(*gene)).collect()
}

fn chromosome(values: &[f32]) -> Chromosome {
    Chromosome::from_iter(bits(values))
}

fn relative_eq(actual: &[f32], expected: &[f32]) -> bool {
    approx::Relative::default().eq(actual, expected)
}

#[derive(Clone, Debug)]
enum TestIndividual {
    /// For tests that require access to the chromosome
    WithChromosome { chromosome: Chromosome },
    /// For tests that don't require access to the chromosome
    WithFitness { fitness: f32 },
}

impl TestIndividual {
    fn new(fitness: f32) -> Self {
        Self::WithFitness { fitness }
    }
}

impl Individual for TestIndividual {
    fn create(chromosome: Chromosome) -> Self {
        Self::WithChromosome { chromosome }
    }

    fn chromosome(&self) -> &Chromosome {
        match self {
            Self::WithChromosome { chromosome } => chromosome,
            Self::WithFitness { .. } => {
                panic!("not supported for TestIndividual::WithFitness")
            }
        }
    }

    fn fitness(&self) -> u32 {
        match self {
            Self::WithChromosome { chromosome } => {
                floats(chromosome).iter().sum::<f32>().to_bits()
            }
            Self::WithFitness { fitness } => fitness.to_bits(),
        }
    }
}

#[test]
fn roulette_wheel_selection() {
    let mut rng = ChaCha8Rng::from_seed(Default::default());

    let population = vec![
        TestIndividual::new(2.0),
        TestIndividual::new(1.0),
        TestIndividual::new(4.0),
        TestIndividual::new(3.0),
    ];
    let weights: Vec<u32> = population.iter().map(|individual| individual.fitness()).collect();

    let mut actual_histogram = BTreeMap::new();

    for _ in 0..1000 {
        let run = RouletteWheelSelection.select(&weights).unwrap();
        let chosen = &population[drive(&mut rng, run)];
        let fitness = f32::from_bits(chosen.fitness()) as i32;

        *actual_histogram.entry(fitness).or_insert(0) += 1;
    }

    let expected_histogram = BTreeMap::from_iter([
        // (fitness, how many times this fitness has been chosen)
        (1, 98),
        (2, 202),
        (3, 278),
        (4, 422),
    ]);

    assert_eq!(actual_histogram, expected_histogram);
}

#[test]
fn uniform_crossover() {
    let mut rng = ChaCha8Rng::from_seed(Default::default());
    let parent_a: Chromosome = Chromosome::from_iter((1..=100).map(|n| (n as f32).to_bits()).collect());
    let parent_b: Chromosome = Chromosome::from_iter((1..=100).map(|n| (-n as f32).to_bits()).collect());
    let run = UniformCrossover.crossover(&parent_a, &parent_b).unwrap();
    let child = drive(&mut rng, run);

    // Number of genes different between 'child' and 'parent_a'
    let diff_a = floats(&child).iter().zip(floats(&parent_a)).filter(|(c, p)| *c != p).count();
    let diff_b = floats(&child).iter().zip(floats(&parent_b)).filter(|(c, p)| *c != p).count();

    assert_eq!(diff_a, 49);
    assert_eq!(diff_b, 51);
}

fn actual(chance: f32, coeff: f32) -> Vec<f32> {
    let mut rng = ChaCha8Rng::from_seed(Default::default());
    let child = chromosome(&[1.0, 2.0, 3.0, 4.0, 5.0]);

    let mutation = GaussianMutation::new(chance.to_bits(), coeff.to_bits()).unwrap();
    let child = drive(&mut rng, mutation.mutate(child));

    floats(&child)
}

#[test]
fn does_not_change_the_original_chromosome() {
    let actual = actual(0.0, 0.0);
    let expected = vec![1.0, 2.0, 3.0, 4.0, 5.0];

    assert!(relative_eq(actual.as_slice(), expected.as_slice()));
}

#[test]
fn lib_does_not_change_the_original_chromosome() {
    let actual = actual(0.0, 0.5);
    let expected = vec![1.0, 2.0, 3.0, 4.0, 5.0];

    assert!(relative_eq(actual.as_slice(), expected.as_slice()));
}

#[test]
fn given_fifty_fifty_chance_and_zero_coefficient_does_not_change_the_original_chromosome() {
    let actual = actual(0.5, 0.0);
    let expected = vec![1.0, 2.0, 3.0, 4.0, 5.0];

    assert!(relative_eq(actual.as_slice(), expected.as_slice()));
}

#[test]
fn slightly_changes_the_original_chromosome() {
    let actual = actual(0.5, 0.5);
    let expected = vec![1.0, 1.7756249, 3.0, 4.1596804, 5.0];

    assert!(relative_eq(actual.as_slice(), expected.as_slice()));
}

#[test]
fn given_max_chance_and_zero_coefficient_does_not_change_the_original_chromosome() {
    let actual = actual(1.0, 0.0);
    let expected = vec![1.0, 2.0, 3.0, 4.0, 5.0];

    assert!(relative_eq(actual.as_slice(), expected.as_slice()));
}

#[test]
fn entirely_changes_the_original_chromosome() {
    let actual = actual(1.0, 0.5);
    let expected = vec![1.4545316, 2.1162078, 2.7756248, 3.9505124, 4.638691];

    assert!(relative_eq(actual.as_slice(), expected.as_slice()));
}

#[test]
fn genetic_algorithm() {
    fn individual(genes: &[f32]) -> TestIndividual {
        TestIndividual::create(chromosome(genes))
    }

    let mut rng = ChaCha8Rng::from_seed(Default::default());

    let ga = GeneticAlgorithm::new(
        RouletteWheelSelection,
        UniformCrossover,
        GaussianMutation::new(0.5f32.to_bits(), 0.5f32.to_bits()).unwrap(),
    );

    let mut population = vec![
        individual(&[0.0, 0.0, 0.0]),
        individual(&[1.0, 1.0, 1.0]),
        individual(&[1.0, 2.0, 1.0]),
        individual(&[1.0, 2.0, 4.0]),
    ];

    let mut _stats: Statistics;
    for _ in 0..10 {
        let run = ga.evolve(&population).unwrap();
        let (children, stats) = drive(&mut rng, run).unwrap();
        population = create_all(children);
        _stats = stats;
    }

    let expected_population = vec![
        individual(&[0.44769490, 2.0648358, 4.3058133]),
        individual(&[1.21268670, 1.5538777, 2.8869110]),
        individual(&[1.06176780, 2.2657390, 4.4287640]),
        individual(&[0.95909685, 2.4618788, 4.0247330]),
    ];

    assert_eq!(population.len(), expected_population.len());
    for (actual, expected) in population.iter().zip(expected_population.iter()) {
        assert!(relative_eq(
            floats(actual.chromosome()).as_slice(),
            floats(expected.chromosome()).as_slice()
        ));
    }
}

#[test]
fn evolve_refuses_an_empty_population() {
    let ga = GeneticAlgorithm::new(
        RouletteWheelSelection,
        UniformCrossover,
        GaussianMutation::new(0.5f32.to_bits(), 0.5f32.to_bits()).unwrap(),
    );
    let population: Vec<TestIndividual> = Vec::new();

    assert!(matches!(ga.evolve(&population), Err(Error::EmptyPopulation)));
}

#[test]
fn gaussian_mutation_changes_no_gene_by_more_than_the_coefficient() {
    for coeff in [0.0f32, 0.25, 0.5, 3.0] {
        let before = vec![1.0f32, 2.0, 3.0, 4.0, 5.0];
        let after = actual(1.0, coeff);

        assert_eq!(after.len(), before.len());
        for (old, new) in before.iter().zip(after.iter()) {
            assert!((new - old).abs() <= coeff, "{old} {new} {coeff}");
        }
    }
}

#[test]
fn statistics_of_a_generation_are_those_of_its_parents() {
    let mut rng = ChaCha8Rng::from_seed(Default::default());
    let ga = GeneticAlgorithm::new(
        RouletteWheelSelection,
        UniformCrossover,
        GaussianMutation::new(0.5f32.to_bits(), 0.5f32.to_bits()).unwrap(),
    );
    let population: Vec<TestIndividual> = vec![
        TestIndividual::create(chromosome(&[0.0, 0.0, 0.0])),
        TestIndividual::create(chromosome(&[1.0, 1.0, 1.0])),
        TestIndividual::create(chromosome(&[1.0, 2.0, 1.0])),
        TestIndividual::create(chromosome(&[1.0, 2.0, 4.0])),
    ];

    let run = ga.evolve(&population).unwrap();
    let (children, statistics) = drive(&mut rng, run).unwrap();

    assert_eq!(children.len(), population.len());
    assert_eq!(f32::from_bits(statistics.min_fitness), 0.0);
    assert_eq!(f32::from_bits(statistics.max_fitness), 7.0);
    assert_eq!(f32::from_bits(statistics.avg_fitness), (0.0 + 3.0 + 4.0 + 7.0) / 4.0);
}

#[test]
fn same_seed_same_generation() {
    let ga = GeneticAlgorithm::new(
        RouletteWheelSelection,
        UniformCrossover,
        GaussianMutation::new(0.5f32.to_bits(), 0.5f32.to_bits()).unwrap(),
    );
    let population: Vec<TestIndividual> = vec![
        TestIndividual::create(chromosome(&[0.5, 0.0, 0.25])),
        TestIndividual::create(chromosome(&[1.0, 1.0, 1.0])),
        TestIndividual::create(chromosome(&[1.0, 2.0, 4.0])),
    ];

    let mut first = ChaCha8Rng::from_seed([7; 32]);
    let mut second = ChaCha8Rng::from_seed([7; 32]);
    let (one, _) = drive(&mut first, ga.evolve(&population).unwrap()).unwrap();
    let (other, _) = drive(&mut second, ga.evolve(&population).unwrap()).unwrap();

    let one: Vec<Vec<u32>> = one.into_iter().map(Chromosome::into_iter).collect();
    let other: Vec<Vec<u32>> = other.into_iter().map(Chromosome::into_iter).collect();
    assert_eq!(one, other);
    assert_eq!(one.len(), 3);
}

#[test]
fn crossover_makes_up_no_gene() {
    let mut rng = ChaCha8Rng::from_seed([3; 32]);
    let parent_a = chromosome(&[1.0, 2.0, 3.0, 4.0, 5.0, 6.0]);
    let parent_b = chromosome(&[-1.0, -2.0, -3.0, -4.0, -5.0, -6.0]);

    let child = drive(&mut rng, UniformCrossover.crossover(&parent_a, &parent_b).unwrap());

    assert_eq!(child.len(), 6);
    for position in 0..6 {
        let gene = *child.index(position);
        assert!(gene == *parent_a.index(position) || gene == *parent_b.index(position));
    }
}

#[test]
fn generation_takes_no_more_answers_than_its_size_allows() {
    let mut rng = ChaCha8Rng::from_seed([11; 32]);
    let ga = GeneticAlgorithm::new(
        RouletteWheelSelection,
        UniformCrossover,
        GaussianMutation::new(1.0f32.to_bits(), 0.5f32.to_bits()).unwrap(),
    );
    let population: Vec<TestIndividual> = vec![
        TestIndividual::create(chromosome(&[0.5, 0.0, 0.25])),
        TestIndividual::create(chromosome(&[1.0, 1.0, 1.0])),
        TestIndividual::create(chromosome(&[1.0, 2.0, 4.0])),
    ];

    let mut run = ga.evolve(&population).unwrap();
    let mut answers = 0;
    while let Some(request) = run.request() {
        assert!(run.reply(answer(&mut rng, &request)));
        answers += 1;
    }

    // Every gene is touched: two parents, three coins and nine answers for
    // each of three children, and the mean.
    assert_eq!(answers, 3 * (2 + 4 * 3) + 1);
    let (children, _) = run.finish().unwrap().unwrap();
    assert_eq!(children.len(), 3);
    assert!(children.iter().all(|child| child.len() == 3));
}

#[test]
fn gaussian_mutation_moves_a_large_gene_to_the_nearest_number_there_is() {
    // The sign comes up positive, the gene is touched, and the share is 0.9.
    let share = 15_099_494u64 << 8;
    let mut rng = StepRng::new(1 << 63, share);
    let gene = 16_777_216.0f32;
    let coeff = 1.2f32;

    let mutation = GaussianMutation::new(1.0f32.to_bits(), coeff.to_bits()).unwrap();
    let child = drive(&mut rng, mutation.mutate(chromosome(&[gene])));

    // Next to the gene there is no number nearer to what it should become
    // than one that lies two away.
    assert_eq!(floats(&child), vec![16_777_218.0]);
}
