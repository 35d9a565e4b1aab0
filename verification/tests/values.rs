use genetic_algorithm::binary32::{greater, is_nan, is_probability, lesser, HALF, INFINITY, ONE, SIGN};
use genetic_algorithm::{
    Brain, Chromosome, CrossoverMethod, Error, GaussianMutation, GeneticAlgorithm, LayerTopology,
    MutationMethod, Pass, Reply, Request, RouletteWheelSelection, SelectionMethod, Statistics,
    UniformCrossover,
};

fn bits(values: &[f32]) -> Vec<u32> {
    values.iter().map(|value| value.to_bits()).collect()
}

fn chromosome(values: &[f32]) -> Chromosome {
    Chromosome::from_iter(bits(values))
}

fn samples() -> Vec<f32> {
    vec![
        0.0,
        -0.0,
        f32::MIN_POSITIVE,
        -f32::MIN_POSITIVE,
        1.0e-45,
        -1.0e-45,
        0.25,
        0.5,
        0.99999994,
        1.0,
        1.0000001,
        1.5,
        -0.5,
        -1.0,
        3.0,
        -3.0,
        f32::MAX,
        f32::MIN,
        f32::INFINITY,
        f32::NEG_INFINITY,
        f32::NAN,
        -f32::NAN,
    ]
}

#[test]
fn constants_are_the_numbers_they_are_named_for() {
    assert_eq!(HALF, 0.5f32.to_bits());
    assert_eq!(ONE, 1.0f32.to_bits());
    assert_eq!(INFINITY, f32::INFINITY.to_bits());
    assert_eq!(SIGN, (-0.0f32).to_bits());
}

#[test]
fn is_nan_agrees_with_the_numbers() {
    for value in samples() {
        assert_eq!(is_nan(value.to_bits()), value.is_nan(), "{value}");
    }
}

#[test]
fn is_probability_agrees_with_the_numbers() {
    for value in samples() {
        assert_eq!(is_probability(value.to_bits()), value >= 0.0 && value <= 1.0, "{value}");
    }
}

#[test]
fn lesser_and_greater_agree_with_the_numbers() {
    for a in samples() {
        for b in samples() {
            let least = f32::from_bits(lesser(a.to_bits(), b.to_bits()));
            let most = f32::from_bits(greater(a.to_bits(), b.to_bits()));
            if a.is_nan() && b.is_nan() {
                assert!(least.is_nan() && most.is_nan());
            } else {
                assert_eq!(least, a.min(b), "{a} {b}");
                assert_eq!(most, a.max(b), "{a} {b}");
            }
        }
    }
}

#[test]
fn lesser_keeps_the_first_of_two_equal_numbers() {
    assert_eq!(lesser(0, SIGN), 0);
    assert_eq!(lesser(SIGN, 0), SIGN);
    assert_eq!(greater(0, SIGN), 0);
    assert_eq!(greater(SIGN, 0), SIGN);
}

#[test]
fn chromosome_round_trip() {
    let genes = bits(&[3.0, 1.0, 2.0]);
    let chromosome = Chromosome::from_iter(genes.clone());

    assert_eq!(chromosome.len(), 3);
    assert_eq!(chromosome.iter(), genes.as_slice());
    assert_eq!(*chromosome.index(0), 3.0f32.to_bits());
    assert_eq!(*chromosome.index(2), 2.0f32.to_bits());

    let rebuilt = Chromosome::from_iter(chromosome.clone().into_iter());
    assert_eq!(rebuilt.iter(), chromosome.iter());
    assert_eq!(rebuilt.into_iter(), genes);
}

#[test]
fn chromosome_without_genes() {
    let chromosome = Chromosome::from_iter(Vec::new());

    assert_eq!(chromosome.len(), 0);
    assert!(chromosome.iter().is_empty());
    assert!(chromosome.into_iter().is_empty());
}

#[test]
fn chromosome_is_written_through_iter_mut() {
    let mut chromosome = chromosome(&[1.0, 2.0, 3.0]);
    for gene in chromosome.iter_mut().iter_mut() {
        *gene = (f32::from_bits(*gene) * 2.0).to_bits();
    }

    assert_eq!(chromosome.into_iter(), bits(&[2.0, 4.0, 6.0]));
}

#[test]
fn statistics_of_a_population() {
    let fitness = bits(&[2.0, 1.0, 4.0, 3.0]);
    let statistics = Statistics::new(&fitness, 2.5f32.to_bits()).unwrap();

    assert_eq!(
        statistics,
        Statistics {
            min_fitness: 1.0f32.to_bits(),
            max_fitness: 4.0f32.to_bits(),
            avg_fitness: 2.5f32.to_bits(),
        }
    );
}

#[test]
fn statistics_of_one_member() {
    let statistics = Statistics::new(&bits(&[-7.5]), (-7.5f32).to_bits()).unwrap();

    assert_eq!(statistics.min_fitness, (-7.5f32).to_bits());
    assert_eq!(statistics.max_fitness, (-7.5f32).to_bits());
}

#[test]
fn statistics_order_negative_numbers_and_pass_over_what_is_no_number() {
    let fitness = bits(&[f32::NAN, -1.0, -3.0, f32::NAN, 2.0, -0.5]);
    let statistics = Statistics::new(&fitness, 0).unwrap();

    assert_eq!(statistics.min_fitness, (-3.0f32).to_bits());
    assert_eq!(statistics.max_fitness, 2.0f32.to_bits());
}

#[test]
fn statistics_of_an_empty_population() {
    assert_eq!(Statistics::new(&Vec::new(), 0), Err(Error::EmptyPopulation));
}

#[test]
fn roulette_wheel_asks_once_for_a_choice_among_all_weights() {
    let weights = bits(&[2.0, 1.0, 4.0]);
    let mut run = RouletteWheelSelection.select(&weights).unwrap();

    assert!(!run.is_finished());
    assert!(matches!(run.request(), Some(Request::Choose { weights: asked }) if asked == weights));
    assert!(!run.reply(Reply::Flipped(true)));
    assert!(!run.reply(Reply::Chosen(3)));
    assert!(run.reply(Reply::Chosen(2)));
    assert!(run.is_finished());
    assert!(run.request().is_none());
    assert!(!run.reply(Reply::Chosen(0)));
    assert_eq!(run.finish(), Some(2));
}

#[test]
fn roulette_wheel_refuses_an_empty_population() {
    assert!(matches!(RouletteWheelSelection.select(&Vec::new()), Err(Error::EmptyPopulation)));
}

#[test]
fn roulette_wheel_that_has_not_stopped_has_chosen_nothing() {
    let run = RouletteWheelSelection.select(&bits(&[1.0])).unwrap();

    assert_eq!(run.finish(), None);
}

#[test]
fn uniform_crossover_takes_each_gene_from_the_parent_that_the_coin_names() {
    let parent_a = chromosome(&[1.0, 2.0, 3.0, 4.0]);
    let parent_b = chromosome(&[-1.0, -2.0, -3.0, -4.0]);
    let mut run = UniformCrossover.crossover(&parent_a, &parent_b).unwrap();

    for coin in [true, false, false, true] {
        assert!(matches!(run.request(), Some(Request::Flip { chance: HALF })));
        assert!(!run.reply(Reply::Value(0)));
        assert!(run.reply(Reply::Flipped(coin)));
    }
    assert!(run.request().is_none());
    assert!(!run.reply(Reply::Flipped(true)));

    assert_eq!(run.finish().unwrap().into_iter(), bits(&[1.0, -2.0, -3.0, 4.0]));
}

#[test]
fn uniform_crossover_refuses_parents_of_unequal_length() {
    let parent_a = chromosome(&[1.0, 2.0, 3.0]);
    let parent_b = chromosome(&[1.0, 2.0, 3.0, 4.0]);

    assert!(matches!(
        UniformCrossover.crossover(&parent_a, &parent_b),
        Err(Error::LengthMismatch)
    ));
    assert!(matches!(
        UniformCrossover.crossover(&parent_b, &parent_a),
        Err(Error::LengthMismatch)
    ));
}

#[test]
fn uniform_crossover_of_parents_without_genes_asks_for_nothing() {
    let run = UniformCrossover.crossover(&chromosome(&[]), &chromosome(&[])).unwrap();

    assert!(run.is_finished());
    assert!(run.finish().unwrap().into_iter().is_empty());
}

#[test]
fn gaussian_mutation_refuses_a_chance_that_is_no_probability() {
    let coeff = 0.5f32.to_bits();

    assert!(matches!(
        GaussianMutation::new(1.5f32.to_bits(), coeff),
        Err(Error::InvalidParameter)
    ));
    assert!(matches!(
        GaussianMutation::new((-0.1f32).to_bits(), coeff),
        Err(Error::InvalidParameter)
    ));
    assert!(matches!(
        GaussianMutation::new(f32::NAN.to_bits(), coeff),
        Err(Error::InvalidParameter)
    ));
    assert!(GaussianMutation::new(0.0f32.to_bits(), coeff).is_ok());
    assert!(GaussianMutation::new(1.0f32.to_bits(), coeff).is_ok());
    assert!(GaussianMutation::new(0.5f32.to_bits(), f32::NAN.to_bits()).is_ok());
}

#[test]
fn gaussian_mutation_draws_sign_then_touch_then_magnitude() {
    let chance = 0.25f32.to_bits();
    let coeff = 3.0f32.to_bits();
    let mutation = GaussianMutation::new(chance, coeff).unwrap();
    let mut run = mutation.mutate(chromosome(&[1.0, 2.0, 3.0]));

    // The first gene: negative sign, touched.
    assert!(matches!(run.request(), Some(Request::Flip { chance: HALF })));
    assert!(run.reply(Reply::Flipped(true)));
    assert!(matches!(run.request(), Some(Request::Flip { chance: asked }) if asked == chance));
    assert!(run.reply(Reply::Flipped(true)));
    assert!(matches!(
        run.request(),
        Some(Request::Perturb { gene, coefficient, negative: true })
            if gene == 1.0f32.to_bits() && coefficient == coeff
    ));
    assert!(!run.reply(Reply::Flipped(true)));
    assert!(run.reply(Reply::Value(0.5f32.to_bits())));

    // The second gene: positive sign, left alone.
    assert!(matches!(run.request(), Some(Request::Flip { chance: HALF })));
    assert!(run.reply(Reply::Flipped(false)));
    assert!(matches!(run.request(), Some(Request::Flip { chance: asked }) if asked == chance));
    assert!(!run.reply(Reply::Value(0)));
    assert!(run.reply(Reply::Flipped(false)));

    // The third gene: positive sign, touched.
    assert!(matches!(run.request(), Some(Request::Flip { chance: HALF })));
    assert!(run.reply(Reply::Flipped(false)));
    assert!(run.reply(Reply::Flipped(true)));
    assert!(matches!(
        run.request(),
        Some(Request::Perturb { gene, coefficient, negative: false })
            if gene == 3.0f32.to_bits() && coefficient == coeff
    ));
    assert!(run.reply(Reply::Value(4.5f32.to_bits())));

    assert!(run.request().is_none());
    assert_eq!(run.finish().unwrap().into_iter(), bits(&[0.5, 2.0, 4.5]));
}

#[test]
fn gaussian_mutation_that_touches_no_gene_changes_nothing() {
    let mutation = GaussianMutation::new(0.5f32.to_bits(), 0.5f32.to_bits()).unwrap();
    let mut run = mutation.mutate(chromosome(&[1.0, 2.0, 3.0]));

    for sign in [true, false, true] {
        assert!(run.reply(Reply::Flipped(sign)));
        assert!(run.reply(Reply::Flipped(false)));
    }

    assert_eq!(run.finish().unwrap().into_iter(), bits(&[1.0, 2.0, 3.0]));
}

#[test]
fn gaussian_mutation_that_is_not_over_hands_out_nothing() {
    let mutation = GaussianMutation::new(0.5f32.to_bits(), 0.5f32.to_bits()).unwrap();
    let run = mutation.mutate(chromosome(&[1.0]));

    assert!(run.finish().is_none());
}

fn algorithm() -> GeneticAlgorithm<RouletteWheelSelection, UniformCrossover, GaussianMutation> {
    GeneticAlgorithm::new(
        RouletteWheelSelection,
        UniformCrossover,
        GaussianMutation::new(0.5f32.to_bits(), 0.5f32.to_bits()).unwrap(),
    )
}

#[test]
fn generation_asks_in_order_and_keeps_the_size_of_the_population() {
    let algorithm = algorithm();
    let parents = vec![chromosome(&[1.0, 2.0]), chromosome(&[3.0, 4.0])];
    let weights = bits(&[3.0, 7.0]);
    let mut run = algorithm.begin(parents, weights.clone()).unwrap();

    // The first child: parents 1 and 0, the genes of 1 then 0, the second gene changed.
    assert!(matches!(run.request(), Some(Request::Choose { weights: asked }) if asked == weights));
    assert!(!run.reply(Reply::Chosen(2)));
    assert!(run.reply(Reply::Chosen(1)));
    assert!(matches!(run.request(), Some(Request::Choose { weights: asked }) if asked == weights));
    assert!(run.reply(Reply::Chosen(0)));
    assert!(matches!(run.request(), Some(Request::Flip { chance: HALF })));
    assert!(run.reply(Reply::Flipped(true)));
    assert!(run.reply(Reply::Flipped(false)));
    assert!(run.reply(Reply::Flipped(false)));
    assert!(run.reply(Reply::Flipped(false)));
    assert!(run.reply(Reply::Flipped(true)));
    assert!(run.reply(Reply::Flipped(true)));
    assert!(matches!(
        run.request(),
        Some(Request::Perturb { gene, negative: true, .. }) if gene == 2.0f32.to_bits()
    ));
    assert!(run.reply(Reply::Value(1.75f32.to_bits())));

    // The second child: parent 1 twice, nothing changed.
    assert!(!run.is_finished());
    assert!(run.reply(Reply::Chosen(1)));
    assert!(run.reply(Reply::Chosen(1)));
    assert!(run.reply(Reply::Flipped(false)));
    assert!(run.reply(Reply::Flipped(true)));
    assert!(run.reply(Reply::Flipped(false)));
    assert!(run.reply(Reply::Flipped(false)));
    assert!(run.reply(Reply::Flipped(false)));
    assert!(run.reply(Reply::Flipped(false)));

    // The mean comes last.
    assert!(!run.is_finished());
    assert!(matches!(run.request(), Some(Request::Average { values }) if values == weights));
}

#[test]
fn generation_hands_out_the_children_and_the_statistics_of_the_parents() {
    let algorithm = algorithm();
    let parents = vec![chromosome(&[1.0, 2.0]), chromosome(&[3.0, 4.0])];
    let weights = bits(&[3.0, 7.0]);
    let mut run = algorithm.begin(parents, weights.clone()).unwrap();

    let replies = [
        Reply::Chosen(1),
        Reply::Chosen(0),
        Reply::Flipped(true),
        Reply::Flipped(false),
        Reply::Flipped(false),
        Reply::Flipped(false),
        Reply::Flipped(true),
        Reply::Flipped(true),
        Reply::Value(1.75f32.to_bits()),
        Reply::Chosen(1),
        Reply::Chosen(1),
        Reply::Flipped(false),
        Reply::Flipped(true),
        Reply::Flipped(false),
        Reply::Flipped(false),
        Reply::Flipped(false),
        Reply::Flipped(false),
    ];
    for reply in replies {
        assert!(run.reply(reply));
    }
    assert!(matches!(run.request(), Some(Request::Average { values }) if values == weights));
    assert!(!run.reply(Reply::Flipped(true)));
    assert!(run.reply(Reply::Value(5.0f32.to_bits())));
    assert!(run.is_finished());
    assert!(run.request().is_none());

    let (children, statistics) = run.finish().unwrap().unwrap();
    let children: Vec<Vec<u32>> = children.into_iter().map(Chromosome::into_iter).collect();

    assert_eq!(children, vec![bits(&[3.0, 1.75]), bits(&[3.0, 4.0])]);
    assert_eq!(
        statistics,
        Statistics {
            min_fitness: 3.0f32.to_bits(),
            max_fitness: 7.0f32.to_bits(),
            avg_fitness: 5.0f32.to_bits(),
        }
    );
}

#[test]
fn generation_fails_where_two_parents_of_unequal_length_meet() {
    let algorithm = algorithm();
    let parents = vec![chromosome(&[1.0, 2.0, 3.0]), chromosome(&[1.0, 2.0, 3.0, 4.0])];
    let mut run = algorithm.begin(parents, bits(&[1.0, 1.0])).unwrap();

    assert!(run.reply(Reply::Chosen(0)));
    assert!(run.reply(Reply::Chosen(1)));
    assert!(run.is_finished());
    assert!(matches!(run.finish(), Some(Err(Error::LengthMismatch))));
}

#[test]
fn generation_of_chromosomes_without_genes_asks_for_parents_only() {
    let algorithm = algorithm();
    let parents = vec![chromosome(&[]), chromosome(&[]), chromosome(&[])];
    let mut run = algorithm.begin(parents, bits(&[1.0, 2.0, 3.0])).unwrap();

    for _ in 0..6 {
        assert!(matches!(run.request(), Some(Request::Choose { .. })));
        assert!(run.reply(Reply::Chosen(2)));
    }
    assert!(matches!(run.request(), Some(Request::Average { .. })));
    assert!(run.reply(Reply::Value(2.0f32.to_bits())));

    let (children, _) = run.finish().unwrap().unwrap();
    assert_eq!(children.len(), 3);
}

#[test]
fn generation_needs_a_member_and_a_fitness_for_each() {
    let algorithm = algorithm();

    assert!(matches!(algorithm.begin(Vec::new(), Vec::new()), Err(Error::EmptyPopulation)));
    assert!(matches!(algorithm.begin(Vec::new(), bits(&[1.0])), Err(Error::EmptyPopulation)));
    assert!(matches!(
        algorithm.begin(vec![chromosome(&[1.0])], bits(&[1.0, 2.0])),
        Err(Error::LengthMismatch)
    ));
}

#[test]
fn generation_that_is_not_over_hands_out_nothing() {
    let algorithm = algorithm();
    let run = algorithm.begin(vec![chromosome(&[1.0])], bits(&[1.0])).unwrap();

    assert!(run.finish().is_none());
}

#[test]
fn topology_of_a_brain() {
    assert_eq!(
        Brain::topology(9),
        [
            LayerTopology { neurons: 9 },
            LayerTopology { neurons: 18 },
            LayerTopology { neurons: 2 },
        ]
    );
    assert_eq!(
        Brain::topology(0),
        [LayerTopology { neurons: 0 }, LayerTopology { neurons: 0 }, LayerTopology { neurons: 2 }]
    );
}

#[test]
fn brain_takes_the_chromosome_that_has_a_gene_for_each_weight() {
    // (9 + 1) * 18 + (18 + 1) * 2
    let genes: Vec<u32> = (0..218).map(|n| (n as f32).to_bits()).collect();
    let brain = Brain::from_chromosome(Chromosome::from_iter(genes.clone()), 9).unwrap();

    assert_eq!(brain.as_chromosome().into_iter(), genes);
}

#[test]
fn brain_refuses_a_chromosome_of_another_length() {
    for length in [0, 1, 217, 219, 1000] {
        let genes: Vec<u32> = vec![0; length];

        assert!(matches!(
            Brain::from_chromosome(Chromosome::from_iter(genes), 9),
            Err(Error::LengthMismatch)
        ));
    }
    assert!(matches!(
        Brain::from_chromosome(Chromosome::from_iter(vec![0; 2]), usize::MAX),
        Err(Error::LengthMismatch)
    ));
}

#[test]
fn brain_for_an_eye_without_cells_has_the_two_biases_of_its_last_layer() {
    assert!(Brain::from_chromosome(Chromosome::from_iter(vec![0; 2]), 0).is_ok());
    assert!(Brain::from_chromosome(Chromosome::from_iter(vec![0; 10]), 1).is_ok());
}
