use nnrs::activationfn::ActivationFn;
use nnrs::environment::{EnvironmentBuilder, EnvironmentError, Environment};
use nnrs::mutation::Fresh;
use nnrs::network::{Network, NetworkError};
use nnrs::scalar::Scalar;
use nnrs::settings::{Settings, TrainingMode};
use nnrs::mutation::MutationType;

fn fresh() -> Fresh {
    Fresh {
        weight: Scalar::from_bits(0.5f64.to_bits()),
        bias: Scalar::from_bits((-0.5f64).to_bits()),
        threshold: Scalar::from_bits(0.5f64.to_bits()),
    }
}

fn builder() -> EnvironmentBuilder {
    EnvironmentBuilder::init()
        .input_size(2)
        .output_size(1)
        .mutation_rate(5)
        .population(100)
        .activation_fn(ActivationFn::ReLU)
}

/// A population of 100 networks; network `i` has `i + 1` input nodes.
fn distinct_population() -> Result<Environment, EnvironmentError> {
    let mut organisms = Vec::new();
    for i in 0..100 {
        organisms.push(Network::create(i + 1, 1, ActivationFn::Linear).map_err(EnvironmentError::Network)?);
    }
    Ok(Environment::with_organisms(organisms, 2))
}

#[test]
fn builder_makes_a_population_of_fresh_networks() -> Result<(), EnvironmentError> {
    let env = builder().try_build()?;
    assert_eq!(env.organism_count(), 100);
    assert_eq!(env.population(), 100);
    assert_eq!(env.mutation_rate(), 5);
    assert_eq!(env.generation(), 0);
    for i in 0..100 {
        assert_eq!(env.organism(i).input_node_ids(), vec![1, 2]);
        assert_eq!(env.organism(i).output_node_ids(), vec![3]);
    }
    Ok(())
}

#[test]
fn builder_reports_missing_settings_in_order() {
    let b = EnvironmentBuilder::init();
    assert!(matches!(b.try_build(), Err(EnvironmentError::InputSizeNotSet)));
    let b = b.input_size(2);
    assert!(matches!(b.try_build(), Err(EnvironmentError::OutputSizeNotSet)));
    let b = b.output_size(1);
    assert!(matches!(b.try_build(), Err(EnvironmentError::ActivationFnNotSet)));
    let b = b.activation_fn(ActivationFn::Tanh);
    assert!(matches!(b.try_build(), Err(EnvironmentError::PopulationNotSet)));
    let b = b.population(0);
    assert!(matches!(b.try_build(), Err(EnvironmentError::MutationRateNotSet)));
    let b = b.mutation_rate(1);
    let empty = b.try_build().unwrap();
    assert_eq!(empty.organism_count(), 0);
    assert!(empty.champion().is_none());
    let b = b.population(3);
    assert_eq!(b.build().organism_count(), 3);
    let b = b.input_size(usize::MAX);
    assert!(matches!(b.try_build(), Err(EnvironmentError::Network(NetworkError::IdsExhausted))));
}

#[test]
fn selection_keeps_100_drawn_from_the_top_5() -> Result<(), EnvironmentError> {
    let mut env = distinct_population()?;
    env.select_next_gen();
    assert_eq!(env.organism_count(), 100);
    for i in 0..100 {
        let inputs = env.organism(i).input_node_ids().len();
        assert_eq!(inputs, i / 20 + 1);
        assert!(inputs <= 5);
    }
    Ok(())
}

#[test]
fn small_population_keeps_its_best() -> Result<(), EnvironmentError> {
    let organisms = vec![
        Network::create(3, 1, ActivationFn::Linear).map_err(EnvironmentError::Network)?,
        Network::create(1, 1, ActivationFn::Linear).map_err(EnvironmentError::Network)?,
    ];
    let mut env = Environment::with_organisms(organisms, 1);
    assert_eq!(env.champion().unwrap().input_node_ids().len(), 3);
    env.select_next_gen();
    assert_eq!(env.organism_count(), 2);
    assert_eq!(env.organism(1).input_node_ids().len(), 3);
    Ok(())
}

#[test]
fn ranking_reorders_or_is_refused() -> Result<(), EnvironmentError> {
    let mut env = distinct_population()?;
    let reversed: Vec<usize> = (0..100).rev().collect();
    env.rank(&reversed)?;
    assert_eq!(env.organism(0).input_node_ids().len(), 100);
    assert_eq!(env.organism(99).input_node_ids().len(), 1);
    let mut repeated = reversed.clone();
    repeated[5] = repeated[6];
    assert!(matches!(env.rank(&repeated), Err(EnvironmentError::Ranking)));
    assert!(matches!(env.rank(&vec![0, 1]), Err(EnvironmentError::Ranking)));
    assert_eq!(env.organism(0).input_node_ids().len(), 100);
    Ok(())
}

#[test]
fn next_gen_ranks_selects_mutates_and_counts() -> Result<(), EnvironmentError> {
    let mut env = distinct_population()?;
    let order: Vec<usize> = (0..100).rev().collect();
    env.next_gen(&order, &fresh)?;
    assert_eq!(env.generation(), 1);
    assert_eq!(env.organism_count(), 100);
    for i in 0..100 {
        let inputs = env.organism(i).input_node_ids().len();
        assert!(inputs > 95);
    }
    assert!(env.generations_reached(&TrainingMode::NumGenerations(1)));
    assert!(!env.generations_reached(&TrainingMode::NumGenerations(2)));
    assert!(!env.generations_reached(&TrainingMode::FitnessTarget(Scalar::zero())));
    assert!(matches!(env.next_gen(&vec![0], &fresh), Err(EnvironmentError::Ranking)));
    assert_eq!(env.generation(), 1);
    Ok(())
}

#[test]
fn mutating_keeps_the_population() -> Result<(), EnvironmentError> {
    let mut env = builder().try_build()?;
    for _ in 0..3 {
        env.mutate(&fresh)?;
    }
    assert_eq!(env.organism_count(), 100);
    assert_eq!(env.generation(), 0);
    Ok(())
}

#[test]
fn default_settings() {
    let settings = Settings::default();
    assert_eq!(settings.population_size, 100);
    assert_eq!(settings.next_gen_threshold, 5);
    assert_eq!(settings.training_mode, TrainingMode::NumGenerations(30));
    assert_eq!(settings.mutation_rate, 0..=5);
    assert_eq!(settings.mutation_types.len(), 20);
    let count = |m: MutationType| settings.mutation_types.iter().filter(|&&x| x == m).count();
    assert_eq!(count(MutationType::AddNodeToExistingLayer), 3);
    assert_eq!(count(MutationType::AddNodeToNewLayer), 1);
    assert_eq!(count(MutationType::AddEdge), 2);
    assert_eq!(count(MutationType::ModifyEdge), 6);
    assert_eq!(count(MutationType::ModifyNode), 6);
    assert_eq!(count(MutationType::RemoveEdge), 1);
    assert_eq!(count(MutationType::RemoveNode), 1);
}

#[test]
fn settings_set_operator_weights_and_mutation_range() -> Result<(), EnvironmentError> {
    let mut env = builder().try_build()?;
    assert_eq!((env.mutation_rate(), env.mutation_rate_max()), (5, 5));
    assert!(env.mutation_types().is_empty());
    let settings = Settings::default();
    env.apply_settings(&settings);
    assert_eq!((env.mutation_rate(), env.mutation_rate_max()), (0, 5));
    assert_eq!(env.mutation_types(), &settings.mutation_types);
    env.mutate(&fresh)?;
    assert_eq!(env.organism_count(), 100);
    for i in 0..100 {
        let organism = env.organism(i);
        assert!(organism.nodes().len() <= 3 + 5);
        assert!(organism.edges().len() <= 5);
    }
    Ok(())
}

#[test]
fn champion_is_the_first_ranked_organism() -> Result<(), EnvironmentError> {
    let mut env = distinct_population()?;
    let order: Vec<usize> = (0..100).rev().collect();
    env.next_gen(&order, &fresh)?;
    let champion = env.champion().unwrap();
    assert_eq!(champion.input_node_ids().len(), 100);
    assert_eq!(champion.nodes().len(), 101);
    assert!(champion.edges().is_empty());
    Ok(())
}

#[test]
fn mutation_keeps_input_and_output_nodes() -> Result<(), EnvironmentError> {
    let mut env = builder().try_build()?;
    env.apply_settings(&Settings::default());
    for _ in 0..5 {
        let order: Vec<usize> = (0..100).collect();
        env.next_gen(&order, &fresh)?;
    }
    assert_eq!(env.generation(), 5);
    for i in 0..100 {
        assert_eq!(env.organism(i).input_node_ids(), vec![1, 2]);
        assert_eq!(env.organism(i).output_node_ids(), vec![3]);
    }
    Ok(())
}
