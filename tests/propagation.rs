use nnrs::activationfn::ActivationFn;
use nnrs::edge::Edge;
use nnrs::network::{Network, NetworkError};
use nnrs::node::Node;
use nnrs::propagation::Step;
use nnrs::scalar::Scalar;

fn s(x: f64) -> Scalar {
    Scalar::from_bits(x.to_bits())
}

fn activate(f: ActivationFn, x: f64) -> f64 {
    match f {
        ActivationFn::ReLU => x.max(0.0),
        ActivationFn::Sigmoid => 1.0 / (1.0 + (-x).exp()),
        ActivationFn::Tanh => x.tanh(),
        ActivationFn::Linear => x,
        ActivationFn::LeakyReLU => x.max(0.0) + 0.01 * x,
        ActivationFn::Step(t) => {
            if x > f64::from_bits(t.bits) {
                1.0
            } else {
                0.0
            }
        }
    }
}

/// Carries out a pass over the network's schedule in f64 arithmetic.
fn fire(network: &Network, inputs: Vec<f64>) -> Result<Vec<f64>, NetworkError> {
    let plan = network.fire_plan(inputs.len())?;
    let nodes = network.nodes();
    let edges = network.edges();
    let mut values = vec![0.0f64; nodes.len()];
    for (k, &i) in plan.inputs.iter().enumerate() {
        values[i] = inputs[k];
    }
    for step in plan.steps.iter() {
        match *step {
            Step::Activate { node } => {
                let n = nodes[node];
                values[node] = activate(n.activation_fn, values[node] + f64::from_bits(n.bias.bits));
            }
            Step::Accumulate { edge, from, to } => {
                values[to] += values[from] * f64::from_bits(edges[edge].weight.bits);
            }
        }
    }
    Ok(plan.outputs.iter().map(|&i| values[i]).collect())
}

fn creation(activation_fn: ActivationFn) -> Result<Network, NetworkError> {
    let mut network = Network::create(1, 1, activation_fn)?;
    let hidden_id = network.add_layer();

    let input_node_id = network.input_node_ids().pop().unwrap();
    let hidden_node_id = Node::create(&mut network, hidden_id, s(0.2))?;
    let output_node_id = network.output_node_ids().pop().unwrap();

    Edge::create(&mut network, input_node_id, hidden_node_id, s(1.3))?;
    Edge::create(&mut network, hidden_node_id, output_node_id, s(1.5))?;
    Edge::create(&mut network, input_node_id, output_node_id, s(2.0))?;

    Ok(network)
}

#[test]
fn test_creation() -> Result<(), NetworkError> {
    let network = creation(ActivationFn::ReLU)?;
    assert_eq!(network.nodes().len(), 3);
    assert_eq!(network.edges().len(), 3);
    Ok(())
}

#[test]
fn test_io() -> Result<(), NetworkError> {
    let network = creation(ActivationFn::ReLU)?;
    let output = fire(&network, vec![0.8])?;
    assert_eq!(output, vec![(0.8 * 2.0) + (((0.8 * 1.3) + 0.2) * 1.5)]);
    Ok(())
}

#[test]
fn linear_scenario_output() -> Result<(), NetworkError> {
    let network = creation(ActivationFn::Linear)?;
    let output = fire(&network, vec![0.8])?;
    assert_eq!(output, vec![(0.8 * 2.0) + (((0.8 * 1.3) + 0.2) * 1.5)]);
    Ok(())
}

#[test]
fn scenario_schedule_is_layer_ordered() -> Result<(), NetworkError> {
    let network = creation(ActivationFn::Linear)?;
    let plan = network.plan();
    assert_eq!(plan.inputs, vec![0]);
    assert_eq!(plan.outputs, vec![1]);
    assert_eq!(
        plan.steps,
        vec![
            Step::Accumulate { edge: 0, from: 0, to: 2 },
            Step::Accumulate { edge: 2, from: 0, to: 1 },
            Step::Activate { node: 2 },
            Step::Accumulate { edge: 1, from: 2, to: 1 },
            Step::Activate { node: 1 },
        ]
    );
    Ok(())
}

#[test]
fn firing_twice_gives_the_same_output() -> Result<(), NetworkError> {
    let network = creation(ActivationFn::Sigmoid)?;
    let first = fire(&network, vec![0.3])?;
    let second = fire(&network, vec![0.3])?;
    assert_eq!(first, second);
    Ok(())
}

#[test]
fn edgeless_outputs_are_activated_biases() -> Result<(), NetworkError> {
    let mut network = Network::create(2, 2, ActivationFn::Linear)?;
    assert_eq!(fire(&network, vec![0.4, -3.0])?, vec![0.0, 0.0]);
    network.set_node_bias(2, s(0.5));
    network.set_node_activation_fn(3, ActivationFn::Sigmoid);
    network.set_node_bias(3, s(0.25));
    let output = fire(&network, vec![0.4, -3.0])?;
    assert_eq!(output, vec![0.5, 1.0 / (1.0 + (-0.25f64).exp())]);
    Ok(())
}

#[test]
fn wrong_input_count_is_refused() -> Result<(), NetworkError> {
    let network = Network::create(2, 1, ActivationFn::Linear)?;
    assert!(matches!(network.fire_plan(3), Err(NetworkError::InputCount)));
    assert!(matches!(network.fire_plan(1), Err(NetworkError::InputCount)));
    assert!(network.fire_plan(2).is_ok());
    Ok(())
}

#[test]
fn step_activation_uses_threshold() -> Result<(), NetworkError> {
    let mut network = Network::create(1, 1, ActivationFn::Linear)?;
    let input = network.input_node_ids()[0];
    let output = network.output_node_ids()[0];
    Edge::create(&mut network, input, output, s(1.0))?;
    network.set_node_activation_fn(1, ActivationFn::Step(s(0.5)));
    assert_eq!(fire(&network, vec![0.7])?, vec![1.0]);
    assert_eq!(fire(&network, vec![0.3])?, vec![0.0]);
    Ok(())
}

#[test]
fn parts_round_trip_fires_identically() -> Result<(), NetworkError> {
    let network = creation(ActivationFn::Tanh)?;
    let rebuilt = Network::from_parts(
        network.nodes().clone(),
        network.edges().clone(),
        network.layers().clone(),
        network.default_activation_fn(),
        network.next_node_id(),
        network.next_edge_id(),
    )?;
    assert_eq!(fire(&network, vec![0.8])?, fire(&rebuilt, vec![0.8])?);
    assert_eq!(rebuilt.nodes(), network.nodes());
    assert_eq!(rebuilt.edges(), network.edges());
    Ok(())
}

#[test]
fn malformed_parts_are_refused() -> Result<(), NetworkError> {
    let network = creation(ActivationFn::Linear)?;
    let mut edges = network.edges().clone();
    let e = edges[0];
    edges.push(Edge { id: e.id, weight: e.weight, node_from_id: e.node_to_id, node_to_id: e.node_from_id });
    let r = Network::from_parts(
        network.nodes().clone(),
        edges,
        network.layers().clone(),
        network.default_activation_fn(),
        network.next_node_id(),
        network.next_edge_id(),
    );
    assert!(matches!(r, Err(NetworkError::Malformed)));
    let r = Network::from_parts(
        network.nodes().clone(),
        network.edges().clone(),
        vec![],
        network.default_activation_fn(),
        network.next_node_id(),
        network.next_edge_id(),
    );
    assert!(matches!(r, Err(NetworkError::Malformed)));
    Ok(())
}
