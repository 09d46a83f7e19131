use nnrs::activationfn::ActivationFn;
use nnrs::edge::Edge;
use nnrs::layer::LayerID;
use nnrs::mutation::{Fresh, MutationType, Picks};
use nnrs::network::{Network, NetworkError};
use nnrs::node::Node;
use nnrs::scalar::Scalar;

fn s(x: f64) -> Scalar {
    Scalar::from_bits(x.to_bits())
}

fn fresh() -> Fresh {
    Fresh { weight: s(0.75), bias: s(-0.25), threshold: s(0.5) }
}

fn picks(first: usize, second: usize) -> Picks {
    Picks { first, second }
}

/// A network with one input, one output, two hidden layers of one node
/// each, and edges input -> h0 -> h1 -> output.
fn chain() -> Result<Network, NetworkError> {
    let mut network = Network::create(1, 1, ActivationFn::Linear)?;
    let l0 = network.add_layer();
    let l1 = network.add_layer();
    let h0 = Node::create(&mut network, l0, s(0.0))?;
    let h1 = Node::create(&mut network, l1, s(0.0))?;
    Edge::create(&mut network, 1, h0, s(1.0))?;
    Edge::create(&mut network, h0, h1, s(1.0))?;
    Edge::create(&mut network, h1, 2, s(1.0))?;
    Ok(network)
}

#[test]
fn add_edge_on_single_node_falls_back_to_adding_a_node() -> Result<(), NetworkError> {
    let mut network = Network::create(1, 0, ActivationFn::Linear)?;
    let applied = network.mutate(MutationType::AddEdge, picks(3, 4), fresh())?;
    assert_eq!(applied, MutationType::AddNodeToNewLayer);
    assert_eq!(network.nodes().len(), 2);
    assert_eq!(network.nodes()[1].layer_id, LayerID::HiddenLayer(0));
    assert_eq!(network.nodes()[1].bias, s(-0.25));
    assert!(network.edges().is_empty());
    Ok(())
}

#[test]
fn add_edge_orders_the_pair_by_layer() -> Result<(), NetworkError> {
    let mut network = Network::create(1, 1, ActivationFn::Linear)?;
    let applied = network.mutate(MutationType::AddEdge, picks(1, 0), fresh())?;
    assert_eq!(applied, MutationType::AddEdge);
    let e = network.edges()[0];
    assert_eq!((e.node_from_id, e.node_to_id, e.weight), (1, 2, s(0.75)));
    let applied = network.mutate(MutationType::AddEdge, picks(0, 0), fresh())?;
    assert_eq!(applied, MutationType::ModifyEdge);
    assert_eq!(network.edges().len(), 1);
    Ok(())
}

#[test]
fn edge_operators_fall_back_to_add_edge() -> Result<(), NetworkError> {
    let mut network = Network::create(1, 1, ActivationFn::Linear)?;
    assert_eq!(network.mutate(MutationType::ModifyEdge, picks(0, 0), fresh())?, MutationType::AddEdge);
    assert_eq!(network.edges().len(), 1);
    let mut network = Network::create(1, 1, ActivationFn::Linear)?;
    assert_eq!(network.mutate(MutationType::RemoveEdge, picks(0, 0), fresh())?, MutationType::AddEdge);
    assert_eq!(network.edges().len(), 1);
    Ok(())
}

#[test]
fn remove_node_leaves_no_dangling_edges() -> Result<(), NetworkError> {
    let mut network = chain()?;
    let applied = network.mutate(MutationType::RemoveNode, picks(1, 0), fresh())?;
    assert_eq!(applied, MutationType::RemoveNode);
    assert_eq!(network.nodes().len(), 3);
    assert!(network.find_node(4).is_none());
    for e in network.edges().iter() {
        assert!(e.node_from_id != 4 && e.node_to_id != 4);
        assert!(network.find_node(e.node_from_id).is_some());
        assert!(network.find_node(e.node_to_id).is_some());
    }
    assert_eq!(network.edges().len(), 1);
    Ok(())
}

#[test]
fn remove_node_without_hidden_nodes_adds_a_layer() -> Result<(), NetworkError> {
    let mut network = Network::create(1, 1, ActivationFn::Linear)?;
    assert_eq!(network.mutate(MutationType::RemoveNode, picks(0, 0), fresh())?, MutationType::AddNodeToNewLayer);
    assert_eq!(network.layers().len(), 3);
    Ok(())
}

#[test]
fn remove_node_on_empty_network_is_fatal() {
    let mut network = Network::empty(ActivationFn::Linear);
    assert!(matches!(network.mutate(MutationType::RemoveNode, picks(0, 0), fresh()), Err(NetworkError::NoNodes)));
    assert!(network.nodes().is_empty());
    assert_eq!(network.layers().len(), 2);
}

#[test]
fn node_operators_on_empty_network_add_a_node() -> Result<(), NetworkError> {
    for op in [MutationType::ModifyNode, MutationType::ChangeActivationFn, MutationType::AddEdge] {
        let mut network = Network::empty(ActivationFn::Linear);
        assert_eq!(network.mutate(op, picks(0, 0), fresh())?, MutationType::AddNodeToNewLayer);
        assert_eq!(network.nodes().len(), 1);
    }
    Ok(())
}

#[test]
fn add_node_to_existing_layer_picks_a_hidden_layer() -> Result<(), NetworkError> {
    let mut network = chain()?;
    let applied = network.mutate(MutationType::AddNodeToExistingLayer, picks(3, 0), fresh())?;
    assert_eq!(applied, MutationType::AddNodeToExistingLayer);
    let node = network.nodes()[4];
    assert_eq!((node.id, node.layer_id, node.bias), (5, LayerID::HiddenLayer(1), s(-0.25)));
    assert_eq!(network.layers().len(), 4);
    Ok(())
}

#[test]
fn parametric_operators_change_one_value() -> Result<(), NetworkError> {
    let mut network = chain()?;
    assert_eq!(network.mutate(MutationType::ModifyEdge, picks(4, 0), fresh())?, MutationType::ModifyEdge);
    assert_eq!(network.edges()[1].weight, s(0.75));
    assert_eq!(network.edges()[0].weight, s(1.0));
    assert_eq!(network.mutate(MutationType::ModifyNode, picks(2, 0), fresh())?, MutationType::ModifyNode);
    assert_eq!(network.nodes()[2].bias, s(-0.25));
    assert_eq!(network.mutate(MutationType::ChangeActivationFn, picks(3, 5), fresh())?, MutationType::ChangeActivationFn);
    assert_eq!(network.nodes()[3].activation_fn, ActivationFn::Step(s(0.5)));
    assert_eq!(network.mutate(MutationType::RemoveEdge, picks(2, 0), fresh())?, MutationType::RemoveEdge);
    assert_eq!(network.edges().len(), 2);
    Ok(())
}

#[test]
fn fallback_table() -> Result<(), NetworkError> {
    let network = Network::create(1, 1, ActivationFn::Linear)?;
    assert_eq!(network.fallback_of(MutationType::AddNodeToExistingLayer, picks(0, 0)), Some(MutationType::AddNodeToNewLayer));
    assert_eq!(network.fallback_of(MutationType::AddNodeToNewLayer, picks(0, 0)), None);
    assert_eq!(network.fallback_of(MutationType::ModifyEdge, picks(0, 0)), Some(MutationType::AddEdge));
    assert_eq!(network.fallback_of(MutationType::RemoveNode, picks(0, 0)), Some(MutationType::AddNodeToNewLayer));
    assert_eq!(network.fallback_of(MutationType::AddEdge, picks(0, 0)), None);
    Ok(())
}

#[test]
fn selectors_follow_choice_numbers() {
    assert_eq!(ActivationFn::select(0, s(0.5)), ActivationFn::Sigmoid);
    assert_eq!(ActivationFn::select(4, s(0.5)), ActivationFn::LeakyReLU);
    assert_eq!(ActivationFn::select(11, s(0.5)), ActivationFn::Step(s(0.5)));
    assert_eq!(MutationType::select(0), MutationType::AddNodeToExistingLayer);
    assert_eq!(MutationType::select(3), MutationType::RemoveNode);
    assert_eq!(MutationType::select(15), MutationType::ChangeActivationFn);
}

#[test]
fn random_mutation_draws_from_the_list() -> Result<(), NetworkError> {
    let mut network = Network::create(1, 1, ActivationFn::Linear)?;
    let only = vec![MutationType::AddNodeToNewLayer];
    for k in 0..5 {
        let applied = network.randomly_mutate(&only, fresh())?;
        assert_eq!(applied, MutationType::AddNodeToNewLayer);
        assert_eq!(network.layers().len(), 3 + k);
    }
    for _ in 0..50 {
        network.randomly_mutate(&vec![], fresh())?;
    }
    Ok(())
}
