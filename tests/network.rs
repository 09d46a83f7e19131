use nnrs::activationfn::ActivationFn;
use nnrs::edge::Edge;
use nnrs::layer::LayerID;
use nnrs::network::{Network, NetworkError};
use nnrs::node::{Node, NodeType};
use nnrs::scalar::Scalar;

fn s(x: f64) -> Scalar {
    Scalar::from_bits(x.to_bits())
}

#[test]
fn layers_are_totally_ordered() {
    let order = [
        LayerID::InputLayer,
        LayerID::HiddenLayer(0),
        LayerID::HiddenLayer(1),
        LayerID::HiddenLayer(7),
        LayerID::OutputLayer,
    ];
    for (i, a) in order.iter().enumerate() {
        for (j, b) in order.iter().enumerate() {
            assert_eq!(a.precedes(b), i < j);
            assert_eq!(a < b, i < j);
            assert_eq!(a.compare(b), i.cmp(&j));
        }
    }
    assert!(LayerID::HiddenLayer(3).is_hidden());
    assert!(!LayerID::OutputLayer.is_hidden());
}

#[test]
fn create_numbers_nodes_from_one() -> Result<(), NetworkError> {
    let network = Network::create(2, 3, ActivationFn::Sigmoid)?;
    assert_eq!(network.input_node_ids(), vec![1, 2]);
    assert_eq!(network.output_node_ids(), vec![3, 4, 5]);
    assert_eq!(network.layers(), &vec![LayerID::InputLayer, LayerID::OutputLayer]);
    assert_eq!(network.next_node_id(), 6);
    assert_eq!(network.next_edge_id(), 1);
    assert_eq!(network.nodes()[0].node_type, NodeType::InputNode);
    assert_eq!(network.nodes()[4].node_type, NodeType::OutputNode);
    assert_eq!(network.nodes()[4].activation_fn, ActivationFn::Sigmoid);
    assert_eq!(network.nodes()[4].bias, Scalar::zero());
    Ok(())
}

#[test]
fn create_refuses_when_ids_run_out() {
    assert!(matches!(Network::create(usize::MAX, 0, ActivationFn::Linear), Err(NetworkError::IdsExhausted)));
    assert!(matches!(Network::create(usize::MAX - 1, 1, ActivationFn::Linear), Err(NetworkError::IdsExhausted)));
}

#[test]
fn add_layer_counts_up_hidden_ordinals() {
    let mut network = Network::empty(ActivationFn::Linear);
    assert_eq!(network.add_layer(), LayerID::HiddenLayer(0));
    assert_eq!(network.add_layer(), LayerID::HiddenLayer(1));
    assert_eq!(
        network.layers(),
        &vec![LayerID::InputLayer, LayerID::OutputLayer, LayerID::HiddenLayer(0), LayerID::HiddenLayer(1)]
    );
}

#[test]
fn node_in_unknown_layer_is_refused() -> Result<(), NetworkError> {
    let mut network = Network::create(1, 1, ActivationFn::Linear)?;
    let r = Node::create(&mut network, LayerID::HiddenLayer(0), s(0.1));
    assert!(matches!(r, Err(NetworkError::UnknownLayer)));
    assert_eq!(network.nodes().len(), 2);
    let layer = network.add_layer();
    let id = Node::create_with_custom_activation(&mut network, layer, s(0.1), ActivationFn::Tanh)?;
    assert_eq!(id, 3);
    let node = network.nodes()[2];
    assert_eq!(node.id(), 3);
    assert_eq!(node.layer_id(), LayerID::HiddenLayer(0));
    assert_eq!(node.node_type(), NodeType::HiddenNode);
    assert_eq!(node.activation_fn(), ActivationFn::Tanh);
    assert_eq!(node.bias(), s(0.1));
    Ok(())
}

#[test]
fn reverse_edge_is_refused_and_edges_unchanged() -> Result<(), NetworkError> {
    let mut network = Network::create(1, 1, ActivationFn::Linear)?;
    let input = network.input_node_ids()[0];
    let output = network.output_node_ids()[0];
    let id = Edge::create(&mut network, input, output, s(0.5))?;
    assert_eq!(id, 1);
    let before = network.edges().clone();
    assert!(matches!(Edge::create(&mut network, output, input, s(0.5)), Err(NetworkError::LayerOrder)));
    assert!(matches!(Edge::create(&mut network, input, input, s(0.5)), Err(NetworkError::LayerOrder)));
    assert_eq!(network.edges(), &before);
    let e = network.edges()[0];
    assert_eq!((e.id(), e.node_from_id(), e.node_to_id(), e.weight()), (1, input, output, s(0.5)));
    Ok(())
}

#[test]
fn edge_to_unknown_node_is_refused() -> Result<(), NetworkError> {
    let mut network = Network::create(1, 1, ActivationFn::Linear)?;
    assert!(matches!(Edge::create(&mut network, 1, 99, s(0.5)), Err(NetworkError::UnknownNode)));
    assert!(matches!(Edge::create(&mut network, 99, 2, s(0.5)), Err(NetworkError::UnknownNode)));
    assert!(network.edges().is_empty());
    Ok(())
}

#[test]
fn removing_a_node_removes_its_edges() -> Result<(), NetworkError> {
    let mut network = Network::create(1, 1, ActivationFn::Linear)?;
    let layer = network.add_layer();
    let hidden = Node::create(&mut network, layer, s(0.0))?;
    Edge::create(&mut network, 1, hidden, s(1.0))?;
    Edge::create(&mut network, hidden, 2, s(1.0))?;
    Edge::create(&mut network, 1, 2, s(1.0))?;
    network.remove_node_at(2);
    assert_eq!(network.nodes().len(), 2);
    assert_eq!(network.edges().len(), 1);
    assert_eq!((network.edges()[0].node_from_id, network.edges()[0].node_to_id), (1, 2));
    assert_eq!(network.find_node(hidden), None);
    assert_eq!(network.find_node(2), Some(1));
    Ok(())
}

#[test]
fn ids_are_never_reused() -> Result<(), NetworkError> {
    let mut network = Network::create(1, 1, ActivationFn::Linear)?;
    let layer = network.add_layer();
    let a = Node::create(&mut network, layer, s(0.0))?;
    network.remove_node_at(2);
    let b = Node::create(&mut network, layer, s(0.0))?;
    assert_eq!((a, b), (3, 4));
    let e = Edge::create(&mut network, 1, 2, s(1.0))?;
    network.remove_edge_at(0);
    let f = Edge::create(&mut network, 1, 2, s(1.0))?;
    assert_eq!((e, f), (1, 2));
    assert!(network.has_edge_between(1, 2));
    assert!(!network.has_edge_between(2, 1));
    Ok(())
}

#[test]
fn duplicate_is_equal() -> Result<(), NetworkError> {
    let mut network = Network::create(2, 1, ActivationFn::ReLU)?;
    Edge::create(&mut network, 1, 3, s(0.25))?;
    network.set_edge_weight(0, s(-0.5));
    let copy = network.duplicate();
    assert_eq!(copy.nodes(), network.nodes());
    assert_eq!(copy.edges(), network.edges());
    assert_eq!(copy.layers(), network.layers());
    assert_eq!(copy.edges()[0].weight, s(-0.5));
    Ok(())
}

#[test]
fn lookups_by_id_and_layer() -> Result<(), NetworkError> {
    let mut network = Network::create(2, 1, ActivationFn::Linear)?;
    let e = Edge::create(&mut network, 2, 3, s(1.0))?;
    assert_eq!(network.find_edge(e), Some(0));
    assert_eq!(network.find_edge(e + 1), None);
    assert_eq!(network.get_layer(LayerID::InputLayer), Some(vec![1, 2]));
    assert_eq!(network.get_layer(LayerID::OutputLayer), Some(vec![3]));
    assert_eq!(network.get_layer(LayerID::HiddenLayer(0)), None);
    let layer = network.add_layer();
    assert_eq!(network.get_layer(layer), Some(vec![]));
    Ok(())
}
