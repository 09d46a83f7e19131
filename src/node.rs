use vstd::prelude::*;
use crate::activationfn::ActivationFn;
use crate::layer::LayerID;
use crate::network::{Network, NetworkError};
use crate::scalar::Scalar;

verus! {

/// Possible node types.
#[derive(PartialEq, Eq, Structural, Debug, Clone, Copy)]
pub enum NodeType {
    /// An input node.
    InputNode,
    /// A hidden (middle) node.
    HiddenNode,
    /// An output node.
    OutputNode,
}

/// Nodes are the basic building blocks of a neural network.
#[derive(PartialEq, Eq, Structural, Debug, Clone, Copy)]
pub struct Node {
    /// The kind of node, fixed by its layer.
    pub node_type: NodeType,
    /// The identity of the node within its network.
    pub id: usize,
    /// The layer the node sits in.
    pub layer_id: LayerID,
    /// Added to the node's summed input before activation.
    pub bias: Scalar,
    /// Applied to the node's biased input.
    pub activation_fn: ActivationFn,
}

impl Node {
    /// Creates a new node with the network's default activation function.
    pub fn create(network: &mut Network, layer_id: LayerID, bias: Scalar) -> (r: Result<usize, NetworkError>)
        requires
            old(network).wf(),
        ensures
            final(network).wf(),
            Network::node_created(*old(network), *final(network), layer_id, bias, old(network)@.activation_fn, r),
    {
        let activation_fn = network.default_activation_fn();
        network.insert_node(layer_id, bias, activation_fn)
    }

    /// Creates a new node with a custom activation function.
    pub fn create_with_custom_activation(
        network: &mut Network,
        layer_id: LayerID,
        bias: Scalar,
        activation_fn: ActivationFn,
    ) -> (r: Result<usize, NetworkError>)
        requires
            old(network).wf(),
        ensures
            final(network).wf(),
            Network::node_created(*old(network), *final(network), layer_id, bias, activation_fn, r),
    {
        network.insert_node(layer_id, bias, activation_fn)
    }

    /// The node's identity.
    pub fn id(&self) -> (r: usize)
        ensures
            r == self.id,
    {
        self.id
    }

    /// The node's layer.
    pub fn layer_id(&self) -> (r: LayerID)
        ensures
            r == self.layer_id,
    {
        self.layer_id
    }

    /// The node's bias.
    pub fn bias(&self) -> (r: Scalar)
        ensures
            r == self.bias,
    {
        self.bias
    }

    /// The node's activation function.
    pub fn activation_fn(&self) -> (r: ActivationFn)
        ensures
            r == self.activation_fn,
    {
        self.activation_fn
    }

    /// The node's kind.
    pub fn node_type(&self) -> (r: NodeType)
        ensures
            r == self.node_type,
    {
        self.node_type
    }
}

} // verus!
