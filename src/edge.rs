use vstd::prelude::*;
use crate::network::{Network, NetworkError};
use crate::scalar::Scalar;

verus! {

/// Edges represent weighted connections from a node to a node in a later layer.
#[derive(PartialEq, Eq, Structural, Debug, Clone, Copy)]
pub struct Edge {
    /// The identity of the edge within its network.
    pub id: usize,
    /// The weight the source value is multiplied by.
    pub weight: Scalar,
    /// The source node's id.
    pub node_from_id: usize,
    /// The destination node's id.
    pub node_to_id: usize,
}

impl Edge {
    /// Creates a new edge from `node_from_id` to `node_to_id`.
    ///
    /// Both nodes must exist and the destination's layer must come strictly
    /// after the source's layer; otherwise the network is left unchanged.
    pub fn create(network: &mut Network, node_from_id: usize, node_to_id: usize, weight: Scalar) -> (r: Result<usize, NetworkError>)
        requires
            old(network).wf(),
        ensures
            final(network).wf(),
            Network::edge_created(*old(network), *final(network), node_from_id, node_to_id, weight, r),
    {
        network.insert_edge(node_from_id, node_to_id, weight)
    }

    /// The edge's identity.
    pub fn id(&self) -> (r: usize)
        ensures
            r == self.id,
    {
        self.id
    }

    /// The edge's weight.
    pub fn weight(&self) -> (r: Scalar)
        ensures
            r == self.weight,
    {
        self.weight
    }

    /// The source node's id.
    pub fn node_from_id(&self) -> (r: usize)
        ensures
            r == self.node_from_id,
    {
        self.node_from_id
    }

    /// The destination node's id.
    pub fn node_to_id(&self) -> (r: usize)
        ensures
            r == self.node_to_id,
    {
        self.node_to_id
    }
}

} // verus!
