use vstd::prelude::*;
use crate::activationfn::ActivationFn;
use crate::edge::Edge;
use crate::layer::{LayerID, layer_lt};
use crate::node::{Node, NodeType};
use crate::propagation::propagation_steps;
use crate::scalar::Scalar;

verus! {

/// Why an operation on a network was refused.
#[derive(PartialEq, Eq, Structural, Debug, Clone, Copy)]
pub enum NetworkError {
    /// The layer is not declared in the network.
    UnknownLayer,
    /// A node id does not resolve to a node of the network.
    UnknownNode,
    /// An edge's destination layer does not come after its source layer.
    LayerOrder,
    /// The id counter has no fresh id left.
    IdsExhausted,
    /// The number of inputs differs from the number of input nodes.
    InputCount,
    /// A mutation found no node to work on and no operator to fall back to.
    NoNodes,
    /// The parts handed over do not form a well-formed network.
    Malformed,
}

/// The kind of node that a layer holds.
pub open spec fn node_kind(l: LayerID) -> NodeType {
    match l {
        LayerID::InputLayer => NodeType::InputNode,
        LayerID::HiddenLayer(_) => NodeType::HiddenNode,
        LayerID::OutputLayer => NodeType::OutputNode,
    }
}

/// The kind of node that a layer holds.
pub fn kind_of_layer(l: LayerID) -> (r: NodeType)
    ensures
        r == node_kind(l),
{
    match l {
        LayerID::InputLayer => NodeType::InputNode,
        LayerID::HiddenLayer(_) => NodeType::HiddenNode,
        LayerID::OutputLayer => NodeType::OutputNode,
    }
}

/// The mathematical model of a network.
pub struct NetworkView {
    /// The nodes, in creation order.
    pub nodes: Seq<Node>,
    /// The edges, in creation order.
    pub edges: Seq<Edge>,
    /// The declared layers.
    pub layers: Seq<LayerID>,
    /// The activation function of nodes created without one.
    pub activation_fn: ActivationFn,
    /// The id the next node gets.
    pub next_node_id: nat,
    /// The id the next edge gets.
    pub next_edge_id: nat,
}

impl NetworkView {
    /// The number of hidden layers.
    pub open spec fn hidden_count(self) -> int {
        self.layers.len() - 2
    }

    /// The declared layers are the input and output layers followed by the
    /// hidden layers with ordinals `0, 1, ...` in order of creation.
    pub open spec fn layers_canonical(self) -> bool {
        &&& self.layers.len() >= 2
        &&& self.layers[0] == LayerID::InputLayer
        &&& self.layers[1] == LayerID::OutputLayer
        &&& forall|i: int| 2 <= i < self.layers.len() ==> #[trigger] self.layers[i] == LayerID::HiddenLayer((i - 2) as usize)
    }

    /// Whether layer `l` is declared.
    pub open spec fn declares(self, l: LayerID) -> bool {
        match l {
            LayerID::HiddenLayer(h) => h < self.hidden_count(),
            _ => true,
        }
    }

    /// The node at index `i` has id `id`.
    pub open spec fn node_at(self, i: int, id: usize) -> bool {
        0 <= i < self.nodes.len() && self.nodes[i].id == id
    }

    /// A node with id `id` exists.
    pub open spec fn has_node(self, id: usize) -> bool {
        exists|i: int| #[trigger] self.node_at(i, id)
    }

    /// Both nodes exist and `to` sits in a layer strictly after `from`'s.
    pub open spec fn forward(self, from: usize, to: usize) -> bool {
        exists|i: int, j: int|
            #[trigger] self.node_at(i, from) && #[trigger] self.node_at(j, to)
                && layer_lt(self.nodes[i].layer_id, self.nodes[j].layer_id)
    }

    /// A node with id `id` exists and is not an input or output node.
    pub open spec fn has_hidden_node(self, id: usize) -> bool {
        exists|i: int| #[trigger] self.node_at(i, id) && self.nodes[i].layer_id is HiddenLayer
    }

    /// Some edge starts or ends at node `id`.
    pub open spec fn touches(self, id: usize) -> bool {
        exists|j: int| 0 <= j < self.edges.len() && (#[trigger] self.edges[j].node_from_id == id || self.edges[j].node_to_id == id)
    }

    /// Node `n` has an id below the node counter and sits in a declared
    /// layer, with the kind that its layer gives.
    pub open spec fn node_ok(self, n: Node) -> bool {
        &&& n.id < self.next_node_id
        &&& self.declares(n.layer_id)
        &&& n.node_type == node_kind(n.layer_id)
    }

    /// Edge `e` has an id below the edge counter and runs forward between
    /// existing nodes.
    pub open spec fn edge_ok(self, e: Edge) -> bool {
        &&& e.id < self.next_edge_id
        &&& self.forward(e.node_from_id, e.node_to_id)
    }

    pub open spec fn nodes_wf(self) -> bool {
        &&& forall|i: int| 0 <= i < self.nodes.len() ==> self.node_ok(#[trigger] self.nodes[i])
        &&& forall|i: int, j: int| 0 <= i < self.nodes.len() && 0 <= j < self.nodes.len() && i != j
            ==> #[trigger] self.nodes[i].id != #[trigger] self.nodes[j].id
    }

    pub open spec fn edges_wf(self) -> bool {
        &&& forall|k: int| 0 <= k < self.edges.len() ==> self.edge_ok(#[trigger] self.edges[k])
        &&& forall|k: int, l: int| 0 <= k < self.edges.len() && 0 <= l < self.edges.len() && k != l
            ==> #[trigger] self.edges[k].id != #[trigger] self.edges[l].id
    }

    /// The network's invariant: canonical layers, nodes in declared layers
    /// with distinct ids below the node counter, and edges with distinct ids
    /// below the edge counter that run between existing nodes, forward in the
    /// layer order.
    pub open spec fn wf(self) -> bool {
        &&& self.layers_canonical()
        &&& self.nodes_wf()
        &&& self.edges_wf()
        &&& self.next_node_id <= usize::MAX
        &&& self.next_edge_id <= usize::MAX
        &&& self.nodes.len() <= usize::MAX
        &&& self.edges.len() <= usize::MAX
        &&& self.layers.len() <= usize::MAX
    }

    /// No edge references a node that does not exist.
    pub open spec fn no_dangling_edges(self) -> bool {
        forall|k: int| 0 <= k < self.edges.len() ==>
            self.has_node(#[trigger] self.edges[k].node_from_id) && self.has_node(self.edges[k].node_to_id)
    }
}

/// The ids of the nodes of `nodes` that sit in layer `l`, in node order.
pub open spec fn layer_ids(nodes: Seq<Node>, l: LayerID) -> Seq<usize>
    decreases nodes.len(),
{
    if nodes.len() == 0 {
        Seq::empty()
    } else {
        let rest = layer_ids(nodes.drop_last(), l);
        if nodes.last().layer_id == l {
            rest.push(nodes.last().id)
        } else {
            rest
        }
    }
}

/// The node that `Network::create` makes at position `i`: `inputs` input
/// nodes come first, then the output nodes, with ids counting from one.
pub open spec fn initial_node(i: int, inputs: nat, activation_fn: ActivationFn) -> Node {
    let layer_id = if i < inputs { LayerID::InputLayer } else { LayerID::OutputLayer };
    Node {
        node_type: node_kind(layer_id),
        id: (i + 1) as usize,
        layer_id,
        bias: Scalar { bits: 0 },
        activation_fn,
    }
}

/// The edges of `edges` that neither start nor end at node `id`, in order.
pub open spec fn edges_without(edges: Seq<Edge>, id: usize) -> Seq<Edge>
    decreases edges.len(),
{
    if edges.len() == 0 {
        Seq::empty()
    } else {
        let rest = edges_without(edges.drop_last(), id);
        let e = edges.last();
        if e.node_from_id != id && e.node_to_id != id {
            rest.push(e)
        } else {
            rest
        }
    }
}

/// Every edge kept by `edges_without` is one of `edges` and does not touch `id`;
/// the kept ids stay distinct.
pub proof fn lemma_edges_without(edges: Seq<Edge>, id: usize)
    requires
        forall|k: int, l: int| 0 <= k < edges.len() && 0 <= l < edges.len() && k != l
            ==> #[trigger] edges[k].id != #[trigger] edges[l].id,
    ensures
        forall|q: int| 0 <= q < edges_without(edges, id).len() ==> {
            &&& edges.contains(#[trigger] edges_without(edges, id)[q])
            &&& edges_without(edges, id)[q].node_from_id != id
            &&& edges_without(edges, id)[q].node_to_id != id
        },
        forall|k: int, l: int| 0 <= k < edges_without(edges, id).len() && 0 <= l < edges_without(edges, id).len() && k != l
            ==> #[trigger] edges_without(edges, id)[k].id != #[trigger] edges_without(edges, id)[l].id,
    decreases edges.len(),
{
    if edges.len() > 0 {
        let init = edges.drop_last();
        lemma_edges_without(init, id);
        let rest = edges_without(init, id);
        let all = edges_without(edges, id);
        assert forall|q: int| 0 <= q < all.len() implies {
            &&& edges.contains(#[trigger] all[q])
            &&& all[q].node_from_id != id
            &&& all[q].node_to_id != id
        } by {
            if q < rest.len() {
                assert(all[q] == rest[q]);
                let w = choose|w: int| 0 <= w < init.len() && init[w] == rest[q];
                assert(edges[w] == init[w]);
            } else {
                assert(edges[edges.len() - 1] == all[q]);
            }
        }
        assert forall|k: int, l: int| 0 <= k < all.len() && 0 <= l < all.len() && k != l
            implies #[trigger] all[k].id != #[trigger] all[l].id by {
            if k < rest.len() && l < rest.len() {
                assert(all[k] == rest[k] && all[l] == rest[l]);
            } else if k < rest.len() {
                assert(all[k] == rest[k]);
                let w = choose|w: int| 0 <= w < init.len() && init[w] == rest[k];
                assert(edges[w] == init[w]);
                assert(all[l] == edges[edges.len() - 1]);
            } else if l < rest.len() {
                assert(all[l] == rest[l]);
                let w = choose|w: int| 0 <= w < init.len() && init[w] == rest[l];
                assert(edges[w] == init[w]);
                assert(all[k] == edges[edges.len() - 1]);
            }
        }
    }
}

/// The network that `Network::create` makes.
pub open spec fn initial_view(input_ct: nat, output_ct: nat, activation_fn: ActivationFn) -> NetworkView {
    NetworkView {
        nodes: Seq::new(input_ct + output_ct, |i: int| initial_node(i, input_ct, activation_fn)),
        edges: Seq::empty(),
        layers: seq![LayerID::InputLayer, LayerID::OutputLayer],
        activation_fn,
        next_node_id: input_ct + output_ct + 1,
        next_edge_id: 1,
    }
}

/// The network made of the given parts.
pub open spec fn parts_view(
    nodes: Seq<Node>,
    edges: Seq<Edge>,
    layers: Seq<LayerID>,
    activation_fn: ActivationFn,
    next_node_id: nat,
    next_edge_id: nat,
) -> NetworkView {
    NetworkView { nodes, edges, layers, activation_fn, next_node_id, next_edge_id }
}

/// A neural network. Interact with this struct to create and modify your network.
pub struct Network {
    pub(crate) nodes: Vec<Node>,
    pub(crate) edges: Vec<Edge>,
    pub(crate) layers: Vec<LayerID>,
    pub(crate) activation_fn: ActivationFn,
    pub(crate) next_node_id: usize,
    pub(crate) next_edge_id: usize,
}

impl View for Network {
    type V = NetworkView;

    closed spec fn view(&self) -> NetworkView {
        NetworkView {
            nodes: self.nodes@,
            edges: self.edges@,
            layers: self.layers@,
            activation_fn: self.activation_fn,
            next_node_id: self.next_node_id as nat,
            next_edge_id: self.next_edge_id as nat,
        }
    }
}

/// Growing the node list keeps every edge's endpoints and their order.
proof fn lemma_forward_extend(a: NetworkView, b: NetworkView, from: usize, to: usize)
    requires
        a.forward(from, to),
        b.nodes.len() >= a.nodes.len(),
        forall|i: int| 0 <= i < a.nodes.len() ==> b.nodes[i] == a.nodes[i],
    ensures
        b.forward(from, to),
{
    let (i, j) = choose|i: int, j: int|
        #[trigger] a.node_at(i, from) && #[trigger] a.node_at(j, to)
            && layer_lt(a.nodes[i].layer_id, a.nodes[j].layer_id);
    assert(b.node_at(i, from) && b.node_at(j, to));
}

/// Two nodes agree on id, layer and kind.
spec fn same_place(x: Node, y: Node) -> bool {
    x.id == y.id && x.layer_id == y.layer_id && x.node_type == y.node_type
}

/// Nodes that keep their positions, ids and layers keep every edge forward.
proof fn lemma_forward_same_skeleton(a: NetworkView, b: NetworkView, from: usize, to: usize)
    requires
        a.forward(from, to),
        b.nodes.len() == a.nodes.len(),
        forall|i: int| 0 <= i < a.nodes.len() ==> #[trigger] same_place(b.nodes[i], a.nodes[i]),
    ensures
        b.forward(from, to),
{
    let (i, j) = choose|i: int, j: int|
        #[trigger] a.node_at(i, from) && #[trigger] a.node_at(j, to)
            && layer_lt(a.nodes[i].layer_id, a.nodes[j].layer_id);
    assert(same_place(b.nodes[i], a.nodes[i]));
    assert(same_place(b.nodes[j], a.nodes[j]));
    assert(b.node_at(i, from) && b.node_at(j, to));
}

/// Changing a node's bias or activation function keeps the invariant.
proof fn lemma_wf_same_skeleton(a: NetworkView, b: NetworkView)
    requires
        a.wf(),
        b.nodes.len() == a.nodes.len(),
        forall|i: int| 0 <= i < a.nodes.len() ==> #[trigger] same_place(b.nodes[i], a.nodes[i]),
        b.edges == a.edges,
        b.layers == a.layers,
        b.next_node_id == a.next_node_id,
        b.next_edge_id == a.next_edge_id,
    ensures
        b.wf(),
{
    assert forall|i: int| 0 <= i < b.nodes.len() implies b.node_ok(#[trigger] b.nodes[i]) by {
        assert(a.node_ok(a.nodes[i]));
        assert(same_place(b.nodes[i], a.nodes[i]));
    }
    assert forall|i: int, j: int| 0 <= i < b.nodes.len() && 0 <= j < b.nodes.len() && i != j
        implies #[trigger] b.nodes[i].id != #[trigger] b.nodes[j].id by {
        assert(same_place(b.nodes[i], a.nodes[i]) && same_place(b.nodes[j], a.nodes[j]));
    }
    assert forall|k: int| 0 <= k < b.edges.len() implies b.edge_ok(#[trigger] b.edges[k]) by {
        assert(a.edge_ok(a.edges[k]));
        lemma_forward_same_skeleton(a, b, b.edges[k].node_from_id, b.edges[k].node_to_id);
    }
}

/// In a well-formed network no two nodes run forward of each other: an edge
/// and its reverse cannot both respect the layer order.
pub proof fn lemma_forward_antisymmetric(net: NetworkView, a: usize, b: usize)
    requires
        net.wf(),
        net.forward(a, b),
    ensures
        !net.forward(b, a),
{
    let (i, j) = choose|i: int, j: int|
        #[trigger] net.node_at(i, a) && #[trigger] net.node_at(j, b) && layer_lt(net.nodes[i].layer_id, net.nodes[j].layer_id);
    if net.forward(b, a) {
        let (x, y) = choose|x: int, y: int|
            #[trigger] net.node_at(x, b) && #[trigger] net.node_at(y, a) && layer_lt(net.nodes[x].layer_id, net.nodes[y].layer_id);
        assert(x == j && y == i);
    }
}

/// Edge creation respects the layer order: an edge it accepts runs from an
/// earlier layer to a strictly later one, and afterwards creating the
/// reverse edge is refused with the edges unchanged.
pub proof fn lemma_edge_creation_order(
    old: Network,
    new: Network,
    from: usize,
    to: usize,
    weight: Scalar,
    r: Result<usize, NetworkError>,
    after: Network,
    reverse_weight: Scalar,
    r2: Result<usize, NetworkError>,
)
    requires
        old.wf(),
        new.wf(),
        Network::edge_created(old, new, from, to, weight, r),
        r is Ok,
        Network::edge_created(new, after, to, from, reverse_weight, r2),
    ensures
        new@.forward(from, to),
        r2 == Err::<usize, NetworkError>(NetworkError::LayerOrder),
        after@.edges == new@.edges,
{
    let o = old@;
    let n = new@;
    let (i, j) = choose|i: int, j: int|
        #[trigger] o.node_at(i, from) && #[trigger] o.node_at(j, to) && layer_lt(o.nodes[i].layer_id, o.nodes[j].layer_id);
    assert(n.node_at(i, from) && n.node_at(j, to));
    lemma_forward_antisymmetric(n, from, to);
}

/// Removing a node leaves no edge that references it, and no node with its id.
pub proof fn lemma_removal_leaves_no_dangling_edge(old: Network, new: Network, i: int)
    requires
        old.wf(),
        new.wf(),
        0 <= i < old@.nodes.len(),
        new@.nodes == old@.nodes.remove(i),
        new@.edges == edges_without(old@.edges, old@.nodes[i].id),
    ensures
        !new@.touches(old@.nodes[i].id),
        !new@.has_node(old@.nodes[i].id),
        new@.no_dangling_edges(),
{
    let o = old@;
    let n = new@;
    let id = o.nodes[i].id;
    lemma_edges_without(o.edges, id);
    if n.has_node(id) {
        let q = choose|q: int| #[trigger] n.node_at(q, id);
        let w = if q < i { q } else { q + 1 };
        assert(n.nodes[q] == o.nodes[w]);
    }
    assert forall|k: int| 0 <= k < n.edges.len() implies n.has_node(#[trigger] n.edges[k].node_from_id) && n.has_node(n.edges[k].node_to_id) by {
        assert(n.edge_ok(n.edges[k]));
        let (a, b) = choose|a: int, b: int|
            #[trigger] n.node_at(a, n.edges[k].node_from_id) && #[trigger] n.node_at(b, n.edges[k].node_to_id)
                && layer_lt(n.nodes[a].layer_id, n.nodes[b].layer_id);
    }
}

/// Rebuilding a well-formed network from its own parts gives it back: the
/// parts are accepted and form the same network, so every pass over the
/// rebuilt network follows the same schedule.
pub proof fn lemma_parts_round_trip(net: Network, r: Result<Network, NetworkError>)
    requires
        net.wf(),
        Network::rebuilt(net@.nodes, net@.edges, net@.layers, net@.activation_fn, net@.next_node_id, net@.next_edge_id, r),
    ensures
        r is Ok,
        r->Ok_0@ == net@,
        propagation_steps(r->Ok_0@) == propagation_steps(net@),
{
}

impl Network {
    /// The network's invariant.
    pub open spec fn wf(&self) -> bool {
        self@.wf()
    }

    /// `r` is what creating a node in `layer_id` with `bias` and `activation_fn`
    /// gives, and `new` the network afterwards: the layer must be declared and
    /// the node counter must have a fresh id; the new node gets that id, its
    /// kind follows its layer, and nothing else changes.
    pub open spec fn node_created(
        old: Network,
        new: Network,
        layer_id: LayerID,
        bias: Scalar,
        activation_fn: ActivationFn,
        r: Result<usize, NetworkError>,
    ) -> bool {
        let o = old@;
        let n = new@;
        &&& r is Ok <==> (o.declares(layer_id) && o.next_node_id < usize::MAX)
        &&& r == Err::<usize, NetworkError>(NetworkError::UnknownLayer) <==> !o.declares(layer_id)
        &&& r == Err::<usize, NetworkError>(NetworkError::IdsExhausted) <==> (o.declares(layer_id) && o.next_node_id == usize::MAX)
        &&& r is Err ==> n == o
        &&& r is Ok ==> {
            &&& r->Ok_0 == o.next_node_id
            &&& n.nodes == o.nodes.push(
                Node {
                    node_type: node_kind(layer_id),
                    id: r->Ok_0,
                    layer_id,
                    bias,
                    activation_fn,
                },
            )
            &&& n.edges == o.edges
            &&& n.layers == o.layers
            &&& n.activation_fn == o.activation_fn
            &&& n.next_node_id == o.next_node_id + 1
            &&& n.next_edge_id == o.next_edge_id
        }
    }

    /// `r` is what creating an edge from `from` to `to` with `weight` gives, and
    /// `new` the network afterwards: both nodes must exist, `to`'s layer must
    /// come after `from`'s, and the edge counter must have a fresh id; the new
    /// edge gets that id and nothing else changes.
    pub open spec fn edge_created(
        old: Network,
        new: Network,
        from: usize,
        to: usize,
        weight: Scalar,
        r: Result<usize, NetworkError>,
    ) -> bool {
        let o = old@;
        let n = new@;
        &&& r is Ok <==> (o.forward(from, to) && o.next_edge_id < usize::MAX)
        &&& r == Err::<usize, NetworkError>(NetworkError::UnknownNode) <==> !(o.has_node(from) && o.has_node(to))
        &&& r == Err::<usize, NetworkError>(NetworkError::LayerOrder) <==> (o.has_node(from) && o.has_node(to) && !o.forward(from, to))
        &&& r == Err::<usize, NetworkError>(NetworkError::IdsExhausted) <==> (o.forward(from, to) && o.next_edge_id == usize::MAX)
        &&& r is Err ==> n == o
        &&& r is Ok ==> {
            &&& r->Ok_0 == o.next_edge_id
            &&& n.edges == o.edges.push(Edge { id: r->Ok_0, weight, node_from_id: from, node_to_id: to })
            &&& n.nodes == o.nodes
            &&& n.layers == o.layers
            &&& n.activation_fn == o.activation_fn
            &&& n.next_node_id == o.next_node_id
            &&& n.next_edge_id == o.next_edge_id + 1
        }
    }

    /// `r` is what rebuilding a network from the given parts gives: the parts
    /// are accepted exactly when they form a well-formed network, which is
    /// then the result.
    pub open spec fn rebuilt(
        nodes: Seq<Node>,
        edges: Seq<Edge>,
        layers: Seq<LayerID>,
        activation_fn: ActivationFn,
        next_node_id: nat,
        next_edge_id: nat,
        r: Result<Network, NetworkError>,
    ) -> bool {
        let v = parts_view(nodes, edges, layers, activation_fn, next_node_id, next_edge_id);
        &&& r is Ok <==> v.wf()
        &&& r is Err ==> r == Err::<Network, NetworkError>(NetworkError::Malformed)
        &&& r matches Ok(n) ==> n@ == v
    }

    /// The activation function given to nodes created without one.
    pub fn default_activation_fn(&self) -> (r: ActivationFn)
        ensures
            r == self@.activation_fn,
    {
        self.activation_fn
    }

    /// Whether layer `layer_id` is declared in this network.
    pub fn declares(&self, layer_id: LayerID) -> (r: bool)
        requires
            self.wf(),
        ensures
            r == self@.declares(layer_id),
    {
        match layer_id {
            LayerID::HiddenLayer(h) => h < self.layers.len() - 2,
            _ => true,
        }
    }

    /// The index of the node with id `node_id`, if there is one.
    pub fn find_node(&self, node_id: usize) -> (r: Option<usize>)
        ensures
            r matches Some(i) ==> self@.node_at(i as int, node_id),
            r is None ==> !self@.has_node(node_id),
    {
        let mut i: usize = 0;
        while i < self.nodes.len()
            invariant
                i <= self.nodes@.len(),
                forall|k: int| 0 <= k < i ==> self.nodes@[k].id != node_id,
            decreases self.nodes@.len() - i,
        {
            if self.nodes[i].id == node_id {
                return Some(i);
            }
            i = i + 1;
        }
        proof {
            assert forall|k: int| !(#[trigger] self@.node_at(k, node_id)) by {}
        }
        None
    }

    pub(crate) fn insert_node(&mut self, layer_id: LayerID, bias: Scalar, activation_fn: ActivationFn) -> (r: Result<usize, NetworkError>)
        requires
            old(self).wf(),
        ensures
            final(self).wf(),
            Self::node_created(*old(self), *final(self), layer_id, bias, activation_fn, r),
    {
        if !self.declares(layer_id) {
            return Err(NetworkError::UnknownLayer);
        }
        if self.next_node_id == usize::MAX {
            return Err(NetworkError::IdsExhausted);
        }
        let id = self.next_node_id;
        let node = Node { node_type: kind_of_layer(layer_id), id, layer_id, bias, activation_fn };
        let ghost o = self@;
        self.nodes.push(node);
        self.next_node_id = id + 1;
        proof {
            assert(self.nodes.len() == self.nodes@.len());
            let n = self@;
            assert(o.wf());
            assert(n.edges == o.edges);
            assert forall|i: int| 0 <= i < n.nodes.len() implies n.node_ok(#[trigger] n.nodes[i]) by {
                if i < o.nodes.len() {
                    assert(n.nodes[i] == o.nodes[i]);
                    assert(o.node_ok(o.nodes[i]));
                }
            }
            assert forall|i: int, j: int| 0 <= i < n.nodes.len() && 0 <= j < n.nodes.len() && i != j
                implies #[trigger] n.nodes[i].id != #[trigger] n.nodes[j].id by {
                if i < o.nodes.len() {
                    assert(n.nodes[i] == o.nodes[i]);
                    assert(o.nodes[i].id < o.next_node_id);
                }
                if j < o.nodes.len() {
                    assert(n.nodes[j] == o.nodes[j]);
                    assert(o.nodes[j].id < o.next_node_id);
                }
            }
            assert forall|k: int| 0 <= k < n.edges.len() implies n.edge_ok(#[trigger] n.edges[k]) by {
                assert(o.edge_ok(o.edges[k]));
                lemma_forward_extend(o, n, n.edges[k].node_from_id, n.edges[k].node_to_id);
            }
        }
        Ok(id)
    }

    pub(crate) fn insert_edge(&mut self, from: usize, to: usize, weight: Scalar) -> (r: Result<usize, NetworkError>)
        requires
            old(self).wf(),
        ensures
            final(self).wf(),
            Self::edge_created(*old(self), *final(self), from, to, weight, r),
    {
        let i = match self.find_node(from) {
            Some(i) => i,
            None => {
                return Err(NetworkError::UnknownNode);
            },
        };
        let j = match self.find_node(to) {
            Some(j) => j,
            None => {
                return Err(NetworkError::UnknownNode);
            },
        };
        if !self.nodes[i].layer_id.precedes(&self.nodes[j].layer_id) {
            proof {
                assert forall|a: int, b: int| #[trigger] self@.node_at(a, from) && #[trigger] self@.node_at(b, to)
                    implies !layer_lt(self@.nodes[a].layer_id, self@.nodes[b].layer_id) by {
                    assert(a == i as int);
                    assert(b == j as int);
                }
            }
            return Err(NetworkError::LayerOrder);
        }
        assert(self@.node_at(i as int, from) && self@.node_at(j as int, to));
        if self.next_edge_id == usize::MAX {
            return Err(NetworkError::IdsExhausted);
        }
        let id = self.next_edge_id;
        let ghost o = self@;
        self.edges.push(Edge { id, weight, node_from_id: from, node_to_id: to });
        self.next_edge_id = id + 1;
        proof {
            assert(self.edges.len() == self.edges@.len());
            let n = self@;
            assert(o.wf());
            assert(n.nodes == o.nodes);
            assert forall|i: int| 0 <= i < n.nodes.len() implies n.node_ok(#[trigger] n.nodes[i]) by {
                assert(o.node_ok(o.nodes[i]));
            }
            assert forall|k: int| 0 <= k < n.edges.len() implies n.edge_ok(#[trigger] n.edges[k]) by {
                if k < o.edges.len() {
                    assert(n.edges[k] == o.edges[k]);
                    assert(o.edge_ok(o.edges[k]));
                    lemma_forward_extend(o, n, n.edges[k].node_from_id, n.edges[k].node_to_id);
                } else {
                    assert(n.node_at(i as int, from) && n.node_at(j as int, to));
                }
            }
            assert forall|k: int, l: int| 0 <= k < n.edges.len() && 0 <= l < n.edges.len() && k != l
                implies #[trigger] n.edges[k].id != #[trigger] n.edges[l].id by {
                if k < o.edges.len() {
                    assert(o.edge_ok(o.edges[k]));
                }
                if l < o.edges.len() {
                    assert(o.edge_ok(o.edges[l]));
                }
            }
        }
        Ok(id)
    }

    /// Adds the next hidden layer: one past the highest hidden ordinal, or
    /// `0` when there is none.
    pub fn add_layer(&mut self) -> (r: LayerID)
        requires
            old(self).wf(),
        ensures
            final(self).wf(),
            r == LayerID::HiddenLayer(old(self)@.hidden_count() as usize),
            !old(self)@.declares(r),
            final(self)@ == (NetworkView { layers: old(self)@.layers.push(r), ..old(self)@ }),
    {
        let ghost o = self@;
        let h = self.layers.len() - 2;
        let layer = LayerID::HiddenLayer(h);
        self.layers.push(layer);
        proof {
            assert(self.layers.len() == self.layers@.len());
            let n = self@;
            assert(o.wf());
            assert(n.nodes == o.nodes && n.edges == o.edges);
            assert forall|i: int| 2 <= i < n.layers.len() implies #[trigger] n.layers[i] == LayerID::HiddenLayer((i - 2) as usize) by {
                if i < o.layers.len() {
                    assert(n.layers[i] == o.layers[i]);
                }
            }
            assert forall|i: int| 0 <= i < n.nodes.len() implies n.node_ok(#[trigger] n.nodes[i]) by {
                assert(o.node_ok(o.nodes[i]));
            }
            assert forall|k: int| 0 <= k < n.edges.len() implies n.edge_ok(#[trigger] n.edges[k]) by {
                assert(o.edge_ok(o.edges[k]));
                lemma_forward_extend(o, n, n.edges[k].node_from_id, n.edges[k].node_to_id);
            }
        }
        layer
    }
    /// Creates a network with only the input and output layers and no nodes.
    pub fn empty(activation_fn: ActivationFn) -> (r: Network)
        ensures
            r.wf(),
            r@.nodes == Seq::<Node>::empty(),
            r@.edges == Seq::<Edge>::empty(),
            r@.layers == seq![LayerID::InputLayer, LayerID::OutputLayer],
            r@.activation_fn == activation_fn,
            r@.next_node_id == 1,
            r@.next_edge_id == 1,
    {
        let mut layers: Vec<LayerID> = Vec::new();
        layers.push(LayerID::InputLayer);
        layers.push(LayerID::OutputLayer);
        let r = Network {
            nodes: Vec::new(),
            edges: Vec::new(),
            layers,
            activation_fn,
            next_node_id: 1,
            next_edge_id: 1,
        };
        assert(r@.layers =~= seq![LayerID::InputLayer, LayerID::OutputLayer]);
        r
    }

    /// Creates a network with `input_ct` input nodes and `output_ct` output
    /// nodes, all with zero bias and the default activation function, and no
    /// hidden layers or edges. Fails only when the ids would run out.
    pub fn create(input_ct: usize, output_ct: usize, activation_fn: ActivationFn) -> (r: Result<Network, NetworkError>)
        ensures
            r is Ok <==> input_ct + output_ct < usize::MAX,
            r is Err ==> r == Err::<Network, NetworkError>(NetworkError::IdsExhausted),
            r matches Ok(n) ==> n.wf() && n@ == initial_view(input_ct as nat, output_ct as nat, activation_fn),
    {
        if input_ct >= usize::MAX - output_ct {
            return Err(NetworkError::IdsExhausted);
        }
        let mut network = Network::empty(activation_fn);
        let mut i: usize = 0;
        while i < input_ct + output_ct
            invariant
                input_ct + output_ct < usize::MAX,
                i <= input_ct + output_ct,
                network.wf(),
                network@.nodes.len() == i,
                forall|k: int| 0 <= k < i ==> #[trigger] network@.nodes[k] == initial_node(k, input_ct as nat, activation_fn),
                network@.edges == Seq::<Edge>::empty(),
                network@.layers == seq![LayerID::InputLayer, LayerID::OutputLayer],
                network@.activation_fn == activation_fn,
                network@.next_node_id == i + 1,
                network@.next_edge_id == 1,
            decreases input_ct + output_ct - i,
        {
            let layer_id = if i < input_ct { LayerID::InputLayer } else { LayerID::OutputLayer };
            let ghost before = network@.nodes;
            match network.insert_node(layer_id, Scalar::zero(), activation_fn) {
                Ok(_) => {},
                Err(e) => {
                    return Err(e);
                },
            }
            assert forall|k: int| 0 <= k < i + 1 implies #[trigger] network@.nodes[k] == initial_node(k, input_ct as nat, activation_fn) by {
                if k < i {
                    assert(network@.nodes[k] == before[k]);
                }
            }
            i = i + 1;
        }
        assert(network@.nodes =~= initial_view(input_ct as nat, output_ct as nat, activation_fn).nodes);
        Ok(network)
    }

    /// The ids of the nodes in layer `layer_id`, in node order.
    pub fn layer_node_ids(&self, layer_id: LayerID) -> (r: Vec<usize>)
        ensures
            r@ == layer_ids(self@.nodes, layer_id),
    {
        let mut r: Vec<usize> = Vec::new();
        let mut i: usize = 0;
        while i < self.nodes.len()
            invariant
                i <= self.nodes@.len(),
                r@ == layer_ids(self.nodes@.subrange(0, i as int), layer_id),
            decreases self.nodes@.len() - i,
        {
            proof {
                assert(self.nodes@.subrange(0, i + 1).drop_last() =~= self.nodes@.subrange(0, i as int));
            }
            if self.nodes[i].layer_id == layer_id {
                r.push(self.nodes[i].id);
            }
            i = i + 1;
        }
        assert(self.nodes@.subrange(0, i as int) =~= self.nodes@);
        r
    }

    /// The ids of the nodes in layer `layer_id`, in node order, or `None`
    /// when the layer is not declared.
    pub fn get_layer(&self, layer_id: LayerID) -> (r: Option<Vec<usize>>)
        requires
            self.wf(),
        ensures
            r is None <==> !self@.declares(layer_id),
            r matches Some(ids) ==> ids@ == layer_ids(self@.nodes, layer_id),
    {
        if self.declares(layer_id) {
            Some(self.layer_node_ids(layer_id))
        } else {
            None
        }
    }

    /// The position of the edge with id `edge_id`, if there is one.
    pub fn find_edge(&self, edge_id: usize) -> (r: Option<usize>)
        ensures
            r matches Some(k) ==> k < self@.edges.len() && self@.edges[k as int].id == edge_id,
            r is None ==> forall|k: int| 0 <= k < self@.edges.len() ==> #[trigger] self@.edges[k].id != edge_id,
    {
        let mut k: usize = 0;
        while k < self.edges.len()
            invariant
                k <= self@.edges.len(),
                forall|q: int| 0 <= q < k ==> #[trigger] self@.edges[q].id != edge_id,
            decreases self@.edges.len() - k,
        {
            if self.edges[k].id == edge_id {
                return Some(k);
            }
            k = k + 1;
        }
        None
    }

    /// The ids of all the input nodes, in node order.
    pub fn input_node_ids(&self) -> (r: Vec<usize>)
        ensures
            r@ == layer_ids(self@.nodes, LayerID::InputLayer),
    {
        self.layer_node_ids(LayerID::InputLayer)
    }

    /// The ids of all the output nodes, in node order.
    pub fn output_node_ids(&self) -> (r: Vec<usize>)
        ensures
            r@ == layer_ids(self@.nodes, LayerID::OutputLayer),
    {
        self.layer_node_ids(LayerID::OutputLayer)
    }

    /// The network's nodes, in creation order.
    pub fn nodes(&self) -> (r: &Vec<Node>)
        ensures
            r@ == self@.nodes,
    {
        &self.nodes
    }

    /// The network's edges, in creation order.
    pub fn edges(&self) -> (r: &Vec<Edge>)
        ensures
            r@ == self@.edges,
    {
        &self.edges
    }

    /// The declared layers: input, output, then the hidden layers in order.
    pub fn layers(&self) -> (r: &Vec<LayerID>)
        ensures
            r@ == self@.layers,
    {
        &self.layers
    }

    /// The id the next created node gets.
    pub fn next_node_id(&self) -> (r: usize)
        ensures
            r == self@.next_node_id,
    {
        self.next_node_id
    }

    /// The id the next created edge gets.
    pub fn next_edge_id(&self) -> (r: usize)
        ensures
            r == self@.next_edge_id,
    {
        self.next_edge_id
    }
    /// Sets the weight of the edge at position `k`.
    pub fn set_edge_weight(&mut self, k: usize, weight: Scalar)
        requires
            old(self).wf(),
            k < old(self)@.edges.len(),
        ensures
            final(self).wf(),
            final(self)@ == (NetworkView {
                edges: old(self)@.edges.update(k as int, Edge { weight, ..old(self)@.edges[k as int] }),
                ..old(self)@
            }),
    {
        let ghost o = self@;
        let mut e = self.edges[k];
        e.weight = weight;
        self.edges.set(k, e);
        proof {
            let n = self@;
            assert forall|q: int| 0 <= q < n.edges.len() implies n.edge_ok(#[trigger] n.edges[q]) by {
                assert(o.edge_ok(o.edges[q]));
                lemma_forward_extend(o, n, n.edges[q].node_from_id, n.edges[q].node_to_id);
            }
            assert forall|q: int, l: int| 0 <= q < n.edges.len() && 0 <= l < n.edges.len() && q != l
                implies #[trigger] n.edges[q].id != #[trigger] n.edges[l].id by {
                assert(n.edges[q].id == o.edges[q].id && n.edges[l].id == o.edges[l].id);
            }
        }
    }

    /// Removes the edge at position `k`.
    pub fn remove_edge_at(&mut self, k: usize)
        requires
            old(self).wf(),
            k < old(self)@.edges.len(),
        ensures
            final(self).wf(),
            final(self)@ == (NetworkView { edges: old(self)@.edges.remove(k as int), ..old(self)@ }),
    {
        let ghost o = self@;
        self.edges.remove(k);
        proof {
            let n = self@;
            assert forall|q: int| 0 <= q < n.edges.len() implies n.edges[q] == o.edges[if q < k { q } else { q + 1 }] by {}
            assert forall|q: int| 0 <= q < n.edges.len() implies n.edge_ok(#[trigger] n.edges[q]) by {
                let w = if q < k { q } else { q + 1 };
                assert(o.edge_ok(o.edges[w]));
                lemma_forward_extend(o, n, n.edges[q].node_from_id, n.edges[q].node_to_id);
            }
            assert forall|q: int, l: int| 0 <= q < n.edges.len() && 0 <= l < n.edges.len() && q != l
                implies #[trigger] n.edges[q].id != #[trigger] n.edges[l].id by {
                let wq = if q < k { q } else { q + 1 };
                let wl = if l < k { l } else { l + 1 };
                assert(n.edges[q] == o.edges[wq] && n.edges[l] == o.edges[wl]);
            }
        }
    }

    /// Sets the bias of the node at position `i`.
    pub fn set_node_bias(&mut self, i: usize, bias: Scalar)
        requires
            old(self).wf(),
            i < old(self)@.nodes.len(),
        ensures
            final(self).wf(),
            final(self)@ == (NetworkView {
                nodes: old(self)@.nodes.update(i as int, Node { bias, ..old(self)@.nodes[i as int] }),
                ..old(self)@
            }),
    {
        let ghost o = self@;
        let mut node = self.nodes[i];
        node.bias = bias;
        self.nodes.set(i, node);
        proof {
            assert forall|q: int| 0 <= q < o.nodes.len() implies #[trigger] same_place(self@.nodes[q], o.nodes[q]) by {}
            lemma_wf_same_skeleton(o, self@);
        }
    }

    /// Sets the activation function of the node at position `i`.
    pub fn set_node_activation_fn(&mut self, i: usize, activation_fn: ActivationFn)
        requires
            old(self).wf(),
            i < old(self)@.nodes.len(),
        ensures
            final(self).wf(),
            final(self)@ == (NetworkView {
                nodes: old(self)@.nodes.update(i as int, Node { activation_fn, ..old(self)@.nodes[i as int] }),
                ..old(self)@
            }),
    {
        let ghost o = self@;
        let mut node = self.nodes[i];
        node.activation_fn = activation_fn;
        self.nodes.set(i, node);
        proof {
            assert forall|q: int| 0 <= q < o.nodes.len() implies #[trigger] same_place(self@.nodes[q], o.nodes[q]) by {}
            lemma_wf_same_skeleton(o, self@);
        }
    }

    /// Removes the node at position `i` together with every edge that starts
    /// or ends at it.
    pub fn remove_node_at(&mut self, i: usize)
        requires
            old(self).wf(),
            i < old(self)@.nodes.len(),
        ensures
            final(self).wf(),
            final(self)@ == (NetworkView {
                nodes: old(self)@.nodes.remove(i as int),
                edges: edges_without(old(self)@.edges, old(self)@.nodes[i as int].id),
                ..old(self)@
            }),
    {
        let ghost o = self@;
        let id = self.nodes[i].id;
        let mut kept: Vec<Edge> = Vec::new();
        let mut j: usize = 0;
        while j < self.edges.len()
            invariant
                self@ == o,
                j <= o.edges.len(),
                kept@ == edges_without(o.edges.subrange(0, j as int), id),
            decreases o.edges.len() - j,
        {
            proof {
                assert(o.edges.subrange(0, j + 1).drop_last() =~= o.edges.subrange(0, j as int));
            }
            let e = self.edges[j];
            if e.node_from_id != id && e.node_to_id != id {
                kept.push(e);
            }
            j = j + 1;
        }
        assert(o.edges.subrange(0, j as int) =~= o.edges);
        self.edges = kept;
        self.nodes.remove(i);
        proof {
            assert(self.edges.len() == self.edges@.len());
            let n = self@;
            lemma_edges_without(o.edges, id);
            assert forall|q: int| 0 <= q < n.nodes.len() implies n.nodes[q] == o.nodes[if q < i { q } else { q + 1 }] by {}
            assert forall|q: int| 0 <= q < n.nodes.len() implies n.node_ok(#[trigger] n.nodes[q]) by {
                let w = if q < i { q } else { q + 1 };
                assert(o.node_ok(o.nodes[w]));
            }
            assert forall|q: int, l: int| 0 <= q < n.nodes.len() && 0 <= l < n.nodes.len() && q != l
                implies #[trigger] n.nodes[q].id != #[trigger] n.nodes[l].id by {
                let wq = if q < i { q } else { q + 1 };
                let wl = if l < i { l } else { l + 1 };
                assert(n.nodes[q] == o.nodes[wq] && n.nodes[l] == o.nodes[wl]);
            }
            assert forall|k: int| 0 <= k < n.edges.len() implies n.edge_ok(#[trigger] n.edges[k]) by {
                let e = n.edges[k];
                assert(o.edges.contains(e));
                let w = choose|w: int| 0 <= w < o.edges.len() && o.edges[w] == e;
                assert(o.edge_ok(o.edges[w]));
                let (a, b) = choose|a: int, b: int|
                    #[trigger] o.node_at(a, e.node_from_id) && #[trigger] o.node_at(b, e.node_to_id)
                        && layer_lt(o.nodes[a].layer_id, o.nodes[b].layer_id);
                assert(a != i && b != i);
                let a2 = if a < i { a } else { a - 1 };
                let b2 = if b < i { b } else { b - 1 };
                assert(n.nodes[a2] == o.nodes[a]);
                assert(n.nodes[b2] == o.nodes[b]);
                assert(n.node_at(a2, e.node_from_id) && n.node_at(b2, e.node_to_id));
            }
        }
    }

    /// Whether an edge runs from node `from` to node `to`.
    pub fn has_edge_between(&self, from: usize, to: usize) -> (r: bool)
        ensures
            r == exists|k: int| 0 <= k < self@.edges.len() && #[trigger] self@.edges[k].node_from_id == from && self@.edges[k].node_to_id == to,
    {
        let mut k: usize = 0;
        while k < self.edges.len()
            invariant
                k <= self@.edges.len(),
                forall|q: int| 0 <= q < k ==> !(#[trigger] self@.edges[q].node_from_id == from && self@.edges[q].node_to_id == to),
            decreases self@.edges.len() - k,
        {
            if self.edges[k].node_from_id == from && self.edges[k].node_to_id == to {
                return true;
            }
            k = k + 1;
        }
        false
    }
    /// A copy of this network.
    pub fn duplicate(&self) -> (r: Network)
        ensures
            r@ == self@,
    {
        let mut nodes: Vec<Node> = Vec::new();
        let mut i: usize = 0;
        while i < self.nodes.len()
            invariant
                i <= self.nodes@.len(),
                nodes@ == self.nodes@.subrange(0, i as int),
            decreases self.nodes@.len() - i,
        {
            nodes.push(self.nodes[i]);
            assert(nodes@ =~= self.nodes@.subrange(0, i + 1));
            i = i + 1;
        }
        let mut edges: Vec<Edge> = Vec::new();
        let mut k: usize = 0;
        while k < self.edges.len()
            invariant
                k <= self.edges@.len(),
                edges@ == self.edges@.subrange(0, k as int),
            decreases self.edges@.len() - k,
        {
            edges.push(self.edges[k]);
            assert(edges@ =~= self.edges@.subrange(0, k + 1));
            k = k + 1;
        }
        let mut layers: Vec<LayerID> = Vec::new();
        let mut l: usize = 0;
        while l < self.layers.len()
            invariant
                l <= self.layers@.len(),
                layers@ == self.layers@.subrange(0, l as int),
            decreases self.layers@.len() - l,
        {
            layers.push(self.layers[l]);
            assert(layers@ =~= self.layers@.subrange(0, l + 1));
            l = l + 1;
        }
        assert(nodes@ =~= self.nodes@);
        assert(edges@ =~= self.edges@);
        assert(layers@ =~= self.layers@);
        Network {
            nodes,
            edges,
            layers,
            activation_fn: self.activation_fn,
            next_node_id: self.next_node_id,
            next_edge_id: self.next_edge_id,
        }
    }
    /// Whether the network is well formed.
    fn is_well_formed(&self) -> (r: bool)
        ensures
            r == self@.wf(),
    {
        let n_layers = self.layers.len();
        if n_layers < 2 {
            return false;
        }
        if self.layers[0] != LayerID::InputLayer || self.layers[1] != LayerID::OutputLayer {
            return false;
        }
        let mut l: usize = 2;
        while l < n_layers
            invariant
                n_layers == self@.layers.len(),
                2 <= l <= n_layers,
                forall|q: int| 2 <= q < l ==> #[trigger] self@.layers[q] == LayerID::HiddenLayer((q - 2) as usize),
            decreases n_layers - l,
        {
            if self.layers[l] != LayerID::HiddenLayer(l - 2) {
                return false;
            }
            l = l + 1;
        }
        let n = self.nodes.len();
        let mut i: usize = 0;
        while i < n
            invariant
                n == self@.nodes.len(),
                n_layers == self@.layers.len(),
                n_layers >= 2,
                i <= n,
                forall|q: int| 0 <= q < i ==> self@.node_ok(#[trigger] self@.nodes[q]),
                forall|a: int, b: int| 0 <= a < i && 0 <= b < i && a != b ==> #[trigger] self@.nodes[a].id != #[trigger] self@.nodes[b].id,
            decreases n - i,
        {
            let node = self.nodes[i];
            if node.id >= self.next_node_id {
                return false;
            }
            let declared = match node.layer_id {
                LayerID::HiddenLayer(h) => h < n_layers - 2,
                _ => true,
            };
            if !declared || node.node_type != kind_of_layer(node.layer_id) {
                return false;
            }
            let mut j: usize = 0;
            while j < i
                invariant
                    n == self@.nodes.len(),
                    j <= i < n,
                    node == self@.nodes[i as int],
                    forall|b: int| 0 <= b < j ==> self@.nodes[b].id != node.id,
                decreases i - j,
            {
                if self.nodes[j].id == node.id {
                    return false;
                }
                j = j + 1;
            }
            i = i + 1;
        }
        let m = self.edges.len();
        let mut k: usize = 0;
        while k < m
            invariant
                m == self@.edges.len(),
                self@.layers_canonical(),
                self@.nodes_wf(),
                k <= m,
                forall|q: int| 0 <= q < k ==> self@.edge_ok(#[trigger] self@.edges[q]),
                forall|a: int, b: int| 0 <= a < k && 0 <= b < k && a != b ==> #[trigger] self@.edges[a].id != #[trigger] self@.edges[b].id,
            decreases m - k,
        {
            let e = self.edges[k];
            if e.id >= self.next_edge_id {
                return false;
            }
            let a = match self.find_node(e.node_from_id) {
                Some(a) => a,
                None => {
                    return false;
                },
            };
            let b = match self.find_node(e.node_to_id) {
                Some(b) => b,
                None => {
                    return false;
                },
            };
            if !self.nodes[a].layer_id.precedes(&self.nodes[b].layer_id) {
                proof {
                    assert forall|x: int, y: int| #[trigger] self@.node_at(x, e.node_from_id) && #[trigger] self@.node_at(y, e.node_to_id)
                        implies !layer_lt(self@.nodes[x].layer_id, self@.nodes[y].layer_id) by {
                        assert(x == a as int);
                        assert(y == b as int);
                    }
                }
                return false;
            }
            assert(self@.node_at(a as int, e.node_from_id) && self@.node_at(b as int, e.node_to_id));
            let mut j: usize = 0;
            while j < k
                invariant
                    m == self@.edges.len(),
                    j <= k < m,
                    e == self@.edges[k as int],
                    forall|b: int| 0 <= b < j ==> self@.edges[b].id != e.id,
                decreases k - j,
            {
                if self.edges[j].id == e.id {
                    return false;
                }
                j = j + 1;
            }
            k = k + 1;
        }
        true
    }

    /// Rebuilds a network from its parts, as read back from storage.
    /// Refused unless the parts form a well-formed network.
    pub fn from_parts(
        nodes: Vec<Node>,
        edges: Vec<Edge>,
        layers: Vec<LayerID>,
        activation_fn: ActivationFn,
        next_node_id: usize,
        next_edge_id: usize,
    ) -> (r: Result<Network, NetworkError>)
        ensures
            Self::rebuilt(nodes@, edges@, layers@, activation_fn, next_node_id as nat, next_edge_id as nat, r),
    {
        let network = Network { nodes, edges, layers, activation_fn, next_node_id, next_edge_id };
        if network.is_well_formed() {
            Ok(network)
        } else {
            Err(NetworkError::Malformed)
        }
    }
}

} // verus!
