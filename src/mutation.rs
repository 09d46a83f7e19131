use vstd::prelude::*;
use crate::activationfn::{ActivationFn, activation_choice};
use crate::edge::Edge;
use crate::layer::{LayerID, layer_lt};
use crate::network::{Network, NetworkError, NetworkView, edges_without, layer_ids, lemma_removal_leaves_no_dangling_edge};
use crate::node::{Node, NodeType};
use crate::random::random_below;
use crate::scalar::Scalar;

verus! {

/// The mutation operators.
#[derive(PartialEq, Eq, Structural, Debug, Clone, Copy)]
pub enum MutationType {
    /// Add a node to an existing hidden layer.
    AddNodeToExistingLayer,
    /// Add a hidden layer with one node in it.
    AddNodeToNewLayer,
    /// Add an edge between two nodes of different layers.
    AddEdge,
    /// Give an edge a new weight.
    ModifyEdge,
    /// Remove an edge.
    RemoveEdge,
    /// Give a node a new bias.
    ModifyNode,
    /// Remove a hidden node and its edges.
    RemoveNode,
    /// Give a node a new activation function.
    ChangeActivationFn,
}

/// The random choices a mutation consumes; each is taken modulo the number
/// of candidates.
#[derive(PartialEq, Eq, Structural, Debug, Clone, Copy)]
pub struct Picks {
    /// Picks the layer, node or edge to work on.
    pub first: usize,
    /// Picks the second node of a new edge, or the new activation function.
    pub second: usize,
}

/// The fresh values a mutation may assign, drawn by the caller from its
/// configured ranges.
#[derive(PartialEq, Eq, Structural, Debug, Clone, Copy)]
pub struct Fresh {
    /// The weight of a new or modified edge.
    pub weight: Scalar,
    /// The bias of a new or modified node.
    pub bias: Scalar,
    /// The threshold of a new step activation function.
    pub threshold: Scalar,
}

/// The number of mutation operators.
pub const MUTATION_KINDS: usize = 8;

/// The operator that choice number `k` (modulo the number of operators)
/// stands for.
pub open spec fn mutation_choice(k: nat) -> MutationType {
    let c = k % (MUTATION_KINDS as nat);
    if c == 0 {
        MutationType::AddNodeToExistingLayer
    } else if c == 1 {
        MutationType::AddNodeToNewLayer
    } else if c == 2 {
        MutationType::AddEdge
    } else if c == 3 {
        MutationType::RemoveNode
    } else if c == 4 {
        MutationType::RemoveEdge
    } else if c == 5 {
        MutationType::ModifyEdge
    } else if c == 6 {
        MutationType::ModifyNode
    } else {
        MutationType::ChangeActivationFn
    }
}

impl MutationType {
    /// Picks an operator by a choice number, as a random draw does.
    pub fn select(choice: usize) -> (r: MutationType)
        ensures
            r == mutation_choice(choice as nat),
    {
        let c: usize = choice % MUTATION_KINDS;
        if c == 0 {
            MutationType::AddNodeToExistingLayer
        } else if c == 1 {
            MutationType::AddNodeToNewLayer
        } else if c == 2 {
            MutationType::AddEdge
        } else if c == 3 {
            MutationType::RemoveNode
        } else if c == 4 {
            MutationType::RemoveEdge
        } else if c == 5 {
            MutationType::ModifyEdge
        } else if c == 6 {
            MutationType::ModifyNode
        } else {
            MutationType::ChangeActivationFn
        }
    }
}

/// The positions of the hidden nodes, in node order.
pub open spec fn hidden_indices(nodes: Seq<Node>) -> Seq<usize>
    decreases nodes.len(),
{
    if nodes.len() == 0 {
        Seq::empty()
    } else {
        let rest = hidden_indices(nodes.drop_last());
        if nodes.last().layer_id is HiddenLayer {
            rest.push((nodes.len() - 1) as usize)
        } else {
            rest
        }
    }
}

/// The positions of the nodes outside layer `l`, in node order.
pub open spec fn cross_indices(nodes: Seq<Node>, l: LayerID) -> Seq<usize>
    decreases nodes.len(),
{
    if nodes.len() == 0 {
        Seq::empty()
    } else {
        let rest = cross_indices(nodes.drop_last(), l);
        if nodes.last().layer_id != l {
            rest.push((nodes.len() - 1) as usize)
        } else {
            rest
        }
    }
}

/// The first node an edge mutation picks.
pub open spec fn first_node(net: NetworkView, p: Picks) -> int {
    p.first as int % net.nodes.len() as int
}

/// The nodes in a layer other than the first pick's.
pub open spec fn partners(net: NetworkView, p: Picks) -> Seq<usize> {
    cross_indices(net.nodes, net.nodes[first_node(net, p)].layer_id)
}

/// The second node an edge mutation picks.
pub open spec fn second_node(net: NetworkView, p: Picks) -> int {
    partners(net, p)[p.second as int % partners(net, p).len() as int] as int
}

/// The source and destination ids of the edge that an edge mutation adds:
/// the two picked nodes, the one in the earlier layer first.
pub open spec fn edge_pair(net: NetworkView, p: Picks) -> (usize, usize) {
    let a = net.nodes[first_node(net, p)];
    let b = net.nodes[second_node(net, p)];
    if layer_lt(a.layer_id, b.layer_id) {
        (a.id, b.id)
    } else {
        (b.id, a.id)
    }
}

/// Some edge already runs from `from` to `to`.
pub open spec fn has_pair(edges: Seq<Edge>, from: usize, to: usize) -> bool {
    exists|k: int| 0 <= k < edges.len() && #[trigger] edges[k].node_from_id == from && edges[k].node_to_id == to
}

/// The operator that `m` falls back to on `net`, when its precondition does
/// not hold there.
pub open spec fn fallback(net: NetworkView, m: MutationType, p: Picks) -> Option<MutationType> {
    match m {
        MutationType::AddNodeToExistingLayer => if net.hidden_count() == 0 {
            Some(MutationType::AddNodeToNewLayer)
        } else {
            None
        },
        MutationType::AddNodeToNewLayer => None,
        MutationType::AddEdge => if net.nodes.len() == 0 || partners(net, p).len() == 0 {
            Some(MutationType::AddNodeToExistingLayer)
        } else if has_pair(net.edges, edge_pair(net, p).0, edge_pair(net, p).1) {
            Some(MutationType::ModifyEdge)
        } else {
            None
        },
        MutationType::ModifyEdge | MutationType::RemoveEdge => if net.edges.len() == 0 {
            Some(MutationType::AddEdge)
        } else {
            None
        },
        MutationType::ModifyNode | MutationType::ChangeActivationFn => if net.nodes.len() == 0 {
            Some(MutationType::AddNodeToExistingLayer)
        } else {
            None
        },
        MutationType::RemoveNode => if net.nodes.len() > 0 && hidden_indices(net.nodes).len() == 0 {
            Some(MutationType::AddNodeToNewLayer)
        } else {
            None
        },
    }
}

/// The operator reached from `m` after `i` fallback steps.
pub open spec fn resolve_steps(net: NetworkView, m: MutationType, p: Picks, i: nat) -> MutationType
    decreases i,
{
    if i == 0 {
        m
    } else {
        let prev = resolve_steps(net, m, p, (i - 1) as nat);
        match fallback(net, prev, p) {
            Some(next) => next,
            None => prev,
        }
    }
}

/// The most fallback steps a mutation takes.
pub const FALLBACK_CAP: usize = 4;

/// The operator that mutation `m` ends up applying on `net`.
pub open spec fn resolve(net: NetworkView, m: MutationType, p: Picks) -> MutationType {
    resolve_steps(net, m, p, FALLBACK_CAP as nat)
}

/// Whether the operator that a mutation ends up with can be applied: new
/// nodes and edges need a fresh id, and removing a node needs a node.
pub open spec fn can_apply(net: NetworkView, m: MutationType) -> bool {
    match m {
        MutationType::AddNodeToExistingLayer | MutationType::AddNodeToNewLayer => net.next_node_id < usize::MAX,
        MutationType::AddEdge => net.next_edge_id < usize::MAX,
        MutationType::RemoveNode => net.nodes.len() > 0,
        _ => true,
    }
}

/// The hidden node that `RemoveNode` removes.
pub open spec fn removed_node(net: NetworkView, p: Picks) -> int {
    let h = hidden_indices(net.nodes);
    h[p.first as int % h.len() as int] as int
}

/// `n` is `o` after operator `m` was applied with picks `p` and fresh values `f`.
pub open spec fn applied(o: NetworkView, n: NetworkView, m: MutationType, p: Picks, f: Fresh) -> bool {
    match m {
        MutationType::AddNodeToExistingLayer => {
            let layer_id = LayerID::HiddenLayer((p.first as int % o.hidden_count()) as usize);
            n == NetworkView {
                nodes: o.nodes.push(Node {
                    node_type: NodeType::HiddenNode,
                    id: o.next_node_id as usize,
                    layer_id,
                    bias: f.bias,
                    activation_fn: o.activation_fn,
                }),
                next_node_id: o.next_node_id + 1,
                ..o
            }
        },
        MutationType::AddNodeToNewLayer => {
            let layer_id = LayerID::HiddenLayer(o.hidden_count() as usize);
            n == NetworkView {
                layers: o.layers.push(layer_id),
                nodes: o.nodes.push(Node {
                    node_type: NodeType::HiddenNode,
                    id: o.next_node_id as usize,
                    layer_id,
                    bias: f.bias,
                    activation_fn: o.activation_fn,
                }),
                next_node_id: o.next_node_id + 1,
                ..o
            }
        },
        MutationType::AddEdge => {
            let (from, to) = edge_pair(o, p);
            n == NetworkView {
                edges: o.edges.push(Edge { id: o.next_edge_id as usize, weight: f.weight, node_from_id: from, node_to_id: to }),
                next_edge_id: o.next_edge_id + 1,
                ..o
            }
        },
        MutationType::ModifyEdge => {
            let k = p.first as int % o.edges.len() as int;
            n == NetworkView { edges: o.edges.update(k, Edge { weight: f.weight, ..o.edges[k] }), ..o }
        },
        MutationType::RemoveEdge => {
            let k = p.first as int % o.edges.len() as int;
            n == NetworkView { edges: o.edges.remove(k), ..o }
        },
        MutationType::ModifyNode => {
            let i = p.first as int % o.nodes.len() as int;
            n == NetworkView { nodes: o.nodes.update(i, Node { bias: f.bias, ..o.nodes[i] }), ..o }
        },
        MutationType::RemoveNode => {
            let i = removed_node(o, p);
            n == NetworkView {
                nodes: o.nodes.remove(i),
                edges: edges_without(o.edges, o.nodes[i].id),
                ..o
            }
        },
        MutationType::ChangeActivationFn => {
            let i = p.first as int % o.nodes.len() as int;
            n == NetworkView {
                nodes: o.nodes.update(i, Node { activation_fn: activation_choice(p.second as nat, f.threshold), ..o.nodes[i] }),
                ..o
            }
        },
    }
}

/// However a mutation starts, the capped fallback chain ends on an operator
/// whose precondition holds (or on removing a node from an empty network).
pub proof fn lemma_fallback_settles(net: NetworkView, m: MutationType, p: Picks)
    ensures
        fallback(net, resolve(net, m, p), p) is None,
{
    reveal_with_fuel(resolve_steps, 5);
}

/// Every position that `hidden_indices` lists is that of a hidden node.
proof fn lemma_hidden_indices(nodes: Seq<Node>)
    requires
        nodes.len() <= usize::MAX,
    ensures
        forall|q: int| 0 <= q < hidden_indices(nodes).len() ==> {
            &&& #[trigger] hidden_indices(nodes)[q] < nodes.len()
            &&& nodes[hidden_indices(nodes)[q] as int].layer_id is HiddenLayer
        },
    decreases nodes.len(),
{
    if nodes.len() > 0 {
        lemma_hidden_indices(nodes.drop_last());
        let rest = hidden_indices(nodes.drop_last());
        let all = hidden_indices(nodes);
        assert forall|q: int| 0 <= q < all.len() implies {
            &&& #[trigger] all[q] < nodes.len()
            &&& nodes[all[q] as int].layer_id is HiddenLayer
        } by {
            if q < rest.len() {
                assert(all[q] == rest[q]);
                assert(nodes[rest[q] as int] == nodes.drop_last()[rest[q] as int]);
            } else {
                assert(all[q] == nodes.len() - 1);
            }
        }
    }
}

/// Every position that `cross_indices` lists is that of a node outside `l`.
proof fn lemma_cross_indices(nodes: Seq<Node>, l: LayerID)
    requires
        nodes.len() <= usize::MAX,
    ensures
        forall|q: int| 0 <= q < cross_indices(nodes, l).len() ==> {
            &&& #[trigger] cross_indices(nodes, l)[q] < nodes.len()
            &&& nodes[cross_indices(nodes, l)[q] as int].layer_id != l
        },
    decreases nodes.len(),
{
    if nodes.len() > 0 {
        lemma_cross_indices(nodes.drop_last(), l);
        let rest = cross_indices(nodes.drop_last(), l);
        let all = cross_indices(nodes, l);
        assert forall|q: int| 0 <= q < all.len() implies {
            &&& #[trigger] all[q] < nodes.len()
            &&& nodes[all[q] as int].layer_id != l
        } by {
            if q < rest.len() {
                assert(all[q] == rest[q]);
                assert(nodes[rest[q] as int] == nodes.drop_last()[rest[q] as int]);
            } else {
                assert(all[q] == nodes.len() - 1);
            }
        }
    }
}

/// The positions of the hidden nodes.
fn hidden_positions(nodes: &Vec<Node>) -> (r: Vec<usize>)
    ensures
        r@ == hidden_indices(nodes@),
{
    let mut r: Vec<usize> = Vec::new();
    let mut i: usize = 0;
    while i < nodes.len()
        invariant
            i <= nodes@.len(),
            r@ == hidden_indices(nodes@.subrange(0, i as int)),
        decreases nodes@.len() - i,
    {
        proof {
            assert(nodes@.subrange(0, i + 1).drop_last() =~= nodes@.subrange(0, i as int));
        }
        if nodes[i].layer_id.is_hidden() {
            r.push(i);
        }
        i = i + 1;
    }
    assert(nodes@.subrange(0, i as int) =~= nodes@);
    r
}

/// The positions of the nodes outside layer `l`.
fn cross_positions(nodes: &Vec<Node>, l: LayerID) -> (r: Vec<usize>)
    ensures
        r@ == cross_indices(nodes@, l),
{
    let mut r: Vec<usize> = Vec::new();
    let mut i: usize = 0;
    while i < nodes.len()
        invariant
            i <= nodes@.len(),
            r@ == cross_indices(nodes@.subrange(0, i as int), l),
        decreases nodes@.len() - i,
    {
        proof {
            assert(nodes@.subrange(0, i + 1).drop_last() =~= nodes@.subrange(0, i as int));
        }
        if nodes[i].layer_id != l {
            r.push(i);
        }
        i = i + 1;
    }
    assert(nodes@.subrange(0, i as int) =~= nodes@);
    r
}

/// `n` keeps the input and output nodes of `o`, in order, and each id counter
/// grew by at most one.
pub open spec fn keeps_io_nodes(o: NetworkView, n: NetworkView) -> bool {
    &&& layer_ids(n.nodes, LayerID::InputLayer) == layer_ids(o.nodes, LayerID::InputLayer)
    &&& layer_ids(n.nodes, LayerID::OutputLayer) == layer_ids(o.nodes, LayerID::OutputLayer)
    &&& o.next_node_id <= n.next_node_id <= o.next_node_id + 1
    &&& o.next_edge_id <= n.next_edge_id <= o.next_edge_id + 1
}

/// Appending a node outside layer `l` keeps the ids listed for `l`.
proof fn lemma_layer_ids_push(s: Seq<Node>, x: Node, l: LayerID)
    requires
        x.layer_id != l,
    ensures
        layer_ids(s.push(x), l) == layer_ids(s, l),
{
    assert(s.push(x).drop_last() =~= s);
}

/// Changing a node but for its id and layer keeps the ids listed for `l`.
proof fn lemma_layer_ids_update(s: Seq<Node>, i: int, y: Node, l: LayerID)
    requires
        0 <= i < s.len(),
        y.id == s[i].id,
        y.layer_id == s[i].layer_id,
    ensures
        layer_ids(s.update(i, y), l) == layer_ids(s, l),
    decreases s.len(),
{
    let t = s.update(i, y);
    if i == s.len() - 1 {
        assert(t.drop_last() =~= s.drop_last());
    } else {
        assert(t.drop_last() =~= s.drop_last().update(i, y));
        lemma_layer_ids_update(s.drop_last(), i, y, l);
        assert(t.last() == s.last());
    }
}

/// Removing a node outside layer `l` keeps the ids listed for `l`.
proof fn lemma_layer_ids_remove(s: Seq<Node>, i: int, l: LayerID)
    requires
        0 <= i < s.len(),
        s[i].layer_id != l,
    ensures
        layer_ids(s.remove(i), l) == layer_ids(s, l),
    decreases s.len(),
{
    if i == s.len() - 1 {
        assert(s.remove(i) =~= s.drop_last());
    } else {
        assert(s.remove(i).drop_last() =~= s.drop_last().remove(i));
        lemma_layer_ids_remove(s.drop_last(), i, l);
        assert(s.remove(i).last() == s.last());
    }
}

/// An operator applied where its precondition holds keeps the input and
/// output nodes and takes at most one fresh id of each kind.
proof fn lemma_applied_keeps_io_nodes(o: NetworkView, n: NetworkView, m: MutationType, p: Picks, f: Fresh)
    requires
        o.wf(),
        fallback(o, m, p) is None,
        can_apply(o, m),
        applied(o, n, m, p, f),
    ensures
        keeps_io_nodes(o, n),
{
    match m {
        MutationType::AddNodeToExistingLayer | MutationType::AddNodeToNewLayer => {
            let x = n.nodes.last();
            assert(n.nodes == o.nodes.push(x));
            lemma_layer_ids_push(o.nodes, x, LayerID::InputLayer);
            lemma_layer_ids_push(o.nodes, x, LayerID::OutputLayer);
        },
        MutationType::ModifyNode | MutationType::ChangeActivationFn => {
            let i = p.first as int % o.nodes.len() as int;
            lemma_layer_ids_update(o.nodes, i, n.nodes[i], LayerID::InputLayer);
            lemma_layer_ids_update(o.nodes, i, n.nodes[i], LayerID::OutputLayer);
            assert(n.nodes == o.nodes.update(i, n.nodes[i]));
        },
        MutationType::RemoveNode => {
            lemma_hidden_indices(o.nodes);
            let h = hidden_indices(o.nodes);
            assert(0 <= (p.first as int) % (h.len() as int) < h.len());
            let i = removed_node(o, p);
            lemma_layer_ids_remove(o.nodes, i, LayerID::InputLayer);
            lemma_layer_ids_remove(o.nodes, i, LayerID::OutputLayer);
        },
        _ => {},
    }
}

impl Network {
    /// The ids of the two nodes an edge mutation connects, earlier layer first.
    fn pick_pair(&self, p: Picks) -> (r: (usize, usize))
        requires
            self@.nodes.len() > 0,
            partners(self@, p).len() > 0,
        ensures
            r == edge_pair(self@, p),
            self.wf() ==> self@.forward(r.0, r.1),
    {
        let nodes = self.nodes();
        let a = p.first % nodes.len();
        let cands = cross_positions(nodes, nodes[a].layer_id);
        let b = cands[p.second % cands.len()];
        proof {
            lemma_cross_indices(self@.nodes, self@.nodes[a as int].layer_id);
        }
        let na = nodes[a];
        let nb = nodes[b];
        proof {
            assert(self@.node_at(a as int, na.id) && self@.node_at(b as int, nb.id));
        }
        if na.layer_id.precedes(&nb.layer_id) {
            (na.id, nb.id)
        } else {
            (nb.id, na.id)
        }
    }

    /// The operator that `m` falls back to here, if its precondition fails.
    pub fn fallback_of(&self, m: MutationType, p: Picks) -> (r: Option<MutationType>)
        requires
            self.wf(),
        ensures
            r == fallback(self@, m, p),
    {
        match m {
            MutationType::AddNodeToExistingLayer => if self.layers().len() == 2 {
                Some(MutationType::AddNodeToNewLayer)
            } else {
                None
            },
            MutationType::AddNodeToNewLayer => None,
            MutationType::AddEdge => {
                let nodes = self.nodes();
                if nodes.len() == 0 {
                    return Some(MutationType::AddNodeToExistingLayer);
                }
                let a = p.first % nodes.len();
                let cands = cross_positions(nodes, nodes[a].layer_id);
                if cands.len() == 0 {
                    return Some(MutationType::AddNodeToExistingLayer);
                }
                let (from, to) = self.pick_pair(p);
                if self.has_edge_between(from, to) {
                    Some(MutationType::ModifyEdge)
                } else {
                    None
                }
            },
            MutationType::ModifyEdge | MutationType::RemoveEdge => if self.edges().len() == 0 {
                Some(MutationType::AddEdge)
            } else {
                None
            },
            MutationType::ModifyNode | MutationType::ChangeActivationFn => if self.nodes().len() == 0 {
                Some(MutationType::AddNodeToExistingLayer)
            } else {
                None
            },
            MutationType::RemoveNode => {
                let nodes = self.nodes();
                if nodes.len() > 0 && hidden_positions(nodes).len() == 0 {
                    Some(MutationType::AddNodeToNewLayer)
                } else {
                    None
                }
            },
        }
    }

    /// Applies operator `m`, whose precondition holds, with picks `p` and fresh
    /// values `f`.
    fn apply(&mut self, m: MutationType, p: Picks, f: Fresh) -> (r: Result<MutationType, NetworkError>)
        requires
            old(self).wf(),
            fallback(old(self)@, m, p) is None,
        ensures
            final(self).wf(),
            r is Ok <==> can_apply(old(self)@, m),
            r is Ok ==> r->Ok_0 == m && applied(old(self)@, final(self)@, m, p, f),
            r is Err ==> final(self)@ == old(self)@,
            r == Err::<MutationType, NetworkError>(NetworkError::NoNodes) <==> (m == MutationType::RemoveNode && old(self)@.nodes.len() == 0),
            r is Err && r != Err::<MutationType, NetworkError>(NetworkError::NoNodes) ==> r == Err::<MutationType, NetworkError>(NetworkError::IdsExhausted),
    {
        let ghost o = self@;
        match m {
            MutationType::AddNodeToExistingLayer => {
                let k = self.layers().len() - 2;
                let layer_id = LayerID::HiddenLayer(p.first % k);
                let activation_fn = self.default_activation_fn();
                match self.insert_node(layer_id, f.bias, activation_fn) {
                    Ok(_) => Ok(m),
                    Err(e) => Err(e),
                }
            },
            MutationType::AddNodeToNewLayer => {
                if self.next_node_id() == usize::MAX {
                    return Err(NetworkError::IdsExhausted);
                }
                let layer_id = self.add_layer();
                let activation_fn = self.default_activation_fn();
                match self.insert_node(layer_id, f.bias, activation_fn) {
                    Ok(_) => Ok(m),
                    Err(e) => Err(e),
                }
            },
            MutationType::AddEdge => {
                let (from, to) = self.pick_pair(p);
                match self.insert_edge(from, to, f.weight) {
                    Ok(_) => Ok(m),
                    Err(e) => Err(e),
                }
            },
            MutationType::ModifyEdge => {
                let k = p.first % self.edges().len();
                self.set_edge_weight(k, f.weight);
                Ok(m)
            },
            MutationType::RemoveEdge => {
                let k = p.first % self.edges().len();
                self.remove_edge_at(k);
                Ok(m)
            },
            MutationType::ModifyNode => {
                let i = p.first % self.nodes().len();
                self.set_node_bias(i, f.bias);
                Ok(m)
            },
            MutationType::RemoveNode => {
                if self.nodes().len() == 0 {
                    return Err(NetworkError::NoNodes);
                }
                let h = hidden_positions(self.nodes());
                proof {
                    lemma_hidden_indices(self@.nodes);
                }
                let i = h[p.first % h.len()];
                self.remove_node_at(i);
                Ok(m)
            },
            MutationType::ChangeActivationFn => {
                let i = p.first % self.nodes().len();
                let activation_fn = ActivationFn::select(p.second, f.threshold);
                self.set_node_activation_fn(i, activation_fn);
                Ok(m)
            },
        }
    }

    /// Applies mutation `m` with picks `p` and fresh values `f`, falling back
    /// along the operator table while `m`'s precondition fails, at most a
    /// fixed number of times. Returns the operator that was applied.
    ///
    /// Fails, leaving the network unchanged, only when a node must be removed
    /// from a network without nodes, or when a fresh id is needed and the
    /// counter has none left.
    pub fn mutate(&mut self, m: MutationType, p: Picks, f: Fresh) -> (r: Result<MutationType, NetworkError>)
        requires
            old(self).wf(),
        ensures
            final(self).wf(),
            r is Ok <==> can_apply(old(self)@, resolve(old(self)@, m, p)),
            r is Ok ==> r->Ok_0 == resolve(old(self)@, m, p) && applied(old(self)@, final(self)@, r->Ok_0, p, f),
            r is Err ==> final(self)@ == old(self)@,
            r == Err::<MutationType, NetworkError>(NetworkError::NoNodes) <==> (resolve(old(self)@, m, p) == MutationType::RemoveNode
                && old(self)@.nodes.len() == 0),
            r is Err && r != Err::<MutationType, NetworkError>(NetworkError::NoNodes) ==> r == Err::<MutationType, NetworkError>(NetworkError::IdsExhausted),
            r is Ok ==> keeps_io_nodes(old(self)@, final(self)@),
    {
        let mut op = m;
        let mut i: usize = 0;
        while i < FALLBACK_CAP
            invariant
                self.wf(),
                i <= FALLBACK_CAP,
                op == resolve_steps(self@, m, p, i as nat),
            decreases FALLBACK_CAP - i,
        {
            match self.fallback_of(op, p) {
                Some(next) => {
                    op = next;
                },
                None => {},
            }
            i = i + 1;
        }
        proof {
            lemma_fallback_settles(self@, m, p);
        }
        let ghost o = self@;
        let r = self.apply(op, p, f);
        proof {
            if r is Ok {
                lemma_applied_keeps_io_nodes(o, self@, op, p, f);
            }
        }
        r
    }
}

/// An edge mutation on a network whose nodes all share one layer (or that
/// has no node) has no pair to connect, so it falls back to adding a node:
/// it succeeds whenever the node counter has a fresh id, and then adds one
/// hidden node and no edge.
pub proof fn lemma_add_edge_without_partner(net: NetworkView, n: NetworkView, p: Picks, f: Fresh)
    requires
        net.wf(),
        forall|i: int, j: int| 0 <= i < net.nodes.len() && 0 <= j < net.nodes.len()
            ==> #[trigger] net.nodes[i].layer_id == #[trigger] net.nodes[j].layer_id,
    ensures
        resolve(net, MutationType::AddEdge, p) == MutationType::AddNodeToExistingLayer
            || resolve(net, MutationType::AddEdge, p) == MutationType::AddNodeToNewLayer,
        can_apply(net, resolve(net, MutationType::AddEdge, p)) <==> net.next_node_id < usize::MAX,
        applied(net, n, resolve(net, MutationType::AddEdge, p), p, f) ==> {
            &&& n.nodes.len() == net.nodes.len() + 1
            &&& n.nodes.drop_last() == net.nodes
            &&& n.nodes.last().layer_id is HiddenLayer
            &&& n.nodes.last().id == net.next_node_id
            &&& n.edges == net.edges
        },
{
    if net.nodes.len() > 0 {
        let a = first_node(net, p);
        lemma_cross_indices(net.nodes, net.nodes[a].layer_id);
        let c = partners(net, p);
        if c.len() > 0 {
            assert(net.nodes[c[0] as int].layer_id != net.nodes[a].layer_id);
        }
    }
    reveal_with_fuel(resolve_steps, 5);
    if applied(net, n, resolve(net, MutationType::AddEdge, p), p, f) {
        assert(n.nodes.drop_last() =~= net.nodes);
    }
}

/// The node mutation that removes a node leaves no edge referencing it and
/// no dangling edge at all.
pub proof fn lemma_remove_node_mutation(old: Network, new: Network, p: Picks, f: Fresh)
    requires
        old.wf(),
        new.wf(),
        hidden_indices(old@.nodes).len() > 0,
        applied(old@, new@, MutationType::RemoveNode, p, f),
    ensures
        !new@.touches(old@.nodes[removed_node(old@, p)].id),
        !new@.has_node(old@.nodes[removed_node(old@, p)].id),
        new@.no_dangling_edges(),
{
    lemma_hidden_indices(old@.nodes);
    let h = hidden_indices(old@.nodes);
    assert(0 <= (p.first as int) % (h.len() as int) < h.len());
    lemma_removal_leaves_no_dangling_edge(old, new, removed_node(old@, p));
}

impl Network {
    /// Applies one random mutation: the operator is drawn from
    /// `mutation_types` (uniformly from all operators when it is empty), the
    /// picks are drawn at random, and the fresh values are `f`.
    pub fn randomly_mutate(&mut self, mutation_types: &Vec<MutationType>, f: Fresh) -> (r: Result<MutationType, NetworkError>)
        requires
            old(self).wf(),
        ensures
            final(self).wf(),
            r is Err ==> final(self)@ == old(self)@,
            old(self)@.nodes.len() > 0 && old(self)@.next_node_id < usize::MAX && old(self)@.next_edge_id < usize::MAX ==> r is Ok,
            r is Ok ==> keeps_io_nodes(old(self)@, final(self)@),
            r matches Ok(applied_op) ==> exists|m: MutationType, p: Picks| {
                &&& (mutation_types@.len() > 0 ==> mutation_types@.contains(m))
                &&& applied_op == #[trigger] resolve(old(self)@, m, p)
                &&& applied(old(self)@, final(self)@, applied_op, p, f)
            },
    {
        let m = if mutation_types.len() == 0 {
            MutationType::select(random_below(MUTATION_KINDS))
        } else {
            mutation_types[random_below(mutation_types.len())]
        };
        let p = Picks { first: random_below(usize::MAX), second: random_below(usize::MAX) };
        let r = self.mutate(m, p, f);
        proof {
            if r is Ok {
                assert(r->Ok_0 == resolve(old(self)@, m, p));
            }
        }
        r
    }
}

} // verus!
