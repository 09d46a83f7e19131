use vstd::prelude::*;
use crate::layer::{LayerID, layer_lt};
use crate::network::{Network, NetworkError, NetworkView};
use crate::node::Node;
use crate::edge::Edge;

verus! {

/// One step of a propagation pass, over node and edge positions.
#[derive(PartialEq, Eq, Structural, Debug, Clone, Copy)]
pub enum Step {
    /// Add the node's bias to its accumulator, then apply its activation
    /// function to the sum.
    Activate { node: usize },
    /// Add the value of node `from` times the weight of edge `edge` into the
    /// accumulator of node `to`.
    Accumulate { edge: usize, from: usize, to: usize },
}

/// The schedule of one propagation pass.
///
/// A pass starts with every accumulator at zero, writes input `k` into node
/// `inputs[k]`, runs `steps` in order, and reads output `k` from node
/// `outputs[k]`. Nothing of a pass is kept in the network.
pub struct Plan {
    /// The positions of the input nodes, in node order.
    pub inputs: Vec<usize>,
    /// The steps, layer by layer in ascending layer order.
    pub steps: Vec<Step>,
    /// The positions of the output nodes, in node order.
    pub outputs: Vec<usize>,
}

/// The positions of the nodes of `nodes` that sit in layer `l`, in node order.
pub open spec fn layer_indices(nodes: Seq<Node>, l: LayerID) -> Seq<usize>
    decreases nodes.len(),
{
    if nodes.len() == 0 {
        Seq::empty()
    } else {
        let rest = layer_indices(nodes.drop_last(), l);
        if nodes.last().layer_id == l {
            rest.push((nodes.len() - 1) as usize)
        } else {
            rest
        }
    }
}

/// The position of the node with id `id`.
pub open spec fn node_index(net: NetworkView, id: usize) -> int {
    choose|j: int| net.node_at(j, id)
}

/// The accumulate steps for the edges of `edges` (a prefix of the network's
/// edges) that leave the node at position `i`, in edge order.
pub open spec fn outgoing_steps(net: NetworkView, edges: Seq<Edge>, i: usize) -> Seq<Step>
    decreases edges.len(),
{
    if edges.len() == 0 {
        Seq::empty()
    } else {
        let rest = outgoing_steps(net, edges.drop_last(), i);
        let e = edges.last();
        if e.node_from_id == net.nodes[i as int].id {
            rest.push(
                Step::Accumulate {
                    edge: (edges.len() - 1) as usize,
                    from: i,
                    to: node_index(net, e.node_to_id) as usize,
                },
            )
        } else {
            rest
        }
    }
}

/// The accumulate steps for the edges leaving the nodes at positions `idx`,
/// node by node.
pub open spec fn accumulate_steps(net: NetworkView, idx: Seq<usize>) -> Seq<Step>
    decreases idx.len(),
{
    if idx.len() == 0 {
        Seq::empty()
    } else {
        accumulate_steps(net, idx.drop_last()) + outgoing_steps(net, net.edges, idx.last())
    }
}

/// One activate step for each position of `idx`, in order.
pub open spec fn activate_steps(idx: Seq<usize>) -> Seq<Step> {
    idx.map_values(|i: usize| Step::Activate { node: i })
}

/// The `t`-th layer in ascending order when there are `hidden` hidden layers.
pub open spec fn propagation_layer(hidden: int, t: int) -> LayerID {
    if t == 0 {
        LayerID::InputLayer
    } else if t <= hidden {
        LayerID::HiddenLayer((t - 1) as usize)
    } else {
        LayerID::OutputLayer
    }
}

/// The steps taken when layer `l` becomes current: its nodes are activated
/// (but for input nodes, which hold the raw input), then every edge leaving
/// them is summed into its destination.
pub open spec fn layer_steps(net: NetworkView, l: LayerID) -> Seq<Step> {
    let idx = layer_indices(net.nodes, l);
    (if l is InputLayer { Seq::empty() } else { activate_steps(idx) }) + accumulate_steps(net, idx)
}

/// The steps for the first `t` layers in ascending order.
pub open spec fn steps_through(net: NetworkView, t: nat) -> Seq<Step>
    decreases t,
{
    if t == 0 {
        Seq::empty()
    } else {
        steps_through(net, (t - 1) as nat) + layer_steps(net, propagation_layer(net.hidden_count(), t - 1))
    }
}

/// The steps of a full pass: every declared layer in ascending order.
pub open spec fn propagation_steps(net: NetworkView) -> Seq<Step> {
    steps_through(net, (net.hidden_count() + 2) as nat)
}

/// In a well-formed network a node id has one position.
proof fn lemma_node_index(net: NetworkView, j: int, id: usize)
    requires
        net.wf(),
        net.node_at(j, id),
    ensures
        node_index(net, id) == j,
{
    let k = node_index(net, id);
    assert(net.node_at(k, id));
}

/// The positions of the nodes in layer `l`, in node order.
fn indices_in_layer(nodes: &Vec<Node>, l: LayerID) -> (r: Vec<usize>)
    ensures
        r@ == layer_indices(nodes@, l),
{
    let mut r: Vec<usize> = Vec::new();
    let mut i: usize = 0;
    while i < nodes.len()
        invariant
            i <= nodes@.len(),
            r@ == layer_indices(nodes@.subrange(0, i as int), l),
        decreases nodes@.len() - i,
    {
        proof {
            assert(nodes@.subrange(0, i + 1).drop_last() =~= nodes@.subrange(0, i as int));
        }
        if nodes[i].layer_id == l {
            r.push(i);
        }
        i = i + 1;
    }
    assert(nodes@.subrange(0, i as int) =~= nodes@);
    r
}

/// Appends the accumulate steps for the edges leaving the node at position `i`.
fn push_outgoing(network: &Network, i: usize, steps: &mut Vec<Step>)
    requires
        network.wf(),
        i < network@.nodes.len(),
    ensures
        final(steps)@ == old(steps)@ + outgoing_steps(network@, network@.edges, i),
{
    let nodes = network.nodes();
    let edges = network.edges();
    let id = nodes[i].id;
    let ghost base = steps@;
    let mut j: usize = 0;
    while j < edges.len()
        invariant
            network.wf(),
            nodes@ == network@.nodes,
            edges@ == network@.edges,
            i < nodes@.len(),
            id == nodes@[i as int].id,
            j <= edges@.len(),
            steps@ == base + outgoing_steps(network@, edges@.subrange(0, j as int), i),
        decreases edges@.len() - j,
    {
        let ghost prefix = edges@.subrange(0, j as int);
        proof {
            assert(edges@.subrange(0, j + 1).drop_last() =~= prefix);
        }
        let e = edges[j];
        if e.node_from_id == id {
            proof {
                assert(network@.edge_ok(network@.edges[j as int]));
            }
            match network.find_node(e.node_to_id) {
                Some(t) => {
                    proof {
                        lemma_node_index(network@, t as int, e.node_to_id);
                    }
                    steps.push(Step::Accumulate { edge: j, from: i, to: t });
                },
                None => {
                    assert(false);
                },
            }
            assert(steps@ =~= base + outgoing_steps(network@, edges@.subrange(0, j + 1), i));
        }
        j = j + 1;
    }
    assert(edges@.subrange(0, j as int) =~= edges@);
}

/// Without edges the accumulate steps of any set of nodes are empty.
proof fn lemma_no_edges_no_accumulate(net: NetworkView, idx: Seq<usize>)
    requires
        net.edges.len() == 0,
    ensures
        accumulate_steps(net, idx) == Seq::<Step>::empty(),
    decreases idx.len(),
{
    if idx.len() > 0 {
        lemma_no_edges_no_accumulate(net, idx.drop_last());
        assert(accumulate_steps(net, idx) =~= Seq::<Step>::empty());
    }
}

/// Without edges every step of the first `t` layers activates a node.
proof fn lemma_no_edges_only_activations(net: NetworkView, t: nat)
    requires
        net.edges.len() == 0,
    ensures
        forall|q: int| 0 <= q < steps_through(net, t).len() ==> #[trigger] steps_through(net, t)[q] is Activate,
    decreases t,
{
    if t > 0 {
        lemma_no_edges_only_activations(net, (t - 1) as nat);
        let l = propagation_layer(net.hidden_count(), t - 1);
        lemma_no_edges_no_accumulate(net, layer_indices(net.nodes, l));
        let prev = steps_through(net, (t - 1) as nat);
        let all = steps_through(net, t);
        assert forall|q: int| 0 <= q < all.len() implies #[trigger] all[q] is Activate by {
            if q < prev.len() {
                assert(all[q] == prev[q]);
            }
        }
    }
}

/// A network without edges is a pass of activations alone: no value flows
/// between nodes, and every output node is activated, so each output is the
/// output node's activation function applied to its bias.
pub proof fn lemma_edgeless_pass(net: NetworkView)
    requires
        net.wf(),
        net.edges.len() == 0,
    ensures
        forall|q: int| 0 <= q < propagation_steps(net).len() ==> #[trigger] propagation_steps(net)[q] is Activate,
        forall|o: int| 0 <= o < layer_indices(net.nodes, LayerID::OutputLayer).len()
            ==> propagation_steps(net).contains(Step::Activate { node: #[trigger] layer_indices(net.nodes, LayerID::OutputLayer)[o] }),
{
    let t = (net.hidden_count() + 2) as nat;
    lemma_no_edges_only_activations(net, t);
    let outs = layer_indices(net.nodes, LayerID::OutputLayer);
    lemma_no_edges_no_accumulate(net, outs);
    assert(propagation_layer(net.hidden_count(), t - 1) == LayerID::OutputLayer);
    let prev = steps_through(net, (t - 1) as nat);
    let all = propagation_steps(net);
    assert forall|o: int| 0 <= o < outs.len() implies all.contains(Step::Activate { node: #[trigger] outs[o] }) by {
        assert(all[prev.len() + o] == Step::Activate { node: outs[o] });
    }
}

/// The stage at which layer `l` becomes current, with `hidden` hidden layers.
pub open spec fn layer_stage(hidden: int, l: LayerID) -> int {
    match l {
        LayerID::InputLayer => 0,
        LayerID::HiddenLayer(h) => h + 1,
        LayerID::OutputLayer => hidden + 1,
    }
}

/// `s` sums, along an edge of the network, the value of the node at position
/// `i` into the node at the edge's destination.
pub open spec fn accumulates_from(net: NetworkView, s: Step, i: usize) -> bool {
    match s {
        Step::Accumulate { edge, from, to } => {
            &&& from == i
            &&& edge < net.edges.len()
            &&& net.edges[edge as int].node_from_id == net.nodes[i as int].id
            &&& to == node_index(net, net.edges[edge as int].node_to_id) as usize
        },
        Step::Activate { .. } => false,
    }
}

/// The positions listed for a layer are increasing, hold nodes of that
/// layer, and cover every node of it.
proof fn lemma_layer_indices(nodes: Seq<Node>, l: LayerID)
    requires
        nodes.len() <= usize::MAX,
    ensures
        forall|j: int| 0 <= j < layer_indices(nodes, l).len() ==> {
            &&& #[trigger] layer_indices(nodes, l)[j] < nodes.len()
            &&& nodes[layer_indices(nodes, l)[j] as int].layer_id == l
        },
        forall|j1: int, j2: int| 0 <= j1 < j2 < layer_indices(nodes, l).len()
            ==> #[trigger] layer_indices(nodes, l)[j1] < #[trigger] layer_indices(nodes, l)[j2],
        forall|q: int| 0 <= q < nodes.len() && #[trigger] nodes[q].layer_id == l ==> layer_indices(nodes, l).contains(q as usize),
    decreases nodes.len(),
{
    if nodes.len() > 0 {
        let init = nodes.drop_last();
        lemma_layer_indices(init, l);
        let rest = layer_indices(init, l);
        let all = layer_indices(nodes, l);
        assert forall|j: int| 0 <= j < all.len() implies {
            &&& #[trigger] all[j] < nodes.len()
            &&& nodes[all[j] as int].layer_id == l
        } by {
            if j < rest.len() {
                assert(all[j] == rest[j]);
                assert(nodes[rest[j] as int] == init[rest[j] as int]);
            } else {
                assert(all[j] == nodes.len() - 1);
            }
        }
        assert forall|j1: int, j2: int| 0 <= j1 < j2 < all.len() implies #[trigger] all[j1] < #[trigger] all[j2] by {
            assert(all[j1] == rest[j1]);
            if j2 < rest.len() {
                assert(all[j2] == rest[j2]);
            } else {
                assert(all[j2] == nodes.len() - 1);
            }
        }
        assert forall|q: int| 0 <= q < nodes.len() && #[trigger] nodes[q].layer_id == l implies all.contains(q as usize) by {
            if q < nodes.len() - 1 {
                assert(init[q] == nodes[q]);
                let j = choose|j: int| 0 <= j < rest.len() && rest[j] == q as usize;
                assert(all[j] == rest[j]);
            } else {
                assert(all[all.len() - 1] == q as usize);
            }
        }
    }
}

/// Every step for the edges of a prefix of the network's edges that leave
/// node `i` sums along one of them.
proof fn lemma_outgoing_content(net: NetworkView, edges: Seq<Edge>, i: usize)
    requires
        net.edges.len() <= usize::MAX,
        edges.len() <= net.edges.len(),
        forall|k: int| 0 <= k < edges.len() ==> #[trigger] edges[k] == net.edges[k],
    ensures
        forall|s: int| 0 <= s < outgoing_steps(net, edges, i).len() ==> accumulates_from(net, #[trigger] outgoing_steps(net, edges, i)[s], i),
    decreases edges.len(),
{
    if edges.len() > 0 {
        let init = edges.drop_last();
        assert forall|k: int| 0 <= k < init.len() implies #[trigger] init[k] == net.edges[k] by {
            assert(init[k] == edges[k]);
        }
        lemma_outgoing_content(net, init, i);
        let rest = outgoing_steps(net, init, i);
        let all = outgoing_steps(net, edges, i);
        let e = edges.last();
        let last = (edges.len() - 1) as int;
        assert(e == net.edges[last]);
        if e.node_from_id == net.nodes[i as int].id {
            assert(all == rest.push(Step::Accumulate { edge: last as usize, from: i, to: node_index(net, e.node_to_id) as usize }));
        } else {
            assert(all == rest);
        }
        assert forall|s: int| 0 <= s < all.len() implies accumulates_from(net, #[trigger] all[s], i) by {
            if s < rest.len() {
                assert(all[s] == rest[s]);
            }
        }
    }
}

/// Every accumulate step for the nodes at positions `idx` sums from one of them.
proof fn lemma_accumulate_content(net: NetworkView, idx: Seq<usize>)
    requires
        net.edges.len() <= usize::MAX,
    ensures
        forall|s: int| 0 <= s < accumulate_steps(net, idx).len() ==> exists|j: int|
            0 <= j < idx.len() && accumulates_from(net, #[trigger] accumulate_steps(net, idx)[s], idx[j]),
    decreases idx.len(),
{
    if idx.len() > 0 {
        let init = idx.drop_last();
        lemma_accumulate_content(net, init);
        lemma_outgoing_content(net, net.edges, idx.last());
        let rest = accumulate_steps(net, init);
        let tail = outgoing_steps(net, net.edges, idx.last());
        let all = accumulate_steps(net, idx);
        assert forall|s: int| 0 <= s < all.len() implies exists|j: int|
            0 <= j < idx.len() && accumulates_from(net, #[trigger] all[s], idx[j]) by {
            if s < rest.len() {
                assert(all[s] == rest[s]);
                let j = choose|j: int| 0 <= j < init.len() && accumulates_from(net, rest[s], init[j]);
                assert(idx[j] == init[j]);
            } else {
                assert(all[s] == tail[s - rest.len()]);
                assert(accumulates_from(net, tail[s - rest.len()], idx.last()));
                assert(idx[idx.len() - 1] == idx.last());
            }
        }
    }
}

/// A shorter run of layers is a prefix of a longer one.
proof fn lemma_steps_prefix(net: NetworkView, t: nat, t2: nat)
    requires
        t <= t2,
    ensures
        steps_through(net, t).len() <= steps_through(net, t2).len(),
        forall|p: int| 0 <= p < steps_through(net, t).len() ==> #[trigger] steps_through(net, t2)[p] == steps_through(net, t)[p],
    decreases t2,
{
    if t2 > t {
        lemma_steps_prefix(net, t, (t2 - 1) as nat);
    }
}

/// The stage that position `p` of the first `t` stages falls in.
proof fn lemma_locate(net: NetworkView, t: nat, p: int) -> (u: nat)
    requires
        0 <= p < steps_through(net, t).len(),
    ensures
        u < t,
        steps_through(net, u).len() <= p < steps_through(net, u + 1).len(),
        steps_through(net, t)[p] == layer_steps(net, propagation_layer(net.hidden_count(), u as int))[p - steps_through(net, u).len()],
    decreases t,
{
    let prev = steps_through(net, (t - 1) as nat);
    if p < prev.len() {
        lemma_locate(net, (t - 1) as nat, p)
    } else {
        (t - 1) as nat
    }
}

/// Stages and layers correspond one to one, in the same order.
proof fn lemma_stages(net: NetworkView)
    requires
        net.wf(),
    ensures
        forall|l: LayerID| net.declares(l) ==> {
            &&& 0 <= #[trigger] layer_stage(net.hidden_count(), l) <= net.hidden_count() + 1
            &&& propagation_layer(net.hidden_count(), layer_stage(net.hidden_count(), l)) == l
        },
        forall|u: int| 0 <= u <= net.hidden_count() + 1 ==> {
            &&& net.declares(#[trigger] propagation_layer(net.hidden_count(), u))
            &&& layer_stage(net.hidden_count(), propagation_layer(net.hidden_count(), u)) == u
        },
        forall|a: LayerID, b: LayerID| net.declares(a) && net.declares(b) && #[trigger] layer_lt(a, b)
            ==> #[trigger] layer_stage(net.hidden_count(), a) < layer_stage(net.hidden_count(), b),
{
}

/// Facts about the step at position `off` of the steps of layer `l`.
proof fn lemma_layer_step(net: NetworkView, l: LayerID, off: int)
    requires
        net.wf(),
        0 <= off < layer_steps(net, l).len(),
    ensures
        ({
            let idx = layer_indices(net.nodes, l);
            let acts: int = if l is InputLayer { 0 } else { idx.len() as int };
            match layer_steps(net, l)[off] {
                Step::Activate { node } => !(l is InputLayer) && off < acts && idx[off] == node,
                Step::Accumulate { from, .. } => off >= acts && exists|j: int|
                    0 <= j < idx.len() && idx[j] == from && accumulates_from(net, layer_steps(net, l)[off], from),
            }
        }),
{
    let idx = layer_indices(net.nodes, l);
    let acc = accumulate_steps(net, idx);
    lemma_accumulate_content(net, idx);
    let head: Seq<Step> = if l is InputLayer { Seq::empty() } else { activate_steps(idx) };
    assert(layer_steps(net, l) == head + acc);
    if off >= head.len() {
        assert(layer_steps(net, l)[off] == acc[off - head.len()]);
        let j = choose|j: int| 0 <= j < idx.len() && accumulates_from(net, acc[off - head.len()], idx[j]);
    } else {
        assert(layer_steps(net, l)[off] == head[off]);
    }
}

/// The schedule of a pass respects the layer order:
/// - every accumulate step sums along an edge of the network, from a node in
///   a strictly earlier layer than its destination;
/// - input nodes are never activated, and every other node is activated
///   exactly once;
/// - a node is activated only after every edge into it has been summed, and
///   an edge is summed only after its source node has been activated.
pub proof fn lemma_schedule_order(net: NetworkView)
    requires
        net.wf(),
    ensures
        forall|p: int| 0 <= p < propagation_steps(net).len() ==> (#[trigger] propagation_steps(net)[p] matches Step::Accumulate { edge, from, to }
            ==> edge < net.edges.len() && net.node_at(from as int, net.edges[edge as int].node_from_id)
                && net.node_at(to as int, net.edges[edge as int].node_to_id)
                && layer_lt(net.nodes[from as int].layer_id, net.nodes[to as int].layer_id)),
        forall|p: int| 0 <= p < propagation_steps(net).len() ==> (#[trigger] propagation_steps(net)[p] matches Step::Activate { node }
            ==> node < net.nodes.len() && !(net.nodes[node as int].layer_id is InputLayer)),
        forall|q: int| 0 <= q < net.nodes.len() && !(#[trigger] net.nodes[q].layer_id is InputLayer)
            ==> propagation_steps(net).contains(Step::Activate { node: q as usize }),
        forall|pa: int, pb: int| 0 <= pa < propagation_steps(net).len() && 0 <= pb < propagation_steps(net).len()
            && #[trigger] propagation_steps(net)[pa] is Activate && #[trigger] propagation_steps(net)[pb] == propagation_steps(net)[pa] ==> pa == pb,
        forall|pa: int, pb: int| 0 <= pa < propagation_steps(net).len() && 0 <= pb < propagation_steps(net).len()
            ==> (#[trigger] propagation_steps(net)[pa] matches Step::Accumulate { to, .. }
                ==> (#[trigger] propagation_steps(net)[pb] == Step::Activate { node: to } ==> pa < pb)),
        forall|pa: int, pb: int| 0 <= pa < propagation_steps(net).len() && 0 <= pb < propagation_steps(net).len()
            ==> (#[trigger] propagation_steps(net)[pa] matches Step::Accumulate { from, .. }
                ==> (#[trigger] propagation_steps(net)[pb] == Step::Activate { node: from } ==> pb < pa)),
{
    let k = net.hidden_count();
    let t = (k + 2) as nat;
    let steps = propagation_steps(net);
    lemma_stages(net);
    // Where each step comes from.
    assert forall|p: int| 0 <= p < steps.len() implies (#[trigger] steps[p] matches Step::Accumulate { edge, from, to }
        ==> edge < net.edges.len() && net.node_at(from as int, net.edges[edge as int].node_from_id)
            && net.node_at(to as int, net.edges[edge as int].node_to_id)
            && layer_lt(net.nodes[from as int].layer_id, net.nodes[to as int].layer_id)) by {
        let u = lemma_locate(net, t, p);
        let l = propagation_layer(k, u as int);
        let off = p - steps_through(net, u).len();
        lemma_layer_step(net, l, off);
        lemma_layer_indices(net.nodes, l);
        if let Step::Accumulate { edge, from, to } = steps[p] {
            let e = net.edges[edge as int];
            assert(net.edge_ok(e));
            let (a, b) = choose|a: int, b: int| #[trigger] net.node_at(a, e.node_from_id) && #[trigger] net.node_at(b, e.node_to_id)
                && layer_lt(net.nodes[a].layer_id, net.nodes[b].layer_id);
            assert(net.node_at(from as int, e.node_from_id));
            assert(a == from as int);
            assert(node_index(net, e.node_to_id) == b) by {
                let c = node_index(net, e.node_to_id);
                assert(net.node_at(c, e.node_to_id));
            }
        }
    }
    assert forall|p: int| 0 <= p < steps.len() implies (#[trigger] steps[p] matches Step::Activate { node }
        ==> node < net.nodes.len() && !(net.nodes[node as int].layer_id is InputLayer)) by {
        let u = lemma_locate(net, t, p);
        let l = propagation_layer(k, u as int);
        let off = p - steps_through(net, u).len();
        lemma_layer_step(net, l, off);
        lemma_layer_indices(net.nodes, l);
    }
    assert forall|q: int| 0 <= q < net.nodes.len() && !(#[trigger] net.nodes[q].layer_id is InputLayer)
        implies steps.contains(Step::Activate { node: q as usize }) by {
        let l = net.nodes[q].layer_id;
        assert(net.node_ok(net.nodes[q]));
        let u = layer_stage(k, l);
        lemma_layer_indices(net.nodes, l);
        let idx = layer_indices(net.nodes, l);
        let j = choose|j: int| 0 <= j < idx.len() && idx[j] == q as usize;
        let start = steps_through(net, u as nat).len();
        assert(steps_through(net, (u + 1) as nat) == steps_through(net, u as nat) + layer_steps(net, l));
        assert(layer_steps(net, l)[j] == Step::Activate { node: q as usize });
        lemma_steps_prefix(net, (u + 1) as nat, t);
        assert(steps[start + j] == Step::Activate { node: q as usize });
    }
    assert forall|pa: int, pb: int| 0 <= pa < steps.len() && 0 <= pb < steps.len()
        && #[trigger] steps[pa] is Activate && #[trigger] steps[pb] == steps[pa] implies pa == pb by {
        let u1 = lemma_locate(net, t, pa);
        let u2 = lemma_locate(net, t, pb);
        let l1 = propagation_layer(k, u1 as int);
        let l2 = propagation_layer(k, u2 as int);
        let off1 = pa - steps_through(net, u1).len();
        let off2 = pb - steps_through(net, u2).len();
        lemma_layer_step(net, l1, off1);
        lemma_layer_step(net, l2, off2);
        lemma_layer_indices(net.nodes, l1);
        lemma_layer_indices(net.nodes, l2);
        assert(u1 == u2);
        let idx = layer_indices(net.nodes, l1);
        if off1 < off2 {
            assert(idx[off1] < idx[off2]);
        } else if off2 < off1 {
            assert(idx[off2] < idx[off1]);
        }
    }
    assert forall|pa: int, pb: int| 0 <= pa < steps.len() && 0 <= pb < steps.len()
        implies (#[trigger] steps[pa] matches Step::Accumulate { to, .. }
            ==> (#[trigger] steps[pb] == Step::Activate { node: to } ==> pa < pb)) by {
        if let Step::Accumulate { edge, from, to } = steps[pa] {
            if steps[pb] == (Step::Activate { node: to }) {
                let u1 = lemma_locate(net, t, pa);
                let u2 = lemma_locate(net, t, pb);
                let l1 = propagation_layer(k, u1 as int);
                let l2 = propagation_layer(k, u2 as int);
                lemma_layer_step(net, l1, pa - steps_through(net, u1).len());
                lemma_layer_step(net, l2, pb - steps_through(net, u2).len());
                lemma_layer_indices(net.nodes, l1);
                lemma_layer_indices(net.nodes, l2);
                assert(net.nodes[from as int].layer_id == l1);
                assert(net.nodes[to as int].layer_id == l2);
                assert(layer_lt(l1, l2));
                assert(u1 < u2);
                lemma_steps_prefix(net, (u1 + 1) as nat, u2);
            }
        }
    }
    assert forall|pa: int, pb: int| 0 <= pa < steps.len() && 0 <= pb < steps.len()
        implies (#[trigger] steps[pa] matches Step::Accumulate { from, .. }
            ==> (#[trigger] steps[pb] == Step::Activate { node: from } ==> pb < pa)) by {
        if let Step::Accumulate { edge, from, to } = steps[pa] {
            if steps[pb] == (Step::Activate { node: from }) {
                let u1 = lemma_locate(net, t, pa);
                let u2 = lemma_locate(net, t, pb);
                let l1 = propagation_layer(k, u1 as int);
                let l2 = propagation_layer(k, u2 as int);
                lemma_layer_step(net, l1, pa - steps_through(net, u1).len());
                lemma_layer_step(net, l2, pb - steps_through(net, u2).len());
                lemma_layer_indices(net.nodes, l1);
                lemma_layer_indices(net.nodes, l2);
                assert(net.nodes[from as int].layer_id == l1);
                assert(net.nodes[from as int].layer_id == l2);
                assert(u1 == u2);
            }
        }
    }
}

impl Network {
    /// The schedule of a propagation pass over this network.
    ///
    /// Layers are taken in ascending order. When a layer becomes current,
    /// each of its nodes (but input nodes) gets its bias added and its
    /// activation function applied once, after every edge into it has been
    /// summed, since edges only come from earlier layers; then the edges
    /// leaving the layer's nodes are summed into their destinations, node by
    /// node and edge by edge.
    pub fn plan(&self) -> (r: Plan)
        requires
            self.wf(),
        ensures
            r.inputs@ == layer_indices(self@.nodes, LayerID::InputLayer),
            r.outputs@ == layer_indices(self@.nodes, LayerID::OutputLayer),
            r.steps@ == propagation_steps(self@),
    {
        let nodes = self.nodes();
        let n_layers: usize = self.layers().len();
        let hidden: usize = n_layers - 2;
        let mut steps: Vec<Step> = Vec::new();
        let mut t: usize = 0;
        while t < n_layers
            invariant
                self.wf(),
                n_layers == hidden + 2,
                nodes@ == self@.nodes,
                hidden == self@.hidden_count(),
                t <= hidden + 2,
                steps@ == steps_through(self@, t as nat),
            decreases hidden + 2 - t,
        {
            let layer = if t == 0 {
                LayerID::InputLayer
            } else if t <= hidden {
                LayerID::HiddenLayer(t - 1)
            } else {
                LayerID::OutputLayer
            };
            assert(layer == propagation_layer(hidden as int, t as int));
            let idx = indices_in_layer(nodes, layer);
            proof {
                lemma_layer_indices(self@.nodes, layer);
            }
            let ghost base = steps@;
            let ghost acts: Seq<Step> = if layer is InputLayer { Seq::empty() } else { activate_steps(idx@) };
            if t > 0 {
                let mut p: usize = 0;
                while p < idx.len()
                    invariant
                        p <= idx@.len(),
                        steps@ == base + activate_steps(idx@.subrange(0, p as int)),
                    decreases idx@.len() - p,
                {
                    steps.push(Step::Activate { node: idx[p] });
                    assert(steps@ =~= base + activate_steps(idx@.subrange(0, p + 1)));
                    p = p + 1;
                }
                assert(idx@.subrange(0, p as int) =~= idx@);
            }
            assert(steps@ =~= base + acts);
            let mut p: usize = 0;
            while p < idx.len()
                invariant
                    self.wf(),
                    nodes@ == self@.nodes,
                    idx@ == layer_indices(self@.nodes, layer),
                    forall|q: int| 0 <= q < idx@.len() ==> #[trigger] idx@[q] < self@.nodes.len(),
                    p <= idx@.len(),
                    steps@ == base + acts + accumulate_steps(self@, idx@.subrange(0, p as int)),
                decreases idx@.len() - p,
            {
                proof {
                    assert(idx@.subrange(0, p + 1).drop_last() =~= idx@.subrange(0, p as int));
                }
                push_outgoing(self, idx[p], &mut steps);
                assert(steps@ =~= base + acts + accumulate_steps(self@, idx@.subrange(0, p + 1)));
                p = p + 1;
            }
            assert(idx@.subrange(0, p as int) =~= idx@);
            assert(steps@ =~= steps_through(self@, (t + 1) as nat));
            t = t + 1;
        }
        Plan {
            inputs: indices_in_layer(nodes, LayerID::InputLayer),
            steps,
            outputs: indices_in_layer(nodes, LayerID::OutputLayer),
        }
    }

    /// The schedule of a pass on `input_count` inputs: refused when that
    /// differs from the number of input nodes.
    pub fn fire_plan(&self, input_count: usize) -> (r: Result<Plan, NetworkError>)
        requires
            self.wf(),
        ensures
            r is Err <==> input_count != layer_indices(self@.nodes, LayerID::InputLayer).len(),
            r is Err ==> r == Err::<Plan, NetworkError>(NetworkError::InputCount),
            r matches Ok(p) ==> {
                &&& p.inputs@ == layer_indices(self@.nodes, LayerID::InputLayer)
                &&& p.outputs@ == layer_indices(self@.nodes, LayerID::OutputLayer)
                &&& p.steps@ == propagation_steps(self@)
            },
    {
        let plan = self.plan();
        if plan.inputs.len() != input_count {
            return Err(NetworkError::InputCount);
        }
        Ok(plan)
    }
}

} // verus!
