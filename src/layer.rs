use vstd::prelude::*;

verus! {

/// Assigned to a node to indicate which layer it is in.
///
/// The layers are totally ordered: the input layer comes first, then the
/// hidden layers by their ordinal, and the output layer last.
#[derive(PartialEq, Eq, Structural, Ord, Debug, Clone, Copy)]
pub enum LayerID {
    /// The input layer.
    InputLayer,
    /// A hidden layer, with an ordinal.
    HiddenLayer(usize),
    /// The output layer.
    OutputLayer,
}

/// The position of a layer in the total order.
pub open spec fn layer_rank(l: LayerID) -> int {
    match l {
        LayerID::InputLayer => 0,
        LayerID::HiddenLayer(h) => h + 1,
        LayerID::OutputLayer => usize::MAX + 2,
    }
}

/// `a` comes strictly before `b` in the layer order.
pub open spec fn layer_lt(a: LayerID, b: LayerID) -> bool {
    layer_rank(a) < layer_rank(b)
}

pub open spec fn ordering_of(a: int, b: int) -> core::cmp::Ordering {
    if a < b {
        core::cmp::Ordering::Less
    } else if a == b {
        core::cmp::Ordering::Equal
    } else {
        core::cmp::Ordering::Greater
    }
}

impl LayerID {
    /// Compares two layers in the total order.
    pub fn compare(&self, other: &LayerID) -> (r: core::cmp::Ordering)
        ensures
            r == ordering_of(layer_rank(*self), layer_rank(*other)),
    {
        match (self, other) {
            (LayerID::InputLayer, LayerID::InputLayer) => core::cmp::Ordering::Equal,
            (LayerID::InputLayer, _) => core::cmp::Ordering::Less,
            (LayerID::OutputLayer, LayerID::OutputLayer) => core::cmp::Ordering::Equal,
            (LayerID::OutputLayer, _) => core::cmp::Ordering::Greater,
            (LayerID::HiddenLayer(x), LayerID::HiddenLayer(y)) => {
                if *x < *y {
                    core::cmp::Ordering::Less
                } else if *x == *y {
                    core::cmp::Ordering::Equal
                } else {
                    core::cmp::Ordering::Greater
                }
            },
            (_, LayerID::InputLayer) => core::cmp::Ordering::Greater,
            (_, LayerID::OutputLayer) => core::cmp::Ordering::Less,
        }
    }

    /// Whether `self` comes strictly before `other`.
    pub fn precedes(&self, other: &LayerID) -> (r: bool)
        ensures
            r == layer_lt(*self, *other),
    {
        match self.compare(other) {
            core::cmp::Ordering::Less => true,
            _ => false,
        }
    }

    /// Whether this is a hidden layer.
    pub fn is_hidden(&self) -> (r: bool)
        ensures
            r == (*self is HiddenLayer),
    {
        match self {
            LayerID::HiddenLayer(_) => true,
            _ => false,
        }
    }
}

impl PartialOrd for LayerID {
    fn partial_cmp(&self, other: &LayerID) -> (r: Option<core::cmp::Ordering>) {
        Some(self.compare(other))
    }
}

impl vstd::std_specs::cmp::PartialOrdSpecImpl for LayerID {
    open spec fn obeys_partial_cmp_spec() -> bool {
        true
    }

    open spec fn partial_cmp_spec(&self, other: &LayerID) -> Option<core::cmp::Ordering> {
        Some(ordering_of(layer_rank(*self), layer_rank(*other)))
    }
}

} // verus!
