use vstd::prelude::*;
use crate::scalar::Scalar;

verus! {

/// Activation function for a node.
///
/// The set is closed: evaluating one is an exhaustive match.
#[derive(PartialEq, Eq, Structural, Debug, Clone, Copy)]
pub enum ActivationFn {
    /// `max(0, x)`
    ReLU,
    /// `1 / (1 + e^-x)`
    Sigmoid,
    /// `tanh(x)`
    Tanh,
    /// The identity.
    Linear,
    /// `max(0, x) + 0.01 x`
    LeakyReLU,
    /// `1` if `x` is above the threshold, else `0`.
    Step(Scalar),
}

/// The number of activation functions to choose from.
pub const ACTIVATION_CHOICES: usize = 6;

/// The activation function that choice number `k` (taken modulo the number of
/// functions) stands for, with `threshold` for a step function.
pub open spec fn activation_choice(k: nat, threshold: Scalar) -> ActivationFn {
    let c = k % (ACTIVATION_CHOICES as nat);
    if c == 0 {
        ActivationFn::Sigmoid
    } else if c == 1 {
        ActivationFn::Tanh
    } else if c == 2 {
        ActivationFn::ReLU
    } else if c == 3 {
        ActivationFn::Linear
    } else if c == 4 {
        ActivationFn::LeakyReLU
    } else {
        ActivationFn::Step(threshold)
    }
}

impl ActivationFn {
    /// Picks an activation function by a choice number, as a random draw does.
    pub fn select(choice: usize, threshold: Scalar) -> (r: ActivationFn)
        ensures
            r == activation_choice(choice as nat, threshold),
    {
        let c: usize = choice % ACTIVATION_CHOICES;
        if c == 0 {
            ActivationFn::Sigmoid
        } else if c == 1 {
            ActivationFn::Tanh
        } else if c == 2 {
            ActivationFn::ReLU
        } else if c == 3 {
            ActivationFn::Linear
        } else if c == 4 {
            ActivationFn::LeakyReLU
        } else {
            ActivationFn::Step(threshold)
        }
    }
}

} // verus!
