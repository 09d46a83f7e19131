//! # nnrs
//! A minimal feed-forward neural network with a structural evolutionary trainer.
//!
//! The network is a layered directed graph: nodes live in layers, edges run
//! from an earlier layer to a strictly later one, so the graph is acyclic and
//! its topological order is the layer order. Numeric parameters (weights,
//! biases, thresholds) are carried as IEEE 754 bit patterns in [`scalar::Scalar`];
//! the library moves and stores them but does no floating-point arithmetic.

/// Contains the `LayerID` enum and its total order.
pub mod layer;

/// Activation functions.
pub mod activationfn;

/// Edges represent connections between nodes.
pub mod edge;

/// Contains the `Network` struct. Use this to interact with your network.
pub mod network;

/// Nodes are the basic building blocks of a neural network.
pub mod node;

/// Real numbers carried by their bit patterns.
pub mod scalar;

/// The schedule of a forward propagation pass.
pub mod propagation;

/// Structural and parametric mutation of a network.
pub mod mutation;

/// Random draws.
mod random;

/// The settings of an evolution environment.
pub mod settings;

/// The evolution loop: population, selection and mutation.
pub mod environment;
