//! A small reverse-mode automatic-differentiation engine.
//!
//! Tensors live in an arena (`graph::Graph`) and are addressed by index.
//! Every operator call, on inputs of valid shapes, computes its output at once
//! and records a node; `graph::backward` seeds the gradient of a result and
//! runs the backward step of each node that gradient reaches, exactly once,
//! after every node that passes gradient to it. The element type is generic:
//! the library moves and combines values, with the scalar arithmetic (the
//! rules of each operator) supplied by the caller as closures.
pub mod shape;
pub mod variable;
pub mod ops;
pub mod functions;
pub mod graph;
pub mod backprop;
pub mod parametric_functions;
pub mod datasets;
