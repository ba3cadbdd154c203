//! Core of a deterministic, cost-metered Lisp-like expression engine.
//!
//! S-expressions are atoms (byte strings) or pairs, held in an arena behind
//! the [`allocator::Allocator`] capability; operators work on opaque node
//! handles and account an exact cost for every step.

pub mod allocator;
pub mod core_ops;
pub mod cost;
pub mod err_utils;
pub mod int_allocator;
pub mod node;
pub mod number;
pub mod op_utils;
pub mod reduction;
