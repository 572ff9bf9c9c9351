//! Parser and encoder for hardware peripheral descriptions.
//!
//! The library converts between a generic attributed tree of named nodes and
//! a strongly typed, validated model of a peripheral (registers, bit fields,
//! clusters, interrupts), and back again.

pub mod bitrange;
pub mod error;
pub mod num;
pub mod svd;
pub mod tree;
