//! Schedule generation for a two-stage outer-product GEMM accelerator.
//!
//! A fixed set of mapper processing elements computes partial outer
//! products; a fixed set of reducer processing elements accumulates them.
//! The planner lends spare mapper scratchpad to reducers, partitions a GEMM
//! problem over both stages and emits the operations of one valid execution
//! order, each with the identifiers of the operations it waits for.

pub mod emit;
pub mod error;
pub mod json;
pub mod label;
pub mod numbering;
pub mod op;
pub mod order;
pub mod outer_product;
pub mod rental;
pub mod schedule;
pub mod text;
pub mod util;
