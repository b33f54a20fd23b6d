//! Query-compilation and execution core: a logical plan tree with rewrite
//! passes (column pruning, multi-way join flattening), dual physical
//! realization (batch / stream), and a vectorized grouped hash-aggregation
//! executor over columnar batches.

pub mod agg;
pub mod binder;
pub mod catalog;
pub mod chunk;
pub mod error;
pub mod expr;
pub mod generate_series;
pub mod hash_agg;
pub mod hash_key;
pub mod multi_join;
pub mod physical;
pub mod pruning;
pub mod plan_node;
pub mod semantics;

use vstd::prelude::*;

verus! {

} // verus!
