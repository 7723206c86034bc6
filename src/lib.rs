//! Empirical estimation of an operation's asymptotic cost: an adaptive
//! sampler that measures the per-operation cost at growing input sizes, and
//! the preparation of a least-squares fit of those samples against candidate
//! growth terms.
pub mod component;
pub mod fit;
pub mod measure;
pub mod sampler;
