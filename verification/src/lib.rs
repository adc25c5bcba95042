//! A fixed-capacity, multi-field experience-replay store.
//!
//! Transitions produced by an agent (observation, action, reward, ...) are
//! pushed into a ring buffer that keeps one dense, shape-checked array per
//! field, and uniformly random mini-batches are sampled from it, with every
//! field gathered at the same indices.

pub mod buffer;
pub mod elem;
pub mod errors;
pub mod record;
pub mod store;
pub mod tensor;

pub use buffer::{Batch, FieldSpec, ReplayBuffer};
pub use elem::{Dtype, Elem};
pub use errors::ReplayError;
pub use store::FieldStore;
pub use tensor::Tensor;

use vstd::prelude::*;

verus! {

/// Step-information marker for gym-style environments; carries no data.
pub struct PyGymInfo {}

} // verus!
