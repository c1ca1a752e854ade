//! A debouncer for a noisy two-valued input.
//!
//! A [`Debounce`] engine takes raw samples one at a time and reports a change
//! of its stable state only once a full, uninterrupted run of samples has
//! disagreed with it. The engine allocates nothing and every step takes
//! constant time.
//!
//! Contracts are stated over [`Engine`], the mathematical model of an
//! engine; the laws that follow from it are proved in [`laws`].

pub mod signal;
pub mod model;
pub mod debouncer;
pub mod laws;

pub use crate::debouncer::Debounce;
pub use crate::model::Engine;
pub use crate::signal::{Change, State};
