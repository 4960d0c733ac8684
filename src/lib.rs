//! Host-side model of an accelerator compute API: device buffers, an in-order
//! command queue, kernels with bound arguments, completion events and their
//! callbacks, together with small byte and slice utilities.
pub mod error;
pub mod event;
pub mod kernel;
pub mod queue;
pub mod results;
pub mod summary;
pub mod util;
