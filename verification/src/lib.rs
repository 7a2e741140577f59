//! AnyVM: a small, embeddable 64-bit big-endian virtual machine.
//!
//! The execution core is specified by a small-step interpreter over an
//! abstract machine state ([`sem::MState`]); the executable interpreter is
//! proved to implement it step by step.

pub mod error;
pub mod word;
pub mod hosts;
pub mod sem;
pub mod image;
pub mod machine;
pub mod invoke;
pub mod laws;

pub use error::{InvokeErr, InvokeResult, MemResult, MemoryErr};
pub use hosts::{stdabi, ExtData, HostFn, Table};
pub use image::Image;
pub use machine::Machine;
