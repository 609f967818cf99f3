//! A configuration-value engine: named, typed flags whose values are merged
//! from JSON config texts, environment variables and command-line arguments,
//! in that fixed precedence order.

pub mod fault;
pub mod flag;
pub mod json;
pub mod laws;
pub mod load;
pub mod numtext;
pub mod registry;
pub mod text;
pub mod usage;
pub mod value;

pub use fault::{LoadFault, Warning};
pub use flag::Flag;
pub use registry::Flags;
pub use usage::generate_string;
pub use value::FlagValue;
