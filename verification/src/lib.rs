//! Typed extensions for error reports.
//!
//! A report handler of this crate carries a type map beside the handler it
//! wraps. Whoever produces an error can attach a value of any type to it, and
//! whoever handles the error later can ask for that value by its type alone.
pub mod extensions;
pub mod handler;
mod private;

pub use extensions::map::Extensions;
pub use extensions::Extension;
pub use extensions::ExtensionExt;
pub use handler::Handler;
