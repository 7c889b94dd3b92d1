//! Diagnostic-rendering core for a compiler front end.
//!
//! Turns an abstract diagnostic (a message with a severity, a primary
//! location set and sub-diagnostics) into fully assembled per-file source
//! snippets with byte-addressed annotations, ready to hand to a text
//! renderer.

pub mod annotations;
pub mod collect;
pub mod diagnostic;
pub mod emitter;
pub mod globals;
pub mod level;
pub mod snippet;
pub mod source_map;

pub use level::{Level, RenderLevel};
