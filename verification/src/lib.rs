//! Verified core of an HTTP event dispatcher: configuration model and
//! validation, pipeline wiring, template rendering, sink/source decisions and
//! the runtime error type.

pub mod cli;
pub mod component;
pub mod config;
pub mod error;
pub mod format;
pub mod json;
pub mod pipeline;
pub mod sinks;
pub mod sources;
pub mod template;
pub mod text;
pub mod transforms;

pub use error::RuntimeError;
