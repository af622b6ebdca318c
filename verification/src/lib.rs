//! Renders a chain of causally linked errors as one human-readable report:
//! the root message first, then — when causes exist — a `Caused by:` section
//! listing every cause, each indented by four spaces and, when there are two
//! or more causes, numbered from zero.

pub mod chain;
pub mod laws;
pub mod sink;
pub mod text;

pub use chain::ErrorChain;
