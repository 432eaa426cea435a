//! Resolves a location in a compiled module's instruction stream to the
//! source text that produced it, with a bounded window of surrounding text.

pub mod context;
pub mod viewer;

pub use context::{context_bounds, source_context, SourceContext, ViewerError};
pub use viewer::{ModuleViewer, Span, CONTEXT_SIZE};
