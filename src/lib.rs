//! Document translation pipeline: a task registry, a batched page
//! scheduler with cancellation, a retry policy for external calls,
//! per-page checkpoint bookkeeping and a small PDF writer.
pub mod checkpoint;
pub mod config;
pub mod lifecycle;
pub mod pdf;
pub mod pdf_text;
pub mod render;
pub mod retry;
pub mod scheduler;
pub mod state;
pub mod text;
pub mod translate;
