//! Rendering of finished test-run result trees into console and text reports.

pub mod fragment;
pub mod laws;
pub mod reporter;
pub mod results;
pub mod text;
