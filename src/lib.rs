//! Packaging of multi-language flipbooks: a source description is turned into a
//! metadata document and one binary blob that holds every asset back to back.
//!
//! `compile` is the builder; `laws` states what holds of every build. The remaining
//! modules hold the logic of the mock-flipbook generator and of the package servers.

pub mod paths;
pub mod string_id;
pub mod source;
pub mod files;
pub mod package;
pub mod compile;
pub mod laws;
pub mod mock_args;
pub mod catalog;
pub mod miniature;
pub mod sample_text;
pub mod generator;
pub mod server;
