//! Template compilation for the anansi web framework: a transpiler from
//! markup-with-expressions templates to rendering code, the incremental-build
//! rules that decide which templates to regenerate, and the record field types
//! that generated code and applications share.

pub mod text;
pub mod grammar;
pub mod scan;
pub mod parser;
pub mod inherit;
pub mod template;
pub mod incremental;
pub mod laws;
pub mod records;
pub mod auth;
