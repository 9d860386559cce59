//! The transpiler handle: rendering a specification into interchange
//! formats is a mechanical transcoding layer over the data model and lives
//! with the serialization collaborator outside the library.

use vstd::prelude::*;

verus! {

/// Errors raised while rendering a specification to another format.
pub enum TranspilerError {
    /// Rendering to JSON failed.
    Json(String),
    /// Rendering to YAML failed.
    Yaml(String),
    /// Rendering to TOML failed.
    Toml(String),
}

/// Result type for transpiler operations.
pub type TranspilerResult<T> = Result<T, TranspilerError>;

/// A handle for converting specifications to interchange formats.
#[derive(Debug)]
pub struct Transpiler;

impl Transpiler {
    /// Create a new transpiler instance.
    pub fn new() -> Transpiler {
        Transpiler
    }
}

impl Default for Transpiler {
    fn default() -> Transpiler {
        Transpiler::new()
    }
}

} // verus!
