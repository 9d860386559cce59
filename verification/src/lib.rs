//! SIGMOS: a declarative specification language for reactive, composable
//! components.
//!
//! The crate implements the language core: a hand-written lexer and
//! recursive-descent parser that turn source text into a `Spec` document,
//! a type checker that validates field types and expression types against
//! that document, a tree-walking evaluator with an owned execution context,
//! and a plugin capability registry that resolves provider names and aliases.

use vstd::prelude::*;

pub mod ast;
pub mod engine;
pub mod lexer;
pub mod parser;
pub mod registry;
pub mod rest;
pub mod num;
pub mod runtime;
pub mod text;
pub mod transpiler;
pub mod types;
pub mod value;

verus! {

/// Errors raised while parsing or validating a specification.
#[derive(Debug)]
pub enum ParseError {
    /// Lexical or structural parse failure; parsing aborts at the first one.
    Grammar(String),
    /// Semantic validation failure.
    Semantic(String),
    /// Type system rejection.
    Type(String),
}

impl ParseError {
    /// The human-readable text carried by the error.
    pub fn message(&self) -> (r: &String)
        ensures
            r == self.text(),
    {
        match self {
            ParseError::Grammar(s) => s,
            ParseError::Semantic(s) => s,
            ParseError::Type(s) => s,
        }
    }

    /// The text carried by the error, whatever its variant.
    pub open spec fn text(&self) -> String {
        match self {
            ParseError::Grammar(s) => *s,
            ParseError::Semantic(s) => *s,
            ParseError::Type(s) => *s,
        }
    }
}

/// Result type for parsing operations.
pub type ParseResult<T> = Result<T, ParseError>;

/// Errors raised by the plugin system.
#[derive(Debug)]
pub enum PluginError {
    /// A provider could not be registered or set up.
    InitializationFailed(String),
    /// A provider does not offer the requested method.
    MethodNotFound(String),
    /// A provider operation failed.
    ExecutionFailed(String),
    /// A provider was handed an unusable configuration.
    InvalidConfiguration(String),
    /// A provider could not reach its network collaborator.
    NetworkError(String),
    /// A provider could not encode or decode a payload.
    SerializationError(String),
}

impl PluginError {
    /// The human-readable text carried by the error.
    pub fn message(&self) -> (r: &String)
        ensures
            r == self.text(),
    {
        match self {
            PluginError::InitializationFailed(s) => s,
            PluginError::MethodNotFound(s) => s,
            PluginError::ExecutionFailed(s) => s,
            PluginError::InvalidConfiguration(s) => s,
            PluginError::NetworkError(s) => s,
            PluginError::SerializationError(s) => s,
        }
    }

    /// The text carried by the error, whatever its variant.
    pub open spec fn text(&self) -> String {
        match self {
            PluginError::InitializationFailed(s) => *s,
            PluginError::MethodNotFound(s) => *s,
            PluginError::ExecutionFailed(s) => *s,
            PluginError::InvalidConfiguration(s) => *s,
            PluginError::NetworkError(s) => *s,
            PluginError::SerializationError(s) => *s,
        }
    }
}

} // verus!
