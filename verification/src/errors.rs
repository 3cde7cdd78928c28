//! The error taxonomy: syntax errors from the script grammar, coercion errors
//! from typing raw tokens, and execution errors from the engine. All are
//! values returned to the caller; no verified function panics.

use vstd::prelude::*;

verus! {

/// Failures while executing instructions against an image.
#[derive(Debug, Clone, PartialEq, Eq)]
pub enum SicImageEngineError {
    /// A referenced image file could not be opened or decoded.
    LoadImageFromPath,
    /// A sampling-filter name is not in the closed set of filter names.
    UnknownFilterType(String),
}

impl SicImageEngineError {
    /// A short description, for display at the tool's boundary.
    pub fn message(&self) -> (r: &'static str) {
        match self {
            SicImageEngineError::LoadImageFromPath => "unable to load image from the given path",
            SicImageEngineError::UnknownFilterType(_) => "unknown sampling filter type",
        }
    }
}

/// Failures while turning script text into typed operations.
#[derive(Debug, Clone, PartialEq, Eq)]
pub enum SicParserError {
    FilterTypeError(SicImageEngineError),
    /// The script text does not match the grammar; the payload is the byte
    /// offset of the offending fragment.
    SyntaxError(usize),
    OperationError(OperationParamError),
    UnknownOperationError,
    ValueParsingError(String),
}

impl SicParserError {
    /// A short description, for display at the tool's boundary.
    pub fn message(&self) -> (r: &'static str) {
        match self {
            SicParserError::FilterTypeError(e) => e.message(),
            SicParserError::SyntaxError(_) => "sic parser error > malformed script text",
            SicParserError::OperationError(e) => e.message(),
            SicParserError::UnknownOperationError => "Parse failed: Operation doesn't exist",
            SicParserError::ValueParsingError(_) => "Unable to parse value",
        }
    }
}

/// Failures specific to environment-modifier statements.
#[derive(Debug, Clone, PartialEq, Eq)]
pub enum OperationParamError {
    SetEnvironment,
    SetEnvironmentElement(String),
    SetResizeSamplingFilter(String),
    UnsetEnvironment,
    UnsetEnvironmentElement(String),
}

impl OperationParamError {
    /// A short description, for display at the tool's boundary.
    pub fn message(&self) -> (r: &'static str) {
        match self {
            OperationParamError::SetEnvironment => "Unable to parse `set` environment command. Error: expected a single `set` inner element.",
            OperationParamError::SetEnvironmentElement(_) => "Unable to parse `set` environment command. Error on element.",
            OperationParamError::SetResizeSamplingFilter(_) => "Unable to parse 'set resize_sampling_filter' option.",
            OperationParamError::UnsetEnvironment => "Unable to parse `del` environment command. Error: expected a single `del` inner element.",
            OperationParamError::UnsetEnvironmentElement(_) => "Unable to parse `del` environment command. Error on element.",
        }
    }
}

/// The source of an internal failure in the operation layer.
#[derive(Debug, Clone, Copy, PartialEq, Eq, Structural)]
pub enum InternalErrorSource {
    NoMatchingOperator,
}

/// Failures while building instructions from named operations and their
/// argument tokens.
#[derive(Debug, Clone, PartialEq, Eq)]
pub enum SicCliOpsError {
    InternalError(InternalErrorSource),
    UnableToParseValueOfType { err: SicParserError, typ: String },
}

impl SicCliOpsError {
    /// A short description, for display at the tool's boundary.
    pub fn message(&self) -> (r: &'static str) {
        match self {
            SicCliOpsError::InternalError(_) => "No matching operator",
            SicCliOpsError::UnableToParseValueOfType { err: _, typ: _ } => "Unable to parse value of the expected type",
        }
    }
}

} // verus!
