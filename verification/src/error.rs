//! The engine's error taxonomy.

use crate::attribute::AttributeType;
use vstd::prelude::*;

verus! {

/// Every failure the engine reports falls in one of four categories:
///
/// - `InvalidInput`: malformed configuration supplied by the caller (an
///   unrecognized attribute type tag, an unknown field name in a filter);
///   the payload carries the offending text.
/// - `TypeMismatch`: an attribute value's variant does not match its
///   declared column's builder variant.
/// - `UpstreamParse`: the underlying format data is malformed.
/// - `IndexLookup`: a requested region cannot be resolved against the
///   sequence index.
///
/// No error is ever downgraded to a null or default value: nullability in
/// the data model means "attribute absent", never "error suppressed".
#[derive(Debug, Clone)]
pub enum EngineError {
    InvalidInput(String),
    TypeMismatch { expected: AttributeType, found: AttributeType },
    UpstreamParse(String),
    IndexLookup(String),
}

} // verus!
