//! The error taxonomy of the import pipeline. Every pass is fail-fast: the
//! first error aborts the whole import and no partial dictionary is returned.

use vstd::prelude::*;

verus! {

/// Why an import was aborted.
#[derive(Clone, Copy, Debug, PartialEq, Eq, Structural)]
pub enum DictError {
    /// The source document is missing a mandatory top-level section
    /// (fields, messages, components, header, or trailer).
    MalformedInput,
    /// A layout entry names a field or component that is not defined at the
    /// time of resolution.
    UnresolvedReference,
    /// The component dependency graph contains a cycle, so no valid
    /// definition order exists.
    CyclicDefinition,
    /// Two fields share a tag or a name, two components share a name, two
    /// messages share a name or a msg-type code, or a component claims one of
    /// the names reserved for the synthetic header and trailer components.
    DuplicateKey,
}

impl DictError {
    /// A short human-readable name for the error.
    pub fn as_str(&self) -> (r: &'static str)
        ensures
            r@ == match *self {
                DictError::MalformedInput => "malformed input"@,
                DictError::UnresolvedReference => "unresolved reference"@,
                DictError::CyclicDefinition => "cyclic definition"@,
                DictError::DuplicateKey => "duplicate key"@,
            },
    {
        match self {
            DictError::MalformedInput => "malformed input",
            DictError::UnresolvedReference => "unresolved reference",
            DictError::CyclicDefinition => "cyclic definition",
            DictError::DuplicateKey => "duplicate key",
        }
    }
}

} // verus!
