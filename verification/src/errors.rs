//! The failure taxonomy of a collation run.
use vstd::prelude::*;

verus! {

/// Every fatal condition of a run, each carrying a descriptive message.
/// None of these is recovered from: the run halts on the first one. The
/// sole non-fatal condition, a duplicate resource declaration, is not an
/// error but a report event.
#[derive(Debug, Clone, PartialEq, Eq)]
pub enum CollationError {
    /// The package path or manifest handed to the run was invalid.
    InputError(String),
    /// The dependency graph or the root package could not be obtained,
    /// or the graph lacks an entry for a declared package.
    MetadataError(String),
    /// A resource declaration (or the consumer's section) was malformed,
    /// or a declared path was absolute.
    DeclarationError(String),
    /// A required resource has no declaration, or a pinned hash did not
    /// match the computed one.
    RequirementError(String),
    /// A resolved output path escaped the resource root.
    PathSecurityError(String),
    /// Reading, hashing, copying or directory creation failed.
    IoError(String),
}

impl CollationError {
    /// The message carried by the error, whatever its variant.
    pub open spec fn spec_message(self) -> Seq<char> {
        match self {
            CollationError::InputError(m) => m@,
            CollationError::MetadataError(m) => m@,
            CollationError::DeclarationError(m) => m@,
            CollationError::RequirementError(m) => m@,
            CollationError::PathSecurityError(m) => m@,
            CollationError::IoError(m) => m@,
        }
    }

    /// Borrow the message carried by the error.
    pub fn message(&self) -> (r: &String)
        ensures
            r@ == self.spec_message(),
    {
        match self {
            CollationError::InputError(m) => m,
            CollationError::MetadataError(m) => m,
            CollationError::DeclarationError(m) => m,
            CollationError::RequirementError(m) => m,
            CollationError::PathSecurityError(m) => m,
            CollationError::IoError(m) => m,
        }
    }
}

} // verus!
