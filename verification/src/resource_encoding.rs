//! The file-encoding tag a declaration may carry.
use vstd::prelude::*;

verus! {

/// Whether a resource's file is text or binary. The tag is informational
/// only: it never changes how a file is hashed or copied.
#[derive(Debug, Clone, Copy, PartialEq, Eq, Structural)]
pub enum ResourceEncoding {
    Txt,
    Bin,
}

} // verus!
