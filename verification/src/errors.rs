//! The fatal conditions a generation run can end with. Each carries the
//! offending path for diagnosis; any of them aborts the whole run and no
//! partial plan is returned.

use vstd::prelude::*;

verus! {

/// Why a run failed.
#[derive(Debug, Clone, PartialEq, Eq)]
pub enum WireError {
    /// A required (non-manual) dependency request names a path for which no
    /// provider is registered and no capability binding exists.
    MissingProvider { path: String },
    /// An annotated field's type reference matches no recognized shape; the
    /// declaration that carries the field is named.
    UnsupportedFieldType { provider: String },
    /// A declaration depends on itself, directly or through other
    /// declarations; the chain of paths that closes the cycle is carried.
    DependencyCycle { chain: Vec<String> },
}

} // verus!
