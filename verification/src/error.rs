//! The errors that configuration and path resolution can report.

use vstd::prelude::*;

verus! {

/// A failure while resolving a module path or completing the
/// configuration record.  Field values are byte strings, as everywhere
/// in this library.
#[derive(Debug)]
pub enum ModuleError {
    /// The module directory cannot be resolved for this environment
    /// and region.
    NotADirectory { environment: Vec<u8>, region: Vec<u8> },
    /// A required configuration value was never selected; the payload
    /// names the missing field.
    IncompleteConfig(Vec<u8>),
}

} // verus!
