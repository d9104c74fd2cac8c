//! Why a license code could not be built.
use vstd::prelude::*;

verus! {

#[derive(Debug, Clone, Copy, PartialEq, Eq, Structural)]
pub enum LicenseError {
    /// The version is not of the shape `major.minor`.
    InvalidFormat,
    /// The version pattern itself could not be compiled.
    PatternRejected,
}

} // verus!
