//! Why a catalog could not be built.

use vstd::prelude::*;

verus! {

/// A reason for which building the catalog fails.
#[derive(Debug, Clone, Copy, PartialEq, Eq, Structural)]
pub enum LoadError {
    /// An image's base name has no `_` before its cell size.
    MissingSizeSuffix,
    /// The text after an image's last `_` is not `WxH` with two positive integers.
    InvalidSize,
    /// Two images reduce to the same sheet key.
    DuplicateSheet,
}

} // verus!
