//! The errors that the library reports.
use vstd::prelude::*;

verus! {

/// Why a step of resolving or rewriting nanoservices failed.
#[derive(Debug, Clone, Copy, PartialEq, Eq, Structural)]
pub enum ForgeError {
    /// A manifest path has no parent directory to resolve from.
    NoParentDirectory,
    /// No relative path leads from a manifest's directory to an artifact.
    NoRelativePath,
    /// A layer entry of an image manifest is not a string.
    MalformedLayer,
    /// A layer blob is shorter than the two bytes that tell whether it is compressed.
    LayerTooShort,
}

} // verus!
