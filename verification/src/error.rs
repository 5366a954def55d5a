//! Error kinds of the compilation pipeline.

use vstd::prelude::*;

verus! {

/// A fatal compilation error. The pipeline aborts on the first error and
/// produces no output.
///
/// - `MissingEntry`: no controller-entry structure with a resolvable
///   `init_entry` assignment was found.
/// - `UnknownType`: a declared type is absent from the conversion table.
/// - `UnsupportedVerb`: a guard operator cannot be lowered to an integer
///   comparison.
/// - `MalformedTransition`: a transition's action keyword is unknown or
///   its target is not a plain identifier.
/// - `NotImplemented`: an expression form that the generator does not
///   lower.
#[derive(Debug, PartialEq, Eq, Structural, Clone, Copy)]
pub enum CompileError {
    MissingEntry,
    UnknownType,
    UnsupportedVerb,
    MalformedTransition,
    NotImplemented,
}

} // verus!
