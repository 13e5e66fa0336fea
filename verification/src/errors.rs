use vstd::prelude::*;

verus! {

/// The error taxonomy of the storage core. Every fallible operation of the
/// library reports one of these; none panics.
#[derive(Clone, Copy, Debug, PartialEq, Eq, Structural)]
pub enum ObjectError {
    /// A digest has no stored object, or a walk root does not exist.
    NotFound,
    /// An object body cannot be parsed: missing newline, wrong token count,
    /// unknown kind tag, or a non-numeric size argument.
    FormatError,
    /// The caller asked for one object kind but the stored kind differs.
    TypeMismatch,
    /// Directory creation or file read/write failed for a reason other than
    /// simple absence.
    StorageIOError,
    /// A glob pattern string is syntactically invalid.
    PatternCompileError,
}

} // verus!
