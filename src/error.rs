use vstd::prelude::*;

verus! {

/// The ways in which loading or querying fonts can fail.
#[derive(Debug, Clone, Copy, PartialEq, Eq, Structural)]
pub enum FontError {
    /// The font file is missing or cannot be read.
    SourceUnavailable,
    /// The font file's bytes are not a font.
    ParseFailed,
    /// The system font resolver found no file for the name.
    NameUnresolved,
    /// The requested (name, size) pair was never loaded, or the map is not ready.
    NotLoaded,
    /// The deferred map was left mid-transition.
    InvalidState,
}

} // verus!
