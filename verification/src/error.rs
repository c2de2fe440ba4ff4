use vstd::prelude::*;

verus! {

/// The failures the library distinguishes.
#[derive(Debug, Clone, PartialEq, Eq)]
pub enum Error {
    /// The underlying store reported an I/O or corruption error; the
    /// message comes from the engine.
    DbError(String),
    /// The request's FEN does not parse or is not a legal position.
    BadPosition(String),
    /// The requested number of principal variations is outside 1 to 5.
    MultiPvRange { n: usize },
    /// A value blob violates the record format.
    MalformedBlob,
}

} // verus!
