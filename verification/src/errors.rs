use vstd::prelude::*;

verus! {

/// What can go wrong when the collection store is asked something.
#[derive(Clone, Copy, Debug, PartialEq, Eq, Structural)]
pub enum DatabaseError {
    /// The store answered, but the statement failed or found no row.
    ResultError(),
    /// The store could not be reached.
    ConnectionError(),
}

/// What can go wrong when the remote playlist service is asked something.
#[derive(Clone, Copy, Debug, PartialEq, Eq, Structural)]
pub enum DeezerModuleError {
    /// The call failed, or its answer could not be read.
    DeezerError(),
}

/// The error kinds that an operation on collections reports to its caller.
#[derive(Clone, Copy, Debug, PartialEq, Eq, Structural)]
pub enum DomainError {
    /// An input was malformed; nothing was read or written.
    DomainParamError(),
    /// The collection store failed or did not hold what was asked for.
    DomainDataError(),
    /// The remote playlist service failed.
    DomainMusicServiceError(),
}

} // verus!
