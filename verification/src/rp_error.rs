use vstd::prelude::*;

verus! {

/// The error taxonomy of the voting engine.  Each variant carries the one
/// identifier that is relevant to the failure: the voter's name for a
/// permission failure, the poll's name for a deadline or input failure, and
/// so on.  Presentation (formatting a message for a user) is left to callers.
#[derive(Debug, Clone, PartialEq, Eq)]
pub enum RPError {
    /// A poll, voter or action with the given name does not exist.
    NotFound(String),
    /// The named voter is not an allowed participant (or not an admin).
    PermissionDenied(String),
    /// A ballot for the named poll is malformed (a required choice is missing).
    InvalidInput(String),
    /// The named poll's deadline has passed and late votes are not allowed.
    TimedOut(String),
    /// The named voter gave the same score to two choices under an algorithm
    /// that requires pairwise-distinct scores.
    DuplicateRank(String),
    /// The named voting algorithm is declared but has no tallying rule yet.
    Unimplemented(String),
    /// A token failed signature, expiry or membership re-validation.  No
    /// detail beyond the class is carried, so nothing about the cause leaks.
    Unauthorized,
    /// Reading, writing or encoding the backing record failed.
    StorageError(String),
}

/// The mathematical image of an `RPError`: the same variants over `Seq<char>`.
pub enum RPErrorView {
    NotFound(Seq<char>),
    PermissionDenied(Seq<char>),
    InvalidInput(Seq<char>),
    TimedOut(Seq<char>),
    DuplicateRank(Seq<char>),
    Unimplemented(Seq<char>),
    Unauthorized,
    StorageError(Seq<char>),
}

impl View for RPError {
    type V = RPErrorView;

    open spec fn view(&self) -> RPErrorView {
        match self {
            RPError::NotFound(s) => RPErrorView::NotFound(s@),
            RPError::PermissionDenied(s) => RPErrorView::PermissionDenied(s@),
            RPError::InvalidInput(s) => RPErrorView::InvalidInput(s@),
            RPError::TimedOut(s) => RPErrorView::TimedOut(s@),
            RPError::DuplicateRank(s) => RPErrorView::DuplicateRank(s@),
            RPError::Unimplemented(s) => RPErrorView::Unimplemented(s@),
            RPError::Unauthorized => RPErrorView::Unauthorized,
            RPError::StorageError(s) => RPErrorView::StorageError(s@),
        }
    }
}

} // verus!
