//! The error taxonomy of the library.

use vstd::prelude::*;

verus! {

/// A terminal failure of parsing or lowering.
///
/// `NotImplemented` carries the raw source text of the construct that the
/// lowering engine cannot translate yet (a `has` check or a free-form
/// function call that matched a catalog column).
#[derive(Debug, PartialEq)]
pub enum ODataError {
    Url,
    IncompletePath,
    InvalidOperation,
    InvalidQueryTopSkip,
    InvalidQueryOrderBy,
    NotImplemented(String),
}

/// Shorthand for results that fail with an [`ODataError`].
pub type ODataResult<T> = Result<T, ODataError>;

} // verus!
