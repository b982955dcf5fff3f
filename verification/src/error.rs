//! The error taxonomy of the engine.

use vstd::prelude::*;

verus! {

/// Everything that can go wrong while building indexes or looking up rows.
#[derive(Clone, Copy, Debug, PartialEq, Eq, Structural)]
pub enum Error {
    /// The requested table name is not present in the registry.
    UnknownTable,
    /// No registry was configured for the compilation unit; produced by the
    /// embedding that owns the compile context, never by this crate.
    TablesNotLoaded,
    /// A lookup was attempted through a read-only view taken before the
    /// registry was sealed.
    NotLoaded,
    /// A mutation was attempted after the registry was sealed.
    LoadingClosed,
    /// A resolved predicate value had a shape that is neither an exact value
    /// nor a two-ended range.
    ConditionTypeError,
    /// No row satisfied the conditions.
    NotFound,
    /// More than one row satisfied the conditions; an ambiguous enrichment is
    /// never resolved silently.
    MultipleMatches,
    /// A requested column does not exist in the table's schema.
    UnknownColumn,
}

impl Error {
    /// A short, stable description of the error.
    pub fn describe(&self) -> (r: &'static str)
        ensures
            r@ == self.describe_spec(),
    {
        match self {
            Error::UnknownTable => "unknown table",
            Error::TablesNotLoaded => "enrichment tables not loaded",
            Error::NotLoaded => "enrichment table data not loaded",
            Error::LoadingClosed => "the loading stage is closed",
            Error::ConditionTypeError => "condition has the wrong shape",
            Error::NotFound => "no rows found",
            Error::MultipleMatches => "more than one row found",
            Error::UnknownColumn => "unknown column",
        }
    }

    pub open spec fn describe_spec(&self) -> Seq<char> {
        match self {
            Error::UnknownTable => "unknown table"@,
            Error::TablesNotLoaded => "enrichment tables not loaded"@,
            Error::NotLoaded => "enrichment table data not loaded"@,
            Error::LoadingClosed => "the loading stage is closed"@,
            Error::ConditionTypeError => "condition has the wrong shape"@,
            Error::NotFound => "no rows found"@,
            Error::MultipleMatches => "more than one row found"@,
            Error::UnknownColumn => "unknown column"@,
        }
    }
}

} // verus!
