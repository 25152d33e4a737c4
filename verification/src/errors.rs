//! Error taxonomy of the indexing pipeline.
use vstd::prelude::*;
use vstd::string::StringExecFns;

verus! {

/// Why symbol extraction failed for one file.
#[derive(Debug, Clone, Copy, PartialEq, Eq, Structural)]
pub enum ParseError {
    /// The grammar engine could not run a pattern query over the source:
    /// the grammar was unusable, parsing failed, or the query did not
    /// compile.
    UnparsableSource,
    /// A pattern query does not bind a required capture name.
    MissingCapture,
}

impl ParseError {
    /// A short human-readable description.
    pub fn message(&self) -> (r: String)
        ensures
            r@.len() > 0,
    {
        proof {
            reveal_strlit("failed to parse source or run its query");
            reveal_strlit("query missing a required capture");
        }
        match self {
            ParseError::UnparsableSource => String::from_str(
                "failed to parse source or run its query",
            ),
            ParseError::MissingCapture => String::from_str("query missing a required capture"),
        }
    }
}

/// Why a store operation failed.
#[derive(Debug)]
pub enum StoreError {
    /// No index exists where one was expected.
    NotFound,
    /// The embedding's length differs from the store's configured dimension.
    DimensionMismatch,
    /// An embedding component lies outside the fixed-point range.
    ComponentOutOfRange,
    /// The requested dimension is zero or larger than the supported limit.
    BadDimension,
    /// The on-disk schema does not describe a usable index.
    SchemaMismatch,
    /// The storage engine reported an error.
    Backend(String),
}

impl StoreError {
    /// A short human-readable description.
    pub fn message(&self) -> (r: String)
        ensures
            self matches StoreError::Backend(m) ==> r@ == m@,
            !(self is Backend) ==> r@.len() > 0,
    {
        proof {
            reveal_strlit("no index exists here");
            reveal_strlit("embedding length differs from the index dimension");
            reveal_strlit("embedding component out of range");
            reveal_strlit("unsupported index dimension");
            reveal_strlit("index schema is not usable");
        }
        match self {
            StoreError::NotFound => String::from_str("no index exists here"),
            StoreError::DimensionMismatch => String::from_str(
                "embedding length differs from the index dimension",
            ),
            StoreError::ComponentOutOfRange => String::from_str(
                "embedding component out of range",
            ),
            StoreError::BadDimension => String::from_str("unsupported index dimension"),
            StoreError::SchemaMismatch => String::from_str("index schema is not usable"),
            StoreError::Backend(m) => m.clone(),
        }
    }
}

} // verus!
