//! The error that a search can end in.

use vstd::prelude::*;

verus! {

/// Why a search could not be carried out.
#[derive(Debug)]
pub enum SearchError {
    /// A regular-expression query that the regex engine does not accept.
    InvalidPattern {
        /// The pattern as it was handed to the engine.
        pattern: String,
        /// What the engine said about it.
        reason: String,
    },
}

/// A `SearchError` as plain values.
pub struct SearchErrorView {
    pub pattern: Seq<char>,
    pub reason: Seq<char>,
}

impl View for SearchError {
    type V = SearchErrorView;

    open spec fn view(&self) -> SearchErrorView {
        match self {
            SearchError::InvalidPattern { pattern, reason } => SearchErrorView {
                pattern: pattern@,
                reason: reason@,
            },
        }
    }
}

impl SearchError {
    /// The pattern that was refused.
    pub fn pattern(&self) -> (r: String)
        ensures
            r@ == self@.pattern,
    {
        match self {
            SearchError::InvalidPattern { pattern, .. } => pattern.clone(),
        }
    }

    /// A description for the user: the engine's words about the refused pattern.
    pub fn message(&self) -> (r: String)
        ensures
            r@ == self@.reason,
    {
        match self {
            SearchError::InvalidPattern { reason, .. } => reason.clone(),
        }
    }
}

} // verus!
