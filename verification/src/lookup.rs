//! Existence predicates over the outcome of one metadata lookup.
//!
//! The lookup itself — one metadata-without-symlink-follow operation — is
//! the filesystem collaborator's; callers perform it and hand the outcome
//! in as a plain value, so the decision below holds for every outcome.

use vstd::prelude::*;

verus! {

/// Outcome of one metadata-without-symlink-follow lookup.
#[derive(Clone, Copy, Debug, PartialEq, Eq, Structural)]
pub enum MetaOutcome {
    /// Metadata came back: the entry exists.
    Found,
    /// The entry was not found.
    NotFound,
    /// The lookup failed for any other reason, permissions among them.
    OtherError,
}

/// True only when the metadata lookup succeeded.
pub fn must_exists(outcome: &MetaOutcome) -> (r: bool)
    ensures
        r == (*outcome == MetaOutcome::Found),
{
    match outcome {
        MetaOutcome::Found => true,
        _ => false,
    }
}

/// True when the lookup succeeded or failed with anything other than
/// not-found: an inconclusive failure counts as existing.
pub fn maybe_exists(outcome: &MetaOutcome) -> (r: bool)
    ensures
        r == (*outcome != MetaOutcome::NotFound),
{
    match outcome {
        MetaOutcome::NotFound => false,
        _ => true,
    }
}

} // verus!
