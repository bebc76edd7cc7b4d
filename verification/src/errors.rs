use vstd::prelude::*;

verus! {

/// The error kinds surfaced by the category operations.
///
/// A point lookup that finds nothing is a caller-contract violation and
/// yields `NotFound`. Listing all categories of an empty collection yields
/// the distinct `EmptyCollection`, so callers can tell "nothing exists yet"
/// from a missing record. `PersistenceFailure` marks a failed write at the
/// datastore edge, and `UpstreamNotFound` carries an unknown-user failure
/// from the user-lookup collaborator through unchanged.
#[derive(Clone, Copy, Debug, PartialEq, Eq, Structural)]
pub enum Error {
    NotFound,
    EmptyCollection,
    PersistenceFailure,
    UpstreamNotFound,
}

} // verus!
