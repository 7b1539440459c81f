//! Status enumerations and the request transition table.
use vstd::prelude::*;

verus! {

/// Lifecycle status of an installation request.
#[derive(Debug, Clone, Copy, PartialEq, Eq, Structural)]
pub enum RequestStatus {
    Created,
    Processed,
    Completed,
    Canceled,
    Deleted,
}

/// Processing status of one line item (a software inside a request).
#[derive(Debug, Clone, Copy, PartialEq, Eq, Structural)]
pub enum SoftwareStatus {
    New,
    Processed,
    Completed,
    Failed,
    Canceled,
}

/// The transition table: `from -> to` is a legal step of the lifecycle.
pub open spec fn is_transition(from: RequestStatus, to: RequestStatus) -> bool {
    ||| from == RequestStatus::Created && to == RequestStatus::Processed
    ||| from == RequestStatus::Processed && to == RequestStatus::Completed
    ||| (from == RequestStatus::Created || from == RequestStatus::Processed) && to
        == RequestStatus::Canceled
    ||| from != RequestStatus::Deleted && to == RequestStatus::Deleted
}

/// Only cancellation may be asked for by the owner; every other step is
/// reserved to moderators.
pub open spec fn needs_moderator(to: RequestStatus) -> bool {
    to != RequestStatus::Canceled
}

/// Executable form of the transition table.
pub fn transition_allowed(from: RequestStatus, to: RequestStatus) -> (r: bool)
    ensures
        r == is_transition(from, to),
{
    match (from, to) {
        (RequestStatus::Created, RequestStatus::Processed) => true,
        (RequestStatus::Processed, RequestStatus::Completed) => true,
        (RequestStatus::Created, RequestStatus::Canceled) => true,
        (RequestStatus::Processed, RequestStatus::Canceled) => true,
        (RequestStatus::Deleted, _) => false,
        (_, RequestStatus::Deleted) => true,
        _ => false,
    }
}

/// Executable form of `needs_moderator`.
pub fn moderator_only(to: RequestStatus) -> (r: bool)
    ensures
        r == needs_moderator(to),
{
    !matches!(to, RequestStatus::Canceled)
}

} // verus!
