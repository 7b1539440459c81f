//! The request lifecycle as seen by callers: ownership, roles, the transition
//! table and the draft ("add to my current request") flow.
use vstd::prelude::*;
use crate::model::{
    ApiError, Caller, Field, InsertRequest, OptionInsertRequest, Request, RequestFilter,
    RequestWithSoftwares,
};
use crate::status::{
    is_transition, moderator_only, needs_moderator, transition_allowed, RequestStatus,
    SoftwareStatus,
};
use crate::store::{patched_request, stamped, Database, DbView, MAX_ROWS};

verus! {

/// The caller may read and change request `r`: they own it or moderate.
pub open spec fn may_access(caller: Caller, r: Request) -> bool {
    caller.moderator || r.user_id == caller.uid
}

/// What asking request `id` to enter status `to` does: the store after it
/// and the updated request, or the error. Checks run in order: the role that
/// the target status needs (before any lookup), existence, ownership, the
/// transition table.
pub open spec fn status_change(db: DbView, caller: Caller, id: int, to: RequestStatus, now: u64) -> (
    DbView,
    Result<Request, ApiError>,
) {
    if needs_moderator(to) && !caller.moderator {
        (db, Err(ApiError::Forbidden))
    } else if !db.has_request(id) {
        (db, Err(ApiError::NotFound))
    } else if !may_access(caller, db.request(id)) {
        (db, Err(ApiError::Forbidden))
    } else if !is_transition(db.request(id).status, to) {
        (db, Err(ApiError::IllegalTransition))
    } else {
        (db.with_status(id, to, now), Ok(stamped(db.request(id), to, now)))
    }
}

/// The patch asks for something only a moderator may do: name a moderator,
/// or move to a status other than `Canceled`.
pub open spec fn patch_needs_moderator(body: OptionInsertRequest) -> bool {
    body.moderator_id is Some || (body.status matches Some(to) && needs_moderator(to))
}

/// What a sparse update of request `id` does. The role the patch needs is
/// checked before any lookup; a status in the patch then goes through the
/// transition table.
pub open spec fn request_update(
    db: DbView,
    caller: Caller,
    id: int,
    body: OptionInsertRequest,
    now: u64,
) -> (DbView, Result<Request, ApiError>) {
    if patch_needs_moderator(body) && !caller.moderator {
        (db, Err(ApiError::Forbidden))
    } else if !db.has_request(id) {
        (db, Err(ApiError::NotFound))
    } else if !may_access(caller, db.request(id)) {
        (db, Err(ApiError::Forbidden))
    } else {
        match body.status {
            Some(to) => if !is_transition(db.request(id).status, to) {
                (db, Err(ApiError::IllegalTransition))
            } else {
                let d = db.with_status(id, to, now);
                let r = patched_request(
                    d.request(id),
                    body.ssh_address,
                    body.ssh_password,
                    body.moderator_id,
                );
                (d.with_request_row(id, r), Ok(r))
            },
            None => {
                let r = patched_request(
                    db.request(id),
                    body.ssh_address,
                    body.ssh_password,
                    body.moderator_id,
                );
                (db.with_request_row(id, r), Ok(r))
            },
        }
    }
}

/// What a moderator's claim of request `id` does: an unassigned request (or
/// one they already handle) gets them as its moderator.
pub open spec fn claim(db: DbView, caller: Caller, id: int) -> (DbView, Result<Request, ApiError>) {
    if !caller.moderator {
        (db, Err(ApiError::Forbidden))
    } else if !db.has_request(id) {
        (db, Err(ApiError::NotFound))
    } else if db.request(id).moderator_id matches Some(m) && m != caller.uid {
        (db, Err(ApiError::Conflict))
    } else {
        let r = Request { moderator_id: Some(caller.uid), ..db.request(id) };
        (db.with_request_row(id, r), Ok(r))
    }
}

/// The owner a listing is restricted to: none for moderators.
pub open spec fn listing_owner(caller: Caller) -> Option<i32> {
    if caller.moderator { None } else { Some(caller.uid) }
}

/// Requests passing `filter`: every one for a moderator, the caller's own
/// otherwise.
pub fn get_all_requests(db: &Database, caller: Caller, filter: RequestFilter) -> (r: Vec<
    RequestWithSoftwares,
>)
    requires
        db.wf(),
    ensures
        r@.len() == db@.selection(filter, listing_owner(caller)).len(),
        forall|i: int|
            0 <= i < r@.len() ==> db@.joined(
                #[trigger] r@[i],
                db@.selection(filter, listing_owner(caller))[i],
            ),
{
    let owner = if caller.moderator { None } else { Some(caller.uid) };
    db.get_all_requests(filter, owner)
}

/// Request `id` with its owner's name and software, for its owner or a moderator.
pub fn get_request(db: &Database, caller: Caller, id: i32) -> (r: Result<RequestWithSoftwares, ApiError>)
    requires
        db.wf(),
    ensures
        !db@.has_request(id as int) ==> r == Err::<RequestWithSoftwares, ApiError>(ApiError::NotFound),
        db@.has_request(id as int) && !may_access(caller, db@.request(id as int)) ==> r == Err::<
            RequestWithSoftwares,
            ApiError,
        >(ApiError::Forbidden),
        db@.has_request(id as int) && may_access(caller, db@.request(id as int)) ==> (r matches Ok(x)
            && db@.joined(x, db@.request(id as int))),
{
    match db.get_request(id) {
        None => Err(ApiError::NotFound),
        Some(x) => {
            if x.request.user_id != caller.uid && !caller.moderator {
                Err(ApiError::Forbidden)
            } else {
                Ok(x)
            }
        },
    }
}

/// A new request of the caller, with optional connection details, at time `now`.
pub fn new_request(
    db: &mut Database,
    caller: Caller,
    ssh_address: Option<String>,
    ssh_password: Option<String>,
    now: u64,
) -> (r: Result<i32, ApiError>)
    requires
        old(db).wf(),
    ensures
        final(db).wf(),
        !old(db)@.has_user(caller.uid as int) ==> r == Err::<i32, ApiError>(ApiError::NotFound)
            && final(db)@ == old(db)@,
        old(db)@.has_user(caller.uid as int) && old(db)@.requests.len() >= MAX_ROWS ==> r == Err::<
            i32,
            ApiError,
        >(ApiError::Internal) && final(db)@ == old(db)@,
        old(db)@.has_user(caller.uid as int) && old(db)@.requests.len() < MAX_ROWS ==> r == Ok::<
            i32,
            ApiError,
        >((old(db)@.requests.len() + 1) as i32) && final(db)@ == old(db)@.with_request(
            InsertRequest { user_id: caller.uid, ssh_address, ssh_password },
            now,
        ),
{
    db.new_request(InsertRequest { user_id: caller.uid, ssh_address, ssh_password }, now)
}

/// Request `id` is asked to enter `status` at time `now`.
pub fn change_request_status(
    db: &mut Database,
    caller: Caller,
    id: i32,
    status: Option<RequestStatus>,
    now: u64,
) -> (r: Result<Request, ApiError>)
    requires
        old(db).wf(),
    ensures
        final(db).wf(),
        status is None ==> r == Err::<Request, ApiError>(ApiError::Validation(Field::Status))
            && final(db)@ == old(db)@,
        status matches Some(to) ==> (final(db)@, r) == status_change(
            old(db)@,
            caller,
            id as int,
            to,
            now,
        ),
{
    let to = match status {
        None => {
            return Err(ApiError::Validation(Field::Status));
        },
        Some(to) => to,
    };
    if moderator_only(to) && !caller.moderator {
        return Err(ApiError::Forbidden);
    }
    let cur = match db.get_request_row(id) {
        None => {
            return Err(ApiError::NotFound);
        },
        Some(q) => q,
    };
    if cur.user_id != caller.uid && !caller.moderator {
        return Err(ApiError::Forbidden);
    }
    if !transition_allowed(cur.status, to) {
        return Err(ApiError::IllegalTransition);
    }
    Ok(db.set_request_status(id, to, now))
}

/// Soft delete of request `id`: it enters `Deleted`, which takes a moderator.
pub fn delete_request(db: &mut Database, caller: Caller, id: i32, now: u64) -> (r: Result<
    Request,
    ApiError,
>)
    requires
        old(db).wf(),
    ensures
        final(db).wf(),
        (final(db)@, r) == status_change(old(db)@, caller, id as int, RequestStatus::Deleted, now),
{
    change_request_status(db, caller, id, Some(RequestStatus::Deleted), now)
}

/// Sparse update of request `id` at time `now`.
pub fn update_request(
    db: &mut Database,
    caller: Caller,
    id: i32,
    body: OptionInsertRequest,
    now: u64,
) -> (r: Result<Request, ApiError>)
    requires
        old(db).wf(),
    ensures
        final(db).wf(),
        (final(db)@, r) == request_update(old(db)@, caller, id as int, body, now),
{
    let status_needs_moderator = match body.status {
        Some(to) => moderator_only(to),
        None => false,
    };
    if (body.moderator_id.is_some() || status_needs_moderator) && !caller.moderator {
        return Err(ApiError::Forbidden);
    }
    let cur = match db.get_request_row(id) {
        None => {
            return Err(ApiError::NotFound);
        },
        Some(q) => q,
    };
    if cur.user_id != caller.uid && !caller.moderator {
        return Err(ApiError::Forbidden);
    }
    match body.status {
        Some(to) => {
            if !transition_allowed(cur.status, to) {
                return Err(ApiError::IllegalTransition);
            }
            db.set_request_status(id, to, now);
        },
        None => {},
    }
    db.update_request_by_id(id, body.ssh_address, body.ssh_password, body.moderator_id)
}

/// A moderator claims request `id` to handle it.
pub fn apply_mod(db: &mut Database, caller: Caller, id: i32) -> (r: Result<Request, ApiError>)
    requires
        old(db).wf(),
    ensures
        final(db).wf(),
        (final(db)@, r) == claim(old(db)@, caller, id as int),
{
    if !caller.moderator {
        return Err(ApiError::Forbidden);
    }
    let cur = match db.get_request_row(id) {
        None => {
            return Err(ApiError::NotFound);
        },
        Some(q) => q,
    };
    match cur.moderator_id {
        Some(m) => {
            if m != caller.uid {
                return Err(ApiError::Conflict);
            }
        },
        None => {},
    }
    db.apply_mod(id, caller.uid)
}

/// The caller puts software `software_id` into their draft, created first
/// when they have none. Returns the draft's id.
pub fn add_software_to_last_request(db: &mut Database, caller: Caller, software_id: i32, now: u64) -> (r:
    Result<i32, ApiError>)
    requires
        old(db).wf(),
    ensures
        final(db).wf(),
        (final(db)@, r) == old(db)@.add_to_draft(software_id as int, caller.uid as int, now),
{
    db.add_software_to_last_request(software_id, caller.uid, now)
}

/// A moderator puts software into request `request_id` (`to_install` false
/// asks for its removal). Other users go through "add to my current
/// request" instead.
pub fn add_software_to_request(
    db: &mut Database,
    caller: Caller,
    request_id: i32,
    software_id: Option<i32>,
    to_install: bool,
    now: u64,
) -> (r: Result<(), ApiError>)
    requires
        old(db).wf(),
    ensures
        final(db).wf(),
        !caller.moderator ==> r == Err::<(), ApiError>(ApiError::Forbidden) && final(db)@ == old(db)@,
        caller.moderator && software_id is None ==> r == Err::<(), ApiError>(
            ApiError::Validation(Field::SoftwareId),
        ) && final(db)@ == old(db)@,
        caller.moderator && software_id is Some && !(old(db)@.has_request(request_id as int) && old(
            db,
        )@.has_software(software_id->0 as int)) ==> r == Err::<(), ApiError>(ApiError::NotFound)
            && final(db)@ == old(db)@,
        caller.moderator && software_id is Some && old(db)@.has_request(request_id as int) && old(
            db,
        )@.has_software(software_id->0 as int) ==> r == Ok::<(), ApiError>(()) && final(db)@ == old(
            db,
        )@.attached(request_id as int, software_id->0 as int, to_install, now),
{
    if !caller.moderator {
        return Err(ApiError::Forbidden);
    }
    let sid = match software_id {
        None => {
            return Err(ApiError::Validation(Field::SoftwareId));
        },
        Some(s) => s,
    };
    db.add_software_to_request(request_id, sid, to_install, now)
}

/// Cancels the line item of software `software_id` in request `request_id`,
/// for the request's owner or a moderator; the item stays on record.
pub fn delete_software_from_request(
    db: &mut Database,
    caller: Caller,
    request_id: i32,
    software_id: i32,
    now: u64,
) -> (r: Result<(), ApiError>)
    requires
        old(db).wf(),
    ensures
        final(db).wf(),
        !old(db)@.has_request(request_id as int) ==> r == Err::<(), ApiError>(ApiError::NotFound)
            && final(db)@ == old(db)@,
        old(db)@.has_request(request_id as int) && !may_access(
            caller,
            old(db)@.request(request_id as int),
        ) ==> r == Err::<(), ApiError>(ApiError::Forbidden) && final(db)@ == old(db)@,
        old(db)@.has_request(request_id as int) && may_access(
            caller,
            old(db)@.request(request_id as int),
        ) ==> if old(db)@.has_item(request_id as int, software_id as int) {
            r == Ok::<(), ApiError>(()) && final(db)@ == old(db)@.with_item_status(
                request_id as int,
                software_id as int,
                SoftwareStatus::Canceled,
                now,
            )
        } else {
            r == Err::<(), ApiError>(ApiError::NotFound) && final(db)@ == old(db)@
        },
{
    let cur = match db.get_request_row(request_id) {
        None => {
            return Err(ApiError::NotFound);
        },
        Some(q) => q,
    };
    if cur.user_id != caller.uid && !caller.moderator {
        return Err(ApiError::Forbidden);
    }
    db.delete_software_from_request(request_id, software_id, now)
}

/// A moderator sets the processing status of one line item.
pub fn set_line_item_status(
    db: &mut Database,
    caller: Caller,
    request_id: i32,
    software_id: i32,
    status: SoftwareStatus,
    now: u64,
) -> (r: Result<(), ApiError>)
    requires
        old(db).wf(),
    ensures
        final(db).wf(),
        !caller.moderator ==> r == Err::<(), ApiError>(ApiError::Forbidden) && final(db)@ == old(db)@,
        caller.moderator && !old(db)@.has_item(request_id as int, software_id as int) ==> r == Err::<
            (),
            ApiError,
        >(ApiError::NotFound) && final(db)@ == old(db)@,
        caller.moderator && old(db)@.has_item(request_id as int, software_id as int) ==> r == Ok::<
            (),
            ApiError,
        >(()) && final(db)@ == old(db)@.with_item_status(
            request_id as int,
            software_id as int,
            status,
            now,
        ),
{
    if !caller.moderator {
        return Err(ApiError::Forbidden);
    }
    db.set_line_item_status(request_id, software_id, status, now)
}

} // verus!
