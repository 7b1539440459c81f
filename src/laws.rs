//! Properties that hold across operations, stated over the store's model.
use vstd::prelude::*;
use crate::model::{ApiError, Caller, OptionInsertRequest, Request, RequestSoftware, Software};
use crate::status::{is_transition, needs_moderator, RequestStatus, SoftwareStatus};
use crate::credentials::{bcrypt_accepts, printable_ascii};
use crate::store::{
    is_draft_of, lemma_draft_pos, draft_pos, item_pos, lemma_attached, lemma_item_pos, lemma_request_push, lemma_request_row,
    lemma_software_row, lemma_stamped, live_softwares, DbView, MAX_ROWS,
};
use crate::lifecycle::{may_access, request_update, status_change};

verus! {

/// Registration keeps usernames unique: in a well-formed store no two users
/// share a name, registering keeps the store well formed, and registering a
/// name a second time fails with `Conflict` and changes nothing.
pub proof fn law_usernames_unique(db: DbView, name: String, h1: String, h2: String)
    requires
        db.wf(),
    ensures
        forall|i: int, j: int|
            0 <= i < db.users.len() && 0 <= j < db.users.len() && i != j ==> #[trigger] db.users[i].username@
                != #[trigger] db.users[j].username@,
        db.registered(name, h1).0.wf(),
        db.registered(name, h1).1 is Ok ==> db.registered(name, h1).0.registered(name, h2) == (
            db.registered(name, h1).0,
            Err::<i32, ApiError>(ApiError::Conflict),
        ),
        db.username_taken(name@) ==> db.registered(name, h1) == (db, Err::<i32, ApiError>(
            ApiError::Conflict,
        )),
{
    let (d, r) = db.registered(name, h1);
    if r is Ok {
        let n = db.users.len() as int;
        assert(d.users[n].username@ == name@);
        assert(d.username_taken(name@));
        assert forall|i: int, j: int|
            0 <= i < d.users.len() && 0 <= j < d.users.len() && i != j implies #[trigger] d.users[i].username@
                != #[trigger] d.users[j].username@ by {
            if i == n {
                assert(db.users[j].username@ != name@);
            } else if j == n {
                assert(db.users[i].username@ != name@);
            }
        }
        assert(d.links_ok()) by {
            assert forall|k: int| 0 <= k < d.software_tags.len() implies d.link_row_ok(
                #[trigger] d.software_tags[k],
            ) by {
                assert(db.link_row_ok(db.software_tags[k]));
            }
        }
        assert(d.items_ok()) by {
            assert forall|k: int| 0 <= k < d.line_items.len() implies d.item_row_ok(
                #[trigger] d.line_items[k],
            ) by {
                assert(db.item_row_ok(db.line_items[k]));
            }
        }
        assert(d.requests_ok()) by {
            assert forall|k: int| 0 <= k < d.requests.len() implies d.request_row_ok(
                #[trigger] d.requests[k],
            ) by {
                assert(db.request_row_ok(db.requests[k]));
            }
        }
    }
}

/// Every element of a filtered sequence comes from the sequence.
proof fn lemma_filter_from<A>(s: Seq<A>, pred: spec_fn(A) -> bool, i: int)
    requires
        0 <= i < s.filter(pred).len(),
    ensures
        exists|j: int| 0 <= j < s.len() && s[j] == s.filter(pred)[i],
    decreases s.len(),
{
    reveal(Seq::filter);
    let rest = s.drop_last();
    if s.len() > 0 {
        let sub = rest.filter(pred);
        if i < sub.len() {
            lemma_filter_from(rest, pred, i);
            let j = choose|j: int| 0 <= j < rest.len() && rest[j] == sub[i];
            assert(s[j] == s.filter(pred)[i]);
        } else {
            assert(s[s.len() - 1] == s.filter(pred)[i]);
        }
    }
}

/// A live line item of `rid` for `sid` shows the software row among the
/// request's software.
proof fn lemma_live_contains(items: Seq<RequestSoftware>, softs: Seq<Software>, rid: int, sid: int, k: int)
    requires
        0 <= k < items.len(),
        items[k].request_id == rid,
        items[k].software_id == sid,
        items[k].status != SoftwareStatus::Canceled,
    ensures
        live_softwares(items, softs, rid).contains(softs[sid - 1]),
    decreases items.len(),
{
    let rest = items.drop_last();
    if k < items.len() - 1 {
        lemma_live_contains(rest, softs, rid, sid, k);
        let l = live_softwares(rest, softs, rid);
        let j = choose|j: int| 0 <= j < l.len() && l[j] == softs[sid - 1];
        assert(live_softwares(items, softs, rid)[j] == softs[sid - 1]);
    } else {
        let l = live_softwares(items, softs, rid);
        assert(l[l.len() - 1] == softs[sid - 1]);
    }
}

/// Soft delete hides an entry from both listings while it stays fetchable by
/// id, marked inactive, and stays in the requests that hold it.
pub proof fn law_soft_delete_invisible(
    db: DbView,
    id: int,
    search: Option<Seq<char>>,
    name_query: Seq<char>,
    rid: int,
)
    requires
        db.wf(),
        db.has_software(id),
    ensures
        db.deactivated(id).wf(),
        forall|i: int|
            0 <= i < db.deactivated(id).active_listing(search).len() ==> (#[trigger] db.deactivated(
                id,
            ).active_listing(search)[i]).id != id,
        forall|i: int|
            0 <= i < db.deactivated(id).by_name(name_query).len() ==> (#[trigger] db.deactivated(
                id,
            ).by_name(name_query)[i]).id != id,
        db.deactivated(id).has_software(id),
        db.deactivated(id).software(id) == (Software { active: false, ..db.software(id) }),
        db.deactivated(id).line_items == db.line_items,
        db.has_item(rid, id) && db.item(rid, id).status != SoftwareStatus::Canceled
            ==> db.deactivated(id).softwares_of(rid).contains(db.deactivated(id).software(id)),
{
    let d = db.deactivated(id);
    lemma_software_row(db, id, Software { active: false, ..db.software(id) });
    assert forall|i: int| 0 <= i < d.active_listing(search).len() implies (#[trigger] d.active_listing(
        search,
    )[i]).id != id by {
        let x = d.active_listing(search)[i];
        d.softwares.lemma_filter_pred(d.listed_pred(search), i);
        lemma_filter_from(d.softwares, d.listed_pred(search), i);
        let j = choose|j: int| 0 <= j < d.softwares.len() && d.softwares[j] == x;
        assert(d.softwares[j].id == j + 1);
    }
    assert forall|i: int| 0 <= i < d.by_name(name_query).len() implies (#[trigger] d.by_name(
        name_query,
    )[i]).id != id by {
        let x = d.by_name(name_query)[i];
        d.softwares.lemma_filter_pred(DbView::name_pred(name_query), i);
        lemma_filter_from(d.softwares, DbView::name_pred(name_query), i);
        let j = choose|j: int| 0 <= j < d.softwares.len() && d.softwares[j] == x;
        assert(d.softwares[j].id == j + 1);
    }
    if db.has_item(rid, id) && db.item(rid, id).status != SoftwareStatus::Canceled {
        lemma_item_pos(db.line_items, rid, id);
        lemma_live_contains(d.line_items, d.softwares, rid, id, item_pos(db.line_items, rid, id));
    }
}

/// The store after user `uid` adds each of `sids` in turn to their current
/// request at time `now`, and the result of each call.
pub open spec fn add_all(db: DbView, sids: Seq<i32>, uid: int, now: u64) -> (DbView, Seq<
    Result<i32, ApiError>,
>)
    decreases sids.len(),
{
    if sids.len() == 0 {
        (db, Seq::empty())
    } else {
        let prev = add_all(db, sids.drop_last(), uid, now);
        let step = prev.0.add_to_draft(sids.last() as int, uid, now);
        (step.0, prev.1.push(step.1))
    }
}

/// Putting software into a request keeps every line item that existed.
proof fn lemma_attached_keeps(a: DbView, rid: int, sid: int, to_install: bool, now: u64, r2: int, s2: int)
    requires
        a.has_item(r2, s2),
    ensures
        a.attached(rid, sid, to_install, now).has_item(r2, s2),
{
    let b = a.attached(rid, sid, to_install, now);
    lemma_item_pos(a.line_items, r2, s2);
    lemma_item_pos(b.line_items, r2, s2);
    lemma_item_pos(a.line_items, rid, sid);
    let k = item_pos(a.line_items, r2, s2);
    let p = item_pos(a.line_items, rid, sid);
    if p >= 0 {
        assert(b.line_items.len() == a.line_items.len());
        if k != p {
            assert(b.line_items[k] == a.line_items[k]);
        }
    } else {
        assert(b.line_items[k] == a.line_items[k]);
    }
    assert(b.line_items[k].request_id == r2 && b.line_items[k].software_id == s2);
}

/// A user's "add to my current request" calls, made one after another with
/// no draft at the start, create exactly one request, and every call puts
/// its software into that request.
pub proof fn law_draft_singleton(db: DbView, sids: Seq<i32>, uid: int, now: u64)
    requires
        db.wf(),
        db.has_user(uid),
        db.draft_of(uid) is None,
        db.requests.len() < MAX_ROWS,
        sids.len() > 0,
        forall|k: int| 0 <= k < sids.len() ==> db.has_software(#[trigger] sids[k] as int),
    ensures
        add_all(db, sids, uid, now).0.wf(),
        add_all(db, sids, uid, now).0.requests.len() == db.requests.len() + 1,
        add_all(db, sids, uid, now).0.draft_of(uid) == Some(db.requests.len() as int + 1),
        add_all(db, sids, uid, now).1.len() == sids.len(),
        forall|k: int|
            0 <= k < sids.len() ==> #[trigger] add_all(db, sids, uid, now).1[k] == Ok::<i32, ApiError>(
                (db.requests.len() + 1) as i32,
            ),
        forall|k: int|
            0 <= k < sids.len() ==> add_all(db, sids, uid, now).0.has_item(
                db.requests.len() as int + 1,
                #[trigger] sids[k] as int,
            ),
    decreases sids.len(),
{
    let rid = db.requests.len() as int + 1;
    let last = sids.last() as int;
    assert(db.has_software(sids[sids.len() - 1] as int));
    if sids.len() == 1 {
        assert(sids.drop_last().len() == 0);
        let d1 = db.with_request(
            crate::model::InsertRequest { user_id: uid as i32, ssh_address: None, ssh_password: None },
            now,
        );
        lemma_request_push(
            db,
            crate::model::InsertRequest { user_id: uid as i32, ssh_address: None, ssh_password: None },
            now,
        );
        assert(d1.requests.drop_last() == db.requests);
        assert(draft_pos(d1.requests, uid) == db.requests.len());
        lemma_attached(d1, rid, last, true, now);
    } else {
        let prev = add_all(db, sids.drop_last(), uid, now);
        assert forall|k: int| 0 <= k < sids.drop_last().len() implies db.has_software(
            #[trigger] sids.drop_last()[k] as int,
        ) by {
            assert(sids.drop_last()[k] == sids[k]);
        }
        law_draft_singleton(db, sids.drop_last(), uid, now);
        lemma_add_all_frame(db, sids.drop_last(), uid, now);
        lemma_attached(prev.0, rid, last, true, now);
        let d = add_all(db, sids, uid, now).0;
        assert forall|k: int| 0 <= k < sids.len() implies d.has_item(rid, #[trigger] sids[k] as int) by {
            if k < sids.len() - 1 {
                assert(sids.drop_last()[k] == sids[k]);
                lemma_attached_keeps(prev.0, rid, last, true, now, rid, sids[k] as int);
            }
        }
        assert forall|k: int| 0 <= k < sids.len() implies #[trigger] add_all(db, sids, uid, now).1[k]
            == Ok::<i32, ApiError>(rid as i32) by {
            if k < sids.len() - 1 {
                assert(sids.drop_last()[k] == sids[k]);
            }
        }
    }
}

/// The calls of `add_all` keep the users and the catalog.
proof fn lemma_add_all_frame(db: DbView, sids: Seq<i32>, uid: int, now: u64)
    ensures
        add_all(db, sids, uid, now).0.users == db.users,
        add_all(db, sids, uid, now).0.softwares == db.softwares,
    decreases sids.len(),
{
    if sids.len() > 0 {
        lemma_add_all_frame(db, sids.drop_last(), uid, now);
    }
}

/// A status change outside the transition table fails with
/// `IllegalTransition` and leaves the store, and so the stored status, as it
/// was, whether the change comes alone or inside an update. This holds for
/// every caller who passes the checks that come first: moderators, and owners
/// asking for a target that needs no moderator (others get `Forbidden`).
pub proof fn law_illegal_transition(
    db: DbView,
    caller: Caller,
    id: int,
    to: RequestStatus,
    body: OptionInsertRequest,
    now: u64,
)
    requires
        db.wf(),
        db.has_request(id),
        may_access(caller, db.request(id)),
        caller.moderator || !needs_moderator(to),
        !is_transition(db.request(id).status, to),
        body.status == Some(to),
        body.moderator_id is None || caller.moderator,
    ensures
        status_change(db, caller, id, to, now) == (db, Err::<Request, ApiError>(
            ApiError::IllegalTransition,
        )),
        request_update(db, caller, id, body, now) == (db, Err::<Request, ApiError>(
            ApiError::IllegalTransition,
        )),
{
}

/// Timestamps follow the status: in a well-formed store no request has
/// `completed_at` before reaching `Completed` (it is kept by a later soft
/// delete), and a `Created` request has neither stamp. A legal step stamps
/// `processed_at` on entry into `Processed` and never changes it once set,
/// and stamps `completed_at` only on entry into `Completed`.
pub proof fn law_timestamps(db: DbView, caller: Caller, id: int, to: RequestStatus, now: u64)
    requires
        db.wf(),
    ensures
        forall|j: int|
            db.has_request(j) && (#[trigger] db.request(j)).completed_at is Some ==> db.request(
                j,
            ).status == RequestStatus::Completed || db.request(j).status == RequestStatus::Deleted,
        forall|j: int|
            db.has_request(j) && (#[trigger] db.request(j)).status == RequestStatus::Created
                ==> db.request(j).processed_at is None && db.request(j).completed_at is None,
        status_change(db, caller, id, to, now).1 is Ok ==> ({
            let d = status_change(db, caller, id, to, now).0;
            &&& d.wf()
            &&& d.request(id).status == to
            &&& d.request(id).processed_at == if to == RequestStatus::Processed {
                Some(now)
            } else {
                db.request(id).processed_at
            }
            &&& db.request(id).processed_at is Some ==> to != RequestStatus::Processed
                && d.request(id).processed_at == db.request(id).processed_at
            &&& d.request(id).completed_at == if to == RequestStatus::Completed {
                Some(now)
            } else {
                db.request(id).completed_at
            }
        }),
{
    assert forall|j: int|
        db.has_request(j) && (#[trigger] db.request(j)).completed_at is Some implies db.request(
            j,
        ).status == RequestStatus::Completed || db.request(j).status == RequestStatus::Deleted by {
        assert(db.request_row_ok(db.requests[j - 1]));
    }
    assert forall|j: int|
        db.has_request(j) && (#[trigger] db.request(j)).status == RequestStatus::Created implies db.request(
            j,
        ).processed_at is None && db.request(j).completed_at is None by {
        assert(db.request_row_ok(db.requests[j - 1]));
    }
    if status_change(db, caller, id, to, now).1 is Ok {
        assert(db.request_row_ok(db.requests[id - 1]));
        lemma_stamped(db.request(id), to, now);
        lemma_request_row(db, id, crate::store::stamped(db.request(id), to, now));
    }
}

/// A user who neither owns a request nor moderates is refused reading,
/// updating and deleting it with `Forbidden`, and nothing changes; a
/// moderator may read it, update it without a status change, and delete it
/// unless it is already deleted.
pub proof fn law_ownership(
    db: DbView,
    id: int,
    other: Caller,
    moderator: Caller,
    body: OptionInsertRequest,
    now: u64,
)
    requires
        db.wf(),
        db.has_request(id),
        db.request(id).user_id != other.uid,
        !other.moderator,
        moderator.moderator,
    ensures
        !may_access(other, db.request(id)),
        request_update(db, other, id, body, now) == (db, Err::<Request, ApiError>(
            ApiError::Forbidden,
        )),
        status_change(db, other, id, RequestStatus::Deleted, now) == (db, Err::<Request, ApiError>(
            ApiError::Forbidden,
        )),
        may_access(moderator, db.request(id)),
        body.status is None ==> request_update(db, moderator, id, body, now).1 is Ok,
        db.request(id).status != RequestStatus::Deleted ==> status_change(
            db,
            moderator,
            id,
            RequestStatus::Deleted,
            now,
        ).1 is Ok,
{
}

/// A user registered with a password hash that bcrypt accepts for
/// `password` is found under their name with that hash, so logging in with
/// `password` succeeds with their new id.
pub proof fn law_registered_user_logs_in(db: DbView, name: String, hash: String, password: Seq<char>)
    requires
        db.wf(),
        !db.username_taken(name@),
        db.users.len() < MAX_ROWS,
        bcrypt_accepts(password, hash@),
        printable_ascii(hash@),
    ensures
        db.with_user(name, hash).user_index(name@) == Some(db.users.len() as int),
        db.with_user(name, hash).users[db.users.len() as int].password == hash,
        db.with_user(name, hash).users[db.users.len() as int].id == db.users.len() + 1,
{
    let d = db.with_user(name, hash);
    let n = db.users.len() as int;
    assert(d.users[n].username@ == name@);
    assert(d.username_taken(name@));
    let j = choose|i: int| 0 <= i < d.users.len() && #[trigger] d.users[i].username@ == name@;
    if j != n {
        assert(db.users[j].username@ == name@);
    }
}

/// The draft that "add to my current request" fills is the user's request
/// in status `Created` with the greatest creation time.
pub proof fn law_draft_is_latest(db: DbView, uid: int)
    requires
        db.wf(),
    ensures
        db.draft_of(uid) matches Some(d) ==> db.has_request(d) && is_draft_of(db.request(d), uid)
            && forall|k: int|
            0 <= k < db.requests.len() && is_draft_of(#[trigger] db.requests[k], uid)
                ==> db.requests[k].created_at <= db.request(d).created_at,
        db.draft_of(uid) is None ==> forall|k: int|
            0 <= k < db.requests.len() ==> !is_draft_of(#[trigger] db.requests[k], uid),
{
    lemma_draft_pos(db.requests, uid);
}

} // verus!
