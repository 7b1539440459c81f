use soft_catalog::lifecycle::{
    add_software_to_last_request, add_software_to_request, apply_mod, change_request_status,
    delete_request, delete_software_from_request, get_all_requests, get_request, new_request,
    set_line_item_status, update_request,
};
use soft_catalog::catalog::new_software;
use soft_catalog::model::{
    ApiError, Caller, Field, OptionInsertRequest, OptionInsertSoftware, RequestFilter,
};
use soft_catalog::status::{RequestStatus, SoftwareStatus};
use soft_catalog::store::Database;

fn patch(name: &str) -> OptionInsertSoftware {
    OptionInsertSoftware {
        description: Some("d".to_string()),
        version: Some("1.0".to_string()),
        active: Some(true),
        name: Some(name.to_string()),
        source: Some("s".to_string()),
    }
}

/// A store with a moderator (id 1), two users (ids 2 and 3) and `n` entries.
fn setup(n: usize) -> (Database, Caller, Caller, Caller) {
    let mut db = Database::new();
    let m = db.register_hashed("mod".to_string(), "h".to_string()).unwrap();
    db.promote_moderator(m).unwrap();
    let a = db.register_hashed("alice".to_string(), "h".to_string()).unwrap();
    let b = db.register_hashed("bob".to_string(), "h".to_string()).unwrap();
    let moderator = Caller { uid: m, moderator: true };
    for i in 0..n {
        new_software(&mut db, moderator, patch(&format!("soft{}", i + 1)), 10).unwrap();
    }
    (db, moderator, Caller { uid: a, moderator: false }, Caller { uid: b, moderator: false })
}

fn empty_body() -> OptionInsertRequest {
    OptionInsertRequest { ssh_address: None, ssh_password: None, moderator_id: None, status: None }
}

#[test]
fn draft_add_creates_request_with_line_item() {
    let (mut db, _m, alice, _b) = setup(5);
    let rid = add_software_to_last_request(&mut db, alice, 5, 100).unwrap();
    let req = get_request(&db, alice, rid).unwrap();
    assert_eq!(req.request.status, RequestStatus::Created);
    assert_eq!(req.request.user_id, alice.uid);
    assert_eq!(req.username, "alice");
    let items = db.get_line_items(rid);
    assert_eq!(items.len(), 1);
    assert_eq!(items[0].software_id, 5);
    assert_eq!(items[0].status, SoftwareStatus::New);
    assert!(items[0].to_install);
    assert_eq!(req.softwares.len(), 1);
    assert_eq!(req.softwares[0].id, 5);
}

#[test]
fn moderator_processes_then_skip_is_rejected() {
    let (mut db, m, alice, _b) = setup(5);
    let rid = add_software_to_last_request(&mut db, alice, 5, 100).unwrap();
    let r = change_request_status(&mut db, m, rid, Some(RequestStatus::Processed), 200).unwrap();
    assert_eq!(r.status, RequestStatus::Processed);
    assert_eq!(r.processed_at, Some(200));
    assert_eq!(r.completed_at, None);
    let stored = db.get_request_row(rid).unwrap();
    assert_eq!(stored.status, RequestStatus::Processed);
    assert_eq!(stored.processed_at, Some(200));

    let other = new_request(&mut db, alice, None, None, 300).unwrap();
    let skip = change_request_status(&mut db, m, other, Some(RequestStatus::Completed), 400);
    assert_eq!(skip.unwrap_err(), ApiError::IllegalTransition);
    assert_eq!(db.get_request_row(other).unwrap().status, RequestStatus::Created);
}

#[test]
fn repeated_adds_share_one_draft() {
    let (mut db, _m, alice, _b) = setup(3);
    let r1 = add_software_to_last_request(&mut db, alice, 1, 10).unwrap();
    let r2 = add_software_to_last_request(&mut db, alice, 2, 11).unwrap();
    let r3 = add_software_to_last_request(&mut db, alice, 3, 12).unwrap();
    assert_eq!(r1, r2);
    assert_eq!(r2, r3);
    assert_eq!(db.find_draft_request(alice.uid), Some(r1));
    let all = get_all_requests(
        &db,
        alice,
        RequestFilter { status: None, create_date_start: None, create_date_end: None },
    );
    assert_eq!(all.len(), 1);
    assert_eq!(db.get_line_items(r1).len(), 3);
}

#[test]
fn draft_add_after_processing_opens_new_draft() {
    let (mut db, m, alice, _b) = setup(2);
    let r1 = add_software_to_last_request(&mut db, alice, 1, 10).unwrap();
    change_request_status(&mut db, m, r1, Some(RequestStatus::Processed), 20).unwrap();
    let r2 = add_software_to_last_request(&mut db, alice, 2, 30).unwrap();
    assert_ne!(r1, r2);
    assert_eq!(db.get_request_row(r2).unwrap().status, RequestStatus::Created);
}

#[test]
fn draft_add_unknown_software_is_not_found() {
    let (mut db, _m, alice, _b) = setup(1);
    assert_eq!(add_software_to_last_request(&mut db, alice, 9, 10).err(), Some(ApiError::NotFound));
    assert_eq!(db.find_draft_request(alice.uid), None);
}

#[test]
fn transitions_outside_table_leave_status() {
    let (mut db, m, alice, _b) = setup(1);
    let rid = new_request(&mut db, alice, None, None, 1).unwrap();
    assert_eq!(
        change_request_status(&mut db, m, rid, Some(RequestStatus::Created), 2).err(), Some(ApiError::IllegalTransition));
    change_request_status(&mut db, m, rid, Some(RequestStatus::Processed), 3).unwrap();
    change_request_status(&mut db, m, rid, Some(RequestStatus::Completed), 4).unwrap();
    assert_eq!(
        change_request_status(&mut db, m, rid, Some(RequestStatus::Processed), 5).err(), Some(ApiError::IllegalTransition));
    assert_eq!(
        change_request_status(&mut db, m, rid, Some(RequestStatus::Canceled), 5).err(), Some(ApiError::IllegalTransition));
    assert_eq!(db.get_request_row(rid).unwrap().status, RequestStatus::Completed);
    delete_request(&mut db, m, rid, 6).unwrap();
    assert_eq!(
        change_request_status(&mut db, m, rid, Some(RequestStatus::Canceled), 7).err(), Some(ApiError::IllegalTransition));
    assert_eq!(delete_request(&mut db, m, rid, 8).unwrap_err(), ApiError::IllegalTransition);
    assert_eq!(db.get_request_row(rid).unwrap().status, RequestStatus::Deleted);
}

#[test]
fn completed_at_stays_empty_until_completed() {
    let (mut db, m, alice, _b) = setup(1);
    let rid = new_request(&mut db, alice, None, None, 1).unwrap();
    assert_eq!(db.get_request_row(rid).unwrap().completed_at, None);
    let p = change_request_status(&mut db, m, rid, Some(RequestStatus::Processed), 10).unwrap();
    assert_eq!(p.completed_at, None);
    let c = change_request_status(&mut db, m, rid, Some(RequestStatus::Completed), 20).unwrap();
    assert_eq!(c.completed_at, Some(20));
    assert_eq!(c.processed_at, Some(10));
    let d = delete_request(&mut db, m, rid, 30).unwrap();
    assert_eq!(d.processed_at, Some(10));
    assert_eq!(d.completed_at, Some(20));
}

#[test]
fn owner_may_cancel_but_not_process() {
    let (mut db, _m, alice, _b) = setup(1);
    let rid = new_request(&mut db, alice, None, None, 1).unwrap();
    assert_eq!(
        change_request_status(&mut db, alice, rid, Some(RequestStatus::Processed), 2).err(), Some(ApiError::Forbidden));
    let r = change_request_status(&mut db, alice, rid, Some(RequestStatus::Canceled), 3).unwrap();
    assert_eq!(r.status, RequestStatus::Canceled);
    assert_eq!(r.processed_at, None);
}

#[test]
fn missing_status_is_validation_error() {
    let (mut db, m, alice, _b) = setup(1);
    let rid = new_request(&mut db, alice, None, None, 1).unwrap();
    assert_eq!(
        change_request_status(&mut db, m, rid, None, 2).err(), Some(ApiError::Validation(Field::Status)));
    assert_eq!(
        change_request_status(&mut db, m, 99, Some(RequestStatus::Processed), 2).err(), Some(ApiError::NotFound));
}

#[test]
fn strangers_are_forbidden_moderators_are_not() {
    let (mut db, m, alice, bob) = setup(1);
    let rid = new_request(&mut db, alice, Some("10.0.0.1".to_string()), None, 1).unwrap();
    assert_eq!(get_request(&db, bob, rid).unwrap_err(), ApiError::Forbidden);
    let body = OptionInsertRequest {
        ssh_address: Some("evil".to_string()),
        ssh_password: None,
        moderator_id: None,
        status: None,
    };
    assert_eq!(update_request(&mut db, bob, rid, body, 2).unwrap_err(), ApiError::Forbidden);
    assert_eq!(delete_request(&mut db, bob, rid, 3).unwrap_err(), ApiError::Forbidden);
    assert_eq!(db.get_request_row(rid).unwrap().ssh_address, Some("10.0.0.1".to_string()));
    assert_eq!(db.get_request_row(rid).unwrap().status, RequestStatus::Created);

    assert!(get_request(&db, m, rid).is_ok());
    let body = OptionInsertRequest {
        ssh_address: Some("10.0.0.2".to_string()),
        ssh_password: Some("pw".to_string()),
        moderator_id: None,
        status: None,
    };
    let u = update_request(&mut db, m, rid, body, 4).unwrap();
    assert_eq!(u.ssh_address, Some("10.0.0.2".to_string()));
    assert_eq!(u.ssh_password, Some("pw".to_string()));
    let d = delete_request(&mut db, m, rid, 5).unwrap();
    assert_eq!(d.status, RequestStatus::Deleted);
}

#[test]
fn update_with_status_goes_through_table() {
    let (mut db, m, alice, _b) = setup(1);
    let rid = new_request(&mut db, alice, None, None, 1).unwrap();
    let mut body = empty_body();
    body.status = Some(RequestStatus::Completed);
    assert_eq!(update_request(&mut db, m, rid, body, 2).err(), Some(ApiError::IllegalTransition));
    let mut body = empty_body();
    body.status = Some(RequestStatus::Processed);
    body.moderator_id = Some(m.uid);
    let r = update_request(&mut db, m, rid, body, 3).unwrap();
    assert_eq!(r.status, RequestStatus::Processed);
    assert_eq!(r.processed_at, Some(3));
    assert_eq!(r.moderator_id, Some(m.uid));
    let mut body = empty_body();
    body.moderator_id = Some(alice.uid);
    assert_eq!(update_request(&mut db, alice, rid, body, 4).err(), Some(ApiError::Forbidden));
}

#[test]
fn listing_is_restricted_to_owner_and_hides_deleted() {
    let (mut db, m, alice, bob) = setup(1);
    let a1 = new_request(&mut db, alice, None, None, 100).unwrap();
    let _b1 = new_request(&mut db, bob, None, None, 200).unwrap();
    let a2 = new_request(&mut db, alice, None, None, 300).unwrap();
    let all = RequestFilter { status: None, create_date_start: None, create_date_end: None };
    let mine = get_all_requests(&db, alice, all);
    assert_eq!(mine.len(), 2);
    assert_eq!(mine[0].request.id, a1);
    assert_eq!(mine[1].request.id, a2);
    assert_eq!(get_all_requests(&db, m, all).len(), 3);
    delete_request(&mut db, m, a1, 400).unwrap();
    assert_eq!(get_all_requests(&db, m, all).len(), 2);
    let deleted = RequestFilter {
        status: Some(RequestStatus::Deleted),
        create_date_start: None,
        create_date_end: None,
    };
    assert_eq!(get_all_requests(&db, m, deleted).len(), 1);
    let window = RequestFilter { status: None, create_date_start: Some(150), create_date_end: Some(250) };
    let w = get_all_requests(&db, m, window);
    assert_eq!(w.len(), 1);
    assert_eq!(w[0].username, "bob");
}

#[test]
fn line_items_are_canceled_not_removed() {
    let (mut db, m, alice, bob) = setup(2);
    let rid = add_software_to_last_request(&mut db, alice, 1, 10).unwrap();
    assert_eq!(
        add_software_to_request(&mut db, alice, rid, Some(2), false, 11).err(), Some(ApiError::Forbidden));
    assert_eq!(db.get_line_items(rid).len(), 1);
    add_software_to_request(&mut db, m, rid, Some(2), false, 11).unwrap();
    assert_eq!(
        add_software_to_request(&mut db, m, rid, None, true, 12).err(), Some(ApiError::Validation(Field::SoftwareId)));
    assert_eq!(
        add_software_to_request(&mut db, bob, rid, Some(2), true, 12).err(), Some(ApiError::Forbidden));
    assert_eq!(
        add_software_to_request(&mut db, m, 99, Some(2), true, 12).err(), Some(ApiError::NotFound));
    assert_eq!(get_request(&db, alice, rid).unwrap().softwares.len(), 2);
    delete_software_from_request(&mut db, alice, rid, 1, 13).unwrap();
    let items = db.get_line_items(rid);
    assert_eq!(items.len(), 2);
    assert_eq!(items[0].status, SoftwareStatus::Canceled);
    assert_eq!(items[0].updated_at, 13);
    let view = get_request(&db, alice, rid).unwrap();
    assert_eq!(view.softwares.len(), 1);
    assert_eq!(view.softwares[0].id, 2);
    assert_eq!(
        delete_software_from_request(&mut db, alice, rid, 7, 14).err(), Some(ApiError::NotFound));
    // re-adding resets the item to New
    add_software_to_request(&mut db, m, rid, Some(1), true, 15).unwrap();
    let items = db.get_line_items(rid);
    assert_eq!(items.len(), 2);
    assert_eq!(items[0].status, SoftwareStatus::New);
    assert_eq!(items[0].created_at, 10);
    assert_eq!(
        set_line_item_status(&mut db, alice, rid, 1, SoftwareStatus::Completed, 16).err(), Some(ApiError::Forbidden));
    set_line_item_status(&mut db, m, rid, 1, SoftwareStatus::Failed, 17).unwrap();
    assert_eq!(db.get_line_items(rid)[0].status, SoftwareStatus::Failed);
}

#[test]
fn moderators_claim_unassigned_requests() {
    let (mut db, m, alice, _b) = setup(1);
    let m2 = db.register_hashed("mod2".to_string(), "h".to_string()).unwrap();
    db.promote_moderator(m2).unwrap();
    let m2 = Caller { uid: m2, moderator: true };
    let rid = new_request(&mut db, alice, None, None, 1).unwrap();
    assert_eq!(apply_mod(&mut db, alice, rid).err(), Some(ApiError::Forbidden));
    assert_eq!(apply_mod(&mut db, m, 42).err(), Some(ApiError::NotFound));
    assert_eq!(apply_mod(&mut db, m, rid).unwrap().moderator_id, Some(m.uid));
    assert!(apply_mod(&mut db, m, rid).is_ok());
    assert_eq!(apply_mod(&mut db, m2, rid).err(), Some(ApiError::Conflict));
}

#[test]
fn new_request_for_unknown_user_is_not_found() {
    let (mut db, _m, _a, _b) = setup(0);
    let stranger = Caller { uid: 77, moderator: false };
    assert_eq!(new_request(&mut db, stranger, None, None, 1).err(), Some(ApiError::NotFound));
}

#[test]
fn role_is_checked_before_lookup() {
    let (mut db, m, alice, _b) = setup(1);
    for to in [RequestStatus::Processed, RequestStatus::Completed, RequestStatus::Deleted] {
        assert_eq!(change_request_status(&mut db, alice, 99, Some(to), 1).err(), Some(ApiError::Forbidden));
    }
    assert_eq!(delete_request(&mut db, alice, 99, 1).err(), Some(ApiError::Forbidden));
    assert_eq!(
        change_request_status(&mut db, alice, 99, Some(RequestStatus::Canceled), 1).err(),
        Some(ApiError::NotFound)
    );
    let rid = new_request(&mut db, alice, None, None, 1).unwrap();
    delete_request(&mut db, m, rid, 2).unwrap();
    assert_eq!(delete_request(&mut db, alice, rid, 3).err(), Some(ApiError::Forbidden));
    let mut body = empty_body();
    body.status = Some(RequestStatus::Processed);
    assert_eq!(update_request(&mut db, alice, 99, body, 4).err(), Some(ApiError::Forbidden));
    assert_eq!(db.get_request_row(rid).unwrap().status, RequestStatus::Deleted);
}

#[test]
fn draft_is_the_latest_created_request() {
    let (mut db, _m, alice, _b) = setup(2);
    let newer = new_request(&mut db, alice, None, None, 500).unwrap();
    let older = new_request(&mut db, alice, None, None, 100).unwrap();
    assert_eq!(db.find_draft_request(alice.uid), Some(newer));
    let same = new_request(&mut db, alice, None, None, 500).unwrap();
    assert_eq!(db.find_draft_request(alice.uid), Some(same));
    assert_ne!(older, same);
    assert_eq!(add_software_to_last_request(&mut db, alice, 1, 600), Ok(same));
}

#[test]
fn tables_round_trip_and_malformed_ones_are_refused() {
    let (mut db, m, alice, _b) = setup(2);
    let rid = add_software_to_last_request(&mut db, alice, 2, 10).unwrap();
    change_request_status(&mut db, m, rid, Some(RequestStatus::Processed), 20).unwrap();
    let copy = |db: &Database| {
        (
            db.users().iter().map(|u| u.duplicate()).collect::<Vec<_>>(),
            db.softwares().iter().map(|s| s.duplicate()).collect::<Vec<_>>(),
            db.tags().iter().map(|t| t.duplicate()).collect::<Vec<_>>(),
            db.software_tags().clone(),
            db.requests().iter().map(|r| r.duplicate()).collect::<Vec<_>>(),
            db.line_items().clone(),
        )
    };
    let (u, s, t, l, r, i) = copy(&db);
    let back = Database::from_tables(u, s, t, l, r, i).unwrap();
    assert_eq!(back.users().len(), 3);
    assert_eq!(back.requests()[0].status, RequestStatus::Processed);
    assert_eq!(back.line_items().len(), 1);

    let (mut u, s, t, l, r, i) = copy(&db);
    u[1].username = "mod".to_string();
    assert!(Database::from_tables(u, s, t, l, r, i).is_none());
    let (u, s, t, l, mut r, i) = copy(&db);
    r[0].processed_at = None;
    assert!(Database::from_tables(u, s, t, l, r, i).is_none());
    let (u, s, t, l, r, mut i) = copy(&db);
    i[0].software_id = 9;
    assert!(Database::from_tables(u, s, t, l, r, i).is_none());
}
