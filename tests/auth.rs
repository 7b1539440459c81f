use soft_catalog::auth::{login, register, AuthDecision, TokenClaims, VerifyAuth, TOKEN_LIFETIME};
use soft_catalog::ids::{parse_i32, parse_id};
use soft_catalog::model::{ApiError, Caller, Field};
use soft_catalog::status::{transition_allowed, RequestStatus};
use soft_catalog::store::Database;

fn claims(uid: i32) -> TokenClaims {
    TokenClaims { exp: 10, tkid: "t".to_string(), moderator: false, uid }
}

#[test]
fn second_registration_conflicts() {
    let mut db = Database::new();
    assert_eq!(db.register_hashed("ann".to_string(), "h1".to_string()), Ok(1));
    assert_eq!(db.register_hashed("ann".to_string(), "h2".to_string()), Err(ApiError::Conflict));
    assert_eq!(db.register_hashed("bob".to_string(), "h3".to_string()), Ok(2));
    assert_eq!(db.find_user("ann").unwrap().password, "h1");
    assert!(db.find_user("carl").is_none());
}

#[test]
fn register_then_login_with_bcrypt() {
    let mut db = Database::new();
    let id = register(&mut db, "ann".to_string(), "secret").unwrap();
    assert_eq!(id, 1);
    assert!(db.find_user("ann").unwrap().password.starts_with("$2b$10$"));
    assert_ne!(db.find_user("ann").unwrap().password, "secret");
    assert_eq!(register(&mut db, "ann".to_string(), "other"), Err(ApiError::Conflict));
    let c = login(&db, "ann", "secret", 1000).unwrap();
    assert_eq!(c.uid, id);
    assert!(!c.moderator);
    assert_eq!(c.exp, 1000 + TOKEN_LIFETIME);
    assert_eq!(c.tkid.len(), 36);
    let c2 = login(&db, "ann", "secret", 1000).unwrap();
    assert_ne!(c.tkid, c2.tkid);
    assert_eq!(login(&db, "ann", "wrong", 1000).err(), Some(ApiError::Forbidden));
    assert_eq!(login(&db, "nobody", "secret", 1000).err(), Some(ApiError::Forbidden));
}

#[test]
fn required_auth_rejects_missing_and_revoked() {
    let svc = VerifyAuth::required().new_transform(7u8);
    assert_eq!(*svc.service(), 7u8);
    assert!(matches!(svc.decide(None, false), AuthDecision::Reject));
    assert!(matches!(svc.decide(Some(claims(1)), true), AuthDecision::Reject));
    match svc.decide(Some(claims(1)), false) {
        AuthDecision::Pass(Some(c)) => assert_eq!(c.caller(), Caller { uid: 1, moderator: false }),
        _ => panic!("expected pass"),
    }
}

#[test]
fn optional_auth_passes_anonymous() {
    let auth = VerifyAuth::optional();
    assert!(!auth.is_required());
    let svc = auth.new_transform(());
    assert!(matches!(svc.decide(None, false), AuthDecision::Pass(None)));
    assert!(matches!(svc.decide(Some(claims(2)), true), AuthDecision::Reject));
    assert!(VerifyAuth::required().is_required());
}

#[test]
fn ids_parse_like_from_str() {
    assert_eq!(parse_i32("42"), Some(42));
    assert_eq!(parse_i32("+7"), Some(7));
    assert_eq!(parse_i32("-15"), Some(-15));
    assert_eq!(parse_i32("007"), Some(7));
    assert_eq!(parse_i32("2147483647"), Some(i32::MAX));
    assert_eq!(parse_i32("-2147483648"), Some(i32::MIN));
    assert_eq!(parse_i32("2147483648"), None);
    assert_eq!(parse_i32("99999999999"), None);
    assert_eq!(parse_i32(""), None);
    assert_eq!(parse_i32("-"), None);
    assert_eq!(parse_i32("1a"), None);
    assert_eq!(parse_i32(" 1"), None);
    assert_eq!(parse_id(Some("12"), Field::Id), Ok(12));
    assert_eq!(parse_id(Some("x"), Field::Id), Err(ApiError::Validation(Field::Id)));
    assert_eq!(parse_id(None, Field::RequestId), Err(ApiError::Validation(Field::RequestId)));
}

#[test]
fn transition_table() {
    let all = [RequestStatus::Created, RequestStatus::Processed, RequestStatus::Completed, RequestStatus::Canceled, RequestStatus::Deleted];
    let legal = [
        (RequestStatus::Created, RequestStatus::Processed),
        (RequestStatus::Processed, RequestStatus::Completed),
        (RequestStatus::Created, RequestStatus::Canceled),
        (RequestStatus::Processed, RequestStatus::Canceled),
        (RequestStatus::Created, RequestStatus::Deleted),
        (RequestStatus::Processed, RequestStatus::Deleted),
        (RequestStatus::Completed, RequestStatus::Deleted),
        (RequestStatus::Canceled, RequestStatus::Deleted),
    ];
    for from in all {
        for to in all {
            assert_eq!(transition_allowed(from, to), legal.contains(&(from, to)), "{:?} -> {:?}", from, to);
        }
    }
}

#[test]
fn error_reasons_are_stable() {
    assert_eq!(ApiError::Validation(Field::Id).reason(), "validation");
    assert_eq!(ApiError::NotFound.reason(), "not_found");
    assert_eq!(ApiError::IllegalTransition.reason(), "illegal_transition");
    assert_eq!(ApiError::Forbidden.reason(), "forbidden");
    assert_eq!(ApiError::Conflict.reason(), "conflict");
    assert_eq!(ApiError::Internal.reason(), "internal");
}

#[test]
fn login_verdict_needs_user_and_password() {
    let mut db = Database::new();
    db.register_hashed("ann".to_string(), "h".to_string()).unwrap();
    db.register_hashed("bob".to_string(), "h".to_string()).unwrap();
    assert_eq!(db.login_with_verdict("bob", true), Ok(2));
    assert_eq!(db.login_with_verdict("bob", false), Err(ApiError::Forbidden));
    assert_eq!(db.login_with_verdict("carl", true), Err(ApiError::Forbidden));
    assert_eq!(db.login("ann", "anything"), Err(ApiError::Forbidden));
}

#[test]
fn malformed_stored_hash_is_refused_without_panic() {
    let mut db = Database::new();
    let salt: String = std::iter::repeat('\u{1}').take(22).collect();
    db.register_hashed("ann".to_string(), format!("$2b$10${}abc", salt)).unwrap();
    db.register_hashed("bob".to_string(), format!("$2b$10${}abc", "\u{80}".repeat(22))).unwrap();
    assert_eq!(db.login("ann", "secret"), Err(ApiError::Forbidden));
    assert_eq!(db.login("bob", "secret"), Err(ApiError::Forbidden));
    assert_eq!(login(&db, "ann", "secret", 5).err(), Some(ApiError::Forbidden));
}
