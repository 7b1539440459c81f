use soft_catalog::card::{get_soft, index, logo_from_encoded, SoftwareCard};
use soft_catalog::catalog::{
    add_image, add_tag_to_software, all_softwares, all_tags, check_logo_target, delete_soft,
    delete_software, delete_tag, get_soft_list, find_tags, get_software, get_tag, new_software, new_tag, update_software,
    update_tag,
};
use soft_catalog::lifecycle::{add_software_to_last_request, get_request};
use soft_catalog::catalog::DeleteSoftPayload;
use soft_catalog::model::{ApiError, Caller, Field, OptionInsertSoftware};
use soft_catalog::store::Database;
use soft_catalog::text::{contains_str, matches_ignoring_case, same_text};

fn body(name: &str, active: bool) -> OptionInsertSoftware {
    OptionInsertSoftware {
        description: Some("x".to_string()),
        version: Some("1.0".to_string()),
        active: Some(active),
        name: Some(name.to_string()),
        source: Some("y".to_string()),
    }
}

fn empty() -> OptionInsertSoftware {
    OptionInsertSoftware { description: None, version: None, active: None, name: None, source: None }
}

fn setup() -> (Database, Caller, Caller) {
    let mut db = Database::new();
    let m = db.register_hashed("mod".to_string(), "h".to_string()).unwrap();
    db.promote_moderator(m).unwrap();
    let u = db.register_hashed("user".to_string(), "h".to_string()).unwrap();
    (db, Caller { uid: m, moderator: true }, Caller { uid: u, moderator: false })
}

#[test]
fn created_entry_listed_then_hidden_by_soft_delete() {
    let (mut db, m, _u) = setup();
    let s = new_software(&mut db, m, body("Editor", true), 5).unwrap();
    assert_eq!(s.name, "Editor");
    assert!(s.active);
    let listing = all_softwares(&db, None, None);
    assert_eq!(listing.softwares.len(), 1);
    assert_eq!(listing.softwares[0].software.name, "Editor");
    assert_eq!(listing.request_id, None);
    delete_software(&mut db, m, s.id).unwrap();
    assert_eq!(all_softwares(&db, None, None).softwares.len(), 0);
    let again = get_software(&db, s.id).unwrap();
    assert!(!again.software.active);
    assert_eq!(again.software.name, "Editor");
    // idempotent, and silent on absent ids
    delete_software(&mut db, m, s.id).unwrap();
    delete_software(&mut db, m, 99).unwrap();
}

#[test]
fn soft_deleted_entry_stays_in_requests() {
    let (mut db, m, u) = setup();
    let s = new_software(&mut db, m, body("Editor", true), 5).unwrap();
    let t = new_tag(&mut db, m, "text".to_string()).unwrap();
    add_tag_to_software(&mut db, m, s.id, t.id).unwrap();
    let rid = add_software_to_last_request(&mut db, u, s.id, 6).unwrap();
    delete_software(&mut db, m, s.id).unwrap();
    assert_eq!(all_softwares(&db, None, Some("edit".to_string())).softwares.len(), 0);
    assert_eq!(all_softwares(&db, None, Some("TEXT".to_string())).softwares.len(), 0);
    assert_eq!(db.get_softwares_by_name("Edit").len(), 0);
    let req = get_request(&db, u, rid).unwrap();
    assert_eq!(req.softwares.len(), 1);
    assert_eq!(req.softwares[0].id, s.id);
    assert!(!req.softwares[0].active);
}

#[test]
fn search_matches_name_or_tag_ignoring_case() {
    let (mut db, m, u) = setup();
    let e = new_software(&mut db, m, body("Editor", true), 1).unwrap();
    let c = new_software(&mut db, m, body("Compiler", true), 1).unwrap();
    new_software(&mut db, m, body("Hidden Editor", false), 1).unwrap();
    let t = new_tag(&mut db, m, "Development".to_string()).unwrap();
    add_tag_to_software(&mut db, m, c.id, t.id).unwrap();
    let by_name = all_softwares(&db, None, Some("EDIT".to_string()));
    assert_eq!(by_name.softwares.len(), 1);
    assert_eq!(by_name.softwares[0].software.id, e.id);
    let by_tag = all_softwares(&db, None, Some("develop".to_string()));
    assert_eq!(by_tag.softwares.len(), 1);
    assert_eq!(by_tag.softwares[0].software.id, c.id);
    assert_eq!(by_tag.softwares[0].tags.len(), 1);
    assert_eq!(by_tag.softwares[0].tags[0].name, "Development");
    assert_eq!(all_softwares(&db, None, Some("zzz".to_string())).softwares.len(), 0);
    assert_eq!(all_softwares(&db, None, Some(String::new())).softwares.len(), 2);
    let names = db.get_softwares_by_name("eDiToR");
    assert_eq!(names.len(), 1);
    assert_eq!(names[0].id, e.id);
    let rid = add_software_to_last_request(&mut db, u, e.id, 2).unwrap();
    assert_eq!(all_softwares(&db, Some(u), None).request_id, Some(rid));
    assert_eq!(all_softwares(&db, Some(m), None).request_id, None);
}

#[test]
fn creation_needs_moderator_and_every_field() {
    let (mut db, m, u) = setup();
    assert_eq!(new_software(&mut db, u, body("A", true), 1).err(), Some(ApiError::Forbidden));
    let mut b = body("A", true);
    b.source = None;
    assert_eq!(new_software(&mut db, m, b, 1).err(), Some(ApiError::Validation(Field::Fields)));
    assert_eq!(all_softwares(&db, None, None).softwares.len(), 0);
}

#[test]
fn update_merges_patch_over_row() {
    let (mut db, m, u) = setup();
    let s = new_software(&mut db, m, body("Editor", true), 1).unwrap();
    assert_eq!(update_software(&mut db, m, s.id, empty(), 2).err(), Some(ApiError::Validation(Field::Body)));
    let mut p = empty();
    p.version = Some("2.0".to_string());
    assert_eq!(update_software(&mut db, u, s.id, p, 2).err(), Some(ApiError::Forbidden));
    let mut p = empty();
    p.version = Some("2.0".to_string());
    let r = update_software(&mut db, m, s.id, p, 3).unwrap();
    assert_eq!(r.version, "2.0");
    assert_eq!(r.name, "Editor");
    assert_eq!(r.description, "x");
    assert_eq!(r.updated_at, 3);
    assert_eq!(r.created_at, 1);
    let mut p = empty();
    p.name = Some("Other".to_string());
    assert_eq!(update_software(&mut db, m, 50, p, 4).err(), Some(ApiError::NotFound));
    assert_eq!(get_software(&db, 50).err(), Some(ApiError::NotFound));
}

#[test]
fn logo_is_recorded_after_checks() {
    let (mut db, m, u) = setup();
    let s = new_software(&mut db, m, body("Editor", true), 1).unwrap();
    assert_eq!(check_logo_target(&db, u, s.id), Err(ApiError::Forbidden));
    assert_eq!(check_logo_target(&db, m, 9), Err(ApiError::NotFound));
    assert_eq!(check_logo_target(&db, m, s.id), Ok(()));
    let r = add_image(&mut db, m, s.id, "http://store/1.png".to_string(), 7).unwrap();
    assert_eq!(r.logo, Some("http://store/1.png".to_string()));
    assert_eq!(get_software(&db, s.id).unwrap().software.logo, Some("http://store/1.png".to_string()));
}

#[test]
fn tags_are_unique_and_searchable() {
    let (mut db, m, u) = setup();
    assert_eq!(new_tag(&mut db, u, "a".to_string()).err(), Some(ApiError::Forbidden));
    let a = new_tag(&mut db, m, "Graphics".to_string()).unwrap();
    let b = new_tag(&mut db, m, "Audio".to_string()).unwrap();
    assert_eq!(a.id, 1);
    assert_eq!(b.id, 2);
    assert_eq!(new_tag(&mut db, m, "Audio".to_string()).err(), Some(ApiError::Conflict));
    assert_eq!(update_tag(&mut db, m, a.id, "Audio".to_string()).err(), Some(ApiError::Conflict));
    assert_eq!(update_tag(&mut db, m, a.id, "Graphics".to_string()).unwrap().name, "Graphics");
    assert_eq!(update_tag(&mut db, m, a.id, "Images".to_string()).unwrap().name, "Images");
    assert_eq!(update_tag(&mut db, m, 9, "X".to_string()).err(), Some(ApiError::NotFound));
    assert_eq!(get_tag(&db, a.id).unwrap().name, "Images");
    assert_eq!(get_tag(&db, 9).err(), Some(ApiError::NotFound));
    let found = find_tags(&db, "AUD");
    assert_eq!(found.len(), 1);
    assert_eq!(found[0].name, "Audio");
    assert_eq!(all_tags(&db).len(), 2);
}

#[test]
fn links_are_unique_and_removable() {
    let (mut db, m, u) = setup();
    let s = new_software(&mut db, m, body("Editor", true), 1).unwrap();
    let t = new_tag(&mut db, m, "text".to_string()).unwrap();
    assert_eq!(add_tag_to_software(&mut db, u, s.id, t.id), Err(ApiError::Forbidden));
    assert_eq!(add_tag_to_software(&mut db, m, s.id, 5), Err(ApiError::NotFound));
    assert_eq!(add_tag_to_software(&mut db, m, s.id, t.id), Ok(()));
    assert_eq!(add_tag_to_software(&mut db, m, s.id, t.id), Err(ApiError::Conflict));
    assert_eq!(db.get_tags_by_software(s.id).len(), 1);
    assert_eq!(delete_tag(&mut db, m, s.id, t.id), Ok(()));
    assert_eq!(db.get_tags_by_software(s.id).len(), 0);
    assert_eq!(db.delete_tag_from_software(s.id, t.id), 0);
    assert_eq!(get_tag(&db, t.id).unwrap().name, "text");
    assert!(get_software(&db, s.id).is_ok());
}

#[test]
fn card_inlines_logo_as_base64() {
    let (mut db, m, _u) = setup();
    let s = new_software(&mut db, m, body("Editor", true), 1).unwrap();
    let t = new_tag(&mut db, m, "text".to_string()).unwrap();
    add_tag_to_software(&mut db, m, s.id, t.id).unwrap();
    let plain = SoftwareCard::new(get_software(&db, s.id).unwrap().software, &db);
    assert_eq!(plain.logo, "/static/default_logo.png");
    assert_eq!(plain.tags.len(), 1);
    add_image(&mut db, m, s.id, "abc".to_string(), 2).unwrap();
    let card = SoftwareCard::new(get_software(&db, s.id).unwrap().software, &db);
    assert_eq!(card.logo, "data:image/png;base64, YWJj");
    assert_eq!(card.name, "Editor");
    assert_eq!(card.version, "1.0");
}

#[test]
fn text_matching() {
    assert!(matches_ignoring_case("EdItor", "EDIT"));
    assert!(matches_ignoring_case("Straße", "STRASSE") == "straße".contains("strasse"));
    assert!(!matches_ignoring_case("Editor", "tide"));
    assert!(matches_ignoring_case("Editor", ""));
    assert!(contains_str("abcabd", "abd"));
    assert!(!contains_str("ab", "abc"));
    assert!(!contains_str("Editor", "edit"));
    assert!(same_text("héllo", "héllo"));
    assert!(!same_text("hello", "hellO"));
}

#[test]
fn catalog_page_cards() {
    let (mut db, m, _u) = setup();
    let e = new_software(&mut db, m, body("Editor", true), 1).unwrap();
    new_software(&mut db, m, body("Compiler", true), 1).unwrap();
    new_software(&mut db, m, body("Old editor", false), 1).unwrap();
    add_image(&mut db, m, e.id, "abcd".to_string(), 2).unwrap();
    let all = index(&db, "").unwrap();
    assert_eq!(all.len(), 2);
    assert_eq!(all[0].logo, "data:image/png;base64, YWJjZA==");
    assert_eq!(all[1].logo, "/static/default_logo.png");
    let some = index(&db, "EDIT").unwrap();
    assert_eq!(some.len(), 1);
    assert_eq!(some[0].id, e.id);
    assert_eq!(get_soft(&db, e.id).unwrap().name, "Editor");
    assert_eq!(get_soft(&db, 42).err(), Some(ApiError::NotFound));
    assert_eq!(logo_from_encoded(None), "/static/default_logo.png");
    assert_eq!(logo_from_encoded(Some("QQ==".to_string())), "data:image/png;base64, QQ==");
}

#[test]
fn text_list_matches_name_or_description() {
    let (mut db, m, u) = setup();
    let mut b = body("Editor", true);
    b.description = Some("writes Text".to_string());
    let e = new_software(&mut db, m, b, 1).unwrap();
    let c = new_software(&mut db, m, body("Compiler", false), 1).unwrap();
    assert_eq!(get_soft_list(&db, "Text").len(), 1);
    assert_eq!(get_soft_list(&db, "text").len(), 0);
    assert_eq!(get_soft_list(&db, "Comp")[0].id, c.id);
    assert_eq!(get_soft_list(&db, "").len(), 2);
    assert_eq!(delete_soft(&mut db, u, DeleteSoftPayload { soft_id: e.id }), Err(ApiError::Forbidden));
    assert_eq!(delete_soft(&mut db, m, DeleteSoftPayload { soft_id: e.id }), Ok(()));
    assert!(!get_software(&db, e.id).unwrap().software.active);
}
