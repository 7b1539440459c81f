//! Catalog and tag operations as seen by callers: moderators curate, everyone
//! browses.
use vstd::prelude::*;
use crate::model::{
    ApiError, Caller, Field, InsertSoftware, OptionInsertSoftware, Software, SoftwareWithTags, Tag,
};
use crate::store::{opt_view, patched_software, Database, DbView, MAX_ROWS};

verus! {

/// The active listing with each entry's tags, and the caller's draft.
#[derive(Debug)]
pub struct SoftwareListing {
    pub softwares: Vec<SoftwareWithTags>,
    pub request_id: Option<i32>,
}

/// The caller's draft id, when there is a caller.
pub open spec fn draft_for(db: DbView, caller: Option<Caller>) -> Option<i32> {
    match caller {
        Some(c) => match db.draft_of(c.uid as int) {
            Some(d) => Some(d as i32),
            None => None,
        },
        None => None,
    }
}

/// The active listing for `search`, each entry with its tags, together with
/// the caller's draft request.
pub fn all_softwares(db: &Database, caller: Option<Caller>, search: Option<String>) -> (r:
    SoftwareListing)
    requires
        db.wf(),
    ensures
        r.softwares@.len() == db@.active_listing(opt_view(search)).len(),
        forall|i: int|
            0 <= i < r.softwares@.len() ==> (#[trigger] r.softwares@[i]).software
                == db@.active_listing(opt_view(search))[i] && r.softwares@[i].tags@ == db@.tags_of(
                db@.active_listing(opt_view(search))[i].id as int,
            ),
        r.request_id == draft_for(db@, caller),
{
    let ghost listing = db@.active_listing(opt_view(search));
    let list = db.get_all_active_softwares(search);
    let mut out: Vec<SoftwareWithTags> = Vec::new();
    let mut i: usize = 0;
    while i < list.len()
        invariant
            db.wf(),
            list@ == listing,
            i <= list@.len(),
            out@.len() == i,
            forall|j: int|
                0 <= j < i ==> (#[trigger] out@[j]).software == listing[j] && out@[j].tags@
                    == db@.tags_of(listing[j].id as int),
        decreases list@.len() - i,
    {
        let s = list[i].duplicate();
        let tags = db.get_tags_by_software(s.id);
        out.push(SoftwareWithTags { software: s, tags });
        i = i + 1;
    }
    let request_id = match caller {
        Some(c) => db.find_draft_request(c.uid),
        None => None,
    };
    SoftwareListing { softwares: out, request_id }
}

/// Every entry whose name or description contains `search`, exactly as written.
pub fn get_soft_list(db: &Database, search: &str) -> (r: Vec<Software>)
    requires
        db.wf(),
    ensures
        r@ == db@.softwares.filter(DbView::text_pred(search@)),
{
    db.get_softwares_by_text(search)
}

/// Entry `id` with its tags; inactive entries too.
pub fn get_software(db: &Database, id: i32) -> (r: Result<SoftwareWithTags, ApiError>)
    requires
        db.wf(),
    ensures
        !db@.has_software(id as int) ==> r == Err::<SoftwareWithTags, ApiError>(ApiError::NotFound),
        db@.has_software(id as int) ==> (r matches Ok(x) && x.software == db@.software(id as int)
            && x.tags@ == db@.tags_of(id as int)),
{
    match db.get_software_by_id(id) {
        Some(x) => Ok(x),
        None => Err(ApiError::NotFound),
    }
}

/// A moderator adds an entry; every field must be given.
pub fn new_software(db: &mut Database, caller: Caller, body: OptionInsertSoftware, now: u64) -> (r:
    Result<Software, ApiError>)
    requires
        old(db).wf(),
    ensures
        final(db).wf(),
        !caller.moderator ==> r == Err::<Software, ApiError>(ApiError::Forbidden) && final(db)@ == old(db)@,
        caller.moderator && body.any_none() ==> r == Err::<Software, ApiError>(
            ApiError::Validation(Field::Fields),
        ) && final(db)@ == old(db)@,
        caller.moderator && !body.any_none() && old(db)@.softwares.len() >= MAX_ROWS ==> r == Err::<
            Software,
            ApiError,
        >(ApiError::Internal) && final(db)@ == old(db)@,
        caller.moderator && !body.any_none() && old(db)@.softwares.len() < MAX_ROWS ==> final(db)@
            == old(db)@.with_software(
            InsertSoftware {
                description: body.description->0,
                active: body.active->0,
                name: body.name->0,
                version: body.version->0,
                source: body.source->0,
            },
            now,
        ) && r == Ok::<Software, ApiError>(final(db)@.software(final(db)@.softwares.len() as int)),
{
    if !caller.moderator {
        return Err(ApiError::Forbidden);
    }
    if body.any_none() {
        return Err(ApiError::Validation(Field::Fields));
    }
    let fields = match (body.description, body.active, body.name, body.version, body.source) {
        (Some(description), Some(active), Some(name), Some(version), Some(source)) => InsertSoftware {
            description,
            active,
            name,
            version,
            source,
        },
        _ => {
            return Err(ApiError::Validation(Field::Fields));
        },
    };
    let id = db.new_software(fields, now)?;
    match db.get_software_by_id(id) {
        Some(x) => Ok(x.software),
        None => Err(ApiError::Internal),
    }
}

/// A moderator patches entry `id`; an empty patch is refused.
pub fn update_software(
    db: &mut Database,
    caller: Caller,
    id: i32,
    body: OptionInsertSoftware,
    now: u64,
) -> (r: Result<Software, ApiError>)
    requires
        old(db).wf(),
    ensures
        final(db).wf(),
        !caller.moderator ==> r == Err::<Software, ApiError>(ApiError::Forbidden) && final(db)@ == old(db)@,
        caller.moderator && body.all_none() ==> r == Err::<Software, ApiError>(
            ApiError::Validation(Field::Body),
        ) && final(db)@ == old(db)@,
        caller.moderator && !body.all_none() && !old(db)@.has_software(id as int) ==> r == Err::<
            Software,
            ApiError,
        >(ApiError::NotFound) && final(db)@ == old(db)@,
        caller.moderator && !body.all_none() && old(db)@.has_software(id as int) ==> r == Ok::<
            Software,
            ApiError,
        >(patched_software(old(db)@.software(id as int), body, now)) && final(db)@ == old(
            db,
        )@.with_software_row(id as int, patched_software(old(db)@.software(id as int), body, now)),
{
    if !caller.moderator {
        return Err(ApiError::Forbidden);
    }
    if body.all_none() {
        return Err(ApiError::Validation(Field::Body));
    }
    db.update_software_by_id(id, body, now)
}

/// A moderator soft-deletes entry `id`; repeating it, or an absent id, is no error.
pub fn delete_software(db: &mut Database, caller: Caller, id: i32) -> (r: Result<(), ApiError>)
    requires
        old(db).wf(),
    ensures
        final(db).wf(),
        !caller.moderator ==> r == Err::<(), ApiError>(ApiError::Forbidden) && final(db)@ == old(db)@,
        caller.moderator ==> r == Ok::<(), ApiError>(()) && final(db)@ == old(db)@.deactivated(
            id as int,
        ),
{
    if !caller.moderator {
        return Err(ApiError::Forbidden);
    }
    db.delete_software(id);
    Ok(())
}

/// Body of a soft-delete form: the entry to deactivate.
#[derive(Debug, Clone, Copy, PartialEq, Eq, Structural)]
pub struct DeleteSoftPayload {
    pub soft_id: i32,
}

/// Soft delete of the entry that a form names.
pub fn delete_soft(db: &mut Database, caller: Caller, payload: DeleteSoftPayload) -> (r: Result<
    (),
    ApiError,
>)
    requires
        old(db).wf(),
    ensures
        final(db).wf(),
        !caller.moderator ==> r == Err::<(), ApiError>(ApiError::Forbidden) && final(db)@ == old(db)@,
        caller.moderator ==> r == Ok::<(), ApiError>(()) && final(db)@ == old(db)@.deactivated(
            payload.soft_id as int,
        ),
{
    delete_software(db, caller, payload.soft_id)
}

/// Checks, before any upload, that a moderator may set the logo of entry `id`.
pub fn check_logo_target(db: &Database, caller: Caller, id: i32) -> (r: Result<(), ApiError>)
    requires
        db.wf(),
    ensures
        !caller.moderator ==> r == Err::<(), ApiError>(ApiError::Forbidden),
        caller.moderator && !db@.has_software(id as int) ==> r == Err::<(), ApiError>(
            ApiError::NotFound,
        ),
        caller.moderator && db@.has_software(id as int) ==> r == Ok::<(), ApiError>(()),
{
    if !caller.moderator {
        return Err(ApiError::Forbidden);
    }
    if db.get_software_by_id(id).is_none() {
        return Err(ApiError::NotFound);
    }
    Ok(())
}

/// After a successful upload, a moderator records `url` as the logo of entry `id`.
pub fn add_image(db: &mut Database, caller: Caller, id: i32, url: String, now: u64) -> (r: Result<
    Software,
    ApiError,
>)
    requires
        old(db).wf(),
    ensures
        final(db).wf(),
        !caller.moderator ==> r == Err::<Software, ApiError>(ApiError::Forbidden) && final(db)@ == old(db)@,
        caller.moderator && !old(db)@.has_software(id as int) ==> r == Err::<Software, ApiError>(
            ApiError::NotFound,
        ) && final(db)@ == old(db)@,
        caller.moderator && old(db)@.has_software(id as int) ==> r == Ok::<Software, ApiError>(
            Software { logo: Some(url), updated_at: now, ..old(db)@.software(id as int) },
        ) && final(db)@ == old(db)@.with_software_row(
            id as int,
            Software { logo: Some(url), updated_at: now, ..old(db)@.software(id as int) },
        ),
{
    if !caller.moderator {
        return Err(ApiError::Forbidden);
    }
    db.add_logo_to_software(id, url, now)
}

/// A moderator attaches tag `tag_id` to entry `soft_id`.
pub fn add_tag_to_software(db: &mut Database, caller: Caller, soft_id: i32, tag_id: i32) -> (r:
    Result<(), ApiError>)
    requires
        old(db).wf(),
    ensures
        final(db).wf(),
        !caller.moderator ==> r == Err::<(), ApiError>(ApiError::Forbidden) && final(db)@ == old(db)@,
        caller.moderator && !(old(db)@.has_software(soft_id as int) && old(db)@.has_tag(
            tag_id as int,
        )) ==> r == Err::<(), ApiError>(ApiError::NotFound) && final(db)@ == old(db)@,
        caller.moderator && old(db)@.has_software(soft_id as int) && old(db)@.has_tag(tag_id as int)
            && old(db)@.linked(soft_id as int, tag_id as int) ==> r == Err::<(), ApiError>(
            ApiError::Conflict,
        ) && final(db)@ == old(db)@,
        caller.moderator && old(db)@.has_software(soft_id as int) && old(db)@.has_tag(tag_id as int)
            && !old(db)@.linked(soft_id as int, tag_id as int) ==> r == Ok::<(), ApiError>(())
            && final(db)@ == old(db)@.with_link(soft_id as int, tag_id as int),
{
    if !caller.moderator {
        return Err(ApiError::Forbidden);
    }
    db.add_tag_to_software(soft_id, tag_id)
}

/// A moderator detaches tag `tag_id` from entry `soft_id`; a missing link is no error.
pub fn delete_tag(db: &mut Database, caller: Caller, soft_id: i32, tag_id: i32) -> (r: Result<
    (),
    ApiError,
>)
    requires
        old(db).wf(),
    ensures
        final(db).wf(),
        !caller.moderator ==> r == Err::<(), ApiError>(ApiError::Forbidden) && final(db)@ == old(db)@,
        caller.moderator ==> r == Ok::<(), ApiError>(()) && final(db)@.is_unlinked_from(
            old(db)@,
            soft_id as int,
            tag_id as int,
        ),
{
    if !caller.moderator {
        return Err(ApiError::Forbidden);
    }
    db.delete_tag_from_software(soft_id, tag_id);
    Ok(())
}

/// Every tag.
pub fn all_tags(db: &Database) -> (r: Vec<Tag>)
    requires
        db.wf(),
    ensures
        r@ == db@.tags,
{
    db.get_all_tags()
}

/// Tags whose name contains `input`, ignoring case.
pub fn find_tags(db: &Database, input: &str) -> (r: Vec<Tag>)
    requires
        db.wf(),
    ensures
        r@ == db@.tags_matching(input@),
{
    db.get_tags_by_input(input)
}

/// A moderator creates a tag with a new name.
pub fn new_tag(db: &mut Database, caller: Caller, name: String) -> (r: Result<Tag, ApiError>)
    requires
        old(db).wf(),
    ensures
        final(db).wf(),
        !caller.moderator ==> r == Err::<Tag, ApiError>(ApiError::Forbidden) && final(db)@ == old(db)@,
        caller.moderator && old(db)@.tag_name_taken(name@) ==> r == Err::<Tag, ApiError>(
            ApiError::Conflict,
        ) && final(db)@ == old(db)@,
        caller.moderator && !old(db)@.tag_name_taken(name@) && old(db)@.tags.len() < MAX_ROWS ==> r
            == Ok::<Tag, ApiError>(Tag { id: (old(db)@.tags.len() + 1) as i32, name }) && final(db)@
            == old(db)@.with_tag(name),
        caller.moderator && !old(db)@.tag_name_taken(name@) && old(db)@.tags.len() >= MAX_ROWS ==> r
            == Err::<Tag, ApiError>(ApiError::Internal) && final(db)@ == old(db)@,
{
    if !caller.moderator {
        return Err(ApiError::Forbidden);
    }
    db.create_tag(name)
}

/// Tag `id`.
pub fn get_tag(db: &Database, id: i32) -> (r: Result<Tag, ApiError>)
    requires
        db.wf(),
    ensures
        !db@.has_tag(id as int) ==> r == Err::<Tag, ApiError>(ApiError::NotFound),
        db@.has_tag(id as int) ==> r == Ok::<Tag, ApiError>(db@.tag(id as int)),
{
    match db.get_tag_by_id(id) {
        Some(t) => Ok(t),
        None => Err(ApiError::NotFound),
    }
}

/// A moderator renames tag `id`.
pub fn update_tag(db: &mut Database, caller: Caller, id: i32, name: String) -> (r: Result<
    Tag,
    ApiError,
>)
    requires
        old(db).wf(),
    ensures
        final(db).wf(),
        !caller.moderator ==> r == Err::<Tag, ApiError>(ApiError::Forbidden) && final(db)@ == old(db)@,
        caller.moderator && !old(db)@.has_tag(id as int) ==> r == Err::<Tag, ApiError>(
            ApiError::NotFound,
        ) && final(db)@ == old(db)@,
        caller.moderator && old(db)@.has_tag(id as int) && old(db)@.tag_name_taken_by_other(
            id as int,
            name@,
        ) ==> r == Err::<Tag, ApiError>(ApiError::Conflict) && final(db)@ == old(db)@,
        caller.moderator && old(db)@.has_tag(id as int) && !old(db)@.tag_name_taken_by_other(
            id as int,
            name@,
        ) ==> r == Ok::<Tag, ApiError>(Tag { id, name }) && final(db)@ == old(db)@.with_tag_name(
            id as int,
            name,
        ),
{
    if !caller.moderator {
        return Err(ApiError::Forbidden);
    }
    db.update_tag_by_id(id, name)
}

} // verus!
