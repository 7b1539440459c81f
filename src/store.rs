//! The relational store: six tables with their key and reference rules.
//!
//! Users, software, tags and requests are never removed, so the row with id
//! `n` always stands at index `n - 1` of its table.
use vstd::prelude::*;
use crate::model::{
    ApiError, InsertRequest, RequestFilter, InsertSoftware, OptionInsertSoftware, Request, RequestSoftware,
    RequestWithSoftwares, Software, SoftwareTag, SoftwareWithTags, Tag, User,
};
use crate::status::{is_transition, RequestStatus, SoftwareStatus};
use crate::credentials::{bcrypt_accepts, hash_password, printable_ascii, verify_password};
use crate::text::{
    contains_str, contains_text, is_printable_ascii, lower_chars, lower_of, matches_ci, matches_lowered, same_text,
};

verus! {

/// The largest number of rows a table with `i32` ids can hold.
pub const MAX_ROWS: usize = 2147483647;

/// The mathematical content of the store.
pub struct DbView {
    pub users: Seq<User>,
    pub softwares: Seq<Software>,
    pub tags: Seq<Tag>,
    pub software_tags: Seq<SoftwareTag>,
    pub requests: Seq<Request>,
    pub line_items: Seq<RequestSoftware>,
}

/// The request's timestamps agree with its status: `processed_at` is set
/// from the first entry into `Processed` on, `completed_at` only once
/// `Completed` is reached.
pub open spec fn stamps_ok(r: Request) -> bool {
    &&& r.status == RequestStatus::Created ==> r.processed_at is None && r.completed_at is None
    &&& r.status == RequestStatus::Processed ==> r.processed_at is Some && r.completed_at is None
    &&& r.status == RequestStatus::Completed ==> r.processed_at is Some && r.completed_at is Some
    &&& r.completed_at is Some ==> r.status == RequestStatus::Completed || r.status
        == RequestStatus::Deleted
}

impl DbView {
    pub open spec fn has_user(self, id: int) -> bool {
        1 <= id <= self.users.len()
    }

    pub open spec fn has_software(self, id: int) -> bool {
        1 <= id <= self.softwares.len()
    }

    pub open spec fn has_tag(self, id: int) -> bool {
        1 <= id <= self.tags.len()
    }

    pub open spec fn has_request(self, id: int) -> bool {
        1 <= id <= self.requests.len()
    }

    pub open spec fn user(self, id: int) -> User {
        self.users[id - 1]
    }

    pub open spec fn software(self, id: int) -> Software {
        self.softwares[id - 1]
    }

    pub open spec fn tag(self, id: int) -> Tag {
        self.tags[id - 1]
    }

    pub open spec fn request(self, id: int) -> Request {
        self.requests[id - 1]
    }

    /// Some user is registered under `name`.
    pub open spec fn username_taken(self, name: Seq<char>) -> bool {
        exists|i: int| 0 <= i < self.users.len() && #[trigger] self.users[i].username@ == name
    }

    /// Some tag is named `name`.
    pub open spec fn tag_name_taken(self, name: Seq<char>) -> bool {
        exists|i: int| 0 <= i < self.tags.len() && #[trigger] self.tags[i].name@ == name
    }

    pub open spec fn ids_ok(self) -> bool {
        &&& self.users.len() <= MAX_ROWS
        &&& self.softwares.len() <= MAX_ROWS
        &&& self.tags.len() <= MAX_ROWS
        &&& self.requests.len() <= MAX_ROWS
        &&& forall|i: int| 0 <= i < self.users.len() ==> #[trigger] self.users[i].id == i + 1
        &&& forall|i: int|
            0 <= i < self.softwares.len() ==> #[trigger] self.softwares[i].id == i + 1
        &&& forall|i: int| 0 <= i < self.tags.len() ==> #[trigger] self.tags[i].id == i + 1
        &&& forall|i: int|
            0 <= i < self.requests.len() ==> #[trigger] self.requests[i].id == i + 1
    }

    pub open spec fn names_unique(self) -> bool {
        &&& forall|i: int, j: int|
            0 <= i < self.users.len() && 0 <= j < self.users.len() && i != j
                ==> #[trigger] self.users[i].username@ != #[trigger] self.users[j].username@
        &&& forall|i: int, j: int|
            0 <= i < self.tags.len() && 0 <= j < self.tags.len() && i != j
                ==> #[trigger] self.tags[i].name@ != #[trigger] self.tags[j].name@
    }

    pub open spec fn link_row_ok(self, l: SoftwareTag) -> bool {
        self.has_software(l.software_id as int) && self.has_tag(l.tag_id as int)
    }

    pub open spec fn links_ok(self) -> bool {
        &&& forall|k: int|
            0 <= k < self.software_tags.len() ==> self.link_row_ok(#[trigger] self.software_tags[k])
        &&& forall|k: int, l: int|
            0 <= k < self.software_tags.len() && 0 <= l < self.software_tags.len() && k != l
                ==> #[trigger] self.software_tags[k] != #[trigger] self.software_tags[l]
    }

    pub open spec fn request_row_ok(self, r: Request) -> bool {
        self.has_user(r.user_id as int) && stamps_ok(r)
    }

    pub open spec fn requests_ok(self) -> bool {
        forall|i: int| 0 <= i < self.requests.len() ==> self.request_row_ok(#[trigger] self.requests[i])
    }

    pub open spec fn item_row_ok(self, li: RequestSoftware) -> bool {
        self.has_request(li.request_id as int) && self.has_software(li.software_id as int)
    }

    pub open spec fn items_ok(self) -> bool {
        &&& forall|k: int| 0 <= k < self.line_items.len() ==> self.item_row_ok(#[trigger] self.line_items[k])
        &&& forall|k: int, l: int|
            0 <= k < self.line_items.len() && 0 <= l < self.line_items.len() && k != l
                ==> (#[trigger] self.line_items[k].request_id != #[trigger] self.line_items[l].request_id
                || self.line_items[k].software_id != self.line_items[l].software_id)
    }

    /// Well-formedness: ids follow positions, names and link keys are unique,
    /// every reference names an existing row, timestamps agree with status.
    pub open spec fn wf(self) -> bool {
        &&& self.ids_ok()
        &&& self.names_unique()
        &&& self.links_ok()
        &&& self.requests_ok()
        &&& self.items_ok()
    }
}

/// The store.
pub struct Database {
    users: Vec<User>,
    softwares: Vec<Software>,
    tags: Vec<Tag>,
    software_tags: Vec<SoftwareTag>,
    requests: Vec<Request>,
    line_items: Vec<RequestSoftware>,
}

impl View for Database {
    type V = DbView;

    closed spec fn view(&self) -> DbView {
        DbView {
            users: self.users@,
            softwares: self.softwares@,
            tags: self.tags@,
            software_tags: self.software_tags@,
            requests: self.requests@,
            line_items: self.line_items@,
        }
    }
}

impl Database {
    pub open spec fn wf(&self) -> bool {
        self@.wf()
    }

    /// An empty store.
    pub fn new() -> (r: Database)
        ensures
            r.wf(),
            r@.users.len() == 0,
            r@.softwares.len() == 0,
            r@.tags.len() == 0,
            r@.software_tags.len() == 0,
            r@.requests.len() == 0,
            r@.line_items.len() == 0,
    {
        Database {
            users: Vec::new(),
            softwares: Vec::new(),
            tags: Vec::new(),
            software_tags: Vec::new(),
            requests: Vec::new(),
            line_items: Vec::new(),
        }
    }
}


impl DbView {
    /// The store after registering `name` with password hash `hash`.
    pub open spec fn with_user(self, name: String, hash: String) -> DbView {
        DbView {
            users: self.users.push(
                User { id: (self.users.len() + 1) as i32, username: name, password: hash, moderator: false },
            ),
            ..self
        }
    }

    /// What registering `name` with password hash `hash` does: the store
    /// after it and the new user's id, or the error.
    pub open spec fn registered(self, name: String, hash: String) -> (DbView, Result<i32, ApiError>) {
        if self.username_taken(name@) {
            (self, Err(ApiError::Conflict))
        } else if self.users.len() >= MAX_ROWS {
            (self, Err(ApiError::Internal))
        } else {
            (self.with_user(name, hash), Ok((self.users.len() + 1) as i32))
        }
    }

    /// Index of the user registered under `name`, if any.
    pub open spec fn user_index(self, name: Seq<char>) -> Option<int> {
        if self.username_taken(name) {
            Some(choose|i: int| 0 <= i < self.users.len() && #[trigger] self.users[i].username@ == name)
        } else {
            None
        }
    }
}

/// Reference rules on line items survive a change that keeps the line items
/// and the sizes of the tables they point into.
pub(crate) proof fn lemma_items_frame(a: DbView, b: DbView)
    requires
        a.items_ok(),
        b.line_items == a.line_items,
        b.requests.len() >= a.requests.len(),
        b.softwares.len() >= a.softwares.len(),
    ensures
        b.items_ok(),
{
    assert forall|k: int, l: int|
        0 <= k < b.line_items.len() && 0 <= l < b.line_items.len() && k != l implies (
        #[trigger] b.line_items[k].request_id != #[trigger] b.line_items[l].request_id
            || b.line_items[k].software_id != b.line_items[l].software_id) by {
        assert(a.line_items[k].request_id != a.line_items[l].request_id
            || a.line_items[k].software_id != a.line_items[l].software_id);
    }
    assert forall|k: int| 0 <= k < b.line_items.len() implies b.item_row_ok(#[trigger] b.line_items[k]) by {
        assert(a.item_row_ok(a.line_items[k]));
    }
}

/// Link rules survive a change that keeps the links and the sizes of the
/// tables they point into.
pub(crate) proof fn lemma_links_frame(a: DbView, b: DbView)
    requires
        a.links_ok(),
        b.software_tags == a.software_tags,
        b.tags.len() >= a.tags.len(),
        b.softwares.len() >= a.softwares.len(),
    ensures
        b.links_ok(),
{
    assert forall|k: int| 0 <= k < b.software_tags.len() implies b.link_row_ok(#[trigger] b.software_tags[k]) by {
        assert(a.link_row_ok(a.software_tags[k]));
    }
}

/// Request rules survive a change that keeps the requests and does not shrink
/// the users.
pub(crate) proof fn lemma_requests_frame(a: DbView, b: DbView)
    requires
        a.requests_ok(),
        b.requests == a.requests,
        b.users.len() >= a.users.len(),
    ensures
        b.requests_ok(),
{
    assert forall|i: int| 0 <= i < b.requests.len() implies b.request_row_ok(#[trigger] b.requests[i]) by {
        assert(a.request_row_ok(a.requests[i]));
    }
}

impl Database {
    /// Position of the user named `name`.
    fn user_position(&self, name: &str) -> (r: Option<usize>)
        requires
            self.wf(),
        ensures
            r is None <==> !self@.username_taken(name@),
            r matches Some(i) ==> i < self@.users.len() && self@.users[i as int].username@ == name@
                && self@.user_index(name@) == Some(i as int),
    {
        let mut i: usize = 0;
        while i < self.users.len()
            invariant
                self.wf(),
                i <= self@.users.len(),
                forall|k: int| 0 <= k < i ==> #[trigger] self@.users[k].username@ != name@,
            decreases self@.users.len() - i,
        {
            if same_text(self.users[i].username.as_str(), name) {
                proof {
                    assert(self@.username_taken(name@));
                    let j = self@.user_index(name@)->0;
                    assert(self@.users[j].username@ == name@);
                    if j != i {
                        assert(self@.users[j].username@ != self@.users[i as int].username@);
                    }
                }
                return Some(i);
            }
            i = i + 1;
        }
        None
    }

    /// Whether `user_id` names a moderator.
    pub fn is_moderator(&self, user_id: i32) -> (r: bool)
        requires
            self.wf(),
        ensures
            r == (self@.has_user(user_id as int) && self@.user(user_id as int).moderator),
    {
        if user_id >= 1 && (user_id as usize) <= self.users.len() {
            self.users[(user_id - 1) as usize].moderator
        } else {
            false
        }
    }

    /// The user registered under `name`.
    pub fn find_user(&self, name: &str) -> (r: Option<User>)
        requires
            self.wf(),
        ensures
            r is None <==> !self@.username_taken(name@),
            r matches Some(u) ==> self@.user_index(name@) matches Some(i) && u == self@.users[i],
    {
        match self.user_position(name) {
            Some(i) => Some(self.users[i].duplicate()),
            None => None,
        }
    }

    /// Registers `username` with an already computed password hash.
    pub fn register_hashed(&mut self, username: String, hash: String) -> (r: Result<i32, ApiError>)
        requires
            old(self).wf(),
        ensures
            final(self).wf(),
            (final(self)@, r) == old(self)@.registered(username, hash),
    {
        if self.user_position(username.as_str()).is_some() {
            return Err(ApiError::Conflict);
        }
        if self.users.len() >= MAX_ROWS {
            return Err(ApiError::Internal);
        }
        let id = (self.users.len() + 1) as i32;
        let ghost name = username;
        let ghost old_db = self@;
        self.users.push(User { id, username, password: hash, moderator: false });
        assert(self@ =~= old_db.with_user(name, hash));
        proof {
            assert forall|i: int, j: int|
                0 <= i < self@.users.len() && 0 <= j < self@.users.len() && i != j
                    implies #[trigger] self@.users[i].username@ != #[trigger] self@.users[j].username@ by {
                if i == old_db.users.len() {
                    assert(old_db.users[j].username@ != name@);
                } else if j == old_db.users.len() {
                    assert(old_db.users[i].username@ != name@);
                }
            }
            assert(self@.line_items == old_db.line_items);
            assert(self@.requests == old_db.requests);
            assert(self@.softwares == old_db.softwares);
            lemma_items_frame(old_db, self@);
            lemma_links_frame(old_db, self@);
            lemma_requests_frame(old_db, self@);
        }
        Ok(id)
    }
}


/// The view of an optional string.
pub open spec fn opt_view(o: Option<String>) -> Option<Seq<char>> {
    match o {
        Some(s) => Some(s@),
        None => None,
    }
}

/// The tags that `links` attach to software `sid`, in link order.
pub open spec fn tags_in(links: Seq<SoftwareTag>, tags: Seq<Tag>, sid: int) -> Seq<Tag>
    decreases links.len(),
{
    if links.len() == 0 {
        Seq::empty()
    } else {
        let rest = tags_in(links.drop_last(), tags, sid);
        if links.last().software_id == sid {
            rest.push(tags[links.last().tag_id - 1])
        } else {
            rest
        }
    }
}

/// A stored entry after a sparse patch taken at time `now`.
pub open spec fn patched_software(s: Software, p: OptionInsertSoftware, now: u64) -> Software {
    Software {
        description: if p.description is Some { p.description->0 } else { s.description },
        version: if p.version is Some { p.version->0 } else { s.version },
        active: if p.active is Some { p.active->0 } else { s.active },
        name: if p.name is Some { p.name->0 } else { s.name },
        source: if p.source is Some { p.source->0 } else { s.source },
        updated_at: now,
        ..s
    }
}

impl DbView {
    /// The store after adding the entry `f` at time `now`.
    pub open spec fn with_software(self, f: InsertSoftware, now: u64) -> DbView {
        DbView {
            softwares: self.softwares.push(
                Software {
                    id: (self.softwares.len() + 1) as i32,
                    description: f.description,
                    logo: None,
                    active: f.active,
                    name: f.name,
                    version: f.version,
                    source: f.source,
                    created_at: now,
                    updated_at: now,
                },
            ),
            ..self
        }
    }

    /// The store with entry `id` replaced by `s`.
    pub open spec fn with_software_row(self, id: int, s: Software) -> DbView {
        DbView { softwares: self.softwares.update(id - 1, s), ..self }
    }

    /// The store after the soft delete of entry `id`; unchanged when absent.
    pub open spec fn deactivated(self, id: int) -> DbView {
        if self.has_software(id) {
            self.with_software_row(id, Software { active: false, ..self.software(id) })
        } else {
            self
        }
    }

    /// The tags attached to entry `sid`.
    pub open spec fn tags_of(self, sid: int) -> Seq<Tag> {
        tags_in(self.software_tags, self.tags, sid)
    }

    /// Some tag attached to entry `sid` contains `ql` once lower-cased.
    pub open spec fn tag_hit(self, sid: int, ql: Seq<char>) -> bool {
        exists|k: int|
            0 <= k < self.software_tags.len() && #[trigger] self.software_tags[k].software_id == sid
                && contains_text(lower_of(self.tag(self.software_tags[k].tag_id as int).name@), ql)
    }

    /// Entry `s` belongs to the active listing for search `q`.
    pub open spec fn listed(self, s: Software, q: Option<Seq<char>>) -> bool {
        s.active && match q {
            None => true,
            Some(q) => matches_ci(s.name@, q) || self.tag_hit(s.id as int, lower_of(q)),
        }
    }

    pub open spec fn listed_pred(self, q: Option<Seq<char>>) -> spec_fn(Software) -> bool {
        |s: Software| self.listed(s, q)
    }

    /// The active listing for search `q`, in catalog order.
    pub open spec fn active_listing(self, q: Option<Seq<char>>) -> Seq<Software> {
        self.softwares.filter(self.listed_pred(q))
    }

    pub open spec fn name_pred(q: Seq<char>) -> spec_fn(Software) -> bool {
        |s: Software| s.active && matches_ci(s.name@, q)
    }

    pub open spec fn text_pred(q: Seq<char>) -> spec_fn(Software) -> bool {
        |s: Software| contains_text(s.name@, q) || contains_text(s.description@, q)
    }

    /// Active entries whose name contains `q`, ignoring case.
    pub open spec fn by_name(self, q: Seq<char>) -> Seq<Software> {
        self.softwares.filter(DbView::name_pred(q))
    }
}

/// A change of one software row that keeps its id keeps the store well formed.
pub(crate) proof fn lemma_software_row(a: DbView, id: int, s: Software)
    requires
        a.wf(),
        a.has_software(id),
        s.id == id,
    ensures
        a.with_software_row(id, s).wf(),
{
    let b = a.with_software_row(id, s);
    lemma_items_frame(a, b);
    lemma_links_frame(a, b);
    lemma_requests_frame(a, b);
}

/// Adding an entry keeps the store well formed.
pub(crate) proof fn lemma_software_push(a: DbView, f: InsertSoftware, now: u64)
    requires
        a.wf(),
        a.softwares.len() < MAX_ROWS,
    ensures
        a.with_software(f, now).wf(),
{
    let b = a.with_software(f, now);
    lemma_items_frame(a, b);
    lemma_links_frame(a, b);
    lemma_requests_frame(a, b);
}

impl Database {
    /// Whether a tag attached to `sid` contains `ql` once lower-cased.
    fn tag_hit_exec(&self, sid: i32, ql: &Vec<char>) -> (r: bool)
        requires
            self.wf(),
        ensures
            r == self@.tag_hit(sid as int, ql@),
    {
        let mut k: usize = 0;
        while k < self.software_tags.len()
            invariant
                self.wf(),
                k <= self@.software_tags.len(),
                forall|j: int|
                    0 <= j < k && #[trigger] self@.software_tags[j].software_id == sid
                        ==> !contains_text(
                        lower_of(self@.tag(self@.software_tags[j].tag_id as int).name@),
                        ql@,
                    ),
            decreases self@.software_tags.len() - k,
        {
            let link = self.software_tags[k];
            if link.software_id == sid {
                assert(self@.link_row_ok(self@.software_tags[k as int]));
                let t = &self.tags[(link.tag_id - 1) as usize];
                if matches_lowered(t.name.as_str(), ql) {
                    return true;
                }
            }
            k = k + 1;
        }
        false
    }

    /// Active entries, restricted by `search` when given: the name or an
    /// attached tag name contains it, ignoring case.
    pub fn get_all_active_softwares(&self, search: Option<String>) -> (r: Vec<Software>)
        requires
            self.wf(),
        ensures
            r@ == self@.active_listing(opt_view(search)),
    {
        let ghost q = opt_view(search);
        let ql: Vec<char> = match &search {
            Some(s) => lower_chars(s.as_str()),
            None => Vec::new(),
        };
        let mut r: Vec<Software> = Vec::new();
        let mut i: usize = 0;
        while i < self.softwares.len()
            invariant
                self.wf(),
                i <= self@.softwares.len(),
                q == opt_view(search),
                q matches Some(qq) ==> ql@ == lower_of(qq),
                r@ == self@.softwares.take(i as int).filter(self@.listed_pred(q)),
            decreases self@.softwares.len() - i,
        {
            let s = &self.softwares[i];
            let keep = if !s.active {
                false
            } else {
                match &search {
                    None => true,
                    Some(term) => {
                        matches_lowered(s.name.as_str(), &ql) || self.tag_hit_exec(s.id, &ql)
                    },
                }
            };
            proof {
                self@.softwares.lemma_take_succ_push(i as int);
                self@.softwares.take(i as int).lemma_filter_push(
                    self@.softwares[i as int],
                    self@.listed_pred(q),
                );
            }
            if keep {
                r.push(s.duplicate());
            }
            i = i + 1;
        }
        assert(self@.softwares.take(i as int) =~= self@.softwares);
        r
    }

    /// Active entries whose name contains `query`, ignoring case.
    pub fn get_softwares_by_name(&self, query: &str) -> (r: Vec<Software>)
        requires
            self.wf(),
        ensures
            r@ == self@.by_name(query@),
    {
        let ql = lower_chars(query);
        let mut r: Vec<Software> = Vec::new();
        let mut i: usize = 0;
        while i < self.softwares.len()
            invariant
                self.wf(),
                i <= self@.softwares.len(),
                ql@ == lower_of(query@),
                r@ == self@.softwares.take(i as int).filter(DbView::name_pred(query@)),
            decreases self@.softwares.len() - i,
        {
            let s = &self.softwares[i];
            let keep = s.active && matches_lowered(s.name.as_str(), &ql);
            proof {
                self@.softwares.lemma_take_succ_push(i as int);
                self@.softwares.take(i as int).lemma_filter_push(
                    self@.softwares[i as int],
                    DbView::name_pred(query@),
                );
            }
            if keep {
                r.push(s.duplicate());
            }
            i = i + 1;
        }
        assert(self@.softwares.take(i as int) =~= self@.softwares);
        r
    }

    /// Every entry whose name or description contains `search`, exactly as
    /// written.
    pub fn get_softwares_by_text(&self, search: &str) -> (r: Vec<Software>)
        requires
            self.wf(),
        ensures
            r@ == self@.softwares.filter(DbView::text_pred(search@)),
    {
        let mut r: Vec<Software> = Vec::new();
        let mut i: usize = 0;
        while i < self.softwares.len()
            invariant
                i <= self@.softwares.len(),
                r@ == self@.softwares.take(i as int).filter(DbView::text_pred(search@)),
            decreases self@.softwares.len() - i,
        {
            let s = &self.softwares[i];
            let keep = contains_str(s.name.as_str(), search) || contains_str(
                s.description.as_str(),
                search,
            );
            proof {
                self@.softwares.lemma_take_succ_push(i as int);
                self@.softwares.take(i as int).lemma_filter_push(
                    self@.softwares[i as int],
                    DbView::text_pred(search@),
                );
            }
            if keep {
                r.push(s.duplicate());
            }
            i = i + 1;
        }
        assert(self@.softwares.take(i as int) =~= self@.softwares);
        r
    }

    /// The tags attached to entry `soft_id`, in link order.
    pub fn get_tags_by_software(&self, soft_id: i32) -> (r: Vec<Tag>)
        requires
            self.wf(),
        ensures
            r@ == self@.tags_of(soft_id as int),
    {
        let mut r: Vec<Tag> = Vec::new();
        let mut k: usize = 0;
        while k < self.software_tags.len()
            invariant
                self.wf(),
                k <= self@.software_tags.len(),
                r@ == tags_in(self@.software_tags.take(k as int), self@.tags, soft_id as int),
            decreases self@.software_tags.len() - k,
        {
            let link = self.software_tags[k];
            assert(self@.software_tags.take(k + 1).drop_last() =~= self@.software_tags.take(
                k as int,
            ));
            if link.software_id == soft_id {
                assert(self@.link_row_ok(self@.software_tags[k as int]));
                r.push(self.tags[(link.tag_id - 1) as usize].duplicate());
            }
            k = k + 1;
        }
        assert(self@.software_tags.take(k as int) =~= self@.software_tags);
        r
    }

    /// Entry `id` with its tags; inactive entries are returned too.
    pub fn get_software_by_id(&self, id: i32) -> (r: Option<SoftwareWithTags>)
        requires
            self.wf(),
        ensures
            r is Some <==> self@.has_software(id as int),
            r matches Some(x) ==> x.software == self@.software(id as int) && x.tags@
                == self@.tags_of(id as int),
    {
        if id < 1 || id as usize > self.softwares.len() {
            return None;
        }
        let software = self.softwares[(id - 1) as usize].duplicate();
        let tags = self.get_tags_by_software(id);
        Some(SoftwareWithTags { software, tags })
    }

    /// Soft delete: entry `id` becomes inactive; nothing happens when absent.
    pub fn delete_software(&mut self, id: i32)
        requires
            old(self).wf(),
        ensures
            final(self).wf(),
            final(self)@ == old(self)@.deactivated(id as int),
    {
        if id < 1 || id as usize > self.softwares.len() {
            return;
        }
        let ghost a = self@;
        let i = (id - 1) as usize;
        let mut s = self.softwares[i].duplicate();
        s.active = false;
        self.softwares.set(i, s);
        proof {
            lemma_software_row(a, id as int, Software { active: false, ..a.software(id as int) });
        }
        assert(self@ =~= a.deactivated(id as int));
    }

    /// Adds an entry at time `now`; fails with `Internal` when the table is full.
    pub fn new_software(&mut self, fields: InsertSoftware, now: u64) -> (r: Result<i32, ApiError>)
        requires
            old(self).wf(),
        ensures
            final(self).wf(),
            old(self)@.softwares.len() < MAX_ROWS ==> r == Ok::<i32, ApiError>(
                (old(self)@.softwares.len() + 1) as i32,
            ) && final(self)@ == old(self)@.with_software(fields, now),
            old(self)@.softwares.len() >= MAX_ROWS ==> r == Err::<i32, ApiError>(ApiError::Internal)
                && final(self)@ == old(self)@,
    {
        if self.softwares.len() >= MAX_ROWS {
            return Err(ApiError::Internal);
        }
        let ghost a = self@;
        let ghost f = fields;
        let id = (self.softwares.len() + 1) as i32;
        self.softwares.push(
            Software {
                id,
                description: fields.description,
                logo: None,
                active: fields.active,
                name: fields.name,
                version: fields.version,
                source: fields.source,
                created_at: now,
                updated_at: now,
            },
        );
        proof {
            lemma_software_push(a, f, now);
        }
        assert(self@ =~= a.with_software(f, now));
        Ok(id)
    }

    /// Applies a sparse patch to entry `id` at time `now`.
    pub fn update_software_by_id(&mut self, id: i32, patch: OptionInsertSoftware, now: u64) -> (r:
        Result<Software, ApiError>)
        requires
            old(self).wf(),
        ensures
            final(self).wf(),
            !old(self)@.has_software(id as int) ==> r == Err::<Software, ApiError>(
                ApiError::NotFound,
            ) && final(self)@ == old(self)@,
            old(self)@.has_software(id as int) ==> r == Ok::<Software, ApiError>(
                patched_software(old(self)@.software(id as int), patch, now),
            ) && final(self)@ == old(self)@.with_software_row(
                id as int,
                patched_software(old(self)@.software(id as int), patch, now),
            ),
    {
        if id < 1 || id as usize > self.softwares.len() {
            return Err(ApiError::NotFound);
        }
        let ghost a = self@;
        let ghost p = patch;
        let i = (id - 1) as usize;
        let cur = self.softwares[i].duplicate();
        let s = Software {
            id: cur.id,
            description: match patch.description {
                Some(v) => v,
                None => cur.description,
            },
            logo: cur.logo,
            active: match patch.active {
                Some(v) => v,
                None => cur.active,
            },
            name: match patch.name {
                Some(v) => v,
                None => cur.name,
            },
            version: match patch.version {
                Some(v) => v,
                None => cur.version,
            },
            source: match patch.source {
                Some(v) => v,
                None => cur.source,
            },
            created_at: cur.created_at,
            updated_at: now,
        };
        assert(s == patched_software(a.software(id as int), p, now));
        let out = s.duplicate();
        self.softwares.set(i, s);
        proof {
            lemma_software_row(a, id as int, out);
        }
        assert(self@ =~= a.with_software_row(id as int, out));
        Ok(out)
    }

    /// Records `logo_url` as the logo of entry `id` at time `now`.
    pub fn add_logo_to_software(&mut self, id: i32, logo_url: String, now: u64) -> (r: Result<
        Software,
        ApiError,
    >)
        requires
            old(self).wf(),
        ensures
            final(self).wf(),
            !old(self)@.has_software(id as int) ==> r == Err::<Software, ApiError>(
                ApiError::NotFound,
            ) && final(self)@ == old(self)@,
            old(self)@.has_software(id as int) ==> r == Ok::<Software, ApiError>(
                Software { logo: Some(logo_url), updated_at: now, ..old(self)@.software(id as int) },
            ) && final(self)@ == old(self)@.with_software_row(
                id as int,
                Software { logo: Some(logo_url), updated_at: now, ..old(self)@.software(id as int) },
            ),
    {
        if id < 1 || id as usize > self.softwares.len() {
            return Err(ApiError::NotFound);
        }
        let ghost a = self@;
        let i = (id - 1) as usize;
        let mut s = self.softwares[i].duplicate();
        s.logo = Some(logo_url);
        s.updated_at = now;
        let out = s.duplicate();
        self.softwares.set(i, s);
        proof {
            lemma_software_row(a, id as int, out);
        }
        assert(self@ =~= a.with_software_row(id as int, out));
        Ok(out)
    }
}


impl DbView {
    /// The store after creating a tag named `name`.
    pub open spec fn with_tag(self, name: String) -> DbView {
        DbView { tags: self.tags.push(Tag { id: (self.tags.len() + 1) as i32, name }), ..self }
    }

    /// A tag other than `id` is named `name`.
    pub open spec fn tag_name_taken_by_other(self, id: int, name: Seq<char>) -> bool {
        exists|i: int|
            0 <= i < self.tags.len() && i != id - 1 && #[trigger] self.tags[i].name@ == name
    }

    /// The store after renaming tag `id` to `name`.
    pub open spec fn with_tag_name(self, id: int, name: String) -> DbView {
        DbView { tags: self.tags.update(id - 1, Tag { id: id as i32, name }), ..self }
    }

    pub open spec fn tag_pred(q: Seq<char>) -> spec_fn(Tag) -> bool {
        |t: Tag| matches_ci(t.name@, q)
    }

    /// Tags whose name contains `q`, ignoring case.
    pub open spec fn tags_matching(self, q: Seq<char>) -> Seq<Tag> {
        self.tags.filter(DbView::tag_pred(q))
    }

    /// Tag `tid` is attached to entry `sid`.
    pub open spec fn linked(self, sid: int, tid: int) -> bool {
        exists|k: int|
            0 <= k < self.software_tags.len() && #[trigger] self.software_tags[k].software_id == sid
                && self.software_tags[k].tag_id == tid
    }

    /// The store after attaching tag `tid` to entry `sid`.
    pub open spec fn with_link(self, sid: int, tid: int) -> DbView {
        DbView {
            software_tags: self.software_tags.push(
                SoftwareTag { software_id: sid as i32, tag_id: tid as i32 },
            ),
            ..self
        }
    }

    /// `self` is `a` with the link `(sid, tid)` gone and every other link kept.
    pub open spec fn is_unlinked_from(self, a: DbView, sid: int, tid: int) -> bool {
        &&& self.users == a.users
        &&& self.softwares == a.softwares
        &&& self.tags == a.tags
        &&& self.requests == a.requests
        &&& self.line_items == a.line_items
        &&& !self.linked(sid, tid)
        &&& forall|s: int, t: int| (s != sid || t != tid) ==> (self.linked(s, t) <==> a.linked(s, t))
    }
}

impl Database {
    /// Position of the tag named `name`.
    fn tag_position(&self, name: &str) -> (r: Option<usize>)
        requires
            self.wf(),
        ensures
            r is None <==> !self@.tag_name_taken(name@),
            r matches Some(i) ==> i < self@.tags.len() && self@.tags[i as int].name@ == name@,
    {
        let mut i: usize = 0;
        while i < self.tags.len()
            invariant
                self.wf(),
                i <= self@.tags.len(),
                forall|k: int| 0 <= k < i ==> #[trigger] self@.tags[k].name@ != name@,
            decreases self@.tags.len() - i,
        {
            if same_text(self.tags[i].name.as_str(), name) {
                return Some(i);
            }
            i = i + 1;
        }
        None
    }

    /// Position of the link `(sid, tid)`.
    fn link_position(&self, sid: i32, tid: i32) -> (r: Option<usize>)
        requires
            self.wf(),
        ensures
            r is None <==> !self@.linked(sid as int, tid as int),
            r matches Some(k) ==> k < self@.software_tags.len() && self@.software_tags[k as int]
                == (SoftwareTag { software_id: sid, tag_id: tid }),
    {
        let mut k: usize = 0;
        while k < self.software_tags.len()
            invariant
                self.wf(),
                k <= self@.software_tags.len(),
                forall|j: int|
                    0 <= j < k && #[trigger] self@.software_tags[j].software_id == sid
                        ==> self@.software_tags[j].tag_id != tid,
            decreases self@.software_tags.len() - k,
        {
            let l = self.software_tags[k];
            if l.software_id == sid && l.tag_id == tid {
                return Some(k);
            }
            k = k + 1;
        }
        None
    }

    /// Every tag.
    pub fn get_all_tags(&self) -> (r: Vec<Tag>)
        requires
            self.wf(),
        ensures
            r@ == self@.tags,
    {
        let mut r: Vec<Tag> = Vec::new();
        let mut i: usize = 0;
        while i < self.tags.len()
            invariant
                i <= self@.tags.len(),
                r@ == self@.tags.take(i as int),
            decreases self@.tags.len() - i,
        {
            r.push(self.tags[i].duplicate());
            i = i + 1;
            assert(r@ =~= self@.tags.take(i as int));
        }
        assert(self@.tags.take(i as int) =~= self@.tags);
        r
    }

    /// Tags whose name contains `input`, ignoring case.
    pub fn get_tags_by_input(&self, input: &str) -> (r: Vec<Tag>)
        requires
            self.wf(),
        ensures
            r@ == self@.tags_matching(input@),
    {
        let ql = lower_chars(input);
        let mut r: Vec<Tag> = Vec::new();
        let mut i: usize = 0;
        while i < self.tags.len()
            invariant
                i <= self@.tags.len(),
                ql@ == lower_of(input@),
                r@ == self@.tags.take(i as int).filter(DbView::tag_pred(input@)),
            decreases self@.tags.len() - i,
        {
            let keep = matches_lowered(self.tags[i].name.as_str(), &ql);
            proof {
                self@.tags.lemma_take_succ_push(i as int);
                self@.tags.take(i as int).lemma_filter_push(
                    self@.tags[i as int],
                    DbView::tag_pred(input@),
                );
            }
            if keep {
                r.push(self.tags[i].duplicate());
            }
            i = i + 1;
        }
        assert(self@.tags.take(i as int) =~= self@.tags);
        r
    }

    /// Tag `id`.
    pub fn get_tag_by_id(&self, id: i32) -> (r: Option<Tag>)
        requires
            self.wf(),
        ensures
            r is Some <==> self@.has_tag(id as int),
            r matches Some(t) ==> t == self@.tag(id as int),
    {
        if id < 1 || id as usize > self.tags.len() {
            return None;
        }
        Some(self.tags[(id - 1) as usize].duplicate())
    }

    /// Creates a tag named `name`; names are unique.
    pub fn create_tag(&mut self, name: String) -> (r: Result<Tag, ApiError>)
        requires
            old(self).wf(),
        ensures
            final(self).wf(),
            old(self)@.tag_name_taken(name@) ==> r == Err::<Tag, ApiError>(ApiError::Conflict)
                && final(self)@ == old(self)@,
            !old(self)@.tag_name_taken(name@) && old(self)@.tags.len() < MAX_ROWS ==> r == Ok::<
                Tag,
                ApiError,
            >(Tag { id: (old(self)@.tags.len() + 1) as i32, name }) && final(self)@ == old(self)@.with_tag(name),
            !old(self)@.tag_name_taken(name@) && old(self)@.tags.len() >= MAX_ROWS ==> r == Err::<
                Tag,
                ApiError,
            >(ApiError::Internal) && final(self)@ == old(self)@,
    {
        if self.tag_position(name.as_str()).is_some() {
            return Err(ApiError::Conflict);
        }
        if self.tags.len() >= MAX_ROWS {
            return Err(ApiError::Internal);
        }
        let ghost a = self@;
        let id = (self.tags.len() + 1) as i32;
        let t = Tag { id, name };
        let out = t.duplicate();
        self.tags.push(t);
        proof {
            assert(self@ =~= a.with_tag(name));
            assert forall|i: int, j: int|
                0 <= i < self@.tags.len() && 0 <= j < self@.tags.len() && i != j
                    implies #[trigger] self@.tags[i].name@ != #[trigger] self@.tags[j].name@ by {
                if i == a.tags.len() {
                    assert(a.tags[j].name@ != name@);
                } else if j == a.tags.len() {
                    assert(a.tags[i].name@ != name@);
                }
            }
            lemma_items_frame(a, self@);
            lemma_links_frame(a, self@);
            lemma_requests_frame(a, self@);
        }
        Ok(out)
    }

    /// Renames tag `id`; another tag may not hold the name already.
    pub fn update_tag_by_id(&mut self, id: i32, name: String) -> (r: Result<Tag, ApiError>)
        requires
            old(self).wf(),
        ensures
            final(self).wf(),
            !old(self)@.has_tag(id as int) ==> r == Err::<Tag, ApiError>(ApiError::NotFound)
                && final(self)@ == old(self)@,
            old(self)@.has_tag(id as int) && old(self)@.tag_name_taken_by_other(id as int, name@)
                ==> r == Err::<Tag, ApiError>(ApiError::Conflict) && final(self)@ == old(self)@,
            old(self)@.has_tag(id as int) && !old(self)@.tag_name_taken_by_other(id as int, name@)
                ==> r == Ok::<Tag, ApiError>(Tag { id, name }) && final(self)@ == old(self)@.with_tag_name(id as int, name),
    {
        if id < 1 || id as usize > self.tags.len() {
            return Err(ApiError::NotFound);
        }
        let i = (id - 1) as usize;
        match self.tag_position(name.as_str()) {
            Some(j) => {
                if j != i {
                    return Err(ApiError::Conflict);
                }
            },
            None => {},
        }
        proof {
            assert forall|k: int| 0 <= k < self@.tags.len() && k != i implies #[trigger] self@.tags[k].name@ != name@ by {
                assert(!(0 <= k < self@.tags.len() && k != id - 1 && self@.tags[k].name@ == name@));
            }
        }
        let ghost a = self@;
        let t = Tag { id, name };
        let out = t.duplicate();
        self.tags.set(i, t);
        proof {
            assert(self@ =~= a.with_tag_name(id as int, name));
            assert forall|k: int, j: int|
                0 <= k < self@.tags.len() && 0 <= j < self@.tags.len() && k != j
                    implies #[trigger] self@.tags[k].name@ != #[trigger] self@.tags[j].name@ by {
                if k == i {
                    assert(a.tags[j].name@ != name@);
                } else if j == i {
                    assert(a.tags[k].name@ != name@);
                }
            }
            lemma_items_frame(a, self@);
            lemma_links_frame(a, self@);
            lemma_requests_frame(a, self@);
        }
        Ok(out)
    }

    /// Attaches tag `tag_id` to entry `soft_id`.
    pub fn add_tag_to_software(&mut self, soft_id: i32, tag_id: i32) -> (r: Result<(), ApiError>)
        requires
            old(self).wf(),
        ensures
            final(self).wf(),
            !(old(self)@.has_software(soft_id as int) && old(self)@.has_tag(tag_id as int)) ==> r
                == Err::<(), ApiError>(ApiError::NotFound) && final(self)@ == old(self)@,
            old(self)@.has_software(soft_id as int) && old(self)@.has_tag(tag_id as int) && old(self)@.linked(soft_id as int, tag_id as int) ==> r == Err::<(), ApiError>(
                ApiError::Conflict,
            ) && final(self)@ == old(self)@,
            old(self)@.has_software(soft_id as int) && old(self)@.has_tag(tag_id as int) && !old(self)@.linked(soft_id as int, tag_id as int) ==> r == Ok::<(), ApiError>(()) && final(self)@ == old(self)@.with_link(soft_id as int, tag_id as int),
    {
        if soft_id < 1 || soft_id as usize > self.softwares.len() || tag_id < 1 || tag_id as usize
            > self.tags.len() {
            return Err(ApiError::NotFound);
        }
        if self.link_position(soft_id, tag_id).is_some() {
            return Err(ApiError::Conflict);
        }
        let ghost a = self@;
        let link = SoftwareTag { software_id: soft_id, tag_id };
        self.software_tags.push(link);
        proof {
            assert(self@ =~= a.with_link(soft_id as int, tag_id as int));
            assert forall|k: int, l: int|
                0 <= k < self@.software_tags.len() && 0 <= l < self@.software_tags.len() && k != l
                    implies #[trigger] self@.software_tags[k] != #[trigger] self@.software_tags[l] by {
                if k == a.software_tags.len() {
                    assert(!(a.software_tags[l].software_id == soft_id && a.software_tags[l].tag_id == tag_id));
                } else if l == a.software_tags.len() {
                    assert(!(a.software_tags[k].software_id == soft_id && a.software_tags[k].tag_id == tag_id));
                }
            }
            assert forall|k: int| 0 <= k < self@.software_tags.len() implies self@.link_row_ok(
                #[trigger] self@.software_tags[k]) by {
                if k < a.software_tags.len() {
                    assert(a.link_row_ok(a.software_tags[k]));
                }
            }
            lemma_items_frame(a, self@);
            lemma_requests_frame(a, self@);
        }
        Ok(())
    }

    /// Detaches tag `tag_id` from entry `soft_id`; returns how many links went.
    pub fn delete_tag_from_software(&mut self, soft_id: i32, tag_id: i32) -> (r: usize)
        requires
            old(self).wf(),
        ensures
            final(self).wf(),
            r == (if old(self)@.linked(soft_id as int, tag_id as int) { 1usize } else { 0usize }),
            final(self)@.is_unlinked_from(old(self)@, soft_id as int, tag_id as int),
    {
        let ghost a = self@;
        match self.link_position(soft_id, tag_id) {
            None => 0,
            Some(k) => {
                self.software_tags.remove(k);
                proof {
                    let b = self@;
                    assert(b.software_tags =~= a.software_tags.remove(k as int));
                    assert forall|j: int| 0 <= j < b.software_tags.len() implies #[trigger] b.software_tags[j]
                        == a.software_tags[if j < k { j } else { j + 1 }] by {}
                    assert forall|s: int, t: int| (s != soft_id || t != tag_id) implies (b.linked(s, t)
                        <==> a.linked(s, t)) by {
                        if a.linked(s, t) {
                            let j = choose|j: int|
                                0 <= j < a.software_tags.len() && #[trigger] a.software_tags[j].software_id == s
                                    && a.software_tags[j].tag_id == t;
                            assert(j != k);
                            let jj = if j < k { j } else { j - 1 };
                            assert(b.software_tags[jj].software_id == s);
                        }
                        if b.linked(s, t) {
                            let j = choose|j: int|
                                0 <= j < b.software_tags.len() && #[trigger] b.software_tags[j].software_id == s
                                    && b.software_tags[j].tag_id == t;
                            let jj = if j < k { j } else { j + 1 };
                            assert(a.software_tags[jj].software_id == s);
                        }
                    }
                    if b.linked(soft_id as int, tag_id as int) {
                        let j = choose|j: int|
                            0 <= j < b.software_tags.len() && #[trigger] b.software_tags[j].software_id == soft_id
                                && b.software_tags[j].tag_id == tag_id;
                        let jj = if j < k { j } else { j + 1 };
                        assert(a.software_tags[jj] == a.software_tags[k as int]);
                        assert(false);
                    }
                    assert forall|x: int, y: int|
                        0 <= x < b.software_tags.len() && 0 <= y < b.software_tags.len() && x != y
                            implies #[trigger] b.software_tags[x] != #[trigger] b.software_tags[y] by {
                        let xx = if x < k { x } else { x + 1 };
                        let yy = if y < k { y } else { y + 1 };
                        assert(a.software_tags[xx] != a.software_tags[yy]);
                    }
                    assert forall|j: int| 0 <= j < b.software_tags.len() implies b.link_row_ok(
                        #[trigger] b.software_tags[j]) by {
                        let jj = if j < k { j } else { j + 1 };
                        assert(a.link_row_ok(a.software_tags[jj]));
                    }
                    lemma_items_frame(a, b);
                    lemma_requests_frame(a, b);
                }
                1
            },
        }
    }
}


/// The request after entering status `to` at time `now`: entering
/// `Processed` stamps `processed_at`, entering `Completed` stamps
/// `completed_at`; other stamps are kept.
pub open spec fn stamped(r: Request, to: RequestStatus, now: u64) -> Request {
    Request {
        status: to,
        processed_at: if to == RequestStatus::Processed { Some(now) } else { r.processed_at },
        completed_at: if to == RequestStatus::Completed { Some(now) } else { r.completed_at },
        ..r
    }
}

/// A request after a patch of its connection fields and handling moderator.
pub open spec fn patched_request(
    r: Request,
    ssh_address: Option<String>,
    ssh_password: Option<String>,
    moderator_id: Option<i32>,
) -> Request {
    Request {
        ssh_address: if ssh_address is Some { ssh_address } else { r.ssh_address },
        ssh_password: if ssh_password is Some { ssh_password } else { r.ssh_password },
        moderator_id: if moderator_id is Some { moderator_id } else { r.moderator_id },
        ..r
    }
}

/// Request `r` is a draft of user `uid`: theirs and still in status `Created`.
pub open spec fn is_draft_of(r: Request, uid: int) -> bool {
    r.user_id == uid && r.status == RequestStatus::Created
}

/// Position of the most recent draft of `uid`, or -1: the one with the
/// greatest `created_at`, the later one in the table among equals.
pub open spec fn draft_pos(reqs: Seq<Request>, uid: int) -> int
    decreases reqs.len(),
{
    if reqs.len() == 0 {
        -1
    } else {
        let rest = draft_pos(reqs.drop_last(), uid);
        if is_draft_of(reqs.last(), uid) && (rest < 0 || reqs[rest].created_at
            <= reqs.last().created_at) {
            reqs.len() - 1
        } else {
            rest
        }
    }
}

/// Position of the line item `(rid, sid)`, or -1.
pub open spec fn item_pos(items: Seq<RequestSoftware>, rid: int, sid: int) -> int
    decreases items.len(),
{
    if items.len() == 0 {
        -1
    } else if items.last().request_id == rid && items.last().software_id == sid {
        items.len() - 1
    } else {
        item_pos(items.drop_last(), rid, sid)
    }
}

/// The software of the line items of `rid` that are not canceled, in item order.
pub open spec fn live_softwares(items: Seq<RequestSoftware>, softs: Seq<Software>, rid: int) -> Seq<
    Software,
>
    decreases items.len(),
{
    if items.len() == 0 {
        Seq::empty()
    } else {
        let rest = live_softwares(items.drop_last(), softs, rid);
        let it = items.last();
        if it.request_id == rid && it.status != SoftwareStatus::Canceled {
            rest.push(softs[it.software_id - 1])
        } else {
            rest
        }
    }
}

/// Request `r` passes `filter`, and belongs to `owner` when one is given.
pub open spec fn selected(filter: RequestFilter, owner: Option<i32>, r: Request) -> bool {
    &&& match filter.status {
        Some(s) => r.status == s,
        None => r.status != RequestStatus::Deleted,
    }
    &&& filter.create_date_start matches Some(t) ==> r.created_at >= t
    &&& filter.create_date_end matches Some(t) ==> r.created_at <= t
    &&& owner matches Some(u) ==> r.user_id == u
}

pub open spec fn selected_pred(filter: RequestFilter, owner: Option<i32>) -> spec_fn(Request) -> bool {
    |r: Request| selected(filter, owner, r)
}

pub(crate) proof fn lemma_draft_pos(reqs: Seq<Request>, uid: int)
    ensures
        -1 <= draft_pos(reqs, uid) < reqs.len(),
        draft_pos(reqs, uid) >= 0 ==> is_draft_of(reqs[draft_pos(reqs, uid)], uid),
        draft_pos(reqs, uid) >= 0 ==> forall|k: int|
            0 <= k < reqs.len() && is_draft_of(#[trigger] reqs[k], uid) ==> reqs[k].created_at
                <= reqs[draft_pos(reqs, uid)].created_at,
        draft_pos(reqs, uid) < 0 ==> forall|k: int|
            0 <= k < reqs.len() ==> !is_draft_of(#[trigger] reqs[k], uid),
    decreases reqs.len(),
{
    if reqs.len() > 0 {
        let rest = reqs.drop_last();
        lemma_draft_pos(rest, uid);
        let p = draft_pos(reqs, uid);
        assert forall|k: int| 0 <= k < rest.len() implies #[trigger] rest[k] == reqs[k] by {}
        if p >= 0 {
            assert forall|k: int|
                0 <= k < reqs.len() && is_draft_of(#[trigger] reqs[k], uid) implies reqs[k].created_at
                    <= reqs[p].created_at by {
                if k < reqs.len() - 1 {
                    assert(rest[k] == reqs[k]);
                }
            }
        } else {
            assert forall|k: int| 0 <= k < reqs.len() implies !is_draft_of(#[trigger] reqs[k], uid) by {
                if k < reqs.len() - 1 {
                    assert(rest[k] == reqs[k]);
                }
            }
        }
    }
}

pub(crate) proof fn lemma_item_pos(items: Seq<RequestSoftware>, rid: int, sid: int)
    ensures
        -1 <= item_pos(items, rid, sid) < items.len(),
        item_pos(items, rid, sid) >= 0 ==> items[item_pos(items, rid, sid)].request_id == rid
            && items[item_pos(items, rid, sid)].software_id == sid,
        item_pos(items, rid, sid) < 0 ==> forall|k: int|
            0 <= k < items.len() ==> !(#[trigger] items[k].request_id == rid && items[k].software_id
                == sid),
    decreases items.len(),
{
    if items.len() > 0 {
        lemma_item_pos(items.drop_last(), rid, sid);
        if item_pos(items, rid, sid) < 0 {
            assert forall|k: int| 0 <= k < items.len() implies !(#[trigger] items[k].request_id
                == rid && items[k].software_id == sid) by {
                if k < items.len() - 1 {
                    assert(items.drop_last()[k] == items[k]);
                }
            }
        }
    }
}

/// Entering a status through the transition table keeps the stamps in order.
pub(crate) proof fn lemma_stamped(r: Request, to: RequestStatus, now: u64)
    requires
        stamps_ok(r),
        is_transition(r.status, to),
    ensures
        stamps_ok(stamped(r, to, now)),
{
}

impl DbView {
    /// The store after adding a request at time `now`.
    pub open spec fn with_request(self, ins: InsertRequest, now: u64) -> DbView {
        DbView {
            requests: self.requests.push(
                Request {
                    id: (self.requests.len() + 1) as i32,
                    user_id: ins.user_id,
                    moderator_id: None,
                    status: RequestStatus::Created,
                    ssh_address: ins.ssh_address,
                    ssh_password: ins.ssh_password,
                    created_at: now,
                    processed_at: None,
                    completed_at: None,
                },
            ),
            ..self
        }
    }

    /// The store with request `id` replaced by `r`.
    pub open spec fn with_request_row(self, id: int, r: Request) -> DbView {
        DbView { requests: self.requests.update(id - 1, r), ..self }
    }

    /// The store after request `id` enters status `to` at time `now`.
    pub open spec fn with_status(self, id: int, to: RequestStatus, now: u64) -> DbView {
        self.with_request_row(id, stamped(self.request(id), to, now))
    }

    /// The id of the draft of user `uid`: their request in status `Created`
    /// with the greatest creation time, the later one among equals.
    pub open spec fn draft_of(self, uid: int) -> Option<int> {
        if draft_pos(self.requests, uid) >= 0 {
            Some(draft_pos(self.requests, uid) + 1)
        } else {
            None
        }
    }

    /// The line item `(rid, sid)` exists.
    pub open spec fn has_item(self, rid: int, sid: int) -> bool {
        item_pos(self.line_items, rid, sid) >= 0
    }

    /// The line item `(rid, sid)`.
    pub open spec fn item(self, rid: int, sid: int) -> RequestSoftware {
        self.line_items[item_pos(self.line_items, rid, sid)]
    }

    /// The store after putting software `sid` into request `rid` at time
    /// `now`: a new line item in status `New`, or the existing one reset to
    /// `New` with the given intent.
    pub open spec fn attached(self, rid: int, sid: int, to_install: bool, now: u64) -> DbView {
        let p = item_pos(self.line_items, rid, sid);
        if p >= 0 {
            DbView {
                line_items: self.line_items.update(
                    p,
                    RequestSoftware {
                        to_install,
                        status: SoftwareStatus::New,
                        updated_at: now,
                        ..self.line_items[p]
                    },
                ),
                ..self
            }
        } else {
            DbView {
                line_items: self.line_items.push(
                    RequestSoftware {
                        software_id: sid as i32,
                        request_id: rid as i32,
                        to_install,
                        status: SoftwareStatus::New,
                        created_at: now,
                        updated_at: now,
                    },
                ),
                ..self
            }
        }
    }

    /// The store after line item `(rid, sid)` takes status `st` at time `now`.
    pub open spec fn with_item_status(self, rid: int, sid: int, st: SoftwareStatus, now: u64) -> DbView {
        let p = item_pos(self.line_items, rid, sid);
        DbView {
            line_items: self.line_items.update(
                p,
                RequestSoftware { status: st, updated_at: now, ..self.line_items[p] },
            ),
            ..self
        }
    }

    /// What "add software `sid` to my current request" does for user `uid`
    /// at time `now`: the result and the store after it.
    pub open spec fn add_to_draft(self, sid: int, uid: int, now: u64) -> (DbView, Result<i32, ApiError>) {
        if !self.has_user(uid) || !self.has_software(sid) {
            (self, Err(ApiError::NotFound))
        } else {
            match self.draft_of(uid) {
                Some(rid) => (self.attached(rid, sid, true, now), Ok(rid as i32)),
                None => if self.requests.len() >= MAX_ROWS {
                    (self, Err(ApiError::Internal))
                } else {
                    let rid = self.requests.len() as int + 1;
                    (
                        self.with_request(
                            InsertRequest { user_id: uid as i32, ssh_address: None, ssh_password: None },
                            now,
                        ).attached(rid, sid, true, now),
                        Ok(rid as i32),
                    )
                },
            }
        }
    }

    /// The software of the live line items of request `rid`.
    pub open spec fn softwares_of(self, rid: int) -> Seq<Software> {
        live_softwares(self.line_items, self.softwares, rid)
    }

    /// `x` is request `r` joined with its owner's name and its live software.
    pub open spec fn joined(self, x: RequestWithSoftwares, r: Request) -> bool {
        &&& x.request == r
        &&& x.username@ == self.user(r.user_id as int).username@
        &&& x.softwares@ == self.softwares_of(r.id as int)
    }

    /// The requests that a listing with `filter` and `owner` returns.
    pub open spec fn selection(self, filter: RequestFilter, owner: Option<i32>) -> Seq<Request> {
        self.requests.filter(selected_pred(filter, owner))
    }
}

/// A change of one request row that keeps its id and owner and keeps the
/// stamps in order keeps the store well formed.
pub(crate) proof fn lemma_request_row(a: DbView, id: int, r: Request)
    requires
        a.wf(),
        a.has_request(id),
        r.id == id,
        r.user_id == a.request(id).user_id,
        stamps_ok(r),
    ensures
        a.with_request_row(id, r).wf(),
{
    let b = a.with_request_row(id, r);
    lemma_items_frame(a, b);
    lemma_links_frame(a, b);
    assert forall|i: int| 0 <= i < b.requests.len() implies b.request_row_ok(#[trigger] b.requests[i]) by {
        assert(a.request_row_ok(a.requests[i]));
    }
}

pub(crate) proof fn lemma_request_push(a: DbView, ins: InsertRequest, now: u64)
    requires
        a.wf(),
        a.has_user(ins.user_id as int),
        a.requests.len() < MAX_ROWS,
    ensures
        a.with_request(ins, now).wf(),
{
    let b = a.with_request(ins, now);
    lemma_items_frame(a, b);
    lemma_links_frame(a, b);
    assert forall|i: int| 0 <= i < b.requests.len() implies b.request_row_ok(#[trigger] b.requests[i]) by {
        if i < a.requests.len() {
            assert(a.request_row_ok(a.requests[i]));
        }
    }
}

pub(crate) proof fn lemma_attached(a: DbView, rid: int, sid: int, to_install: bool, now: u64)
    requires
        a.wf(),
        a.has_request(rid),
        a.has_software(sid),
    ensures
        a.attached(rid, sid, to_install, now).wf(),
        a.attached(rid, sid, to_install, now).has_item(rid, sid),
        a.attached(rid, sid, to_install, now).item(rid, sid).status == SoftwareStatus::New,
        a.attached(rid, sid, to_install, now).item(rid, sid).to_install == to_install,
        a.attached(rid, sid, to_install, now).requests == a.requests,
{
    let b = a.attached(rid, sid, to_install, now);
    let p = item_pos(a.line_items, rid, sid);
    lemma_item_pos(a.line_items, rid, sid);
    lemma_links_frame(a, b);
    lemma_requests_frame(a, b);
    if p >= 0 {
        assert forall|k: int| 0 <= k < b.line_items.len() implies b.item_row_ok(#[trigger] b.line_items[k]) by {
            assert(a.item_row_ok(a.line_items[k]));
        }
        assert forall|k: int, l: int|
            0 <= k < b.line_items.len() && 0 <= l < b.line_items.len() && k != l implies (
            #[trigger] b.line_items[k].request_id != #[trigger] b.line_items[l].request_id
                || b.line_items[k].software_id != b.line_items[l].software_id) by {
            assert(a.line_items[k].request_id != a.line_items[l].request_id
                || a.line_items[k].software_id != a.line_items[l].software_id);
        }
        lemma_item_pos(b.line_items, rid, sid);
        assert(item_pos(b.line_items, rid, sid) == p) by {
            let q = item_pos(b.line_items, rid, sid);
            assert(b.line_items[p].request_id == rid && b.line_items[p].software_id == sid);
            if q >= 0 && q != p {
                assert(b.line_items[q] == a.line_items[q]);
                assert(a.line_items[q].request_id != a.line_items[p].request_id
                    || a.line_items[q].software_id != a.line_items[p].software_id);
            }
        }
    } else {
        assert forall|k: int| 0 <= k < b.line_items.len() implies b.item_row_ok(#[trigger] b.line_items[k]) by {
            if k < a.line_items.len() {
                assert(a.item_row_ok(a.line_items[k]));
            }
        }
        assert forall|k: int, l: int|
            0 <= k < b.line_items.len() && 0 <= l < b.line_items.len() && k != l implies (
            #[trigger] b.line_items[k].request_id != #[trigger] b.line_items[l].request_id
                || b.line_items[k].software_id != b.line_items[l].software_id) by {
            if k < a.line_items.len() && l < a.line_items.len() {
                assert(a.line_items[k].request_id != a.line_items[l].request_id
                    || a.line_items[k].software_id != a.line_items[l].software_id);
            }
        }
        assert(b.line_items.drop_last() == a.line_items);
    }
}

pub(crate) proof fn lemma_item_status(a: DbView, rid: int, sid: int, st: SoftwareStatus, now: u64)
    requires
        a.wf(),
        a.has_item(rid, sid),
    ensures
        a.with_item_status(rid, sid, st, now).wf(),
{
    let b = a.with_item_status(rid, sid, st, now);
    lemma_item_pos(a.line_items, rid, sid);
    lemma_links_frame(a, b);
    lemma_requests_frame(a, b);
    assert forall|k: int| 0 <= k < b.line_items.len() implies b.item_row_ok(#[trigger] b.line_items[k]) by {
        assert(a.item_row_ok(a.line_items[k]));
    }
    assert forall|k: int, l: int|
        0 <= k < b.line_items.len() && 0 <= l < b.line_items.len() && k != l implies (
        #[trigger] b.line_items[k].request_id != #[trigger] b.line_items[l].request_id
            || b.line_items[k].software_id != b.line_items[l].software_id) by {
        assert(a.line_items[k].request_id != a.line_items[l].request_id
            || a.line_items[k].software_id != a.line_items[l].software_id);
    }
}


impl Database {
    /// Adds a request of `ins.user_id` in status `Created` at time `now`.
    pub fn new_request(&mut self, ins: InsertRequest, now: u64) -> (r: Result<i32, ApiError>)
        requires
            old(self).wf(),
        ensures
            final(self).wf(),
            !old(self)@.has_user(ins.user_id as int) ==> r == Err::<i32, ApiError>(ApiError::NotFound)
                && final(self)@ == old(self)@,
            old(self)@.has_user(ins.user_id as int) && old(self)@.requests.len() >= MAX_ROWS ==> r
                == Err::<i32, ApiError>(ApiError::Internal) && final(self)@ == old(self)@,
            old(self)@.has_user(ins.user_id as int) && old(self)@.requests.len() < MAX_ROWS ==> r
                == Ok::<i32, ApiError>((old(self)@.requests.len() + 1) as i32) && final(self)@ == old(self)@.with_request(ins, now),
    {
        if ins.user_id < 1 || ins.user_id as usize > self.users.len() {
            return Err(ApiError::NotFound);
        }
        if self.requests.len() >= MAX_ROWS {
            return Err(ApiError::Internal);
        }
        let ghost a = self@;
        let ghost g = ins;
        let id = (self.requests.len() + 1) as i32;
        self.requests.push(
            Request {
                id,
                user_id: ins.user_id,
                moderator_id: None,
                status: RequestStatus::Created,
                ssh_address: ins.ssh_address,
                ssh_password: ins.ssh_password,
                created_at: now,
                processed_at: None,
                completed_at: None,
            },
        );
        proof {
            lemma_request_push(a, g, now);
        }
        assert(self@ =~= a.with_request(g, now));
        Ok(id)
    }

    /// Request `id` as stored.
    pub fn get_request_row(&self, id: i32) -> (r: Option<Request>)
        requires
            self.wf(),
        ensures
            r is Some <==> self@.has_request(id as int),
            r matches Some(q) ==> q == self@.request(id as int),
    {
        if id < 1 || id as usize > self.requests.len() {
            return None;
        }
        Some(self.requests[(id - 1) as usize].duplicate())
    }

    /// The software of the live (not canceled) line items of request `rid`.
    pub fn get_softwares_by_request(&self, rid: i32) -> (r: Vec<Software>)
        requires
            self.wf(),
        ensures
            r@ == self@.softwares_of(rid as int),
    {
        let mut r: Vec<Software> = Vec::new();
        let mut k: usize = 0;
        while k < self.line_items.len()
            invariant
                self.wf(),
                k <= self@.line_items.len(),
                r@ == live_softwares(self@.line_items.take(k as int), self@.softwares, rid as int),
            decreases self@.line_items.len() - k,
        {
            let it = self.line_items[k];
            assert(self@.line_items.take(k + 1).drop_last() =~= self@.line_items.take(k as int));
            if it.request_id == rid && !matches!(it.status, SoftwareStatus::Canceled) {
                assert(self@.item_row_ok(self@.line_items[k as int]));
                r.push(self.softwares[(it.software_id - 1) as usize].duplicate());
            }
            k = k + 1;
        }
        assert(self@.line_items.take(k as int) =~= self@.line_items);
        r
    }

    /// The line items of request `rid`, canceled ones included.
    pub fn get_line_items(&self, rid: i32) -> (r: Vec<RequestSoftware>)
        requires
            self.wf(),
        ensures
            r@ == self@.line_items.filter(|it: RequestSoftware| it.request_id == rid),
    {
        let ghost pred = |it: RequestSoftware| it.request_id == rid;
        let mut r: Vec<RequestSoftware> = Vec::new();
        let mut k: usize = 0;
        while k < self.line_items.len()
            invariant
                k <= self@.line_items.len(),
                pred == (|it: RequestSoftware| it.request_id == rid),
                r@ == self@.line_items.take(k as int).filter(pred),
            decreases self@.line_items.len() - k,
        {
            let it = self.line_items[k];
            proof {
                self@.line_items.lemma_take_succ_push(k as int);
                self@.line_items.take(k as int).lemma_filter_push(self@.line_items[k as int], pred);
            }
            if it.request_id == rid {
                r.push(it);
            }
            k = k + 1;
        }
        assert(self@.line_items.take(k as int) =~= self@.line_items);
        r
    }

    /// `req` joined with its owner's name and its live software.
    fn join(&self, req: Request) -> (r: RequestWithSoftwares)
        requires
            self.wf(),
            self@.request_row_ok(req),
        ensures
            self@.joined(r, req),
    {
        let username = self.users[(req.user_id - 1) as usize].username.clone();
        let softwares = self.get_softwares_by_request(req.id);
        RequestWithSoftwares { softwares, request: req, username }
    }

    /// Request `id` with its owner's name and the software of its live line items.
    pub fn get_request(&self, id: i32) -> (r: Option<RequestWithSoftwares>)
        requires
            self.wf(),
        ensures
            r is Some <==> self@.has_request(id as int),
            r matches Some(x) ==> self@.joined(x, self@.request(id as int)),
    {
        if id < 1 || id as usize > self.requests.len() {
            return None;
        }
        let req = self.requests[(id - 1) as usize].duplicate();
        assert(self@.request_row_ok(self@.requests[id - 1]));
        Some(self.join(req))
    }

    /// The requests that pass `filter` (all but deleted ones when it names no
    /// status), only those of `owner` when one is given, each joined.
    pub fn get_all_requests(&self, filter: RequestFilter, owner: Option<i32>) -> (r: Vec<
        RequestWithSoftwares,
    >)
        requires
            self.wf(),
        ensures
            r@.len() == self@.selection(filter, owner).len(),
            forall|i: int|
                0 <= i < r@.len() ==> self@.joined(#[trigger] r@[i], self@.selection(filter, owner)[i]),
    {
        let ghost pred = selected_pred(filter, owner);
        let mut r: Vec<RequestWithSoftwares> = Vec::new();
        let mut i: usize = 0;
        while i < self.requests.len()
            invariant
                self.wf(),
                i <= self@.requests.len(),
                pred == selected_pred(filter, owner),
                r@.len() == self@.requests.take(i as int).filter(pred).len(),
                forall|j: int|
                    0 <= j < r@.len() ==> self@.joined(
                        #[trigger] r@[j],
                        self@.requests.take(i as int).filter(pred)[j],
                    ),
            decreases self@.requests.len() - i,
        {
            let req = &self.requests[i];
            let keep = match filter.status {
                Some(s) => req.status == s,
                None => !matches!(req.status, RequestStatus::Deleted),
            } && match filter.create_date_start {
                Some(t) => req.created_at >= t,
                None => true,
            } && match filter.create_date_end {
                Some(t) => req.created_at <= t,
                None => true,
            } && match owner {
                Some(u) => req.user_id == u,
                None => true,
            };
            proof {
                self@.requests.lemma_take_succ_push(i as int);
                self@.requests.take(i as int).lemma_filter_push(self@.requests[i as int], pred);
            }
            if keep {
                assert(self@.request_row_ok(self@.requests[i as int]));
                let x = self.join(req.duplicate());
                r.push(x);
            }
            i = i + 1;
        }
        assert(self@.requests.take(i as int) =~= self@.requests);
        r
    }

    /// Patches the connection fields and the handling moderator of request `id`.
    pub fn update_request_by_id(
        &mut self,
        id: i32,
        ssh_address: Option<String>,
        ssh_password: Option<String>,
        moderator_id: Option<i32>,
    ) -> (r: Result<Request, ApiError>)
        requires
            old(self).wf(),
        ensures
            final(self).wf(),
            !old(self)@.has_request(id as int) ==> r == Err::<Request, ApiError>(ApiError::NotFound)
                && final(self)@ == old(self)@,
            old(self)@.has_request(id as int) ==> r == Ok::<Request, ApiError>(
                patched_request(old(self)@.request(id as int), ssh_address, ssh_password, moderator_id),
            ) && final(self)@ == old(self)@.with_request_row(
                id as int,
                patched_request(old(self)@.request(id as int), ssh_address, ssh_password, moderator_id),
            ),
    {
        if id < 1 || id as usize > self.requests.len() {
            return Err(ApiError::NotFound);
        }
        let ghost a = self@;
        let i = (id - 1) as usize;
        let mut q = self.requests[i].duplicate();
        if ssh_address.is_some() {
            q.ssh_address = ssh_address;
        }
        if ssh_password.is_some() {
            q.ssh_password = ssh_password;
        }
        if moderator_id.is_some() {
            q.moderator_id = moderator_id;
        }
        let out = q.duplicate();
        self.requests.set(i, q);
        proof {
            assert(a.request_row_ok(a.requests[i as int]));
            lemma_request_row(a, id as int, out);
        }
        assert(self@ =~= a.with_request_row(id as int, out));
        Ok(out)
    }

    /// Records `mod_id` as the moderator handling request `id`.
    pub fn apply_mod(&mut self, id: i32, mod_id: i32) -> (r: Result<Request, ApiError>)
        requires
            old(self).wf(),
        ensures
            final(self).wf(),
            !old(self)@.has_request(id as int) ==> r == Err::<Request, ApiError>(ApiError::NotFound)
                && final(self)@ == old(self)@,
            old(self)@.has_request(id as int) ==> r == Ok::<Request, ApiError>(
                Request { moderator_id: Some(mod_id), ..old(self)@.request(id as int) },
            ) && final(self)@ == old(self)@.with_request_row(
                id as int,
                Request { moderator_id: Some(mod_id), ..old(self)@.request(id as int) },
            ),
    {
        self.update_request_by_id(id, None, None, Some(mod_id))
    }

    /// Request `id` enters status `to` at time `now`, which stamps
    /// `processed_at` or `completed_at` on entry into `Processed` or `Completed`.
    pub fn set_request_status(&mut self, id: i32, to: RequestStatus, now: u64) -> (r: Request)
        requires
            old(self).wf(),
            old(self)@.has_request(id as int),
            is_transition(old(self)@.request(id as int).status, to),
        ensures
            final(self).wf(),
            r == stamped(old(self)@.request(id as int), to, now),
            final(self)@ == old(self)@.with_status(id as int, to, now),
    {
        let ghost a = self@;
        let i = (id - 1) as usize;
        let mut q = self.requests[i].duplicate();
        q.status = to;
        match to {
            RequestStatus::Processed => {
                q.processed_at = Some(now);
            },
            RequestStatus::Completed => {
                q.completed_at = Some(now);
            },
            _ => {},
        }
        let out = q.duplicate();
        self.requests.set(i, q);
        proof {
            assert(a.request_row_ok(a.requests[i as int]));
            lemma_stamped(a.request(id as int), to, now);
            lemma_request_row(a, id as int, out);
        }
        assert(self@ =~= a.with_status(id as int, to, now));
        out
    }

    /// Position of the most recent draft of `uid`.
    fn draft_position(&self, uid: i32) -> (r: Option<usize>)
        requires
            self.wf(),
        ensures
            r is None <==> draft_pos(self@.requests, uid as int) < 0,
            r matches Some(p) ==> p == draft_pos(self@.requests, uid as int),
    {
        let mut best: Option<usize> = None;
        let mut k: usize = 0;
        while k < self.requests.len()
            invariant
                k <= self@.requests.len(),
                best is None <==> draft_pos(self@.requests.take(k as int), uid as int) < 0,
                best matches Some(p) ==> p == draft_pos(self@.requests.take(k as int), uid as int),
            decreases self@.requests.len() - k,
        {
            let q = &self.requests[k];
            let ghost t = self@.requests.take(k + 1);
            assert(t.drop_last() =~= self@.requests.take(k as int));
            assert(t.last() == self@.requests[k as int]);
            proof {
                lemma_draft_pos(self@.requests.take(k as int), uid as int);
            }
            if q.user_id == uid && matches!(q.status, RequestStatus::Created) {
                match best {
                    None => {
                        best = Some(k);
                    },
                    Some(p) => {
                        assert(self@.requests.take(k as int)[p as int] == self@.requests[p as int]);
                        assert(t[p as int] == self@.requests[p as int]);
                        if self.requests[p].created_at <= q.created_at {
                            best = Some(k);
                        }
                    },
                }
            }
            k = k + 1;
        }
        assert(self@.requests.take(k as int) =~= self@.requests);
        best
    }

    /// The id of the draft of user `uid`: their request in status `Created`
    /// with the greatest creation time.
    pub fn find_draft_request(&self, uid: i32) -> (r: Option<i32>)
        requires
            self.wf(),
        ensures
            r matches Some(id) ==> self@.draft_of(uid as int) == Some(id as int),
            r is None ==> self@.draft_of(uid as int) is None,
    {
        proof {
            lemma_draft_pos(self@.requests, uid as int);
        }
        match self.draft_position(uid) {
            Some(p) => Some((p + 1) as i32),
            None => None,
        }
    }

    /// Position of the line item `(rid, sid)`.
    fn item_position(&self, rid: i32, sid: i32) -> (r: Option<usize>)
        requires
            self.wf(),
        ensures
            r is None <==> item_pos(self@.line_items, rid as int, sid as int) < 0,
            r matches Some(p) ==> p == item_pos(self@.line_items, rid as int, sid as int),
    {
        let mut k: usize = self.line_items.len();
        assert(self@.line_items.take(k as int) =~= self@.line_items);
        while k > 0
            invariant
                k <= self@.line_items.len(),
                item_pos(self@.line_items, rid as int, sid as int) == item_pos(
                    self@.line_items.take(k as int),
                    rid as int,
                    sid as int,
                ),
            decreases k,
        {
            let it = self.line_items[k - 1];
            assert(self@.line_items.take(k as int).drop_last() =~= self@.line_items.take(k - 1));
            if it.request_id == rid && it.software_id == sid {
                return Some(k - 1);
            }
            k = k - 1;
        }
        None
    }

    /// Puts software `sid` into request `rid` at time `now`; an existing line
    /// item is reset to `New`.
    fn attach(&mut self, rid: i32, sid: i32, to_install: bool, now: u64)
        requires
            old(self).wf(),
            old(self)@.has_request(rid as int),
            old(self)@.has_software(sid as int),
        ensures
            final(self).wf(),
            final(self)@ == old(self)@.attached(rid as int, sid as int, to_install, now),
    {
        let ghost a = self@;
        proof {
            lemma_item_pos(a.line_items, rid as int, sid as int);
            lemma_attached(a, rid as int, sid as int, to_install, now);
        }
        match self.item_position(rid, sid) {
            Some(p) => {
                let mut it = self.line_items[p];
                it.to_install = to_install;
                it.status = SoftwareStatus::New;
                it.updated_at = now;
                self.line_items.set(p, it);
            },
            None => {
                self.line_items.push(
                    RequestSoftware {
                        software_id: sid,
                        request_id: rid,
                        to_install,
                        status: SoftwareStatus::New,
                        created_at: now,
                        updated_at: now,
                    },
                );
            },
        }
        assert(self@ =~= a.attached(rid as int, sid as int, to_install, now));
    }

    /// Puts software `sid` into request `rid` at time `now` (`to_install`
    /// false asks for its removal); an existing line item is reset to `New`.
    pub fn add_software_to_request(&mut self, rid: i32, sid: i32, to_install: bool, now: u64) -> (r:
        Result<(), ApiError>)
        requires
            old(self).wf(),
        ensures
            final(self).wf(),
            !(old(self)@.has_request(rid as int) && old(self)@.has_software(sid as int)) ==> r
                == Err::<(), ApiError>(ApiError::NotFound) && final(self)@ == old(self)@,
            old(self)@.has_request(rid as int) && old(self)@.has_software(sid as int) ==> r == Ok::<
                (),
                ApiError,
            >(()) && final(self)@ == old(self)@.attached(rid as int, sid as int, to_install, now),
    {
        if rid < 1 || rid as usize > self.requests.len() || sid < 1 || sid as usize
            > self.softwares.len() {
            return Err(ApiError::NotFound);
        }
        self.attach(rid, sid, to_install, now);
        Ok(())
    }

    /// The draft of user `uid`, created at time `now` when they have none.
    pub fn find_or_create_draft_request(&mut self, uid: i32, now: u64) -> (r: Result<i32, ApiError>)
        requires
            old(self).wf(),
        ensures
            final(self).wf(),
            !old(self)@.has_user(uid as int) ==> r == Err::<i32, ApiError>(ApiError::NotFound)
                && final(self)@ == old(self)@,
            old(self)@.has_user(uid as int) && old(self)@.draft_of(uid as int) is Some ==> r
                == Ok::<i32, ApiError>(old(self)@.draft_of(uid as int)->0 as i32) && final(self)@ == old(self)@,
            old(self)@.has_user(uid as int) && old(self)@.draft_of(uid as int) is None && old(self)@.requests.len() >= MAX_ROWS ==> r == Err::<i32, ApiError>(ApiError::Internal) && final(self)@ == old(self)@,
            old(self)@.has_user(uid as int) && old(self)@.draft_of(uid as int) is None && old(self)@.requests.len() < MAX_ROWS ==> r == Ok::<i32, ApiError>((old(self)@.requests.len() + 1) as i32) && final(self)@ == old(self)@.with_request(
                InsertRequest { user_id: uid, ssh_address: None, ssh_password: None },
                now,
            ),
    {
        if uid < 1 || uid as usize > self.users.len() {
            return Err(ApiError::NotFound);
        }
        match self.find_draft_request(uid) {
            Some(id) => Ok(id),
            None => self.new_request(InsertRequest { user_id: uid, ssh_address: None, ssh_password: None }, now),
        }
    }

    /// "Add software `sid` to my current request" for user `uid` at time
    /// `now`: the software goes into the user's draft, which is created first
    /// when they have none. Returns the draft's id.
    pub fn add_software_to_last_request(&mut self, sid: i32, uid: i32, now: u64) -> (r: Result<
        i32,
        ApiError,
    >)
        requires
            old(self).wf(),
        ensures
            final(self).wf(),
            (final(self)@, r) == old(self)@.add_to_draft(sid as int, uid as int, now),
    {
        if uid < 1 || uid as usize > self.users.len() || sid < 1 || sid as usize > self.softwares.len() {
            return Err(ApiError::NotFound);
        }
        let rid = self.find_or_create_draft_request(uid, now);
        match rid {
            Ok(rid) => {
                proof {
                    lemma_draft_pos(old(self)@.requests, uid as int);
                }
                self.attach(rid, sid, true, now);
                Ok(rid)
            },
            Err(e) => Err(e),
        }
    }

    /// Line item `(rid, sid)` is canceled at time `now`; it stays on record.
    pub fn delete_software_from_request(&mut self, rid: i32, sid: i32, now: u64) -> (r: Result<
        (),
        ApiError,
    >)
        requires
            old(self).wf(),
        ensures
            final(self).wf(),
            !old(self)@.has_item(rid as int, sid as int) ==> r == Err::<(), ApiError>(
                ApiError::NotFound,
            ) && final(self)@ == old(self)@,
            old(self)@.has_item(rid as int, sid as int) ==> r == Ok::<(), ApiError>(()) && final(self)@
                == old(self)@.with_item_status(rid as int, sid as int, SoftwareStatus::Canceled, now),
    {
        self.set_line_item_status(rid, sid, SoftwareStatus::Canceled, now)
    }

    /// Line item `(rid, sid)` takes status `st` at time `now`.
    pub fn set_line_item_status(&mut self, rid: i32, sid: i32, st: SoftwareStatus, now: u64) -> (r:
        Result<(), ApiError>)
        requires
            old(self).wf(),
        ensures
            final(self).wf(),
            !old(self)@.has_item(rid as int, sid as int) ==> r == Err::<(), ApiError>(
                ApiError::NotFound,
            ) && final(self)@ == old(self)@,
            old(self)@.has_item(rid as int, sid as int) ==> r == Ok::<(), ApiError>(()) && final(self)@
                == old(self)@.with_item_status(rid as int, sid as int, st, now),
    {
        let ghost a = self@;
        proof {
            lemma_item_pos(a.line_items, rid as int, sid as int);
        }
        match self.item_position(rid, sid) {
            None => Err(ApiError::NotFound),
            Some(p) => {
                proof {
                    lemma_item_status(a, rid as int, sid as int, st, now);
                }
                let mut it = self.line_items[p];
                it.status = st;
                it.updated_at = now;
                self.line_items.set(p, it);
                assert(self@ =~= a.with_item_status(rid as int, sid as int, st, now));
                Ok(())
            },
        }
    }
}


impl Database {
    /// Registers `username` with `password`, stored as a bcrypt hash. A taken
    /// name gives `Conflict`; a failure of the hashing gives `Internal`.
    pub fn register(&mut self, username: String, password: &str) -> (r: Result<i32, ApiError>)
        requires
            old(self).wf(),
        ensures
            final(self).wf(),
            old(self)@.username_taken(username@) ==> r == Err::<i32, ApiError>(ApiError::Conflict)
                && final(self)@ == old(self)@,
            !old(self)@.username_taken(username@) && old(self)@.users.len() >= MAX_ROWS ==> r
                == Err::<i32, ApiError>(ApiError::Internal) && final(self)@ == old(self)@,
            !old(self)@.username_taken(username@) && old(self)@.users.len() < MAX_ROWS ==> r
                == Ok::<i32, ApiError>((old(self)@.users.len() + 1) as i32) && exists|h: String|
                final(self)@ == #[trigger] old(self)@.with_user(username, h) && bcrypt_accepts(
                    password@,
                    h@,
                ) && printable_ascii(h@),
    {
        if self.user_position(username.as_str()).is_some() {
            return Err(ApiError::Conflict);
        }
        match hash_password(password) {
            Ok(h) => {
                let ghost hh = h;
                let r = self.register_hashed(username, h);
                assert(old(self)@.users.len() < MAX_ROWS ==> self@ == old(self)@.with_user(
                    username,
                    hh,
                ));
                r
            },
            Err(_) => Err(ApiError::Internal),
        }
    }

    /// The id of the user named `username` when `password` matches their
    /// stored hash; `Forbidden` otherwise, without telling which part failed.
    pub fn login(&self, username: &str, password: &str) -> (r: Result<i32, ApiError>)
        requires
            self.wf(),
        ensures
            match self@.user_index(username@) {
                Some(i) => r == self.login_verdict(
                    username,
                    printable_ascii(self@.users[i].password@) && bcrypt_accepts(
                        password@,
                        self@.users[i].password@,
                    ),
                ),
                None => r == Err::<i32, ApiError>(ApiError::Forbidden),
            },
    {
        match self.user_position(username) {
            None => Err(ApiError::Forbidden),
            Some(i) => {
                if !is_printable_ascii(self.users[i].password.as_str()) {
                    // never a bcrypt hash: refused without consulting bcrypt
                    return self.login_with_verdict(username, false);
                }
                let accepted = verify_password(password, self.users[i].password.as_str());
                self.login_with_verdict(username, accepted)
            },
        }
    }

    /// The outcome of a login for `username` once the password check has
    /// given `accepted`.
    pub open spec fn login_verdict(&self, username: &str, accepted: bool) -> Result<i32, ApiError> {
        match self@.user_index(username@) {
            Some(i) => if accepted {
                Ok((i + 1) as i32)
            } else {
                Err(ApiError::Forbidden)
            },
            None => Err(ApiError::Forbidden),
        }
    }

    /// The outcome of a login for `username` once the password check has
    /// given `accepted`: the user's id when they exist and it passed.
    pub fn login_with_verdict(&self, username: &str, accepted: bool) -> (r: Result<i32, ApiError>)
        requires
            self.wf(),
        ensures
            r == self.login_verdict(username, accepted),
    {
        match self.user_position(username) {
            Some(i) => {
                if accepted {
                    Ok((i + 1) as i32)
                } else {
                    Err(ApiError::Forbidden)
                }
            },
            None => Err(ApiError::Forbidden),
        }
    }

    /// Grants the moderator role to user `user_id`.
    pub fn promote_moderator(&mut self, user_id: i32) -> (r: Result<(), ApiError>)
        requires
            old(self).wf(),
        ensures
            final(self).wf(),
            !old(self)@.has_user(user_id as int) ==> r == Err::<(), ApiError>(ApiError::NotFound)
                && final(self)@ == old(self)@,
            old(self)@.has_user(user_id as int) ==> r == Ok::<(), ApiError>(()) && final(self)@
                == (DbView {
                users: old(self)@.users.update(
                    user_id - 1,
                    User { moderator: true, ..old(self)@.user(user_id as int) },
                ),
                ..old(self)@
            }),
    {
        if user_id < 1 || user_id as usize > self.users.len() {
            return Err(ApiError::NotFound);
        }
        let ghost a = self@;
        let i = (user_id - 1) as usize;
        let mut u = self.users[i].duplicate();
        u.moderator = true;
        self.users.set(i, u);
        proof {
            assert forall|x: int, y: int|
                0 <= x < self@.users.len() && 0 <= y < self@.users.len() && x != y
                    implies #[trigger] self@.users[x].username@ != #[trigger] self@.users[y].username@ by {
                assert(a.users[x].username@ != a.users[y].username@);
            }
            lemma_items_frame(a, self@);
            lemma_links_frame(a, self@);
            lemma_requests_frame(a, self@);
        }
        Ok(())
    }
}

} // verus!

verus! {

/// Executable form of `stamps_ok`.
fn stamps_ok_exec(r: &Request) -> (b: bool)
    ensures
        b == stamps_ok(*r),
{
    let by_status = match r.status {
        RequestStatus::Created => r.processed_at.is_none() && r.completed_at.is_none(),
        RequestStatus::Processed => r.processed_at.is_some() && r.completed_at.is_none(),
        RequestStatus::Completed => r.processed_at.is_some() && r.completed_at.is_some(),
        _ => true,
    };
    let completed_ok = r.completed_at.is_none() || matches!(r.status, RequestStatus::Completed)
        || matches!(r.status, RequestStatus::Deleted);
    by_status && completed_ok
}

impl Database {
    /// The users, in id order.
    pub fn users(&self) -> (r: &Vec<User>)
        ensures
            r@ == self@.users,
    {
        &self.users
    }

    /// The catalog entries, in id order.
    pub fn softwares(&self) -> (r: &Vec<Software>)
        ensures
            r@ == self@.softwares,
    {
        &self.softwares
    }

    /// The tags, in id order.
    pub fn tags(&self) -> (r: &Vec<Tag>)
        ensures
            r@ == self@.tags,
    {
        &self.tags
    }

    /// The links between entries and tags.
    pub fn software_tags(&self) -> (r: &Vec<SoftwareTag>)
        ensures
            r@ == self@.software_tags,
    {
        &self.software_tags
    }

    /// The requests, in id order.
    pub fn requests(&self) -> (r: &Vec<Request>)
        ensures
            r@ == self@.requests,
    {
        &self.requests
    }

    /// The line items.
    pub fn line_items(&self) -> (r: &Vec<RequestSoftware>)
        ensures
            r@ == self@.line_items,
    {
        &self.line_items
    }

    fn check_ids(&self) -> (r: bool)
        ensures
            r == self@.ids_ok(),
    {
        if self.users.len() > MAX_ROWS || self.softwares.len() > MAX_ROWS || self.tags.len()
            > MAX_ROWS || self.requests.len() > MAX_ROWS {
            return false;
        }
        let mut i: usize = 0;
        while i < self.users.len()
            invariant
                i <= self@.users.len(),
                self@.users.len() <= MAX_ROWS,
                forall|k: int| 0 <= k < i ==> #[trigger] self@.users[k].id == k + 1,
            decreases self@.users.len() - i,
        {
            if self.users[i].id != (i + 1) as i32 {
                return false;
            }
            i = i + 1;
        }
        let mut i: usize = 0;
        while i < self.softwares.len()
            invariant
                i <= self@.softwares.len(),
                self@.softwares.len() <= MAX_ROWS,
                forall|k: int| 0 <= k < i ==> #[trigger] self@.softwares[k].id == k + 1,
            decreases self@.softwares.len() - i,
        {
            if self.softwares[i].id != (i + 1) as i32 {
                return false;
            }
            i = i + 1;
        }
        let mut i: usize = 0;
        while i < self.tags.len()
            invariant
                i <= self@.tags.len(),
                self@.tags.len() <= MAX_ROWS,
                forall|k: int| 0 <= k < i ==> #[trigger] self@.tags[k].id == k + 1,
            decreases self@.tags.len() - i,
        {
            if self.tags[i].id != (i + 1) as i32 {
                return false;
            }
            i = i + 1;
        }
        let mut i: usize = 0;
        while i < self.requests.len()
            invariant
                i <= self@.requests.len(),
                self@.requests.len() <= MAX_ROWS,
                forall|k: int| 0 <= k < i ==> #[trigger] self@.requests[k].id == k + 1,
            decreases self@.requests.len() - i,
        {
            if self.requests[i].id != (i + 1) as i32 {
                return false;
            }
            i = i + 1;
        }
        true
    }

    fn check_usernames(&self) -> (r: bool)
        ensures
            r == (forall|i: int, j: int|
                0 <= i < self@.users.len() && 0 <= j < self@.users.len() && i != j
                    ==> #[trigger] self@.users[i].username@ != #[trigger] self@.users[j].username@),
    {
        let n = self.users.len();
        let mut i: usize = 0;
        while i < n
            invariant
                n == self@.users.len(),
                i <= n,
                forall|a: int, b: int|
                    0 <= a < i && 0 <= b < n && a != b ==> #[trigger] self@.users[a].username@
                        != #[trigger] self@.users[b].username@,
            decreases n - i,
        {
            let mut j: usize = 0;
            while j < n
                invariant
                    n == self@.users.len(),
                    i < n,
                    j <= n,
                    forall|a: int, b: int|
                        0 <= a < i && 0 <= b < n && a != b ==> #[trigger] self@.users[a].username@
                            != #[trigger] self@.users[b].username@,
                    forall|b: int|
                        0 <= b < j && b != i ==> self@.users[i as int].username@
                            != #[trigger] self@.users[b].username@,
                decreases n - j,
            {
                if j != i && same_text(self.users[i].username.as_str(), self.users[j].username.as_str()) {
                    return false;
                }
                j = j + 1;
            }
            proof {
                assert forall|a: int, b: int|
                    0 <= a < i + 1 && 0 <= b < n && a != b implies #[trigger] self@.users[a].username@
                        != #[trigger] self@.users[b].username@ by {
                    if a == i {
                        assert(self@.users[i as int].username@ != self@.users[b].username@);
                    }
                }
            }
            i = i + 1;
        }
        true
    }

    fn check_tag_names(&self) -> (r: bool)
        ensures
            r == (forall|i: int, j: int|
                0 <= i < self@.tags.len() && 0 <= j < self@.tags.len() && i != j
                    ==> #[trigger] self@.tags[i].name@ != #[trigger] self@.tags[j].name@),
    {
        let n = self.tags.len();
        let mut i: usize = 0;
        while i < n
            invariant
                n == self@.tags.len(),
                i <= n,
                forall|a: int, b: int|
                    0 <= a < i && 0 <= b < n && a != b ==> #[trigger] self@.tags[a].name@
                        != #[trigger] self@.tags[b].name@,
            decreases n - i,
        {
            let mut j: usize = 0;
            while j < n
                invariant
                    n == self@.tags.len(),
                    i < n,
                    j <= n,
                    forall|a: int, b: int|
                        0 <= a < i && 0 <= b < n && a != b ==> #[trigger] self@.tags[a].name@
                            != #[trigger] self@.tags[b].name@,
                    forall|b: int|
                        0 <= b < j && b != i ==> self@.tags[i as int].name@
                            != #[trigger] self@.tags[b].name@,
                decreases n - j,
            {
                if j != i && same_text(self.tags[i].name.as_str(), self.tags[j].name.as_str()) {
                    return false;
                }
                j = j + 1;
            }
            proof {
                assert forall|a: int, b: int|
                    0 <= a < i + 1 && 0 <= b < n && a != b implies #[trigger] self@.tags[a].name@
                        != #[trigger] self@.tags[b].name@ by {
                    if a == i {
                        assert(self@.tags[i as int].name@ != self@.tags[b].name@);
                    }
                }
            }
            i = i + 1;
        }
        true
    }

    fn check_links(&self) -> (r: bool)
        ensures
            r == self@.links_ok(),
    {
        let n = self.software_tags.len();
        let mut i: usize = 0;
        while i < n
            invariant
                n == self@.software_tags.len(),
                i <= n,
                forall|k: int| 0 <= k < i ==> self@.link_row_ok(#[trigger] self@.software_tags[k]),
                forall|a: int, b: int|
                    0 <= a < i && 0 <= b < n && a != b ==> #[trigger] self@.software_tags[a]
                        != #[trigger] self@.software_tags[b],
            decreases n - i,
        {
            let l = self.software_tags[i];
            if l.software_id < 1 || l.software_id as usize > self.softwares.len() || l.tag_id < 1
                || l.tag_id as usize > self.tags.len() {
                return false;
            }
            let mut j: usize = 0;
            while j < n
                invariant
                    n == self@.software_tags.len(),
                    i < n,
                    j <= n,
                    l == self@.software_tags[i as int],
                    forall|b: int| 0 <= b < j && b != i ==> l != #[trigger] self@.software_tags[b],
                decreases n - j,
            {
                if j != i && self.software_tags[j] == l {
                    return false;
                }
                j = j + 1;
            }
            proof {
                assert forall|a: int, b: int|
                    0 <= a < i + 1 && 0 <= b < n && a != b implies #[trigger] self@.software_tags[a]
                        != #[trigger] self@.software_tags[b] by {
                    if a == i {
                        assert(l != self@.software_tags[b]);
                    }
                }
            }
            i = i + 1;
        }
        true
    }

    fn check_requests(&self) -> (r: bool)
        ensures
            r == self@.requests_ok(),
    {
        let mut i: usize = 0;
        while i < self.requests.len()
            invariant
                i <= self@.requests.len(),
                forall|k: int| 0 <= k < i ==> self@.request_row_ok(#[trigger] self@.requests[k]),
            decreases self@.requests.len() - i,
        {
            let q = &self.requests[i];
            if q.user_id < 1 || q.user_id as usize > self.users.len() || !stamps_ok_exec(q) {
                assert(!self@.request_row_ok(self@.requests[i as int]));
                return false;
            }
            i = i + 1;
        }
        true
    }

    fn check_items(&self) -> (r: bool)
        ensures
            r == self@.items_ok(),
    {
        let n = self.line_items.len();
        let mut i: usize = 0;
        while i < n
            invariant
                n == self@.line_items.len(),
                i <= n,
                forall|k: int| 0 <= k < i ==> self@.item_row_ok(#[trigger] self@.line_items[k]),
                forall|a: int, b: int|
                    0 <= a < i && 0 <= b < n && a != b ==> (#[trigger] self@.line_items[a].request_id
                        != #[trigger] self@.line_items[b].request_id
                        || self@.line_items[a].software_id != self@.line_items[b].software_id),
            decreases n - i,
        {
            let it = self.line_items[i];
            if it.request_id < 1 || it.request_id as usize > self.requests.len() || it.software_id < 1
                || it.software_id as usize > self.softwares.len() {
                return false;
            }
            let mut j: usize = 0;
            while j < n
                invariant
                    n == self@.line_items.len(),
                    i < n,
                    j <= n,
                    it == self@.line_items[i as int],
                    forall|b: int|
                        0 <= b < j && b != i ==> (it.request_id
                            != #[trigger] self@.line_items[b].request_id || it.software_id
                            != self@.line_items[b].software_id),
                decreases n - j,
            {
                let o = self.line_items[j];
                if j != i && o.request_id == it.request_id && o.software_id == it.software_id {
                    return false;
                }
                j = j + 1;
            }
            proof {
                assert forall|a: int, b: int|
                    0 <= a < i + 1 && 0 <= b < n && a != b implies (
                    #[trigger] self@.line_items[a].request_id
                        != #[trigger] self@.line_items[b].request_id
                        || self@.line_items[a].software_id != self@.line_items[b].software_id) by {
                    if a == i {
                        assert(it.request_id != self@.line_items[b].request_id || it.software_id
                            != self@.line_items[b].software_id);
                    }
                }
            }
            i = i + 1;
        }
        true
    }

    /// A store holding exactly the given tables, when they are well formed:
    /// the way to bring back rows kept elsewhere.
    pub fn from_tables(
        users: Vec<User>,
        softwares: Vec<Software>,
        tags: Vec<Tag>,
        software_tags: Vec<SoftwareTag>,
        requests: Vec<Request>,
        line_items: Vec<RequestSoftware>,
    ) -> (r: Option<Database>)
        ensures
            r is Some <==> (DbView {
                users: users@,
                softwares: softwares@,
                tags: tags@,
                software_tags: software_tags@,
                requests: requests@,
                line_items: line_items@,
            }).wf(),
            r matches Some(d) ==> d@ == (DbView {
                users: users@,
                softwares: softwares@,
                tags: tags@,
                software_tags: software_tags@,
                requests: requests@,
                line_items: line_items@,
            }),
    {
        let d = Database { users, softwares, tags, software_tags, requests, line_items };
        let ok = d.check_ids() && d.check_usernames() && d.check_tag_names() && d.check_links()
            && d.check_requests() && d.check_items();
        if ok {
            Some(d)
        } else {
            None
        }
    }
}

} // verus!
