//! Rows of the relational store and the values handed in and out of it.
use vstd::prelude::*;
use crate::status::{RequestStatus, SoftwareStatus};

verus! {

/// A registered account. `password` holds the password hash.
#[derive(Debug)]
pub struct User {
    pub id: i32,
    pub username: String,
    pub password: String,
    pub moderator: bool,
}

/// A catalog entry. `active == false` is the soft-deleted state.
#[derive(Debug)]
pub struct Software {
    pub id: i32,
    pub description: String,
    pub logo: Option<String>,
    pub active: bool,
    pub name: String,
    pub version: String,
    pub source: String,
    pub created_at: u64,
    pub updated_at: u64,
}

/// A descriptive tag with a unique name.
#[derive(Debug)]
pub struct Tag {
    pub id: i32,
    pub name: String,
}

/// Link between a software and a tag.
#[derive(Debug, Clone, Copy, PartialEq, Eq, Structural)]
pub struct SoftwareTag {
    pub software_id: i32,
    pub tag_id: i32,
}

/// An installation request owned by a user.
#[derive(Debug)]
pub struct Request {
    pub id: i32,
    pub user_id: i32,
    pub moderator_id: Option<i32>,
    pub status: RequestStatus,
    pub ssh_address: Option<String>,
    pub ssh_password: Option<String>,
    pub created_at: u64,
    pub processed_at: Option<u64>,
    pub completed_at: Option<u64>,
}

/// A line item: one software inside one request.
#[derive(Debug, Clone, Copy, PartialEq, Eq, Structural)]
pub struct RequestSoftware {
    pub software_id: i32,
    pub request_id: i32,
    pub to_install: bool,
    pub status: SoftwareStatus,
    pub created_at: u64,
    pub updated_at: u64,
}

/// The fields of a new catalog entry.
#[derive(Debug)]
pub struct InsertSoftware {
    pub description: String,
    pub active: bool,
    pub name: String,
    pub version: String,
    pub source: String,
}

/// A sparse patch of a catalog entry: `None` keeps the stored value.
#[derive(Debug)]
pub struct OptionInsertSoftware {
    pub description: Option<String>,
    pub version: Option<String>,
    pub active: Option<bool>,
    pub name: Option<String>,
    pub source: Option<String>,
}

/// The fields of a new request.
#[derive(Debug)]
pub struct InsertRequest {
    pub user_id: i32,
    pub ssh_address: Option<String>,
    pub ssh_password: Option<String>,
}

/// A sparse patch of a request: `None` keeps the stored value. A status
/// change goes through the transition table.
#[derive(Debug)]
pub struct OptionInsertRequest {
    pub ssh_address: Option<String>,
    pub ssh_password: Option<String>,
    pub moderator_id: Option<i32>,
    pub status: Option<RequestStatus>,
}

/// Which requests a listing returns: by status (all but deleted ones when
/// absent) and by a closed range of creation times.
#[derive(Debug, Clone, Copy, PartialEq, Eq, Structural)]
pub struct RequestFilter {
    pub status: Option<RequestStatus>,
    pub create_date_start: Option<u64>,
    pub create_date_end: Option<u64>,
}

/// A catalog entry with the tags attached to it.
#[derive(Debug)]
pub struct SoftwareWithTags {
    pub software: Software,
    pub tags: Vec<Tag>,
}

/// A request with its owner's name and the software of its live line items.
#[derive(Debug)]
pub struct RequestWithSoftwares {
    pub softwares: Vec<Software>,
    pub request: Request,
    pub username: String,
}

/// The authenticated identity on whose behalf an operation runs.
#[derive(Debug, Clone, Copy, PartialEq, Eq, Structural)]
pub struct Caller {
    pub uid: i32,
    pub moderator: bool,
}

/// Which input a validation error is about.
#[derive(Debug, Clone, Copy, PartialEq, Eq, Structural)]
pub enum Field {
    Id,
    RequestId,
    SoftwareId,
    Status,
    Body,
    Fields,
}

/// The error taxonomy of every operation.
#[derive(Debug, Clone, Copy, PartialEq, Eq, Structural)]
pub enum ApiError {
    /// A required field or id is missing or malformed.
    Validation(Field),
    /// The entity does not exist.
    NotFound,
    /// The status change is not in the transition table.
    IllegalTransition,
    /// The caller's role or ownership does not allow the operation.
    Forbidden,
    /// A uniqueness rule would be broken.
    Conflict,
    /// The store or an outside collaborator failed.
    Internal,
}

impl ApiError {
    /// Short machine-stable reason of the error.
    pub fn reason(&self) -> (r: &'static str) {
        match self {
            ApiError::Validation(_) => "validation",
            ApiError::NotFound => "not_found",
            ApiError::IllegalTransition => "illegal_transition",
            ApiError::Forbidden => "forbidden",
            ApiError::Conflict => "conflict",
            ApiError::Internal => "internal",
        }
    }
}

/// A copy of an optional string.
pub fn clone_opt_string(o: &Option<String>) -> (r: Option<String>)
    ensures
        r == *o,
{
    match o {
        Some(s) => Some(s.clone()),
        None => None,
    }
}

impl User {
    /// A field-for-field copy.
    pub fn duplicate(&self) -> (r: User)
        ensures
            r == *self,
    {
        User {
            id: self.id,
            username: self.username.clone(),
            password: self.password.clone(),
            moderator: self.moderator,
        }
    }
}

impl Software {
    /// A field-for-field copy.
    pub fn duplicate(&self) -> (r: Software)
        ensures
            r == *self,
    {
        Software {
            id: self.id,
            description: self.description.clone(),
            logo: clone_opt_string(&self.logo),
            active: self.active,
            name: self.name.clone(),
            version: self.version.clone(),
            source: self.source.clone(),
            created_at: self.created_at,
            updated_at: self.updated_at,
        }
    }
}

impl Tag {
    /// A field-for-field copy.
    pub fn duplicate(&self) -> (r: Tag)
        ensures
            r == *self,
    {
        Tag { id: self.id, name: self.name.clone() }
    }
}

impl Request {
    /// A field-for-field copy.
    pub fn duplicate(&self) -> (r: Request)
        ensures
            r == *self,
    {
        Request {
            id: self.id,
            user_id: self.user_id,
            moderator_id: self.moderator_id,
            status: self.status,
            ssh_address: clone_opt_string(&self.ssh_address),
            ssh_password: clone_opt_string(&self.ssh_password),
            created_at: self.created_at,
            processed_at: self.processed_at,
            completed_at: self.completed_at,
        }
    }
}

impl OptionInsertSoftware {
    pub open spec fn spec_any_none(&self) -> bool {
        self.description is None || self.active is None || self.name is None || self.version is None
            || self.source is None
    }

    pub open spec fn spec_all_none(&self) -> bool {
        self.description is None && self.active is None && self.name is None && self.version is None
            && self.source is None
    }

    /// Some field of a full entry is missing.
    #[verifier::when_used_as_spec(spec_any_none)]
    pub fn any_none(&self) -> (r: bool)
        ensures
            r == self.spec_any_none(),
    {
        self.description.is_none() || self.active.is_none() || self.name.is_none()
            || self.version.is_none() || self.source.is_none()
    }

    /// The patch changes nothing.
    #[verifier::when_used_as_spec(spec_all_none)]
    pub fn all_none(&self) -> (r: bool)
        ensures
            r == self.spec_all_none(),
    {
        self.description.is_none() && self.active.is_none() && self.name.is_none()
            && self.version.is_none() && self.source.is_none()
    }
}

} // verus!
