//! Identity: the claims a token carries, issuing them at login, and the
//! decision of the authentication middleware.
use vstd::prelude::*;
use crate::model::{ApiError, Caller};
use crate::store::{Database, MAX_ROWS};
use crate::credentials::{bcrypt_accepts, printable_ascii};

verus! {

/// How long an issued token stays valid, in seconds.
pub const TOKEN_LIFETIME: u64 = 86400;

/// The claims of a signed token: expiry (seconds since the epoch), the
/// revocation id, the moderator flag and the user id.
#[derive(Debug)]
pub struct TokenClaims {
    pub exp: u64,
    pub tkid: String,
    pub moderator: bool,
    pub uid: i32,
}

impl TokenClaims {
    /// The identity on whose behalf a request with these claims runs.
    pub fn caller(&self) -> (r: Caller)
        ensures
            r == (Caller { uid: self.uid, moderator: self.moderator }),
    {
        Caller { uid: self.uid, moderator: self.moderator }
    }
}

/// Expiry of a token issued at `now`, capped at the largest time.
pub open spec fn expiry_of(now: u64) -> u64 {
    if now as int + TOKEN_LIFETIME as int > u64::MAX as int {
        u64::MAX
    } else {
        (now + TOKEN_LIFETIME) as u64
    }
}

/// Relies on `uuid::Uuid::new_v4` and its `Display`: a fresh random
/// identifier, so nothing is stated of it.
#[verifier::external_body]
fn fresh_token_id() -> (r: String) {
    uuid::Uuid::new_v4().to_string()
}

/// The claims for user `uid` at time `now` with revocation id `tkid`.
pub fn claims_for(db: &Database, uid: i32, now: u64, tkid: String) -> (r: TokenClaims)
    requires
        db.wf(),
        db@.has_user(uid as int),
    ensures
        r.uid == uid,
        r.moderator == db@.user(uid as int).moderator,
        r.exp == expiry_of(now),
        r.tkid == tkid,
{
    let exp = if now > u64::MAX - TOKEN_LIFETIME {
        u64::MAX
    } else {
        now + TOKEN_LIFETIME
    };
    TokenClaims { exp, tkid, moderator: db.is_moderator(uid), uid }
}

/// Checks the credentials and issues claims valid from `now` on, with a fresh
/// revocation id. Unknown user and wrong password both give `Forbidden`.
pub fn login(db: &Database, username: &str, password: &str, now: u64) -> (r: Result<
    TokenClaims,
    ApiError,
>)
    requires
        db.wf(),
    ensures
        r is Ok <==> (db@.user_index(username@) matches Some(i) && printable_ascii(
            db@.users[i].password@,
        ) && bcrypt_accepts(password@, db@.users[i].password@)),
        r is Err ==> r == Err::<TokenClaims, ApiError>(ApiError::Forbidden),
        r matches Ok(c) ==> (db@.user_index(username@) matches Some(i) && c.uid == i + 1
            && c.moderator == db@.users[i].moderator && c.exp == expiry_of(now)),
{
    let uid = db.login(username, password)?;
    proof {
        let i = db@.user_index(username@)->0;
        assert(db@.users[i].id == i + 1);
    }
    Ok(claims_for(db, uid, now, fresh_token_id()))
}

/// Registers `username` with `password`.
pub fn register(db: &mut Database, username: String, password: &str) -> (r: Result<i32, ApiError>)
    requires
        old(db).wf(),
    ensures
        final(db).wf(),
        old(db)@.username_taken(username@) ==> r == Err::<i32, ApiError>(ApiError::Conflict)
            && final(db)@ == old(db)@,
        !old(db)@.username_taken(username@) && old(db)@.users.len() >= MAX_ROWS ==> r == Err::<
            i32,
            ApiError,
        >(ApiError::Internal) && final(db)@ == old(db)@,
        !old(db)@.username_taken(username@) && old(db)@.users.len() < MAX_ROWS ==> r == Ok::<
            i32,
            ApiError,
        >((old(db)@.users.len() + 1) as i32) && exists|h: String|
            final(db)@ == #[trigger] old(db)@.with_user(username, h) && bcrypt_accepts(
                password@,
                h@,
            ) && printable_ascii(h@),
{
    db.register(username, password)
}

/// What the authentication middleware does with a request.
#[derive(Debug)]
pub enum AuthDecision {
    /// Answer "unauthorized" without running the handler.
    Reject,
    /// Run the handler, with the claims when a valid token came.
    Pass(Option<TokenClaims>),
}

/// The middleware's rule: a revoked token is rejected; a missing or invalid
/// token is rejected where authentication is required, and passes without
/// claims elsewhere.
pub open spec fn auth_outcome(required: bool, claims: Option<TokenClaims>, revoked: bool) -> AuthDecision {
    match claims {
        Some(c) => if revoked { AuthDecision::Reject } else { AuthDecision::Pass(Some(c)) },
        None => if required { AuthDecision::Reject } else { AuthDecision::Pass(None) },
    }
}

/// Authentication middleware factory: required or optional authentication.
#[derive(Clone, Copy, Debug)]
pub struct VerifyAuth {
    required: bool,
}

/// The middleware wrapped around one service.
#[derive(Debug)]
pub struct VerifyAuthService<S> {
    service: S,
    required: bool,
}

impl VerifyAuth {
    pub closed spec fn spec_required(&self) -> bool {
        self.required
    }

    /// Requests without a valid token are rejected.
    pub fn required() -> (r: Self)
        ensures
            r.spec_required(),
    {
        Self { required: true }
    }

    /// Requests without a valid token pass, without claims.
    pub fn optional() -> (r: Self)
        ensures
            !r.spec_required(),
    {
        Self { required: false }
    }

    /// Whether authentication is required.
    pub fn is_required(&self) -> (r: bool)
        ensures
            r == self.spec_required(),
    {
        self.required
    }

    /// Wraps `service` in this middleware.
    pub fn new_transform<S>(&self, service: S) -> (r: VerifyAuthService<S>)
        ensures
            r.spec_required() == self.spec_required(),
            r.spec_service() == service,
    {
        VerifyAuthService { service, required: self.required }
    }
}

impl<S> VerifyAuthService<S> {
    pub closed spec fn spec_required(&self) -> bool {
        self.required
    }

    pub closed spec fn spec_service(&self) -> S {
        self.service
    }

    /// The wrapped service.
    pub fn service(&self) -> (r: &S)
        ensures
            *r == self.spec_service(),
    {
        &self.service
    }

    /// Decides what happens to a request whose token decoded to `claims`
    /// (`None`: no token, or one that failed validation) and whose revocation
    /// id is `revoked` in the revocation cache.
    pub fn decide(&self, claims: Option<TokenClaims>, revoked: bool) -> (r: AuthDecision)
        ensures
            r == auth_outcome(self.spec_required(), claims, revoked),
    {
        match claims {
            Some(c) => {
                if revoked {
                    AuthDecision::Reject
                } else {
                    AuthDecision::Pass(Some(c))
                }
            },
            None => {
                if self.required {
                    AuthDecision::Reject
                } else {
                    AuthDecision::Pass(None)
                }
            },
        }
    }
}

} // verus!
