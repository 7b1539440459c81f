//! The catalog card: what a listing shows of one entry.
use vstd::prelude::*;
use vstd::utf8::encode_utf8;
use crate::model::{ApiError, Software, Tag};
use crate::store::{Database, DbView};

verus! {

/// What `base64`'s standard engine (padded alphabet) returns for `b`.
pub uninterp spec fn base64_of(b: Seq<u8>) -> Seq<char>;

/// Relies on `base64::engine::general_purpose::STANDARD.encode`: padded
/// standard base64 of the bytes. It panics when the encoded length (four
/// characters for every started group of three bytes) overflows `usize`,
/// which `requires` excludes.
#[verifier::external_body]
fn base64_encode(b: &[u8]) -> (r: String)
    requires
        4 * ((b@.len() + 2) / 3) <= usize::MAX,
    ensures
        r@ == base64_of(b@),
{
    base64::Engine::encode(&base64::engine::general_purpose::STANDARD, b)
}

/// Logo shown for an entry without one.
pub const DEFAULT_LOGO: &'static str = "/static/default_logo.png";

/// Prefix of an inline logo.
pub const LOGO_PREFIX: &'static str = "data:image/png;base64, ";

/// The logo a card shows for a stored logo.
pub open spec fn card_logo(logo: Option<String>) -> Seq<char> {
    match logo {
        None => DEFAULT_LOGO@,
        Some(l) => LOGO_PREFIX@ + base64_of(encode_utf8(l@)),
    }
}

/// A stored logo is short enough to be encoded.
pub open spec fn logo_fits(logo: Option<String>) -> bool {
    logo matches Some(l) ==> 4 * ((encode_utf8(l@).len() + 2) / 3) <= usize::MAX
}

/// The logo text for an already encoded stored logo, or the default logo.
pub fn logo_from_encoded(encoded: Option<String>) -> (r: String)
    ensures
        r@ == match encoded {
            None => DEFAULT_LOGO@,
            Some(e) => LOGO_PREFIX@ + e@,
        },
{
    match encoded {
        None => DEFAULT_LOGO.to_owned(),
        Some(e) => LOGO_PREFIX.to_owned().concat(e.as_str()),
    }
}

/// An entry as a listing shows it.
#[derive(Debug)]
pub struct SoftwareCard {
    pub id: i32,
    pub logo: String,
    pub name: String,
    pub version: String,
    pub tags: Vec<Tag>,
    pub description: String,
}

impl SoftwareCard {
    /// The card of `db_soft`, with its tags from `db`.
    pub fn new(db_soft: Software, db: &Database) -> (r: SoftwareCard)
        requires
            db.wf(),
            logo_fits(db_soft.logo),
        ensures
            r.id == db_soft.id,
            r.name == db_soft.name,
            r.version == db_soft.version,
            r.description == db_soft.description,
            r.tags@ == db@.tags_of(db_soft.id as int),
            r.logo@ == card_logo(db_soft.logo),
    {
        let tags = db.get_tags_by_software(db_soft.id);
        let encoded = match &db_soft.logo {
            None => None,
            Some(l) => Some(base64_encode(l.as_str().as_bytes())),
        };
        let logo = logo_from_encoded(encoded);
        SoftwareCard {
            id: db_soft.id,
            logo,
            name: db_soft.name,
            version: db_soft.version,
            tags,
            description: db_soft.description,
        }
    }
}

/// The card of `s`; `Internal` when its logo is too long to encode.
pub fn card_of(db: &Database, s: Software) -> (r: Result<SoftwareCard, ApiError>)
    requires
        db.wf(),
    ensures
        !logo_fits(s.logo) ==> r == Err::<SoftwareCard, ApiError>(ApiError::Internal),
        logo_fits(s.logo) ==> (r matches Ok(c) && c.id == s.id && c.name == s.name && c.version
            == s.version && c.description == s.description && c.logo@ == card_logo(s.logo)
            && c.tags@ == db@.tags_of(s.id as int)),
{
    let fits = match &s.logo {
        None => true,
        Some(l) => {
            let n = l.as_str().as_bytes().len();
            let q = n / 3 + if n % 3 == 0 {
                0
            } else {
                1
            };
            assert(q == (n as int + 2) / 3) by (nonlinear_arith)
                requires
                    q == n / 3 + if n % 3 == 0 {
                        0int
                    } else {
                        1int
                    },
            ;
            assert((q <= usize::MAX / 4) == (4 * q <= usize::MAX)) by (nonlinear_arith);
            q <= usize::MAX / 4
        },
    };
    if !fits {
        return Err(ApiError::Internal);
    }
    Ok(SoftwareCard::new(s, db))
}

/// The card of entry `id`; `NotFound` when absent, `Internal` when its logo
/// is too long to encode.
pub fn get_soft(db: &Database, id: i32) -> (r: Result<SoftwareCard, ApiError>)
    requires
        db.wf(),
    ensures
        !db@.has_software(id as int) ==> r == Err::<SoftwareCard, ApiError>(ApiError::NotFound),
        db@.has_software(id as int) && !logo_fits(db@.software(id as int).logo) ==> r == Err::<
            SoftwareCard,
            ApiError,
        >(ApiError::Internal),
        db@.has_software(id as int) && logo_fits(db@.software(id as int).logo) ==> (r matches Ok(c)
            && c.id == id && c.name == db@.software(id as int).name && c.logo@ == card_logo(
            db@.software(id as int).logo,
        ) && c.tags@ == db@.tags_of(id as int)),
{
    match db.get_software_by_id(id) {
        None => Err(ApiError::NotFound),
        Some(x) => card_of(db, x.software),
    }
}

/// The entries a catalog page shows for `search`: active entries whose name
/// contains it, ignoring case, or every active entry when it is empty.
pub open spec fn index_listing(db: DbView, search: Seq<char>) -> Seq<Software> {
    if search.len() == 0 {
        db.active_listing(None)
    } else {
        db.by_name(search)
    }
}

/// The cards of a catalog page for `search`; `Internal` when a logo is too
/// long to encode.
pub fn index(db: &Database, search: &str) -> (r: Result<Vec<SoftwareCard>, ApiError>)
    requires
        db.wf(),
    ensures
        r is Err <==> exists|i: int|
            0 <= i < index_listing(db@, search@).len() && !logo_fits(
                #[trigger] index_listing(db@, search@)[i].logo,
            ),
        r is Err ==> r == Err::<Vec<SoftwareCard>, ApiError>(ApiError::Internal),
        r matches Ok(cards) ==> cards@.len() == index_listing(db@, search@).len() && forall|i: int|
            0 <= i < cards@.len() ==> (#[trigger] cards@[i]).id == index_listing(db@, search@)[i].id
                && cards@[i].logo@ == card_logo(index_listing(db@, search@)[i].logo),
{
    let ghost listing = index_listing(db@, search@);
    let list = if search.unicode_len() == 0 {
        db.get_all_active_softwares(None)
    } else {
        db.get_softwares_by_name(search)
    };
    let mut cards: Vec<SoftwareCard> = Vec::new();
    let mut i: usize = 0;
    while i < list.len()
        invariant
            db.wf(),
            listing == index_listing(db@, search@),
            list@ == listing,
            i <= list@.len(),
            cards@.len() == i,
            forall|j: int| 0 <= j < i ==> logo_fits(#[trigger] listing[j].logo),
            forall|j: int|
                0 <= j < i ==> (#[trigger] cards@[j]).id == listing[j].id && cards@[j].logo@
                    == card_logo(listing[j].logo),
        decreases list@.len() - i,
    {
        match card_of(db, list[i].duplicate()) {
            Ok(c) => cards.push(c),
            Err(e) => {
                assert(!logo_fits(index_listing(db@, search@)[i as int].logo));
                assert(0 <= i < index_listing(db@, search@).len());
                return Err(e);
            },
        }
        i = i + 1;
    }
    Ok(cards)
}

} // verus!
