//! Token metadata: the descriptive fields kept per token, the closed
//! classification enumeration ("user type"), field-by-field patching, and
//! the storage units a metadata record occupies.

use vstd::prelude::*;
use vstd::string::StrSliceExecFns;
use vstd::string::StringExecFns;

verus! {

/// The closed classification enumeration a token's tag must belong to.
#[derive(Clone, Copy, PartialEq, Eq, Debug, Structural)]
pub enum UserType {
    Admin,
    SuperUser,
    User,
}

/// Canonical stored form of each classification tag.
pub open spec fn tag_of(u: UserType) -> Seq<char> {
    match u {
        UserType::Admin => "admin"@,
        UserType::SuperUser => "super_user"@,
        UserType::User => "user"@,
    }
}

/// The tag a string denotes, if it belongs to the closed enumeration.
pub open spec fn parse_tag(s: Seq<char>) -> Option<UserType> {
    if s == "admin"@ {
        Some(UserType::Admin)
    } else if s == "super_user"@ {
        Some(UserType::SuperUser)
    } else if s == "user"@ {
        Some(UserType::User)
    } else {
        None
    }
}

pub open spec fn valid_tag(s: Seq<char>) -> bool {
    parse_tag(s) is Some
}

/// An optional tag field is acceptable when absent or in the enumeration.
pub open spec fn valid_tag_field(t: Option<Seq<char>>) -> bool {
    match t {
        Some(s) => valid_tag(s),
        None => true,
    }
}

impl UserType {
    /// The canonical string under which the tag is stored.
    pub fn to_tag(&self) -> (r: String)
        ensures
            r@ == tag_of(*self),
    {
        match self {
            UserType::Admin => String::from_str("admin"),
            UserType::SuperUser => String::from_str("super_user"),
            UserType::User => String::from_str("user"),
        }
    }
}

/// Parses a classification tag; `None` exactly on strings outside the
/// closed enumeration.
pub fn user_type_from_tag(s: &String) -> (r: Option<UserType>)
    ensures
        r == parse_tag(s@),
{
    if *s == String::from_str("admin") {
        Some(UserType::Admin)
    } else if *s == String::from_str("super_user") {
        Some(UserType::SuperUser)
    } else if *s == String::from_str("user") {
        Some(UserType::User)
    } else {
        None
    }
}

/// Descriptive fields kept per token, independent of ownership.
pub struct TokenMetadata {
    pub title: Option<String>,
    pub description: Option<String>,
    pub media: Option<String>,
    pub media_hash: Option<Vec<u8>>,
    pub copies: Option<u64>,
    pub issued_at: Option<u64>,
    pub expires_at: Option<u64>,
    pub starts_at: Option<u64>,
    pub updated_at: Option<u64>,
    pub extra: Option<String>,
    pub reference: Option<String>,
    pub reference_hash: Option<Vec<u8>>,
    pub user_type: Option<String>,
    pub organization: Option<String>,
}

/// Mathematical view of a metadata record.
#[verifier::ext_equal]
pub struct MetaV {
    pub title: Option<Seq<char>>,
    pub description: Option<Seq<char>>,
    pub media: Option<Seq<char>>,
    pub media_hash: Option<Seq<u8>>,
    pub copies: Option<u64>,
    pub issued_at: Option<u64>,
    pub expires_at: Option<u64>,
    pub starts_at: Option<u64>,
    pub updated_at: Option<u64>,
    pub extra: Option<Seq<char>>,
    pub reference: Option<Seq<char>>,
    pub reference_hash: Option<Seq<u8>>,
    pub user_type: Option<Seq<char>>,
    pub organization: Option<Seq<char>>,
}

impl View for TokenMetadata {
    type V = MetaV;

    open spec fn view(&self) -> MetaV {
        MetaV {
            title: self.title.deep_view(),
            description: self.description.deep_view(),
            media: self.media.deep_view(),
            media_hash: self.media_hash.deep_view(),
            copies: self.copies,
            issued_at: self.issued_at,
            expires_at: self.expires_at,
            starts_at: self.starts_at,
            updated_at: self.updated_at,
            extra: self.extra.deep_view(),
            reference: self.reference.deep_view(),
            reference_hash: self.reference_hash.deep_view(),
            user_type: self.user_type.deep_view(),
            organization: self.organization.deep_view(),
        }
    }
}

/// Field-by-field overlay of a patch onto a current record: every present
/// patch field replaces the stored one, absent fields are left untouched,
/// with two exceptions. `issued_at` is set exactly once, at creation, so
/// the overlay never touches it. `updated_at` is always refreshed — to the
/// patch's value if supplied, to `now` otherwise.
pub open spec fn overlay_spec(cur: MetaV, patch: MetaV, now: u64) -> MetaV {
    MetaV {
        title: if patch.title is Some {
            patch.title
        } else {
            cur.title
        },
        description: if patch.description is Some {
            patch.description
        } else {
            cur.description
        },
        media: if patch.media is Some {
            patch.media
        } else {
            cur.media
        },
        media_hash: if patch.media_hash is Some {
            patch.media_hash
        } else {
            cur.media_hash
        },
        copies: if patch.copies is Some {
            patch.copies
        } else {
            cur.copies
        },
        issued_at: cur.issued_at,
        expires_at: if patch.expires_at is Some {
            patch.expires_at
        } else {
            cur.expires_at
        },
        starts_at: if patch.starts_at is Some {
            patch.starts_at
        } else {
            cur.starts_at
        },
        updated_at: if patch.updated_at is Some {
            patch.updated_at
        } else {
            Some(now)
        },
        extra: if patch.extra is Some {
            patch.extra
        } else {
            cur.extra
        },
        reference: if patch.reference is Some {
            patch.reference
        } else {
            cur.reference
        },
        reference_hash: if patch.reference_hash is Some {
            patch.reference_hash
        } else {
            cur.reference_hash
        },
        user_type: if patch.user_type is Some {
            patch.user_type
        } else {
            cur.user_type
        },
        organization: if patch.organization is Some {
            patch.organization
        } else {
            cur.organization
        },
    }
}

/// Applies a patch to a stored record, exactly as `overlay_spec` says.
pub fn overlay(cur: TokenMetadata, patch: TokenMetadata, now: u64) -> (r: TokenMetadata)
    ensures
        r@ == overlay_spec(cur@, patch@, now),
{
    let r = TokenMetadata {
        title: if patch.title.is_some() {
            patch.title
        } else {
            cur.title
        },
        description: if patch.description.is_some() {
            patch.description
        } else {
            cur.description
        },
        media: if patch.media.is_some() {
            patch.media
        } else {
            cur.media
        },
        media_hash: if patch.media_hash.is_some() {
            patch.media_hash
        } else {
            cur.media_hash
        },
        copies: if patch.copies.is_some() {
            patch.copies
        } else {
            cur.copies
        },
        issued_at: cur.issued_at,
        expires_at: if patch.expires_at.is_some() {
            patch.expires_at
        } else {
            cur.expires_at
        },
        starts_at: if patch.starts_at.is_some() {
            patch.starts_at
        } else {
            cur.starts_at
        },
        updated_at: if patch.updated_at.is_some() {
            patch.updated_at
        } else {
            Some(now)
        },
        extra: if patch.extra.is_some() {
            patch.extra
        } else {
            cur.extra
        },
        reference: if patch.reference.is_some() {
            patch.reference
        } else {
            cur.reference
        },
        reference_hash: if patch.reference_hash.is_some() {
            patch.reference_hash
        } else {
            cur.reference_hash
        },
        user_type: if patch.user_type.is_some() {
            patch.user_type
        } else {
            cur.user_type
        },
        organization: if patch.organization.is_some() {
            patch.organization
        } else {
            cur.organization
        },
    };
    proof {
        assert(r@ =~= overlay_spec(cur@, patch@, now));
    }
    r
}

pub open spec fn opt_str_units(o: Option<Seq<char>>) -> int {
    match o {
        Some(s) => s.len() as int,
        None => 0,
    }
}

pub open spec fn opt_bytes_units(o: Option<Seq<u8>>) -> int {
    match o {
        Some(s) => s.len() as int,
        None => 0,
    }
}

pub open spec fn opt_num_units(o: Option<u64>) -> int {
    if o is Some {
        8
    } else {
        0
    }
}

/// The storage units a metadata record occupies: each present string or
/// byte field costs its length, each present number costs eight units.
pub open spec fn meta_units(m: MetaV) -> int {
    opt_str_units(m.title) + opt_str_units(m.description) + opt_str_units(m.media)
        + opt_bytes_units(m.media_hash) + opt_num_units(m.copies) + opt_num_units(m.issued_at)
        + opt_num_units(m.expires_at) + opt_num_units(m.starts_at) + opt_num_units(m.updated_at)
        + opt_str_units(m.extra) + opt_str_units(m.reference) + opt_bytes_units(m.reference_hash)
        + opt_str_units(m.user_type) + opt_str_units(m.organization)
}

fn opt_str_measure(o: &Option<String>) -> (r: u128)
    ensures
        r == opt_str_units(o.deep_view()),
        r <= u64::MAX,
{
    match o {
        Some(s) => s.as_str().unicode_len() as u128,
        None => 0,
    }
}

fn opt_bytes_measure(o: &Option<Vec<u8>>) -> (r: u128)
    ensures
        r == opt_bytes_units(o.deep_view()),
        r <= u64::MAX,
{
    match o {
        Some(v) => v.len() as u128,
        None => 0,
    }
}

fn opt_num_measure(o: &Option<u64>) -> (r: u128)
    ensures
        r == opt_num_units(*o),
        r <= u64::MAX,
{
    match o {
        Some(_) => 8,
        None => 0,
    }
}

/// Measures the storage units of a metadata record.
pub fn measure_metadata(m: &TokenMetadata) -> (r: u128)
    ensures
        r == meta_units(m@),
        r <= 14 * (u64::MAX as u128),
{
    let r = opt_str_measure(&m.title) + opt_str_measure(&m.description) + opt_str_measure(&m.media)
        + opt_bytes_measure(&m.media_hash) + opt_num_measure(&m.copies) + opt_num_measure(
        &m.issued_at,
    ) + opt_num_measure(&m.expires_at) + opt_num_measure(&m.starts_at) + opt_num_measure(
        &m.updated_at,
    ) + opt_str_measure(&m.extra) + opt_str_measure(&m.reference) + opt_bytes_measure(
        &m.reference_hash,
    ) + opt_str_measure(&m.user_type) + opt_str_measure(&m.organization);
    r
}

/// Measures the storage units `overlay` would leave in the store, without
/// touching the stored record.
pub fn measure_overlaid(cur: &TokenMetadata, patch: &TokenMetadata, now: u64) -> (r: u128)
    ensures
        r == meta_units(overlay_spec(cur@, patch@, now)),
        r <= 14 * (u64::MAX as u128),
{
    let overlaid = overlay(clone_metadata(cur), clone_metadata(patch), now);
    measure_metadata(&overlaid)
}

/// A copy of a metadata record, equal field by field.
pub fn clone_metadata(m: &TokenMetadata) -> (r: TokenMetadata)
    ensures
        r@ == m@,
{
    let r = TokenMetadata {
        title: clone_opt_string(&m.title),
        description: clone_opt_string(&m.description),
        media: clone_opt_string(&m.media),
        media_hash: clone_opt_bytes(&m.media_hash),
        copies: m.copies,
        issued_at: m.issued_at,
        expires_at: m.expires_at,
        starts_at: m.starts_at,
        updated_at: m.updated_at,
        extra: clone_opt_string(&m.extra),
        reference: clone_opt_string(&m.reference),
        reference_hash: clone_opt_bytes(&m.reference_hash),
        user_type: clone_opt_string(&m.user_type),
        organization: clone_opt_string(&m.organization),
    };
    proof {
        assert(r@ =~= m@);
    }
    r
}

fn clone_opt_string(o: &Option<String>) -> (r: Option<String>)
    ensures
        r.deep_view() == o.deep_view(),
{
    match o {
        Some(s) => Some(s.clone()),
        None => None,
    }
}

fn clone_opt_bytes(o: &Option<Vec<u8>>) -> (r: Option<Vec<u8>>)
    ensures
        r.deep_view() == o.deep_view(),
{
    match o {
        Some(v) => {
            let mut c: Vec<u8> = Vec::new();
            let mut j: usize = 0;
            while j < v.len()
                invariant
                    j <= v@.len(),
                    c@ == v@.subrange(0, j as int),
                decreases v@.len() - j,
            {
                c.push(v[j]);
                proof {
                    assert(c@ =~= v@.subrange(0, j + 1 as int));
                }
                j += 1;
            }
            proof {
                assert(c@ =~= v@);
            }
            Some(c)
        },
        None => None,
    }
}

/// A fixed sample metadata record: a title, a description and a single
/// copy, everything else absent.
pub fn sample_token_metadata() -> (r: TokenMetadata)
    ensures
        r@.title == Some("Gyde Test"@),
        r@.description == Some("This is a smart contract test"@),
        r@.media is None,
        r@.media_hash is None,
        r@.copies == Some(1u64),
        r@.issued_at is None,
        r@.expires_at is None,
        r@.starts_at is None,
        r@.updated_at is None,
        r@.extra is None,
        r@.reference is None,
        r@.reference_hash is None,
        r@.user_type is None,
        r@.organization is None,
{
    TokenMetadata {
        title: Some(String::from_str("Gyde Test")),
        description: Some(String::from_str("This is a smart contract test")),
        media: None,
        media_hash: None,
        copies: Some(1u64),
        issued_at: None,
        expires_at: None,
        starts_at: None,
        updated_at: None,
        extra: None,
        reference: None,
        reference_hash: None,
        user_type: None,
        organization: None,
    }
}

/// The sample record with a chosen classification tag and organization.
pub fn gyde_token_metadata_sample(user_type: Option<String>, organization: Option<String>) -> (r:
    TokenMetadata)
    ensures
        r@.title == Some("Gyde Test"@),
        r@.description == Some("This is a smart contract test"@),
        r@.media is None,
        r@.media_hash is None,
        r@.copies == Some(1u64),
        r@.issued_at is None,
        r@.expires_at is None,
        r@.starts_at is None,
        r@.updated_at is None,
        r@.extra is None,
        r@.reference is None,
        r@.reference_hash is None,
        r@.user_type == user_type.deep_view(),
        r@.organization == organization.deep_view(),
{
    TokenMetadata {
        title: Some(String::from_str("Gyde Test")),
        description: Some(String::from_str("This is a smart contract test")),
        media: None,
        media_hash: None,
        copies: Some(1u64),
        issued_at: None,
        expires_at: None,
        starts_at: None,
        updated_at: None,
        extra: None,
        reference: None,
        reference_hash: None,
        user_type,
        organization,
    }
}

} // verus!
