//! User, tenant and API-token rules of the user service: the repository
//! errors, the checks made on each request, paging, and the decision taken
//! when a token is revoked.

use vstd::prelude::*;

use crate::node_registry::Timestamp;
use crate::text::{concat, owned, str_eq};

verus! {

// ============================================================================
// Repository errors
// ============================================================================

/// Errors of the API-token repository.
#[derive(Debug)]
pub enum ApiTokenRepositoryError {
    Database(String),
    NotFound(String),
    PermissionDenied(String),
}

impl ApiTokenRepositoryError {
    /// The error message.
    pub fn message(&self) -> (s: String)
        ensures
            s@ == match self {
                ApiTokenRepositoryError::Database(m) => "Database error: "@ + m@,
                ApiTokenRepositoryError::NotFound(m) => "Not found: "@ + m@,
                ApiTokenRepositoryError::PermissionDenied(m) => "Permission denied: "@ + m@,
            },
    {
        match self {
            ApiTokenRepositoryError::Database(m) => concat("Database error: ", m.as_str()),
            ApiTokenRepositoryError::NotFound(m) => concat("Not found: ", m.as_str()),
            ApiTokenRepositoryError::PermissionDenied(m) => concat("Permission denied: ", m.as_str()),
        }
    }
}

/// Errors of the user repository.
#[derive(Debug)]
pub enum UserRepositoryError {
    Database(String),
    NotFound(String),
}

impl UserRepositoryError {
    /// The error message.
    pub fn message(&self) -> (s: String)
        ensures
            s@ == match self {
                UserRepositoryError::Database(m) => "Database error: "@ + m@,
                UserRepositoryError::NotFound(m) => "Not found: "@ + m@,
            },
    {
        match self {
            UserRepositoryError::Database(m) => concat("Database error: ", m.as_str()),
            UserRepositoryError::NotFound(m) => concat("Not found: ", m.as_str()),
        }
    }
}

/// Errors of the tenant repository.
#[derive(Debug)]
pub enum TenantRepositoryError {
    Database(String),
    NotFound(String),
}

impl TenantRepositoryError {
    /// The error message.
    pub fn message(&self) -> (s: String)
        ensures
            s@ == match self {
                TenantRepositoryError::Database(m) => "Database error: "@ + m@,
                TenantRepositoryError::NotFound(m) => "Not found: "@ + m@,
            },
    {
        match self {
            TenantRepositoryError::Database(m) => concat("Database error: ", m.as_str()),
            TenantRepositoryError::NotFound(m) => concat("Not found: ", m.as_str()),
        }
    }
}

// ============================================================================
// Stored values
// ============================================================================

/// A stored UNIX time counts when positive.
pub open spec fn stored_time_set(t: Option<i64>) -> bool {
    t matches Some(s) && s > 0
}

/// The timestamp of a stored UNIX time in seconds; unset (absent or not
/// positive) times have none.
pub fn timestamp_from_unix(t: Option<i64>) -> (r: Option<Timestamp>)
    ensures
        r == if stored_time_set(t) { Some(Timestamp { seconds: t->0, nanos: 0 }) } else { None::<Timestamp> },
{
    match t {
        Some(s) => if s > 0 { Some(Timestamp { seconds: s, nanos: 0 }) } else { None },
        None => None,
    }
}

/// A token is revoked when its stored revocation time is set.  A token that
/// does not exist is not revoked.
pub fn is_revoked(row: Option<Option<i64>>) -> (b: bool)
    ensures
        b == (row matches Some(t) && stored_time_set(t)),
{
    match row {
        Some(t) => match t {
            Some(s) => s > 0,
            None => false,
        },
        None => false,
    }
}

/// What a revocation does with the stored token `(owner, revoked_at)`.
///
/// A missing token is an error; an already revoked token is left as it is
/// (`Ok(false)`); only the owner or an admin may revoke; otherwise the token
/// is revoked now (`Ok(true)`).
pub fn revoke_decision(
    token_id: &str,
    row: Option<(String, Option<i64>)>,
    requesting_user_id: &str,
    is_admin: bool,
) -> (r: Result<bool, ApiTokenRepositoryError>)
    ensures
        match row {
            None => r matches Err(ApiTokenRepositoryError::NotFound(m))
                && m@ == "Token "@ + token_id@ + " not found"@,
            Some((owner, revoked_at)) => if stored_time_set(revoked_at) {
                r == Ok::<bool, ApiTokenRepositoryError>(false)
            } else if !is_admin && owner@ != requesting_user_id@ {
                r matches Err(ApiTokenRepositoryError::PermissionDenied(m))
                    && m@ == "Only the token owner or an admin may revoke this token"@
            } else {
                r == Ok::<bool, ApiTokenRepositoryError>(true)
            },
        },
{
    match row {
        None => {
            let head = concat("Token ", token_id);
            Err(ApiTokenRepositoryError::NotFound(concat(head.as_str(), " not found")))
        },
        Some((owner, revoked_at)) => {
            let already = match revoked_at {
                Some(t) => t > 0,
                None => false,
            };
            if already {
                Ok(false)
            } else if !is_admin && !str_eq(owner.as_str(), requesting_user_id) {
                Err(ApiTokenRepositoryError::PermissionDenied(
                    owned("Only the token owner or an admin may revoke this token"),
                ))
            } else {
                Ok(true)
            }
        },
    }
}

// ============================================================================
// Request checks
// ============================================================================

/// The answer of a refused request, by kind (the gRPC status codes used).
#[derive(Debug)]
pub enum RequestError {
    InvalidArgument(String),
    PermissionDenied(String),
    NotFound(String),
    Internal(String),
    Unauthenticated(String),
}

/// A get-or-create request needs an e-mail and a tenant.
pub fn check_get_or_create_request(email: &str, tenant_id: &str) -> (r: Result<(), RequestError>)
    ensures
        email@.len() == 0 ==> (r matches Err(RequestError::InvalidArgument(m)) && m@ == "email is required"@),
        email@.len() > 0 && tenant_id@.len() == 0 ==> (r matches Err(RequestError::InvalidArgument(m)) && m@ == "tenant_id is required"@),
        email@.len() > 0 && tenant_id@.len() > 0 ==> r is Ok,
{
    if email.unicode_len() == 0 {
        return Err(RequestError::InvalidArgument(owned("email is required")));
    }
    if tenant_id.unicode_len() == 0 {
        return Err(RequestError::InvalidArgument(owned("tenant_id is required")));
    }
    Ok(())
}

/// Who may update a user: an admin, or the account owner; only an admin may
/// change the admin flag.
pub fn check_update_user(
    caller_is_admin: bool,
    caller_user_id: Option<&str>,
    target_user_id: &str,
    requested_admin: Option<bool>,
) -> (r: Result<(), RequestError>)
    ensures
        ({
            let owner = caller_user_id matches Some(u) && u@ == target_user_id@;
            if target_user_id@.len() == 0 {
                r matches Err(RequestError::InvalidArgument(m)) && m@ == "user_id is required"@
            } else if !caller_is_admin && !owner {
                r matches Err(RequestError::PermissionDenied(m)) && m@ == "Only an admin or the account owner may update this user"@
            } else if !caller_is_admin && requested_admin == Some(true) {
                r matches Err(RequestError::PermissionDenied(m)) && m@ == "Only an admin may change admin status"@
            } else {
                r is Ok
            }
        }),
{
    if target_user_id.unicode_len() == 0 {
        return Err(RequestError::InvalidArgument(owned("user_id is required")));
    }
    let owner = match caller_user_id {
        Some(u) => str_eq(u, target_user_id),
        None => false,
    };
    if !caller_is_admin && !owner {
        return Err(RequestError::PermissionDenied(owned("Only an admin or the account owner may update this user")));
    }
    if !caller_is_admin {
        if let Some(true) = requested_admin {
            return Err(RequestError::PermissionDenied(owned("Only an admin may change admin status")));
        }
    }
    Ok(())
}

/// The caller's user ID, which token operations need.
pub fn require_user_id(user_id: Option<&str>) -> (r: Result<String, RequestError>)
    ensures
        match user_id {
            Some(u) => r matches Ok(s) && s@ == u@,
            None => r matches Err(RequestError::Unauthenticated(m)) && m@ == "user_id missing from token"@,
        },
{
    match user_id {
        Some(u) => Ok(owned(u)),
        None => Err(RequestError::Unauthenticated(owned("user_id missing from token"))),
    }
}

/// Which tenant a user listing is restricted to: an admin sees all tenants
/// unless a filter is given; anyone else sees only their own tenant.
pub fn list_users_tenant_filter(caller_is_admin: bool, caller_tenant_id: &str, tenant_id_filter: String) -> (r: Option<String>)
    ensures
        if caller_is_admin {
            if tenant_id_filter@.len() == 0 { r.is_none() } else { r matches Some(t) && t@ == tenant_id_filter@ }
        } else {
            r matches Some(t) && t@ == caller_tenant_id@
        },
{
    if caller_is_admin {
        if tenant_id_filter.unicode_len() == 0 {
            None
        } else {
            Some(tenant_id_filter)
        }
    } else {
        Some(owned(caller_tenant_id))
    }
}

/// An API token needs a name.
pub fn check_token_name(name: &str) -> (r: Result<(), RequestError>)
    ensures
        name@.len() == 0 ==> (r matches Err(RequestError::InvalidArgument(m)) && m@ == "name is required"@),
        name@.len() > 0 ==> r is Ok,
{
    if name.unicode_len() == 0 {
        Err(RequestError::InvalidArgument(owned("name is required")))
    } else {
        Ok(())
    }
}

/// Revoking an API token needs its ID.
pub fn check_token_id(token_id: &str) -> (r: Result<(), RequestError>)
    ensures
        token_id@.len() == 0 ==> (r matches Err(RequestError::InvalidArgument(m)) && m@ == "token_id is required"@),
        token_id@.len() > 0 ==> r is Ok,
{
    if token_id.unicode_len() == 0 {
        Err(RequestError::InvalidArgument(owned("token_id is required")))
    } else {
        Ok(())
    }
}

/// The scopes of a new API token: the requested ones, or read and write.
pub fn api_token_scopes(requested: Vec<String>) -> (r: Vec<String>)
    ensures
        requested@.len() > 0 ==> r@ == requested@,
        requested@.len() == 0 ==> r@.len() == 2 && r@[0]@ == "read"@ && r@[1]@ == "write"@,
{
    if requested.len() == 0 {
        let mut v: Vec<String> = Vec::new();
        v.push(owned("read"));
        v.push(owned("write"));
        v
    } else {
        requested
    }
}

/// Default lifetime of an API token: 90 days, in seconds.
pub const DEFAULT_API_TOKEN_TTL_SECONDS: i64 = 7776000;

/// When a new API token expires: `ttl_seconds` (default 90 days) after `now`.
pub fn api_token_expiry(now: i64, ttl_seconds: Option<i64>) -> (r: i64)
    requires
        i64::MIN <= now + match ttl_seconds { Some(t) => t, None => DEFAULT_API_TOKEN_TTL_SECONDS } <= i64::MAX,
    ensures
        r == now + match ttl_seconds { Some(t) => t, None => DEFAULT_API_TOKEN_TTL_SECONDS },
{
    let ttl = match ttl_seconds {
        Some(t) => t,
        None => DEFAULT_API_TOKEN_TTL_SECONDS,
    };
    now + ttl
}

/// The answer to a failed revocation, by repository error.
pub fn revoke_error_status(e: ApiTokenRepositoryError) -> (r: RequestError)
    ensures
        match e {
            ApiTokenRepositoryError::NotFound(m) => r matches RequestError::NotFound(x) && x@ == m@,
            ApiTokenRepositoryError::PermissionDenied(m) => r matches RequestError::PermissionDenied(x) && x@ == m@,
            ApiTokenRepositoryError::Database(m) => r matches RequestError::Internal(x) && x@ == m@,
        },
{
    match e {
        ApiTokenRepositoryError::NotFound(m) => RequestError::NotFound(m),
        ApiTokenRepositoryError::PermissionDenied(m) => RequestError::PermissionDenied(m),
        ApiTokenRepositoryError::Database(m) => RequestError::Internal(m),
    }
}

// ============================================================================
// Paging
// ============================================================================

/// Default page size.
pub const DEFAULT_PAGE_LIMIT: i32 = 50;

/// Largest page size.
pub const MAX_PAGE_LIMIT: i32 = 1000;

/// The offset and limit actually used for a requested page: a negative
/// offset counts as 0; a limit that is not positive means the default, and
/// larger limits are capped.
pub fn normalize_page(offset: i32, limit: i32) -> (r: (i32, i32))
    ensures
        r.0 == if offset < 0 { 0 } else { offset },
        r.1 == if limit <= 0 { DEFAULT_PAGE_LIMIT } else if limit > MAX_PAGE_LIMIT { MAX_PAGE_LIMIT } else { limit },
{
    let o = if offset < 0 { 0 } else { offset };
    let l = if limit <= 0 {
        DEFAULT_PAGE_LIMIT
    } else if limit > MAX_PAGE_LIMIT {
        MAX_PAGE_LIMIT
    } else {
        limit
    };
    (o, l)
}

/// The paging part of a list answer.
#[derive(Debug)]
pub struct PageResponse {
    pub request_id: String,
    pub total_size: i32,
    pub offset: i32,
    pub limit: i32,
    pub has_next: bool,
}

/// The page answer for `total` items shown from `offset` with `limit`:
/// there is a next page when the page ends before the last item.
pub fn build_page_response(total: i32, offset: i32, limit: i32) -> (r: PageResponse)
    requires
        i32::MIN <= offset + limit <= i32::MAX,
    ensures
        r.total_size == total,
        r.offset == offset,
        r.limit == limit,
        r.has_next == (offset + limit < total),
        crate::ids::is_ulid_text(r.request_id@),
{
    PageResponse {
        request_id: crate::ids::new_ulid_string(),
        total_size: total,
        offset,
        limit,
        has_next: offset + limit < total,
    }
}

} // verus!
