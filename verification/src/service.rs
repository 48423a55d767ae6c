//! The service facade: translates store outcomes into external response
//! shapes. Client faults map to distinct client errors; backend faults
//! map to one generic server failure that leaks no detail.

use vstd::prelude::*;
use crate::status::StatusPublic;
use crate::store::{Cursor, StoreError};

verus! {

/// The page size when the caller asks for none.
pub const DEFAULT_PAGE_LIMIT: usize = 20;

/// The largest page size a caller may ask for.
pub const MAX_PAGE_LIMIT: usize = 100;

/// An externally visible outcome. Success carries the projection
/// payload; the server-failure outcome deliberately carries nothing.
#[derive(Debug)]
pub enum ApiResponse {
    /// A status was created: the projection, whose identifier points at
    /// the new resource.
    Created(StatusPublic),
    /// A read or update succeeded: the current projection.
    Okay(StatusPublic),
    /// A list succeeded: one page and, when more records follow, the
    /// cursor to resume with.
    Page(Vec<StatusPublic>, Option<Cursor>),
    /// A delete succeeded: nothing to return.
    NoContent,
    /// The request body was rejected.
    BadRequest,
    /// No live record carries that identifier.
    Missing,
    /// The record changed since the caller last read it.
    EditConflict,
    /// The backend failed; no internal detail is exposed.
    ServerFailure,
}

/// How every store error is shown to the outside.
pub open spec fn error_response(e: StoreError) -> ApiResponse {
    match e {
        StoreError::InvalidInput => ApiResponse::BadRequest,
        StoreError::NotFound => ApiResponse::Missing,
        StoreError::Conflict => ApiResponse::EditConflict,
        StoreError::Unavailable => ApiResponse::ServerFailure,
        StoreError::Internal => ApiResponse::ServerFailure,
    }
}

/// Translate one store error.
fn map_error(e: StoreError) -> (r: ApiResponse)
    ensures
        r == error_response(e),
{
    match e {
        StoreError::InvalidInput => ApiResponse::BadRequest,
        StoreError::NotFound => ApiResponse::Missing,
        StoreError::Conflict => ApiResponse::EditConflict,
        StoreError::Unavailable => ApiResponse::ServerFailure,
        StoreError::Internal => ApiResponse::ServerFailure,
    }
}

/// Translate a create outcome: success answers as created.
pub fn respond_create(r: Result<StatusPublic, StoreError>) -> (resp: ApiResponse)
    ensures
        match r {
            Ok(p) => resp == ApiResponse::Created(p),
            Err(e) => resp == error_response(e),
        },
{
    match r {
        Ok(p) => ApiResponse::Created(p),
        Err(e) => map_error(e),
    }
}

/// Translate a read or update outcome: success answers with the
/// projection.
pub fn respond_status(r: Result<StatusPublic, StoreError>) -> (resp: ApiResponse)
    ensures
        match r {
            Ok(p) => resp == ApiResponse::Okay(p),
            Err(e) => resp == error_response(e),
        },
{
    match r {
        Ok(p) => ApiResponse::Okay(p),
        Err(e) => map_error(e),
    }
}

/// Translate a delete outcome: success answers with no body.
pub fn respond_delete(r: Result<(), StoreError>) -> (resp: ApiResponse)
    ensures
        match r {
            Ok(u) => resp == ApiResponse::NoContent,
            Err(e) => resp == error_response(e),
        },
{
    match r {
        Ok(_) => ApiResponse::NoContent,
        Err(e) => map_error(e),
    }
}

/// Translate a list outcome: the page and its resume cursor.
pub fn respond_list(page: Vec<StatusPublic>, next: Option<Cursor>) -> (resp: ApiResponse)
    ensures
        resp == ApiResponse::Page(page, next),
{
    ApiResponse::Page(page, next)
}

/// The effective page size for a request: the default when none was
/// asked for, at least one, and never above the cap.
pub fn page_limit(requested: Option<usize>) -> (l: usize)
    ensures
        1 <= l <= MAX_PAGE_LIMIT,
        match requested {
            None => l == DEFAULT_PAGE_LIMIT,
            Some(w) => l == (if w == 0 {
                1int
            } else if w > MAX_PAGE_LIMIT {
                MAX_PAGE_LIMIT as int
            } else {
                w as int
            }),
        },
{
    match requested {
        None => DEFAULT_PAGE_LIMIT,
        Some(w) => {
            if w == 0 {
                1
            } else if w > MAX_PAGE_LIMIT {
                MAX_PAGE_LIMIT
            } else {
                w
            }
        },
    }
}

} // verus!
