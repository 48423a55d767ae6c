use microblog::service::{
    page_limit, respond_create, respond_delete, respond_list, respond_status, ApiResponse,
    DEFAULT_PAGE_LIMIT, MAX_PAGE_LIMIT,
};
use microblog::store::{StatusStore, StoreError};

fn sample() -> microblog::status::StatusPublic {
    let mut store = StatusStore::new();
    store
        .create_at(String::from("id"), String::from("body"), 7)
        .unwrap()
}

#[test]
fn success_outcomes_map_to_success_responses() {
    let p = sample();
    assert!(matches!(respond_create(Ok(p)), ApiResponse::Created(_)));
    let p = sample();
    assert!(matches!(respond_status(Ok(p)), ApiResponse::Okay(_)));
    assert!(matches!(respond_delete(Ok(())), ApiResponse::NoContent));
    assert!(matches!(respond_list(Vec::new(), None), ApiResponse::Page(_, None)));
}

#[test]
fn client_faults_map_to_distinct_client_errors() {
    assert!(matches!(
        respond_create(Err(StoreError::InvalidInput)),
        ApiResponse::BadRequest
    ));
    assert!(matches!(
        respond_status(Err(StoreError::NotFound)),
        ApiResponse::Missing
    ));
    assert!(matches!(
        respond_status(Err(StoreError::Conflict)),
        ApiResponse::EditConflict
    ));
    assert!(matches!(
        respond_delete(Err(StoreError::NotFound)),
        ApiResponse::Missing
    ));
}

#[test]
fn backend_faults_map_to_one_opaque_server_failure() {
    assert!(matches!(
        respond_status(Err(StoreError::Unavailable)),
        ApiResponse::ServerFailure
    ));
    assert!(matches!(
        respond_status(Err(StoreError::Internal)),
        ApiResponse::ServerFailure
    ));
    assert!(matches!(
        respond_create(Err(StoreError::Unavailable)),
        ApiResponse::ServerFailure
    ));
}

#[test]
fn page_limit_defaults_clamps_and_passes_through() {
    assert_eq!(page_limit(None), DEFAULT_PAGE_LIMIT);
    assert_eq!(page_limit(Some(0)), 1);
    assert_eq!(page_limit(Some(7)), 7);
    assert_eq!(page_limit(Some(100_000)), MAX_PAGE_LIMIT);
}
