use book_api::access::DataAccess;
use book_api::access::MemoryDataAccess;
use book_api::handler::create_response;
use book_api::handler::delete_response;
use book_api::handler::get_response;
use book_api::handler::handle_create;
use book_api::handler::handle_delete;
use book_api::handler::handle_get;
use book_api::handler::handle_list;
use book_api::handler::list_response;
use book_api::handler::require_isbn;
use book_api::outcome::delete_outcome;
use book_api::outcome::get_outcome;
use book_api::outcome::put_outcome;
use book_api::outcome::scan_outcome;
use book_api::outcome::DataError;
use book_api::outcome::StoreError;

#[test]
fn missing_isbn_is_rejected_before_any_operation() {
    let mut store = MemoryDataAccess::new();

    let resp = handle_create(&mut store, None, "{}".to_string());
    assert_eq!(resp.status, 400);
    assert_eq!(resp.body, "isbn is required");

    let resp = handle_get(&mut store, None);
    assert_eq!(resp.status, 400);
    assert_eq!(resp.body, "isbn is required");

    let resp = handle_delete(&mut store, None);
    assert_eq!(resp.status, 400);
    assert_eq!(resp.body, "isbn is required");

    assert_eq!(store.calls_create, 0);
    assert_eq!(store.calls_get, 0);
    assert_eq!(store.calls_list, 0);
    assert_eq!(store.calls_delete, 0);
}

#[test]
fn require_isbn_passes_a_present_key_through() {
    match require_isbn(Some("978-1".to_string())) {
        Ok(key) => assert_eq!(key, "978-1"),
        Err(_) => panic!("a present isbn must pass through"),
    }
    let rejected = require_isbn(None);
    assert!(rejected.is_err());
}

#[test]
fn handlers_map_success_to_their_statuses() {
    let mut store = MemoryDataAccess::new();

    let resp = handle_create(&mut store, Some("978-1".to_string()), "{\"t\":1}".to_string());
    assert_eq!(resp.status, 201);
    assert_eq!(resp.body, "item saved");

    let resp = handle_get(&mut store, Some("978-1".to_string()));
    assert_eq!(resp.status, 200);
    assert_eq!(resp.body, "{\"t\":1}");

    let resp = handle_list(&mut store);
    assert_eq!(resp.status, 200);
    assert_eq!(resp.body, "[{\"t\":1}]");

    let resp = handle_delete(&mut store, Some("978-1".to_string()));
    assert_eq!(resp.status, 204);
    assert_eq!(resp.body, "item deleted");
}

#[test]
fn handlers_map_failures_to_internal_error() {
    let mut store = MemoryDataAccess::new();
    store.fail_create = true;
    store.fail_get = true;
    store.fail_list = true;
    store.fail_delete = true;

    let resp = handle_create(&mut store, Some("k".to_string()), "{}".to_string());
    assert_eq!(resp.status, 500);
    assert_eq!(resp.body, "internal error");

    let resp = handle_get(&mut store, Some("k".to_string()));
    assert_eq!(resp.status, 500);
    assert_eq!(resp.body, "internal error");

    let resp = handle_list(&mut store);
    assert_eq!(resp.status, 500);
    assert_eq!(resp.body, "internal error");

    let resp = handle_delete(&mut store, Some("k".to_string()));
    assert_eq!(resp.status, 500);
    assert_eq!(resp.body, "internal error");

    assert_eq!(store.calls_create, 1);
    assert_eq!(store.calls_get, 1);
    assert_eq!(store.calls_list, 1);
    assert_eq!(store.calls_delete, 1);
}

#[test]
fn get_on_missing_record_is_internal_error() {
    let mut store = MemoryDataAccess::new();
    let resp = handle_get(&mut store, Some("absent".to_string()));
    assert_eq!(resp.status, 500);
    assert_eq!(resp.body, "internal error");
}

#[test]
fn response_mappers_give_exact_replies() {
    let resp = create_response(Ok(()));
    assert_eq!((resp.status, resp.body), (201, "item saved".to_string()));
    let resp = create_response(Err(DataError));
    assert_eq!((resp.status, resp.body), (500, "internal error".to_string()));

    let resp = get_response(Ok("{\"x\":9}".to_string()));
    assert_eq!((resp.status, resp.body), (200, "{\"x\":9}".to_string()));
    let resp = get_response(Err(DataError));
    assert_eq!((resp.status, resp.body), (500, "internal error".to_string()));

    let resp = list_response(Ok("[]".to_string()));
    assert_eq!((resp.status, resp.body), (200, "[]".to_string()));
    let resp = list_response(Err(DataError));
    assert_eq!((resp.status, resp.body), (500, "internal error".to_string()));

    let resp = delete_response(Ok(()));
    assert_eq!((resp.status, resp.body), (204, "item deleted".to_string()));
    let resp = delete_response(Err(DataError));
    assert_eq!((resp.status, resp.body), (500, "internal error".to_string()));
}

#[test]
fn put_outcome_collapses_store_failures() {
    assert_eq!(put_outcome(Ok(())), Ok(()));
    assert_eq!(put_outcome(Err(StoreError)), Err(DataError));
}

#[test]
fn get_outcome_collapses_absence_into_failure() {
    assert_eq!(get_outcome(Ok(Some("payload".to_string()))), Ok("payload".to_string()));
    assert_eq!(get_outcome(Ok(None)), Err(DataError));
    assert_eq!(get_outcome(Err(StoreError)), Err(DataError));
}

#[test]
fn scan_outcome_renders_and_filters() {
    let scanned = vec![
        Some("{\"title\": \"A\"}".to_string()),
        None,
        Some("not json".to_string()),
        Some("[1, 2]".to_string()),
    ];
    assert_eq!(scan_outcome(Ok(scanned)), Ok("[{\"title\":\"A\"},[1,2]]".to_string()));
    assert_eq!(scan_outcome(Ok(Vec::new())), Ok("[]".to_string()));
    assert_eq!(scan_outcome(Err(StoreError)), Err(DataError));
}

#[test]
fn delete_outcome_collapses_store_failures() {
    assert_eq!(delete_outcome(Ok(())), Ok(()));
    assert_eq!(delete_outcome(Err(StoreError)), Err(DataError));
}
