use book_api::access::DataAccess;
use book_api::access::MemoryDataAccess;

#[test]
fn round_trip_create_get() {
    let mut store = MemoryDataAccess::new();
    let r = store.create("978-1".to_string(), "{\"title\":\"Dune\"}".to_string());
    assert_eq!(r, Ok(()));
    let g = store.get("978-1".to_string());
    assert_eq!(g, Ok("{\"title\":\"Dune\"}".to_string()));
}

#[test]
fn round_trip_keeps_payload_unvalidated() {
    let mut store = MemoryDataAccess::new();
    assert_eq!(store.create("k".to_string(), "not json".to_string()), Ok(()));
    assert_eq!(store.get("k".to_string()), Ok("not json".to_string()));
}

#[test]
fn create_overwrites_silently() {
    let mut store = MemoryDataAccess::new();
    assert_eq!(store.create("k".to_string(), "{\"v\":1}".to_string()), Ok(()));
    assert_eq!(store.create("k".to_string(), "{\"v\":2}".to_string()), Ok(()));
    assert_eq!(store.get("k".to_string()), Ok("{\"v\":2}".to_string()));
    assert_eq!(store.list(), Ok("[{\"v\":2}]".to_string()));
}

#[test]
fn delete_twice_succeeds() {
    let mut store = MemoryDataAccess::new();
    assert_eq!(store.create("978-1".to_string(), "{}".to_string()), Ok(()));
    assert_eq!(store.delete("978-1".to_string()), Ok(()));
    assert_eq!(store.delete("978-1".to_string()), Ok(()));
}

#[test]
fn delete_absent_key_succeeds() {
    let mut store = MemoryDataAccess::new();
    assert_eq!(store.delete("never-created".to_string()), Ok(()));
}

#[test]
fn get_missing_fails() {
    let mut store = MemoryDataAccess::new();
    assert!(store.get("never-created".to_string()).is_err());
}

#[test]
fn list_empty_store() {
    let mut store = MemoryDataAccess::new();
    assert_eq!(store.list(), Ok("[]".to_string()));
}

#[test]
fn list_all_entries_filtered_is_still_success() {
    let mut store = MemoryDataAccess::new();
    assert_eq!(store.create("k".to_string(), "not json".to_string()), Ok(()));
    assert_eq!(store.list(), Ok("[]".to_string()));
}

#[test]
fn list_drops_malformed_silently() {
    let mut store = MemoryDataAccess::new();
    assert_eq!(store.create("k1".to_string(), "{\"title\":\"A\"}".to_string()), Ok(()));
    assert_eq!(store.create("k2".to_string(), "not json".to_string()), Ok(()));
    assert_eq!(store.list(), Ok("[{\"title\":\"A\"}]".to_string()));
}

#[test]
fn list_renders_canonical_form() {
    let mut store = MemoryDataAccess::new();
    assert_eq!(
        store.create("k".to_string(), "{\"title\":   \"A\"}".to_string()),
        Ok(())
    );
    assert_eq!(store.list(), Ok("[{\"title\":\"A\"}]".to_string()));
}

#[test]
fn list_keeps_scan_order() {
    let mut store = MemoryDataAccess::new();
    assert_eq!(store.create("a".to_string(), "{\"n\":1}".to_string()), Ok(()));
    assert_eq!(store.create("b".to_string(), "2".to_string()), Ok(()));
    assert_eq!(store.create("c".to_string(), "\"three\"".to_string()), Ok(()));
    assert_eq!(store.list(), Ok("[{\"n\":1},2,\"three\"]".to_string()));
}

#[test]
fn full_scenario() {
    let mut store = MemoryDataAccess::new();
    assert_eq!(
        store.create("978-1".to_string(), "{\"title\":\"Dune\"}".to_string()),
        Ok(())
    );
    assert_eq!(store.get("978-1".to_string()), Ok("{\"title\":\"Dune\"}".to_string()));
    assert_eq!(store.list(), Ok("[{\"title\":\"Dune\"}]".to_string()));
    assert_eq!(store.delete("978-1".to_string()), Ok(()));
    assert!(store.get("978-1".to_string()).is_err());
}

#[test]
fn create_failure_surfaces_after_one_attempt() {
    let mut store = MemoryDataAccess::new();
    store.fail_create = true;
    assert!(store.create("k".to_string(), "{}".to_string()).is_err());
    assert_eq!(store.calls_create, 1);
    assert_eq!(store.calls_get, 0);
    assert_eq!(store.calls_list, 0);
    assert_eq!(store.calls_delete, 0);
}

#[test]
fn get_failure_surfaces_after_one_attempt() {
    let mut store = MemoryDataAccess::new();
    assert_eq!(store.create("k".to_string(), "{}".to_string()), Ok(()));
    store.fail_get = true;
    assert!(store.get("k".to_string()).is_err());
    assert_eq!(store.calls_get, 1);
}

#[test]
fn list_failure_surfaces_after_one_attempt() {
    let mut store = MemoryDataAccess::new();
    store.fail_list = true;
    assert!(store.list().is_err());
    assert_eq!(store.calls_list, 1);
}

#[test]
fn delete_failure_surfaces_after_one_attempt() {
    let mut store = MemoryDataAccess::new();
    store.fail_delete = true;
    assert!(store.delete("k".to_string()).is_err());
    assert_eq!(store.calls_delete, 1);
}

#[test]
fn failure_leaves_records_unchanged() {
    let mut store = MemoryDataAccess::new();
    assert_eq!(store.create("k".to_string(), "{\"v\":1}".to_string()), Ok(()));
    store.fail_create = true;
    assert!(store.create("k".to_string(), "{\"v\":2}".to_string()).is_err());
    store.fail_delete = true;
    assert!(store.delete("k".to_string()).is_err());
    store.fail_create = false;
    store.fail_delete = false;
    assert_eq!(store.get("k".to_string()), Ok("{\"v\":1}".to_string()));
}
