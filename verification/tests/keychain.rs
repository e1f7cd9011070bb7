use pdf_reader_core::KeychainService;

#[test]
fn stored_key_can_be_read_back() {
    let mut kc = KeychainService::new();
    kc.store_key("openai", "test-key-1").unwrap();
    assert_eq!(kc.get_key("openai").unwrap(), "test-key-1");
}

#[test]
fn missing_key_reports_not_found() {
    let kc = KeychainService::new();
    let err = kc.get_key("nowhere").unwrap_err();
    assert_eq!(err.message(), "key not found for service");
}

#[test]
fn storing_twice_overwrites() {
    let mut kc = KeychainService::new();
    kc.store_key("svc", "first").unwrap();
    kc.store_key("svc", "second").unwrap();
    assert_eq!(kc.get_key("svc").unwrap(), "second");
    assert_eq!(kc.list_services().unwrap().len(), 1);
}

#[test]
fn delete_removes_exactly_the_named_service() {
    let mut kc = KeychainService::new();
    kc.store_key("a", "1").unwrap();
    kc.store_key("b", "2").unwrap();
    kc.delete_key("a").unwrap();
    assert!(!kc.has_key("a"));
    assert!(kc.has_key("b"));
}

#[test]
fn deleting_a_missing_key_fails_and_changes_nothing() {
    let mut kc = KeychainService::new();
    kc.store_key("a", "1").unwrap();
    assert!(kc.delete_key("zzz").is_err());
    assert!(kc.has_key("a"));
}

#[test]
fn has_key_tracks_store_and_delete() {
    let mut kc = KeychainService::new();
    assert!(!kc.has_key("svc"));
    kc.store_key("svc", "k").unwrap();
    assert!(kc.has_key("svc"));
    kc.delete_key("svc").unwrap();
    assert!(!kc.has_key("svc"));
}

#[test]
fn list_services_names_every_stored_service_once() {
    let mut kc = KeychainService::new();
    kc.store_key("one", "1").unwrap();
    kc.store_key("two", "2").unwrap();
    kc.store_key("three", "3").unwrap();
    let mut names = kc.list_services().unwrap();
    names.sort();
    assert_eq!(names, vec!["one".to_string(), "three".to_string(), "two".to_string()]);
}
