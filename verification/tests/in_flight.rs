use local_agents_ops::in_flight::InFlight;

#[test]
fn a_handle_is_handed_out_once() {
    let mut requests: InFlight<u32> = InFlight::new();
    assert_eq!(requests.remove("a"), None);
    requests.insert("a".to_string(), 1);
    requests.insert("b".to_string(), 2);
    requests.insert("c".to_string(), 3);
    assert_eq!(requests.remove("b"), Some(2));
    assert_eq!(requests.remove("b"), None);
    assert_eq!(requests.remove("a"), Some(1));
    assert_eq!(requests.remove("c"), Some(3));
}

#[test]
fn an_id_that_comes_again_replaces_its_handle() {
    let mut requests: InFlight<&str> = InFlight::new();
    requests.insert("a".to_string(), "old");
    requests.insert("b".to_string(), "other");
    requests.insert("a".to_string(), "new");
    assert_eq!(requests.remove("a"), Some("new"));
    assert_eq!(requests.remove("a"), None);
    assert_eq!(requests.remove("b"), Some("other"));
}
