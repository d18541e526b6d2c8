use discotech::reconcile::FetchOutcome;
use discotech::store::Serverset;

fn payload(host: &str, port: u16, status: &str) -> FetchOutcome {
    let text = format!(
        "{{\"serviceEndpoint\": {{\"host\": \"{}\", \"port\": {}}}, \"additionalEndpoints\": {{}}, \"status\": \"{}\"}}",
        host, port, status
    );
    FetchOutcome::Payload(text.into_bytes())
}

#[test]
fn alive_child_published_dead_child_absent() {
    let mut set = Serverset::new();
    let listing = vec!["a".to_string(), "b".to_string()];
    let fetches = vec![payload("h1", 1, "ALIVE"), payload("h2", 2, "DEAD")];
    set.run_cycle(Some(&listing), &fetches);
    let a = set.lookup(&"a".to_string()).expect("a should be published");
    assert_eq!(a.service_endpoint.host, "h1");
    assert_eq!(a.service_endpoint.port, 1);
    assert!(set.lookup(&"b".to_string()).is_none());
}

#[test]
fn deleted_child_removed_next_cycle() {
    let mut set = Serverset::new();
    let listing = vec!["a".to_string()];
    let fetches = vec![payload("h1", 1, "ALIVE")];
    set.run_cycle(Some(&listing), &fetches);
    assert!(set.lookup(&"a".to_string()).is_some());

    let empty_listing: Vec<String> = Vec::new();
    let no_fetches: Vec<FetchOutcome> = Vec::new();
    set.run_cycle(Some(&empty_listing), &no_fetches);
    assert!(set.lookup(&"a".to_string()).is_none());
    assert!(set.ids().is_empty());
}

#[test]
fn malformed_child_skipped_others_unaffected() {
    let mut set = Serverset::new();
    let listing = vec!["a".to_string(), "c".to_string()];
    let fetches = vec![
        payload("h1", 1, "ALIVE"),
        FetchOutcome::Payload(b"{ not json".to_vec()),
    ];
    set.run_cycle(Some(&listing), &fetches);
    assert!(set.lookup(&"c".to_string()).is_none());
    let a = set.lookup(&"a".to_string()).expect("a should be published");
    assert_eq!(a.service_endpoint.host, "h1");
}

#[test]
fn failed_listing_leaves_snapshot_unchanged() {
    let mut set = Serverset::new();
    let listing = vec!["a".to_string()];
    set.run_cycle(Some(&listing), &vec![payload("h1", 1, "ALIVE")]);

    set.run_cycle(None, &Vec::new());
    let a = set.lookup(&"a".to_string()).expect("a should still be published");
    assert_eq!(a.service_endpoint.host, "h1");
    assert_eq!(a.service_endpoint.port, 1);
    assert_eq!(set.ids().len(), 1);
}

#[test]
fn failed_fetch_isolated_from_other_children() {
    let mut set = Serverset::new();
    let listing = vec!["a".to_string(), "b".to_string()];
    set.run_cycle(
        Some(&listing),
        &vec![payload("h1", 1, "ALIVE"), payload("h2", 2, "ALIVE")],
    );

    // b's fetch fails this cycle: a's fresh record still lands, and b's
    // prior record stays as a stale entry until a later cycle corrects it.
    set.run_cycle(
        Some(&listing),
        &vec![payload("h1", 10, "ALIVE"), FetchOutcome::Failed],
    );
    let a = set.lookup(&"a".to_string()).expect("a should be published");
    assert_eq!(a.service_endpoint.port, 10);
    let b = set.lookup(&"b".to_string()).expect("b should keep its prior record");
    assert_eq!(b.service_endpoint.port, 2);
}

#[test]
fn vanished_node_not_inserted() {
    let mut set = Serverset::new();
    let listing = vec!["a".to_string(), "gone".to_string()];
    set.run_cycle(
        Some(&listing),
        &vec![payload("h1", 1, "ALIVE"), FetchOutcome::Absent],
    );
    assert!(set.lookup(&"gone".to_string()).is_none());
    assert!(set.lookup(&"a".to_string()).is_some());
}

#[test]
fn unchanged_store_cycle_is_idempotent() {
    let mut set = Serverset::new();
    let listing = vec!["a".to_string(), "b".to_string(), "c".to_string()];
    let fetches = vec![
        payload("h1", 1, "ALIVE"),
        payload("h2", 2, "DEAD"),
        FetchOutcome::Failed,
    ];
    set.run_cycle(Some(&listing), &fetches);
    let ids_once = set.ids();
    let a_once = set.lookup(&"a".to_string()).unwrap().service_endpoint.port;

    set.run_cycle(Some(&listing), &fetches);
    let ids_twice = set.ids();
    assert_eq!(ids_once, ids_twice);
    assert_eq!(set.lookup(&"a".to_string()).unwrap().service_endpoint.port, a_once);
    assert!(set.lookup(&"b".to_string()).is_none());
    assert!(set.lookup(&"c".to_string()).is_none());
}

#[test]
fn replaced_record_published_wholesale() {
    let mut set = Serverset::new();
    let listing = vec!["a".to_string()];
    set.run_cycle(Some(&listing), &vec![payload("h1", 1, "ALIVE")]);
    set.run_cycle(Some(&listing), &vec![payload("h9", 9, "ALIVE")]);
    let a = set.lookup(&"a".to_string()).unwrap();
    assert_eq!(a.service_endpoint.host, "h9");
    assert_eq!(a.service_endpoint.port, 9);
    assert_eq!(set.ids().len(), 1);
}
