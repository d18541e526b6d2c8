use discotech::decoder::decode_member;
use discotech::poller::PollerState;
use discotech::store::Serverset;

fn member(host: &str, port: u16) -> discotech::record::ServersetMember {
    let text = format!(
        "{{\"serviceEndpoint\": {{\"host\": \"{}\", \"port\": {}}}, \"additionalEndpoints\": {{}}, \"status\": \"ALIVE\"}}",
        host, port
    );
    decode_member(text.as_bytes()).unwrap()
}

#[test]
fn new_store_is_empty() {
    let set = Serverset::new();
    assert!(set.ids().is_empty());
    assert!(set.lookup(&"a".to_string()).is_none());
}

#[test]
fn upsert_publishes_and_replaces() {
    let mut set = Serverset::new();
    set.upsert("a".to_string(), member("h1", 1));
    assert_eq!(set.lookup(&"a".to_string()).unwrap().service_endpoint.port, 1);

    set.upsert("a".to_string(), member("h1", 2));
    assert_eq!(set.lookup(&"a".to_string()).unwrap().service_endpoint.port, 2);
    assert_eq!(set.ids().len(), 1);
}

#[test]
fn remove_drops_only_the_given_id() {
    let mut set = Serverset::new();
    set.upsert("a".to_string(), member("h1", 1));
    set.upsert("b".to_string(), member("h2", 2));
    set.remove(&"a".to_string());
    assert!(set.lookup(&"a".to_string()).is_none());
    assert!(set.lookup(&"b".to_string()).is_some());

    // removing an id the store does not hold changes nothing
    set.remove(&"zzz".to_string());
    assert_eq!(set.ids().len(), 1);
}

#[test]
fn ids_lists_each_member_once() {
    let mut set = Serverset::new();
    set.upsert("a".to_string(), member("h1", 1));
    set.upsert("b".to_string(), member("h2", 2));
    set.upsert("a".to_string(), member("h3", 3));
    let mut ids = set.ids();
    ids.sort();
    assert_eq!(ids, vec!["a".to_string(), "b".to_string()]);
}

#[test]
fn poller_alternates_between_states() {
    let idle = PollerState::start();
    assert_eq!(idle, PollerState::Idle);
    let running = idle.begin_cycle();
    assert_eq!(running, PollerState::Running);
    let idle_again = running.end_cycle();
    assert_eq!(idle_again, PollerState::Idle);
}
