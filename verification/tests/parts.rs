use prometheus_sd::connect::{
    connect_policy, is_alive, RetryPolicy, ATTEMPT_TIMEOUT_SECS, DEFAULT_BACKEND_URL,
    DEFAULT_MAX_TIMEOUT_SECS, PROBE_COMMAND,
};
use prometheus_sd::discovery::RegisteredService;
use prometheus_sd::monitor::{Monitor, MonitorAction, MonitorEvent, MonitorState};
use prometheus_sd::operation::Operation;
use prometheus_sd::store::MemoryStore;
use prometheus_sd::text::{decimal_string, has_prefix, text_eq, text_precedes};
use prometheus_sd::text_map::TextMap;
use prometheus_sd::text_set::TextSet;

#[test]
fn decimal_string_writes_numbers() {
    assert_eq!(decimal_string(0), "0");
    assert_eq!(decimal_string(7), "7");
    assert_eq!(decimal_string(10), "10");
    assert_eq!(decimal_string(8080), "8080");
    assert_eq!(decimal_string(65535), "65535");
    assert_eq!(decimal_string(1234567890), "1234567890");
    assert_eq!(decimal_string(u64::MAX), u64::MAX.to_string());
}

#[test]
fn text_comparisons_follow_the_bytes() {
    assert!(text_eq("abc", "abc"));
    assert!(!text_eq("abc", "abd"));
    assert!(!text_eq("abc", "ab"));
    assert!(text_eq("", ""));
    assert!(text_precedes("", "a"));
    assert!(text_precedes("a", "a"));
    assert!(text_precedes("a", "ab"));
    assert!(!text_precedes("ab", "a"));
    assert!(text_precedes("B", "a"));
    assert!(!text_precedes("b", "a"));
    assert!(text_precedes("z", "é"));
    for (a, b) in [("x", "y"), ("service-10", "service-9"), ("é", "e"), ("", "")] {
        assert_eq!(text_precedes(a, b), a <= b);
    }
}

#[test]
fn has_prefix_matches_from_the_start() {
    assert!(has_prefix("host1:8080/metrics", "host1"));
    assert!(has_prefix("host1:8080/metrics", ""));
    assert!(has_prefix("host1:8080/metrics", "host1:8080/metrics"));
    assert!(has_prefix("10.0.0.10:80/metrics", "10.0.0.1"));
    assert!(!has_prefix("host1", "host1:"));
    assert!(!has_prefix("host1:8080/metrics", "ost1"));
    assert!(!has_prefix("", "a"));
}

#[test]
fn text_set_keeps_members_once_and_in_order() {
    let mut set = TextSet::new();
    assert_eq!(set.len(), 0);
    assert!(set.insert("b".to_string()));
    assert!(set.insert("a".to_string()));
    assert!(!set.insert("b".to_string()));
    assert_eq!(set.to_vec(), vec!["b", "a"]);
    assert_eq!(set.position("a"), Some(1));
    assert_eq!(set.position("c"), None);
    assert_eq!(set.get(0), "b");
    assert!(set.contains("a"));
    assert!(!set.remove("c"));
    assert!(set.remove("b"));
    assert_eq!(set.to_vec(), vec!["a"]);
    assert_eq!(set.copy().to_vec(), vec!["a"]);
    let from = TextSet::from_vec(vec!["x".to_string(), "y".to_string(), "x".to_string()]);
    assert_eq!(from.to_vec(), vec!["x", "y"]);
}

#[test]
fn text_map_keeps_keys_once_and_in_order() {
    let mut map: TextMap<String> = TextMap::new();
    map.insert("k1".to_string(), "v1".to_string());
    map.insert("k2".to_string(), "v2".to_string());
    map.insert("k1".to_string(), "v3".to_string());
    assert_eq!(map.len(), 2);
    assert_eq!(map.key_at(0), "k1");
    assert_eq!(map.value_at(0), "v3");
    assert_eq!(map.get("k2"), Some(&"v2".to_string()));
    assert_eq!(map.get("k3"), None);
    assert!(map.contains_key("k1"));
    assert_eq!(map.position("k2"), Some(1));
    let copy = map.copy();
    assert_eq!(map.remove("k1"), Some("v3".to_string()));
    assert_eq!(map.remove("k1"), None);
    assert_eq!(map.len(), 1);
    assert_eq!(map.key_at(0), "k2");
    assert_eq!(copy.len(), 2);
    assert_eq!(copy.get("k1"), Some(&"v3".to_string()));
}

#[test]
fn memory_store_applies_each_kind_of_change() {
    let mut store = MemoryStore::new();
    store.apply_one(&Operation::SetAdd { key: "s".to_string(), member: "a".to_string() });
    store.apply_one(&Operation::SetAdd { key: "s".to_string(), member: "b".to_string() });
    store.apply_one(&Operation::SetRemove { key: "s".to_string(), member: "a".to_string() });
    store.apply_one(&Operation::SetRemove { key: "t".to_string(), member: "a".to_string() });
    assert_eq!(store.members("s").to_vec(), vec!["b"]);
    assert_eq!(store.members("t").len(), 0);
    assert!(store.is_member("s", "b"));
    assert!(!store.is_member("s", "a"));

    store.apply(&vec![
        Operation::HashSet { key: "h".to_string(), field: "f".to_string(), value: "1".to_string() },
        Operation::HashSetMany {
            key: "h".to_string(),
            fields: vec![
                ("g".to_string(), "2".to_string()),
                ("f".to_string(), "3".to_string()),
                ("g".to_string(), "4".to_string()),
            ],
        },
    ]);
    let hash = store.hash_get_all("h");
    assert_eq!(hash.len(), 2);
    assert_eq!(hash.get("f"), Some(&"3".to_string()));
    assert_eq!(hash.get("g"), Some(&"4".to_string()));

    store.apply_one(&Operation::Delete { key: "h".to_string() });
    store.apply_one(&Operation::Delete { key: "s".to_string() });
    assert_eq!(store.hash_get_all("h").len(), 0);
    assert_eq!(store.members("s").len(), 0);
}

#[test]
fn connect_policy_is_the_agreed_one() {
    let policy = connect_policy(DEFAULT_MAX_TIMEOUT_SECS);
    assert_eq!(
        policy,
        RetryPolicy {
            initial_interval_millis: 500,
            max_interval_secs: 15 * 60,
            multiplier_numerator: 3,
            multiplier_denominator: 2,
            max_elapsed_secs: 8 * 60 * 60,
            attempt_timeout_secs: 5 * 60,
        }
    );
    assert_eq!(connect_policy(60).max_elapsed_secs, 60);
    assert_eq!(ATTEMPT_TIMEOUT_SECS, 300);
    assert_eq!(DEFAULT_BACKEND_URL, "redis://localhost:6379");
    assert_eq!(PROBE_COMMAND, "PING");
}

#[test]
fn only_pong_shows_a_live_backend() {
    assert!(is_alive("PONG"));
    assert!(!is_alive("pong"));
    assert!(!is_alive(""));
    assert!(!is_alive("PONG "));
}

fn one_service() -> Vec<RegisteredService> {
    vec![RegisteredService::new(
        vec![("job".to_string(), "web".to_string())],
        vec!["host1:8080/metrics".to_string()],
    )]
}

#[test]
fn monitor_sets_up_then_cycles_once_per_notification() {
    let (mut monitor, first) = Monitor::start();
    assert!(matches!(first, MonitorAction::Connect));
    assert_eq!(monitor.state(), MonitorState::Connecting);
    match monitor.step(MonitorEvent::Connected) {
        MonitorAction::Configure { setting, value } => {
            assert_eq!(setting, "notify-keyspace-events");
            assert_eq!(value, "Ksh");
        }
        _ => panic!("expected the configuration"),
    }
    match monitor.step(MonitorEvent::Configured) {
        MonitorAction::Subscribe { pattern } => assert_eq!(pattern, "__keyspace@0__:prometheus_sd*"),
        _ => panic!("expected the subscription"),
    }
    assert!(matches!(monitor.step(MonitorEvent::Subscribed), MonitorAction::AwaitNotification));
    let mut writes = 0;
    for _ in 0..3 {
        assert_eq!(monitor.state(), MonitorState::Waiting);
        assert!(matches!(monitor.step(MonitorEvent::Notified), MonitorAction::ReadSnapshot));
        assert_eq!(monitor.state(), MonitorState::Reading);
        match monitor.step(MonitorEvent::SnapshotRead(one_service())) {
            MonitorAction::WriteSnapshot(services) => {
                writes += 1;
                assert_eq!(services.len(), 1);
                assert!(services[0].targets.contains("host1:8080/metrics"));
                assert_eq!(services[0].labels.get("job"), Some(&"web".to_string()));
            }
            _ => panic!("expected a write"),
        }
        assert_eq!(monitor.state(), MonitorState::Writing);
        assert!(matches!(monitor.step(MonitorEvent::Written), MonitorAction::AwaitNotification));
    }
    assert_eq!(writes, 3);
}

#[test]
fn monitor_stops_for_good_on_failure_or_event_out_of_turn() {
    let (mut monitor, _) = Monitor::start();
    monitor.step(MonitorEvent::Connected);
    monitor.step(MonitorEvent::Configured);
    monitor.step(MonitorEvent::Subscribed);
    monitor.step(MonitorEvent::Notified);
    assert!(matches!(monitor.step(MonitorEvent::Failed), MonitorAction::Stop));
    assert_eq!(monitor.state(), MonitorState::Stopped);
    assert!(matches!(monitor.step(MonitorEvent::Notified), MonitorAction::Stop));
    assert_eq!(monitor.state(), MonitorState::Stopped);

    let (mut early, _) = Monitor::start();
    assert!(matches!(early.step(MonitorEvent::Notified), MonitorAction::Stop));
    assert_eq!(early.state(), MonitorState::Stopped);

    let (mut waiting, _) = Monitor::start();
    waiting.step(MonitorEvent::Connected);
    waiting.step(MonitorEvent::Configured);
    waiting.step(MonitorEvent::Subscribed);
    assert!(matches!(waiting.step(MonitorEvent::Written), MonitorAction::Stop));
}
