use prometheus_sd::discovery::{sorted_keys, RegisteredService};
use prometheus_sd::error::RegistryError;
use prometheus_sd::instance::ServiceInstance;
use prometheus_sd::store::MemoryStore;

fn targets_of(service: &RegisteredService) -> Vec<String> {
    let mut targets = service.targets.to_vec();
    targets.sort();
    targets
}

fn labels_of(service: &RegisteredService) -> Vec<(String, String)> {
    let mut labels = Vec::new();
    for i in 0..service.labels.len() {
        labels.push((service.labels.key_at(i).clone(), service.labels.value_at(i).clone()));
    }
    labels.sort();
    labels
}

fn pair(key: &str, value: &str) -> (String, String) {
    (key.to_string(), value.to_string())
}

#[test]
fn register_then_discover_lists_the_service() {
    let mut store = MemoryStore::new();
    store.register(&ServiceInstance::new("api", "10.0.0.7", 9100));
    let services = store.discover();
    assert_eq!(services.len(), 1);
    assert!(services[0].targets.contains("10.0.0.7:9100/metrics"));
    assert_eq!(services[0].labels.get("job"), Some(&"api".to_string()));
    assert!(store.is_member("prometheus_sd_service_keys", "api"));
    assert!(store.is_member("prometheus_sd:api:targets", "10.0.0.7:9100/metrics"));
}

#[test]
fn register_with_job_name_labels_and_path() {
    let mut store = MemoryStore::new();
    let instance = ServiceInstance::new("api", "node1", 80)
        .with_job_name("frontend")
        .with_metrics_path("/probe")
        .with_label("env", "prod")
        .with_label("zone", "a");
    store.register(&instance);
    let services = store.discover();
    assert_eq!(services.len(), 1);
    assert_eq!(targets_of(&services[0]), vec!["node1:80/probe".to_string()]);
    assert_eq!(
        labels_of(&services[0]),
        vec![pair("env", "prod"), pair("job", "frontend"), pair("zone", "a")]
    );
}

#[test]
fn own_label_named_job_replaces_the_job_name() {
    let mut store = MemoryStore::new();
    let instance = ServiceInstance::new("api", "node1", 80).with_label("job", "other");
    store.register(&instance);
    let services = store.discover();
    assert_eq!(labels_of(&services[0]), vec![pair("job", "other")]);
}

#[test]
fn two_hosts_give_one_service_with_both_targets() {
    let mut store = MemoryStore::new();
    store.register(&ServiceInstance::new("web", "host1", 8080));
    store.register(&ServiceInstance::new("web", "host2", 8080));
    let services = store.discover();
    assert_eq!(services.len(), 1);
    assert_eq!(
        targets_of(&services[0]),
        vec!["host1:8080/metrics".to_string(), "host2:8080/metrics".to_string()]
    );
}

#[test]
fn same_instance_twice_gives_no_second_target() {
    let mut store = MemoryStore::new();
    store.register(&ServiceInstance::new("web", "host1", 8080));
    store.register(&ServiceInstance::new("web", "host1", 8080));
    let services = store.discover();
    assert_eq!(services.len(), 1);
    assert_eq!(services[0].targets.len(), 1);
    assert_eq!(targets_of(&services[0]), vec!["host1:8080/metrics".to_string()]);
    assert_eq!(labels_of(&services[0]), vec![pair("job", "web")]);
}

#[test]
fn unregister_sole_target_removes_the_service() {
    let mut store = MemoryStore::new();
    store.register(&ServiceInstance::new("web", "host1", 8080));
    store.register(&ServiceInstance::new("db", "host9", 5432));
    assert!(store.unregister("web", Some("host1")).is_ok());
    let services = store.discover();
    assert_eq!(services.len(), 1);
    assert_eq!(labels_of(&services[0]), vec![pair("job", "db")]);
    assert!(!store.is_member("prometheus_sd_service_keys", "web"));
    assert_eq!(store.members("prometheus_sd:web:targets").len(), 0);
    assert_eq!(store.hash_get_all("prometheus_sd:web:labels").len(), 0);
}

#[test]
fn unregister_one_of_two_leaves_the_other() {
    let mut store = MemoryStore::new();
    let first = ServiceInstance::new("web", "host1", 8080).with_label("env", "prod");
    store.register(&first);
    store.register(&ServiceInstance::new("web", "host2", 8080));
    assert!(store.unregister("web", Some("host2")).is_ok());
    let services = store.discover();
    assert_eq!(services.len(), 1);
    assert_eq!(targets_of(&services[0]), vec!["host1:8080/metrics".to_string()]);
    assert_eq!(labels_of(&services[0]), vec![pair("env", "prod"), pair("job", "web")]);
    assert!(store.is_member("prometheus_sd_service_keys", "web"));
}

#[test]
fn unregister_unknown_service_fails() {
    let mut store = MemoryStore::new();
    store.register(&ServiceInstance::new("web", "host1", 8080));
    match store.unregister("mail", None) {
        Err(RegistryError::NoSuchService { service }) => assert_eq!(service, "mail"),
        other => panic!("unexpected: {:?}", other),
    }
    match store.unregister("mail", Some("host1")) {
        Err(RegistryError::NoSuchService { service }) => assert_eq!(service, "mail"),
        other => panic!("unexpected: {:?}", other),
    }
    assert_eq!(store.discover().len(), 1);
}

#[test]
fn unregister_unknown_host_fails() {
    let mut store = MemoryStore::new();
    store.register(&ServiceInstance::new("web", "host1", 8080));
    match store.unregister("web", Some("host2")) {
        Err(RegistryError::NoSuchHost { service, host }) => {
            assert_eq!(service, "web");
            assert_eq!(host, "host2");
        }
        other => panic!("unexpected: {:?}", other),
    }
    let services = store.discover();
    assert_eq!(services.len(), 1);
    assert_eq!(targets_of(&services[0]), vec!["host1:8080/metrics".to_string()]);
}

#[test]
fn host_prefix_is_matched_without_regard_to_boundaries() {
    let mut store = MemoryStore::new();
    store.register(&ServiceInstance::new("web", "10.0.0.10", 80));
    assert!(store.unregister("web", Some("10.0.0.1")).is_ok());
    assert_eq!(store.discover().len(), 0);
}

#[test]
fn discover_is_sorted_by_service_key() {
    let mut store = MemoryStore::new();
    for name in ["zeta", "alpha", "mid", "Beta", "alpha2"] {
        store.register(&ServiceInstance::new(name, "h", 1));
    }
    let jobs: Vec<String> = store
        .discover()
        .iter()
        .map(|s| s.labels.get("job").unwrap().clone())
        .collect();
    assert_eq!(jobs, vec!["Beta", "alpha", "alpha2", "mid", "zeta"]);

    let mut other = MemoryStore::new();
    for name in ["alpha2", "mid", "Beta", "zeta", "alpha"] {
        other.register(&ServiceInstance::new(name, "h", 1));
    }
    let again: Vec<String> = other
        .discover()
        .iter()
        .map(|s| s.labels.get("job").unwrap().clone())
        .collect();
    assert_eq!(again, jobs);
}

#[test]
fn register_unregister_scenario() {
    let mut store = MemoryStore::new();
    store.register(&ServiceInstance::new("web", "host1", 8080));
    store.register(&ServiceInstance::new("web", "host2", 8080));
    let services = store.discover();
    assert_eq!(services.len(), 1);
    assert_eq!(labels_of(&services[0]), vec![pair("job", "web")]);
    assert_eq!(
        targets_of(&services[0]),
        vec!["host1:8080/metrics".to_string(), "host2:8080/metrics".to_string()]
    );

    assert!(store.unregister("web", Some("host1")).is_ok());
    let services = store.discover();
    assert_eq!(services.len(), 1);
    assert_eq!(labels_of(&services[0]), vec![pair("job", "web")]);
    assert_eq!(targets_of(&services[0]), vec!["host2:8080/metrics".to_string()]);

    assert!(store.unregister("web", None).is_ok());
    assert_eq!(store.discover().len(), 0);
}

#[test]
fn empty_store_has_empty_snapshot() {
    let store = MemoryStore::new();
    assert_eq!(store.discover().len(), 0);
    assert_eq!(store.members("prometheus_sd_service_keys").len(), 0);
}

#[test]
fn sorted_keys_orders_by_bytes_and_keeps_repeats() {
    let keys: Vec<String> = ["b", "a", "ab", "", "B", "a", "é", "z"]
        .iter()
        .map(|s| s.to_string())
        .collect();
    let sorted = sorted_keys(&keys);
    let mut expected = keys.clone();
    expected.sort();
    assert_eq!(sorted, expected);
    assert_eq!(sorted, vec!["", "B", "a", "a", "ab", "b", "z", "é"]);
}

#[test]
fn registered_service_from_backend_answers() {
    let service = RegisteredService::new(
        vec![pair("job", "web"), pair("env", "test"), pair("job", "web2")],
        vec!["a:1/m".to_string(), "b:1/m".to_string(), "a:1/m".to_string()],
    );
    assert_eq!(labels_of(&service), vec![pair("env", "test"), pair("job", "web2")]);
    assert_eq!(targets_of(&service), vec!["a:1/m".to_string(), "b:1/m".to_string()]);
}

#[test]
fn parts_give_the_service_back() {
    let service = RegisteredService::new(
        vec![pair("job", "web"), pair("env", "test"), pair("job", "web2")],
        vec!["b:1/m".to_string(), "a:1/m".to_string(), "b:1/m".to_string()],
    );
    let (labels, targets) = service.parts();
    assert_eq!(labels, vec![pair("job", "web2"), pair("env", "test")]);
    assert_eq!(targets, vec!["b:1/m".to_string(), "a:1/m".to_string()]);
    let again = RegisteredService::new(labels, targets);
    assert_eq!(labels_of(&again), labels_of(&service));
    assert_eq!(targets_of(&again), targets_of(&service));
    let (no_labels, no_targets) = RegisteredService::new(Vec::new(), Vec::new()).parts();
    assert!(no_labels.is_empty());
    assert!(no_targets.is_empty());
}

#[test]
fn snapshot_survives_json() {
    let mut store = MemoryStore::new();
    store.register(&ServiceInstance::new("web", "host1", 8080).with_label("env", "prod"));
    store.register(&ServiceInstance::new("web", "host2", 8080));
    store.register(&ServiceInstance::new("db", "host3", 5432).with_metrics_path("/stats"));
    let services = store.discover();

    let mut entries = Vec::new();
    for service in &services {
        let (labels, targets) = service.parts();
        let mut fields = serde_json::Map::new();
        for (key, value) in labels {
            fields.insert(key, serde_json::Value::String(value));
        }
        let mut entry = serde_json::Map::new();
        entry.insert("labels".to_string(), serde_json::Value::Object(fields));
        entry.insert(
            "targets".to_string(),
            serde_json::Value::Array(targets.into_iter().map(serde_json::Value::String).collect()),
        );
        entries.push(serde_json::Value::Object(entry));
    }
    let text = serde_json::to_string_pretty(&serde_json::Value::Array(entries)).unwrap();

    let parsed: serde_json::Value = serde_json::from_str(&text).unwrap();
    let read: Vec<RegisteredService> = parsed
        .as_array()
        .unwrap()
        .iter()
        .map(|entry| {
            let labels = entry["labels"]
                .as_object()
                .unwrap()
                .iter()
                .map(|(k, v)| (k.clone(), v.as_str().unwrap().to_string()))
                .collect();
            let targets = entry["targets"]
                .as_array()
                .unwrap()
                .iter()
                .map(|t| t.as_str().unwrap().to_string())
                .collect();
            RegisteredService::new(labels, targets)
        })
        .collect();
    assert_eq!(read.len(), services.len());
    assert_eq!(read.len(), 2);
    for (a, b) in read.iter().zip(services.iter()) {
        assert_eq!(labels_of(a), labels_of(b));
        assert_eq!(targets_of(a), targets_of(b));
    }
    assert_eq!(labels_of(&read[0]), vec![pair("job", "db")]);
    assert_eq!(targets_of(&read[0]), vec!["host3:5432/stats".to_string()]);
    assert_eq!(labels_of(&read[1]), vec![pair("env", "prod"), pair("job", "web")]);
    assert_eq!(
        targets_of(&read[1]),
        vec!["host1:8080/metrics".to_string(), "host2:8080/metrics".to_string()]
    );
}
