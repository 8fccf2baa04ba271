use prometheus_sd::error::RegistryError;
use prometheus_sd::instance::{pair_labels, ServiceInstance};
use prometheus_sd::naming::{
    labels_key_for, target_address_for, targets_key_for, SERVICE_SET_KEY,
};
use prometheus_sd::operation::{
    check_registered, register_instance, unregister_instance, Operation,
};
use prometheus_sd::text_set::TextSet;
use prometheus_sd::transaction::transaction;

fn text_set(items: &[&str]) -> TextSet {
    TextSet::from_vec(items.iter().map(|s| s.to_string()).collect())
}

fn show(operations: &[Operation]) -> Vec<String> {
    operations
        .iter()
        .map(|op| match op {
            Operation::SetAdd { key, member } => format!("SADD {} {}", key, member),
            Operation::SetRemove { key, member } => format!("SREM {} {}", key, member),
            Operation::HashSet { key, field, value } => format!("HSET {} {} {}", key, field, value),
            Operation::HashSetMany { key, fields } => {
                let mut line = format!("HMSET {}", key);
                for (f, v) in fields {
                    line.push_str(&format!(" {} {}", f, v));
                }
                line
            }
            Operation::Delete { key } => format!("DEL {}", key),
        })
        .collect()
}

fn arguments(pipeline: &redis::Pipeline) -> Vec<Vec<String>> {
    pipeline
        .cmd_iter()
        .map(|cmd| {
            cmd.args_iter()
                .map(|arg| match arg {
                    redis::Arg::Simple(bytes) => String::from_utf8(bytes.to_vec()).unwrap(),
                    redis::Arg::Cursor => panic!("no cursor expected"),
                })
                .collect()
        })
        .collect()
}

fn words(line: &[&str]) -> Vec<String> {
    line.iter().map(|s| s.to_string()).collect()
}

#[test]
fn keys_and_targets_are_named_as_agreed() {
    assert_eq!(SERVICE_SET_KEY, "prometheus_sd_service_keys");
    assert_eq!(labels_key_for("web"), "prometheus_sd:web:labels");
    assert_eq!(targets_key_for("web"), "prometheus_sd:web:targets");
    assert_eq!(labels_key_for(""), "prometheus_sd::labels");
    assert_eq!(target_address_for("host1", 8080, "/metrics"), "host1:8080/metrics");
    assert_eq!(target_address_for("h", 0, ""), "h:0");
    assert_eq!(target_address_for("::1", 65535, "/m"), "::1:65535/m");
}

#[test]
fn register_plans_three_changes_without_labels() {
    let operations = register_instance(&ServiceInstance::new("web", "host1", 8080));
    assert_eq!(
        show(&operations),
        vec![
            "SADD prometheus_sd_service_keys web",
            "HSET prometheus_sd:web:labels job web",
            "SADD prometheus_sd:web:targets host1:8080/metrics",
        ]
    );
}

#[test]
fn register_plans_labels_between_job_and_target() {
    let instance = ServiceInstance::new("web", "host1", 8080)
        .with_job_name("site")
        .with_label("env", "prod")
        .with_label("dc", "east")
        .with_metrics_path("/stats");
    let operations = register_instance(&instance);
    assert_eq!(
        show(&operations),
        vec![
            "SADD prometheus_sd_service_keys web",
            "HSET prometheus_sd:web:labels job site",
            "HMSET prometheus_sd:web:labels env prod dc east",
            "SADD prometheus_sd:web:targets host1:8080/stats",
        ]
    );
}

#[test]
fn check_registered_fails_for_a_service_that_is_no_member() {
    assert!(check_registered("web", true).is_ok());
    assert!(check_registered("", true).is_ok());
    match check_registered("web", false) {
        Err(RegistryError::NoSuchService { service }) => assert_eq!(service, "web"),
        other => panic!("unexpected: {:?}", other),
    }
}

#[test]
fn unregister_without_host_plans_the_whole_removal() {
    let targets = text_set(&["host1:8080/metrics", "host2:8080/metrics"]);
    let operations = unregister_instance("web", None, &targets).unwrap();
    assert_eq!(
        show(&operations),
        vec![
            "DEL prometheus_sd:web:targets",
            "DEL prometheus_sd:web:labels",
            "SREM prometheus_sd_service_keys web",
        ]
    );
    let none = unregister_instance("web", None, &text_set(&[])).unwrap();
    assert_eq!(show(&none), show(&operations));
}

#[test]
fn unregister_with_host_plans_one_removal_of_the_first_match() {
    let targets = text_set(&["host2:8080/metrics", "host1:8080/metrics", "host11:8080/metrics"]);
    let operations = unregister_instance("web", Some("host1"), &targets).unwrap();
    assert_eq!(show(&operations), vec!["SREM prometheus_sd:web:targets host1:8080/metrics"]);
    let any = unregister_instance("web", Some("host"), &targets).unwrap();
    assert_eq!(show(&any), vec!["SREM prometheus_sd:web:targets host2:8080/metrics"]);
    let all = unregister_instance("web", Some(""), &targets).unwrap();
    assert_eq!(show(&all), vec!["SREM prometheus_sd:web:targets host2:8080/metrics"]);
}

#[test]
fn unregister_of_the_last_target_plans_the_cascade() {
    let targets = text_set(&["host1:8080/metrics"]);
    let operations = unregister_instance("web", Some("host1"), &targets).unwrap();
    assert_eq!(
        show(&operations),
        vec![
            "SREM prometheus_sd:web:targets host1:8080/metrics",
            "DEL prometheus_sd:web:targets",
            "DEL prometheus_sd:web:labels",
            "SREM prometheus_sd_service_keys web",
        ]
    );
}

#[test]
fn unregister_with_unmatched_host_fails() {
    let targets = text_set(&["host1:8080/metrics"]);
    for host in ["host2", "ost1", "host1:8080/metrics/more", "Host1"] {
        match unregister_instance("web", Some(host), &targets) {
            Err(RegistryError::NoSuchHost { service, host: named }) => {
                assert_eq!(service, "web");
                assert_eq!(named, host);
            }
            other => panic!("unexpected: {:?}", other),
        }
    }
    assert!(unregister_instance("web", Some("x"), &text_set(&[])).is_err());
}

#[test]
fn transaction_holds_one_command_for_each_change() {
    let instance = ServiceInstance::new("web", "host1", 8080).with_label("env", "prod");
    let pipeline = transaction(&register_instance(&instance));
    assert_eq!(
        arguments(&pipeline),
        vec![
            words(&["SADD", "prometheus_sd_service_keys", "web"]),
            words(&["HSET", "prometheus_sd:web:labels", "job", "web"]),
            words(&["HMSET", "prometheus_sd:web:labels", "env", "prod"]),
            words(&["SADD", "prometheus_sd:web:targets", "host1:8080/metrics"]),
        ]
    );
    let removal = transaction(&unregister_instance("web", None, &text_set(&[])).unwrap());
    assert_eq!(
        arguments(&removal),
        vec![
            words(&["DEL", "prometheus_sd:web:targets"]),
            words(&["DEL", "prometheus_sd:web:labels"]),
            words(&["SREM", "prometheus_sd_service_keys", "web"]),
        ]
    );
}

#[test]
fn transaction_is_sent_as_one_atomic_unit() {
    let operations = vec![Operation::Delete { key: "k".to_string() }];
    let packed = transaction(&operations).get_packed_pipeline();
    let expected = "*1\r\n$5\r\nMULTI\r\n*2\r\n$3\r\nDEL\r\n$1\r\nk\r\n*1\r\n$4\r\nEXEC\r\n";
    assert_eq!(String::from_utf8(packed).unwrap(), expected);
}

#[test]
fn transaction_of_nothing_holds_no_command() {
    let pipeline = transaction(&Vec::new());
    assert_eq!(pipeline.cmd_iter().count(), 0);
}

#[test]
fn transaction_keeps_many_fields_in_order() {
    let operations = vec![
        Operation::HashSetMany {
            key: "h".to_string(),
            fields: vec![
                ("b".to_string(), "2".to_string()),
                ("a".to_string(), "1".to_string()),
                ("b".to_string(), "3".to_string()),
            ],
        },
        Operation::SetRemove { key: "s".to_string(), member: "m".to_string() },
        Operation::HashSet { key: "h".to_string(), field: "f".to_string(), value: "é".to_string() },
    ];
    assert_eq!(
        arguments(&transaction(&operations)),
        vec![
            words(&["HMSET", "h", "b", "2", "a", "1", "b", "3"]),
            words(&["SREM", "s", "m"]),
            words(&["HSET", "h", "f", "é"]),
        ]
    );
}

#[test]
fn pair_labels_pairs_keys_with_values() {
    let flat: Vec<String> = ["env", "prod", "dc", "east", "odd"].iter().map(|s| s.to_string()).collect();
    assert_eq!(
        pair_labels(&flat),
        vec![
            ("env".to_string(), "prod".to_string()),
            ("dc".to_string(), "east".to_string()),
        ]
    );
    assert_eq!(pair_labels(&Vec::new()), Vec::new());
    assert_eq!(pair_labels(&vec!["only".to_string()]), Vec::new());
}

#[test]
fn instance_defaults_and_changes() {
    let instance = ServiceInstance::new("web", "host1", 8080);
    assert_eq!(instance.service_name, "web");
    assert_eq!(instance.job_name, "web");
    assert_eq!(instance.metrics_path, "/metrics");
    assert_eq!(instance.host, "host1");
    assert_eq!(instance.port, 8080);
    assert!(instance.labels.is_empty());
    let changed = instance
        .with_labels(vec![("a".to_string(), "b".to_string())])
        .with_job_name("j")
        .with_metrics_path("/p");
    assert_eq!(changed.labels, vec![("a".to_string(), "b".to_string())]);
    assert_eq!(changed.job_name, "j");
    assert_eq!(changed.metrics_path, "/p");
    assert_eq!(changed.service_name, "web");
}

#[test]
fn failures_are_reported_in_words() {
    let missing = RegistryError::NoSuchService { service: "web".to_string() };
    assert_eq!(missing.message(), "No such service registered: 'web'");
    let host = RegistryError::NoSuchHost { service: "web".to_string(), host: "h1".to_string() };
    assert_eq!(host.message(), "No host starting with 'h1' registered for web");
}
