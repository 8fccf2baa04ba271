//! One instance of a service on one host, as handed in for registration.

use vstd::prelude::*;

verus! {

/// The metrics path of an instance that names none.
pub const DEFAULT_METRICS_PATH: &'static str = "/metrics";

/// The texts of a list of label pairs, in order.
pub open spec fn pairs_of(labels: Seq<(String, String)>) -> Seq<(Seq<char>, Seq<char>)> {
    labels.map_values(|p: (String, String)| (p.0@, p.1@))
}

/// An instance of a service on a single host.
#[derive(Debug)]
pub struct ServiceInstance {
    pub service_name: String,
    pub job_name: String,
    pub labels: Vec<(String, String)>,
    pub metrics_path: String,
    pub host: String,
    pub port: u16,
}

/// An instance over texts.
pub struct InstanceView {
    pub service_name: Seq<char>,
    pub job_name: Seq<char>,
    pub labels: Seq<(Seq<char>, Seq<char>)>,
    pub metrics_path: Seq<char>,
    pub host: Seq<char>,
    pub port: u16,
}

impl View for ServiceInstance {
    type V = InstanceView;

    open spec fn view(&self) -> InstanceView {
        InstanceView {
            service_name: self.service_name@,
            job_name: self.job_name@,
            labels: pairs_of(self.labels@),
            metrics_path: self.metrics_path@,
            host: self.host@,
            port: self.port,
        }
    }
}

/// The pairs that a flat list of keys and values spells: the first with the
/// second, the third with the fourth, and so on; an odd one at the end is left
/// out.
pub open spec fn paired(flat: Seq<Seq<char>>) -> Seq<(Seq<char>, Seq<char>)> {
    Seq::new(flat.len() / 2, |i: int| (flat[2 * i], flat[2 * i + 1]))
}

/// Pairs up a flat list of label keys and values.
pub fn pair_labels(flat: &Vec<String>) -> (labels: Vec<(String, String)>)
    ensures
        pairs_of(labels@) == paired(flat@.map_values(|s: String| s@)),
{
    let ghost texts = flat@.map_values(|s: String| s@);
    let mut labels: Vec<(String, String)> = Vec::new();
    let mut i: usize = 0;
    while i + 1 < flat.len()
        invariant
            i % 2 == 0,
            i <= flat.len(),
            texts == flat@.map_values(|s: String| s@),
            labels@.len() == i / 2,
            forall|j: int| 0 <= j < labels@.len() ==> pairs_of(labels@)[j] == paired(texts)[j],
        decreases flat.len() - i,
    {
        let ghost before = labels@;
        let key = flat[i].clone();
        let value = flat[i + 1].clone();
        labels.push((key, value));
        proof {
            assert forall|j: int| 0 <= j < labels@.len() implies pairs_of(labels@)[j] == paired(
                texts,
            )[j] by {
                if j < before.len() {
                    assert(pairs_of(before)[j] == paired(texts)[j]);
                    assert(labels@[j] == before[j]);
                }
            }
        }
        i += 2;
    }
    assert(pairs_of(labels@) =~= paired(texts));
    labels
}

impl ServiceInstance {
    /// An instance of `service_name` on `host` and `port`: its job is named
    /// after the service, its metrics are found under `/metrics`, and it has
    /// no further labels.
    pub fn new(service_name: &str, host: &str, port: u16) -> (instance: ServiceInstance)
        ensures
            instance@ == (InstanceView {
                service_name: service_name@,
                job_name: service_name@,
                labels: Seq::empty(),
                metrics_path: DEFAULT_METRICS_PATH@,
                host: host@,
                port,
            }),
    {
        let instance = ServiceInstance {
            service_name: String::from_str(service_name),
            job_name: String::from_str(service_name),
            labels: Vec::new(),
            metrics_path: String::from_str(DEFAULT_METRICS_PATH),
            host: String::from_str(host),
            port,
        };
        assert(instance@.labels =~= Seq::empty());
        instance
    }

    /// The same instance under another job name.
    pub fn with_job_name(self, job_name: &str) -> (instance: ServiceInstance)
        ensures
            instance@ == (InstanceView { job_name: job_name@, ..self@ }),
    {
        ServiceInstance { job_name: String::from_str(job_name), ..self }
    }

    /// The same instance with its metrics under another path.
    pub fn with_metrics_path(self, metrics_path: &str) -> (instance: ServiceInstance)
        ensures
            instance@ == (InstanceView { metrics_path: metrics_path@, ..self@ }),
    {
        ServiceInstance { metrics_path: String::from_str(metrics_path), ..self }
    }

    /// The same instance with one more label, after those it has.
    pub fn with_label(self, key: &str, value: &str) -> (instance: ServiceInstance)
        ensures
            instance@ == (InstanceView { labels: self@.labels.push((key@, value@)), ..self@ }),
    {
        let mut instance = self;
        instance.labels.push((String::from_str(key), String::from_str(value)));
        assert(instance@.labels =~= self@.labels.push((key@, value@)));
        instance
    }

    /// The same instance with other labels in place of those it has.
    pub fn with_labels(self, labels: Vec<(String, String)>) -> (instance: ServiceInstance)
        ensures
            instance@ == (InstanceView { labels: pairs_of(labels@), ..self@ }),
    {
        ServiceInstance { labels, ..self }
    }
}

} // verus!
