//! The names under which the registry keeps its state in the backend, and the
//! form of a target.

use crate::text::{decimal, decimal_string};
use vstd::prelude::*;

verus! {

/// Key of the set that holds the key of every registered service.
pub const SERVICE_SET_KEY: &'static str = "prometheus_sd_service_keys";

/// What every per-service key begins with.
pub const NAMESPACE: &'static str = "prometheus_sd:";

/// What the key of a service's labels ends with.
pub const LABELS_SUFFIX: &'static str = ":labels";

/// What the key of a service's targets ends with.
pub const TARGETS_SUFFIX: &'static str = ":targets";

/// Key of the hash that holds the labels of a service.
pub open spec fn labels_key(service: Seq<char>) -> Seq<char> {
    NAMESPACE@ + service + LABELS_SUFFIX@
}

/// Key of the set that holds the targets of a service.
pub open spec fn targets_key(service: Seq<char>) -> Seq<char> {
    NAMESPACE@ + service + TARGETS_SUFFIX@
}

/// A target: host, colon, port in decimal, metrics path.
pub open spec fn target_address(host: Seq<char>, port: u16, metrics_path: Seq<char>) -> Seq<char> {
    host + seq![':'] + decimal(port as nat) + metrics_path
}

/// Builds the key of a service's labels.
pub fn labels_key_for(service: &str) -> (key: String)
    ensures
        key@ == labels_key(service@),
{
    let mut key = String::from_str(NAMESPACE);
    key.append(service);
    key.append(LABELS_SUFFIX);
    key
}

/// Builds the key of a service's targets.
pub fn targets_key_for(service: &str) -> (key: String)
    ensures
        key@ == targets_key(service@),
{
    let mut key = String::from_str(NAMESPACE);
    key.append(service);
    key.append(TARGETS_SUFFIX);
    key
}

/// Builds the target of an instance.
pub fn target_address_for(host: &str, port: u16, metrics_path: &str) -> (target: String)
    ensures
        target@ == target_address(host@, port, metrics_path@),
{
    proof {
        reveal_strlit(":");
    }
    let mut target = String::from_str(host);
    target.append(":");
    assert(":"@ =~= seq![':']);
    let digits = decimal_string(port as u64);
    target.append(digits.as_str());
    target.append(metrics_path);
    target
}

/// No two services share a key, no key of labels is a key of targets, and
/// neither is the key of the service set.
pub proof fn lemma_keys_distinct(a: Seq<char>, b: Seq<char>)
    ensures
        labels_key(a) == labels_key(b) ==> a == b,
        targets_key(a) == targets_key(b) ==> a == b,
        labels_key(a) != targets_key(b),
        labels_key(a) != SERVICE_SET_KEY@,
        targets_key(a) != SERVICE_SET_KEY@,
{
    reveal_strlit("prometheus_sd_service_keys");
    reveal_strlit("prometheus_sd:");
    reveal_strlit(":labels");
    reveal_strlit(":targets");
    let la = labels_key(a);
    let lb = labels_key(b);
    let ta = targets_key(a);
    let tb = targets_key(b);
    assert(NAMESPACE@.len() == 14);
    assert(la.len() == 21 + a.len() && lb.len() == 21 + b.len());
    assert(ta.len() == 22 + a.len() && tb.len() == 22 + b.len());
    if la == lb {
        assert(a.len() == b.len());
        assert forall|i: int| 0 <= i < a.len() implies a[i] == b[i] by {
            assert(la[14 + i] == a[i]);
            assert(lb[14 + i] == b[i]);
        }
        assert(a =~= b);
    }
    if ta == tb {
        assert(a.len() == b.len());
        assert forall|i: int| 0 <= i < a.len() implies a[i] == b[i] by {
            assert(ta[14 + i] == a[i]);
            assert(tb[14 + i] == b[i]);
        }
        assert(a =~= b);
    }
    assert(la[la.len() - 2] == 'l');
    assert(tb[tb.len() - 2] == 't');
    assert(la[13] == ':');
    assert(ta[13] == ':');
    assert(SERVICE_SET_KEY@[13] == '_');
}

} // verus!
