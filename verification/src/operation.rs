//! The changes that registering and unregistering ask of the backend. Each
//! list of changes is meant to be committed as one transaction.

use crate::error::{Failure, RegistryError};
use crate::instance::{pairs_of, InstanceView, ServiceInstance};
use crate::naming::{
    labels_key, labels_key_for, target_address, target_address_for, targets_key, targets_key_for,
    SERVICE_SET_KEY,
};
use crate::text::{begins_with, has_prefix};
use crate::text_set::TextSet;
use vstd::prelude::*;

verus! {

/// The field of a service's labels that names its job.
pub const JOB_LABEL: &'static str = "job";

/// One change to the backend.
#[derive(Debug)]
pub enum Operation {
    /// Add a member to the set under a key.
    SetAdd { key: String, member: String },
    /// Take a member out of the set under a key.
    SetRemove { key: String, member: String },
    /// Give a field of the hash under a key a value.
    HashSet { key: String, field: String, value: String },
    /// Give several fields of the hash under a key their values, in order.
    HashSetMany { key: String, fields: Vec<(String, String)> },
    /// Remove a key with all that it holds.
    Delete { key: String },
}

/// One change to the backend, over texts.
pub enum Change {
    SetAdd { key: Seq<char>, member: Seq<char> },
    SetRemove { key: Seq<char>, member: Seq<char> },
    HashSet { key: Seq<char>, field: Seq<char>, value: Seq<char> },
    HashSetMany { key: Seq<char>, fields: Seq<(Seq<char>, Seq<char>)> },
    Delete { key: Seq<char> },
}

impl View for Operation {
    type V = Change;

    open spec fn view(&self) -> Change {
        match self {
            Operation::SetAdd { key, member } => Change::SetAdd { key: key@, member: member@ },
            Operation::SetRemove { key, member } => Change::SetRemove {
                key: key@,
                member: member@,
            },
            Operation::HashSet { key, field, value } => Change::HashSet {
                key: key@,
                field: field@,
                value: value@,
            },
            Operation::HashSetMany { key, fields } => Change::HashSetMany {
                key: key@,
                fields: pairs_of(fields@),
            },
            Operation::Delete { key } => Change::Delete { key: key@ },
        }
    }
}

/// The changes of a list of operations, in order.
pub open spec fn changes_of(operations: Seq<Operation>) -> Seq<Change> {
    operations.map_values(|op: Operation| op@)
}

/// The changes that register an instance: the service joins the service set,
/// its labels get the job name and then the instance's own labels, and the
/// instance's target joins the service's targets.
pub open spec fn register_changes(instance: InstanceView) -> Seq<Change> {
    let labels = labels_key(instance.service_name);
    let head = seq![
        Change::SetAdd { key: SERVICE_SET_KEY@, member: instance.service_name },
        Change::HashSet { key: labels, field: JOB_LABEL@, value: instance.job_name },
    ];
    let own = if instance.labels.len() > 0 {
        seq![Change::HashSetMany { key: labels, fields: instance.labels }]
    } else {
        seq![]
    };
    let tail = seq![
        Change::SetAdd {
            key: targets_key(instance.service_name),
            member: target_address(instance.host, instance.port, instance.metrics_path),
        },
    ];
    head + own + tail
}

/// The changes that remove a service with all its labels and targets.
pub open spec fn removal_changes(service: Seq<char>) -> Seq<Change> {
    seq![
        Change::Delete { key: targets_key(service) },
        Change::Delete { key: labels_key(service) },
        Change::SetRemove { key: SERVICE_SET_KEY@, member: service },
    ]
}

/// Whether the target at place `i` is the first that begins with `prefix`.
pub open spec fn is_first_match(targets: Seq<Seq<char>>, prefix: Seq<char>, i: int) -> bool {
    &&& 0 <= i < targets.len()
    &&& begins_with(targets[i], prefix)
    &&& forall|j: int| 0 <= j < i ==> !begins_with(#[trigger] targets[j], prefix)
}

/// Whether some target begins with `prefix`.
pub open spec fn has_match(targets: Seq<Seq<char>>, prefix: Seq<char>) -> bool {
    exists|i: int| 0 <= i < targets.len() && begins_with(#[trigger] targets[i], prefix)
}

/// The place of the first target that begins with `prefix`.
pub open spec fn first_match(targets: Seq<Seq<char>>, prefix: Seq<char>) -> int {
    choose|i: int| is_first_match(targets, prefix, i)
}

/// The first match is the only place that `is_first_match` holds of.
pub proof fn lemma_first_match(targets: Seq<Seq<char>>, prefix: Seq<char>, i: int)
    requires
        is_first_match(targets, prefix, i),
    ensures
        has_match(targets, prefix),
        first_match(targets, prefix) == i,
{
    let k = first_match(targets, prefix);
    assert(is_first_match(targets, prefix, k));
    if k < i {
        assert(!begins_with(targets[k], prefix));
    }
    if i < k {
        assert(!begins_with(targets[i], prefix));
    }
}

/// What unregistering asks of the backend, given the targets that the service
/// has, in the order in which the backend listed them.
///
/// Without a host the service goes as a whole. With a host, the first target
/// that begins with it goes; where that target was the only one, the service
/// goes with it. A host that no target begins with is a failure.
///
/// The host is matched against each target from the target's first character
/// on, byte for byte and without regard to where the target's host ends:
/// `10.0.0.1` finds `10.0.0.10:80/metrics`. Whether the removed target was
/// the only one is decided on the targets as listed; a target that is
/// registered after the listing was read is not seen.
pub open spec fn unregister_changes(
    service: Seq<char>,
    host: Option<Seq<char>>,
    targets: Seq<Seq<char>>,
) -> Result<Seq<Change>, Failure> {
    match host {
        None => Ok(removal_changes(service)),
        Some(prefix) => if has_match(targets, prefix) {
            let target = targets[first_match(targets, prefix)];
            let single = seq![Change::SetRemove { key: targets_key(service), member: target }];
            if targets.len() == 1 {
                Ok(single + removal_changes(service))
            } else {
                Ok(single)
            }
        } else {
            Err(Failure::NoSuchHost { service, host: prefix })
        },
    }
}

/// The text of a string that may be missing.
pub open spec fn optional_text(text: Option<&str>) -> Option<Seq<char>> {
    match text {
        Some(t) => Some(t@),
        None => None,
    }
}

fn clone_pairs(pairs: &Vec<(String, String)>) -> (copy: Vec<(String, String)>)
    ensures
        pairs_of(copy@) == pairs_of(pairs@),
{
    let mut copy: Vec<(String, String)> = Vec::new();
    let mut i: usize = 0;
    while i < pairs.len()
        invariant
            i <= pairs.len(),
            copy@.len() == i,
            forall|j: int| 0 <= j < i ==> pairs_of(copy@)[j] == pairs_of(pairs@)[j],
        decreases pairs.len() - i,
    {
        let ghost before = copy@;
        let key = pairs[i].0.clone();
        let value = pairs[i].1.clone();
        copy.push((key, value));
        proof {
            assert forall|j: int| 0 <= j < i + 1 implies pairs_of(copy@)[j] == pairs_of(
                pairs@,
            )[j] by {
                if j < i {
                    assert(pairs_of(before)[j] == pairs_of(pairs@)[j]);
                    assert(copy@[j] == before[j]);
                }
            }
        }
        i += 1;
    }
    assert(pairs_of(copy@) =~= pairs_of(pairs@));
    copy
}

fn removal_operations(service_name: &str) -> (operations: Vec<Operation>)
    ensures
        changes_of(operations@) == removal_changes(service_name@),
{
    let mut operations: Vec<Operation> = Vec::new();
    operations.push(Operation::Delete { key: targets_key_for(service_name) });
    operations.push(Operation::Delete { key: labels_key_for(service_name) });
    operations.push(
        Operation::SetRemove {
            key: String::from_str(SERVICE_SET_KEY),
            member: String::from_str(service_name),
        },
    );
    assert(changes_of(operations@) =~= removal_changes(service_name@));
    operations
}

/// The changes that register an instance.
pub fn register_instance(instance: &ServiceInstance) -> (operations: Vec<Operation>)
    ensures
        changes_of(operations@) == register_changes(instance@),
{
    let service = instance.service_name.as_str();
    let mut operations: Vec<Operation> = Vec::new();
    operations.push(
        Operation::SetAdd { key: String::from_str(SERVICE_SET_KEY), member: String::from_str(service) },
    );
    operations.push(
        Operation::HashSet {
            key: labels_key_for(service),
            field: String::from_str(JOB_LABEL),
            value: instance.job_name.clone(),
        },
    );
    if instance.labels.len() > 0 {
        operations.push(
            Operation::HashSetMany {
                key: labels_key_for(service),
                fields: clone_pairs(&instance.labels),
            },
        );
    }
    operations.push(
        Operation::SetAdd {
            key: targets_key_for(service),
            member: target_address_for(
                instance.host.as_str(),
                instance.port,
                instance.metrics_path.as_str(),
            ),
        },
    );
    assert(changes_of(operations@) =~= register_changes(instance@));
    operations
}

/// Fails with `NoSuchService` unless the service is a member of the service
/// set. `member` is the backend's answer; where the backend gave none, its
/// failure goes to the caller, not here.
pub fn check_registered(service_name: &str, member: bool) -> (checked: Result<(), RegistryError>)
    ensures
        checked is Ok <==> member,
        checked matches Err(e) ==> e@ == (Failure::NoSuchService { service: service_name@ }),
{
    if member {
        Ok(())
    } else {
        Err(RegistryError::NoSuchService { service: String::from_str(service_name) })
    }
}

/// The changes that unregister a service, or one target of it, given the
/// targets that the backend lists for it. Whether the service is registered
/// at all is not asked here: `check_registered` asks it, and comes first.
pub fn unregister_instance(service_name: &str, host: Option<&str>, targets: &TextSet) -> (planned:
    Result<Vec<Operation>, RegistryError>)
    ensures
        match (planned, unregister_changes(service_name@, optional_text(host), targets.order())) {
            (Ok(operations), Ok(changes)) => changes_of(operations@) == changes,
            (Err(e), Err(failure)) => e@ == failure,
            _ => false,
        },
{
    match host {
        None => {
            Ok(removal_operations(service_name))
        },
        Some(prefix) => {
            let count = targets.len();
            let mut i: usize = 0;
            while i < count
                invariant
                    host == Some(prefix),
                    count == targets.order().len(),
                    i <= count,
                    forall|j: int| 0 <= j < i ==> !begins_with(#[trigger] targets.order()[j], prefix@),
                decreases count - i,
            {
                let target = targets.get(i);
                if has_prefix(target.as_str(), prefix) {
                    proof {
                        lemma_first_match(targets.order(), prefix@, i as int);
                    }
                    let mut operations: Vec<Operation> = Vec::new();
                    operations.push(
                        Operation::SetRemove {
                            key: targets_key_for(service_name),
                            member: target.clone(),
                        },
                    );
                    let ghost single = changes_of(operations@);
                    assert(single =~= seq![
                        Change::SetRemove {
                            key: targets_key(service_name@),
                            member: targets.order()[i as int],
                        },
                    ]);
                    if count == 1 {
                        let mut rest = removal_operations(service_name);
                        let ghost tail = changes_of(rest@);
                        operations.append(&mut rest);
                        assert(changes_of(operations@) =~= single + tail);
                    }
                    return Ok(operations);
                }
                i += 1;
            }
            Err(
                RegistryError::NoSuchHost {
                    service: String::from_str(service_name),
                    host: String::from_str(prefix),
                },
            )
        },
    }
}

} // verus!
