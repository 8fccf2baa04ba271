//! What holds of the registry whatever it holds: the effect of registering and
//! unregistering on the backend's state, and the form of the snapshot.

use crate::discovery::{
    ascending, is_key_order, key_order, lemma_rearranged, service_view, snapshot, snapshot_of,
};
use crate::error::Failure;
use crate::instance::InstanceView;
use crate::naming::{labels_key, lemma_keys_distinct, target_address, targets_key, SERVICE_SET_KEY};
use crate::operation::{
    first_match, has_match, is_first_match, register_changes, removal_changes, unregister_changes,
    Change, JOB_LABEL,
};
use crate::registry::unregister_outcome;
use crate::store::{
    lemma_apply_all_concat, lemma_with_fields_absorbs, lemma_with_fields_keeps,
    lemma_with_fields_outside, names_field, with_fields, StoreState,
};
use crate::text::{begins_with, lemma_begins_with_concat, lemma_text_le_order, text_le};
use vstd::prelude::*;
use vstd::relations::total_ordering;

verus! {

/// Every finite set of texts can be listed without repetition.
pub proof fn lemma_listing_exists(set: Set<Seq<char>>)
    requires
        set.finite(),
    ensures
        exists|listed: Seq<Seq<char>>| listed.no_duplicates() && listed.to_set() == set,
    decreases set.len(),
{
    if set.len() == 0 {
        let listed = Seq::<Seq<char>>::empty();
        assert(listed.to_set() =~= set);
        assert(listed.no_duplicates() && listed.to_set() == set);
    } else {
        let x = set.choose();
        let rest = set.remove(x);
        lemma_listing_exists(rest);
        let shorter = choose|listed: Seq<Seq<char>>| listed.no_duplicates() && listed.to_set() == rest;
        let listed = shorter.push(x);
        shorter.lemma_push_to_set_commute(x);
        assert(listed.to_set() =~= set);
        assert(listed.no_duplicates()) by {
            assert forall|i: int, j: int|
                0 <= i < listed.len() && 0 <= j < listed.len() && i != j implies listed[i]
                != listed[j] by {
                if i < shorter.len() {
                    assert(shorter.to_set().contains(shorter[i]));
                }
                if j < shorter.len() {
                    assert(shorter.to_set().contains(shorter[j]));
                }
            }
        }
        assert(listed.no_duplicates() && listed.to_set() == set);
    }
}

/// The key order of a finite set names each member once, in order.
pub proof fn lemma_key_order_exists(set: Set<Seq<char>>)
    requires
        set.finite(),
    ensures
        is_key_order(key_order(set), set),
{
    lemma_listing_exists(set);
    let listed = choose|listed: Seq<Seq<char>>| listed.no_duplicates() && listed.to_set() == set;
    let leq = |a: Seq<char>, b: Seq<char>| text_le(a, b);
    assert(total_ordering(leq)) by {
        assert forall|x: Seq<char>| #[trigger] leq(x, x) by {
            lemma_text_le_order(x, x, x);
        }
        assert forall|x: Seq<char>, y: Seq<char>| #[trigger] leq(x, y) || #[trigger] leq(y, x) by {
            lemma_text_le_order(x, y, x);
        }
        assert forall|x: Seq<char>, y: Seq<char>| #[trigger] leq(x, y) && #[trigger] leq(
            y,
            x,
        ) implies x == y by {
            lemma_text_le_order(x, y, x);
        }
        assert forall|x: Seq<char>, y: Seq<char>, z: Seq<char>| #[trigger] leq(x, y) && #[trigger] leq(
            y,
            z,
        ) implies leq(x, z) by {
            lemma_text_le_order(x, y, z);
        }
    }
    let keys = listed.sort_by(leq);
    listed.lemma_sort_by_ensures(leq);
    lemma_rearranged(listed, keys);
    assert(ascending(keys)) by {
        assert forall|i: int, j: int| 0 <= i < j < keys.len() implies text_le(
            #[trigger] keys[i],
            #[trigger] keys[j],
        ) by {
            assert(leq(keys[i], keys[j]));
        }
    }
    assert(is_key_order(keys, set));
}

/// The snapshot lists the services of the service set, each once, in the
/// order of their keys, whatever the order in which they were registered.
pub proof fn law_snapshot_in_key_order(state: StoreState)
    requires
        state.members(SERVICE_SET_KEY@).finite(),
    ensures
        ({
            let keys = key_order(state.members(SERVICE_SET_KEY@));
            &&& ascending(keys)
            &&& keys.no_duplicates()
            &&& keys.to_set() == state.members(SERVICE_SET_KEY@)
            &&& snapshot(state).len() == keys.len()
            &&& forall|i: int|
                0 <= i < keys.len() ==> #[trigger] snapshot(state)[i] == service_view(state, keys[i])
        }),
{
    lemma_key_order_exists(state.members(SERVICE_SET_KEY@));
}

/// The state after an instance was registered: the service is in the service
/// set, its target is among its targets, and its labels hold the job name and
/// then the instance's own labels. Nothing else has changed.
pub open spec fn registered(state: StoreState, instance: InstanceView) -> StoreState {
    let service = instance.service_name;
    let target = target_address(instance.host, instance.port, instance.metrics_path);
    let joined = state.sets.insert(
        SERVICE_SET_KEY@,
        state.members(SERVICE_SET_KEY@).insert(service),
    );
    StoreState {
        sets: joined.insert(targets_key(service), joined[targets_key(service)].insert(target)),
        hashes: state.hashes.insert(
            labels_key(service),
            with_fields(
                state.fields(labels_key(service)).insert(JOB_LABEL@, instance.job_name),
                instance.labels,
            ),
        ),
    }
}

/// The state after a service was removed as a whole: it is out of the service
/// set, and the keys of its labels and of its targets hold nothing. Nothing
/// else has changed.
pub open spec fn removed(state: StoreState, service: Seq<char>) -> StoreState {
    let cleared = state.sets.insert(targets_key(service), Set::empty()).insert(
        labels_key(service),
        Set::empty(),
    );
    StoreState {
        sets: cleared.insert(SERVICE_SET_KEY@, cleared[SERVICE_SET_KEY@].remove(service)),
        hashes: state.hashes.insert(targets_key(service), Map::empty()).insert(
            labels_key(service),
            Map::empty(),
        ),
    }
}

/// Registering takes a state to `registered`.
pub proof fn lemma_register_effect(state: StoreState, instance: InstanceView)
    ensures
        state.apply_all(register_changes(instance)) == registered(state, instance),
{
    let service = instance.service_name;
    let changes = register_changes(instance);
    let s1 = state.apply(changes[0]);
    let s2 = s1.apply(changes[1]);
    lemma_keys_distinct(service, service);
    reveal_with_fuel(StoreState::apply_all, 5);
    reveal_with_fuel(with_fields, 1);
    if instance.labels.len() > 0 {
        assert(changes.len() == 4);
        let c1 = changes.drop_first();
        let c2 = c1.drop_first();
        let c3 = c2.drop_first();
        assert(c3.drop_first().len() == 0);
        let s3 = s2.apply(c2[0]);
        let s4 = s3.apply(c3[0]);
        assert(state.apply_all(changes) == s4);
        assert(s4.sets =~= registered(state, instance).sets);
        assert(s4.hashes =~= registered(state, instance).hashes);
    } else {
        assert(changes.len() == 3);
        let c1 = changes.drop_first();
        let c2 = c1.drop_first();
        assert(c2.drop_first().len() == 0);
        let s3 = s2.apply(c2[0]);
        assert(state.apply_all(changes) == s3);
        assert(s3.sets =~= registered(state, instance).sets);
        assert(s3.hashes =~= registered(state, instance).hashes);
    }
}

/// Removing a service as a whole takes a state to `removed`.
pub proof fn lemma_removal_effect(state: StoreState, service: Seq<char>)
    ensures
        state.apply_all(removal_changes(service)) == removed(state, service),
{
    let changes = removal_changes(service);
    lemma_keys_distinct(service, service);
    reveal_with_fuel(StoreState::apply_all, 4);
    let c1 = changes.drop_first();
    let c2 = c1.drop_first();
    assert(c2.drop_first().len() == 0);
    let s1 = state.apply(changes[0]);
    let s2 = s1.apply(c1[0]);
    let s3 = s2.apply(c2[0]);
    assert(state.apply_all(changes) == s3);
    assert(s3.sets =~= removed(state, service).sets);
    assert(s3.hashes =~= removed(state, service).hashes);
}

/// Whether two states hold the same under every key but the service set's
/// and the two of one service.
pub open spec fn differ_only_for(state: StoreState, after: StoreState, service: Seq<char>) -> bool {
    forall|key: Seq<char>|
        #![trigger after.sets[key]]
        #![trigger after.hashes[key]]
        key != SERVICE_SET_KEY@ && key != targets_key(service) && key != labels_key(service)
            ==> after.sets[key] == state.sets[key] && after.hashes[key] == state.hashes[key]
}

/// A change to the keys of one service leaves every other service its labels
/// and its targets.
pub proof fn lemma_others_keep(state: StoreState, after: StoreState, service: Seq<char>)
    requires
        differ_only_for(state, after, service),
    ensures
        forall|other: Seq<char>|
            other != service ==> #[trigger] service_view(after, other) == service_view(
                state,
                other,
            ),
{
    assert forall|other: Seq<char>| other != service implies #[trigger] service_view(after, other)
        == service_view(state, other) by {
        lemma_keys_distinct(other, service);
        lemma_keys_distinct(service, other);
        assert(after.sets[targets_key(other)] == state.sets[targets_key(other)]);
        assert(after.hashes[labels_key(other)] == state.hashes[labels_key(other)]);
    }
}

/// After an instance was registered, its service is in the service set, its
/// target is among the service's targets, the service's labels name a job
/// (the instance's job name, unless its own labels name another), and the
/// snapshot lists the service with these labels and targets. The keys of
/// other services hold what they held.
pub proof fn law_register_then_discover(state: StoreState, instance: InstanceView)
    requires
        state.members(SERVICE_SET_KEY@).finite(),
    ensures
        ({
            let service = instance.service_name;
            let target = target_address(instance.host, instance.port, instance.metrics_path);
            let after = state.apply_all(register_changes(instance));
            &&& after.members(SERVICE_SET_KEY@) == state.members(SERVICE_SET_KEY@).insert(service)
            &&& after.members(targets_key(service)) == state.members(targets_key(service)).insert(
                target,
            )
            &&& after.fields(labels_key(service)).contains_key(JOB_LABEL@)
            &&& !names_field(instance.labels, JOB_LABEL@) ==> after.fields(
                labels_key(service),
            )[JOB_LABEL@] == instance.job_name
            &&& exists|i: int|
                0 <= i < snapshot(after).len() && #[trigger] snapshot(after)[i] == service_view(
                    after,
                    service,
                )
            &&& forall|other: Seq<char>|
                other != service ==> #[trigger] service_view(after, other) == service_view(
                    state,
                    other,
                )
        }),
{
    let service = instance.service_name;
    let after = state.apply_all(register_changes(instance));
    lemma_register_effect(state, instance);
    lemma_keys_distinct(service, service);
    lemma_with_fields_keeps(
        state.fields(labels_key(service)).insert(JOB_LABEL@, instance.job_name),
        instance.labels,
        JOB_LABEL@,
    );
    if !names_field(instance.labels, JOB_LABEL@) {
        lemma_with_fields_outside(
            state.fields(labels_key(service)).insert(JOB_LABEL@, instance.job_name),
            instance.labels,
            JOB_LABEL@,
        );
    }
    lemma_others_keep(state, after, service);
    let set = after.members(SERVICE_SET_KEY@);
    lemma_key_order_exists(set);
    let keys = key_order(set);
    assert(keys.to_set().contains(service));
    let i = keys.index_of(service);
    assert(snapshot(after)[i] == service_view(after, service));
}

/// Registering two instances of one service leaves one entry for the service
/// in the service set, with both targets among its targets.
pub proof fn law_register_two_hosts(state: StoreState, first: InstanceView, second: InstanceView)
    requires
        first.service_name == second.service_name,
    ensures
        ({
            let service = first.service_name;
            let after = state.apply_all(register_changes(first)).apply_all(
                register_changes(second),
            );
            &&& after.members(SERVICE_SET_KEY@) == state.members(SERVICE_SET_KEY@).insert(service)
            &&& after.members(targets_key(service)) == state.members(targets_key(service)).insert(
                target_address(first.host, first.port, first.metrics_path),
            ).insert(target_address(second.host, second.port, second.metrics_path))
        }),
{
    let service = first.service_name;
    let middle = state.apply_all(register_changes(first));
    let after = middle.apply_all(register_changes(second));
    lemma_register_effect(state, first);
    lemma_register_effect(middle, second);
    lemma_keys_distinct(service, service);
    assert(after.members(SERVICE_SET_KEY@) =~= state.members(SERVICE_SET_KEY@).insert(service));
}

/// Registering an instance a second time changes nothing.
pub proof fn law_register_idempotent(state: StoreState, instance: InstanceView)
    ensures
        ({
            let once = state.apply_all(register_changes(instance));
            once.apply_all(register_changes(instance)) == once
        }),
{
    let service = instance.service_name;
    let once = state.apply_all(register_changes(instance));
    let twice = once.apply_all(register_changes(instance));
    lemma_register_effect(state, instance);
    lemma_register_effect(once, instance);
    lemma_keys_distinct(service, service);
    assert(twice.sets =~~= once.sets);
    let b = state.fields(labels_key(service)).insert(JOB_LABEL@, instance.job_name);
    let a = once.fields(labels_key(service)).insert(JOB_LABEL@, instance.job_name);
    assert(once.fields(labels_key(service)) == with_fields(b, instance.labels));
    assert forall|k: Seq<char>|
        #![trigger names_field(instance.labels, k)]
        !names_field(instance.labels, k) implies a.contains_key(k) == b.contains_key(k) && (
        a.contains_key(k) ==> a[k] == b[k]) by {
        lemma_with_fields_outside(b, instance.labels, k);
    }
    lemma_with_fields_absorbs(a, b, instance.labels);
    assert(twice.hashes =~= once.hashes);
}

/// Instances of two services may be registered in either order: the backend
/// ends in the same state, and so does the snapshot.
pub proof fn law_registration_order_is_immaterial(
    state: StoreState,
    first: InstanceView,
    second: InstanceView,
)
    requires
        first.service_name != second.service_name,
    ensures
        state.apply_all(register_changes(first)).apply_all(register_changes(second))
            == state.apply_all(register_changes(second)).apply_all(register_changes(first)),
        snapshot(state.apply_all(register_changes(first)).apply_all(register_changes(second)))
            == snapshot(
            state.apply_all(register_changes(second)).apply_all(register_changes(first)),
        ),
{
    let one = state.apply_all(register_changes(first));
    let other = state.apply_all(register_changes(second));
    let one_way = one.apply_all(register_changes(second));
    let other_way = other.apply_all(register_changes(first));
    lemma_register_effect(state, first);
    lemma_register_effect(state, second);
    lemma_register_effect(one, second);
    lemma_register_effect(other, first);
    lemma_keys_distinct(first.service_name, second.service_name);
    lemma_keys_distinct(second.service_name, first.service_name);
    assert(one_way.sets =~~= other_way.sets);
    assert(one_way.hashes =~~= other_way.hashes);
}

/// Whether a list names the targets that the backend holds for a service,
/// each once.
pub open spec fn lists_targets(state: StoreState, service: Seq<char>, targets: Seq<Seq<char>>) -> bool {
    targets.no_duplicates() && targets.to_set() == state.members(targets_key(service))
}

/// Unregistering fails with `NoSuchService` where the service is not in the
/// service set, with `NoSuchHost` where it is and a host is given that no
/// target begins with, and in no other case.
pub proof fn law_unregister_failures(
    registered: bool,
    service: Seq<char>,
    host: Option<Seq<char>>,
    targets: Seq<Seq<char>>,
)
    ensures
        !registered ==> unregister_outcome(registered, service, host, targets) == Err::<
            Seq<Change>,
            Failure,
        >(Failure::NoSuchService { service }),
        registered && host is Some && !has_match(targets, host->0) ==> unregister_outcome(
            registered,
            service,
            host,
            targets,
        ) == Err::<Seq<Change>, Failure>(Failure::NoSuchHost { service, host: host->0 }),
        registered && (host is None || has_match(targets, host->0)) ==> unregister_outcome(
            registered,
            service,
            host,
            targets,
        ) is Ok,
{
}

/// A host is a prefix that finds the target of every instance on it.
pub proof fn law_host_finds_its_target(host: Seq<char>, port: u16, metrics_path: Seq<char>)
    ensures
        begins_with(target_address(host, port, metrics_path), host),
{
    let rest = seq![':'] + crate::text::decimal(port as nat) + metrics_path;
    assert(target_address(host, port, metrics_path) =~= host + rest);
    lemma_begins_with_concat(host, rest);
}

/// Unregistering a service as a whole takes it out of the service set and of
/// the snapshot and leaves it neither labels nor targets. Other services keep
/// what they had.
pub proof fn law_unregister_whole_service(
    state: StoreState,
    service: Seq<char>,
    targets: Seq<Seq<char>>,
)
    requires
        state.members(SERVICE_SET_KEY@).finite(),
    ensures
        unregister_changes(service, None, targets) == Ok::<Seq<Change>, Failure>(
            removal_changes(service),
        ),
        ({
            let after = state.apply_all(removal_changes(service));
            &&& after.members(SERVICE_SET_KEY@) == state.members(SERVICE_SET_KEY@).remove(service)
            &&& after.members(targets_key(service)) == Set::<Seq<char>>::empty()
            &&& after.fields(labels_key(service)) == Map::<Seq<char>, Seq<char>>::empty()
            &&& !key_order(after.members(SERVICE_SET_KEY@)).contains(service)
            &&& forall|other: Seq<char>|
                other != service ==> #[trigger] service_view(after, other) == service_view(
                    state,
                    other,
                )
        }),
{
    let after = state.apply_all(removal_changes(service));
    lemma_removal_effect(state, service);
    lemma_keys_distinct(service, service);
    lemma_others_keep(state, after, service);
    lemma_key_order_exists(after.members(SERVICE_SET_KEY@));
    let keys = key_order(after.members(SERVICE_SET_KEY@));
    if keys.contains(service) {
        assert(keys.to_set().contains(service));
    }
}

/// Unregistering the only target of a service removes the service as a whole:
/// it is out of the service set and of the snapshot, and has neither labels
/// nor targets. Other services keep what they had.
pub proof fn law_unregister_sole_target(
    state: StoreState,
    service: Seq<char>,
    host: Seq<char>,
    target: Seq<char>,
)
    requires
        state.members(SERVICE_SET_KEY@).finite(),
        begins_with(target, host),
    ensures
        unregister_changes(service, Some(host), seq![target]) is Ok,
        ({
            let after = state.apply_all(
                unregister_changes(service, Some(host), seq![target])->Ok_0,
            );
            &&& after.members(SERVICE_SET_KEY@) == state.members(SERVICE_SET_KEY@).remove(service)
            &&& after.members(targets_key(service)) == Set::<Seq<char>>::empty()
            &&& after.fields(labels_key(service)) == Map::<Seq<char>, Seq<char>>::empty()
            &&& !key_order(after.members(SERVICE_SET_KEY@)).contains(service)
            &&& forall|other: Seq<char>|
                other != service ==> #[trigger] service_view(after, other) == service_view(
                    state,
                    other,
                )
        }),
{
    let targets = seq![target];
    assert(is_first_match(targets, host, 0));
    crate::operation::lemma_first_match(targets, host, 0);
    let single = seq![Change::SetRemove { key: targets_key(service), member: target }];
    let changes = unregister_changes(service, Some(host), targets)->Ok_0;
    assert(changes == single + removal_changes(service));
    lemma_apply_all_concat(state, single, removal_changes(service));
    reveal_with_fuel(StoreState::apply_all, 2);
    assert(single.drop_first().len() == 0);
    let middle = state.apply(single[0]);
    assert(state.apply_all(single) == middle);
    let after = middle.apply_all(removal_changes(service));
    lemma_removal_effect(middle, service);
    lemma_keys_distinct(service, service);
    assert(after.members(SERVICE_SET_KEY@) =~= state.members(SERVICE_SET_KEY@).remove(service));
    lemma_others_keep(state, after, service);
    lemma_key_order_exists(after.members(SERVICE_SET_KEY@));
    let keys = key_order(after.members(SERVICE_SET_KEY@));
    if keys.contains(service) {
        assert(keys.to_set().contains(service));
    }
}

/// Unregistering one target of a service that has others takes that target
/// out and nothing else: the service stays in the service set with its labels
/// and its other targets. Of two targets exactly the other one is left.
pub proof fn law_unregister_one_target(
    state: StoreState,
    service: Seq<char>,
    host: Seq<char>,
    targets: Seq<Seq<char>>,
)
    requires
        lists_targets(state, service, targets),
        has_match(targets, host),
        targets.len() != 1,
    ensures
        unregister_changes(service, Some(host), targets) is Ok,
        ({
            let gone = targets[first_match(targets, host)];
            let after = state.apply_all(unregister_changes(service, Some(host), targets)->Ok_0);
            &&& begins_with(gone, host)
            &&& after.members(targets_key(service)) == state.members(targets_key(service)).remove(
                gone,
            )
            &&& after.fields(labels_key(service)) == state.fields(labels_key(service))
            &&& after.members(SERVICE_SET_KEY@) == state.members(SERVICE_SET_KEY@)
            &&& targets.len() == 2 ==> after.members(targets_key(service)) == set![
                targets[1 - first_match(targets, host)],
            ]
            &&& forall|other: Seq<char>|
                other != service ==> #[trigger] service_view(after, other) == service_view(
                    state,
                    other,
                )
        }),
{
    let k = first_match(targets, host);
    let w = choose|i: int| 0 <= i < targets.len() && begins_with(#[trigger] targets[i], host);
    lemma_first_match_exists(targets, host, w);
    assert(is_first_match(targets, host, k));
    let gone = targets[k];
    let single = seq![Change::SetRemove { key: targets_key(service), member: gone }];
    assert(unregister_changes(service, Some(host), targets)->Ok_0 == single);
    reveal_with_fuel(StoreState::apply_all, 2);
    assert(single.drop_first().len() == 0);
    let after = state.apply(single[0]);
    assert(state.apply_all(single) == after);
    lemma_keys_distinct(service, service);
    lemma_others_keep(state, after, service);
    if targets.len() == 2 {
        let left = targets[1 - k];
        assert(targets.to_set().contains(left));
        assert(after.members(targets_key(service)) =~= set![left]) by {
            assert forall|t: Seq<char>| after.members(targets_key(service)).contains(
                t,
            ) implies t == left by {
                assert(targets.to_set().contains(t));
                let j = targets.index_of(t);
                assert(j == 1 - k);
            }
        }
    }
}

/// Among targets of which one begins with a prefix there is a first that does.
pub proof fn lemma_first_match_exists(targets: Seq<Seq<char>>, prefix: Seq<char>, i: int)
    requires
        0 <= i < targets.len(),
        begins_with(targets[i], prefix),
    ensures
        is_first_match(targets, prefix, first_match(targets, prefix)),
    decreases i,
{
    if exists|j: int| 0 <= j < i && begins_with(#[trigger] targets[j], prefix) {
        let j = choose|j: int| 0 <= j < i && begins_with(#[trigger] targets[j], prefix);
        lemma_first_match_exists(targets, prefix, j);
    } else {
        assert(is_first_match(targets, prefix, i));
    }
}

/// Whether the backend holds a target for a service.
pub open spec fn has_targets(state: StoreState, service: Seq<char>) -> bool {
    exists|t: Seq<char>| state.members(targets_key(service)).contains(t)
}

/// The registry's invariant: a service is in the service set exactly if its
/// labels name a job and it has a target.
pub open spec fn consistent(state: StoreState) -> bool {
    forall|service: Seq<char>|
        #![trigger state.members(SERVICE_SET_KEY@).contains(service)]
        state.members(SERVICE_SET_KEY@).contains(service) <==> state.fields(
            labels_key(service),
        ).contains_key(JOB_LABEL@) && has_targets(state, service)
}

/// A backend in which nothing was written is consistent.
pub proof fn law_empty_is_consistent()
    ensures
        consistent(StoreState::empty()),
{
}

/// Registering keeps the registry consistent.
pub proof fn law_register_keeps_consistency(state: StoreState, instance: InstanceView)
    requires
        consistent(state),
    ensures
        consistent(state.apply_all(register_changes(instance))),
{
    let registering = instance.service_name;
    let after = state.apply_all(register_changes(instance));
    lemma_register_effect(state, instance);
    lemma_keys_distinct(registering, registering);
    lemma_with_fields_keeps(
        state.fields(labels_key(registering)).insert(JOB_LABEL@, instance.job_name),
        instance.labels,
        JOB_LABEL@,
    );
    lemma_others_keep(state, after, registering);
    assert forall|service: Seq<char>|
        #![trigger after.members(SERVICE_SET_KEY@).contains(service)]
        after.members(SERVICE_SET_KEY@).contains(service) <==> after.fields(
            labels_key(service),
        ).contains_key(JOB_LABEL@) && has_targets(after, service) by {
        if service == registering {
            let target = target_address(instance.host, instance.port, instance.metrics_path);
            assert(after.members(targets_key(service)).contains(target));
        } else {
            assert(service_view(after, service) == service_view(state, service));
            assert(state.members(SERVICE_SET_KEY@).contains(service) <==> state.fields(
                labels_key(service),
            ).contains_key(JOB_LABEL@) && has_targets(state, service));
            assert(after.members(targets_key(service)) == state.members(targets_key(service)));
        }
    }
}

/// Unregistering keeps the registry consistent, where it is decided on the
/// targets that the backend holds.
pub proof fn law_unregister_keeps_consistency(
    state: StoreState,
    service: Seq<char>,
    host: Option<Seq<char>>,
    targets: Seq<Seq<char>>,
)
    requires
        consistent(state),
        lists_targets(state, service, targets),
        unregister_changes(service, host, targets) is Ok,
    ensures
        consistent(state.apply_all(unregister_changes(service, host, targets)->Ok_0)),
{
    let after = state.apply_all(unregister_changes(service, host, targets)->Ok_0);
    lemma_keys_distinct(service, service);
    let whole = host is None || targets.len() == 1;
    if whole {
        if host is Some {
            assert(targets =~= seq![targets[0]]);
            let w = choose|i: int|
                0 <= i < targets.len() && begins_with(#[trigger] targets[i], host->0);
            assert(w == 0);
            let single = seq![Change::SetRemove { key: targets_key(service), member: targets[0] }];
            lemma_first_match_exists(targets, host->0, 0);
            lemma_apply_all_concat(state, single, removal_changes(service));
            reveal_with_fuel(StoreState::apply_all, 2);
            assert(single.drop_first().len() == 0);
            let middle = state.apply(single[0]);
            assert(state.apply_all(single) == middle);
            lemma_removal_effect(middle, service);
        } else {
            lemma_removal_effect(state, service);
        }
        lemma_others_keep(state, after, service);
        assert forall|other: Seq<char>|
            #![trigger after.members(SERVICE_SET_KEY@).contains(other)]
            after.members(SERVICE_SET_KEY@).contains(other) <==> after.fields(
                labels_key(other),
            ).contains_key(JOB_LABEL@) && has_targets(after, other) by {
            if other != service {
                assert(service_view(after, other) == service_view(state, other));
                assert(state.members(SERVICE_SET_KEY@).contains(other) <==> state.fields(
                    labels_key(other),
                ).contains_key(JOB_LABEL@) && has_targets(state, other));
                assert(after.members(targets_key(other)) == state.members(targets_key(other)));
            }
        }
    } else {
        let prefix = host->0;
        let w = choose|i: int| 0 <= i < targets.len() && begins_with(#[trigger] targets[i], prefix);
        lemma_first_match_exists(targets, prefix, w);
        let k = first_match(targets, prefix);
        law_unregister_one_target(state, service, prefix, targets);
        let left = if k == 0 {
            targets[1]
        } else {
            targets[0]
        };
        assert(targets.to_set().contains(left));
        assert(after.members(targets_key(service)).contains(left));
        assert(targets.to_set().contains(targets[k]));
        assert forall|other: Seq<char>|
            #![trigger after.members(SERVICE_SET_KEY@).contains(other)]
            after.members(SERVICE_SET_KEY@).contains(other) <==> after.fields(
                labels_key(other),
            ).contains_key(JOB_LABEL@) && has_targets(after, other) by {
            assert(state.members(SERVICE_SET_KEY@).contains(other) <==> state.fields(
                labels_key(other),
            ).contains_key(JOB_LABEL@) && has_targets(state, other));
            if other != service {
                assert(service_view(after, other) == service_view(state, other));
                assert(after.members(targets_key(other)) == state.members(targets_key(other)));
                assert(after.fields(labels_key(other)) == state.fields(labels_key(other)));
            }
        }
    }
}

} // verus!
