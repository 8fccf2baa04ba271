//! Registering, unregistering and discovering against a store in memory.

use crate::discovery::{
    lemma_key_order_is, lemma_rearranged, service_view, service_views, snapshot, snapshot_of,
    sorted_keys, RegisteredService,
};
use crate::error::{Failure, RegistryError};
use crate::instance::ServiceInstance;
use crate::naming::{labels_key_for, targets_key, targets_key_for, SERVICE_SET_KEY};
use crate::operation::{
    check_registered, optional_text, register_changes, register_instance, unregister_changes,
    unregister_instance, Change,
};
use crate::store::{listed_after_all, MemoryStore};
use crate::text_set::texts_of;
use vstd::prelude::*;

verus! {

/// What unregistering comes to: a failure where the service is not
/// registered, else what `unregister_changes` says.
pub open spec fn unregister_outcome(
    registered: bool,
    service: Seq<char>,
    host: Option<Seq<char>>,
    targets: Seq<Seq<char>>,
) -> Result<Seq<Change>, Failure> {
    if registered {
        unregister_changes(service, host, targets)
    } else {
        Err(Failure::NoSuchService { service })
    }
}

impl MemoryStore {
    /// Registers an instance: makes the changes of `register_changes` as one.
    pub fn register(&mut self, instance: &ServiceInstance)
        ensures
            final(self)@ == old(self)@.apply_all(register_changes(instance@)),
            forall|key: Seq<char>| #[trigger]
                final(self).listing(key) == listed_after_all(
                    old(self).listing(key),
                    key,
                    register_changes(instance@),
                ),
    {
        let operations = register_instance(instance);
        self.apply(&operations);
    }

    /// Unregisters a service, or the first of its targets that begins with
    /// `host`. On failure the store stays as it was.
    pub fn unregister(&mut self, service_name: &str, host: Option<&str>) -> (done: Result<
        (),
        RegistryError,
    >)
        ensures
            match (
                done,
                unregister_outcome(
                    old(self)@.members(SERVICE_SET_KEY@).contains(service_name@),
                    service_name@,
                    optional_text(host),
                    old(self).listing(targets_key(service_name@)),
                ),
            ) {
                (Ok(_), Ok(changes)) => {
                    &&& final(self)@ == old(self)@.apply_all(changes)
                    &&& forall|key: Seq<char>| #[trigger]
                        final(self).listing(key) == listed_after_all(
                            old(self).listing(key),
                            key,
                            changes,
                        )
                },
                (Err(e), Err(failure)) => {
                    &&& e@ == failure
                    &&& final(self)@ == old(self)@
                    &&& forall|key: Seq<char>| #[trigger]
                        final(self).listing(key) == old(self).listing(key)
                },
                _ => false,
            },
            old(self).listing(targets_key(service_name@)).no_duplicates(),
            old(self).listing(targets_key(service_name@)).to_set() == old(self)@.members(
                targets_key(service_name@),
            ),
    {
        let key = targets_key_for(service_name);
        let targets = self.members(key.as_str());
        let member = self.is_member(SERVICE_SET_KEY, service_name);
        match check_registered(service_name, member) {
            Err(e) => {
                return Err(e);
            },
            Ok(_) => {},
        }
        match unregister_instance(service_name, host, &targets) {
            Ok(operations) => {
                self.apply(&operations);
                Ok(())
            },
            Err(e) => Err(e),
        }
    }

    /// The snapshot of the store.
    pub fn discover(&self) -> (services: Vec<RegisteredService>)
        ensures
            service_views(services@) == snapshot(self@),
    {
        let set = self.members(SERVICE_SET_KEY);
        let listed = set.to_vec();
        let keys = sorted_keys(&listed);
        let ghost order = texts_of(keys@);
        proof {
            lemma_rearranged(texts_of(listed@), order);
            lemma_key_order_is(order, self@.members(SERVICE_SET_KEY@));
        }
        let mut services: Vec<RegisteredService> = Vec::new();
        assert(service_views(services@) =~= snapshot_of(self@, order.take(0)));
        let mut i: usize = 0;
        while i < keys.len()
            invariant
                i <= keys.len(),
                order == texts_of(keys@),
                service_views(services@) == snapshot_of(self@, order.take(i as int)),
            decreases keys.len() - i,
        {
            let service = keys[i].as_str();
            let labels = self.hash_get_all(labels_key_for(service).as_str());
            let targets = self.members(targets_key_for(service).as_str());
            let ghost before = service_views(services@);
            services.push(RegisteredService { labels, targets });
            proof {
                assert(service_views(services@) =~= before.push(service_view(self@, order[i as int])));
                assert(snapshot_of(self@, order.take(i + 1)) =~= snapshot_of(
                    self@,
                    order.take(i as int),
                ).push(service_view(self@, order[i as int])));
            }
            i += 1;
        }
        assert(order.take(i as int) =~= order);
        services
    }
}

} // verus!
