//! The snapshot of the registry: every registered service with its labels and
//! targets, in the order of the service keys.

use crate::instance::pairs_of;
use crate::naming::{labels_key, targets_key, SERVICE_SET_KEY};
use crate::store::{
    lemma_with_fields_distinct, lemma_with_fields_outside, names_field, set_fields, with_fields,
    StoreState,
};
use crate::text::{lemma_text_le_order, text_le, text_precedes};
use crate::text_map::TextMap;
use crate::text_set::{texts_of, TextSet};
use vstd::prelude::*;
use vstd::seq_lib::{to_multiset_build, to_multiset_contains, to_multiset_insert};

verus! {

/// A registered service as it is published: its labels and its targets.
pub struct RegisteredService {
    pub labels: TextMap<String>,
    pub targets: TextSet,
}

/// A registered service over texts.
pub struct ServiceView {
    pub labels: Map<Seq<char>, Seq<char>>,
    pub targets: Set<Seq<char>>,
}

impl View for RegisteredService {
    type V = ServiceView;

    open spec fn view(&self) -> ServiceView {
        ServiceView { labels: self.labels@, targets: self.targets@ }
    }
}

impl RegisteredService {
    /// The service that the backend's answers describe: the fields of its
    /// labels with their values, and its targets. Of a field that is listed
    /// twice the last value counts; a target that is listed twice counts once.
    pub fn new(labels: Vec<(String, String)>, targets: Vec<String>) -> (service: RegisteredService)
        ensures
            service@.labels == with_fields(Map::empty(), pairs_of(labels@)),
            service@.targets == texts_of(targets@).to_set(),
    {
        let mut map: TextMap<String> = TextMap::new();
        assert(map@ =~= Map::<Seq<char>, Seq<char>>::empty());
        set_fields(&mut map, &labels);
        RegisteredService { labels: map, targets: TextSet::from_vec(targets) }
    }
}

impl RegisteredService {
    /// The labels as a list of fields and values and the targets as a list,
    /// each in the order in which it is kept: what is handed on for writing.
    /// A service built from these lists is this service again.
    pub fn parts(&self) -> (lists: (Vec<(String, String)>, Vec<String>))
        ensures
            with_fields(Map::empty(), pairs_of(lists.0@)) == self@.labels,
            texts_of(lists.1@).to_set() == self@.targets,
            texts_of(lists.1@).no_duplicates(),
    {
        let count = self.labels.len();
        let mut labels: Vec<(String, String)> = Vec::new();
        let mut i: usize = 0;
        while i < count
            invariant
                count == self.labels.keys().len(),
                i <= count,
                labels@.len() == i,
                forall|j: int|
                    0 <= j < i ==> (#[trigger] pairs_of(labels@)[j]) == (
                        self.labels.keys()[j],
                        self.labels.values()[j]@,
                    ),
            decreases count - i,
        {
            let ghost before = labels@;
            let key = self.labels.key_at(i).clone();
            let value = self.labels.value_at(i).clone();
            labels.push((key, value));
            proof {
                assert forall|j: int| 0 <= j < i + 1 implies (#[trigger] pairs_of(labels@)[j]) == (
                    self.labels.keys()[j],
                    self.labels.values()[j]@,
                ) by {
                    if j < i {
                        assert(pairs_of(before)[j] == (
                            self.labels.keys()[j],
                            self.labels.values()[j]@,
                        ));
                        assert(labels@[j] == before[j]);
                    }
                }
            }
            i += 1;
        }
        proof {
            let keys = self.labels.keys();
            let values = self.labels.values();
            let fields = pairs_of(labels@);
            let built = with_fields(Map::<Seq<char>, Seq<char>>::empty(), fields);
            assert forall|x: int, y: int| 0 <= x < y < fields.len() implies fields[x].0
                != fields[y].0 by {
                assert(fields[x] == (keys[x], values[x]@));
                assert(fields[y] == (keys[y], values[y]@));
            }
            assert forall|k: Seq<char>| built.contains_key(k) == self@.labels.contains_key(k) by {
                if keys.contains(k) {
                    let j = keys.index_of(k);
                    assert(fields[j] == (keys[j], values[j]@));
                    lemma_with_fields_distinct(Map::empty(), fields, j);
                } else {
                    if names_field(fields, k) {
                        let j = choose|j: int| 0 <= j < fields.len() && (#[trigger] fields[j]).0 == k;
                        assert(fields[j] == (keys[j], values[j]@));
                    }
                    lemma_with_fields_outside(Map::empty(), fields, k);
                }
            }
            assert forall|k: Seq<char>| built.contains_key(k) implies built[k]
                == self@.labels[k] by {
                let j = keys.index_of(k);
                assert(fields[j] == (keys[j], values[j]@));
                lemma_with_fields_distinct(Map::empty(), fields, j);
            }
            assert(built =~= self@.labels);
        }
        (labels, self.targets.to_vec())
    }
}

/// The published form of a list of services, in order.
pub open spec fn service_views(services: Seq<RegisteredService>) -> Seq<ServiceView> {
    services.map_values(|s: RegisteredService| s@)
}

/// Whether a list of keys is in order: none comes after a later one.
pub open spec fn ascending(keys: Seq<Seq<char>>) -> bool {
    forall|i: int, j: int| 0 <= i < j < keys.len() ==> text_le(#[trigger] keys[i], #[trigger] keys[j])
}

/// Whether a list names each member of a set once, in order.
pub open spec fn is_key_order(keys: Seq<Seq<char>>, set: Set<Seq<char>>) -> bool {
    &&& ascending(keys)
    &&& keys.no_duplicates()
    &&& keys.to_set() == set
}

/// The members of a finite set in order.
pub open spec fn key_order(set: Set<Seq<char>>) -> Seq<Seq<char>> {
    choose|keys: Seq<Seq<char>>| is_key_order(keys, set)
}

/// What the backend holds for a service: its labels and its targets.
pub open spec fn service_view(state: StoreState, service: Seq<char>) -> ServiceView {
    ServiceView {
        labels: state.fields(labels_key(service)),
        targets: state.members(targets_key(service)),
    }
}

/// What the backend holds for each of a list of services, in order.
pub open spec fn snapshot_of(state: StoreState, keys: Seq<Seq<char>>) -> Seq<ServiceView> {
    keys.map_values(|k: Seq<char>| service_view(state, k))
}

/// The snapshot of a state: every service of the service set, in the order of
/// the service keys, with what the backend holds for it.
pub open spec fn snapshot(state: StoreState) -> Seq<ServiceView> {
    snapshot_of(state, key_order(state.members(SERVICE_SET_KEY@)))
}

/// Two lists that name the members of the same set once each, in order, are
/// the same list.
pub proof fn lemma_key_order_unique(a: Seq<Seq<char>>, b: Seq<Seq<char>>, set: Set<Seq<char>>)
    requires
        is_key_order(a, set),
        is_key_order(b, set),
    ensures
        a == b,
    decreases a.len(),
{
    a.unique_seq_to_set();
    b.unique_seq_to_set();
    if a.len() == 0 {
        assert(a =~= b);
    } else {
        assert(a.to_set().contains(a[0]));
        assert(b.to_set().contains(b[0]));
        let k = b.index_of(a[0]);
        let m = a.index_of(b[0]);
        lemma_text_le_order(a[0], b[0], a[0]);
        assert(a[0] == b[0]) by {
            if k > 0 {
                assert(text_le(b[0], b[k]));
            }
            if m > 0 {
                assert(text_le(a[0], a[m]));
            }
        }
        let rest_a = a.drop_first();
        let rest_b = b.drop_first();
        let rest = set.remove(a[0]);
        assert(rest_a.to_set() =~= rest) by {
            assert forall|t: Seq<char>| rest_a.to_set().contains(t) implies rest.contains(t) by {
                let j = rest_a.index_of(t);
                assert(a[j + 1] == t);
                assert(a.to_set().contains(t));
            }
            assert forall|t: Seq<char>| rest.contains(t) implies rest_a.to_set().contains(t) by {
                assert(a.to_set().contains(t));
                let j = a.index_of(t);
                assert(rest_a[j - 1] == t);
            }
        }
        assert(rest_b.to_set() =~= rest) by {
            assert forall|t: Seq<char>| rest_b.to_set().contains(t) implies rest.contains(t) by {
                let j = rest_b.index_of(t);
                assert(b[j + 1] == t);
                assert(b.to_set().contains(t));
            }
            assert forall|t: Seq<char>| rest.contains(t) implies rest_b.to_set().contains(t) by {
                assert(b.to_set().contains(t));
                let j = b.index_of(t);
                assert(rest_b[j - 1] == t);
            }
        }
        assert(ascending(rest_a)) by {
            assert forall|i: int, j: int| 0 <= i < j < rest_a.len() implies text_le(
                #[trigger] rest_a[i],
                #[trigger] rest_a[j],
            ) by {
                assert(text_le(a[i + 1], a[j + 1]));
            }
        }
        assert(ascending(rest_b)) by {
            assert forall|i: int, j: int| 0 <= i < j < rest_b.len() implies text_le(
                #[trigger] rest_b[i],
                #[trigger] rest_b[j],
            ) by {
                assert(text_le(b[i + 1], b[j + 1]));
            }
        }
        assert(rest_a.no_duplicates()) by {
            assert forall|i: int, j: int|
                0 <= i < rest_a.len() && 0 <= j < rest_a.len() && i != j implies rest_a[i]
                != rest_a[j] by {
                assert(a[i + 1] != a[j + 1]);
            }
        }
        assert(rest_b.no_duplicates()) by {
            assert forall|i: int, j: int|
                0 <= i < rest_b.len() && 0 <= j < rest_b.len() && i != j implies rest_b[i]
                != rest_b[j] by {
                assert(b[i + 1] != b[j + 1]);
            }
        }
        lemma_key_order_unique(rest_a, rest_b, rest);
        assert(a =~= seq![a[0]] + rest_a);
        assert(b =~= seq![b[0]] + rest_b);
    }
}

/// A list in order that names each member of a set once is the set's key
/// order.
pub proof fn lemma_key_order_is(keys: Seq<Seq<char>>, set: Set<Seq<char>>)
    requires
        is_key_order(keys, set),
    ensures
        key_order(set) == keys,
{
    lemma_key_order_unique(key_order(set), keys, set);
}

/// A list with the members of a list without repetition, each as often, has
/// no repetition either and names the same set.
pub proof fn lemma_rearranged(a: Seq<Seq<char>>, b: Seq<Seq<char>>)
    requires
        a.no_duplicates(),
        a.to_multiset() == b.to_multiset(),
    ensures
        b.no_duplicates(),
        b.to_set() == a.to_set(),
{
    a.lemma_multiset_has_no_duplicates();
    b.lemma_multiset_has_no_duplicates_conv();
    assert(b.to_set() =~= a.to_set()) by {
        assert forall|t: Seq<char>| a.contains(t) <==> b.contains(t) by {
            to_multiset_contains(a, t);
            to_multiset_contains(b, t);
        }
    }
}

/// The keys in order. Each key stays as often as it was listed.
pub fn sorted_keys(keys: &Vec<String>) -> (sorted: Vec<String>)
    ensures
        ascending(texts_of(sorted@)),
        texts_of(sorted@).to_multiset() == texts_of(keys@).to_multiset(),
{
    let mut sorted: Vec<String> = Vec::new();
    let ghost all = texts_of(keys@);
    assert(texts_of(sorted@) =~= all.take(0));
    let mut i: usize = 0;
    while i < keys.len()
        invariant
            i <= keys.len(),
            all == texts_of(keys@),
            ascending(texts_of(sorted@)),
            texts_of(sorted@).to_multiset() == all.take(i as int).to_multiset(),
        decreases keys.len() - i,
    {
        let key = keys[i].clone();
        let mut p: usize = 0;
        let mut placed = false;
        while p < sorted.len() && !placed
            invariant
                p <= sorted.len(),
                forall|j: int| 0 <= j < p ==> text_le(#[trigger] texts_of(sorted@)[j], key@),
                placed ==> p < sorted.len() && !text_le(texts_of(sorted@)[p as int], key@),
            decreases sorted.len() - p + if placed { 0int } else { 1int },
        {
            if text_precedes(sorted[p].as_str(), key.as_str()) {
                p += 1;
            } else {
                placed = true;
            }
        }
        let ghost before = texts_of(sorted@);
        sorted.insert(p, key);
        proof {
            let after = texts_of(sorted@);
            assert(after =~= before.insert(p as int, key@));
            to_multiset_insert(before, p as int, key@);
            assert(all.take(i + 1) =~= all.take(i as int).push(key@));
            to_multiset_build(all.take(i as int), key@);
            assert forall|x: int, y: int| 0 <= x < y < after.len() implies text_le(
                #[trigger] after[x],
                #[trigger] after[y],
            ) by {
                if y < p {
                    assert(text_le(before[x], before[y]));
                } else if y == p {
                    assert(text_le(before[x], key@));
                } else if x == p {
                    lemma_text_le_order(key@, before[p as int], before[y - 1]);
                    if y - 1 > p {
                        assert(text_le(before[p as int], before[y - 1]));
                    }
                } else if x > p {
                    assert(text_le(before[x - 1], before[y - 1]));
                } else {
                    assert(text_le(before[x], before[y - 1]));
                }
            }
        }
        i += 1;
    }
    assert(all.take(i as int) =~= all);
    sorted
}

} // verus!
