//! The backend as the registry sees it: sets and hashes under text keys,
//! changed by lists of operations. `StoreState` says what the backend holds;
//! `MemoryStore` keeps such a state in memory.

use crate::instance::pairs_of;
use crate::operation::{changes_of, Change, Operation};
use crate::text_map::TextMap;
use crate::text_set::TextSet;
use vstd::prelude::*;

verus! {

/// A hash after a list of fields was given their values, in order: of a field
/// named twice the last value stays.
pub open spec fn with_fields(
    hash: Map<Seq<char>, Seq<char>>,
    fields: Seq<(Seq<char>, Seq<char>)>,
) -> Map<Seq<char>, Seq<char>>
    decreases fields.len(),
{
    if fields.len() == 0 {
        hash
    } else {
        with_fields(hash.insert(fields[0].0, fields[0].1), fields.drop_first())
    }
}

/// Fields that a hash has stay when more fields are set.
pub proof fn lemma_with_fields_keeps(
    hash: Map<Seq<char>, Seq<char>>,
    fields: Seq<(Seq<char>, Seq<char>)>,
    field: Seq<char>,
)
    requires
        hash.contains_key(field),
    ensures
        with_fields(hash, fields).contains_key(field),
    decreases fields.len(),
{
    if fields.len() > 0 {
        lemma_with_fields_keeps(hash.insert(fields[0].0, fields[0].1), fields.drop_first(), field);
    }
}

/// Whether a list of fields and values names a field.
pub open spec fn names_field(fields: Seq<(Seq<char>, Seq<char>)>, field: Seq<char>) -> bool {
    exists|i: int| 0 <= i < fields.len() && (#[trigger] fields[i]).0 == field
}

/// Whether two hashes hold the same under every field that a list of fields
/// does not name.
pub open spec fn agree_outside(
    a: Map<Seq<char>, Seq<char>>,
    b: Map<Seq<char>, Seq<char>>,
    fields: Seq<(Seq<char>, Seq<char>)>,
) -> bool {
    forall|k: Seq<char>|
        #![trigger names_field(fields, k)]
        !names_field(fields, k) ==> a.contains_key(k) == b.contains_key(k) && (a.contains_key(k)
            ==> a[k] == b[k])
}

/// Two hashes that differ only in fields that are set afterwards come out the
/// same.
pub proof fn lemma_with_fields_absorbs(
    a: Map<Seq<char>, Seq<char>>,
    b: Map<Seq<char>, Seq<char>>,
    fields: Seq<(Seq<char>, Seq<char>)>,
)
    requires
        agree_outside(a, b, fields),
    ensures
        with_fields(a, fields) == with_fields(b, fields),
    decreases fields.len(),
{
    if fields.len() == 0 {
        assert forall|k: Seq<char>| #[trigger] a.dom().contains(k) == b.dom().contains(k) by {
            assert(!names_field(fields, k));
        }
        assert forall|k: Seq<char>| a.dom().contains(k) implies #[trigger] a[k] == b[k] by {
            assert(!names_field(fields, k));
        }
        assert(a =~= b);
    } else {
        let rest = fields.drop_first();
        let a1 = a.insert(fields[0].0, fields[0].1);
        let b1 = b.insert(fields[0].0, fields[0].1);
        assert forall|k: Seq<char>|
            #![trigger names_field(rest, k)]
            !names_field(rest, k) implies a1.contains_key(k) == b1.contains_key(k) && (
            a1.contains_key(k) ==> a1[k] == b1[k]) by {
            if k != fields[0].0 {
                if names_field(fields, k) {
                    let i = choose|i: int| 0 <= i < fields.len() && (#[trigger] fields[i]).0 == k;
                    assert(rest[i - 1] == fields[i]);
                }
                assert(!names_field(fields, k));
            }
        }
        lemma_with_fields_absorbs(a1, b1, rest);
    }
}

/// A field that is not set keeps what it had.
pub proof fn lemma_with_fields_outside(
    hash: Map<Seq<char>, Seq<char>>,
    fields: Seq<(Seq<char>, Seq<char>)>,
    field: Seq<char>,
)
    requires
        !names_field(fields, field),
    ensures
        with_fields(hash, fields).contains_key(field) == hash.contains_key(field),
        with_fields(hash, fields)[field] == hash[field],
    decreases fields.len(),
{
    if fields.len() > 0 {
        let rest = fields.drop_first();
        if names_field(rest, field) {
            let i = choose|i: int| 0 <= i < rest.len() && (#[trigger] rest[i]).0 == field;
            assert(fields[i + 1] == rest[i]);
        }
        assert(fields[0].0 != field);
        lemma_with_fields_outside(hash.insert(fields[0].0, fields[0].1), rest, field);
    }
}

/// Where no field is named twice, each named field ends with the value that
/// the list gives it.
pub proof fn lemma_with_fields_distinct(
    hash: Map<Seq<char>, Seq<char>>,
    fields: Seq<(Seq<char>, Seq<char>)>,
    i: int,
)
    requires
        forall|x: int, y: int| 0 <= x < y < fields.len() ==> fields[x].0 != fields[y].0,
        0 <= i < fields.len(),
    ensures
        with_fields(hash, fields).contains_key(fields[i].0),
        with_fields(hash, fields)[fields[i].0] == fields[i].1,
    decreases fields.len(),
{
    let rest = fields.drop_first();
    let first = hash.insert(fields[0].0, fields[0].1);
    if i == 0 {
        if names_field(rest, fields[0].0) {
            let j = choose|j: int| 0 <= j < rest.len() && (#[trigger] rest[j]).0 == fields[0].0;
            assert(fields[j + 1] == rest[j]);
        }
        lemma_with_fields_outside(first, rest, fields[0].0);
    } else {
        assert forall|x: int, y: int| 0 <= x < y < rest.len() implies rest[x].0 != rest[y].0 by {
            assert(rest[x] == fields[x + 1]);
            assert(rest[y] == fields[y + 1]);
        }
        lemma_with_fields_distinct(first, rest, i - 1);
    }
}

/// What the backend holds: under every key a set and a hash. A key that was
/// never written, or was deleted, holds the empty set and the empty hash.
pub struct StoreState {
    pub sets: Map<Seq<char>, Set<Seq<char>>>,
    pub hashes: Map<Seq<char>, Map<Seq<char>, Seq<char>>>,
}

impl StoreState {
    /// The state in which nothing was written.
    pub open spec fn empty() -> StoreState {
        StoreState {
            sets: Map::total(|k: Seq<char>| Set::<Seq<char>>::empty()),
            hashes: Map::total(|k: Seq<char>| Map::<Seq<char>, Seq<char>>::empty()),
        }
    }

    /// The members of the set under a key.
    pub open spec fn members(self, key: Seq<char>) -> Set<Seq<char>> {
        self.sets[key]
    }

    /// The fields of the hash under a key, each with its value.
    pub open spec fn fields(self, key: Seq<char>) -> Map<Seq<char>, Seq<char>> {
        self.hashes[key]
    }

    /// The state after one change.
    pub open spec fn apply(self, change: Change) -> StoreState {
        match change {
            Change::SetAdd { key, member } => StoreState {
                sets: self.sets.insert(key, self.members(key).insert(member)),
                hashes: self.hashes,
            },
            Change::SetRemove { key, member } => StoreState {
                sets: self.sets.insert(key, self.members(key).remove(member)),
                hashes: self.hashes,
            },
            Change::HashSet { key, field, value } => StoreState {
                sets: self.sets,
                hashes: self.hashes.insert(key, self.fields(key).insert(field, value)),
            },
            Change::HashSetMany { key, fields } => StoreState {
                sets: self.sets,
                hashes: self.hashes.insert(key, with_fields(self.fields(key), fields)),
            },
            Change::Delete { key } => StoreState {
                sets: self.sets.insert(key, Set::empty()),
                hashes: self.hashes.insert(key, Map::empty()),
            },
        }
    }

    /// The state after a list of changes, made in order.
    pub open spec fn apply_all(self, changes: Seq<Change>) -> StoreState
        decreases changes.len(),
    {
        if changes.len() == 0 {
            self
        } else {
            self.apply(changes[0]).apply_all(changes.drop_first())
        }
    }
}

/// Changes made one list after another are the changes of the joined list.
pub proof fn lemma_apply_all_concat(state: StoreState, first: Seq<Change>, second: Seq<Change>)
    ensures
        state.apply_all(first + second) == state.apply_all(first).apply_all(second),
    decreases first.len(),
{
    if first.len() == 0 {
        assert(first + second =~= second);
    } else {
        assert((first + second).drop_first() =~= first.drop_first() + second);
        lemma_apply_all_concat(state.apply(first[0]), first.drop_first(), second);
    }
}

/// A listing of a set after one change to the backend: a new member goes to
/// the end, a member that is taken out leaves the others in their order, and
/// a deleted key lists nothing. `key` is the key of the set that is listed.
pub open spec fn listed_after(listing: Seq<Seq<char>>, key: Seq<char>, change: Change) -> Seq<
    Seq<char>,
> {
    match change {
        Change::SetAdd { key: changed, member } => if changed == key && !listing.contains(member) {
            listing.push(member)
        } else {
            listing
        },
        Change::SetRemove { key: changed, member } => if changed == key && listing.contains(
            member,
        ) {
            listing.remove(listing.index_of(member))
        } else {
            listing
        },
        Change::Delete { key: changed } => if changed == key {
            Seq::empty()
        } else {
            listing
        },
        _ => listing,
    }
}

/// A listing of a set after a list of changes, made in order.
pub open spec fn listed_after_all(listing: Seq<Seq<char>>, key: Seq<char>, changes: Seq<Change>) -> Seq<
    Seq<char>,
>
    decreases changes.len(),
{
    if changes.len() == 0 {
        listing
    } else {
        listed_after_all(listed_after(listing, key, changes[0]), key, changes.drop_first())
    }
}

/// Gives the fields of a list their values, in order.
pub fn set_fields(hash: &mut TextMap<String>, fields: &Vec<(String, String)>)
    ensures
        final(hash)@ == with_fields(old(hash)@, pairs_of(fields@)),
{
    let ghost wanted = with_fields(hash@, pairs_of(fields@));
    assert(pairs_of(fields@).skip(0) =~= pairs_of(fields@));
    let mut i: usize = 0;
    while i < fields.len()
        invariant
            i <= fields.len(),
            with_fields(hash@, pairs_of(fields@).skip(i as int)) == wanted,
        decreases fields.len() - i,
    {
        let ghost earlier = hash@;
        hash.insert(fields[i].0.clone(), fields[i].1.clone());
        proof {
            let rest = pairs_of(fields@).skip(i as int);
            assert(hash@ =~= earlier.insert(rest[0].0, rest[0].1));
            assert(rest.drop_first() =~= pairs_of(fields@).skip(i + 1));
        }
        i += 1;
    }
}

/// A store kept in memory. Besides what the backend holds it has an order in
/// which it lists the members of each set: the order in which they arrived.

pub struct MemoryStore {
    sets: TextMap<TextSet>,
    hashes: TextMap<TextMap<String>>,
}

impl View for MemoryStore {
    type V = StoreState;

    closed spec fn view(&self) -> StoreState {
        StoreState {
            sets: Map::total(
                |k: Seq<char>|
                    if self.sets.contents().contains_key(k) {
                        self.sets.contents()[k]@
                    } else {
                        Set::empty()
                    },
            ),
            hashes: Map::total(
                |k: Seq<char>|
                    if self.hashes.contents().contains_key(k) {
                        self.hashes.contents()[k]@
                    } else {
                        Map::empty()
                    },
            ),
        }
    }
}

impl MemoryStore {
    /// The order in which the store lists the members of the set under a key.
    pub closed spec fn listing(&self, key: Seq<char>) -> Seq<Seq<char>> {
        if self.sets.contents().contains_key(key) {
            self.sets.contents()[key].order()
        } else {
            Seq::empty()
        }
    }

    /// A store in which nothing was written.
    pub fn new() -> (store: MemoryStore)
        ensures
            store@ == StoreState::empty(),
            forall|key: Seq<char>| #[trigger] store.listing(key) == Seq::<Seq<char>>::empty(),
    {
        let store = MemoryStore { sets: TextMap::new(), hashes: TextMap::new() };
        assert(store@.sets =~= StoreState::empty().sets);
        assert(store@.hashes =~= StoreState::empty().hashes);
        store
    }

    /// The members of the set under a key.
    pub fn members(&self, key: &str) -> (set: TextSet)
        ensures
            set@ == self@.members(key@),
            set.order() == self.listing(key@),
            self.listing(key@).no_duplicates(),
            self.listing(key@).to_set() == self@.members(key@),
    {
        match self.sets.get(key) {
            Some(set) => set.copy(),
            None => TextSet::new(),
        }
    }

    /// Whether a text is a member of the set under a key.
    pub fn is_member(&self, key: &str, member: &str) -> (found: bool)
        ensures
            found == self@.members(key@).contains(member@),
    {
        match self.sets.get(key) {
            Some(set) => set.contains(member),
            None => false,
        }
    }

    /// The fields of the hash under a key, each with its value.
    pub fn hash_get_all(&self, key: &str) -> (hash: TextMap<String>)
        ensures
            hash@ == self@.fields(key@),
    {
        match self.hashes.get(key) {
            Some(hash) => hash.copy(),
            None => {
                let hash: TextMap<String> = TextMap::new();
                assert(hash@ =~= Map::<Seq<char>, Seq<char>>::empty());
                hash
            },
        }
    }

    fn take_set(&mut self, key: &str) -> (set: TextSet)
        ensures
            set@ == old(self)@.members(key@),
            set.order() == old(self).listing(key@),
            !final(self).sets.contents().contains_key(key@),
            final(self).sets.contents() == old(self).sets.contents().remove(key@),
            final(self).hashes == old(self).hashes,
    {
        match self.sets.remove(key) {
            Some(set) => set,
            None => TextSet::new(),
        }
    }

    fn take_hash(&mut self, key: &str) -> (hash: TextMap<String>)
        ensures
            hash@ == old(self)@.fields(key@),
            !final(self).hashes.contents().contains_key(key@),
            final(self).hashes.contents() == old(self).hashes.contents().remove(key@),
            final(self).sets == old(self).sets,
    {
        match self.hashes.remove(key) {
            Some(hash) => hash,
            None => {
                let hash: TextMap<String> = TextMap::new();
                assert(hash@ =~= Map::<Seq<char>, Seq<char>>::empty());
                hash
            },
        }
    }

    /// Makes one change.
    pub fn apply_one(&mut self, operation: &Operation)
        ensures
            final(self)@ == old(self)@.apply(operation@),
            forall|key: Seq<char>| #[trigger]
                final(self).listing(key) == listed_after(old(self).listing(key), key, operation@),
    {
        let ghost before = self@;
        match operation {
            Operation::SetAdd { key, member } => {
                let mut set = self.take_set(key.as_str());
                set.insert(member.clone());
                self.sets.insert(key.clone(), set);
            },
            Operation::SetRemove { key, member } => {
                let mut set = self.take_set(key.as_str());
                set.remove(member.as_str());
                self.sets.insert(key.clone(), set);
            },
            Operation::HashSet { key, field, value } => {
                let mut hash = self.take_hash(key.as_str());
                let ghost old_hash = hash@;
                hash.insert(field.clone(), value.clone());
                assert(hash@ =~= old_hash.insert(field@, value@));
                self.hashes.insert(key.clone(), hash);
            },
            Operation::HashSetMany { key, fields } => {
                let mut hash = self.take_hash(key.as_str());
                set_fields(&mut hash, fields);
                self.hashes.insert(key.clone(), hash);
            },
            Operation::Delete { key } => {
                self.sets.remove(key.as_str());
                self.hashes.remove(key.as_str());
            },
        }
        assert(self@.sets =~= before.apply(operation@).sets);
        assert(self@.hashes =~= before.apply(operation@).hashes);
    }

    /// Makes a list of changes, in order.
    pub fn apply(&mut self, operations: &Vec<Operation>)
        ensures
            final(self)@ == old(self)@.apply_all(changes_of(operations@)),
            forall|key: Seq<char>| #[trigger]
                final(self).listing(key) == listed_after_all(
                    old(self).listing(key),
                    key,
                    changes_of(operations@),
                ),
    {
        let ghost wanted = self@.apply_all(changes_of(operations@));
        let ghost earlier = *self;
        assert(changes_of(operations@).skip(0) =~= changes_of(operations@));
        let mut i: usize = 0;
        while i < operations.len()
            invariant
                i <= operations.len(),
                self@.apply_all(changes_of(operations@).skip(i as int)) == wanted,
                forall|key: Seq<char>| #[trigger]
                    listed_after_all(
                        self.listing(key),
                        key,
                        changes_of(operations@).skip(i as int),
                    ) == listed_after_all(earlier.listing(key), key, changes_of(operations@)),
            decreases operations.len() - i,
        {
            let ghost previous = *self;
            self.apply_one(&operations[i]);
            proof {
                let rest = changes_of(operations@).skip(i as int);
                assert(rest[0] == operations@[i as int]@);
                assert(rest.drop_first() =~= changes_of(operations@).skip(i + 1));
                assert forall|key: Seq<char>| #[trigger]
                    listed_after_all(
                        self.listing(key),
                        key,
                        changes_of(operations@).skip(i + 1),
                    ) == listed_after_all(
                        earlier.listing(key),
                        key,
                        changes_of(operations@),
                    ) by {
                    assert(self.listing(key) == listed_after(previous.listing(key), key, rest[0]));
                    assert(listed_after_all(previous.listing(key), key, rest) == listed_after_all(
                        earlier.listing(key),
                        key,
                        changes_of(operations@),
                    ));
                }
            }
            i += 1;
        }
        proof {
            let none = changes_of(operations@).skip(i as int);
            assert(none.len() == 0);
            assert forall|key: Seq<char>| #[trigger]
                self.listing(key) == listed_after_all(
                    earlier.listing(key),
                    key,
                    changes_of(operations@),
                ) by {
                assert(listed_after_all(self.listing(key), key, none) == self.listing(key));
            }
        }
    }
}

} // verus!
