//! A set of texts that remembers the order in which its members arrived.

use crate::text::text_eq;
use vstd::prelude::*;

verus! {

/// The texts of a list of strings, in order.
pub open spec fn texts_of(items: Seq<String>) -> Seq<Seq<char>> {
    items.map_values(|s: String| s@)
}

/// A list without its repetitions: of each text the first occurrence stays.
pub open spec fn first_occurrences(texts: Seq<Seq<char>>) -> Seq<Seq<char>>
    decreases texts.len(),
{
    if texts.len() == 0 {
        texts
    } else {
        let earlier = first_occurrences(texts.drop_last());
        if earlier.contains(texts.last()) {
            earlier
        } else {
            earlier.push(texts.last())
        }
    }
}

/// A set of texts. No text occurs twice; members keep the order of arrival.
pub struct TextSet {
    items: Vec<String>,
}

impl View for TextSet {
    type V = Set<Seq<char>>;

    open spec fn view(&self) -> Set<Seq<char>> {
        self.order().to_set()
    }
}

impl TextSet {
    /// The members in the order in which they are kept.
    pub closed spec fn order(&self) -> Seq<Seq<char>> {
        texts_of(self.items@)
    }

    #[verifier::type_invariant]
    spec fn distinct(&self) -> bool {
        self.order().no_duplicates()
    }

    /// The empty set.
    pub fn new() -> (set: TextSet)
        ensures
            set.order() == Seq::<Seq<char>>::empty(),
            set@ == Set::<Seq<char>>::empty(),
    {
        let set = TextSet { items: Vec::new() };
        assert(set.order() =~= Seq::<Seq<char>>::empty());
        assert(set@ =~= Set::<Seq<char>>::empty());
        set
    }

    /// The number of members.
    pub fn len(&self) -> (n: usize)
        ensures
            n == self.order().len(),
            n == self@.len(),
            self.order().no_duplicates(),
            self@.finite(),
    {
        proof {
            use_type_invariant(self);
            self.order().unique_seq_to_set();
            vstd::seq_lib::seq_to_set_is_finite(self.order());
        }
        self.items.len()
    }

    /// The member at a place in the order.
    pub fn get(&self, i: usize) -> (member: &String)
        requires
            i < self.order().len(),
        ensures
            member@ == self.order()[i as int],
            self@.contains(member@),
    {
        let member = &self.items[i];
        assert(self.order()[i as int] == member@);
        member
    }

    /// Where a text stands in the order, if it is a member.
    pub fn position(&self, text: &str) -> (place: Option<usize>)
        ensures
            match place {
                Some(i) => i < self.order().len() && self.order()[i as int] == text@,
                None => !self@.contains(text@),
            },
    {
        let mut i: usize = 0;
        while i < self.items.len()
            invariant
                i <= self.items.len(),
                forall|j: int| 0 <= j < i ==> self.order()[j] != text@,
            decreases self.items.len() - i,
        {
            if text_eq(self.items[i].as_str(), text) {
                return Some(i);
            }
            i += 1;
        }
        None
    }

    /// Whether a text is a member.
    pub fn contains(&self, text: &str) -> (found: bool)
        ensures
            found == self@.contains(text@),
    {
        self.position(text).is_some()
    }

    /// Adds a text. A member stays where it was; a new one goes to the end.
    pub fn insert(&mut self, text: String) -> (added: bool)
        ensures
            added == !old(self)@.contains(text@),
            final(self)@ == old(self)@.insert(text@),
            final(self).order() == if added {
                old(self).order().push(text@)
            } else {
                old(self).order()
            },
    {
        proof {
            use_type_invariant(&*self);
        }
        if self.contains(text.as_str()) {
            assert(self@.insert(text@) =~= self@);
            false
        } else {
            let ghost before = self.order();
            let mut items: Vec<String> = Vec::new();
            core::mem::swap(&mut self.items, &mut items);
            items.push(text);
            assert(texts_of(items@) =~= before.push(text@));
            core::mem::swap(&mut self.items, &mut items);
            proof {
                assert(self.order() =~= before.push(text@));
                before.lemma_push_to_set_commute(text@);
            }
            true
        }
    }

    /// Takes a text out. The others keep their order.
    pub fn remove(&mut self, text: &str) -> (removed: bool)
        ensures
            removed == old(self)@.contains(text@),
            final(self)@ == old(self)@.remove(text@),
            removed ==> final(self).order() == old(self).order().remove(
                old(self).order().index_of(text@),
            ),
            !removed ==> final(self).order() == old(self).order(),
    {
        proof {
            use_type_invariant(&*self);
        }
        match self.position(text) {
            Some(i) => {
                let ghost before = self.order();
                let mut items: Vec<String> = Vec::new();
                core::mem::swap(&mut self.items, &mut items);
                items.remove(i);
                assert(texts_of(items@) =~= before.remove(i as int));
                core::mem::swap(&mut self.items, &mut items);
                proof {
                    assert(before.index_of(text@) == i);
                    assert(self.order() =~= before.remove(i as int));
                    assert(self@ =~= before.to_set().remove(text@)) by {
                        assert forall|t: Seq<char>|
                            before.to_set().remove(text@).contains(t) implies self@.contains(
                            t,
                        ) by {
                            let k = before.index_of(t);
                            if k < i {
                                assert(self.order()[k] == t);
                            } else {
                                assert(self.order()[k - 1] == t);
                            }
                        }
                        assert forall|t: Seq<char>| self@.contains(t) implies before.to_set().remove(
                            text@,
                        ).contains(t) by {
                            let k = self.order().index_of(t);
                            if k < i {
                                assert(before[k] == t);
                            } else {
                                assert(before[k + 1] == t);
                            }
                        }
                    }
                }
                true
            },
            None => {
                assert(self@.remove(text@) =~= self@);
                false
            },
        }
    }

    /// The set of the texts in a list. Of a text that occurs twice the first
    /// occurrence counts.
    pub fn from_vec(texts: Vec<String>) -> (set: TextSet)
        ensures
            set@ == texts_of(texts@).to_set(),
            set.order() == first_occurrences(texts_of(texts@)),
    {
        let mut set = TextSet::new();
        let ghost all = texts_of(texts@);
        assert(all.take(0) =~= Seq::<Seq<char>>::empty());
        let mut i: usize = 0;
        while i < texts.len()
            invariant
                i <= texts.len(),
                texts_of(texts@) == all,
                set@ == all.take(i as int).to_set(),
                set.order() == first_occurrences(all.take(i as int)),
            decreases texts.len() - i,
        {
            let text = texts[i].clone();
            set.insert(text);
            proof {
                let longer = all.take(i + 1);
                assert(longer.drop_last() =~= all.take(i as int));
                assert(longer.last() == all[i as int]);
                assert(longer =~= all.take(i as int).push(all[i as int]));
                all.take(i as int).lemma_push_to_set_commute(all[i as int]);
            }
            i += 1;
        }
        assert(all.take(i as int) =~= all);
        set
    }

    /// A set with the same members in the same order.
    pub fn copy(&self) -> (set: TextSet)
        ensures
            set.order() == self.order(),
            set@ == self@,
            set.order().no_duplicates(),
    {
        let items = self.to_vec();
        TextSet { items }
    }

    /// The members as a list, in their order.
    pub fn to_vec(&self) -> (texts: Vec<String>)
        ensures
            texts_of(texts@) == self.order(),
            self.order().no_duplicates(),
    {
        proof {
            use_type_invariant(self);
        }
        let mut texts: Vec<String> = Vec::new();
        let mut i: usize = 0;
        while i < self.items.len()
            invariant
                i <= self.items.len(),
                texts_of(texts@) == self.order().take(i as int),
            decreases self.items.len() - i,
        {
            let ghost before = texts@;
            let text = self.items[i].clone();
            texts.push(text);
            proof {
                let grown = texts_of(texts@);
                let wanted = self.order().take(i + 1);
                assert(self.order().len() == self.items@.len());
                assert(texts_of(before).len() == before.len());
                assert(self.order().take(i as int).len() == i);
                assert(grown.len() == wanted.len());
                assert forall|j: int| 0 <= j < grown.len() implies grown[j] == wanted[j] by {
                    if j < i {
                        assert(texts@[j] == before[j]);
                        assert(texts_of(before)[j] == self.order().take(i as int)[j]);
                    }
                }
                assert(grown =~= wanted);
            }
            i += 1;
        }
        assert(self.order().take(i as int) =~= self.order());
        texts
    }
}

} // verus!
