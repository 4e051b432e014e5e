//! A finite set of strings, kept in insertion order.

use vstd::prelude::*;

verus! {

/// The character sequences that a list of strings stands for, in order.
pub open spec fn texts(items: Seq<String>) -> Seq<Seq<char>> {
    items.map_values(|s: String| s@)
}

/// Copies a list of strings.
pub fn clone_strings(items: &Vec<String>) -> (copy: Vec<String>)
    ensures
        copy@ == items@,
{
    let copy = items.clone();
    assert(copy@ =~= items@);
    copy
}

/// A set of strings. Its view is the set of their character sequences.
#[derive(Debug)]
pub struct StringSet {
    items: Vec<String>,
}

impl View for StringSet {
    type V = Set<Seq<char>>;

    closed spec fn view(&self) -> Set<Seq<char>> {
        texts(self.items@).to_set()
    }
}

impl StringSet {
    #[verifier::type_invariant]
    spec fn distinct(self) -> bool {
        texts(self.items@).no_duplicates()
    }

    /// The members in the order in which they were first inserted.
    pub closed spec fn order(self) -> Seq<Seq<char>> {
        texts(self.items@)
    }

    /// The view is the finite set of what the insertion order lists.
    pub proof fn lemma_view(self)
        ensures
            self.order().to_set() == self@,
            self@.finite(),
    {
        vstd::seq_lib::seq_to_set_is_finite(self.order());
    }

    /// The empty set.
    pub fn new() -> (s: Self)
        ensures
            s@ == Set::<Seq<char>>::empty(),
            s.order() == Seq::<Seq<char>>::empty(),
    {
        let s = StringSet { items: Vec::new() };
        assert(texts(s.items@) =~= Seq::<Seq<char>>::empty());
        assert(s@ =~= Set::<Seq<char>>::empty());
        s
    }

    /// The number of members.
    pub fn len(&self) -> (n: usize)
        ensures
            n == self@.len(),
            n == self.order().len(),
    {
        proof {
            use_type_invariant(self);
            texts(self.items@).unique_seq_to_set();
        }
        self.items.len()
    }

    /// Whether the set has no member.
    pub fn is_empty(&self) -> (b: bool)
        ensures
            b == (self@ == Set::<Seq<char>>::empty()),
    {
        let b = self.items.len() == 0;
        proof {
            if b {
                assert(self@ =~= Set::<Seq<char>>::empty());
            } else {
                assert(texts(self.items@)[0] == self.items@[0]@);
                assert(texts(self.items@).contains(self.items@[0]@));
                assert(self@.contains(self.items@[0]@));
            }
        }
        b
    }

    /// Whether `item` is a member.
    pub fn contains_string(&self, item: &String) -> (b: bool)
        ensures
            b == self@.contains(item@),
    {
        let mut i: usize = 0;
        while i < self.items.len()
            invariant
                i <= self.items.len(),
                forall|j: int| 0 <= j < i ==> texts(self.items@)[j] != item@,
            decreases self.items.len() - i,
        {
            if self.items[i] == *item {
                assert(texts(self.items@)[i as int] == item@);
                return true;
            }
            i += 1;
        }
        false
    }

    /// Whether `item` is a member.
    pub fn contains(&self, item: &str) -> (b: bool)
        ensures
            b == self@.contains(item@),
    {
        let owned = item.to_owned();
        self.contains_string(&owned)
    }

    /// Adds `item`; says whether it was new.
    pub fn insert(&mut self, item: String) -> (fresh: bool)
        ensures
            final(self)@ == old(self)@.insert(item@),
            fresh == !old(self)@.contains(item@),
            final(self).order() == if fresh {
                old(self).order().push(item@)
            } else {
                old(self).order()
            },
    {
        proof {
            use_type_invariant(&*self);
        }
        if self.contains_string(&item) {
            assert(self@.insert(item@) =~= self@);
            false
        } else {
            let ghost before = texts(self.items@);
            let ghost text = item@;
            let mut items: Vec<String> = Vec::new();
            std::mem::swap(&mut items, &mut self.items);
            items.push(item);
            proof {
                assert(texts(items@) =~= before.push(text));
                before.lemma_push_to_set_commute(text);
            }
            self.items = items;
            true
        }
    }

    /// Adds every member of `other`.
    pub fn extend(&mut self, other: &StringSet)
        ensures
            final(self)@ == old(self)@.union(other@),
    {
        let mut i: usize = 0;
        while i < other.items.len()
            invariant
                i <= other.items.len(),
                self@ == old(self)@.union(texts(other.items@).take(i as int).to_set()),
            decreases other.items.len() - i,
        {
            let ghost done = texts(other.items@).take(i as int);
            let item = other.items[i].clone();
            self.insert(item);
            proof {
                assert(texts(other.items@).take(i + 1) =~= done.push(other.items@[i as int]@));
                done.lemma_push_to_set_commute(other.items@[i as int]@);
                assert(self@ =~= old(self)@.union(
                    texts(other.items@).take(i + 1).to_set(),
                ));
            }
            i += 1;
        }
        proof {
            assert(texts(other.items@).take(i as int) =~= texts(other.items@));
        }
    }

    /// The members, each once, in the order in which they were first inserted.
    pub fn to_vec(&self) -> (members: Vec<String>)
        ensures
            texts(members@) == self.order(),
            texts(members@).no_duplicates(),
            texts(members@).to_set() == self@,
    {
        proof {
            use_type_invariant(self);
        }
        clone_strings(&self.items)
    }

    /// The set of the strings in `items`.
    pub fn from_vec(items: Vec<String>) -> (s: Self)
        ensures
            s@ == texts(items@).to_set(),
    {
        let mut s = StringSet::new();
        let mut i: usize = 0;
        while i < items.len()
            invariant
                i <= items.len(),
                s@ == texts(items@).take(i as int).to_set(),
            decreases items.len() - i,
        {
            let ghost done = texts(items@).take(i as int);
            s.insert(items[i].clone());
            proof {
                assert(texts(items@).take(i + 1) =~= done.push(items@[i as int]@));
                done.lemma_push_to_set_commute(items@[i as int]@);
            }
            i += 1;
        }
        proof {
            assert(texts(items@).take(i as int) =~= texts(items@));
        }
        s
    }
}

impl StringSet {
    /// Whether every member of this set is a member of `other`.
    pub fn is_subset_of(&self, other: &StringSet) -> (b: bool)
        ensures
            b == self@.subset_of(other@),
    {
        let mut i: usize = 0;
        while i < self.items.len()
            invariant
                i <= self.items.len(),
                forall|j: int| 0 <= j < i ==> other@.contains(#[trigger] texts(self.items@)[j]),
            decreases self.items.len() - i,
        {
            if !other.contains_string(&self.items[i]) {
                proof {
                    assert(texts(self.items@)[i as int] == self.items@[i as int]@);
                    assert(texts(self.items@).contains(self.items@[i as int]@));
                }
                return false;
            }
            i += 1;
        }
        proof {
            assert forall|t: Seq<char>| self@.contains(t) implies other@.contains(t) by {
                let at = texts(self.items@).index_of(t);
                assert(texts(self.items@)[at] == t);
            }
        }
        true
    }
}

impl PartialEq for StringSet {
    /// Two sets are equal where they have the same members.
    fn eq(&self, other: &Self) -> (b: bool) {
        let b = self.is_subset_of(other) && other.is_subset_of(self);
        proof {
            if b {
                assert(self@ =~= other@);
            }
        }
        b
    }
}

impl Eq for StringSet {

}

impl vstd::std_specs::cmp::PartialEqSpecImpl for StringSet {
    open spec fn obeys_eq_spec() -> bool {
        true
    }

    open spec fn eq_spec(&self, other: &Self) -> bool {
        self@ == other@
    }
}

impl Clone for StringSet {
    fn clone(&self) -> (copy: Self)
        ensures
            copy@ == self@,
            copy.order() == self.order(),
    {
        proof {
            use_type_invariant(self);
        }
        StringSet { items: clone_strings(&self.items) }
    }
}

} // verus!
