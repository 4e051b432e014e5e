//! The external references of an aggregate: for each group id, the source
//! tags that reported a use of it, in the order in which they arrived.

use crate::string_set::{clone_strings, texts};
use vstd::prelude::*;

verus! {

/// The tags listed under `key`; the empty list where `key` has no entry.
pub open spec fn sources_of(
    references: Map<Seq<char>, Seq<Seq<char>>>,
    key: Seq<char>,
) -> Seq<Seq<char>> {
    if references.contains_key(key) {
        references[key]
    } else {
        Seq::empty()
    }
}

#[derive(Debug)]
struct Entry {
    key: String,
    sources: Vec<String>,
}

spec fn keys_of(entries: Seq<Entry>) -> Seq<Seq<char>> {
    entries.map_values(|e: Entry| e.key@)
}

spec fn model(entries: Seq<Entry>) -> Map<Seq<char>, Seq<Seq<char>>> {
    Map::new(
        |k: Seq<char>| keys_of(entries).contains(k),
        |k: Seq<char>| texts(entries[keys_of(entries).index_of(k)].sources@),
    )
}

proof fn lemma_model_at(entries: Seq<Entry>, i: int)
    requires
        keys_of(entries).no_duplicates(),
        0 <= i < entries.len(),
    ensures
        model(entries).contains_key(entries[i].key@),
        model(entries)[entries[i].key@] == texts(entries[i].sources@),
{
    let keys = keys_of(entries);
    assert(keys[i] == entries[i].key@);
    assert(keys.contains(entries[i].key@));
    let j = keys.index_of(entries[i].key@);
    assert(keys[j] == keys[i]);
}

proof fn lemma_model_push(entries: Seq<Entry>, entry: Entry)
    requires
        keys_of(entries).no_duplicates(),
        !keys_of(entries).contains(entry.key@),
    ensures
        keys_of(entries.push(entry)) == keys_of(entries).push(entry.key@),
        keys_of(entries.push(entry)).no_duplicates(),
        model(entries.push(entry)) == model(entries).insert(entry.key@, texts(entry.sources@)),
{
    let grown = entries.push(entry);
    assert(keys_of(grown) =~= keys_of(entries).push(entry.key@));
    assert forall|k: Seq<char>| model(grown).contains_key(k) implies #[trigger] model(
        entries,
    ).insert(entry.key@, texts(entry.sources@)).contains_key(k) && model(grown)[k] == model(
        entries,
    ).insert(entry.key@, texts(entry.sources@))[k] by {
        let j = keys_of(grown).index_of(k);
        assert(keys_of(grown)[j] == k);
        lemma_model_at(grown, j);
        if j < entries.len() {
            assert(keys_of(entries)[j] == k);
            lemma_model_at(entries, j);
        }
    }
    assert forall|k: Seq<char>|
        model(entries).insert(entry.key@, texts(entry.sources@)).contains_key(
            k,
        ) implies #[trigger] model(grown).contains_key(k) by {
        if k == entry.key@ {
            assert(keys_of(grown)[entries.len() as int] == k);
        } else {
            let j = keys_of(entries).index_of(k);
            assert(keys_of(grown)[j] == k);
        }
    }
    assert(model(grown) =~= model(entries).insert(entry.key@, texts(entry.sources@)));
}

proof fn lemma_model_update(entries: Seq<Entry>, i: int, entry: Entry)
    requires
        keys_of(entries).no_duplicates(),
        0 <= i < entries.len(),
        entry.key@ == entries[i].key@,
    ensures
        keys_of(entries.update(i, entry)) == keys_of(entries),
        model(entries.update(i, entry)) == model(entries).insert(
            entry.key@,
            texts(entry.sources@),
        ),
{
    let changed = entries.update(i, entry);
    assert(keys_of(changed) =~= keys_of(entries));
    assert forall|k: Seq<char>| model(changed).contains_key(k) implies model(changed)[k] == model(
        entries,
    ).insert(entry.key@, texts(entry.sources@))[k] by {
        let j = keys_of(entries).index_of(k);
        assert(keys_of(entries)[j] == k);
        lemma_model_at(changed, j);
        lemma_model_at(entries, j);
        if j != i {
            assert(keys_of(entries)[i] == entries[i].key@);
        }
    }
    assert(keys_of(entries)[i] == entry.key@);
    assert(model(changed) =~= model(entries).insert(entry.key@, texts(entry.sources@)));
}

/// A map from group id to the list of source tags that refer to it.
#[derive(Debug)]
pub struct ReferenceMap {
    entries: Vec<Entry>,
}

impl View for ReferenceMap {
    type V = Map<Seq<char>, Seq<Seq<char>>>;

    closed spec fn view(&self) -> Map<Seq<char>, Seq<Seq<char>>> {
        model(self.entries@)
    }
}

impl ReferenceMap {
    #[verifier::type_invariant]
    spec fn distinct_keys(self) -> bool {
        keys_of(self.entries@).no_duplicates()
    }

    /// The keys in the order in which their entries were made.
    pub closed spec fn key_order(self) -> Seq<Seq<char>> {
        keys_of(self.entries@)
    }

    /// The keys of the view are those that the key order lists, and they are
    /// finitely many.
    pub proof fn lemma_view(self)
        ensures
            self@.dom() == self.key_order().to_set(),
            self@.dom().finite(),
    {
        vstd::seq_lib::seq_to_set_is_finite(self.key_order());
        assert(self@.dom() =~= self.key_order().to_set());
    }

    /// The map without entries.
    pub fn new() -> (m: Self)
        ensures
            m@ == Map::<Seq<char>, Seq<Seq<char>>>::empty(),
            m.key_order() == Seq::<Seq<char>>::empty(),
    {
        let m = ReferenceMap { entries: Vec::new() };
        assert(keys_of(m.entries@) =~= Seq::<Seq<char>>::empty());
        assert(m@ =~= Map::<Seq<char>, Seq<Seq<char>>>::empty());
        m
    }

    /// The number of group ids that have an entry.
    pub fn len(&self) -> (n: usize)
        ensures
            n == self@.dom().len(),
            n == self.key_order().len(),
    {
        proof {
            use_type_invariant(self);
            self.lemma_view();
            keys_of(self.entries@).unique_seq_to_set();
        }
        self.entries.len()
    }

    /// Whether no group id has an entry.
    pub fn is_empty(&self) -> (b: bool)
        ensures
            b == (self@ == Map::<Seq<char>, Seq<Seq<char>>>::empty()),
    {
        let b = self.entries.len() == 0;
        proof {
            if b {
                assert(self@ =~= Map::<Seq<char>, Seq<Seq<char>>>::empty());
            } else {
                assert(keys_of(self.entries@)[0] == self.entries@[0].key@);
                assert(self@.contains_key(self.entries@[0].key@));
            }
        }
        b
    }

    fn position(&self, key: &String) -> (at: Option<usize>)
        ensures
            match at {
                Some(i) => i < self.entries.len() && self.entries[i as int].key@ == key@,
                None => !keys_of(self.entries@).contains(key@),
            },
    {
        let mut i: usize = 0;
        while i < self.entries.len()
            invariant
                i <= self.entries.len(),
                forall|j: int| 0 <= j < i ==> keys_of(self.entries@)[j] != key@,
            decreases self.entries.len() - i,
        {
            if self.entries[i].key == *key {
                return Some(i);
            }
            i += 1;
        }
        None
    }

    /// The tags listed under `key`, if it has an entry.
    pub fn get_string(&self, key: &String) -> (found: Option<&Vec<String>>)
        ensures
            match found {
                Some(list) => self@.contains_key(key@) && texts(list@) == self@[key@],
                None => !self@.contains_key(key@),
            },
    {
        proof {
            use_type_invariant(self);
        }
        match self.position(key) {
            Some(i) => {
                proof {
                    lemma_model_at(self.entries@, i as int);
                }
                Some(&self.entries[i].sources)
            },
            None => None,
        }
    }

    /// The tags listed under `key`, if it has an entry.
    pub fn get(&self, key: &str) -> (found: Option<&Vec<String>>)
        ensures
            match found {
                Some(list) => self@.contains_key(key@) && texts(list@) == self@[key@],
                None => !self@.contains_key(key@),
            },
    {
        let owned = key.to_owned();
        self.get_string(&owned)
    }

    /// Whether `key` has an entry.
    pub fn contains_key(&self, key: &str) -> (b: bool)
        ensures
            b == self@.contains_key(key@),
    {
        self.get(key).is_some()
    }

    /// The keys, in the order in which their entries were made.
    pub fn keys(&self) -> (keys: Vec<String>)
        ensures
            texts(keys@) == self.key_order(),
            texts(keys@).no_duplicates(),
            texts(keys@).to_set() == self@.dom(),
    {
        proof {
            use_type_invariant(self);
            self.lemma_view();
        }
        let mut keys: Vec<String> = Vec::new();
        let mut i: usize = 0;
        while i < self.entries.len()
            invariant
                i <= self.entries.len(),
                texts(keys@) == keys_of(self.entries@).take(i as int),
            decreases self.entries.len() - i,
        {
            let ghost done = texts(keys@);
            keys.push(self.entries[i].key.clone());
            proof {
                assert(texts(keys@) =~= done.push(self.entries@[i as int].key@));
                assert(keys_of(self.entries@).take(i + 1) =~= done.push(
                    self.entries@[i as int].key@,
                ));
            }
            i += 1;
        }
        proof {
            assert(keys_of(self.entries@).take(i as int) =~= keys_of(self.entries@));
        }
        keys
    }

    /// Appends `tags` to the list under `key`, which starts empty where `key`
    /// had no entry.
    pub fn extend_list(&mut self, key: &String, tags: &Vec<String>)
        ensures
            final(self)@ == old(self)@.insert(
                key@,
                sources_of(old(self)@, key@) + texts(tags@),
            ),
            final(self).key_order() == if old(self)@.contains_key(key@) {
                old(self).key_order()
            } else {
                old(self).key_order().push(key@)
            },
    {
        proof {
            use_type_invariant(&*self);
        }
        let at = self.position(key);
        let mut entries: Vec<Entry> = Vec::new();
        std::mem::swap(&mut entries, &mut self.entries);
        let ghost before = entries@;
        match at {
            Some(i) => {
                let mut sources = clone_strings(&entries[i].sources);
                let mut added = clone_strings(tags);
                sources.append(&mut added);
                let entry = Entry { key: key.clone(), sources };
                proof {
                    lemma_model_at(before, i as int);
                    lemma_model_update(before, i as int, entry);
                    assert(texts(entry.sources@) =~= texts(before[i as int].sources@) + texts(
                        tags@,
                    ));
                }
                entries.set(i, entry);
            },
            None => {
                let entry = Entry { key: key.clone(), sources: clone_strings(tags) };
                proof {
                    lemma_model_push(before, entry);
                    assert(texts(entry.sources@) =~= Seq::<Seq<char>>::empty() + texts(tags@));
                }
                entries.push(entry);
            },
        }
        self.entries = entries;
    }

    /// Appends `tag` to the list under `key`, which starts empty where `key`
    /// had no entry.
    pub fn add(&mut self, key: &String, tag: String)
        ensures
            final(self)@ == old(self)@.insert(key@, sources_of(old(self)@, key@).push(tag@)),
            final(self).key_order() == if old(self)@.contains_key(key@) {
                old(self).key_order()
            } else {
                old(self).key_order().push(key@)
            },
    {
        let mut tags: Vec<String> = Vec::new();
        tags.push(tag);
        proof {
            assert(texts(tags@) =~= seq![tag@]);
            assert(sources_of(self@, key@) + seq![tag@] =~= sources_of(self@, key@).push(tag@));
        }
        self.extend_list(key, &tags);
    }
}

impl Clone for ReferenceMap {
    fn clone(&self) -> (copy: Self)
        ensures
            copy@ == self@,
            copy.key_order() == self.key_order(),
    {
        proof {
            use_type_invariant(self);
        }
        let mut entries: Vec<Entry> = Vec::new();
        let mut i: usize = 0;
        while i < self.entries.len()
            invariant
                i <= self.entries.len(),
                entries@.len() == i,
                forall|j: int|
                    0 <= j < i ==> entries@[j].key@ == self.entries@[j].key@ && entries@[j].sources@
                        == self.entries@[j].sources@,
            decreases self.entries.len() - i,
        {
            let entry = Entry {
                key: self.entries[i].key.clone(),
                sources: clone_strings(&self.entries[i].sources),
            };
            entries.push(entry);
            i += 1;
        }
        proof {
            assert(keys_of(entries@) =~= keys_of(self.entries@));
            assert(model(entries@) =~= model(self.entries@));
        }
        ReferenceMap { entries }
    }
}

} // verus!
