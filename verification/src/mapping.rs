//! A mapping from string keys to values, kept as a list of entries
//! with distinct keys.

use crate::format::distinct_keys;
use crate::value::{
    entries_of, lemma_meaning_entry, meaning, meaning_map, EntriesModel, Value, ValueModel,
};
use vstd::prelude::*;
use vstd::std_specs::cmp::PartialEqSpecImpl;

verus! {

/// Some entry has the key.
pub open spec fn has_key(es: EntriesModel, k: Seq<char>) -> bool {
    exists|i: int| 0 <= i < es.len() && (#[trigger] es[i]).0 == k
}

/// The index of an entry with the key, where there is one.
pub open spec fn index_of(es: EntriesModel, k: Seq<char>) -> int {
    choose|i: int| 0 <= i < es.len() && (#[trigger] es[i]).0 == k
}

/// The mapping that a list of entries stands for.
pub open spec fn map_of(es: EntriesModel) -> Map<Seq<char>, ValueModel> {
    Map::new(|k: Seq<char>| has_key(es, k), |k: Seq<char>| es[index_of(es, k)].1)
}

/// With distinct keys, the mapping sends the key of each entry to its value.
pub proof fn lemma_map_of_entry(es: EntriesModel, i: int)
    requires
        distinct_keys(es),
        0 <= i < es.len(),
    ensures
        map_of(es).contains_key(es[i].0),
        map_of(es)[es[i].0] == es[i].1,
{
    let k = es[i].0;
    let j = index_of(es, k);
    assert(0 <= j < es.len() && es[j].0 == k);
    if j < i {
        assert(es[j].0 != es[i].0);
    } else if i < j {
        assert(es[i].0 != es[j].0);
    }
}

/// Appending an entry with a new key inserts it into the mapping.
pub proof fn lemma_map_of_push(es: EntriesModel, k: Seq<char>, v: ValueModel)
    requires
        distinct_keys(es),
        !has_key(es, k),
    ensures
        distinct_keys(es.push((k, v))),
        map_of(es.push((k, v))) == map_of(es).insert(k, v),
{
    let es2 = es.push((k, v));
    assert forall|i: int, j: int| 0 <= i < j < es2.len() implies (#[trigger] es2[i]).0 != (
    #[trigger] es2[j]).0 by {
        assert(es2[i] == es[i]);
        if j < es.len() {
            assert(es2[j] == es[j]);
        }
    }
    assert forall|key: Seq<char>|
        #![trigger map_of(es2).dom().contains(key)]
        #![trigger map_of(es2)[key]]
        map_of(es2).dom().contains(key) == map_of(es).insert(k, v).dom().contains(key) && (map_of(
            es2,
        ).dom().contains(key) ==> map_of(es2)[key] == map_of(es).insert(k, v)[key]) by {
        if has_key(es2, key) {
            let j = index_of(es2, key);
            lemma_map_of_entry(es2, j);
            if j < es.len() {
                assert(es[j] == es2[j]);
                lemma_map_of_entry(es, j);
            }
        }
        if has_key(es, key) {
            let j = index_of(es, key);
            assert(es2[j] == es[j]);
        }
        if key == k {
            assert(es2[es.len() as int].0 == k);
        }
    }
    assert(map_of(es2) =~= map_of(es).insert(k, v));
}

/// Replacing the value of an entry replaces it in the mapping.
pub proof fn lemma_map_of_update(es: EntriesModel, i: int, v: ValueModel)
    requires
        distinct_keys(es),
        0 <= i < es.len(),
    ensures
        distinct_keys(es.update(i, (es[i].0, v))),
        map_of(es.update(i, (es[i].0, v))) == map_of(es).insert(es[i].0, v),
{
    let k = es[i].0;
    let es2 = es.update(i, (k, v));
    assert forall|a: int, c: int| 0 <= a < c < es2.len() implies (#[trigger] es2[a]).0 != (
    #[trigger] es2[c]).0 by {
        assert(es2[a].0 == es[a].0);
        assert(es2[c].0 == es[c].0);
    }
    assert forall|key: Seq<char>|
        #![trigger map_of(es2).dom().contains(key)]
        #![trigger map_of(es2)[key]]
        map_of(es2).dom().contains(key) == map_of(es).insert(k, v).dom().contains(key) && (map_of(
            es2,
        ).dom().contains(key) ==> map_of(es2)[key] == map_of(es).insert(k, v)[key]) by {
        if has_key(es2, key) {
            let j = index_of(es2, key);
            lemma_map_of_entry(es2, j);
            assert(es[j].0 == es2[j].0);
            lemma_map_of_entry(es, j);
        }
        if has_key(es, key) {
            let j = index_of(es, key);
            assert(es2[j].0 == es[j].0);
        }
        if key == k {
            assert(es2[i].0 == k);
        }
    }
    assert(map_of(es2) =~= map_of(es).insert(k, v));
}

/// Taking an entry out removes its key from the mapping.
pub proof fn lemma_map_of_remove(es: EntriesModel, i: int)
    requires
        distinct_keys(es),
        0 <= i < es.len(),
    ensures
        distinct_keys(es.remove(i)),
        map_of(es.remove(i)) == map_of(es).remove(es[i].0),
{
    let k = es[i].0;
    let es2 = es.remove(i);
    assert forall|a: int| 0 <= a < es2.len() implies #[trigger] es2[a] == es[if a < i {
        a
    } else {
        a + 1
    }] by {}
    assert forall|a: int, c: int| 0 <= a < c < es2.len() implies (#[trigger] es2[a]).0 != (
    #[trigger] es2[c]).0 by {
        let a1 = if a < i { a } else { a + 1 };
        let c1 = if c < i { c } else { c + 1 };
        assert(es2[a] == es[a1]);
        assert(es2[c] == es[c1]);
    }
    assert forall|key: Seq<char>|
        #![trigger map_of(es2).dom().contains(key)]
        #![trigger map_of(es2)[key]]
        map_of(es2).dom().contains(key) == map_of(es).remove(k).dom().contains(key) && (map_of(
            es2,
        ).dom().contains(key) ==> map_of(es2)[key] == map_of(es).remove(k)[key]) by {
        if has_key(es2, key) {
            let j = index_of(es2, key);
            let j1 = if j < i { j } else { j + 1 };
            lemma_map_of_entry(es2, j);
            assert(es2[j] == es[j1]);
            lemma_map_of_entry(es, j1);
            if j1 < i {
                assert(es[j1].0 != es[i].0);
            } else {
                assert(es[i].0 != es[j1].0);
            }
        }
        if has_key(es, key) && key != k {
            let j = index_of(es, key);
            let j2 = if j < i { j } else { j - 1 };
            assert(es2[j2] == es[j]);
        }
    }
    assert(map_of(es2) =~= map_of(es).remove(k));
}

/// With distinct keys, the mapping has as many keys as there are entries.
pub proof fn lemma_map_of_len(es: EntriesModel)
    requires
        distinct_keys(es),
    ensures
        map_of(es).dom().finite(),
        map_of(es).dom().len() == es.len(),
    decreases es.len(),
{
    if es.len() == 0 {
        assert(map_of(es).dom() =~= Set::<Seq<char>>::empty());
    } else {
        let init = es.drop_last();
        let last = es.last();
        assert forall|i: int, j: int| 0 <= i < j < init.len() implies (#[trigger] init[i]).0 != (
        #[trigger] init[j]).0 by {
            assert(init[i] == es[i]);
            assert(init[j] == es[j]);
        }
        lemma_map_of_len(init);
        if has_key(init, last.0) {
            let j = index_of(init, last.0);
            assert(init[j] == es[j]);
            assert(es[j].0 != es[es.len() - 1].0);
        }
        lemma_map_of_push(init, last.0, last.1);
        assert(init.push(last) =~= es);
        assert(map_of(es).dom() =~= map_of(init).dom().insert(last.0));
    }
}

/// Whether no key occurs twice among the entries.
pub fn has_distinct_keys(entries: &Vec<(String, Value)>) -> (r: bool)
    ensures
        r == distinct_keys(entries_of(entries@)),
{
    let n = entries.len();
    let ghost es = entries_of(entries@);
    let mut j: usize = 0;
    while j < n
        invariant
            j <= n,
            n == entries.len(),
            es == entries_of(entries@),
            forall|a: int, c: int| 0 <= a < c < j ==> (#[trigger] es[a]).0 != (#[trigger] es[c]).0,
        decreases n - j,
    {
        let mut i: usize = 0;
        while i < j
            invariant
                i <= j < n,
                n == entries.len(),
                es == entries_of(entries@),
                forall|a: int| 0 <= a < i ==> (#[trigger] es[a]).0 != es[j as int].0,
            decreases j - i,
        {
            if entries[i].0 == entries[j].0 {
                assert(es[i as int].0 == es[j as int].0);
                return false;
            }
            i += 1;
        }
        j += 1;
    }
    true
}

/// A mapping from string keys to values.
#[derive(Debug, Eq)]
pub struct KvsMap {
    entries: Vec<(String, Value)>,
}

impl PartialEq for KvsMap {
    fn eq(&self, other: &KvsMap) -> (r: bool) {
        self.equals(other)
    }
}

impl PartialEqSpecImpl for KvsMap {
    open spec fn obeys_eq_spec() -> bool {
        true
    }

    open spec fn eq_spec(&self, other: &KvsMap) -> bool {
        meaning_map(self.entries()) == meaning_map(other.entries())
    }
}

impl KvsMap {
    #[verifier::type_invariant]
    spec fn inv(self) -> bool {
        distinct_keys(entries_of(self.entries@))
    }

    /// The entries in the order in which they are kept.
    pub closed spec fn entries(&self) -> EntriesModel
        decreases self,
    {
        entries_of(self.entries@)
    }

    /// No key occurs twice. This holds of every mapping.
    pub open spec fn wf(&self) -> bool {
        distinct_keys(self.entries())
    }

    /// The mapping as a mathematical map.
    pub open spec fn view(&self) -> Map<Seq<char>, ValueModel> {
        map_of(self.entries())
    }

    /// Brings what holds of every mapping into a proof. Does nothing when run.
    pub fn well_formed(&self)
        ensures
            self.wf(),
    {
        proof {
            use_type_invariant(self);
        }
    }

    /// The empty mapping.
    pub fn new() -> (m: KvsMap)
        ensures
            m.wf(),
            m@ == Map::<Seq<char>, ValueModel>::empty(),
            m.entries() == Seq::<(Seq<char>, ValueModel)>::empty(),
    {
        let m = KvsMap { entries: Vec::new() };
        assert(m.entries() =~= Seq::<(Seq<char>, ValueModel)>::empty());
        assert(m@ =~= Map::<Seq<char>, ValueModel>::empty());
        m
    }

    /// A mapping with the given entries, if their keys are distinct.
    pub fn from_entries(entries: Vec<(String, Value)>) -> (r: Option<KvsMap>)
        ensures
            r is Some <==> distinct_keys(entries_of(entries@)),
            r matches Some(m) ==> m.wf() && m.entries() == entries_of(entries@),
    {
        if has_distinct_keys(&entries) {
            Some(KvsMap { entries })
        } else {
            None
        }
    }

    /// The entries, in the order in which they are kept.
    pub fn as_entries(&self) -> (r: &Vec<(String, Value)>)
        ensures
            entries_of(r@) == self.entries(),
            self.wf(),
            decreases_to!(self => r),
    {
        proof {
            use_type_invariant(self);
        }
        &self.entries
    }

    /// The number of entries.
    pub fn len(&self) -> (n: usize)
        ensures
            n == self.entries().len(),
            self@.dom().finite(),
            n == self@.dom().len(),
    {
        proof {
            use_type_invariant(self);
            lemma_map_of_len(self.entries());
        }
        self.entries.len()
    }

    fn find(&self, key: &String) -> (r: Option<usize>)
        ensures
            match r {
                Some(i) => i < self.entries().len() && self.entries()[i as int].0 == key@,
                None => !has_key(self.entries(), key@),
            },
    {
        let mut i: usize = 0;
        while i < self.entries.len()
            invariant
                i <= self.entries.len(),
                forall|j: int| 0 <= j < i ==> (#[trigger] self.entries()[j]).0 != key@,
            decreases self.entries.len() - i,
        {
            if self.entries[i].0 == *key {
                return Some(i);
            }
            i += 1;
        }
        None
    }

    /// Whether the key has an entry.
    pub fn contains_key(&self, key: &String) -> (r: bool)
        ensures
            r == self@.contains_key(key@),
    {
        proof {
            use_type_invariant(self);
        }
        match self.find(key) {
            Some(i) => {
                proof {
                    lemma_map_of_entry(self.entries(), i as int);
                }
                true
            },
            None => false,
        }
    }

    /// The value of the key, if it has an entry.
    pub fn get(&self, key: &String) -> (r: Option<&Value>)
        ensures
            match r {
                Some(v) => self@.contains_key(key@) && self@[key@] == v.model(),
                None => !self@.contains_key(key@),
            },
    {
        proof {
            use_type_invariant(self);
        }
        match self.find(key) {
            Some(i) => {
                proof {
                    lemma_map_of_entry(self.entries(), i as int);
                }
                Some(&self.entries[i].1)
            },
            None => None,
        }
    }

    /// Sets the value of the key, whether or not it had one.
    pub fn insert(&mut self, key: String, value: Value)
        ensures
            final(self).wf(),
            final(self)@ == old(self)@.insert(key@, value.model()),
    {
        proof {
            use_type_invariant(&*self);
        }
        let ghost es = self.entries();
        let found = self.find(&key);
        let mut entries: Vec<(String, Value)> = Vec::new();
        core::mem::swap(&mut self.entries, &mut entries);
        match found {
            Some(i) => {
                proof {
                    lemma_map_of_update(es, i as int, value.model());
                    assert(entries_of(entries@.update(i as int, (key, value))) =~= es.update(
                        i as int,
                        (es[i as int].0, value.model()),
                    ));
                }
                entries.set(i, (key, value));
            },
            None => {
                proof {
                    lemma_map_of_push(es, key@, value.model());
                    assert(entries_of(entries@.push((key, value))) =~= es.push(
                        (key@, value.model()),
                    ));
                }
                entries.push((key, value));
            },
        }
        self.entries = entries;
    }

    /// Removes the key's entry; says whether there was one.
    pub fn remove(&mut self, key: &String) -> (removed: bool)
        ensures
            final(self).wf(),
            removed == old(self)@.contains_key(key@),
            final(self)@ == old(self)@.remove(key@),
    {
        proof {
            use_type_invariant(&*self);
        }
        let ghost es = self.entries();
        match self.find(key) {
            Some(i) => {
                let mut entries: Vec<(String, Value)> = Vec::new();
                core::mem::swap(&mut self.entries, &mut entries);
                proof {
                    lemma_map_of_entry(es, i as int);
                    lemma_map_of_remove(es, i as int);
                    assert(entries_of(entries@.remove(i as int)) =~= es.remove(i as int));
                }
                let _ = entries.remove(i);
                self.entries = entries;
                true
            },
            None => {
                assert(self@.remove(key@) =~= self@);
                false
            },
        }
    }

    /// Removes every entry.
    pub fn clear(&mut self)
        ensures
            final(self).wf(),
            final(self)@ == Map::<Seq<char>, ValueModel>::empty(),
            final(self).entries() == Seq::<(Seq<char>, ValueModel)>::empty(),
    {
        self.entries = Vec::new();
        assert(self.entries() =~= Seq::<(Seq<char>, ValueModel)>::empty());
        assert(self@ =~= Map::<Seq<char>, ValueModel>::empty());
    }

    /// A copy of this mapping, values included.
    pub fn duplicate(&self) -> (r: KvsMap)
        ensures
            r.entries() == self.entries(),
        decreases self,
    {
        proof {
            use_type_invariant(self);
        }
        let mut out: Vec<(String, Value)> = Vec::new();
        let mut i: usize = 0;
        while i < self.entries.len()
            invariant
                i <= self.entries.len(),
                out@.len() == i,
                forall|j: int|
                    0 <= j < i ==> (#[trigger] out@[j]).0@ == self.entries@[j].0@
                        && out@[j].1.model() == self.entries@[j].1.model(),
            decreases self.entries.len() - i,
        {
            out.push((self.entries[i].0.clone(), self.entries[i].1.duplicate()));
            i += 1;
        }
        assert(entries_of(out@) =~= entries_of(self.entries@));
        KvsMap { entries: out }
    }

    /// Whether two mappings hold the same keys with structurally equal
    /// values, whatever the order of their entries.
    pub fn equals(&self, other: &KvsMap) -> (r: bool)
        ensures
            r == (meaning_map(self.entries()) == meaning_map(other.entries())),
        decreases self,
    {
        proof {
            use_type_invariant(self);
            use_type_invariant(other);
        }
        let ghost ea = self.entries();
        let ghost eb = other.entries();
        let mut i: usize = 0;
        while i < self.entries.len()
            invariant
                i <= self.entries.len(),
                ea == self.entries(),
                eb == other.entries(),
                distinct_keys(ea),
                distinct_keys(eb),
                forall|j: int|
                    0 <= j < i ==> meaning_map(eb).contains_key((#[trigger] ea[j]).0)
                        && meaning_map(eb)[ea[j].0] == meaning(ea[j].1),
            decreases self.entries.len() - i,
        {
            proof {
                lemma_meaning_entry(ea, i as int);
            }
            match other.find(&self.entries[i].0) {
                None => {
                    assert(!meaning_map(eb).contains_key(ea[i as int].0));
                    return false;
                },
                Some(j) => {
                    proof {
                        lemma_meaning_entry(eb, j as int);
                    }
                    if !self.entries[i].1.equals(&other.entries[j].1) {
                        assert(meaning_map(ea)[ea[i as int].0] != meaning_map(eb)[ea[i as int].0]);
                        return false;
                    }
                },
            }
            i += 1;
        }
        let mut j: usize = 0;
        while j < other.entries.len()
            invariant
                j <= other.entries.len(),
                ea == self.entries(),
                eb == other.entries(),
                distinct_keys(ea),
                distinct_keys(eb),
                forall|t: int| 0 <= t < j ==> has_key(ea, (#[trigger] eb[t]).0),
            decreases other.entries.len() - j,
        {
            match self.find(&other.entries[j].0) {
                None => {
                    proof {
                        lemma_meaning_entry(eb, j as int);
                    }
                    assert(!meaning_map(ea).contains_key(eb[j as int].0));
                    return false;
                },
                Some(_) => {},
            }
            j += 1;
        }
        proof {
            assert forall|k: Seq<char>|
                #![trigger meaning_map(ea).dom().contains(k)]
                #![trigger meaning_map(ea)[k]]
                meaning_map(ea).dom().contains(k) == meaning_map(eb).dom().contains(k) && (
                meaning_map(ea).dom().contains(k) ==> meaning_map(ea)[k] == meaning_map(eb)[k]) by {
                if has_key(ea, k) {
                    let i0 = index_of(ea, k);
                    lemma_meaning_entry(ea, i0);
                }
                if has_key(eb, k) {
                    let t0 = index_of(eb, k);
                    assert(has_key(ea, eb[t0].0));
                }
            }
            assert(meaning_map(ea) =~= meaning_map(eb));
        }
        true
    }

    /// The keys, each once, in the order in which they are kept.
    pub fn keys(&self) -> (r: Vec<String>)
        ensures
            r@.len() == self.entries().len(),
            self@.dom().finite(),
            r@.len() == self@.dom().len(),
            forall|i: int| 0 <= i < r@.len() ==> (#[trigger] r@[i])@ == self.entries()[i].0,
            forall|i: int, j: int| 0 <= i < j < r@.len() ==> (#[trigger] r@[i])@ != (#[trigger] r@[j])@,
            forall|k: Seq<char>|
                self@.contains_key(k) <==> exists|i: int| 0 <= i < r@.len() && (#[trigger] r@[i])@ == k,
    {
        proof {
            use_type_invariant(self);
        }
        let mut out: Vec<String> = Vec::new();
        let mut i: usize = 0;
        while i < self.entries.len()
            invariant
                i <= self.entries.len(),
                out@.len() == i,
                forall|j: int| 0 <= j < i ==> (#[trigger] out@[j])@ == self.entries()[j].0,
            decreases self.entries.len() - i,
        {
            out.push(self.entries[i].0.clone());
            i += 1;
        }
        proof {
            let es = self.entries();
            lemma_map_of_len(es);
            assert forall|k: Seq<char>|
                self@.contains_key(k) <==> exists|i: int|
                    0 <= i < out@.len() && (#[trigger] out@[i])@ == k by {
                if self@.contains_key(k) {
                    let j = index_of(es, k);
                    assert(out@[j]@ == k);
                }
                if exists|i: int| 0 <= i < out@.len() && (#[trigger] out@[i])@ == k {
                    let j = choose|i: int| 0 <= i < out@.len() && (#[trigger] out@[i])@ == k;
                    assert(es[j].0 == k);
                }
            }
            assert forall|a: int, c: int| 0 <= a < c < out@.len() implies (#[trigger] out@[a])@ != (
            #[trigger] out@[c])@ by {
                assert(es[a].0 != es[c].0);
            }
        }
        out
    }
}

} // verus!
