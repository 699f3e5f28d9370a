//! Small association containers used throughout the runtime: a map and a set
//! backed by vectors with pairwise-distinct keys.

use vstd::prelude::*;

verus! {

/// A key type whose executable equality test agrees with logical equality.
pub trait TableKey: Sized {
    fn key_eq(&self, other: &Self) -> (r: bool)
        ensures
            r <==> (*self == *other),
    ;
}

/// The map described by a sequence of entries; later entries win.
pub open spec fn table_map<K, V>(s: Seq<(K, V)>) -> Map<K, V>
    decreases s.len(),
{
    if s.len() == 0 {
        Map::empty()
    } else {
        table_map(s.drop_last()).insert(s.last().0, s.last().1)
    }
}

/// No two entries share a key.
pub open spec fn distinct_keys<K, V>(s: Seq<(K, V)>) -> bool {
    forall|i: int, j: int| 0 <= i < j < s.len() ==> s[i].0 != s[j].0
}

pub proof fn lemma_table_map_contains<K, V>(s: Seq<(K, V)>, k: K)
    ensures
        table_map(s).contains_key(k) <==> (exists|i: int| 0 <= i < s.len() && s[i].0 == k),
    decreases s.len(),
{
    if s.len() > 0 {
        lemma_table_map_contains(s.drop_last(), k);
        if s.last().0 == k {
            assert(s[s.len() - 1].0 == k);
        }
        if table_map(s.drop_last()).contains_key(k) {
            let i = choose|i: int| 0 <= i < s.drop_last().len() && s.drop_last()[i].0 == k;
            assert(s[i].0 == k);
        }
        if exists|i: int| 0 <= i < s.len() && s[i].0 == k {
            let i = choose|i: int| 0 <= i < s.len() && s[i].0 == k;
            if i < s.len() - 1 {
                assert(s.drop_last()[i].0 == k);
            }
        }
    }
}

pub proof fn lemma_table_map_index<K, V>(s: Seq<(K, V)>, i: int)
    requires
        distinct_keys(s),
        0 <= i < s.len(),
    ensures
        table_map(s).contains_key(s[i].0),
        table_map(s)[s[i].0] == s[i].1,
    decreases s.len(),
{
    if i == s.len() - 1 {
    } else {
        assert(distinct_keys(s.drop_last())) by {
            assert(forall|x: int, y: int|
                0 <= x < y < s.drop_last().len() ==> s.drop_last()[x].0 != s.drop_last()[y].0);
        }
        lemma_table_map_index(s.drop_last(), i);
        assert(s.drop_last()[i] == s[i]);
        assert(s[i].0 != s.last().0);
    }
}

pub proof fn lemma_table_map_push<K, V>(s: Seq<(K, V)>, k: K, v: V)
    ensures
        table_map(s.push((k, v))) == table_map(s).insert(k, v),
{
    assert(s.push((k, v)).drop_last() =~= s);
    assert(s.push((k, v)).last() == (k, v));
}

pub proof fn lemma_table_map_remove_at<K, V>(s: Seq<(K, V)>, i: int)
    requires
        distinct_keys(s),
        0 <= i < s.len(),
    ensures
        table_map(s.remove(i)) =~= table_map(s).remove(s[i].0),
    decreases s.len(),
{
    lemma_table_map_contains(s, s[i].0);
    if i == s.len() - 1 {
        assert(s.remove(i) =~= s.drop_last());
        assert(table_map(s) == table_map(s.drop_last()).insert(s.last().0, s.last().1));
        // the removed key does not occur earlier, so removing it undoes the insert
        lemma_table_map_contains(s.drop_last(), s[i].0);
        assert(forall|j: int| 0 <= j < s.drop_last().len() ==> s.drop_last()[j].0 != s[i].0);
        assert(!table_map(s.drop_last()).contains_key(s[i].0));
    } else {
        assert(distinct_keys(s.drop_last())) by {
            assert(forall|x: int, y: int|
                0 <= x < y < s.drop_last().len() ==> s.drop_last()[x].0 != s.drop_last()[y].0);
        }
        lemma_table_map_remove_at(s.drop_last(), i);
        assert(s.remove(i).drop_last() =~= s.drop_last().remove(i));
        assert(s.remove(i).last() == s.last());
        assert(table_map(s.remove(i))
            == table_map(s.drop_last().remove(i)).insert(s.last().0, s.last().1));
        assert(s[i].0 != s.last().0);
    }
}

pub proof fn lemma_table_map_len<K, V>(s: Seq<(K, V)>)
    requires
        distinct_keys(s),
    ensures
        table_map(s).dom().finite(),
        table_map(s).dom().len() == s.len(),
    decreases s.len(),
{
    if s.len() > 0 {
        assert(distinct_keys(s.drop_last())) by {
            assert(forall|x: int, y: int|
                0 <= x < y < s.drop_last().len() ==> s.drop_last()[x].0 != s.drop_last()[y].0);
        }
        lemma_table_map_len(s.drop_last());
        lemma_table_map_contains(s.drop_last(), s.last().0);
        assert(forall|j: int| 0 <= j < s.drop_last().len() ==> s.drop_last()[j].0 != s.last().0);
        assert(!table_map(s.drop_last()).contains_key(s.last().0));
        assert(table_map(s).dom() =~= table_map(s.drop_last()).dom().insert(s.last().0));
    }
}

/// An association table from keys to values.
pub struct Table<K, V> {
    entries: Vec<(K, V)>,
}

impl<K, V> Table<K, V> {
    #[verifier::type_invariant]
    spec fn wf(self) -> bool {
        distinct_keys(self.entries@)
    }

    /// The sequence of entries, in insertion order.
    pub closed spec fn entry_seq(&self) -> Seq<(K, V)> {
        self.entries@
    }

    pub open spec fn view(&self) -> Map<K, V> {
        table_map(self.entry_seq())
    }

    /// Makes the relation between the entry sequence and the map view
    /// available to a caller's proof.
    pub fn entry_map_facts(&self)
        ensures
            distinct_keys(self.entry_seq()),
            forall|i: int| 0 <= i < self.entry_seq().len()
                ==> self@.contains_key(#[trigger] self.entry_seq()[i].0)
                    && self@[self.entry_seq()[i].0] == self.entry_seq()[i].1,
            forall|k: K| self@.contains_key(k)
                ==> exists|i: int|
                    0 <= i < self.entry_seq().len() && #[trigger] self.entry_seq()[i].0 == k,
    {
        proof {
            use_type_invariant(self);
            assert forall|i: int| 0 <= i < self.entry_seq().len()
                implies self@.contains_key(#[trigger] self.entry_seq()[i].0)
                    && self@[self.entry_seq()[i].0] == self.entry_seq()[i].1 by {
                lemma_table_map_index(self.entry_seq(), i);
            }
            assert forall|k: K| self@.contains_key(k)
                implies exists|i: int|
                    0 <= i < self.entry_seq().len() && #[trigger] self.entry_seq()[i].0 == k by {
                lemma_table_map_contains(self.entry_seq(), k);
            }
        }
    }
}

impl<K: TableKey, V> Table<K, V> {
    pub fn new() -> (r: Table<K, V>)
        ensures
            r@ == Map::<K, V>::empty(),
            r.entry_seq() == Seq::<(K, V)>::empty(),
    {
        let r = Table { entries: Vec::new() };
        proof {
            assert(r.entries@ =~= Seq::<(K, V)>::empty());
        }
        r
    }

    fn find_index(&self, k: &K) -> (r: Option<usize>)
        ensures
            match r {
                Some(i) => i < self.entries@.len() && self.entries@[i as int].0 == *k,
                None => forall|i: int|
                    0 <= i < self.entries@.len() ==> self.entries@[i].0 != *k,
            },
    {
        let mut i: usize = 0;
        while i < self.entries.len()
            invariant
                i <= self.entries@.len(),
                forall|j: int| 0 <= j < i ==> self.entries@[j].0 != *k,
            decreases self.entries@.len() - i,
        {
            if self.entries[i].0.key_eq(k) {
                return Some(i);
            }
            i = i + 1;
        }
        None
    }

    pub fn contains_key(&self, k: &K) -> (r: bool)
        ensures
            r == self@.contains_key(*k),
    {
        proof {
            lemma_table_map_contains(self.entry_seq(), *k);
        }
        self.find_index(k).is_some()
    }

    pub fn get(&self, k: &K) -> (r: Option<&V>)
        ensures
            match r {
                Some(v) => self@.contains_key(*k) && *v == self@[*k],
                None => !self@.contains_key(*k),
            },
    {
        proof {
            use_type_invariant(self);
            lemma_table_map_contains(self.entry_seq(), *k);
        }
        match self.find_index(k) {
            Some(i) => {
                proof {
                    lemma_table_map_index(self.entry_seq(), i as int);
                }
                Some(&self.entries[i].1)
            }
            None => None,
        }
    }

    pub fn insert(&mut self, k: K, v: V)
        ensures
            final(self)@ == old(self)@.insert(k, v),
            final(self)@.contains_key(k),
    {
        proof {
            use_type_invariant(&*self);
        }
        let found = self.find_index(&k);
        let ghost s0 = self.entries@;
        let mut entries: Vec<(K, V)> = Vec::new();
        core::mem::swap(&mut entries, &mut self.entries);
        match found {
            Some(i) => {
                let _ = entries.remove(i);
                entries.push((k, v));
                proof {
                    assert(distinct_keys(s0.remove(i as int))) by {
                        assert(forall|x: int, y: int|
                            0 <= x < y < s0.remove(i as int).len()
                                ==> s0.remove(i as int)[x].0 != s0.remove(i as int)[y].0);
                    }
                    lemma_table_map_contains(s0.remove(i as int), k);
                    assert(forall|j: int| 0 <= j < s0.remove(i as int).len()
                        ==> s0.remove(i as int)[j].0 != k);
                    lemma_table_map_remove_at(s0, i as int);
                    lemma_table_map_push(s0.remove(i as int), k, v);
                    assert(table_map(s0).remove(k).insert(k, v) =~= table_map(s0).insert(k, v));
                    let s1 = s0.remove(i as int);
                    assert(distinct_keys(s1.push((k, v)))) by {
                        assert(forall|x: int, y: int|
                            0 <= x < y < s1.push((k, v)).len()
                                ==> s1.push((k, v))[x].0 != s1.push((k, v))[y].0);
                    }
                }
            }
            None => {
                entries.push((k, v));
                proof {
                    assert(distinct_keys(s0.push((k, v)))) by {
                        assert(forall|x: int, y: int|
                            0 <= x < y < s0.push((k, v)).len()
                                ==> s0.push((k, v))[x].0 != s0.push((k, v))[y].0);
                    }
                    lemma_table_map_push(s0, k, v);
                }
            }
        }
        core::mem::swap(&mut self.entries, &mut entries);
    }

    pub fn remove(&mut self, k: &K) -> (r: Option<V>)
        ensures
            final(self)@ == old(self)@.remove(*k),
            match r {
                Some(v) => old(self)@.contains_key(*k) && v == old(self)@[*k],
                None => !old(self)@.contains_key(*k),
            },
    {
        proof {
            use_type_invariant(&*self);
            lemma_table_map_contains(self.entry_seq(), *k);
        }
        let found = self.find_index(k);
        match found {
            Some(i) => {
                let ghost s0 = self.entries@;
                proof {
                    lemma_table_map_index(s0, i as int);
                    lemma_table_map_remove_at(s0, i as int);
                    assert(distinct_keys(s0.remove(i as int))) by {
                        assert(forall|x: int, y: int|
                            0 <= x < y < s0.remove(i as int).len()
                                ==> s0.remove(i as int)[x].0 != s0.remove(i as int)[y].0);
                    }
                }
                let mut entries: Vec<(K, V)> = Vec::new();
                core::mem::swap(&mut entries, &mut self.entries);
                let (_, v) = entries.remove(i);
                core::mem::swap(&mut self.entries, &mut entries);
                Some(v)
            }
            None => {
                proof {
                    assert(table_map(self.entries@).remove(*k) =~= table_map(self.entries@));
                }
                None
            }
        }
    }

    pub fn len(&self) -> (r: usize)
        ensures
            r == self.entry_seq().len(),
            self@.dom().finite(),
            r == self@.dom().len(),
    {
        proof {
            use_type_invariant(self);
            lemma_table_map_len(self.entries@);
        }
        self.entries.len()
    }

    pub fn is_empty(&self) -> (r: bool)
        ensures
            r <==> (self@ =~= Map::<K, V>::empty()),
    {
        proof {
            use_type_invariant(self);
            lemma_table_map_len(self.entries@);
            if self.entries@.len() == 0 {
                assert(self@ =~= Map::<K, V>::empty());
            } else {
                lemma_table_map_index(self.entries@, 0);
            }
        }
        self.entries.len() == 0
    }

    /// A reference to the entry at a position, in insertion order.
    pub fn entry_at(&self, i: usize) -> (r: &(K, V))
        requires
            i < self.entry_seq().len(),
        ensures
            *r == self.entry_seq()[i as int],
            self@.contains_key(r.0),
            self@[r.0] == r.1,
    {
        proof {
            use_type_invariant(self);
            lemma_table_map_index(self.entry_seq(), i as int);
        }
        &self.entries[i]
    }

    pub fn num_entries(&self) -> (r: usize)
        ensures
            r == self.entry_seq().len(),
    {
        self.entries.len()
    }
}

impl<K: TableKey + Copy, V> Table<K, V> {
    /// All keys of the table, in insertion order.
    pub fn keys(&self) -> (r: Vec<K>)
        ensures
            r@.len() == self.entry_seq().len(),
            forall|i: int| 0 <= i < r@.len() ==> r@[i] == self.entry_seq()[i].0,
            r@.no_duplicates(),
            forall|i: int| 0 <= i < r@.len() ==> self@.contains_key(#[trigger] r@[i]),
            forall|k: K| self@.contains_key(k) ==> r@.contains(k),
    {
        proof {
            use_type_invariant(self);
        }
        let mut r: Vec<K> = Vec::new();
        let mut i: usize = 0;
        while i < self.entries.len()
            invariant
                i <= self.entries@.len(),
                r@.len() == i,
                forall|j: int| 0 <= j < i ==> r@[j] == self.entries@[j].0,
            decreases self.entries@.len() - i,
        {
            r.push(self.entries[i].0);
            i = i + 1;
        }
        proof {
            assert forall|k: K| self@.contains_key(k) implies r@.contains(k) by {
                lemma_table_map_contains(self.entry_seq(), k);
                let i = choose|i: int| 0 <= i < self.entry_seq().len()
                    && self.entry_seq()[i].0 == k;
                assert(r@[i] == k);
            }
            assert forall|i: int| 0 <= i < r@.len()
                implies self@.contains_key(#[trigger] r@[i]) by {
                lemma_table_map_index(self.entry_seq(), i);
            }
        }
        r
    }
}

/// A set of keys.
pub struct KeySet<K> {
    elems: Vec<K>,
}

impl<K> KeySet<K> {
    #[verifier::type_invariant]
    spec fn wf(self) -> bool {
        self.elems@.no_duplicates()
    }

    pub closed spec fn elem_seq(&self) -> Seq<K> {
        self.elems@
    }

    pub open spec fn view(&self) -> Set<K> {
        self.elem_seq().to_set()
    }

    /// Makes the relation between the element sequence and the set view
    /// available to a caller's proof.
    pub fn elem_set_facts(&self)
        ensures
            self.elem_seq().no_duplicates(),
            self@.finite(),
            self@.len() == self.elem_seq().len(),
            forall|i: int| 0 <= i < self.elem_seq().len()
                ==> self@.contains(#[trigger] self.elem_seq()[i]),
            forall|k: K| self@.contains(k) ==> self.elem_seq().contains(k),
    {
        proof {
            use_type_invariant(self);
            self.elems@.unique_seq_to_set();
            assert forall|i: int| 0 <= i < self.elem_seq().len()
                implies self@.contains(#[trigger] self.elem_seq()[i]) by {
                assert(self.elem_seq().contains(self.elem_seq()[i]));
            }
        }
    }
}

impl<K: TableKey> KeySet<K> {
    pub fn new() -> (r: KeySet<K>)
        ensures
            r@ == Set::<K>::empty(),
            r.elem_seq() == Seq::<K>::empty(),
    {
        let r = KeySet { elems: Vec::new() };
        proof {
            assert(r.elems@ =~= Seq::<K>::empty());
            assert(r.elems@.to_set() =~= Set::<K>::empty());
        }
        r
    }

    fn find_index(&self, k: &K) -> (r: Option<usize>)
        ensures
            match r {
                Some(i) => i < self.elems@.len() && self.elems@[i as int] == *k,
                None => forall|i: int|
                    0 <= i < self.elems@.len() ==> self.elems@[i] != *k,
            },
    {
        let mut i: usize = 0;
        while i < self.elems.len()
            invariant
                i <= self.elems@.len(),
                forall|j: int| 0 <= j < i ==> self.elems@[j] != *k,
            decreases self.elems@.len() - i,
        {
            if self.elems[i].key_eq(k) {
                return Some(i);
            }
            i = i + 1;
        }
        None
    }

    pub fn contains(&self, k: &K) -> (r: bool)
        ensures
            r == self@.contains(*k),
    {
        match self.find_index(k) {
            Some(i) => {
                proof {
                    assert(self.elem_seq().contains(*k));
                }
                true
            }
            None => {
                proof {
                    if self@.contains(*k) {
                        assert(self.elem_seq().contains(*k));
                    }
                }
                false
            }
        }
    }

    pub fn insert(&mut self, k: K)
        ensures
            final(self)@ == old(self)@.insert(k),
    {
        proof {
            use_type_invariant(&*self);
        }
        let found = self.find_index(&k);
        match found {
            Some(_) => {
                proof {
                    assert(self.elem_seq().contains(k));
                    assert(self@.insert(k) =~= self@);
                }
            }
            None => {
                let ghost s0 = self.elems@;
                proof {
                    assert(!s0.contains(k));
                    assert(s0.push(k).no_duplicates()) by {
                        assert(forall|x: int, y: int|
                            0 <= x < y < s0.push(k).len() ==> s0.push(k)[x] != s0.push(k)[y]);
                    }
                }
                let mut elems: Vec<K> = Vec::new();
                core::mem::swap(&mut elems, &mut self.elems);
                elems.push(k);
                core::mem::swap(&mut self.elems, &mut elems);
                proof {
                    assert forall|x: K| self.elems@.to_set().contains(x)
                        implies s0.to_set().insert(k).contains(x) by {
                        let j = choose|j: int| 0 <= j < self.elems@.len() && self.elems@[j] == x;
                        if j < s0.len() {
                            assert(s0[j] == x);
                            assert(s0.to_set().contains(x));
                        }
                    }
                    assert forall|x: K| s0.to_set().insert(k).contains(x)
                        implies self.elems@.to_set().contains(x) by {
                        if x == k {
                            assert(self.elems@[s0.len() as int] == x);
                        } else {
                            let j = choose|j: int| 0 <= j < s0.len() && s0[j] == x;
                            assert(self.elems@[j] == x);
                        }
                        assert(self.elems@.contains(x));
                    }
                    assert(self.elems@.to_set() =~= s0.to_set().insert(k));
                }
            }
        }
    }

    pub fn remove(&mut self, k: &K) -> (r: bool)
        ensures
            final(self)@ == old(self)@.remove(*k),
            r == old(self)@.contains(*k),
    {
        proof {
            use_type_invariant(&*self);
        }
        let found = self.find_index(k);
        match found {
            Some(i) => {
                let ghost s0 = self.elems@;
                proof {
                    assert(s0.remove(i as int).no_duplicates()) by {
                        assert(forall|x: int, y: int|
                            0 <= x < y < s0.remove(i as int).len()
                                ==> s0.remove(i as int)[x] != s0.remove(i as int)[y]);
                    }
                }
                let mut elems: Vec<K> = Vec::new();
                core::mem::swap(&mut elems, &mut self.elems);
                let _ = elems.remove(i);
                core::mem::swap(&mut self.elems, &mut elems);
                proof {
                    assert(s0.contains(*k));
                    assert forall|x: K| self.elems@.to_set().contains(x)
                        implies s0.to_set().remove(*k).contains(x) by {
                        let j = choose|j: int| 0 <= j < self.elems@.len() && self.elems@[j] == x;
                        if j < i {
                            assert(s0[j] == x);
                        } else {
                            assert(s0[j + 1] == x);
                        }
                        assert(s0.to_set().contains(x));
                        if x == *k {
                            let jj: int = if j < i { j } else { j + 1 };
                            assert(s0[jj] == *k && s0[i as int] == *k && jj != i);
                        }
                    }
                    assert forall|x: K| s0.to_set().remove(*k).contains(x)
                        implies self.elems@.to_set().contains(x) by {
                        let j = choose|j: int| 0 <= j < s0.len() && s0[j] == x;
                        assert(j != i);
                        if j < i {
                            assert(self.elems@[j] == x);
                        } else {
                            assert(self.elems@[j - 1] == x);
                        }
                    }
                    assert(self.elems@.to_set() =~= s0.to_set().remove(*k));
                }
                true
            }
            None => {
                proof {
                    if self@.contains(*k) {
                        assert(self.elem_seq().contains(*k));
                    }
                    assert(self@.remove(*k) =~= self@);
                }
                false
            }
        }
    }

    pub fn len(&self) -> (r: usize)
        ensures
            self@.finite(),
            r == self@.len(),
            r == self.elem_seq().len(),
    {
        proof {
            use_type_invariant(self);
            self.elems@.unique_seq_to_set();
        }
        self.elems.len()
    }

    pub fn is_empty(&self) -> (r: bool)
        ensures
            r <==> (self@ =~= Set::<K>::empty()),
    {
        proof {
            use_type_invariant(self);
            self.elems@.unique_seq_to_set();
            if self.elems@.len() > 0 {
                assert(self.elem_seq().contains(self.elems@[0]));
                assert(self@.contains(self.elems@[0]));
            }
        }
        self.elems.len() == 0
    }

    /// The element at a position, in insertion order.
    pub fn elem_at(&self, i: usize) -> (r: &K)
        requires
            i < self.elem_seq().len(),
        ensures
            *r == self.elem_seq()[i as int],
            self@.contains(*r),
    {
        proof {
            assert(self.elem_seq().contains(self.elem_seq()[i as int]));
        }
        &self.elems[i]
    }
}

} // verus!
