use vstd::prelude::*;

verus! {

/// The keys of a sequence of entries.
pub open spec fn keys_of<T>(s: Seq<(Seq<char>, T)>) -> Seq<Seq<char>> {
    s.map_values(|e: (Seq<char>, T)| e.0)
}

/// The texts of a sequence of strings.
pub open spec fn string_views(s: Seq<String>) -> Seq<Seq<char>> {
    s.map_values(|x: String| x@)
}

/// No key occurs twice.
pub open spec fn unique_keys<T>(s: Seq<(Seq<char>, T)>) -> bool {
    forall|i: int, j: int| 0 <= i < j < s.len() ==> #[trigger] s[i].0 != #[trigger] s[j].0
}

/// Some entry has the key.
pub open spec fn has_key<T>(s: Seq<(Seq<char>, T)>, k: Seq<char>) -> bool {
    exists|i: int| 0 <= i < s.len() && #[trigger] s[i].0 == k
}

/// The position of the entry with the key (meaningful when there is one).
pub open spec fn index_of<T>(s: Seq<(Seq<char>, T)>, k: Seq<char>) -> int {
    choose|i: int| 0 <= i < s.len() && #[trigger] s[i].0 == k
}

/// The value stored under the key, if any.
pub open spec fn lookup<T>(s: Seq<(Seq<char>, T)>, k: Seq<char>) -> Option<T> {
    if has_key(s, k) {
        Some(s[index_of(s, k)].1)
    } else {
        None
    }
}

/// The entries after storing `v` under `k`: an existing entry keeps its place
/// and gets the new value, otherwise the entry is appended.
pub open spec fn after_insert<T>(s: Seq<(Seq<char>, T)>, k: Seq<char>, v: T) -> Seq<(Seq<char>, T)> {
    if has_key(s, k) {
        s.update(index_of(s, k), (k, v))
    } else {
        s.push((k, v))
    }
}

/// The entries after removing the one with key `k`, if any; the others keep
/// their order.
pub open spec fn after_remove<T>(s: Seq<(Seq<char>, T)>, k: Seq<char>) -> Seq<(Seq<char>, T)> {
    if has_key(s, k) {
        s.remove(index_of(s, k))
    } else {
        s
    }
}

/// A map from device addresses to values. Entries keep the order in which
/// their keys were first inserted, and no address occurs twice.
pub struct AddressMap<T> {
    entries: Vec<(String, T)>,
}

impl<T> View for AddressMap<T> {
    type V = Seq<(Seq<char>, T)>;

    closed spec fn view(&self) -> Seq<(Seq<char>, T)> {
        self.entries@.map_values(|e: (String, T)| (e.0@, e.1))
    }
}

impl<T> AddressMap<T> {
    /// The map is well formed: no address occurs twice.
    pub open spec fn wf(&self) -> bool {
        unique_keys(self@)
    }

    /// An empty map.
    pub fn new() -> (m: Self)
        ensures
            m.wf(),
            m@ == Seq::<(Seq<char>, T)>::empty(),
    {
        let m = AddressMap { entries: Vec::new() };
        assert(m@ =~= Seq::<(Seq<char>, T)>::empty());
        m
    }

    /// The number of entries.
    pub fn len(&self) -> (n: usize)
        ensures
            n == self@.len(),
    {
        self.entries.len()
    }

    /// Whether the map has no entry.
    pub fn is_empty(&self) -> (r: bool)
        ensures
            r == (self@.len() == 0),
    {
        self.entries.len() == 0
    }

    /// Removes every entry.
    pub fn clear(&mut self)
        ensures
            final(self).wf(),
            final(self)@ == Seq::<(Seq<char>, T)>::empty(),
    {
        self.entries.clear();
        assert(self@ =~= Seq::<(Seq<char>, T)>::empty());
    }

    /// The position of the entry with the given address.
    pub fn position(&self, key: &str) -> (r: Option<usize>)
        ensures
            match r {
                Some(i) => i < self@.len() && self@[i as int].0 == key@,
                None => !has_key(self@, key@),
            },
    {
        let k = key.to_owned();
        let mut i: usize = 0;
        while i < self.entries.len()
            invariant
                k@ == key@,
                i <= self.entries.len(),
                forall|j: int| 0 <= j < i ==> #[trigger] self@[j].0 != key@,
            decreases self.entries.len() - i,
        {
            if self.entries[i].0 == k {
                return Some(i);
            }
            i = i + 1;
        }
        None
    }

    /// Whether some entry has the given address.
    pub fn contains_key(&self, key: &str) -> (r: bool)
        ensures
            r == has_key(self@, key@),
    {
        self.position(key).is_some()
    }

    /// The value stored under the given address.
    pub fn get(&self, key: &str) -> (r: Option<&T>)
        requires
            self.wf(),
        ensures
            match r {
                Some(v) => lookup(self@, key@) == Some(*v),
                None => lookup(self@, key@) is None,
            },
    {
        match self.position(key) {
            Some(i) => {
                assert(index_of(self@, key@) == i);
                Some(&self.entries[i].1)
            },
            None => None,
        }
    }

    /// The address of the entry at a position.
    pub fn key_at(&self, i: usize) -> (k: &String)
        requires
            i < self@.len(),
        ensures
            k@ == self@[i as int].0,
    {
        &self.entries[i].0
    }

    /// The value of the entry at a position.
    pub fn value_at(&self, i: usize) -> (v: &T)
        requires
            i < self@.len(),
        ensures
            *v == self@[i as int].1,
    {
        &self.entries[i].1
    }

    /// Mutable access to the value of the entry at a position.
    pub fn value_mut(&mut self, i: usize) -> (v: &mut T)
        requires
            i < old(self)@.len(),
        ensures
            *v == old(self)@[i as int].1,
            final(self)@ == old(self)@.update(i as int, (old(self)@[i as int].0, *final(v))),
    {
        &mut self.entries[i].1
    }

    /// Stores a value under an address. An existing entry keeps its place and
    /// gets the new value, and the old value is handed back; otherwise the
    /// entry is appended.
    pub fn insert(&mut self, key: String, value: T) -> (previous: Option<T>)
        requires
            old(self).wf(),
        ensures
            final(self).wf(),
            final(self)@ == after_insert(old(self)@, key@, value),
            previous == lookup(old(self)@, key@),
    {
        match self.position(key.as_str()) {
            Some(i) => {
                assert(index_of(old(self)@, key@) == i);
                let mut entry = (key, value);
                std::mem::swap(&mut self.entries[i], &mut entry);
                assert(self@ =~= old(self)@.update(i as int, (entry.0@, value)));
                Some(entry.1)
            },
            None => {
                self.entries.push((key, value));
                assert(self@ =~= old(self)@.push((key@, value)));
                None
            },
        }
    }

    /// Removes the entry with the given address and hands back its value; the
    /// other entries keep their order.
    pub fn remove(&mut self, key: &str) -> (removed: Option<T>)
        requires
            old(self).wf(),
        ensures
            final(self).wf(),
            final(self)@ == after_remove(old(self)@, key@),
            removed == lookup(old(self)@, key@),
    {
        match self.position(key) {
            Some(i) => {
                assert(index_of(old(self)@, key@) == i);
                let entry = self.entries.remove(i);
                assert(self@ =~= old(self)@.remove(i as int));
                Some(entry.1)
            },
            None => None,
        }
    }

    /// The address of the first entry whose value `matches` accepts. Each
    /// value up to that entry is handed to `matches` once, in order.
    pub fn find_key<F: Fn(&T) -> bool>(&self, matches: F) -> (r: Option<String>)
        requires
            forall|v: &T| #[trigger] matches.requires((v,)),
        ensures
            match r {
                Some(k) => exists|i: int|
                    0 <= i < self@.len() && #[trigger] self@[i].0 == k@ && call_ensures(
                        matches,
                        (&self@[i].1,),
                        true,
                    ) && forall|j: int|
                        0 <= j < i ==> call_ensures(matches, (&self@[j].1,), false),
                None => forall|j: int|
                    0 <= j < self@.len() ==> call_ensures(matches, (&#[trigger] self@[j].1,), false),
            },
    {
        let mut i: usize = 0;
        while i < self.entries.len()
            invariant
                i <= self.entries.len(),
                forall|v: &T| #[trigger] matches.requires((v,)),
                forall|j: int| 0 <= j < i ==> call_ensures(matches, (&#[trigger] self@[j].1,), false),
            decreases self.entries.len() - i,
        {
            let v = &self.entries[i].1;
            if matches(v) {
                let k = self.entries[i].0.clone();
                assert(self@[i as int].0 == k@);
                return Some(k);
            }
            i = i + 1;
        }
        None
    }

    /// The values, in the order of the entries.
    pub fn values(&self) -> (r: Vec<&T>)
        ensures
            r@.len() == self@.len(),
            forall|i: int| 0 <= i < r@.len() ==> *#[trigger] r@[i] == self@[i].1,
    {
        let mut r: Vec<&T> = Vec::new();
        let mut i: usize = 0;
        while i < self.entries.len()
            invariant
                i <= self.entries.len(),
                r@.len() == i,
                forall|j: int| 0 <= j < i ==> *#[trigger] r@[j] == self@[j].1,
            decreases self.entries.len() - i,
        {
            r.push(&self.entries[i].1);
            i = i + 1;
        }
        r
    }

    /// The addresses, in the order of the entries.
    pub fn keys(&self) -> (r: Vec<String>)
        ensures
            string_views(r@) == keys_of(self@),
    {
        let mut r: Vec<String> = Vec::new();
        let mut i: usize = 0;
        while i < self.entries.len()
            invariant
                i <= self.entries.len(),
                string_views(r@) == keys_of(self@).take(i as int),
            decreases self.entries.len() - i,
        {
            assert(keys_of(self@).len() == self.entries@.len());
            assert(string_views(r@).len() == i);
            let k = self.entries[i].0.clone();
            assert(k@ == self@[i as int].0);
            let ghost prev = r@;
            r.push(k);
            assert(r@ == prev.push(k));
            assert forall|j: int| 0 <= j < i + 1 implies #[trigger] string_views(r@)[j]
                == keys_of(self@).take(i + 1)[j] by {
                if j < i {
                    assert(string_views(prev)[j] == keys_of(self@).take(i as int)[j]);
                    assert(string_views(r@)[j] == r@[j]@);
                    assert(r@[j] == prev[j]);
                } else {
                    assert(string_views(r@)[j] == r@[j]@);
                    assert(keys_of(self@)[j] == self@[j].0);
                }
            }
            assert(string_views(r@) =~= keys_of(self@).take(i + 1));
            i = i + 1;
        }
        assert(keys_of(self@).take(i as int) =~= keys_of(self@));
        r
    }
}

/// A value stored under an address is found under it, and storing keeps
/// addresses unique; entries under other addresses are unchanged.
pub proof fn lemma_insert_then_lookup<T>(s: Seq<(Seq<char>, T)>, k: Seq<char>, v: T, other: Seq<char>)
    requires
        unique_keys(s),
    ensures
        unique_keys(after_insert(s, k, v)),
        lookup(after_insert(s, k, v), k) == Some(v),
        other != k ==> lookup(after_insert(s, k, v), other) == lookup(s, other),
        keys_of(after_insert(s, k, v)).len() == keys_of(s).len() + if has_key(s, k) { 0int } else { 1int },
{
    let t = after_insert(s, k, v);
    if has_key(s, k) {
        let i: int = index_of(s, k);
        assert(t[i].0 == k);
        assert(index_of(t, k) == i);
        if has_key(s, other) && other != k {
            let j: int = index_of(s, other);
            assert(t[j].0 == other);
            assert(index_of(t, other) == j);
        }
        if has_key(t, other) && other != k {
            let j: int = index_of(t, other);
            assert(s[j].0 == other);
        }
    } else {
        assert(t[s.len() as int].0 == k);
        assert(index_of(t, k) == s.len());
        if has_key(s, other) && other != k {
            let j: int = index_of(s, other);
            assert(t[j].0 == other);
            assert(index_of(t, other) == j);
        }
        if has_key(t, other) && other != k {
            let j: int = index_of(t, other);
            assert(s[j].0 == other);
        }
    }
}

/// After removing an address nothing is stored under it; entries under other
/// addresses are unchanged, and addresses stay unique.
pub proof fn lemma_remove_then_lookup<T>(s: Seq<(Seq<char>, T)>, k: Seq<char>, other: Seq<char>)
    requires
        unique_keys(s),
    ensures
        unique_keys(after_remove(s, k)),
        lookup(after_remove(s, k), k) is None,
        other != k ==> lookup(after_remove(s, k), other) == lookup(s, other),
        after_remove(s, k).len() == s.len() - if has_key(s, k) { 1int } else { 0int },
{
    let t = after_remove(s, k);
    if has_key(s, k) {
        let i: int = index_of(s, k);
        assert forall|a: int, b: int| 0 <= a < b < t.len() implies #[trigger] t[a].0 != #[trigger] t[b].0 by {
            let a0: int = if a < i { a } else { a + 1 };
            let b0: int = if b < i { b } else { b + 1 };
            assert(t[a] == s[a0]);
            assert(t[b] == s[b0]);
        }
        if has_key(t, k) {
            let j: int = index_of(t, k);
            let j0: int = if j < i { j } else { j + 1 };
            assert(t[j] == s[j0]);
        }
        if has_key(s, other) && other != k {
            let j: int = index_of(s, other);
            let j1: int = if j < i { j } else { j - 1 };
            assert(t[j1] == s[j]);
            assert(index_of(t, other) == j1);
        }
        if has_key(t, other) && other != k {
            let j: int = index_of(t, other);
            let j0: int = if j < i { j } else { j + 1 };
            assert(t[j] == s[j0]);
        }
    }
}

/// Storing a value under a new address and then removing that address gives
/// back the entries as they were.
pub proof fn lemma_insert_then_remove_restores<T>(s: Seq<(Seq<char>, T)>, k: Seq<char>, v: T)
    requires
        unique_keys(s),
        !has_key(s, k),
    ensures
        after_remove(after_insert(s, k, v), k) == s,
{
    let t = after_insert(s, k, v);
    assert(t == s.push((k, v)));
    assert(t[s.len() as int].0 == k);
    assert(has_key(t, k));
    let i = index_of(t, k);
    if i != s.len() {
        assert(s[i].0 == k);
    }
    assert(t.remove(s.len() as int) =~= s);
}

/// The keys are the entries' addresses, position by position; the value
/// stored under an address is that of an entry with the address, and there is
/// none exactly when no entry has it.
pub proof fn lemma_keys_and_lookup_meaning<T>(s: Seq<(Seq<char>, T)>, k: Seq<char>)
    ensures
        keys_of(s).len() == s.len(),
        forall|i: int| 0 <= i < s.len() ==> #[trigger] keys_of(s)[i] == s[i].0,
        lookup(s, k) is None <==> forall|i: int| 0 <= i < s.len() ==> #[trigger] s[i].0 != k,
        lookup(s, k) matches Some(v) ==> exists|i: int| 0 <= i < s.len() && #[trigger] s[i] == (k, v),
{
    if lookup(s, k) is Some {
        let i = index_of(s, k);
        assert(s[i] == (k, s[i].1));
    }
}

} // verus!
