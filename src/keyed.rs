//! A table of records with one record per text key, seen as a `Map` from key
//! to record.
use vstd::prelude::*;
use vstd::string::*;

verus! {

/// A record that carries its own text key.
pub trait Keyed: Sized {
    spec fn key(&self) -> Seq<char>;

    fn key_text(&self) -> (r: &String)
        ensures
            r@ == self.key(),
    ;
}

pub open spec fn keys_unique<T: Keyed>(s: Seq<T>) -> bool {
    forall|i: int, j: int|
        #![trigger s[i].key(), s[j].key()]
        0 <= i < s.len() && 0 <= j < s.len() && i != j ==> s[i].key() != s[j].key()
}

pub open spec fn has_key<T: Keyed>(s: Seq<T>, k: Seq<char>) -> bool {
    exists|i: int| 0 <= i < s.len() && #[trigger] s[i].key() == k
}

/// The records of `s` by key.
pub open spec fn keyed_map<T: Keyed>(s: Seq<T>) -> Map<Seq<char>, T> {
    Map::new(
        |k: Seq<char>| has_key(s, k),
        |k: Seq<char>| s[choose|i: int| 0 <= i < s.len() && #[trigger] s[i].key() == k],
    )
}

pub proof fn lemma_keyed_map_at<T: Keyed>(s: Seq<T>, i: int)
    requires
        keys_unique(s),
        0 <= i < s.len(),
    ensures
        keyed_map(s).contains_key(s[i].key()),
        keyed_map(s)[s[i].key()] == s[i],
{
    let k = s[i].key();
    assert(has_key(s, k));
    let c = choose|j: int| 0 <= j < s.len() && #[trigger] s[j].key() == k;
    assert(c == i);
}

pub proof fn lemma_keyed_map_update<T: Keyed>(s: Seq<T>, i: int, x: T)
    requires
        keys_unique(s),
        0 <= i < s.len(),
        x.key() == s[i].key(),
    ensures
        keys_unique(s.update(i, x)),
        keyed_map(s.update(i, x)) == keyed_map(s).insert(x.key(), x),
{
    let t = s.update(i, x);
    assert(keys_unique(t)) by {
        assert forall|a: int, b: int|
            0 <= a < t.len() && 0 <= b < t.len() && a != b implies #[trigger] t[a].key()
            != #[trigger] t[b].key() by {
            assert(s[a].key() != s[b].key());
        }
    }
    let m = keyed_map(s).insert(x.key(), x);
    assert forall|k: Seq<char>| #[trigger] keyed_map(t).contains_key(k) <==> m.contains_key(k) by {
        if has_key(t, k) {
            let j = choose|j: int| 0 <= j < t.len() && #[trigger] t[j].key() == k;
            if j != i {
                assert(s[j].key() == k);
            }
        }
        if has_key(s, k) {
            let j = choose|j: int| 0 <= j < s.len() && #[trigger] s[j].key() == k;
            if j != i {
                assert(t[j].key() == k);
            } else {
                assert(t[i].key() == k);
            }
        }
        if k == x.key() {
            assert(t[i].key() == k);
        }
    }
    assert forall|k: Seq<char>| #[trigger] keyed_map(t).contains_key(k) implies keyed_map(t)[k]
        == m[k] by {
        let j = choose|j: int| 0 <= j < t.len() && #[trigger] t[j].key() == k;
        lemma_keyed_map_at(t, j);
        if j != i {
            assert(s[j].key() == k);
            lemma_keyed_map_at(s, j);
        }
    }
    assert(keyed_map(t) =~= m);
}

pub proof fn lemma_keyed_map_push<T: Keyed>(s: Seq<T>, x: T)
    requires
        keys_unique(s),
        !has_key(s, x.key()),
    ensures
        keys_unique(s.push(x)),
        keyed_map(s.push(x)) == keyed_map(s).insert(x.key(), x),
{
    let t = s.push(x);
    let n = s.len() as int;
    assert(keys_unique(t)) by {
        assert forall|a: int, b: int|
            0 <= a < t.len() && 0 <= b < t.len() && a != b implies #[trigger] t[a].key()
            != #[trigger] t[b].key() by {
            if a < n && b < n {
                assert(s[a].key() != s[b].key());
            } else if a < n {
                assert(s[a].key() != x.key());
            } else {
                assert(s[b].key() != x.key());
            }
        }
    }
    let m = keyed_map(s).insert(x.key(), x);
    assert forall|k: Seq<char>| #[trigger] keyed_map(t).contains_key(k) <==> m.contains_key(k) by {
        if has_key(t, k) {
            let j = choose|j: int| 0 <= j < t.len() && #[trigger] t[j].key() == k;
            if j < n {
                assert(s[j].key() == k);
            }
        }
        if has_key(s, k) {
            let j = choose|j: int| 0 <= j < s.len() && #[trigger] s[j].key() == k;
            assert(t[j].key() == k);
        }
        if k == x.key() {
            assert(t[n].key() == k);
        }
    }
    assert forall|k: Seq<char>| #[trigger] keyed_map(t).contains_key(k) implies keyed_map(t)[k]
        == m[k] by {
        let j = choose|j: int| 0 <= j < t.len() && #[trigger] t[j].key() == k;
        lemma_keyed_map_at(t, j);
        if j < n {
            assert(s[j].key() == k);
            lemma_keyed_map_at(s, j);
        }
    }
    assert(keyed_map(t) =~= m);
}

pub proof fn lemma_keyed_map_remove<T: Keyed>(s: Seq<T>, i: int)
    requires
        keys_unique(s),
        0 <= i < s.len(),
    ensures
        keys_unique(s.remove(i)),
        keyed_map(s.remove(i)) == keyed_map(s).remove(s[i].key()),
{
    let t = s.remove(i);
    let gone = s[i].key();
    assert forall|a: int| 0 <= a < t.len() implies #[trigger] t[a] == (if a < i {
        s[a]
    } else {
        s[a + 1]
    }) by {}
    assert(keys_unique(t)) by {
        assert forall|a: int, b: int|
            0 <= a < t.len() && 0 <= b < t.len() && a != b implies #[trigger] t[a].key()
            != #[trigger] t[b].key() by {
            let sa = if a < i {
                a
            } else {
                a + 1
            };
            let sb = if b < i {
                b
            } else {
                b + 1
            };
            assert(s[sa].key() != s[sb].key());
        }
    }
    let m = keyed_map(s).remove(gone);
    assert forall|k: Seq<char>| #[trigger] keyed_map(t).contains_key(k) <==> m.contains_key(k) by {
        if has_key(t, k) {
            let j = choose|j: int| 0 <= j < t.len() && #[trigger] t[j].key() == k;
            let sj = if j < i {
                j
            } else {
                j + 1
            };
            assert(s[sj].key() == k);
            assert(s[i].key() != s[sj].key());
        }
        if has_key(s, k) && k != gone {
            let j = choose|j: int| 0 <= j < s.len() && #[trigger] s[j].key() == k;
            if j < i {
                assert(t[j].key() == k);
            } else {
                assert(t[j - 1].key() == k);
            }
        }
    }
    assert forall|k: Seq<char>| #[trigger] keyed_map(t).contains_key(k) implies keyed_map(t)[k]
        == m[k] by {
        let j = choose|j: int| 0 <= j < t.len() && #[trigger] t[j].key() == k;
        lemma_keyed_map_at(t, j);
        let sj = if j < i {
            j
        } else {
            j + 1
        };
        assert(s[sj].key() == k);
        lemma_keyed_map_at(s, sj);
    }
    assert(keyed_map(t) =~= m);
}

/// Records kept one per key, in the order their keys first arrived.
pub struct KeyedTable<T: Keyed> {
    items: Vec<T>,
}

impl<T: Keyed> View for KeyedTable<T> {
    type V = Map<Seq<char>, T>;

    closed spec fn view(&self) -> Map<Seq<char>, T> {
        keyed_map(self.items@)
    }
}

impl<T: Keyed> KeyedTable<T> {
    #[verifier::type_invariant]
    spec fn inv(self) -> bool {
        keys_unique(self.items@)
    }

    pub fn new() -> (r: Self)
        ensures
            r@ == Map::<Seq<char>, T>::empty(),
    {
        let r = KeyedTable { items: Vec::new() };
        assert(keyed_map(r.items@) =~= Map::<Seq<char>, T>::empty());
        r
    }

    /// Where the record with this key stands.
    fn position(&self, key: &str) -> (r: Option<usize>)
        ensures
            match r {
                Some(i) => i < self.items@.len() && self.items@[i as int].key() == key@,
                None => !has_key(self.items@, key@),
            },
    {
        let k = String::from_str(key);
        let mut i: usize = 0;
        while i < self.items.len()
            invariant
                i <= self.items@.len(),
                k@ == key@,
                forall|j: int| 0 <= j < i ==> #[trigger] self.items@[j].key() != key@,
            decreases self.items@.len() - i,
        {
            if k.eq(self.items[i].key_text()) {
                return Some(i);
            }
            i = i + 1;
        }
        None
    }

    pub fn contains_key(&self, key: &str) -> (r: bool)
        ensures
            r == self@.contains_key(key@),
    {
        self.position(key).is_some()
    }

    pub fn get(&self, key: &str) -> (r: Option<&T>)
        ensures
            match r {
                Some(t) => self@.contains_key(key@) && *t == self@[key@] && t.key() == key@,
                None => !self@.contains_key(key@),
            },
    {
        proof {
            use_type_invariant(self);
        }
        match self.position(key) {
            Some(i) => {
                proof {
                    lemma_keyed_map_at(self.items@, i as int);
                }
                Some(&self.items[i])
            },
            None => None,
        }
    }

    /// Puts `item` in, replacing the record with the same key if there is one.
    pub fn upsert(&mut self, item: T)
        ensures
            final(self)@ == old(self)@.insert(item.key(), item),
    {
        proof {
            use_type_invariant(&*self);
        }
        let pos = self.position(item.key_text().as_str());
        let mut items: Vec<T> = Vec::new();
        std::mem::swap(&mut items, &mut self.items);
        let ghost s = items@;
        let ghost k = item.key();
        match pos {
            Some(i) => {
                proof {
                    lemma_keyed_map_update(s, i as int, item);
                }
                items.set(i, item);
            },
            None => {
                proof {
                    lemma_keyed_map_push(s, item);
                }
                items.push(item);
            },
        }
        self.items = items;
    }

    /// Takes out the record with this key; says whether there was one.
    pub fn remove(&mut self, key: &str) -> (r: bool)
        ensures
            final(self)@ == old(self)@.remove(key@),
            r == old(self)@.contains_key(key@),
    {
        proof {
            use_type_invariant(&*self);
        }
        match self.position(key) {
            Some(i) => {
                let mut items: Vec<T> = Vec::new();
                std::mem::swap(&mut items, &mut self.items);
                proof {
                    lemma_keyed_map_remove(items@, i as int);
                }
                items.remove(i);
                self.items = items;
                true
            },
            None => {
                assert(old(self)@.remove(key@) =~= old(self)@);
                false
            },
        }
    }

    /// All records, one per key.
    pub fn values(&self) -> (r: &Vec<T>)
        ensures
            keys_unique(r@),
            keyed_map(r@) == self@,
    {
        proof {
            use_type_invariant(self);
        }
        &self.items
    }
}

} // verus!
