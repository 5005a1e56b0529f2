//! A small map from text keys to values, kept as a vector with one entry
//! per key, viewed as a `Map`.
use crate::text::str_eq;
use vstd::prelude::*;

verus! {

pub open spec fn key_of<V>(e: (String, V)) -> Seq<char> {
    e.0@
}

pub open spec fn holds_key<V>(es: Seq<(String, V)>, k: Seq<char>) -> bool {
    exists|i: int| 0 <= i < es.len() && key_of(#[trigger] es[i]) == k
}

pub open spec fn unique_keys<V>(es: Seq<(String, V)>) -> bool {
    forall|i: int, j: int|
        0 <= i < es.len() && 0 <= j < es.len() && i != j ==> key_of(#[trigger] es[i]) != key_of(#[trigger] es[j])
}

pub open spec fn value_at<V>(es: Seq<(String, V)>, k: Seq<char>) -> V {
    let i = choose|i: int| 0 <= i < es.len() && key_of(#[trigger] es[i]) == k;
    es[i].1
}

pub open spec fn as_map<V>(es: Seq<(String, V)>) -> Map<Seq<char>, V> {
    Map::new(|k: Seq<char>| holds_key(es, k), |k: Seq<char>| value_at(es, k))
}

proof fn lemma_value_at<V>(es: Seq<(String, V)>, i: int)
    requires
        unique_keys(es),
        0 <= i < es.len(),
    ensures
        value_at(es, key_of(es[i])) == es[i].1,
{
    let k = key_of(es[i]);
    assert(0 <= i < es.len() && key_of(es[i]) == k);
    let j = choose|j: int| 0 <= j < es.len() && key_of(#[trigger] es[j]) == k;
    assert(i == j);
}

proof fn lemma_push<V>(es: Seq<(String, V)>, e: (String, V))
    requires
        unique_keys(es),
        !holds_key(es, key_of(e)),
    ensures
        unique_keys(es.push(e)),
        as_map(es.push(e)) == as_map(es).insert(key_of(e), e.1),
{
    let es2 = es.push(e);
    assert forall|i: int, j: int| 0 <= i < es2.len() && 0 <= j < es2.len() && i != j implies key_of(
        #[trigger] es2[i],
    ) != key_of(#[trigger] es2[j]) by {
        if i < es.len() && j < es.len() {
            assert(es2[i] == es[i] && es2[j] == es[j]);
        } else if i < es.len() {
            assert(es2[i] == es[i]);
        } else {
            assert(es2[j] == es[j]);
        }
    }
    let m1 = as_map(es2);
    let m2 = as_map(es).insert(key_of(e), e.1);
    assert forall|k: Seq<char>| m1.dom().contains(k) <==> m2.dom().contains(k) by {
        if holds_key(es, k) {
            let i = choose|i: int| 0 <= i < es.len() && key_of(#[trigger] es[i]) == k;
            assert(es2[i] == es[i]);
        }
        if holds_key(es2, k) {
            let i = choose|i: int| 0 <= i < es2.len() && key_of(#[trigger] es2[i]) == k;
            if i < es.len() {
                assert(es2[i] == es[i]);
            }
        }
        if k == key_of(e) {
            assert(es2[es.len() as int] == e);
        }
    }
    assert forall|k: Seq<char>| m1.dom().contains(k) implies m1[k] == m2[k] by {
        let i = choose|i: int| 0 <= i < es2.len() && key_of(#[trigger] es2[i]) == k;
        lemma_value_at(es2, i);
        if i < es.len() {
            assert(es2[i] == es[i]);
            lemma_value_at(es, i);
        } else {
            assert(es2[i] == e);
        }
    }
    assert(m1 =~= m2);
}

proof fn lemma_remove<V>(es: Seq<(String, V)>, i: int)
    requires
        unique_keys(es),
        0 <= i < es.len(),
    ensures
        unique_keys(es.remove(i)),
        as_map(es.remove(i)) == as_map(es).remove(key_of(es[i])),
{
    let es2 = es.remove(i);
    let gone = key_of(es[i]);
    assert forall|a: int| 0 <= a < es2.len() implies #[trigger] es2[a] == es[if a < i { a } else { a + 1 }] by {}
    assert forall|a: int, b: int| 0 <= a < es2.len() && 0 <= b < es2.len() && a != b implies key_of(
        #[trigger] es2[a],
    ) != key_of(#[trigger] es2[b]) by {
        assert(es2[a] == es[if a < i { a } else { a + 1 }]);
        assert(es2[b] == es[if b < i { b } else { b + 1 }]);
    }
    let m1 = as_map(es2);
    let m2 = as_map(es).remove(gone);
    assert forall|k: Seq<char>| m1.dom().contains(k) <==> m2.dom().contains(k) by {
        if holds_key(es2, k) {
            let a = choose|a: int| 0 <= a < es2.len() && key_of(#[trigger] es2[a]) == k;
            let b = if a < i { a } else { a + 1 };
            assert(es2[a] == es[b]);
            assert(key_of(es[b]) == k);
        }
        if holds_key(es, k) && k != gone {
            let b = choose|b: int| 0 <= b < es.len() && key_of(#[trigger] es[b]) == k;
            assert(b != i);
            let a = if b < i { b } else { b - 1 };
            assert(es2[a] == es[b]);
        }
    }
    assert forall|k: Seq<char>| m1.dom().contains(k) implies m1[k] == m2[k] by {
        let a = choose|a: int| 0 <= a < es2.len() && key_of(#[trigger] es2[a]) == k;
        let b = if a < i { a } else { a + 1 };
        assert(es2[a] == es[b]);
        lemma_value_at(es2, a);
        lemma_value_at(es, b);
    }
    assert(m1 =~= m2);
}

/// Values by text key.
pub struct Keyed<V> {
    entries: Vec<(String, V)>,
}

impl<V> View for Keyed<V> {
    type V = Map<Seq<char>, V>;

    closed spec fn view(&self) -> Map<Seq<char>, V> {
        as_map(self.entries@)
    }
}

impl<V> Keyed<V> {
    /// One entry per key.
    #[verifier::type_invariant]
    spec fn unique_inv(self) -> bool {
        unique_keys(self.entries@)
    }

    pub fn new() -> (r: Self)
        ensures
            r@ == Map::<Seq<char>, V>::empty(),
    {
        let r = Keyed { entries: Vec::new() };
        assert(as_map(r.entries@) =~= Map::<Seq<char>, V>::empty());
        r
    }

    /// The entries, taken out (the map is left empty).
    fn take_entries(&mut self) -> (es: Vec<(String, V)>)
        ensures
            unique_keys(es@),
            as_map(es@) == old(self)@,
    {
        proof {
            use_type_invariant(&*self);
        }
        let mut es: Vec<(String, V)> = Vec::new();
        std::mem::swap(&mut es, &mut self.entries);
        es
    }

    fn put_entries(&mut self, es: Vec<(String, V)>)
        requires
            unique_keys(es@),
        ensures
            final(self)@ == as_map(es@),
    {
        self.entries = es;
    }

    /// The value of the key.
    pub fn get(&self, key: &str) -> (r: Option<&V>)
        ensures
            match r {
                Some(v) => self@.dom().contains(key@) && self@[key@] == *v,
                None => !self@.dom().contains(key@),
            },
    {
        proof {
            use_type_invariant(self);
        }
        match find_key(&self.entries, key) {
            Some(i) => {
                proof {
                    lemma_value_at(self.entries@, i as int);
                }
                Some(&self.entries[i].1)
            },
            None => None,
        }
    }

    /// Sets the value of the key.
    pub fn set(&mut self, key: &str, value: V)
        ensures
            final(self)@ == old(self)@.insert(key@, value),
    {
        let mut entries = self.take_entries();
        match find_key(&entries, key) {
            Some(i) => {
                let ghost es = entries@;
                proof {
                    lemma_remove(es, i as int);
                }
                let _ = entries.remove(i);
            },
            None => {},
        }
        let e = (crate::text::owned(key), value);
        let ghost es = entries@;
        assert(!holds_key(es, key_of(e))) by {
            if holds_key(es, key_of(e)) {
                let j = choose|j: int| 0 <= j < es.len() && key_of(#[trigger] es[j]) == key_of(e);
            }
        }
        proof {
            lemma_push(es, e);
        }
        entries.push(e);
        self.put_entries(entries);
        assert(self@ =~= old(self)@.insert(key@, value));
    }

    /// Removes the key.
    pub fn remove(&mut self, key: &str)
        ensures
            final(self)@ == old(self)@.remove(key@),
    {
        let mut entries = self.take_entries();
        match find_key(&entries, key) {
            Some(i) => {
                let ghost es = entries@;
                proof {
                    lemma_remove(es, i as int);
                }
                let _ = entries.remove(i);
            },
            None => {
                assert(old(self)@ =~= old(self)@.remove(key@));
            },
        }
        self.put_entries(entries);
    }

    /// Removes every key.
    pub fn clear(&mut self)
        ensures
            final(self)@ == Map::<Seq<char>, V>::empty(),
    {
        self.entries = Vec::new();
        assert(as_map(self.entries@) =~= Map::<Seq<char>, V>::empty());
    }
}

fn find_key<V>(entries: &Vec<(String, V)>, key: &str) -> (r: Option<usize>)
    ensures
        match r {
            Some(i) => i < entries@.len() && key_of(entries@[i as int]) == key@,
            None => !holds_key(entries@, key@),
        },
{
    let mut i: usize = 0;
    while i < entries.len()
        invariant
            i <= entries.len(),
            forall|j: int| 0 <= j < i ==> key_of(#[trigger] entries@[j]) != key@,
        decreases entries.len() - i,
    {
        if str_eq(entries[i].0.as_str(), key) {
            return Some(i);
        }
        i += 1;
    }
    None
}

} // verus!
