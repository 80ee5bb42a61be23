//! Values by text keys.
use vstd::prelude::*;

use crate::text;

verus! {

/// Values by text keys, each key once.
#[derive(Debug)]
pub struct Keyed<T> {
    keys: Vec<String>,
    values: Vec<T>,
}

spec fn has_key(keys: Seq<String>, key: Seq<char>) -> bool {
    exists|i: int| 0 <= i < keys.len() && (#[trigger] keys[i])@ == key
}

/// The place of a key.
spec fn place_of(keys: Seq<String>, key: Seq<char>) -> int {
    choose|i: int| 0 <= i < keys.len() && (#[trigger] keys[i])@ == key
}

spec fn entries<T>(keys: Seq<String>, values: Seq<T>) -> Map<Seq<char>, T> {
    Map::new(|key: Seq<char>| has_key(keys, key), |key: Seq<char>| values[place_of(keys, key)])
}

spec fn fits<T>(keys: Seq<String>, values: Seq<T>) -> bool {
    keys.len() == values.len() && text::texts(keys).no_duplicates()
}

proof fn lemma_entry_at<T>(keys: Seq<String>, values: Seq<T>, i: int)
    requires
        fits(keys, values),
        0 <= i < keys.len(),
    ensures
        entries(keys, values).contains_key(keys[i]@),
        entries(keys, values)[keys[i]@] == values[i],
{
    let key = keys[i]@;
    assert(has_key(keys, key));
    let j = place_of(keys, key);
    assert(text::texts(keys)[i] == text::texts(keys)[j]);
}

proof fn lemma_replaced<T>(keys: Seq<String>, values: Seq<T>, i: int, value: T)
    requires
        fits(keys, values),
        0 <= i < keys.len(),
    ensures
        fits(keys, values.update(i, value)),
        entries(keys, values.update(i, value)) == entries(keys, values).insert(keys[i]@, value),
{
    let after = values.update(i, value);
    let expected = entries(keys, values).insert(keys[i]@, value);
    assert(has_key(keys, keys[i]@));
    assert forall|key: Seq<char>| #[trigger] expected.contains_key(key) implies entries(
        keys,
        after,
    )[key] == expected[key] by {
        let j = place_of(keys, key);
        lemma_entry_at(keys, values, j);
        if j != i {
            assert(text::texts(keys)[i] != text::texts(keys)[j]);
        }
    }
    assert(entries(keys, after) =~= expected);
}

proof fn lemma_added<T>(keys: Seq<String>, values: Seq<T>, key: String, value: T)
    requires
        fits(keys, values),
        !has_key(keys, key@),
    ensures
        fits(keys.push(key), values.push(value)),
        entries(keys.push(key), values.push(value)) == entries(keys, values).insert(key@, value),
{
    let more_keys = keys.push(key);
    let more_values = values.push(value);
    let n = keys.len() as int;
    assert forall|i: int, j: int|
        0 <= i < more_keys.len() && 0 <= j < more_keys.len() && i != j implies text::texts(
        more_keys,
    )[i] != text::texts(more_keys)[j] by {
        if i < n && j < n {
            assert(text::texts(keys)[i] != text::texts(keys)[j]);
        } else if i < n {
            assert(keys[i]@ != key@);
        } else {
            assert(keys[j]@ != key@);
        }
    }
    let expected = entries(keys, values).insert(key@, value);
    assert forall|k: Seq<char>| has_key(more_keys, k) == (k == key@ || has_key(keys, k)) by {
        if has_key(keys, k) {
            assert(more_keys[place_of(keys, k)]@ == k);
        }
        if has_key(more_keys, k) {
            let j = place_of(more_keys, k);
            if j < n {
                assert(keys[j]@ == k);
            }
        }
        if k == key@ {
            assert(more_keys[n]@ == k);
        }
    }
    assert forall|k: Seq<char>| #[trigger] expected.contains_key(k) implies entries(
        more_keys,
        more_values,
    )[k] == expected[k] by {
        assert(has_key(more_keys, k));
        let j = place_of(more_keys, k);
        lemma_entry_at(more_keys, more_values, j);
        if j < n {
            assert(more_keys[j] == keys[j]);
            lemma_entry_at(keys, values, j);
        }
    }
    assert(entries(more_keys, more_values) =~= expected);
}

impl<T> View for Keyed<T> {
    type V = Map<Seq<char>, T>;

    closed spec fn view(&self) -> Map<Seq<char>, T> {
        entries(self.keys@, self.values@)
    }
}

impl<T> Keyed<T> {
    #[verifier::type_invariant]
    spec fn well_formed(self) -> bool {
        fits(self.keys@, self.values@)
    }

    /// No values.
    pub fn new() -> (r: Keyed<T>)
        ensures
            r@ == Map::<Seq<char>, T>::empty(),
    {
        let r = Keyed { keys: Vec::new(), values: Vec::new() };
        assert(r@ =~= Map::<Seq<char>, T>::empty());
        r
    }

    fn position(&self, key: &str) -> (r: Option<usize>)
        ensures
            r is Some == has_key(self.keys@, key@),
            r is Some ==> r->0 < self.keys@.len() && self.keys@[r->0 as int]@ == key@,
    {
        let mut i: usize = 0;
        while i < self.keys.len()
            invariant
                i <= self.keys@.len(),
                forall|j: int| 0 <= j < i ==> (#[trigger] self.keys@[j])@ != key@,
            decreases self.keys@.len() - i,
        {
            if text::same_str(self.keys[i].as_str(), key) {
                assert(self.keys@[i as int]@ == key@);
                return Some(i);
            }
            i = i + 1;
        }
        None
    }

    /// Puts a value under a key, in place of the one that was there.
    pub fn insert(&mut self, key: String, value: T)
        ensures
            final(self)@ == old(self)@.insert(key@, value),
    {
        proof {
            use_type_invariant(&*self);
        }
        let place = self.position(key.as_str());
        let ghost keys_before = self.keys@;
        let ghost values_before = self.values@;
        let mut taken = Keyed { keys: Vec::new(), values: Vec::new() };
        std::mem::swap(&mut taken, self);
        let Keyed { mut keys, mut values } = taken;
        match place {
            Some(i) => {
                proof {
                    lemma_replaced(keys_before, values_before, i as int, value);
                }
                values.set(i, value);
            },
            None => {
                proof {
                    lemma_added(keys_before, values_before, key, value);
                }
                keys.push(key);
                values.push(value);
            },
        }
        *self = Keyed { keys, values };
    }

    /// The value under a key.
    pub fn get(&self, key: &str) -> (r: Option<&T>)
        ensures
            r is Some == self@.contains_key(key@),
            r is Some ==> *r->0 == self@[key@],
    {
        proof {
            use_type_invariant(self);
        }
        match self.position(key) {
            Some(i) => {
                proof {
                    lemma_entry_at(self.keys@, self.values@, i as int);
                }
                Some(&self.values[i])
            },
            None => None,
        }
    }
}

} // verus!
