use crate::order::{
    comes_before, lemma_before_irreflexive, lemma_before_total, lemma_before_transitive,
    strictly_sorted, text_before,
};
use crate::text::same;
use vstd::prelude::*;

verus! {

/// A map from texts to values whose entries are kept in the order of their keys.
#[derive(Debug)]
pub struct TextMap<T> {
    pub entries: Vec<(String, T)>,
}

impl<T> TextMap<T> {
    /// The keys, in the order of the entries.
    pub open spec fn keys(self) -> Seq<Seq<char>> {
        self.entries@.map_values(|e: (String, T)| e.0@)
    }

    /// The keys stand in order, and none stands twice.
    pub open spec fn well_formed(self) -> bool {
        strictly_sorted(self.keys())
    }

    /// What the map holds.
    pub open spec fn contents(self) -> Map<Seq<char>, T> {
        Map::new(
            |k: Seq<char>| self.keys().contains(k),
            |k: Seq<char>| self.entries@[self.keys().index_of(k)].1,
        )
    }

    /// In a well-formed map each entry is what its key leads to.
    pub proof fn lemma_entry(self, i: int)
        requires
            self.well_formed(),
            0 <= i < self.entries@.len(),
        ensures
            self.contents().contains_key(self.entries@[i].0@),
            self.contents()[self.entries@[i].0@] == self.entries@[i].1,
    {
        let k = self.keys()[i];
        assert(self.keys().contains(k));
        let j = self.keys().index_of(k);
        lemma_before_irreflexive(k);
        if i < j {
            assert(text_before(self.keys()[i], self.keys()[j]));
        }
        if j < i {
            assert(text_before(self.keys()[j], self.keys()[i]));
        }
    }

    /// The empty map.
    pub fn new() -> (result: Self)
        ensures
            result.well_formed(),
            result.contents() == Map::<Seq<char>, T>::empty(),
            result.entries@.len() == 0,
    {
        let result = TextMap { entries: Vec::new() };
        assert(result.contents() =~= Map::<Seq<char>, T>::empty());
        result
    }

    /// The first position whose key does not come before `key`.
    fn position(&self, key: &str) -> (result: usize)
        requires
            self.well_formed(),
        ensures
            result <= self.entries@.len(),
            forall|i: int| 0 <= i < result ==> text_before(#[trigger] self.keys()[i], key@),
            forall|i: int|
                result <= i < self.entries@.len() ==> !text_before(#[trigger] self.keys()[i], key@),
    {
        let mut at: usize = 0;
        while at < self.entries.len() && comes_before(&self.entries[at].0, key)
            invariant
                at <= self.entries@.len(),
                forall|i: int| 0 <= i < at ==> text_before(#[trigger] self.keys()[i], key@),
            decreases self.entries@.len() - at,
        {
            at = at + 1;
        }
        proof {
            assert forall|i: int| at <= i < self.entries@.len() implies !text_before(
                #[trigger] self.keys()[i],
                key@,
            ) by {
                if i > at && text_before(self.keys()[i], key@) {
                    lemma_before_transitive(self.keys()[at as int], self.keys()[i], key@);
                }
            }
        }
        at
    }

    /// Where `key` stands among the entries, if it does.
    pub fn find(&self, key: &str) -> (result: Option<usize>)
        requires
            self.well_formed(),
        ensures
            match result {
                Some(i) => i < self.entries@.len() && self.entries@[i as int].0@ == key@,
                None => !self.contents().contains_key(key@),
            },
    {
        let at: usize = self.position(key);
        if at < self.entries.len() && same(&self.entries[at].0, key) {
            return Some(at);
        }
        proof {
            if self.keys().contains(key@) {
                let i = self.keys().index_of(key@);
                lemma_before_irreflexive(key@);
                if i > at {
                    lemma_before_total(self.keys()[at as int], key@);
                    assert(text_before(self.keys()[at as int], self.keys()[i]));
                }
            }
        }
        None
    }

    /// What `key` leads to.
    pub fn get(&self, key: &str) -> (result: Option<&T>)
        requires
            self.well_formed(),
        ensures
            match result {
                Some(value) => self.contents().contains_key(key@) && *value
                    == self.contents()[key@],
                None => !self.contents().contains_key(key@),
            },
    {
        match self.find(key) {
            Some(i) => {
                proof {
                    self.lemma_entry(i as int);
                }
                Some(&self.entries[i].1)
            },
            None => None,
        }
    }

    /// Whether `key` leads to something.
    pub fn contains_key(&self, key: &str) -> (result: bool)
        requires
            self.well_formed(),
        ensures
            result == self.contents().contains_key(key@),
    {
        self.get(key).is_some()
    }

    /// Makes `key` lead to `value`, whatever it led to before.
    pub fn insert(&mut self, key: String, value: T)
        requires
            old(self).well_formed(),
        ensures
            final(self).well_formed(),
            final(self).contents() == old(self).contents().insert(key@, value),
    {
        let ghost before = *self;
        let ghost k = key@;
        let at: usize = self.position(&key);
        if at < self.entries.len() && same(&self.entries[at].0, &key) {
            self.entries.set(at, (key, value));
            proof {
                assert(self.keys() =~= before.keys());
            }
        } else {
            self.entries.insert(at, (key, value));
            proof {
                assert(self.keys() =~= before.keys().insert(at as int, k));
                lemma_sorted_insert(before.keys(), at as int, k);
            }
        }
        proof {
            assert(self.contents() =~= before.contents().insert(k, value)) by {
                assert forall|t: Seq<char>|
                    self.contents().contains_key(t) == before.contents().insert(
                        k,
                        value,
                    ).contains_key(t) by {
                    if before.keys().contains(t) {
                        let i = before.keys().index_of(t);
                        if self.entries@.len() == before.entries@.len() {
                            assert(self.keys()[i] == t);
                        } else if i < at {
                            assert(self.keys()[i] == t);
                        } else {
                            assert(self.keys()[i + 1] == t);
                        }
                    }
                    if t == k {
                        assert(self.keys()[at as int] == t);
                    }
                    if self.keys().contains(t) && t != k {
                        let i = self.keys().index_of(t);
                        if self.entries@.len() == before.entries@.len() {
                            assert(before.keys()[i] == t);
                        } else if i < at {
                            assert(before.keys()[i] == t);
                        } else {
                            assert(before.keys()[i - 1] == t);
                        }
                    }
                }
                assert forall|t: Seq<char>|
                    self.contents().contains_key(t) implies #[trigger] self.contents()[t]
                    == before.contents().insert(k, value)[t] by {
                    let i = self.keys().index_of(t);
                    self.lemma_entry(i);
                    if t == k {
                        self.lemma_entry(at as int);
                    } else {
                        let j = if self.entries@.len() == before.entries@.len() || i < at {
                            i
                        } else {
                            i - 1
                        };
                        before.lemma_entry(j);
                        assert(before.entries@[j] == self.entries@[i]);
                    }
                }
            }
        }
    }
}

/// A text that fits between its neighbours can be put into a sorted list.
pub proof fn lemma_sorted_insert(list: Seq<Seq<char>>, at: int, value: Seq<char>)
    requires
        strictly_sorted(list),
        0 <= at <= list.len(),
        forall|i: int| 0 <= i < at ==> text_before(#[trigger] list[i], value),
        forall|i: int| at <= i < list.len() ==> !text_before(#[trigger] list[i], value),
        at < list.len() ==> list[at] != value,
    ensures
        strictly_sorted(list.insert(at, value)),
{
    let after = list.insert(at, value);
    assert forall|i: int, j: int| 0 <= i < j < after.len() implies text_before(
        #[trigger] after[i],
        #[trigger] after[j],
    ) by {
        if j == at {
            assert(after[i] == list[i]);
        } else if i == at {
            assert(after[j] == list[j - 1]);
            lemma_before_total(list[at], value);
            if at < j - 1 {
                assert(text_before(list[at], list[j - 1]));
                lemma_before_transitive(value, list[at], list[j - 1]);
            }
        } else {
            let a = if i < at {
                i
            } else {
                i - 1
            };
            let b = if j < at {
                j
            } else {
                j - 1
            };
            assert(after[i] == list[a]);
            assert(after[j] == list[b]);
        }
    }
}

/// What the keys of a map of lists lead to.
pub open spec fn list_contents<T>(map: TextMap<Vec<T>>) -> Map<Seq<char>, Seq<T>> {
    map.contents().map_values(|v: Vec<T>| v@)
}

/// A map with `value` appended to the list that `key` leads to.
pub open spec fn with_appended<T>(
    map: Map<Seq<char>, Seq<T>>,
    key: Seq<char>,
    value: T,
) -> Map<Seq<char>, Seq<T>> {
    map.insert(
        key,
        (if map.contains_key(key) {
            map[key]
        } else {
            Seq::empty()
        }).push(value),
    )
}

/// Appends `value` to the list that `key` leads to, which starts empty.
pub fn push_to<T>(map: &mut TextMap<Vec<T>>, key: String, value: T)
    requires
        old(map).well_formed(),
    ensures
        final(map).well_formed(),
        list_contents(*final(map)) == with_appended(list_contents(*old(map)), key@, value),
{
    let ghost before = *map;
    let ghost k = key@;
    match map.find(&key) {
        Some(i) => {
            proof {
                before.lemma_entry(i as int);
            }
            let (name, mut list) = map.entries.remove(i);
            list.push(value);
            map.entries.insert(i, (name, list));
            proof {
                assert(map.keys() =~= before.keys());
                assert(map.entries@ =~= before.entries@.update(i as int, (name, list)));
                assert(list_contents(*map) =~= with_appended(list_contents(before), k, value)) by {
                    assert forall|t: Seq<char>| #[trigger]
                        list_contents(*map).contains_key(t) implies list_contents(*map)[t]
                        == with_appended(list_contents(before), k, value)[t] by {
                        let j = map.keys().index_of(t);
                        map.lemma_entry(j);
                        before.lemma_entry(j);
                        if t == k {
                            map.lemma_entry(i as int);
                        }
                    }
                }
            }
        },
        None => {
            let mut list: Vec<T> = Vec::new();
            list.push(value);
            map.insert(key, list);
            proof {
                assert(list@ == Seq::<T>::empty().push(value));
                let after = list_contents(*map);
                let wanted = with_appended(list_contents(before), k, value);
                assert(map.contents() == before.contents().insert(k, list));
                assert(!list_contents(before).contains_key(k));
                assert forall|t: Seq<char>| #[trigger]
                    after.contains_key(t) == wanted.contains_key(t) by {
                    assert(map.contents().contains_key(t) == (before.contents().contains_key(t)
                        || t == k));
                }
                assert forall|t: Seq<char>| #[trigger] after.contains_key(t) implies after[t]
                    == wanted[t] by {
                    assert(map.contents().contains_key(t));
                    assert(after[t] == map.contents()[t]@);
                    if t == k {
                        assert(map.contents()[t] == list);
                        assert(wanted[t] == Seq::<T>::empty().push(value));
                    } else {
                        assert(before.contents().contains_key(t));
                        assert(map.contents()[t] == before.contents()[t]);
                        assert(wanted[t] == list_contents(before)[t]);
                    }
                }
                assert(after =~= wanted);
            }
        },
    }
}

/// A value that is appended under a key stands last there; what was there stays before it, and no
/// other key changes.
pub proof fn law_appended<T>(
    map: Map<Seq<char>, Seq<T>>,
    key: Seq<char>,
    value: T,
    other: Seq<char>,
)
    ensures
        with_appended(map, key, value).contains_key(key),
        with_appended(map, key, value)[key].last() == value,
        map.contains_key(key) ==> with_appended(map, key, value)[key].drop_last() == map[key],
        !map.contains_key(key) ==> with_appended(map, key, value)[key].len() == 1,
        other != key ==> (with_appended(map, key, value).contains_key(other) <==> map.contains_key(
            other,
        )),
        other != key && map.contains_key(other) ==> with_appended(map, key, value)[other]
            == map[other],
{
    if map.contains_key(key) {
        assert(map[key].push(value).drop_last() =~= map[key]);
    }
}

} // verus!
