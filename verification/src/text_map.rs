//! A map from text to values, kept in the byte order of its keys.

use vstd::prelude::*;
use vstd::string::*;

use crate::bytes::{
    bytes_equal, bytes_less, lemma_lex_antisymmetric, lemma_lex_total, lemma_lex_transitive,
    lex_less,
};

verus! {

/// `a` sorts before `b` by its UTF-8 bytes.
pub open spec fn text_less(a: Seq<char>, b: Seq<char>) -> bool {
    lex_less(vstd::utf8::encode_utf8(a), vstd::utf8::encode_utf8(b))
}

/// Texts with the same bytes are the same, and any two others are ordered.
pub proof fn lemma_text_order(a: Seq<char>, b: Seq<char>)
    ensures
        a == b || text_less(a, b) || text_less(b, a),
        !(text_less(a, b) && text_less(b, a)),
        !text_less(a, a),
        vstd::utf8::encode_utf8(a) == vstd::utf8::encode_utf8(b) ==> a == b,
{
    lemma_lex_total(vstd::utf8::encode_utf8(a), vstd::utf8::encode_utf8(b));
    lemma_lex_antisymmetric(vstd::utf8::encode_utf8(a), vstd::utf8::encode_utf8(b));
    vstd::utf8::encode_utf8_decode_utf8(a);
    vstd::utf8::encode_utf8_decode_utf8(b);
}

/// Whether `a` sorts before `b`.
pub fn text_before(a: &str, b: &str) -> (less: bool)
    ensures
        less == text_less(a@, b@),
{
    bytes_less(a.as_bytes(), b.as_bytes())
}

/// A map from text to values, listed by increasing key.
pub struct TextMap<V> {
    /// Keys and values by increasing key.
    pub entries: Vec<(String, V)>,
}

impl<V> TextMap<V> {
    /// Keys strictly increase.
    pub open spec fn wf(&self) -> bool {
        forall|i: int, j: int|
            0 <= i < j < self.entries@.len() ==> text_less(
                #[trigger] self.entries@[i].0@,
                #[trigger] self.entries@[j].0@,
            )
    }

    /// `index` is the place of `key`.
    pub open spec fn at(&self, key: Seq<char>, index: int) -> bool {
        0 <= index < self.entries@.len() && self.entries@[index].0@ == key
    }

    /// The map holds `key`.
    pub open spec fn has(&self, key: Seq<char>) -> bool {
        exists|i: int| #[trigger] self.at(key, i)
    }

    /// The value under `key`.
    pub open spec fn value(&self, key: Seq<char>) -> V {
        self.entries@[choose|i: int| #[trigger] self.at(key, i)].1
    }

    /// The map as a mathematical one.
    pub open spec fn map(&self) -> Map<Seq<char>, V> {
        Map::new(|key: Seq<char>| self.has(key), |key: Seq<char>| self.value(key))
    }

    /// A key has one place.
    pub proof fn lemma_at(&self, key: Seq<char>, index: int)
        requires
            self.wf(),
            self.at(key, index),
        ensures
            self.has(key),
            self.value(key) == self.entries@[index].1,
            self.map().contains_key(key),
            self.map()[key] == self.entries@[index].1,
            forall|i: int| #[trigger] self.at(key, i) ==> i == index,
    {
        assert forall|i: int| #[trigger] self.at(key, i) implies i == index by {
            lemma_text_order(key, key);
            if i < index {
                assert(text_less(self.entries@[i].0@, self.entries@[index].0@));
            }
            if index < i {
                assert(text_less(self.entries@[index].0@, self.entries@[i].0@));
            }
        }
    }

    /// An empty map.
    pub fn new() -> (map: Self)
        ensures
            map.wf(),
            map.entries@.len() == 0,
            map.map() == Map::<Seq<char>, V>::empty(),
    {
        let map = TextMap { entries: Vec::new() };
        assert(map.map() =~= Map::<Seq<char>, V>::empty());
        map
    }

    /// The first place whose key does not sort before `key`.
    fn lower_bound(&self, key: &str) -> (index: usize)
        requires
            self.wf(),
        ensures
            index <= self.entries@.len(),
            forall|i: int| 0 <= i < index ==> text_less(#[trigger] self.entries@[i].0@, key@),
            forall|i: int|
                index <= i < self.entries@.len() ==> !text_less(
                    #[trigger] self.entries@[i].0@,
                    key@,
                ),
    {
        let mut low: usize = 0;
        let mut high: usize = self.entries.len();
        while low < high
            invariant
                self.wf(),
                low <= high <= self.entries@.len(),
                forall|i: int| 0 <= i < low ==> text_less(#[trigger] self.entries@[i].0@, key@),
                forall|i: int|
                    high <= i < self.entries@.len() ==> !text_less(
                        #[trigger] self.entries@[i].0@,
                        key@,
                    ),
            decreases high - low,
        {
            let middle: usize = low + (high - low) / 2;
            let less: bool = text_before(self.entries[middle].0.as_str(), key);
            proof {
                let pivot = self.entries@[middle as int].0@;
                assert forall|i: int| 0 <= i < self.entries@.len() implies (less && i <= middle
                    ==> text_less(#[trigger] self.entries@[i].0@, key@)) && (!less && i >= middle
                    ==> !text_less(self.entries@[i].0@, key@)) by {
                    if i < middle {
                        assert(text_less(self.entries@[i].0@, pivot));
                        if less {
                            lemma_lex_transitive(
                                vstd::utf8::encode_utf8(self.entries@[i].0@),
                                vstd::utf8::encode_utf8(pivot),
                                vstd::utf8::encode_utf8(key@),
                            );
                        }
                    }
                    if i > middle {
                        assert(text_less(pivot, self.entries@[i].0@));
                        if text_less(self.entries@[i].0@, key@) {
                            lemma_lex_transitive(
                                vstd::utf8::encode_utf8(pivot),
                                vstd::utf8::encode_utf8(self.entries@[i].0@),
                                vstd::utf8::encode_utf8(key@),
                            );
                        }
                    }
                }
            }
            if less {
                low = middle + 1;
            } else {
                high = middle;
            }
        }
        low
    }

    /// The place of `key`.
    pub fn find(&self, key: &str) -> (place: Option<usize>)
        requires
            self.wf(),
        ensures
            match place {
                Some(index) => self.at(key@, index as int) && self.map().contains_key(key@)
                    && self.map()[key@] == self.entries@[index as int].1,
                None => !self.has(key@) && !self.map().contains_key(key@),
            },
    {
        let index: usize = self.lower_bound(key);
        if index < self.entries.len() && bytes_equal(
            self.entries[index].0.as_str().as_bytes(),
            key.as_bytes(),
        ) {
            proof {
                lemma_text_order(self.entries@[index as int].0@, key@);
                self.lemma_at(key@, index as int);
            }
            return Some(index);
        }
        proof {
            if self.has(key@) {
                let i = choose|i: int| #[trigger] self.at(key@, i);
                lemma_text_order(key@, key@);
                if i > index {
                    assert(text_less(self.entries@[index as int].0@, self.entries@[i].0@));
                }
            }
        }
        None
    }

    /// Store `value` under `key`, in place of what was there.
    pub fn insert(&mut self, key: String, value: V)
        requires
            old(self).wf(),
        ensures
            final(self).wf(),
            final(self).map() == old(self).map().insert(key@, value),
            final(self).entries@.len() == old(self).entries@.len() + if old(self).has(key@) {
                0int
            } else {
                1int
            },
    {
        let ghost before = *self;
        let index: usize = self.lower_bound(key.as_str());
        let ghost name = key@;
        if index < self.entries.len() && bytes_equal(
            self.entries[index].0.as_str().as_bytes(),
            key.as_str().as_bytes(),
        ) {
            proof {
                lemma_text_order(self.entries@[index as int].0@, key@);
                assert(before.at(name, index as int));
            }
            self.entries.set(index, (key, value));
            proof {
                assert forall|i: int| 0 <= i < self.entries@.len() implies (
                #[trigger] self.entries@[i].0)@ == before.entries@[i].0@ by {}
                assert(self.wf());
                self.lemma_replaced(before, index as int);
            }
        } else {
            proof {
                if before.has(name) {
                    let i = choose|i: int| #[trigger] before.at(name, i);
                    lemma_text_order(name, name);
                    if i > index {
                        assert(text_less(
                            before.entries@[index as int].0@,
                            before.entries@[i].0@,
                        ));
                    }
                }
                assert forall|i: int| index <= i < before.entries@.len() implies text_less(
                    name,
                    #[trigger] before.entries@[i].0@,
                ) by {
                    lemma_text_order(name, before.entries@[i].0@);
                    if before.entries@[i].0@ == name {
                        assert(before.at(name, i));
                    }
                }
            }
            self.entries.insert(index, (key, value));
            proof {
                assert(self.entries@ == before.entries@.insert(index as int, (key, value)));
                assert forall|i: int, j: int| 0 <= i < j < self.entries@.len() implies text_less(
                    #[trigger] self.entries@[i].0@,
                    #[trigger] self.entries@[j].0@,
                ) by {
                    if i < index && j < index {
                        assert(self.entries@[i] == before.entries@[i]);
                        assert(self.entries@[j] == before.entries@[j]);
                    } else if i < index && j > index {
                        assert(self.entries@[i] == before.entries@[i]);
                        assert(self.entries@[j] == before.entries@[j - 1]);
                    } else if i > index {
                        assert(self.entries@[i] == before.entries@[i - 1]);
                        assert(self.entries@[j] == before.entries@[j - 1]);
                    } else if i == index {
                        assert(self.entries@[j] == before.entries@[j - 1]);
                    } else {
                        assert(self.entries@[i] == before.entries@[i]);
                    }
                }
                self.lemma_inserted(before, index as int);
            }
        }
    }

    proof fn lemma_replaced(&self, before: Self, index: int)
        requires
            self.wf(),
            before.wf(),
            0 <= index < before.entries@.len(),
            self.entries@ == before.entries@.update(index, self.entries@[index]),
            self.entries@[index].0@ == before.entries@[index].0@,
        ensures
            self.map() == before.map().insert(self.entries@[index].0@, self.entries@[index].1),
    {
        let name = self.entries@[index].0@;
        let value = self.entries@[index].1;
        assert forall|key: Seq<char>| #[trigger]
            self.map().contains_key(key) == before.map().insert(name, value).contains_key(key) && (
            self.map().contains_key(key) ==> self.map()[key] == before.map().insert(name, value)[key])
            by {
            self.lemma_at(name, index);
            if self.has(key) {
                let i = choose|i: int| #[trigger] self.at(key, i);
                self.lemma_at(key, i);
                assert(before.at(key, i));
                before.lemma_at(key, i);
            }
            if before.has(key) {
                let i = choose|i: int| #[trigger] before.at(key, i);
                assert(self.at(key, i));
            }
        }
        assert(self.map() =~= before.map().insert(name, value));
    }

    proof fn lemma_inserted(&self, before: Self, index: int)
        requires
            self.wf(),
            before.wf(),
            0 <= index <= before.entries@.len(),
            self.entries@ == before.entries@.insert(index, self.entries@[index]),
            !before.has(self.entries@[index].0@),
        ensures
            self.map() == before.map().insert(self.entries@[index].0@, self.entries@[index].1),
    {
        let name = self.entries@[index].0@;
        let value = self.entries@[index].1;
        assert forall|key: Seq<char>| #[trigger]
            self.map().contains_key(key) == before.map().insert(name, value).contains_key(key) && (
            self.map().contains_key(key) ==> self.map()[key] == before.map().insert(name, value)[key])
            by {
            assert(self.at(name, index));
            self.lemma_at(name, index);
            if self.has(key) {
                let i = choose|i: int| #[trigger] self.at(key, i);
                self.lemma_at(key, i);
                if i < index {
                    assert(before.at(key, i));
                    before.lemma_at(key, i);
                }
                if i > index {
                    assert(before.at(key, i - 1));
                    before.lemma_at(key, i - 1);
                }
            }
            if before.has(key) {
                let i = choose|i: int| #[trigger] before.at(key, i);
                if i < index {
                    assert(self.at(key, i));
                } else {
                    assert(self.at(key, i + 1));
                }
            }
        }
        assert(self.map() =~= before.map().insert(name, value));
    }

    /// Take the value under `key` out of the map.
    pub fn remove(&mut self, key: &str) -> (taken: Option<V>)
        requires
            old(self).wf(),
        ensures
            final(self).wf(),
            final(self).map() == old(self).map().remove(key@),
            match taken {
                Some(value) => old(self).map().contains_key(key@) && value == old(self).map()[key@],
                None => !old(self).map().contains_key(key@),
            },
    {
        let ghost before = *self;
        match self.find(key) {
            None => {
                assert(self.map() =~= before.map().remove(key@));
                None
            },
            Some(index) => {
                let entry: (String, V) = self.entries.remove(index);
                proof {
                    let at = index as int;
                    assert forall|i: int, j: int| 0 <= i < j < self.entries@.len() implies text_less(
                        #[trigger] self.entries@[i].0@,
                        #[trigger] self.entries@[j].0@,
                    ) by {
                        let a = if i < at {
                            i
                        } else {
                            i + 1
                        };
                        let b = if j < at {
                            j
                        } else {
                            j + 1
                        };
                        assert(self.entries@[i] == before.entries@[a]);
                        assert(self.entries@[j] == before.entries@[b]);
                    }
                    assert forall|name: Seq<char>| #[trigger]
                        self.map().contains_key(name) == before.map().remove(key@).contains_key(
                            name,
                        ) && (self.map().contains_key(name) ==> self.map()[name]
                            == before.map().remove(key@)[name]) by {
                        before.lemma_at(key@, at);
                        if self.has(name) {
                            let i = choose|i: int| #[trigger] self.at(name, i);
                            self.lemma_at(name, i);
                            let a = if i < at {
                                i
                            } else {
                                i + 1
                            };
                            assert(before.at(name, a));
                            before.lemma_at(name, a);
                        }
                        if before.has(name) && name != key@ {
                            let i = choose|i: int| #[trigger] before.at(name, i);
                            let a = if i < at {
                                i
                            } else {
                                i - 1
                            };
                            assert(self.at(name, a));
                        }
                    }
                    assert(self.map() =~= before.map().remove(key@));
                }
                Some(entry.1)
            },
        }
    }
}

} // verus!
