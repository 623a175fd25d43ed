//! Collections of texts, kept in ascending order.
use crate::text;
use vstd::prelude::*;

verus! {

/// A map from texts to values. Its keys are held in ascending order, each once.
pub struct OrderedMap<V> {
    entries: Vec<(String, V)>,
}

/// The keys of `entries` ascend.
spec fn ascending<V>(entries: Seq<(String, V)>) -> bool {
    forall|i: int, j: int|
        0 <= i < j < entries.len() ==> #[trigger] text::text_before(entries[i].0@, entries[j].0@)
}

/// The keys of `entries`, in order.
spec fn keys_of<V>(entries: Seq<(String, V)>) -> Seq<Seq<char>> {
    Seq::new(entries.len(), |i: int| entries[i].0@)
}

/// Where `key` stands in `entries`.
spec fn place<V>(entries: Seq<(String, V)>, key: Seq<char>) -> int {
    choose|i: int| 0 <= i < entries.len() && (#[trigger] entries[i]).0@ == key
}

/// The map that `entries` lists.
spec fn listed<V>(entries: Seq<(String, V)>) -> Map<Seq<char>, V> {
    Map::new(
        |key: Seq<char>| exists|i: int| 0 <= i < entries.len() && (#[trigger] entries[i]).0@ == key,
        |key: Seq<char>| entries[place(entries, key)].1,
    )
}

proof fn lemma_listed<V>(entries: Seq<(String, V)>, i: int)
    requires
        ascending(entries),
        0 <= i < entries.len(),
    ensures
        listed(entries).dom().contains(entries[i].0@),
        listed(entries)[entries[i].0@] == entries[i].1,
{
    let key = entries[i].0@;
    let j = place(entries, key);
    assert(0 <= j < entries.len() && entries[j].0@ == key);
    if i < j {
        assert(text::text_before(entries[i].0@, entries[j].0@));
        text::lemma_order_irreflexive(key);
    } else if j < i {
        assert(text::text_before(entries[j].0@, entries[i].0@));
        text::lemma_order_irreflexive(key);
    }
}

proof fn lemma_insert<V>(entries: Seq<(String, V)>, at: int, entry: (String, V))
    requires
        ascending(entries),
        0 <= at <= entries.len(),
        forall|i: int| 0 <= i < at ==> text::text_before((#[trigger] entries[i]).0@, entry.0@),
        forall|i: int| at <= i < entries.len() ==> text::text_before(entry.0@, (#[trigger] entries[i]).0@),
    ensures
        ascending(entries.insert(at, entry)),
        listed(entries.insert(at, entry)) == listed(entries).insert(entry.0@, entry.1),
{
    let more = entries.insert(at, entry);
    assert forall|i: int, j: int| 0 <= i < j < more.len() implies #[trigger] text::text_before(
        more[i].0@,
        more[j].0@,
    ) by {
        let a = if i < at { i } else { i - 1 };
        let b = if j < at { j } else { j - 1 };
        if i != at && j != at {
            assert(text::text_before(entries[a].0@, entries[b].0@));
        }
    }
    assert forall|key: Seq<char>| listed(more).dom().contains(key) == listed(entries).insert(
        entry.0@,
        entry.1,
    ).dom().contains(key) by {
        if listed(more).dom().contains(key) {
            let i = place(more, key);
            assert(more[i].0@ == key);
            if i < at {
                assert(entries[i].0@ == key);
            } else if i > at {
                assert(entries[i - 1].0@ == key);
            }
        }
        if listed(entries).dom().contains(key) {
            let i = place(entries, key);
            assert(entries[i].0@ == key);
            if i < at {
                assert(more[i].0@ == key);
            } else {
                assert(more[i + 1].0@ == key);
            }
        }
        assert(more[at].0@ == entry.0@);
    }
    assert forall|key: Seq<char>| #[trigger] listed(more).dom().contains(key) implies listed(more)[key]
        == listed(entries).insert(entry.0@, entry.1)[key] by {
        let i = place(more, key);
        assert(more[i].0@ == key);
        lemma_listed(more, i);
        if i < at {
            lemma_listed(entries, i);
            text::lemma_order_irreflexive(key);
        } else if i > at {
            lemma_listed(entries, i - 1);
            text::lemma_order_irreflexive(key);
        }
    }
    assert(listed(more) =~= listed(entries).insert(entry.0@, entry.1));
}

proof fn lemma_remove<V>(entries: Seq<(String, V)>, at: int)
    requires
        ascending(entries),
        0 <= at < entries.len(),
    ensures
        ascending(entries.remove(at)),
        listed(entries.remove(at)) == listed(entries).remove(entries[at].0@),
        forall|i: int|
            0 <= i < at ==> text::text_before((#[trigger] entries.remove(at)[i]).0@, entries[at].0@),
        forall|i: int|
            at <= i < entries.len() - 1 ==> text::text_before(
                entries[at].0@,
                (#[trigger] entries.remove(at)[i]).0@,
            ),
{
    let fewer = entries.remove(at);
    let gone = entries[at].0@;
    assert forall|i: int, j: int| 0 <= i < j < fewer.len() implies #[trigger] text::text_before(
        fewer[i].0@,
        fewer[j].0@,
    ) by {
        let a = if i < at { i } else { i + 1 };
        let b = if j < at { j } else { j + 1 };
        assert(text::text_before(entries[a].0@, entries[b].0@));
    }
    assert forall|i: int| 0 <= i < at implies text::text_before((#[trigger] fewer[i]).0@, gone) by {
        assert(text::text_before(entries[i].0@, entries[at].0@));
    }
    assert forall|i: int| at <= i < fewer.len() implies text::text_before(
        gone,
        (#[trigger] fewer[i]).0@,
    ) by {
        assert(text::text_before(entries[at].0@, entries[i + 1].0@));
    }
    assert forall|key: Seq<char>| listed(fewer).dom().contains(key) == listed(entries).remove(
        gone,
    ).dom().contains(key) by {
        if listed(fewer).dom().contains(key) {
            let i = place(fewer, key);
            assert(fewer[i].0@ == key);
            let a = if i < at { i } else { i + 1 };
            assert(entries[a].0@ == key);
            text::lemma_order_irreflexive(key);
        }
        if listed(entries).dom().contains(key) && key != gone {
            let i = place(entries, key);
            assert(entries[i].0@ == key);
            if i < at {
                assert(fewer[i].0@ == key);
            } else {
                assert(fewer[i - 1].0@ == key);
            }
        }
    }
    assert forall|key: Seq<char>| #[trigger] listed(fewer).dom().contains(key) implies listed(
        fewer,
    )[key] == listed(entries).remove(gone)[key] by {
        let i = place(fewer, key);
        assert(fewer[i].0@ == key);
        lemma_listed(fewer, i);
        let a = if i < at { i } else { i + 1 };
        lemma_listed(entries, a);
    }
    assert(listed(fewer) =~= listed(entries).remove(gone));
}

impl<V> View for OrderedMap<V> {
    type V = Map<Seq<char>, V>;

    closed spec fn view(&self) -> Map<Seq<char>, V> {
        listed(self.entries@)
    }
}

impl<V> OrderedMap<V> {
    /// The keys ascend.
    pub closed spec fn wf(&self) -> bool {
        ascending(self.entries@)
    }

    /// The keys, in ascending order.
    pub closed spec fn keys(&self) -> Seq<Seq<char>> {
        keys_of(self.entries@)
    }

    /// The keys are those of the map, each once, in ascending order.
    pub proof fn lemma_keys(&self)
        requires
            self.wf(),
        ensures
            self.keys().no_duplicates(),
            forall|i: int, j: int|
                0 <= i < j < self.keys().len() ==> text::text_before(
                    #[trigger] self.keys()[i],
                    #[trigger] self.keys()[j],
                ),
            forall|i: int|
                0 <= i < self.keys().len() ==> self@.dom().contains(#[trigger] self.keys()[i]),
            forall|key: Seq<char>| #[trigger]
                self@.dom().contains(key) ==> self.keys().contains(key),
    {
        assert forall|i: int, j: int| 0 <= i < j < self.keys().len() implies text::text_before(
            #[trigger] self.keys()[i],
            #[trigger] self.keys()[j],
        ) by {
            assert(text::text_before(self.entries@[i].0@, self.entries@[j].0@));
        }
        assert forall|i: int, j: int|
            0 <= i < self.keys().len() && 0 <= j < self.keys().len() && i
                != j implies self.keys()[i] != self.keys()[j] by {
            text::lemma_order_irreflexive(self.keys()[i]);
            if i < j {
                assert(text::text_before(self.keys()[i], self.keys()[j]));
            } else {
                assert(text::text_before(self.keys()[j], self.keys()[i]));
            }
        }
        assert forall|i: int| 0 <= i < self.keys().len() implies self@.dom().contains(
            #[trigger] self.keys()[i],
        ) by {
            lemma_listed(self.entries@, i);
        }
        assert forall|key: Seq<char>| #[trigger] self@.dom().contains(key) implies self.keys().contains(
        key) by {
            let i = place(self.entries@, key);
            assert(self.keys()[i] == key);
        }
    }

    /// The empty map.
    pub fn new() -> (r: Self)
        ensures
            r.wf(),
            r@ == Map::<Seq<char>, V>::empty(),
            r.keys().len() == 0,
    {
        let r: Self = OrderedMap { entries: Vec::new() };
        assert(r@ =~= Map::<Seq<char>, V>::empty());
        r
    }

    /// The number of keys.
    pub fn len(&self) -> (r: usize)
        ensures
            r == self.keys().len(),
    {
        self.entries.len()
    }

    /// Is there no key?
    pub fn is_empty(&self) -> (r: bool)
        ensures
            r == (self.keys().len() == 0),
    {
        self.entries.len() == 0
    }

    /// The key at `i`, with its value.
    pub fn entry_at(&self, i: usize) -> (r: (&String, &V))
        requires
            self.wf(),
            i < self.keys().len(),
        ensures
            r.0@ == self.keys()[i as int],
            self@.dom().contains(self.keys()[i as int]),
            *r.1 == self@[self.keys()[i as int]],
    {
        proof {
            lemma_listed(self.entries@, i as int);
        }
        (&self.entries[i].0, &self.entries[i].1)
    }

    /// The first place whose key does not come before `key`.
    fn lower(&self, key: &str) -> (r: usize)
        requires
            self.wf(),
        ensures
            r <= self.entries@.len(),
            forall|i: int| 0 <= i < r ==> text::text_before((#[trigger] self.entries@[i]).0@, key@),
            forall|i: int|
                r <= i < self.entries@.len() ==> !text::text_before((#[trigger] self.entries@[i]).0@, key@),
            forall|i: int|
                r < i < self.entries@.len() ==> text::text_before(key@, (#[trigger] self.entries@[i]).0@),
            r < self.entries@.len() && self.entries@[r as int].0@ != key@ ==> text::text_before(
                key@,
                self.entries@[r as int].0@,
            ),
    {
        let mut at: usize = 0;
        while at < self.entries.len() && text::precedes(self.entries[at].0.as_str(), key)
            invariant
                at <= self.entries@.len(),
                forall|i: int| 0 <= i < at ==> text::text_before((#[trigger] self.entries@[i]).0@, key@),
            decreases self.entries@.len() - at,
        {
            at += 1;
        }
        proof {
            if at < self.entries@.len() {
                let edge = self.entries@[at as int].0@;
                text::lemma_order_total(edge, key@);
                assert forall|i: int| at < i < self.entries@.len() implies text::text_before(
                    key@,
                    (#[trigger] self.entries@[i]).0@,
                ) by {
                    assert(text::text_before(edge, self.entries@[i].0@));
                    if edge != key@ {
                        text::lemma_order_transitive(key@, edge, self.entries@[i].0@);
                    }
                }
                assert forall|i: int| at <= i < self.entries@.len() implies !text::text_before(
                    (#[trigger] self.entries@[i]).0@,
                    key@,
                ) by {
                    if text::text_before(self.entries@[i].0@, key@) && i > at {
                        text::lemma_order_transitive(key@, self.entries@[i].0@, key@);
                        text::lemma_order_irreflexive(key@);
                    }
                }
            }
        }
        at
    }

    /// The value at `key`.
    pub fn get(&self, key: &str) -> (r: Option<&V>)
        requires
            self.wf(),
        ensures
            match r {
                Some(value) => self@.dom().contains(key@) && *value == self@[key@],
                None => !self@.dom().contains(key@),
            },
    {
        let at: usize = self.lower(key);
        if at < self.entries.len() && text::same_text(self.entries[at].0.as_str(), key) {
            proof {
                lemma_listed(self.entries@, at as int);
            }
            Some(&self.entries[at].1)
        } else {
            proof {
                if self@.dom().contains(key@) {
                    let i = place(self.entries@, key@);
                    assert(self.entries@[i].0@ == key@);
                    text::lemma_order_irreflexive(key@);
                }
            }
            None
        }
    }

    /// Is `key` in the map?
    pub fn contains_key(&self, key: &str) -> (r: bool)
        requires
            self.wf(),
        ensures
            r == self@.dom().contains(key@),
    {
        self.get(key).is_some()
    }

    /// Takes the value at `key` out of the map.
    pub fn take(&mut self, key: &str) -> (r: Option<V>)
        requires
            old(self).wf(),
        ensures
            final(self).wf(),
            final(self)@ == old(self)@.remove(key@),
            match r {
                Some(value) => old(self)@.dom().contains(key@) && value == old(self)@[key@],
                None => !old(self)@.dom().contains(key@),
            },
    {
        let at: usize = self.lower(key);
        if at < self.entries.len() && text::same_text(self.entries[at].0.as_str(), key) {
            proof {
                lemma_listed(self.entries@, at as int);
                lemma_remove(self.entries@, at as int);
            }
            let (_, value): (String, V) = self.entries.remove(at);
            Some(value)
        } else {
            proof {
                if self@.dom().contains(key@) {
                    let i = place(self.entries@, key@);
                    assert(self.entries@[i].0@ == key@);
                    text::lemma_order_irreflexive(key@);
                }
                assert(self@.remove(key@) =~= self@);
            }
            None
        }
    }

    /// Puts `value` at `key`, in place of what stood there.
    pub fn insert(&mut self, key: String, value: V)
        requires
            old(self).wf(),
        ensures
            final(self).wf(),
            final(self)@ == old(self)@.insert(key@, value),
    {
        let at: usize = self.lower(key.as_str());
        if at < self.entries.len() && text::same_text(self.entries[at].0.as_str(), key.as_str()) {
            proof {
                lemma_remove(self.entries@, at as int);
            }
            let _gone: (String, V) = self.entries.remove(at);
        }
        proof {
            lemma_insert(self.entries@, at as int, (key, value));
            assert(old(self)@.remove(key@).insert(key@, value) =~= old(self)@.insert(key@, value));
        }
        self.entries.insert(at, (key, value));
    }
}

impl<V: Clone> OrderedMap<V> {
    /// A copy of the map, each value a clone.
    pub fn copied(&self) -> (r: Self)
        requires
            self.wf(),
        ensures
            r.wf(),
            r.keys() == self.keys(),
            r@.dom() == self@.dom(),
            forall|key: Seq<char>|
                self@.dom().contains(key) ==> cloned(self@[key], #[trigger] r@[key]),
    {
        let mut out: Vec<(String, V)> = Vec::new();
        let mut i: usize = 0;
        while i < self.entries.len()
            invariant
                i <= self.entries@.len(),
                out@.len() == i,
                forall|j: int|
                    0 <= j < i ==> (#[trigger] out@[j]).0@ == self.entries@[j].0@ && cloned(
                        self.entries@[j].1,
                        out@[j].1,
                    ),
            decreases self.entries@.len() - i,
        {
            out.push((self.entries[i].0.clone(), self.entries[i].1.clone()));
            i += 1;
        }
        let r: Self = OrderedMap { entries: out };
        proof {
            assert(r.keys() =~= self.keys());
            assert forall|a: int, b: int| 0 <= a < b < out@.len() implies #[trigger] text::text_before(
                out@[a].0@,
                out@[b].0@,
            ) by {
                assert(text::text_before(self.entries@[a].0@, self.entries@[b].0@));
            }
            self.lemma_keys();
            r.lemma_keys();
            assert forall|key: Seq<char>| r@.dom().contains(key) == self@.dom().contains(key) by {
                if r@.dom().contains(key) {
                    let j = place(out@, key);
                    assert(out@[j].0@ == key);
                    assert(self.entries@[j].0@ == key);
                }
                if self@.dom().contains(key) {
                    let j = place(self.entries@, key);
                    assert(self.entries@[j].0@ == key);
                    assert(out@[j].0@ == key);
                }
            }
            assert(r@.dom() =~= self@.dom());
            assert forall|key: Seq<char>| self@.dom().contains(key) implies cloned(
                self@[key],
                #[trigger] r@[key],
            ) by {
                let j = place(self.entries@, key);
                assert(self.entries@[j].0@ == key);
                lemma_listed(self.entries@, j);
                lemma_listed(out@, j);
                assert(out@[j].0@ == key);
            }
        }
        r
    }
}

} // verus!
