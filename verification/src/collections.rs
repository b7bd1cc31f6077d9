//! Maps and sets keyed by text, kept in the order of their keys.

use crate::text::lemma_text_order_total;
use crate::text::lemma_text_order_transitive;
use crate::text::sorts_before;
use crate::text::text_before;
use vstd::prelude::*;

verus! {

/// Whether the keys of the pairs ascend strictly.
pub open spec fn keys_ascend<V>(pairs: Seq<(Seq<char>, V)>) -> bool {
    forall|i: int, j: int|
        0 <= i < j < pairs.len() ==> text_before((#[trigger] pairs[i]).0, (#[trigger] pairs[j]).0)
}

/// Whether some pair has the key.
pub open spec fn has_key<V>(pairs: Seq<(Seq<char>, V)>, key: Seq<char>) -> bool {
    exists|i: int| 0 <= i < pairs.len() && (#[trigger] pairs[i]).0 == key
}

/// The position of a pair with the key.
pub open spec fn key_position<V>(pairs: Seq<(Seq<char>, V)>, key: Seq<char>) -> int {
    choose|i: int| 0 <= i < pairs.len() && (#[trigger] pairs[i]).0 == key
}

/// The map that the pairs list.
pub open spec fn map_of_pairs<V>(pairs: Seq<(Seq<char>, V)>) -> Map<Seq<char>, V> {
    Map::new(|key: Seq<char>| has_key(pairs, key), |key: Seq<char>| pairs[key_position(pairs, key)].1)
}

/// A map from texts, in the order of its keys.
#[derive(Debug)]
pub struct StringMap<V> {
    entries: Vec<(String, V)>,
}

impl<V> View for StringMap<V> {
    type V = Map<Seq<char>, V>;

    open spec fn view(&self) -> Map<Seq<char>, V> {
        map_of_pairs(self.pairs())
    }
}

proof fn lemma_position_unique<V>(pairs: Seq<(Seq<char>, V)>, i: int)
    requires
        keys_ascend(pairs),
        0 <= i < pairs.len(),
    ensures
        has_key(pairs, pairs[i].0),
        key_position(pairs, pairs[i].0) == i,
{
    let key = pairs[i].0;
    let k = key_position(pairs, key);
    assert(0 <= k < pairs.len() && pairs[k].0 == key);
    lemma_text_order_total(key, key);
    if k < i {
        assert(text_before(pairs[k].0, pairs[i].0));
    } else if i < k {
        assert(text_before(pairs[i].0, pairs[k].0));
    }
}

impl<V> StringMap<V> {
    /// The keys and values, in the order of the keys.
    pub closed spec fn pairs(self) -> Seq<(Seq<char>, V)> {
        Seq::new(self.entries@.len(), |i: int| (self.entries@[i].0@, self.entries@[i].1))
    }

    /// What every map satisfies: its keys ascend strictly.
    #[verifier::type_invariant]
    pub open spec fn is_ordered(self) -> bool {
        keys_ascend(self.pairs())
    }

    /// A map without entries.
    pub fn new() -> (r: Self)
        ensures
            r.pairs() == Seq::<(Seq<char>, V)>::empty(),
            r@ == Map::<Seq<char>, V>::empty(),
    {
        let r = StringMap { entries: Vec::new() };
        proof {
            assert(r.pairs() =~= Seq::<(Seq<char>, V)>::empty());
            assert(r@ =~= Map::<Seq<char>, V>::empty());
        }
        r
    }

    /// How many entries there are.
    pub fn len(&self) -> (r: usize)
        ensures
            r == self.pairs().len(),
    {
        self.entries.len()
    }

    /// The key at a position.
    pub fn key_at(&self, i: usize) -> (r: &String)
        requires
            i < self.pairs().len(),
        ensures
            r@ == self.pairs()[i as int].0,
    {
        &self.entries[i].0
    }

    /// The value at a position.
    pub fn value_at(&self, i: usize) -> (r: &V)
        requires
            i < self.pairs().len(),
        ensures
            *r == self.pairs()[i as int].1,
    {
        &self.entries[i].1
    }

    /// The first position whose key does not sort before `key`.
    fn position(&self, key: &str) -> (p: usize)
        ensures
            p <= self.pairs().len(),
            forall|i: int|
                0 <= i < p ==> text_before((#[trigger] self.pairs()[i]).0, key@),
            forall|i: int|
                p <= i < self.pairs().len() ==> !text_before((#[trigger] self.pairs()[i]).0, key@),
    {
        proof {
            use_type_invariant(self);
        }
        let mut low: usize = 0;
        let mut high: usize = self.entries.len();
        while low < high
            invariant
                low <= high <= self.pairs().len(),
                self.pairs().len() == self.entries@.len(),
                keys_ascend(self.pairs()),
                forall|i: int|
                    0 <= i < low ==> text_before((#[trigger] self.pairs()[i]).0, key@),
                forall|i: int|
                    high <= i < self.pairs().len() ==> !text_before(
                        (#[trigger] self.pairs()[i]).0,
                        key@,
                    ),
            decreases high - low,
        {
            let middle: usize = low + (high - low) / 2;
            assert(self.pairs()[middle as int].0 == self.entries@[middle as int].0@);
            if sorts_before(self.entries[middle].0.as_str(), key) {
                proof {
                    assert forall|i: int| 0 <= i < middle + 1 implies text_before(
                        (#[trigger] self.pairs()[i]).0,
                        key@,
                    ) by {
                        if i < middle {
                            lemma_text_order_transitive(
                                self.pairs()[i].0,
                                self.pairs()[middle as int].0,
                                key@,
                            );
                        }
                    }
                }
                low = middle + 1;
            } else {
                proof {
                    assert forall|i: int| middle <= i < self.pairs().len() implies !text_before(
                        (#[trigger] self.pairs()[i]).0,
                        key@,
                    ) by {
                        if i > middle && text_before(self.pairs()[i].0, key@) {
                            lemma_text_order_transitive(
                                self.pairs()[middle as int].0,
                                self.pairs()[i].0,
                                key@,
                            );
                        }
                    }
                }
                high = middle;
            }
        }
        low
    }

    /// The position of `key`, if the map holds it.
    fn find(&self, key: &str) -> (r: Option<usize>)
        ensures
            match r {
                Some(p) => {
                    &&& p < self.pairs().len()
                    &&& self.pairs()[p as int].0 == key@
                    &&& self@.contains_key(key@)
                    &&& self@[key@] == self.pairs()[p as int].1
                },
                None => !self@.contains_key(key@),
            },
    {
        proof {
            use_type_invariant(self);
        }
        let p: usize = self.position(key);
        if p < self.entries.len() && !sorts_before(key, self.entries[p].0.as_str()) {
            proof {
                assert(self.pairs()[p as int].0 == self.entries@[p as int].0@);
                lemma_text_order_total(self.pairs()[p as int].0, key@);
                lemma_position_unique(self.pairs(), p as int);
            }
            Some(p)
        } else {
            proof {
                if has_key(self.pairs(), key@) {
                    let k = key_position(self.pairs(), key@);
                    lemma_text_order_total(key@, key@);
                    assert(self.pairs()[k].0 == key@);
                    assert(k >= p);
                    assert(self.pairs()[p as int].0 == self.entries@[p as int].0@);
                    if k > p {
                        assert(text_before(self.pairs()[p as int].0, self.pairs()[k].0));
                    }
                }
            }
            None
        }
    }

    /// The value under `key`.
    pub fn get(&self, key: &str) -> (r: Option<&V>)
        ensures
            match r {
                Some(v) => self@.contains_key(key@) && *v == self@[key@],
                None => !self@.contains_key(key@),
            },
    {
        match self.find(key) {
            Some(p) => Some(&self.entries[p].1),
            None => None,
        }
    }

    /// Whether there is a value under `key`.
    pub fn contains_key(&self, key: &str) -> (r: bool)
        ensures
            r == self@.contains_key(key@),
    {
        match self.find(key) {
            Some(_) => true,
            None => false,
        }
    }

    /// Puts `value` under `key`, in the place of what was there.
    pub fn insert(&mut self, key: String, value: V)
        ensures
            final(self)@ == old(self)@.insert(key@, value),
    {
        proof {
            use_type_invariant(&*self);
        }
        let ghost before = self.pairs();
        let found = self.find(key.as_str());
        let p: usize = self.position(key.as_str());
        let ghost text = key@;
        let mut entries: Vec<(String, V)> = Vec::new();
        std::mem::swap(&mut entries, &mut self.entries);
        let ghost held = entries@;
        assert(before =~= Seq::new(held.len(), |i: int| (held[i].0@, held[i].1)));
        match found {
            Some(q) => {
                proof {
                    lemma_position_unique(before, q as int);
                }
                entries[q] = (key, value);
                proof {
                    let after = Seq::new(
                        entries@.len(),
                        |i: int| (entries@[i].0@, entries@[i].1),
                    );
                    assert(after =~= before.update(q as int, (text, value)));
                    assert(keys_ascend(after));
                    lemma_updated(before, q as int, value);
                }
            },
            None => {
                entries.insert(p, (key, value));
                proof {
                    let after = Seq::new(
                        entries@.len(),
                        |i: int| (entries@[i].0@, entries@[i].1),
                    );
                    assert(after =~= before.insert(p as int, (text, value)));
                    lemma_inserted_new(before, p as int, text, value);
                }
            },
        }
        self.entries = entries;
        proof {
            assert(self.pairs() =~= Seq::new(
                entries@.len(),
                |i: int| (entries@[i].0@, entries@[i].1),
            ));
        }
    }

    /// Takes the entry at a position out.
    fn remove_at(&mut self, p: usize) -> (r: V)
        requires
            p < old(self).pairs().len(),
        ensures
            final(self).pairs() == old(self).pairs().remove(p as int),
            final(self)@ == old(self)@.remove(old(self).pairs()[p as int].0),
            r == old(self).pairs()[p as int].1,
    {
        proof {
            use_type_invariant(&*self);
        }
        let ghost before = self.pairs();
        let mut entries: Vec<(String, V)> = Vec::new();
        std::mem::swap(&mut entries, &mut self.entries);
        let ghost held = entries@;
        assert(before =~= Seq::new(held.len(), |i: int| (held[i].0@, held[i].1)));
        let taken = entries.remove(p);
        proof {
            let after = Seq::new(entries@.len(), |i: int| (entries@[i].0@, entries@[i].1));
            assert(after =~= before.remove(p as int));
            lemma_removed(before, p as int);
        }
        self.entries = entries;
        proof {
            assert(self.pairs() =~= before.remove(p as int));
        }
        taken.1
    }

    /// Takes the entry under `key` out.
    pub fn remove(&mut self, key: &str) -> (r: Option<V>)
        ensures
            final(self)@ == old(self)@.remove(key@),
            match r {
                Some(v) => old(self)@.contains_key(key@) && v == old(self)@[key@],
                None => !old(self)@.contains_key(key@),
            },
    {
        match self.find(key) {
            Some(p) => Some(self.remove_at(p)),
            None => {
                proof {
                    assert(self@.remove(key@) =~= self@);
                }
                None
            },
        }
    }

    /// Keeps the entries whose keys are in a set.
    pub fn retain(&mut self, keep: &StringSet)
        ensures
            final(self)@ == old(self)@.restrict(keep@),
    {
        let ghost before = self@;
        let mut i: usize = 0;
        while i < self.len()
            invariant
                i <= self.pairs().len(),
                forall|j: int| 0 <= j < i ==> keep@.contains((#[trigger] self.pairs()[j]).0),
                forall|k: Seq<char>| #[trigger]
                    self@.contains_key(k) ==> before.contains_key(k) && self@[k] == before[k],
                forall|k: Seq<char>| #[trigger]
                    before.contains_key(k) && keep@.contains(k) ==> self@.contains_key(k),
            decreases self.pairs().len() - i,
        {
            let kept = keep.contains(self.key_at(i).as_str());
            if kept {
                i += 1;
            } else {
                let ghost pairs = self.pairs();
                self.remove_at(i);
                proof {
                    assert forall|j: int| 0 <= j < i implies keep@.contains(
                        (#[trigger] self.pairs()[j]).0,
                    ) by {
                        assert(self.pairs()[j] == pairs[j]);
                    }
                }
            }
        }
        proof {
            let pairs = self.pairs();
            assert forall|k: Seq<char>| #[trigger] self@.contains_key(k) implies keep@.contains(k) by {
                let at = key_position(pairs, k);
                assert(pairs[at].0 == k);
            }
            assert(self@ =~= before.restrict(keep@));
        }
    }
}

/// A listed pair is an entry of the map.
pub proof fn lemma_pairs_show_map<V>(pairs: Seq<(Seq<char>, V)>, i: int)
    requires
        keys_ascend(pairs),
        0 <= i < pairs.len(),
    ensures
        map_of_pairs(pairs).contains_key(pairs[i].0),
        map_of_pairs(pairs)[pairs[i].0] == pairs[i].1,
{
    lemma_position_unique(pairs, i);
}

proof fn lemma_updated<V>(pairs: Seq<(Seq<char>, V)>, p: int, value: V)
    requires
        keys_ascend(pairs),
        0 <= p < pairs.len(),
        keys_ascend(pairs.update(p, (pairs[p].0, value))),
    ensures
        map_of_pairs(pairs.update(p, (pairs[p].0, value))) == map_of_pairs(pairs).insert(
            pairs[p].0,
            value,
        ),
{
    let after = pairs.update(p, (pairs[p].0, value));
    let key = pairs[p].0;
    lemma_position_unique(pairs, p);
    lemma_position_unique(after, p);
    assert forall|k: Seq<char>| has_key(after, k) <==> has_key(pairs, k) by {
        if has_key(after, k) {
            let i = key_position(after, k);
            assert(pairs[i].0 == k);
        }
        if has_key(pairs, k) {
            let i = key_position(pairs, k);
            assert(after[i].0 == k);
        }
    }
    assert forall|k: Seq<char>| has_key(pairs, k) && k != key implies after[key_position(
        after,
        k,
    )].1 == pairs[key_position(pairs, k)].1 by {
        let i = key_position(pairs, k);
        assert(after[i] == pairs[i]);
        lemma_position_unique(after, i);
    }
    assert(map_of_pairs(after) =~= map_of_pairs(pairs).insert(key, value));
}

proof fn lemma_inserted_new<V>(pairs: Seq<(Seq<char>, V)>, p: int, key: Seq<char>, value: V)
    requires
        keys_ascend(pairs),
        0 <= p <= pairs.len(),
        !has_key(pairs, key),
        forall|i: int| 0 <= i < p ==> text_before((#[trigger] pairs[i]).0, key),
        forall|i: int| p <= i < pairs.len() ==> !text_before((#[trigger] pairs[i]).0, key),
    ensures
        keys_ascend(pairs.insert(p, (key, value))),
        map_of_pairs(pairs.insert(p, (key, value))) == map_of_pairs(pairs).insert(key, value),
{
    let after = pairs.insert(p, (key, value));
    assert forall|i: int| p <= i < pairs.len() implies text_before(
        key,
        (#[trigger] pairs[i]).0,
    ) by {
        lemma_text_order_total(key, pairs[i].0);
    }
    assert forall|i: int, j: int| 0 <= i < j < after.len() implies text_before(
        (#[trigger] after[i]).0,
        (#[trigger] after[j]).0,
    ) by {
        let a = if i < p {
            i
        } else {
            i - 1
        };
        let b = if j < p {
            j
        } else {
            j - 1
        };
        if i == p {
            assert(after[j] == pairs[b]);
        } else if j == p {
            assert(after[i] == pairs[a]);
        } else {
            assert(after[i] == pairs[a]);
            assert(after[j] == pairs[b]);
        }
    }
    lemma_position_unique(after, p);
    assert forall|k: Seq<char>| has_key(after, k) <==> has_key(pairs, k) || k == key by {
        if has_key(after, k) && k != key {
            let i = key_position(after, k);
            let a = if i < p {
                i
            } else {
                i - 1
            };
            assert(pairs[a].0 == k);
        }
        if has_key(pairs, k) {
            let i = key_position(pairs, k);
            let a = if i < p {
                i
            } else {
                i + 1
            };
            assert(after[a].0 == k);
        }
    }
    assert forall|k: Seq<char>| has_key(pairs, k) && k != key implies after[key_position(
        after,
        k,
    )].1 == pairs[key_position(pairs, k)].1 by {
        let i = key_position(pairs, k);
        let a = if i < p {
            i
        } else {
            i + 1
        };
        assert(after[a] == pairs[i]);
        lemma_position_unique(after, a);
    }
    assert(map_of_pairs(after) =~= map_of_pairs(pairs).insert(key, value));
}

proof fn lemma_removed<V>(pairs: Seq<(Seq<char>, V)>, p: int)
    requires
        keys_ascend(pairs),
        0 <= p < pairs.len(),
    ensures
        keys_ascend(pairs.remove(p)),
        map_of_pairs(pairs.remove(p)) == map_of_pairs(pairs).remove(pairs[p].0),
{
    let after = pairs.remove(p);
    let key = pairs[p].0;
    assert forall|i: int, j: int| 0 <= i < j < after.len() implies text_before(
        (#[trigger] after[i]).0,
        (#[trigger] after[j]).0,
    ) by {
        let a = if i < p {
            i
        } else {
            i + 1
        };
        let b = if j < p {
            j
        } else {
            j + 1
        };
        assert(after[i] == pairs[a]);
        assert(after[j] == pairs[b]);
    }
    assert forall|k: Seq<char>| has_key(after, k) <==> has_key(pairs, k) && k != key by {
        if has_key(after, k) {
            let i = key_position(after, k);
            let a = if i < p {
                i
            } else {
                i + 1
            };
            assert(pairs[a].0 == k);
            lemma_position_unique(pairs, a);
            lemma_position_unique(pairs, p);
        }
        if has_key(pairs, k) && k != key {
            let i = key_position(pairs, k);
            let a = if i < p {
                i
            } else {
                i - 1
            };
            assert(after[a].0 == k);
        }
    }
    assert forall|k: Seq<char>| has_key(pairs, k) && k != key implies after[key_position(
        after,
        k,
    )].1 == pairs[key_position(pairs, k)].1 by {
        let i = key_position(pairs, k);
        let a = if i < p {
            i
        } else {
            i - 1
        };
        assert(after[a] == pairs[i]);
        lemma_position_unique(after, a);
    }
    assert(map_of_pairs(after) =~= map_of_pairs(pairs).remove(key));
}

/// A set of texts, in their order.
#[derive(Debug)]
pub struct StringSet {
    members: StringMap<()>,
}

/// The texts that a list holds, as a set.
pub open spec fn texts_of(list: Seq<String>) -> Set<Seq<char>> {
    Set::new(|text: Seq<char>| exists|i: int| 0 <= i < list.len() && (#[trigger] list[i])@ == text)
}

/// The texts of a list, in its order.
pub open spec fn text_seq(list: Seq<String>) -> Seq<Seq<char>> {
    Seq::new(list.len(), |i: int| list[i]@)
}

/// Whether the texts of a list ascend strictly.
pub open spec fn texts_ascend(list: Seq<Seq<char>>) -> bool {
    forall|i: int, j: int|
        0 <= i < j < list.len() ==> text_before(#[trigger] list[i], #[trigger] list[j])
}

impl View for StringSet {
    type V = Set<Seq<char>>;

    closed spec fn view(&self) -> Set<Seq<char>> {
        self.members@.dom()
    }
}

impl StringSet {
    /// The members, in order.
    pub closed spec fn listed(self) -> Seq<Seq<char>> {
        Seq::new(self.members.pairs().len(), |i: int| self.members.pairs()[i].0)
    }

    /// A set without members.
    pub fn new() -> (r: Self)
        ensures
            r@ == Set::<Seq<char>>::empty(),
            r.listed() == Seq::<Seq<char>>::empty(),
    {
        let r = StringSet { members: StringMap::new() };
        proof {
            assert(r@ =~= Set::<Seq<char>>::empty());
            assert(r.listed() =~= Seq::<Seq<char>>::empty());
        }
        r
    }

    /// The set of the texts in a list.
    pub fn of(list: &Vec<String>) -> (r: Self)
        ensures
            r@ == texts_of(list@),
    {
        let mut r = StringSet::new();
        let mut i: usize = 0;
        proof {
            assert(r@ =~= texts_of(list@.take(0)));
        }
        while i < list.len()
            invariant
                i <= list@.len(),
                r@ == texts_of(list@.take(i as int)),
            decreases list@.len() - i,
        {
            let ghost before = list@.take(i as int);
            let ghost after = list@.take(i + 1);
            r.insert(list[i].clone());
            proof {
                assert(after =~= before.push(list@[i as int]));
                assert forall|text: Seq<char>| texts_of(after).contains(text) <==> texts_of(
                    before,
                ).insert(list@[i as int]@).contains(text) by {
                    if texts_of(before).contains(text) {
                        let k = choose|k: int| 0 <= k < before.len() && (#[trigger] before[k])@ == text;
                        assert(after[k]@ == text);
                    }
                    if text == list@[i as int]@ {
                        assert(after[i as int]@ == text);
                    }
                    if texts_of(after).contains(text) {
                        let k = choose|k: int| 0 <= k < after.len() && (#[trigger] after[k])@ == text;
                        if k < i {
                            assert(before[k]@ == text);
                        }
                    }
                }
                assert(texts_of(after) =~= texts_of(before).insert(list@[i as int]@));
            }
            i += 1;
        }
        proof {
            assert(list@.take(list@.len() as int) =~= list@);
        }
        r
    }

    /// How many members there are.
    pub fn len(&self) -> (r: usize)
        ensures
            r == self.listed().len(),
            r == self@.len(),
            texts_ascend(self.listed()),
            forall|text: Seq<char>| self@.contains(text) <==> #[trigger] self.listed().contains(text),
    {
        proof {
            use_type_invariant(&self.members);
            self.lemma_listed();
            let list = self.listed();
            assert forall|i: int, j: int| 0 <= i < list.len() && 0 <= j < list.len() && i != j implies
                list[i] != list[j] by {
                lemma_text_order_total(list[i], list[i]);
                if i < j {
                    assert(text_before(list[i], list[j]));
                } else {
                    assert(text_before(list[j], list[i]));
                }
            }
            assert(list.no_duplicates());
            list.unique_seq_to_set();
            assert(list.to_set() =~= self@);
        }
        self.members.len()
    }

    /// The member at a position.
    pub fn item_at(&self, i: usize) -> (r: &String)
        requires
            i < self.listed().len(),
        ensures
            r@ == self.listed()[i as int],
    {
        self.members.key_at(i)
    }

    /// Whether `text` is a member.
    pub fn contains(&self, text: &str) -> (r: bool)
        ensures
            r == self@.contains(text@),
    {
        self.members.contains_key(text)
    }

    /// Adds `text`, and tells whether it was new.
    pub fn insert(&mut self, text: String) -> (r: bool)
        ensures
            final(self)@ == old(self)@.insert(text@),
            r == !old(self)@.contains(text@),
    {
        let fresh = !self.members.contains_key(text.as_str());
        let ghost before = self@;
        let ghost added = text@;
        self.members.insert(text, ());
        proof {
            assert(self@ =~= before.insert(added));
        }
        fresh
    }

    /// Takes `text` out.
    pub fn remove(&mut self, text: &str)
        ensures
            final(self)@ == old(self)@.remove(text@),
    {
        let ghost before = self@;
        self.members.remove(text);
        proof {
            assert(self@ =~= before.remove(text@));
        }
    }

    /// The members, in order.
    pub fn to_vec(&self) -> (r: Vec<String>)
        ensures
            text_seq(r@) == self.listed(),
            texts_of(r@) == self@,
            texts_ascend(text_seq(r@)),
    {
        let count: usize = self.len();
        let mut r: Vec<String> = Vec::new();
        let mut i: usize = 0;
        while i < count
            invariant
                i <= count,
                count == self.listed().len(),
                text_seq(r@) == self.listed().take(i as int),
            decreases count - i,
        {
            let ghost before = r@;
            r.push(self.item_at(i).clone());
            assert(text_seq(r@) =~= text_seq(before).push(self.listed()[i as int]));
            assert(self.listed().take(i + 1) =~= self.listed().take(i as int).push(
                self.listed()[i as int],
            ));
            i += 1;
        }
        proof {
            let list = self.listed();
            assert(list.take(i as int) =~= list);
            assert forall|text: Seq<char>| texts_of(r@).contains(text) <==> self@.contains(text) by {
                if texts_of(r@).contains(text) {
                    let k = choose|k: int| 0 <= k < r@.len() && (#[trigger] r@[k])@ == text;
                    assert(text_seq(r@)[k] == text);
                    assert(list.contains(text));
                }
                if self@.contains(text) {
                    assert(list.contains(text));
                    let k = choose|k: int| 0 <= k < list.len() && list[k] == text;
                    assert(text_seq(r@)[k] == text);
                    assert(r@[k]@ == text);
                }
            }
            assert(texts_of(r@) =~= self@);
        }
        r
    }

    /// The list names exactly the members, each once and in order.
    proof fn lemma_listed(self)
        requires
            self.members.is_ordered(),
        ensures
            texts_ascend(self.listed()),
            forall|text: Seq<char>| self@.contains(text) <==> #[trigger] self.listed().contains(text),
    {
        let pairs = self.members.pairs();
        assert forall|text: Seq<char>| self@.contains(text) <==> #[trigger] self.listed().contains(
            text,
        ) by {
            if self@.contains(text) {
                let i = key_position(pairs, text);
                assert(self.listed()[i] == text);
            }
            if self.listed().contains(text) {
                let i = choose|i: int| 0 <= i < self.listed().len() && self.listed()[i] == text;
                assert(pairs[i].0 == text);
            }
        }
        assert forall|i: int, j: int| 0 <= i < j < self.listed().len() implies text_before(
            #[trigger] self.listed()[i],
            #[trigger] self.listed()[j],
        ) by {
            assert(text_before(pairs[i].0, pairs[j].0));
        }
    }

    /// The members of `self` that are not in `other`, in order.
    pub fn difference(&self, other: &StringSet) -> (r: Vec<String>)
        ensures
            texts_of(r@) == self@.difference(other@),
            texts_ascend(text_seq(r@)),
    {
        let count: usize = self.len();
        let mut r: Vec<String> = Vec::new();
        let mut i: usize = 0;
        while i < count
            invariant
                i <= count,
                count == self.listed().len(),
                texts_ascend(self.listed()),
                texts_ascend(text_seq(r@)),
                forall|k: int|
                    0 <= k < r@.len() ==> !other@.contains((#[trigger] r@[k])@) && exists|j: int|
                        0 <= j < i && #[trigger] self.listed()[j] == r@[k]@,
                forall|j: int|
                    0 <= j < i && !other@.contains(#[trigger] self.listed()[j]) ==> exists|k: int|
                        0 <= k < r@.len() && (#[trigger] r@[k])@ == self.listed()[j],
            decreases self.listed().len() - i,
        {
            let item = self.item_at(i);
            let ghost before = r@;
            if !other.contains(item.as_str()) {
                r.push(item.clone());
                proof {
                    assert(text_seq(r@) =~= text_seq(before).push(item@));
                    assert forall|a: int, b: int| 0 <= a < b < r@.len() implies text_before(
                        #[trigger] text_seq(r@)[a],
                        #[trigger] text_seq(r@)[b],
                    ) by {
                        if b == before.len() {
                            let j = choose|j: int|
                                0 <= j < i && #[trigger] self.listed()[j] == before[a]@;
                            assert(text_before(self.listed()[j], self.listed()[i as int]));
                        } else {
                            assert(text_before(text_seq(before)[a], text_seq(before)[b]));
                        }
                    }
                    assert forall|j: int|
                        0 <= j < i + 1 && !other@.contains(
                            #[trigger] self.listed()[j],
                        ) implies exists|k: int|
                        0 <= k < r@.len() && (#[trigger] r@[k])@ == self.listed()[j] by {
                        if j < i {
                            let k = choose|k: int|
                                0 <= k < before.len() && (#[trigger] before[k])@ == self.listed()[j];
                            assert(r@[k]@ == self.listed()[j]);
                        } else {
                            assert(r@[before.len() as int]@ == self.listed()[j]);
                        }
                    }
                }
            }
            i += 1;
        }
        proof {
            let got = texts_of(r@);
            assert forall|text: Seq<char>| got.contains(text) <==> self@.difference(
                other@,
            ).contains(text) by {
                if got.contains(text) {
                    let k = choose|k: int| 0 <= k < r@.len() && (#[trigger] r@[k])@ == text;
                    let j = choose|j: int|
                        0 <= j < self.listed().len() && #[trigger] self.listed()[j] == r@[k]@;
                    assert(self.listed().contains(text));
                }
                if self@.difference(other@).contains(text) {
                    assert(self.listed().contains(text));
                    let j = choose|j: int| 0 <= j < self.listed().len() && self.listed()[j] == text;
                    assert(self.listed()[j] == text);
                }
            }
            assert(got =~= self@.difference(other@));
        }
        r
    }
}

} // verus!
