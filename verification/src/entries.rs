//! Mappings from text keys, held in the order of their keys.

use crate::order::{
    increasing, lemma_text_lt_asymmetric, lemma_text_lt_transitive, Rank, rank, text_lt,
};
use vstd::prelude::*;

verus! {

/// The mapping that a sequence of pairs stands for: each key with the value
/// of its last occurrence.
pub open spec fn map_of<T>(pairs: Seq<(Seq<char>, T)>) -> Map<Seq<char>, T>
    decreases pairs.len(),
{
    if pairs.len() == 0 {
        Map::empty()
    } else {
        map_of(pairs.drop_last()).insert(pairs.last().0, pairs.last().1)
    }
}

/// The keys of a sequence of pairs, in order.
pub open spec fn keys_of<T>(pairs: Seq<(Seq<char>, T)>) -> Seq<Seq<char>> {
    pairs.map_values(|e: (Seq<char>, T)| e.0)
}

/// The entries of a mapping in the order of their keys.
pub open spec fn ordered_pairs<T>(entries: Map<Seq<char>, T>) -> Seq<(Seq<char>, T)> {
    choose|pairs: Seq<(Seq<char>, T)>|
        increasing(keys_of(pairs)) && map_of(pairs) == entries
}

/// The views of a sequence of pairs of a string and a value.
pub open spec fn pair_views<V: View>(items: Seq<(String, V)>) -> Seq<(Seq<char>, V::V)> {
    items.map_values(|e: (String, V)| (e.0@, e.1@))
}

/// The views of a sequence of pairs of strings.
pub open spec fn pair_texts(items: Seq<(String, String)>) -> Seq<(Seq<char>, Seq<char>)> {
    pair_views(items)
}

/// A key is in the mapping of `pairs` exactly when it is one of their keys.
pub proof fn lemma_map_of_dom<T>(pairs: Seq<(Seq<char>, T)>, key: Seq<char>)
    ensures
        map_of(pairs).contains_key(key) <==> exists|i: int|
            0 <= i < pairs.len() && #[trigger] pairs[i].0 == key,
    decreases pairs.len(),
{
    if pairs.len() > 0 {
        let init = pairs.drop_last();
        lemma_map_of_dom(init, key);
        if map_of(pairs).contains_key(key) {
            if pairs.last().0 == key {
                assert(pairs[pairs.len() - 1].0 == key);
            } else {
                let i = choose|i: int| 0 <= i < init.len() && #[trigger] init[i].0 == key;
                assert(pairs[i].0 == key);
            }
        }
        if exists|i: int| 0 <= i < pairs.len() && #[trigger] pairs[i].0 == key {
            let i = choose|i: int| 0 <= i < pairs.len() && #[trigger] pairs[i].0 == key;
            if i < init.len() {
                assert(init[i].0 == key);
            }
        }
    }
}

/// Where the keys of `pairs` increase, the mapping of `pairs` gives each key
/// the value that stands beside it.
pub proof fn lemma_map_of_value<T>(pairs: Seq<(Seq<char>, T)>, i: int)
    requires
        increasing(keys_of(pairs)),
        0 <= i < pairs.len(),
    ensures
        map_of(pairs).contains_key(pairs[i].0),
        map_of(pairs)[pairs[i].0] == pairs[i].1,
    decreases pairs.len(),
{
    let init = pairs.drop_last();
    let last = pairs.len() - 1;
    if i < last {
        assert forall|a: int, b: int| 0 <= a < b < init.len() implies text_lt(
            keys_of(init)[a],
            keys_of(init)[b],
        ) by {
            assert(keys_of(pairs)[a] == keys_of(init)[a]);
            assert(keys_of(pairs)[b] == keys_of(init)[b]);
        }
        lemma_map_of_value(init, i);
        assert(text_lt(keys_of(pairs)[i], keys_of(pairs)[last]));
        lemma_text_lt_asymmetric(pairs[i].0, pairs[last].0);
    }
}

/// A mapping from text keys to values. Its entries are held in the order of
/// their keys, each key once.
#[derive(Debug)]
pub struct TextMap<V: View> {
    items: Vec<(String, V)>,
}

/// A mapping from text keys to text values.
pub type Entries = TextMap<String>;

impl<V: View> View for TextMap<V> {
    type V = Map<Seq<char>, V::V>;

    open spec fn view(&self) -> Map<Seq<char>, V::V> {
        map_of(self.pairs())
    }
}

impl<V: View> TextMap<V> {
    /// The entries, in the order of their keys.
    pub closed spec fn pairs(&self) -> Seq<(Seq<char>, V::V)> {
        pair_views(self.items@)
    }

    /// The keys, in order.
    pub open spec fn keys(&self) -> Seq<Seq<char>> {
        keys_of(self.pairs())
    }

    /// Each key comes before the next: so no key occurs twice.
    pub open spec fn wf(&self) -> bool {
        increasing(self.keys())
    }

    #[verifier::type_invariant]
    spec fn inv(self) -> bool {
        self.wf()
    }

    /// The entries are those of the mapping, in the order of their keys.
    pub proof fn lemma_pairs_ordered(self)
        requires
            self.wf(),
        ensures
            self.pairs() == ordered_pairs(self@),
    {
        let wanted = ordered_pairs(self@);
        assert(increasing(keys_of(self.pairs())) && map_of(self.pairs()) == self@);
        lemma_pairs_unique(self.pairs(), wanted);
    }

    /// The mapping without entries.
    pub fn new() -> (out: Self)
        ensures
            out.pairs() == Seq::<(Seq<char>, V::V)>::empty(),
            out@ == Map::<Seq<char>, V::V>::empty(),
            out.wf(),
    {
        let out = TextMap { items: Vec::new() };
        assert(out.pairs() =~= Seq::<(Seq<char>, V::V)>::empty());
        out
    }

    /// The number of entries.
    pub fn len(&self) -> (n: usize)
        ensures
            n == self.pairs().len(),
            self.wf(),
    {
        proof {
            use_type_invariant(self);
        }
        self.items.len()
    }

    /// Whether there is no entry.
    pub fn is_empty(&self) -> (r: bool)
        ensures
            r == (self.pairs().len() == 0),
            r == (self@ == Map::<Seq<char>, V::V>::empty()),
            self.wf(),
    {
        proof {
            use_type_invariant(self);
            if self.pairs().len() > 0 {
                lemma_map_of_value(self.pairs(), 0);
            }
        }
        self.items.len() == 0
    }

    /// The key of the entry at index `i`.
    pub fn key_at(&self, i: usize) -> (key: &String)
        requires
            i < self.pairs().len(),
        ensures
            key@ == self.pairs()[i as int].0,
    {
        &self.items[i].0
    }

    /// The value of the entry at index `i`.
    pub fn value_at(&self, i: usize) -> (value: &V)
        requires
            i < self.pairs().len(),
        ensures
            value@ == self.pairs()[i as int].1,
    {
        &self.items[i].1
    }

    /// The index at which `key` stands, or would stand.
    fn position(&self, key: &str) -> (r: (usize, bool))
        ensures
            self.wf(),
            r.0 <= self.pairs().len(),
            forall|k: int| 0 <= k < r.0 ==> text_lt(#[trigger] self.pairs()[k].0, key@),
            r.1 ==> r.0 < self.pairs().len() && self.pairs()[r.0 as int].0 == key@,
            !r.1 ==> forall|k: int|
                r.0 <= k < self.pairs().len() ==> text_lt(key@, #[trigger] self.pairs()[k].0),
    {
        proof {
            use_type_invariant(self);
        }
        let mut i: usize = 0;
        while i < self.items.len()
            invariant
                self.wf(),
                i <= self.pairs().len(),
                self.pairs().len() == self.items@.len(),
                forall|k: int| 0 <= k < i ==> text_lt(#[trigger] self.pairs()[k].0, key@),
            decreases self.items.len() - i,
        {
            let r = rank(self.items[i].0.as_str(), key);
            assert(self.pairs()[i as int].0 == self.items@[i as int].0@);
            match r {
                Rank::Before => {
                    i += 1;
                },
                Rank::Same => {
                    return (i, true);
                },
                Rank::After => {
                    proof {
                        assert forall|k: int| i <= k < self.pairs().len() implies text_lt(
                            key@,
                            #[trigger] self.pairs()[k].0,
                        ) by {
                            if k > i {
                                assert(text_lt(self.keys()[i as int], self.keys()[k]));
                                lemma_text_lt_transitive(
                                    key@,
                                    self.pairs()[i as int].0,
                                    self.pairs()[k].0,
                                );
                            }
                        }
                    }
                    return (i, false);
                },
            }
        }
        (i, false)
    }

    /// No entry of a mapping has the key `key` where every key before the
    /// index `i` comes before it and every key from `i` on comes after it.
    proof fn lemma_absent(self, key: Seq<char>, i: int)
        requires
            0 <= i <= self.pairs().len(),
            forall|k: int| 0 <= k < i ==> text_lt(#[trigger] self.pairs()[k].0, key),
            forall|k: int| i <= k < self.pairs().len() ==> text_lt(key, #[trigger] self.pairs()[k].0),
        ensures
            !self@.contains_key(key),
    {
        lemma_map_of_dom(self.pairs(), key);
        assert forall|k: int| 0 <= k < self.pairs().len() implies self.pairs()[k].0 != key by {
            if k < i {
                lemma_text_lt_asymmetric(self.pairs()[k].0, key);
            } else {
                lemma_text_lt_asymmetric(key, self.pairs()[k].0);
            }
        }
    }

    /// The value of `key`, if the mapping has one.
    pub fn get(&self, key: &str) -> (r: Option<&V>)
        ensures
            self.wf(),
            match r {
                Some(value) => self@.contains_key(key@) && self@[key@] == value@,
                None => !self@.contains_key(key@),
            },
    {
        let (i, found) = self.position(key);
        if found {
            proof {
                lemma_map_of_value(self.pairs(), i as int);
            }
            Some(&self.items[i].1)
        } else {
            proof {
                self.lemma_absent(key@, i as int);
            }
            None
        }
    }

    /// Whether the mapping has a value for `key`.
    pub fn contains_key(&self, key: &str) -> (r: bool)
        ensures
            r == self@.contains_key(key@),
    {
        self.get(key).is_some()
    }

    /// Gives `key` the value `value`, whether or not it had one.
    pub fn insert(&mut self, key: String, value: V)
        ensures
            final(self)@ == old(self)@.insert(key@, value@),
            final(self).wf(),
    {
        let (i, found) = self.position(key.as_str());
        let ghost before = self.pairs();
        let ghost entry = (key@, value@);
        let mut taken = TextMap::new();
        core::mem::swap(self, &mut taken);
        let mut items = taken.items;
        if found {
            items.set(i, (key, value));
            proof {
                assert(pair_views(items@) =~= before.update(i as int, entry));
                lemma_update_keeps_order(before, i as int, entry);
                lemma_map_of_update(before, i as int, entry);
            }
        } else {
            items.insert(i, (key, value));
            proof {
                assert(pair_views(items@) =~= before.insert(i as int, entry));
                lemma_insert_keeps_order(before, i as int, entry);
                lemma_map_of_insert(before, i as int, entry);
            }
        }
        *self = TextMap { items };
    }

    /// Takes the entry of `key` out of the mapping and hands its value back,
    /// if the mapping has one.
    pub fn remove(&mut self, key: &str) -> (r: Option<V>)
        ensures
            final(self)@ == old(self)@.remove(key@),
            final(self).wf(),
            match r {
                Some(value) => old(self)@.contains_key(key@) && old(self)@[key@] == value@,
                None => !old(self)@.contains_key(key@),
            },
    {
        let (i, found) = self.position(key);
        let ghost before = self.pairs();
        if found {
            let mut taken = TextMap::new();
            core::mem::swap(self, &mut taken);
            let mut items = taken.items;
            let (_, value) = items.remove(i);
            proof {
                assert(pair_views(items@) =~= before.remove(i as int));
                lemma_map_of_value(before, i as int);
                lemma_map_of_remove(before, i as int);
            }
            *self = TextMap { items };
            Some(value)
        } else {
            proof {
                self.lemma_absent(key@, i as int);
                assert(self@.remove(key@) =~= self@);
            }
            None
        }
    }
}

impl TextMap<String> {
    /// The entries as pairs, in the order of their keys.
    pub fn to_vec(&self) -> (out: Vec<(String, String)>)
        ensures
            pair_texts(out@) == self.pairs(),
            self.wf(),
    {
        proof {
            use_type_invariant(self);
        }
        let mut out: Vec<(String, String)> = Vec::new();
        let mut i: usize = 0;
        while i < self.items.len()
            invariant
                i <= self.items@.len(),
                out@.len() == i,
                pair_texts(out@) == pair_texts(self.items@).take(i as int),
            decreases self.items.len() - i,
        {
            let key = self.items[i].0.clone();
            let value = self.items[i].1.clone();
            out.push((key, value));
            assert(pair_texts(out@) =~= pair_texts(self.items@).take(i + 1));
            i += 1;
        }
        assert(pair_texts(self.items@).take(i as int) =~= pair_texts(self.items@));
        out
    }

    /// The mapping of `pairs`, a later pair replacing an earlier one with the
    /// same key.
    pub fn from_pairs(pairs: Vec<(String, String)>) -> (out: Self)
        ensures
            out@ == map_of(pair_texts(pairs@)),
            out.wf(),
    {
        let mut out = TextMap::new();
        let mut i: usize = 0;
        while i < pairs.len()
            invariant
                i <= pairs@.len(),
                out@ == map_of(pair_texts(pairs@).take(i as int)),
                out.wf(),
            decreases pairs.len() - i,
        {
            let key = pairs[i].0.clone();
            let value = pairs[i].1.clone();
            out.insert(key, value);
            proof {
                let all = pair_texts(pairs@);
                assert(all.take(i + 1).drop_last() =~= all.take(i as int));
                assert(all.take(i + 1).last() == all[i as int]);
            }
            i += 1;
        }
        assert(pair_texts(pairs@).take(i as int) =~= pair_texts(pairs@));
        out
    }
}

impl Clone for TextMap<String> {
    fn clone(&self) -> (out: Self)
        ensures
            out.pairs() == self.pairs(),
            out@ == self@,
    {
        proof {
            use_type_invariant(self);
        }
        let mut items: Vec<(String, String)> = Vec::new();
        let mut i: usize = 0;
        while i < self.items.len()
            invariant
                i <= self.items@.len(),
                items@.len() == i,
                pair_texts(items@) == pair_texts(self.items@).take(i as int),
            decreases self.items.len() - i,
        {
            let key = self.items[i].0.clone();
            let value = self.items[i].1.clone();
            items.push((key, value));
            assert(pair_texts(items@) =~= pair_texts(self.items@).take(i + 1));
            i += 1;
        }
        assert(pair_texts(self.items@).take(i as int) =~= pair_texts(self.items@));
        TextMap { items }
    }
}

/// Two sequences of pairs with increasing keys that stand for the same
/// mapping are the same sequence.
pub proof fn lemma_pairs_unique<T>(
    a: Seq<(Seq<char>, T)>,
    b: Seq<(Seq<char>, T)>,
)
    requires
        increasing(keys_of(a)),
        increasing(keys_of(b)),
        map_of(a) == map_of(b),
    ensures
        a == b,
    decreases a.len(),
{
    if a.len() == 0 {
        if b.len() > 0 {
            lemma_map_of_value(b, 0);
        }
        assert(a =~= b);
    } else if b.len() == 0 {
        lemma_map_of_value(a, 0);
    } else {
        let la = a.len() - 1;
        let lb = b.len() - 1;
        lemma_map_of_value(a, la);
        lemma_map_of_value(b, lb);
        lemma_map_of_dom(b, a[la].0);
        lemma_map_of_dom(a, b[lb].0);
        let i = choose|i: int| 0 <= i < b.len() && #[trigger] b[i].0 == a[la].0;
        let j = choose|j: int| 0 <= j < a.len() && #[trigger] a[j].0 == b[lb].0;
        if i < lb {
            assert(text_lt(keys_of(b)[i], keys_of(b)[lb]));
            if j < la {
                assert(text_lt(keys_of(a)[j], keys_of(a)[la]));
                lemma_text_lt_transitive(a[la].0, b[lb].0, a[la].0);
                lemma_text_lt_asymmetric(a[la].0, a[la].0);
            }
            lemma_text_lt_asymmetric(b[i].0, b[lb].0);
        }
        assert(a[la].0 == b[lb].0);
        assert(a[la].1 == b[lb].1);
        let ia = a.drop_last();
        let ib = b.drop_last();
        lemma_init_keeps_order(a);
        lemma_init_keeps_order(b);
        assert(map_of(ia) =~= map_of(ib)) by {
            assert forall|k: Seq<char>| #[trigger]
                map_of(ia).dom().contains(k) == map_of(ib).dom().contains(k) && (map_of(
                    ia,
                ).dom().contains(k) ==> map_of(ia)[k] == map_of(ib)[k]) by {
                lemma_init_map(a, k);
                lemma_init_map(b, k);
            }
        }
        lemma_pairs_unique(ia, ib);
        assert(a =~= ia.push(a[la]));
        assert(b =~= ib.push(b[lb]));
    }
}

/// Without their last pair, pairs with increasing keys still have increasing
/// keys.
proof fn lemma_init_keeps_order<T>(pairs: Seq<(Seq<char>, T)>)
    requires
        increasing(keys_of(pairs)),
        pairs.len() > 0,
    ensures
        increasing(keys_of(pairs.drop_last())),
{
    let init = pairs.drop_last();
    assert forall|a: int, b: int| 0 <= a < b < init.len() implies text_lt(
        keys_of(init)[a],
        keys_of(init)[b],
    ) by {
        assert(keys_of(pairs)[a] == keys_of(init)[a]);
        assert(keys_of(pairs)[b] == keys_of(init)[b]);
    }
}

/// Without the last pair of pairs with increasing keys, the mapping loses
/// the last key and nothing else.
proof fn lemma_init_map<T>(pairs: Seq<(Seq<char>, T)>, key: Seq<char>)
    requires
        increasing(keys_of(pairs)),
        pairs.len() > 0,
    ensures
        map_of(pairs.drop_last()).contains_key(key) <==> map_of(pairs).contains_key(key) && key
            != pairs.last().0,
        map_of(pairs.drop_last()).contains_key(key) ==> map_of(pairs.drop_last())[key] == map_of(
            pairs,
        )[key],
{
    let init = pairs.drop_last();
    let last = pairs.len() - 1;
    lemma_map_of_dom(init, key);
    if map_of(init).contains_key(key) {
        let i = choose|i: int| 0 <= i < init.len() && #[trigger] init[i].0 == key;
        assert(text_lt(keys_of(pairs)[i], keys_of(pairs)[last]));
        lemma_text_lt_asymmetric(pairs[i].0, pairs[last].0);
    }
}

/// Replacing the value of a pair keeps the keys in order.
proof fn lemma_update_keeps_order<T>(
    pairs: Seq<(Seq<char>, T)>,
    i: int,
    entry: (Seq<char>, T),
)
    requires
        increasing(keys_of(pairs)),
        0 <= i < pairs.len(),
        pairs[i].0 == entry.0,
    ensures
        increasing(keys_of(pairs.update(i, entry))),
{
    let after = pairs.update(i, entry);
    assert forall|a: int, b: int| 0 <= a < b < after.len() implies text_lt(
        keys_of(after)[a],
        keys_of(after)[b],
    ) by {
        assert(keys_of(pairs)[a] == keys_of(after)[a]);
        assert(keys_of(pairs)[b] == keys_of(after)[b]);
    }
}

/// A pair put in at the place of its key keeps the keys in order.
proof fn lemma_insert_keeps_order<T>(
    pairs: Seq<(Seq<char>, T)>,
    i: int,
    entry: (Seq<char>, T),
)
    requires
        increasing(keys_of(pairs)),
        0 <= i <= pairs.len(),
        forall|k: int| 0 <= k < i ==> text_lt(#[trigger] pairs[k].0, entry.0),
        forall|k: int| i <= k < pairs.len() ==> text_lt(entry.0, #[trigger] pairs[k].0),
    ensures
        increasing(keys_of(pairs.insert(i, entry))),
{
    let after = pairs.insert(i, entry);
    assert forall|a: int, b: int| 0 <= a < b < after.len() implies text_lt(
        keys_of(after)[a],
        keys_of(after)[b],
    ) by {
        let ka = if a < i {
            a
        } else {
            a - 1
        };
        let kb = if b < i {
            b
        } else {
            b - 1
        };
        if a != i && b != i {
            assert(keys_of(pairs)[ka] == keys_of(after)[a]);
            assert(keys_of(pairs)[kb] == keys_of(after)[b]);
        } else if a == i {
            assert(pairs[kb].0 == keys_of(after)[b]);
        } else {
            assert(pairs[ka].0 == keys_of(after)[a]);
        }
    }
}

/// Replacing the value beside a key gives that key the new value and leaves
/// the other keys as they were.
proof fn lemma_map_of_update<T>(
    pairs: Seq<(Seq<char>, T)>,
    i: int,
    entry: (Seq<char>, T),
)
    requires
        increasing(keys_of(pairs)),
        0 <= i < pairs.len(),
        pairs[i].0 == entry.0,
    ensures
        map_of(pairs.update(i, entry)) == map_of(pairs).insert(entry.0, entry.1),
{
    let after = pairs.update(i, entry);
    lemma_update_keeps_order(pairs, i, entry);
    let wanted = map_of(pairs).insert(entry.0, entry.1);
    assert forall|k: Seq<char>| #[trigger]
        map_of(after).dom().contains(k) == wanted.dom().contains(k) && (map_of(
            after,
        ).dom().contains(k) ==> map_of(after)[k] == wanted[k]) by {
        lemma_map_of_dom(after, k);
        lemma_map_of_dom(pairs, k);
        if map_of(after).contains_key(k) {
            let j = choose|j: int| 0 <= j < after.len() && #[trigger] after[j].0 == k;
            assert(pairs[j].0 == k);
            lemma_map_of_value(after, j);
            lemma_map_of_value(pairs, j);
        }
        if map_of(pairs).contains_key(k) {
            let j = choose|j: int| 0 <= j < pairs.len() && #[trigger] pairs[j].0 == k;
            assert(after[j].0 == k);
        }
        if k == entry.0 {
            assert(after[i].0 == k);
            lemma_map_of_value(after, i);
        }
    }
    assert(map_of(after) =~= wanted);
}

/// A pair put in at the place of its key gives that key its value and leaves
/// the other keys as they were.
proof fn lemma_map_of_insert<T>(
    pairs: Seq<(Seq<char>, T)>,
    i: int,
    entry: (Seq<char>, T),
)
    requires
        increasing(keys_of(pairs)),
        0 <= i <= pairs.len(),
        forall|k: int| 0 <= k < i ==> text_lt(#[trigger] pairs[k].0, entry.0),
        forall|k: int| i <= k < pairs.len() ==> text_lt(entry.0, #[trigger] pairs[k].0),
    ensures
        map_of(pairs.insert(i, entry)) == map_of(pairs).insert(entry.0, entry.1),
{
    let after = pairs.insert(i, entry);
    lemma_insert_keeps_order(pairs, i, entry);
    let wanted = map_of(pairs).insert(entry.0, entry.1);
    assert forall|k: Seq<char>| #[trigger]
        map_of(after).dom().contains(k) == wanted.dom().contains(k) && (map_of(
            after,
        ).dom().contains(k) ==> map_of(after)[k] == wanted[k]) by {
        lemma_map_of_dom(after, k);
        lemma_map_of_dom(pairs, k);
        if map_of(after).contains_key(k) {
            let j = choose|j: int| 0 <= j < after.len() && #[trigger] after[j].0 == k;
            lemma_map_of_value(after, j);
            if j < i {
                assert(pairs[j].0 == k);
                lemma_map_of_value(pairs, j);
                lemma_text_lt_asymmetric(pairs[j].0, entry.0);
            } else if j > i {
                assert(pairs[j - 1].0 == k);
                lemma_map_of_value(pairs, j - 1);
                lemma_text_lt_asymmetric(entry.0, pairs[j - 1].0);
            }
        }
        if map_of(pairs).contains_key(k) {
            let j = choose|j: int| 0 <= j < pairs.len() && #[trigger] pairs[j].0 == k;
            if j < i {
                assert(after[j].0 == k);
            } else {
                assert(after[j + 1].0 == k);
            }
        }
        if k == entry.0 {
            assert(after[i].0 == k);
            lemma_map_of_value(after, i);
        }
    }
    assert(map_of(after) =~= wanted);
}

/// Without one of its pairs, pairs with increasing keys still have
/// increasing keys.
proof fn lemma_remove_keeps_order<T>(pairs: Seq<(Seq<char>, T)>, i: int)
    requires
        increasing(keys_of(pairs)),
        0 <= i < pairs.len(),
    ensures
        increasing(keys_of(pairs.remove(i))),
{
    let after = pairs.remove(i);
    assert forall|a: int, b: int| 0 <= a < b < after.len() implies text_lt(
        keys_of(after)[a],
        keys_of(after)[b],
    ) by {
        let ka = if a < i {
            a
        } else {
            a + 1
        };
        let kb = if b < i {
            b
        } else {
            b + 1
        };
        assert(keys_of(pairs)[ka] == keys_of(after)[a]);
        assert(keys_of(pairs)[kb] == keys_of(after)[b]);
    }
}

/// Without one of its pairs, the mapping of pairs with increasing keys
/// loses the key of that pair and nothing else.
proof fn lemma_map_of_remove<T>(pairs: Seq<(Seq<char>, T)>, i: int)
    requires
        increasing(keys_of(pairs)),
        0 <= i < pairs.len(),
    ensures
        increasing(keys_of(pairs.remove(i))),
        map_of(pairs.remove(i)) == map_of(pairs).remove(pairs[i].0),
{
    let after = pairs.remove(i);
    let wanted = map_of(pairs).remove(pairs[i].0);
    lemma_remove_keeps_order(pairs, i);
    assert forall|k: Seq<char>| #[trigger]
        map_of(after).dom().contains(k) == wanted.dom().contains(k) && (map_of(
            after,
        ).dom().contains(k) ==> map_of(after)[k] == wanted[k]) by {
        lemma_map_of_dom(after, k);
        lemma_map_of_dom(pairs, k);
        if map_of(after).contains_key(k) {
            let j = choose|j: int| 0 <= j < after.len() && #[trigger] after[j].0 == k;
            lemma_map_of_value(after, j);
            if j < i {
                assert(pairs[j].0 == k);
                lemma_map_of_value(pairs, j);
                assert(text_lt(keys_of(pairs)[j], keys_of(pairs)[i]));
                lemma_text_lt_asymmetric(pairs[j].0, pairs[i].0);
            } else {
                assert(pairs[j + 1].0 == k);
                lemma_map_of_value(pairs, j + 1);
                assert(text_lt(keys_of(pairs)[i], keys_of(pairs)[j + 1]));
                lemma_text_lt_asymmetric(pairs[i].0, pairs[j + 1].0);
            }
        }
        if map_of(pairs).contains_key(k) && k != pairs[i].0 {
            let j = choose|j: int| 0 <= j < pairs.len() && #[trigger] pairs[j].0 == k;
            if j < i {
                assert(after[j].0 == k);
            } else {
                assert(after[j - 1].0 == k);
            }
        }
    }
    assert(map_of(after) =~= wanted);
}

} // verus!
