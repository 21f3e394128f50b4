//! A map keyed by text that keeps its entries in the order of their keys.
use crate::model::views;
use crate::text::{
    lemma_text_antisymmetric, lemma_text_connected, lemma_text_transitive, precedes, same_text,
    text_before,
};
use vstd::prelude::*;

verus! {

/// A map from texts to values. No key occurs twice, and the entries stand in the order of their
/// keys.
#[derive(Debug, PartialEq)]
pub struct TextMap<V> {
    entries: Vec<(String, V)>,
}

/// Pairs whose keys ascend strictly.
pub open spec fn is_ascending<T>(pairs: Seq<(Seq<char>, T)>) -> bool {
    forall|i: int, j: int|
        0 <= i < j < pairs.len() ==> text_before(#[trigger] pairs[i].0, #[trigger] pairs[j].0)
}

/// The map that holds the given pairs; where a key occurs twice the later pair counts.
pub open spec fn map_of<T>(pairs: Seq<(Seq<char>, T)>) -> Map<Seq<char>, T>
    decreases pairs.len(),
{
    if pairs.len() == 0 {
        Map::empty()
    } else {
        map_of(pairs.drop_last()).insert(pairs.last().0, pairs.last().1)
    }
}

/// The pairs of a map in the order of their keys.
pub open spec fn ascending<T>(map: Map<Seq<char>, T>) -> Seq<(Seq<char>, T)> {
    choose|pairs: Seq<(Seq<char>, T)>| is_ascending(pairs) && #[trigger] map_of(pairs) == map
}

/// The keys of a map built from pairs are those of the pairs.
pub proof fn lemma_map_of_keys<T>(pairs: Seq<(Seq<char>, T)>, key: Seq<char>)
    ensures
        map_of(pairs).contains_key(key) <==> exists|i: int|
            0 <= i < pairs.len() && #[trigger] pairs[i].0 == key,
    decreases pairs.len(),
{
    if pairs.len() > 0 {
        let rest = pairs.drop_last();
        lemma_map_of_keys(rest, key);
        if map_of(pairs).contains_key(key) {
            if key == pairs.last().0 {
                assert(pairs[pairs.len() - 1].0 == key);
            } else {
                let i = choose|i: int| 0 <= i < rest.len() && #[trigger] rest[i].0 == key;
                assert(pairs[i].0 == key);
            }
        }
        if exists|i: int| 0 <= i < pairs.len() && #[trigger] pairs[i].0 == key {
            let i = choose|i: int| 0 <= i < pairs.len() && #[trigger] pairs[i].0 == key;
            if i < rest.len() {
                assert(rest[i].0 == key);
            }
        }
    }
}

/// Where keys ascend, every pair is in the map.
pub proof fn lemma_map_of_value<T>(pairs: Seq<(Seq<char>, T)>, i: int)
    requires
        is_ascending(pairs),
        0 <= i < pairs.len(),
    ensures
        map_of(pairs).contains_key(pairs[i].0),
        map_of(pairs)[pairs[i].0] == pairs[i].1,
    decreases pairs.len(),
{
    if i < pairs.len() - 1 {
        let rest = pairs.drop_last();
        assert(is_ascending(rest));
        lemma_map_of_value(rest, i);
        assert(text_before(pairs[i].0, pairs[pairs.len() - 1].0));
        lemma_text_antisymmetric(pairs[i].0, pairs.last().0);
        assert(rest[i] == pairs[i]);
    }
}

/// A map built from ascending pairs has as many keys as there are pairs.
pub proof fn lemma_map_of_len<T>(pairs: Seq<(Seq<char>, T)>)
    requires
        is_ascending(pairs),
    ensures
        map_of(pairs).dom().finite(),
        map_of(pairs).len() == pairs.len(),
    decreases pairs.len(),
{
    if pairs.len() > 0 {
        let rest = pairs.drop_last();
        assert(is_ascending(rest));
        lemma_map_of_len(rest);
        lemma_map_of_keys(rest, pairs.last().0);
        if map_of(rest).contains_key(pairs.last().0) {
            let i = choose|i: int| 0 <= i < rest.len() && #[trigger] rest[i].0 == pairs.last().0;
            assert(text_before(pairs[i].0, pairs[pairs.len() - 1].0));
            lemma_text_antisymmetric(pairs[i].0, pairs.last().0);
        }
    }
}

/// There is one way only to write a map as ascending pairs.
pub proof fn lemma_ascending_unique<T>(left: Seq<(Seq<char>, T)>, right: Seq<(Seq<char>, T)>)
    requires
        is_ascending(left),
        is_ascending(right),
        map_of(left) == map_of(right),
    ensures
        left == right,
    decreases left.len(),
{
    lemma_map_of_len(left);
    lemma_map_of_len(right);
    if left.len() == 0 {
        assert(left =~= right);
    } else {
        let n = left.len() - 1;
        let a = left[n].0;
        let b = right[n].0;
        lemma_map_of_value(left, n);
        lemma_map_of_value(right, n);
        lemma_map_of_keys(right, a);
        lemma_map_of_keys(left, b);
        let i = choose|i: int| 0 <= i < right.len() && #[trigger] right[i].0 == a;
        let j = choose|j: int| 0 <= j < left.len() && #[trigger] left[j].0 == b;
        if a != b {
            assert(text_before(right[i].0, right[n].0));
            assert(text_before(left[j].0, left[n].0));
            lemma_text_antisymmetric(a, b);
        }
        let rest = left.drop_last();
        let other = right.drop_last();
        assert(is_ascending(rest));
        assert(is_ascending(other));
        lemma_last_key_fresh(left);
        lemma_last_key_fresh(right);
        assert(map_of(rest) =~= map_of(left).remove(a));
        assert(map_of(other) =~= map_of(right).remove(a));
        lemma_ascending_unique(rest, other);
        assert(left =~= rest.push(left.last()));
        assert(right =~= other.push(right.last()));
    }
}

proof fn lemma_last_key_fresh<T>(pairs: Seq<(Seq<char>, T)>)
    requires
        is_ascending(pairs),
        pairs.len() > 0,
    ensures
        !map_of(pairs.drop_last()).contains_key(pairs.last().0),
{
    let rest = pairs.drop_last();
    lemma_map_of_keys(rest, pairs.last().0);
    if map_of(rest).contains_key(pairs.last().0) {
        let i = choose|i: int| 0 <= i < rest.len() && #[trigger] rest[i].0 == pairs.last().0;
        assert(text_before(pairs[i].0, pairs[pairs.len() - 1].0));
        lemma_text_antisymmetric(pairs[i].0, pairs.last().0);
    }
}

/// Ascending pairs are how the map that they make is written.
pub proof fn lemma_ascending_of<T>(pairs: Seq<(Seq<char>, T)>)
    requires
        is_ascending(pairs),
    ensures
        ascending(map_of(pairs)) == pairs,
{
    lemma_ascending_unique(ascending(map_of(pairs)), pairs);
}

/// Picking some of ascending pairs by their keys leaves ascending pairs, and picks the same keys
/// from the map.
pub proof fn lemma_ascending_filter<T>(
    pairs: Seq<(Seq<char>, T)>,
    picked: spec_fn((Seq<char>, T)) -> bool,
    keys: Set<Seq<char>>,
)
    requires
        is_ascending(pairs),
        forall|pair: (Seq<char>, T)| #[trigger] picked(pair) == keys.contains(pair.0),
    ensures
        is_ascending(pairs.filter(picked)),
        map_of(pairs.filter(picked)) == map_of(pairs).restrict(keys),
        forall|i: int|
            0 <= i < pairs.filter(picked).len() ==> pairs.contains(
                #[trigger] pairs.filter(picked)[i],
            ),
    decreases pairs.len(),
{
    reveal(Seq::filter);
    let left = pairs.filter(picked);
    if pairs.len() == 0 {
        assert(map_of(left) =~= map_of(pairs).restrict(keys));
    } else {
        let rest = pairs.drop_last();
        let last = pairs.last();
        assert(is_ascending(rest));
        lemma_ascending_filter(rest, picked, keys);
        lemma_last_key_fresh(pairs);
        let kept = rest.filter(picked);
        assert(picked(last) == keys.contains(last.0));
        if picked(last) {
            assert(left =~= kept.push(last));
            assert(left.drop_last() =~= kept);
            assert forall|i: int, j: int| 0 <= i < j < left.len() implies text_before(
                #[trigger] left[i].0,
                #[trigger] left[j].0,
            ) by {
                if j == left.len() - 1 {
                    assert(rest.contains(kept[i]));
                    let k = rest.index_of(kept[i]);
                    assert(text_before(pairs[k].0, pairs[pairs.len() - 1].0));
                } else {
                    assert(text_before(kept[i].0, kept[j].0));
                }
            }
        }
        assert(map_of(left) =~= map_of(pairs).restrict(keys));
        assert forall|i: int| 0 <= i < left.len() implies pairs.contains(#[trigger] left[i]) by {
            if i < kept.len() {
                assert(rest.contains(kept[i]));
                let k = rest.index_of(kept[i]);
                assert(pairs[k] == left[i]);
            } else {
                assert(pairs[pairs.len() - 1] == left[i]);
            }
        }
    }
}

/// Where a key belongs among ascending pairs.
spec fn place<T>(pairs: Seq<(Seq<char>, T)>, key: Seq<char>) -> int
    decreases pairs.len(),
{
    if pairs.len() == 0 {
        0
    } else if text_before(pairs.last().0, key) {
        pairs.len() as int
    } else {
        place(pairs.drop_last(), key)
    }
}

proof fn lemma_place<T>(pairs: Seq<(Seq<char>, T)>, key: Seq<char>)
    requires
        is_ascending(pairs),
        !map_of(pairs).contains_key(key),
    ensures
        0 <= place(pairs, key) <= pairs.len(),
        forall|k: int|
            0 <= k < place(pairs, key) ==> text_before(#[trigger] pairs[k].0, key),
        forall|k: int|
            place(pairs, key) <= k < pairs.len() ==> text_before(key, #[trigger] pairs[k].0),
    decreases pairs.len(),
{
    if pairs.len() > 0 {
        let rest = pairs.drop_last();
        assert(is_ascending(rest));
        let n = pairs.len() - 1;
        if text_before(pairs.last().0, key) {
            assert forall|k: int| 0 <= k < pairs.len() implies text_before(
                #[trigger] pairs[k].0,
                key,
            ) by {
                if k < n {
                    assert(text_before(pairs[k].0, pairs[n].0));
                    lemma_text_transitive(pairs[k].0, pairs[n].0, key);
                }
            }
        } else {
            lemma_place(rest, key);
            lemma_text_connected(pairs.last().0, key);
            assert forall|k: int| 0 <= k < place(pairs, key) implies text_before(
                #[trigger] pairs[k].0,
                key,
            ) by {
                assert(rest[k] == pairs[k]);
            }
            assert forall|k: int| place(pairs, key) <= k < pairs.len() implies text_before(
                key,
                #[trigger] pairs[k].0,
            ) by {
                if k < n {
                    assert(rest[k] == pairs[k]);
                }
            }
        }
    }
}

/// A finite map can be written as ascending pairs.
pub proof fn lemma_ascending_exists<T>(map: Map<Seq<char>, T>)
    requires
        map.dom().finite(),
    ensures
        is_ascending(ascending(map)),
        map_of(ascending(map)) == map,
    decreases map.len(),
{
    if map.len() == 0 {
        let none = Seq::<(Seq<char>, T)>::empty();
        assert(map_of(none) =~= map);
        assert(is_ascending(none));
    } else {
        let key = map.dom().choose();
        assert(map.contains_key(key));
        let rest = map.remove(key);
        lemma_ascending_exists(rest);
        let pairs = ascending(rest);
        lemma_place(pairs, key);
        let i = place(pairs, key);
        let pair = (key, map[key]);
        let all = pairs.insert(i, pair);
        assert(is_ascending(all));
        lemma_pairs_inserted(pairs, i, pair);
        assert(map_of(all) =~= map);
    }
}

impl<V: View> TextMap<V> {
    /// The entries in the order of their keys.
    pub closed spec fn pairs(&self) -> Seq<(Seq<char>, V::V)> {
        views(self.entries@)
    }
}

impl<V: View> View for TextMap<V> {
    type V = Map<Seq<char>, V::V>;

    open spec fn view(&self) -> Map<Seq<char>, V::V> {
        map_of(self.pairs())
    }
}

impl<V> TextMap<V> {
    #[verifier::type_invariant]
    spec fn ordered(self) -> bool {
        forall|i: int, j: int|
            0 <= i < j < self.entries@.len() ==> text_before(
                #[trigger] self.entries@[i].0@,
                #[trigger] self.entries@[j].0@,
            )
    }
}

impl<V: View> TextMap<V> {
    /// An empty map.
    pub fn new() -> (map: Self)
        ensures
            map@ == Map::<Seq<char>, V::V>::empty(),
            map.pairs() == Seq::<(Seq<char>, V::V)>::empty(),
    {
        let map = TextMap { entries: Vec::new() };
        proof {
            assert(map.pairs() =~= Seq::<(Seq<char>, V::V)>::empty());
        }
        map
    }

    /// The number of entries. Their positions follow the order of the keys, which the contents of
    /// the map settle.
    pub fn len(&self) -> (count: usize)
        ensures
            count == self@.len(),
            count == self.pairs().len(),
            self@.dom().finite(),
            is_ascending(self.pairs()),
            ascending(self@) == self.pairs(),
    {
        proof {
            use_type_invariant(self);
            assert(is_ascending(self.pairs()));
            lemma_ascending_of(self.pairs());
            lemma_map_of_len(self.pairs());
        }
        self.entries.len()
    }

    /// Whether there is no entry.
    pub fn is_empty(&self) -> (empty: bool)
        ensures
            empty == (self@ == Map::<Seq<char>, V::V>::empty()),
            empty == (self.pairs().len() == 0),
    {
        let count = self.len();
        proof {
            if count > 0 {
                lemma_map_of_value(self.pairs(), 0);
            }
        }
        count == 0
    }

    /// The key at a position.
    pub fn key_at(&self, i: usize) -> (key: &str)
        requires
            i < self.pairs().len(),
        ensures
            key@ == self.pairs()[i as int].0,
            self@.contains_key(key@),
    {
        proof {
            use_type_invariant(self);
            assert(is_ascending(self.pairs()));
            lemma_map_of_value(self.pairs(), i as int);
        }
        self.entries[i].0.as_str()
    }

    /// The value at a position.
    pub fn value_at(&self, i: usize) -> (value: &V)
        requires
            i < self.pairs().len(),
        ensures
            value@ == self.pairs()[i as int].1,
            value@ == self@[self.pairs()[i as int].0],
    {
        proof {
            use_type_invariant(self);
            assert(is_ascending(self.pairs()));
            lemma_map_of_value(self.pairs(), i as int);
        }
        &self.entries[i].1
    }

    /// Where a key stands, or where it would stand.
    fn position(&self, key: &str) -> (place: (usize, bool))
        ensures
            place.0 <= self.pairs().len(),
            place.1 ==> place.0 < self.pairs().len() && self.pairs()[place.0 as int].0 == key@,
            forall|k: int|
                0 <= k < place.0 ==> text_before(#[trigger] self.pairs()[k].0, key@),
            forall|k: int|
                place.0 <= k < self.pairs().len() ==> place.1 && k == place.0 || text_before(
                    key@,
                    #[trigger] self.pairs()[k].0,
                ),
            place.1 == self@.contains_key(key@),
    {
        let count = self.len();
        let mut i: usize = 0;
        while i < count && precedes(self.entries[i].0.as_str(), key)
            invariant
                i <= count,
                count == self.pairs().len(),
                count == self.entries@.len(),
                forall|k: int| 0 <= k < i ==> text_before(#[trigger] self.pairs()[k].0, key@),
            ensures
                i <= count,
                i < count ==> !text_before(self.pairs()[i as int].0, key@),
                forall|k: int| 0 <= k < i ==> text_before(#[trigger] self.pairs()[k].0, key@),
            decreases count - i,
        {
            i = i + 1;
        }
        let found = i < count && same_text(self.entries[i].0.as_str(), key);
        proof {
            let pairs = self.pairs();
            if i < count {
                lemma_text_connected(pairs[i as int].0, key@);
            }
            assert forall|k: int| i <= k < pairs.len() implies found && k == i || text_before(
                key@,
                #[trigger] pairs[k].0,
            ) by {
                if k > i {
                    assert(text_before(pairs[i as int].0, pairs[k].0));
                    if !found {
                        lemma_text_transitive(key@, pairs[i as int].0, pairs[k].0);
                    }
                }
            }
            lemma_map_of_keys(pairs, key@);
            if self@.contains_key(key@) {
                let k = choose|k: int| 0 <= k < pairs.len() && #[trigger] pairs[k].0 == key@;
                lemma_text_antisymmetric(key@, key@);
            }
        }
        (i, found)
    }

    /// The value of a key.
    pub fn get(&self, key: &str) -> (value: Option<&V>)
        ensures
            match value {
                Some(value) => self@.contains_key(key@) && value@ == self@[key@],
                None => !self@.contains_key(key@),
            },
    {
        let (i, found) = self.position(key);
        if found {
            Some(self.value_at(i))
        } else {
            None
        }
    }

    /// Whether a key has a value.
    pub fn contains_key(&self, key: &str) -> (found: bool)
        ensures
            found == self@.contains_key(key@),
    {
        self.position(key).1
    }

    /// Gives a key a value, in place of the one it had.
    pub fn insert(&mut self, key: String, value: V)
        ensures
            final(self)@ == old(self)@.insert(key@, value@),
    {
        proof {
            use_type_invariant(&*self);
        }
        let (i, found) = self.position(key.as_str());
        let ghost before = self.pairs();
        let ghost pair = (key@, value@);
        let mut entries: Vec<(String, V)> = Vec::new();
        std::mem::swap(&mut entries, &mut self.entries);
        if found {
            entries.remove(i);
        }
        entries.insert(i, (key, value));
        proof {
            let after = views(entries@);
            if found {
                assert(after =~= before.update(i as int, pair));
            } else {
                assert(after =~= before.insert(i as int, pair));
            }
            assert(is_ascending(after));
            assert forall|a: int, b: int| 0 <= a < b < entries@.len() implies text_before(
                #[trigger] entries@[a].0@,
                #[trigger] entries@[b].0@,
            ) by {
                assert(text_before(after[a].0, after[b].0));
            }
            if found {
                lemma_pairs_updated(before, i as int, pair);
            } else {
                lemma_pairs_inserted(before, i as int, pair);
            }
        }
        self.entries = entries;
    }

    /// Takes the entry at a position out.
    pub fn remove_at(&mut self, i: usize)
        requires
            i < old(self).pairs().len(),
        ensures
            final(self).pairs() == old(self).pairs().remove(i as int),
            final(self)@ == old(self)@.remove(old(self).pairs()[i as int].0),
    {
        proof {
            use_type_invariant(&*self);
        }
        let ghost before = self.pairs();
        let mut entries: Vec<(String, V)> = Vec::new();
        std::mem::swap(&mut entries, &mut self.entries);
        entries.remove(i);
        proof {
            let after = views(entries@);
            assert(after =~= before.remove(i as int));
            assert(is_ascending(after));
            assert forall|a: int, b: int| 0 <= a < b < entries@.len() implies text_before(
                #[trigger] entries@[a].0@,
                #[trigger] entries@[b].0@,
            ) by {
                assert(text_before(after[a].0, after[b].0));
            }
            lemma_pairs_removed(before, i as int);
        }
        self.entries = entries;
    }

    /// Takes a key and its value out.
    pub fn remove(&mut self, key: &str)
        ensures
            final(self)@ == old(self)@.remove(key@),
    {
        let (i, found) = self.position(key);
        if found {
            self.remove_at(i);
        } else {
            proof {
                assert(self@.remove(key@) =~= self@);
            }
        }
    }
}

impl<V: View> Default for TextMap<V> {
    fn default() -> (map: Self)
        ensures
            map@ == Map::<Seq<char>, V::V>::empty(),
    {
        TextMap::new()
    }
}

impl<V: View + Clone> Clone for TextMap<V> {
    fn clone(&self) -> (copy: Self)
        ensures
            (forall|value: V, twin: V| #[trigger] cloned(value, twin) ==> value@ == twin@)
                ==> copy@ == self@,
    {
        proof {
            use_type_invariant(self);
        }
        let mut entries: Vec<(String, V)> = Vec::new();
        let mut i: usize = 0;
        while i < self.entries.len()
            invariant
                i <= self.entries@.len(),
                entries@.len() == i,
                forall|k: int| 0 <= k < i ==> #[trigger] entries@[k].0 == self.entries@[k].0,
                forall|k: int|
                    0 <= k < i ==> cloned(self.entries@[k].1, #[trigger] entries@[k].1),
            decreases self.entries@.len() - i,
        {
            let key = self.entries[i].0.clone();
            let value = self.entries[i].1.clone();
            entries.push((key, value));
            i = i + 1;
        }
        let copy = TextMap { entries };
        proof {
            if forall|value: V, twin: V| #[trigger] cloned(value, twin) ==> value@ == twin@ {
                assert(copy.pairs() =~= self.pairs());
            }
        }
        copy
    }
}

/// Putting a new pair between ascending ones adds it to the map.
proof fn lemma_pairs_inserted<T>(pairs: Seq<(Seq<char>, T)>, i: int, pair: (Seq<char>, T))
    requires
        0 <= i <= pairs.len(),
        is_ascending(pairs.insert(i, pair)),
    ensures
        map_of(pairs.insert(i, pair)) == map_of(pairs).insert(pair.0, pair.1),
    decreases pairs.len(),
{
    let after = pairs.insert(i, pair);
    if i == pairs.len() {
        assert(after =~= pairs.push(pair));
        assert(after.drop_last() =~= pairs);
    } else {
        let rest = pairs.drop_last();
        assert(after.drop_last() =~= rest.insert(i, pair));
        assert(is_ascending(rest.insert(i, pair))) by {
            assert(is_ascending(after.drop_last()));
        }
        lemma_pairs_inserted(rest, i, pair);
        assert(after.last() == pairs.last());
        assert(text_before(after[i].0, after[after.len() - 1].0));
        lemma_text_antisymmetric(pair.0, pairs.last().0);
        assert(map_of(after) =~= map_of(pairs).insert(pair.0, pair.1));
    }
}

/// Giving one of ascending pairs another value changes that value in the map.
proof fn lemma_pairs_updated<T>(pairs: Seq<(Seq<char>, T)>, i: int, pair: (Seq<char>, T))
    requires
        0 <= i < pairs.len(),
        is_ascending(pairs),
        pairs[i].0 == pair.0,
    ensures
        map_of(pairs.update(i, pair)) == map_of(pairs).insert(pair.0, pair.1),
    decreases pairs.len(),
{
    let after = pairs.update(i, pair);
    let rest = pairs.drop_last();
    if i == pairs.len() - 1 {
        assert(after.drop_last() =~= rest);
        assert(map_of(after) =~= map_of(pairs).insert(pair.0, pair.1));
    } else {
        assert(after.drop_last() =~= rest.update(i, pair));
        assert(is_ascending(rest));
        lemma_pairs_updated(rest, i, pair);
        assert(text_before(pairs[i].0, pairs[pairs.len() - 1].0));
        lemma_text_antisymmetric(pair.0, pairs.last().0);
        assert(map_of(after) =~= map_of(pairs).insert(pair.0, pair.1));
    }
}

/// Taking one of ascending pairs out takes its key out of the map.
pub proof fn lemma_pairs_removed<T>(pairs: Seq<(Seq<char>, T)>, i: int)
    requires
        0 <= i < pairs.len(),
        is_ascending(pairs),
    ensures
        map_of(pairs.remove(i)) == map_of(pairs).remove(pairs[i].0),
    decreases pairs.len(),
{
    let after = pairs.remove(i);
    let rest = pairs.drop_last();
    assert(is_ascending(rest));
    if i == pairs.len() - 1 {
        lemma_last_key_fresh(pairs);
        assert(after =~= rest);
        assert(map_of(after) =~= map_of(pairs).remove(pairs[i].0));
    } else {
        assert(after.drop_last() =~= rest.remove(i));
        lemma_pairs_removed(rest, i);
        assert(text_before(pairs[i].0, pairs[pairs.len() - 1].0));
        lemma_text_antisymmetric(pairs[i].0, pairs.last().0);
        assert(map_of(after) =~= map_of(pairs).remove(pairs[i].0));
    }
}

} // verus!
