//! A map from texts to values that remembers in which order its keys were last
//! set. The order is kept by a `LinkedHashMap`.

use linked_hash_map::LinkedHashMap;
use vstd::prelude::*;

verus! {

// ---------------------------------------------------------------------------
// Keyed sequences
// ---------------------------------------------------------------------------

/// The entries whose key is not `key`, in order.
pub open spec fn without<V>(m: Seq<(Seq<char>, V)>, key: Seq<char>) -> Seq<(Seq<char>, V)>
    decreases m.len(),
{
    if m.len() == 0 {
        m
    } else if m.last().0 == key {
        without(m.drop_last(), key)
    } else {
        without(m.drop_last(), key).push(m.last())
    }
}

/// The entries after `key` was set to `value`: the key's entry is the last one.
pub open spec fn set<V>(m: Seq<(Seq<char>, V)>, key: Seq<char>, value: V) -> Seq<(Seq<char>, V)> {
    without(m, key).push((key, value))
}

/// The entries after all of `list` were set, one after the other.
pub open spec fn set_all<V>(m: Seq<(Seq<char>, V)>, list: Seq<(Seq<char>, V)>) -> Seq<
    (Seq<char>, V),
>
    decreases list.len(),
{
    if list.len() == 0 {
        m
    } else {
        set(set_all(m, list.drop_last()), list.last().0, list.last().1)
    }
}

/// What `key` is set to.
pub open spec fn lookup<V>(m: Seq<(Seq<char>, V)>, key: Seq<char>) -> Option<V>
    decreases m.len(),
{
    if m.len() == 0 {
        None
    } else if m.last().0 == key {
        Some(m.last().1)
    } else {
        lookup(m.drop_last(), key)
    }
}

/// No key occurs twice.
pub open spec fn distinct_keys<V>(m: Seq<(Seq<char>, V)>) -> bool {
    forall|i: int, j: int| 0 <= i < j < m.len() ==> (#[trigger] m[i]).0 != (#[trigger] m[j]).0
}

/// The keys, in order.
pub open spec fn keys<V>(m: Seq<(Seq<char>, V)>) -> Seq<Seq<char>> {
    Seq::new(m.len(), |i: int| m[i].0)
}

pub(crate) proof fn lemma_without<V>(m: Seq<(Seq<char>, V)>, key: Seq<char>)
    ensures
        without(m, key).len() <= m.len(),
        forall|i: int| 0 <= i < without(m, key).len() ==> (#[trigger] without(m, key)[i]).0 != key,
        forall|i: int|
            0 <= i < without(m, key).len() ==> m.contains(#[trigger] without(m, key)[i]),
        distinct_keys(m) ==> distinct_keys(without(m, key)),
        forall|k: Seq<char>|
            k != key ==> #[trigger] lookup(without(m, key), k) == lookup(m, k),
        lookup(without(m, key), key) is None,
    decreases m.len(),
{
    if m.len() > 0 {
        let d = m.drop_last();
        lemma_without(d, key);
        assert forall|i: int| 0 <= i < without(m, key).len() implies m.contains(
            #[trigger] without(m, key)[i],
        ) by {
            if m.last().0 != key && i == without(m, key).len() - 1 {
                assert(m[m.len() - 1] == m.last());
            } else {
                let e = without(d, key)[i];
                assert(d.contains(e));
                let k = choose|k: int| 0 <= k < d.len() && d[k] == e;
                assert(m[k] == e);
            }
        }
        if m.last().0 != key {
            assert(without(m, key).drop_last() =~= without(d, key));
            if distinct_keys(m) {
                assert(distinct_keys(d));
                assert forall|i: int, j: int| 0 <= i < j < without(m, key).len() implies (
                #[trigger] without(m, key)[i]).0 != (#[trigger] without(m, key)[j]).0 by {
                    if j == without(m, key).len() - 1 {
                        let e = without(d, key)[i];
                        assert(d.contains(e));
                        let k = choose|k: int| 0 <= k < d.len() && d[k] == e;
                        assert(m[k] == e);
                        assert(m[m.len() - 1] == m.last());
                    }
                }
            }
        } else if distinct_keys(m) {
            assert(distinct_keys(d));
        }
        assert forall|k: Seq<char>| k != key implies #[trigger] lookup(without(m, key), k) == lookup(
            m,
            k,
        ) by {
            assert(lookup(without(d, key), k) == lookup(d, k));
        }
    }
}

/// Setting a key changes what that key is set to and nothing else, keeps the
/// keys distinct, and moves the key to the end.
pub proof fn law_set<V>(m: Seq<(Seq<char>, V)>, key: Seq<char>, value: V)
    ensures
        lookup(set(m, key, value), key) == Some(value),
        forall|k: Seq<char>|
            k != key ==> #[trigger] lookup(set(m, key, value), k) == lookup(m, k),
        distinct_keys(m) ==> distinct_keys(set(m, key, value)),
        set(m, key, value).last() == (key, value),
{
    lemma_without(m, key);
    assert(set(m, key, value).drop_last() =~= without(m, key));
    assert forall|k: Seq<char>| k != key implies #[trigger] lookup(set(m, key, value), k) == lookup(
        m,
        k,
    ) by {
        assert(lookup(without(m, key), k) == lookup(m, k));
    }
}

/// A key that is not there yet is put behind the others, which stay as they
/// are.
pub proof fn law_set_new_key<V>(m: Seq<(Seq<char>, V)>, key: Seq<char>, value: V)
    requires
        lookup(m, key) is None,
    ensures
        set(m, key, value) == m.push((key, value)),
{
    lemma_without_absent(m, key);
}

proof fn lemma_without_absent<V>(m: Seq<(Seq<char>, V)>, key: Seq<char>)
    requires
        lookup(m, key) is None,
    ensures
        without(m, key) == m,
    decreases m.len(),
{
    if m.len() > 0 {
        lemma_without_absent(m.drop_last(), key);
        assert(m.drop_last().push(m.last()) =~= m);
    }
}

/// Of several settings of one key the last one counts, and a key that the
/// list does not set keeps what it had.
pub proof fn law_set_all<V>(m: Seq<(Seq<char>, V)>, list: Seq<(Seq<char>, V)>, key: Seq<char>)
    ensures
        lookup(set_all(m, list), key) == (match lookup(list, key) {
            Some(v) => Some(v),
            None => lookup(m, key),
        }),
        distinct_keys(m) ==> distinct_keys(set_all(m, list)),
    decreases list.len(),
{
    if list.len() > 0 {
        law_set_all(m, list.drop_last(), key);
        law_set(set_all(m, list.drop_last()), list.last().0, list.last().1);
    }
}

pub(crate) proof fn lemma_set_all_push<V>(
    m: Seq<(Seq<char>, V)>,
    list: Seq<(Seq<char>, V)>,
    key: Seq<char>,
    value: V,
)
    ensures
        set_all(m, list.push((key, value))) == set(set_all(m, list), key, value),
{
    assert(list.push((key, value)).drop_last() =~= list);
}

/// An entry of a map whose keys are distinct is what its key is set to.
pub proof fn law_entries_are_looked_up<V>(m: Seq<(Seq<char>, V)>, i: int)
    requires
        distinct_keys(m),
        0 <= i < m.len(),
    ensures
        lookup(m, m[i].0) == Some(m[i].1),
    decreases m.len(),
{
    if i < m.len() - 1 {
        assert(m[m.len() - 1] == m.last());
        assert(m.drop_last()[i] == m[i]);
        law_entries_are_looked_up(m.drop_last(), i);
    }
}

/// A key that is set stands in some entry.
proof fn lemma_lookup_some<V>(m: Seq<(Seq<char>, V)>, key: Seq<char>) -> (i: int)
    requires
        lookup(m, key) is Some,
    ensures
        0 <= i < m.len(),
        m[i] == (key, lookup(m, key)->0),
    decreases m.len(),
{
    if m.last().0 == key {
        m.len() - 1
    } else {
        lemma_lookup_some(m.drop_last(), key)
    }
}

// ---------------------------------------------------------------------------
// The linked hash map
// ---------------------------------------------------------------------------

/// `linked_hash_map::LinkedHashMap`, whose contents are `linked_entries`.
#[verifier::external_type_specification]
#[verifier::external_body]
#[verifier::reject_recursive_types(K)]
#[verifier::reject_recursive_types(V)]
#[verifier::reject_recursive_types(S)]
pub struct ExLinkedHashMap<K, V, S>(LinkedHashMap<K, V, S>);

/// The entries of a linked hash map, in the order in which it hands them out.
pub uninterp spec fn linked_entries(m: LinkedHashMap<String, usize>) -> Seq<(Seq<char>, usize)>;

/// `LinkedHashMap::new`: a map without entries.
#[verifier::external_body]
fn linked_new() -> (r: LinkedHashMap<String, usize>)
    ensures
        linked_entries(r) == Seq::<(Seq<char>, usize)>::empty(),
{
    LinkedHashMap::new()
}

/// `LinkedHashMap::insert`: an entry that the key has already is taken from its
/// place, and the new entry is put at the end.
#[verifier::external_body]
fn linked_insert(m: &mut LinkedHashMap<String, usize>, key: String, value: usize)
    ensures
        linked_entries(*final(m)) == set(linked_entries(*old(m)), key@, value),
{
    m.insert(key, value);
}

/// `LinkedHashMap::get`: the value of the key's entry.
#[verifier::external_body]
fn linked_get(m: &LinkedHashMap<String, usize>, key: &str) -> (r: Option<usize>)
    ensures
        r == lookup(linked_entries(*m), key@),
{
    m.get(key).copied()
}

/// `LinkedHashMap::iter`: all entries, from the one set first to the one set
/// last.
#[verifier::external_body]
fn linked_iter(m: &LinkedHashMap<String, usize>) -> (r: Vec<(String, usize)>)
    ensures
        r.deep_view() == linked_entries(*m),
{
    m.iter().map(|(key, value)| (key.clone(), *value)).collect()
}

/// `LinkedHashMap::clone`: a map with the same entries in the same order.
#[verifier::external_body]
fn linked_clone(m: &LinkedHashMap<String, usize>) -> (r: LinkedHashMap<String, usize>)
    ensures
        linked_entries(r) == linked_entries(*m),
{
    m.clone()
}

// ---------------------------------------------------------------------------
// The map
// ---------------------------------------------------------------------------

/// A map that hands its entries out in the order in which their keys were last
/// set. The linked map holds, for each key, where in `slots` its value stands.
pub struct OrderedMap<V> {
    index: LinkedHashMap<String, usize>,
    slots: Vec<V>,
}

/// The linked entries with the values that they lead to.
pub open spec fn resolved<V>(index: Seq<(Seq<char>, usize)>, slots: Seq<V>) -> Seq<(Seq<char>, V)> {
    Seq::new(index.len(), |i: int| (index[i].0, slots[index[i].1 as int]))
}

/// Every linked entry leads to a value.
pub open spec fn in_range<V>(index: Seq<(Seq<char>, usize)>, slots: Seq<V>) -> bool {
    forall|i: int| 0 <= i < index.len() ==> (#[trigger] index[i]).1 < slots.len()
}

/// The deep views of the values, under the same keys.
pub open spec fn deep<V: DeepView>(m: Seq<(Seq<char>, V)>) -> Seq<(Seq<char>, V::V)> {
    Seq::new(m.len(), |i: int| (m[i].0, m[i].1.deep_view()))
}

/// No two linked entries lead to the same value.
spec fn apart(index: Seq<(Seq<char>, usize)>) -> bool {
    forall|i: int, j: int| 0 <= i < j < index.len() ==> (#[trigger] index[i]).1 != (
    #[trigger] index[j]).1
}

/// Taking a key out and following the links can be done in either order, where
/// only the key's own value changes.
proof fn lemma_resolved_without<V>(
    index: Seq<(Seq<char>, usize)>,
    slots: Seq<V>,
    changed: Seq<V>,
    key: Seq<char>,
)
    requires
        in_range(index, slots),
        slots.len() <= changed.len(),
        forall|i: int|
            0 <= i < index.len() && (#[trigger] index[i]).0 != key ==> slots[index[i].1 as int]
                == changed[index[i].1 as int],
    ensures
        resolved(without(index, key), changed) == without(resolved(index, slots), key),
        in_range(without(index, key), slots),
    decreases index.len(),
{
    if index.len() > 0 {
        let d = index.drop_last();
        assert(index[index.len() - 1] == index.last());
        assert forall|i: int| 0 <= i < d.len() implies (#[trigger] d[i]).1 < slots.len() by {
            assert(d[i] == index[i]);
        }
        assert forall|i: int| 0 <= i < d.len() && (#[trigger] d[i]).0 != key implies slots[d[i].1 as int]
            == changed[d[i].1 as int] by {
            assert(d[i] == index[i]);
        }
        lemma_resolved_without(d, slots, changed, key);
        assert(resolved(index, slots).drop_last() =~= resolved(d, slots));
        assert(resolved(index, slots).last().0 == index.last().0);
        assert(resolved(without(index, key), changed) =~= without(resolved(index, slots), key));
    }
}

/// A key's entry can lead to a value that no other entry leads to.
proof fn lemma_apart_set(index: Seq<(Seq<char>, usize)>, key: Seq<char>, slot: usize)
    requires
        apart(index),
        forall|i: int|
            0 <= i < index.len() && (#[trigger] index[i]).0 != key ==> index[i].1 != slot,
    ensures
        apart(set(index, key, slot)),
{
    lemma_apart_without(index, key);
    let rest = without(index, key);
    lemma_without(index, key);
    assert forall|i: int| 0 <= i < rest.len() implies (#[trigger] rest[i]).1 != slot by {
        assert(index.contains(rest[i]));
        let k = choose|k: int| 0 <= k < index.len() && index[k] == rest[i];
        assert(index[k].0 != key);
    }
}

proof fn lemma_apart_without(index: Seq<(Seq<char>, usize)>, key: Seq<char>)
    requires
        apart(index),
    ensures
        apart(without(index, key)),
    decreases index.len(),
{
    if index.len() > 0 {
        let d = index.drop_last();
        assert(index[index.len() - 1] == index.last());
        assert forall|i: int, j: int| 0 <= i < j < d.len() implies (#[trigger] d[i]).1 != (
        #[trigger] d[j]).1 by {
            assert(d[i] == index[i] && d[j] == index[j]);
        }
        lemma_apart_without(d, key);
        if index.last().0 != key {
            let rest = without(d, key);
            lemma_without(d, key);
            assert forall|i: int| 0 <= i < rest.len() implies (#[trigger] rest[i]).1
                != index.last().1 by {
                assert(d.contains(rest[i]));
                let k = choose|k: int| 0 <= k < d.len() && d[k] == rest[i];
                assert(d[k] == index[k]);
            }
        }
    }
}

proof fn lemma_resolved_lookup<V>(index: Seq<(Seq<char>, usize)>, slots: Seq<V>, key: Seq<char>)
    requires
        in_range(index, slots),
    ensures
        lookup(index, key) matches Some(i) ==> i < slots.len() && lookup(
            resolved(index, slots),
            key,
        ) == Some(slots[i as int]),
        lookup(index, key) is None ==> lookup(resolved(index, slots), key) is None,
    decreases index.len(),
{
    if index.len() > 0 {
        let d = index.drop_last();
        assert(index[index.len() - 1] == index.last());
        assert forall|i: int| 0 <= i < d.len() implies (#[trigger] d[i]).1 < slots.len() by {
            assert(d[i] == index[i]);
        }
        lemma_resolved_lookup(d, slots, key);
        assert(resolved(index, slots).drop_last() =~= resolved(d, slots));
    }
}

impl<V> OrderedMap<V> {
    #[verifier::type_invariant]
    spec fn inv(self) -> bool {
        &&& distinct_keys(linked_entries(self.index))
        &&& in_range(linked_entries(self.index), self.slots@)
        &&& apart(linked_entries(self.index))
    }

    /// The entries, in order.
    pub closed spec fn entries(self) -> Seq<(Seq<char>, V)> {
        resolved(linked_entries(self.index), self.slots@)
    }

    /// A map without entries.
    pub fn new() -> (r: Self)
        ensures
            r.entries() == Seq::<(Seq<char>, V)>::empty(),
    {
        let r = OrderedMap { index: linked_new(), slots: Vec::new() };
        assert(r.entries() =~= Seq::<(Seq<char>, V)>::empty());
        r
    }

    /// Sets a key. A key that is there already moves to the end.
    pub fn insert(&mut self, key: String, value: V)
        ensures
            final(self).entries() == set(old(self).entries(), key@, value),
    {
        proof {
            use_type_invariant(&*self);
        }
        let ghost before = linked_entries(self.index);
        let ghost values = self.slots@;
        let mut index = linked_new();
        std::mem::swap(&mut index, &mut self.index);
        let mut slots: Vec<V> = Vec::new();
        std::mem::swap(&mut slots, &mut self.slots);
        let slot: usize = match linked_get(&index, key.as_str()) {
            Some(slot) => {
                proof {
                    let i = lemma_lookup_some(before, key@);
                    assert(before[i] == (key@, slot));
                }
                slots.set(slot, value);
                slot
            },
            None => {
                let slot: usize = slots.len();
                slots.push(value);
                slot
            },
        };
        proof {
            lemma_resolved_without(before, values, slots@, key@);
            lemma_without(before, key@);
            lemma_apart_set(before, key@, slot);
            law_set(before, key@, slot);
        }
        linked_insert(&mut index, key, slot);
        self.slots = slots;
        self.index = index;
        assert(self.entries() =~= set(resolved(before, values), key@, value));
    }

    /// What a key is set to.
    pub fn get(&self, key: &str) -> (r: Option<&V>)
        ensures
            match r {
                Some(v) => lookup(self.entries(), key@) == Some(*v),
                None => lookup(self.entries(), key@) is None,
            },
    {
        proof {
            use_type_invariant(&*self);
            lemma_resolved_lookup(linked_entries(self.index), self.slots@, key@);
        }
        match linked_get(&self.index, key) {
            Some(slot) => Some(&self.slots[slot]),
            None => None,
        }
    }

    /// All entries, in order.
    pub fn pairs(&self) -> (r: Vec<(String, &V)>)
        ensures
            r@.len() == self.entries().len(),
            forall|i: int|
                0 <= i < r@.len() ==> (#[trigger] r@[i]).0@ == self.entries()[i].0 && *r@[i].1
                    == self.entries()[i].1,
            distinct_keys(self.entries()),
    {
        proof {
            use_type_invariant(&*self);
        }
        let linked: Vec<(String, usize)> = linked_iter(&self.index);
        let ghost index = linked_entries(self.index);
        let mut out: Vec<(String, &V)> = Vec::new();
        for k in 0..linked.len()
            invariant
                linked.deep_view() == index,
                index == linked_entries(self.index),
                in_range(index, self.slots@),
                out@.len() == k,
                forall|i: int|
                    0 <= i < k ==> (#[trigger] out@[i]).0@ == self.entries()[i].0 && *out@[i].1
                        == self.entries()[i].1,
        {
            assert(linked.deep_view()[k as int] == index[k as int]);
            let key: String = linked[k].0.clone();
            out.push((key, &self.slots[linked[k].1]));
        }
        assert(linked.deep_view().len() == index.len());
        assert forall|i: int, j: int| 0 <= i < j < self.entries().len() implies (
        #[trigger] self.entries()[i]).0 != (#[trigger] self.entries()[j]).0 by {
            assert(index[i].0 != index[j].0);
        }
        out
    }

    /// All keys, in order.
    pub fn keys(&self) -> (r: Vec<String>)
        ensures
            r.deep_view() == keys(self.entries()),
    {
        let pairs = self.pairs();
        let mut out: Vec<String> = Vec::new();
        for k in 0..pairs.len()
            invariant
                out@.len() == k,
                forall|i: int| 0 <= i < k ==> (#[trigger] out@[i])@ == self.entries()[i].0,
                pairs@.len() == self.entries().len(),
                forall|i: int|
                    0 <= i < pairs@.len() ==> (#[trigger] pairs@[i]).0@ == self.entries()[i].0,
        {
            out.push(pairs[k].0.clone());
        }
        assert(out.deep_view() =~= keys(self.entries()));
        out
    }
}

impl<V: DeepView> DeepView for OrderedMap<V> {
    type V = Seq<(Seq<char>, V::V)>;

    open spec fn deep_view(&self) -> Seq<(Seq<char>, V::V)> {
        deep(self.entries())
    }
}

impl<V: Clone> Clone for OrderedMap<V> {
    fn clone(&self) -> (r: Self)
        ensures
            r.entries().len() == self.entries().len(),
            forall|i: int|
                0 <= i < r.entries().len() ==> (#[trigger] r.entries()[i]).0 == self.entries()[i].0
                    && cloned(self.entries()[i].1, r.entries()[i].1),
    {
        proof {
            use_type_invariant(&*self);
        }
        let slots = self.slots.clone();
        let index = linked_clone(&self.index);
        let r = OrderedMap { index, slots };
        r
    }
}

/// Looking a key up and taking deep views can be done in either order.
pub proof fn lemma_deep_lookup<V: DeepView>(m: Seq<(Seq<char>, V)>, key: Seq<char>)
    ensures
        lookup(deep(m), key) == (match lookup(m, key) {
            Some(v) => Some(v.deep_view()),
            None => None,
        }),
    decreases m.len(),
{
    if m.len() > 0 {
        lemma_deep_lookup(m.drop_last(), key);
        assert(deep(m).drop_last() =~= deep(m.drop_last()));
    }
}

/// Setting a key and taking deep views can be done in either order.
pub proof fn lemma_deep_set<V: DeepView>(m: Seq<(Seq<char>, V)>, key: Seq<char>, value: V)
    ensures
        deep(set(m, key, value)) == set(deep(m), key, value.deep_view()),
{
    lemma_deep_without(m, key);
    assert(deep(set(m, key, value)) =~= set(deep(m), key, value.deep_view()));
}

proof fn lemma_deep_without<V: DeepView>(m: Seq<(Seq<char>, V)>, key: Seq<char>)
    ensures
        deep(without(m, key)) == without(deep(m), key),
    decreases m.len(),
{
    if m.len() > 0 {
        lemma_deep_without(m.drop_last(), key);
        assert(deep(m).drop_last() =~= deep(m.drop_last()));
    }
    assert(deep(without(m, key)) =~= without(deep(m), key));
}

/// Setting a key takes its entry out of its place, where it had one, and puts it
/// behind the others, which keep their order.
pub proof fn law_set_keeps_the_order<V>(m: Seq<(Seq<char>, V)>, key: Seq<char>, value: V)
    ensures
        set(m, key, value) == m.filter(|e: (Seq<char>, V)| e.0 != key).push((key, value)),
{
    lemma_without_is_filter(m, key);
}

proof fn lemma_without_is_filter<V>(m: Seq<(Seq<char>, V)>, key: Seq<char>)
    ensures
        without(m, key) == m.filter(|e: (Seq<char>, V)| e.0 != key),
    decreases m.len(),
{
    reveal(Seq::filter);
    if m.len() > 0 {
        lemma_without_is_filter(m.drop_last(), key);
    }
}

/// A key is looked up among all entries, of which the last one with the key
/// counts: without an entry there is nothing, and an entry put behind the others
/// decides for its own key and for no other.
pub proof fn law_lookup<V>(m: Seq<(Seq<char>, V)>, entry: (Seq<char>, V), key: Seq<char>)
    ensures
        lookup(Seq::<(Seq<char>, V)>::empty(), key) is None,
        lookup(m.push(entry), key) == (if entry.0 == key {
            Some(entry.1)
        } else {
            lookup(m, key)
        }),
        lookup(m, key) is None <==> forall|i: int|
            0 <= i < m.len() ==> (#[trigger] m[i]).0 != key,
{
    assert(m.push(entry).drop_last() =~= m);
    if lookup(m, key) is Some {
        let i = lemma_lookup_some(m, key);
        assert(m[i].0 == key);
    } else {
        lemma_lookup_none(m, key);
    }
}

proof fn lemma_lookup_none<V>(m: Seq<(Seq<char>, V)>, key: Seq<char>)
    requires
        lookup(m, key) is None,
    ensures
        forall|i: int| 0 <= i < m.len() ==> (#[trigger] m[i]).0 != key,
    decreases m.len(),
{
    if m.len() > 0 {
        lemma_lookup_none(m.drop_last(), key);
        assert forall|i: int| 0 <= i < m.len() implies (#[trigger] m[i]).0 != key by {
            if i < m.len() - 1 {
                assert(m.drop_last()[i] == m[i]);
            } else {
                assert(m[i] == m.last());
            }
        }
    }
}

/// A list of settings is applied one by one, from the first to the last.
pub proof fn law_set_all_in_turn<V>(
    m: Seq<(Seq<char>, V)>,
    list: Seq<(Seq<char>, V)>,
    entry: (Seq<char>, V),
)
    ensures
        set_all(m, Seq::empty()) == m,
        set_all(m, list.push(entry)) == set(set_all(m, list), entry.0, entry.1),
{
    lemma_set_all_push(m, list, entry.0, entry.1);
}

} // verus!
