//! The combinations of values that a matrix stands for.

use vstd::prelude::*;

use crate::ordered_map;
use crate::ordered_map::OrderedMap;
use crate::yaml::{Yaml, YamlView};

verus! {

/// All ways to extend a combination by one value for each key, the values of
/// the first key varying slowest.
pub open spec fn extensions(
    start: Seq<(Seq<char>, YamlView)>,
    keys: Seq<(Seq<char>, Seq<YamlView>)>,
) -> Seq<Seq<(Seq<char>, YamlView)>>
    decreases keys.len(), keys[0].1.len() + 1,
{
    if keys.len() == 0 {
        seq![start]
    } else {
        extensions_by(start, keys, keys[0].1.len())
    }
}

/// The extensions that give the first key one of its first `n` values.
pub open spec fn extensions_by(
    start: Seq<(Seq<char>, YamlView)>,
    keys: Seq<(Seq<char>, Seq<YamlView>)>,
    n: nat,
) -> Seq<Seq<(Seq<char>, YamlView)>>
    decreases keys.len(), n,
{
    if keys.len() == 0 || n == 0 {
        seq![]
    } else {
        extensions_by(start, keys, (n - 1) as nat) + extensions(
            ordered_map::set(start, keys[0].0, keys[0].1[n - 1]),
            keys.skip(1),
        )
    }
}

/// All combinations of one value for each key.
pub open spec fn product(keys: Seq<(Seq<char>, Seq<YamlView>)>) -> Seq<
    Seq<(Seq<char>, YamlView)>,
> {
    extensions(seq![], keys)
}

/// The number of combinations.
pub open spec fn product_len(keys: Seq<(Seq<char>, Seq<YamlView>)>) -> nat
    decreases keys.len(),
{
    if keys.len() == 0 {
        1
    } else {
        keys[0].1.len() * product_len(keys.skip(1))
    }
}

/// A copy of a combination.
pub(crate) fn copy_values(m: &OrderedMap<Yaml>) -> (r: OrderedMap<Yaml>)
    ensures
        r.deep_view() == m.deep_view(),
{
    let r = m.clone();
    assert(r.deep_view() =~= m.deep_view());
    r
}

fn extend(
    start: &OrderedMap<Yaml>,
    keys: &Vec<(String, &Vec<Yaml>)>,
    from: usize,
    out: &mut Vec<OrderedMap<Yaml>>,
    Ghost(all): Ghost<Seq<(Seq<char>, Seq<YamlView>)>>,
)
    requires
        from <= keys@.len(),
        all.len() == keys@.len(),
        forall|i: int|
            0 <= i < all.len() ==> (#[trigger] all[i]).0 == keys@[i].0@ && all[i].1
                == keys@[i].1.deep_view(),
    ensures
        final(out).deep_view() == old(out).deep_view() + extensions(
            start.deep_view(),
            all.skip(from as int),
        ),
    decreases keys@.len() - from,
{
    let ghost before = out.deep_view();
    let ghost rest = all.skip(from as int);
    let len: usize = keys.len();
    if from == len {
        out.push(copy_values(start));
        assert(out.deep_view() =~= before + seq![start.deep_view()]);
    } else {
        let (key, values) = &keys[from];
        assert(rest[0] == all[from as int]);
        assert(rest.skip(1) =~= all.skip(from + 1));
        assert(out.deep_view() =~= before + extensions_by(start.deep_view(), rest, 0));
        for k in 0..values.len()
            invariant
                from < len,
                len == keys@.len(),
                all.len() == keys@.len(),
                forall|i: int|
                    0 <= i < all.len() ==> (#[trigger] all[i]).0 == keys@[i].0@ && all[i].1
                        == keys@[i].1.deep_view(),
                rest == all.skip(from as int),
                rest[0] == all[from as int],
                rest.skip(1) == all.skip(from + 1),
                *key == keys@[from as int].0,
                *values == keys@[from as int].1,
                out.deep_view() == before + extensions_by(start.deep_view(), rest, k as nat),
        {
            let mut next = copy_values(start);
            let name = key.clone();
            let value = values[k].clone();
            proof {
                ordered_map::lemma_deep_set(next.entries(), name@, value);
                assert(rest[0].1[k as int] == values@[k as int]@);
            }
            next.insert(name, value);
            extend(&next, keys, from + 1, out, Ghost(all));
            assert(out.deep_view() =~= before + extensions_by(
                start.deep_view(),
                rest,
                (k + 1) as nat,
            ));
        }
    }
}

/// All combinations of one value for each key. Without keys there is one
/// combination, which is empty.
pub fn cartesian_product(keys: &OrderedMap<Vec<Yaml>>) -> (r: Vec<OrderedMap<Yaml>>)
    ensures
        r.deep_view() == product(keys.deep_view()),
{
    let pairs = keys.pairs();
    let ghost all = keys.deep_view();
    let start: OrderedMap<Yaml> = OrderedMap::new();
    let mut out: Vec<OrderedMap<Yaml>> = Vec::new();
    assert(start.deep_view() =~= seq![]);
    assert(out.deep_view() =~= seq![]);
    assert(all.skip(0) =~= all);
    extend(&start, &pairs, 0, &mut out, Ghost(all));
    assert(out.deep_view() =~= product(all));
    out
}

// ---------------------------------------------------------------------------
// Laws
// ---------------------------------------------------------------------------

/// There are as many combinations as the product of the numbers of values.
pub proof fn law_product_len(keys: Seq<(Seq<char>, Seq<YamlView>)>)
    ensures
        product(keys).len() == product_len(keys),
{
    lemma_extensions_len(seq![], keys);
}

proof fn lemma_extensions_len(
    start: Seq<(Seq<char>, YamlView)>,
    keys: Seq<(Seq<char>, Seq<YamlView>)>,
)
    ensures
        extensions(start, keys).len() == product_len(keys),
    decreases keys.len(), keys[0].1.len() + 1,
{
    if keys.len() > 0 {
        lemma_extensions_by_len(start, keys, keys[0].1.len());
    }
}

proof fn lemma_extensions_by_len(
    start: Seq<(Seq<char>, YamlView)>,
    keys: Seq<(Seq<char>, Seq<YamlView>)>,
    n: nat,
)
    requires
        keys.len() > 0,
    ensures
        extensions_by(start, keys, n).len() == n * product_len(keys.skip(1)),
    decreases keys.len(), n,
{
    let one = product_len(keys.skip(1));
    if n > 0 {
        lemma_extensions_by_len(start, keys, (n - 1) as nat);
        lemma_extensions_len(
            ordered_map::set(start, keys[0].0, keys[0].1[n - 1]),
            keys.skip(1),
        );
        assert(n * one == (n - 1) * one + one) by (nonlinear_arith)
            requires
                n > 0,
        ;
    } else {
        assert(n * one == 0) by (nonlinear_arith)
            requires
                n == 0,
        ;
    }
}

/// The combination gives every key one of its values.
pub open spec fn picks(
    combination: Seq<(Seq<char>, YamlView)>,
    keys: Seq<(Seq<char>, Seq<YamlView>)>,
    choice: Seq<int>,
) -> bool {
    &&& choice.len() == keys.len()
    &&& forall|i: int|
        0 <= i < keys.len() ==> 0 <= #[trigger] choice[i] < keys[i].1.len()
            && ordered_map::lookup(combination, keys[i].0) == Some(keys[i].1[choice[i]])
}

/// Where the combination of a choice stands: the values of the first key count
/// most, those of the last key least.
pub open spec fn place_of(keys: Seq<(Seq<char>, Seq<YamlView>)>, choice: Seq<int>) -> int
    decreases keys.len(),
{
    if keys.len() == 0 {
        0
    } else {
        choice[0] * product_len(keys.skip(1)) + place_of(keys.skip(1), choice.skip(1))
    }
}

/// The combinations are in the order of their choices, the values of the first
/// key varying slowest: each choice has its combination at its own place.
pub proof fn law_choice_stands_at_its_place(
    keys: Seq<(Seq<char>, Seq<YamlView>)>,
    choice: Seq<int>,
)
    requires
        ordered_map::distinct_keys(keys),
        choice.len() == keys.len(),
        forall|i: int| 0 <= i < keys.len() ==> 0 <= #[trigger] choice[i] < keys[i].1.len(),
    ensures
        0 <= place_of(keys, choice) < product(keys).len(),
        picks(product(keys)[place_of(keys, choice)], keys, choice),
{
    lemma_reaches(seq![], keys, choice);
}

/// Every choice of one value for each key is among the combinations.
pub proof fn law_every_choice_is_a_combination(
    keys: Seq<(Seq<char>, Seq<YamlView>)>,
    choice: Seq<int>,
)
    requires
        ordered_map::distinct_keys(keys),
        choice.len() == keys.len(),
        forall|i: int| 0 <= i < keys.len() ==> 0 <= #[trigger] choice[i] < keys[i].1.len(),
    ensures
        exists|j: int|
            0 <= j < product(keys).len() && picks(#[trigger] product(keys)[j], keys, choice),
{
    law_choice_stands_at_its_place(keys, choice);
}

/// Every combination is a choice of one value for each key.
pub proof fn law_every_combination_is_a_choice(keys: Seq<(Seq<char>, Seq<YamlView>)>, j: int)
    requires
        ordered_map::distinct_keys(keys),
        0 <= j < product(keys).len(),
    ensures
        exists|choice: Seq<int>| picks(product(keys)[j], keys, choice),
{
    let choice = lemma_comes_from(seq![], keys, j);
    assert(picks(product(keys)[j], keys, choice));
}

/// What the keys do not name stays as it was.
proof fn lemma_extension_keeps(
    start: Seq<(Seq<char>, YamlView)>,
    keys: Seq<(Seq<char>, Seq<YamlView>)>,
    j: int,
    key: Seq<char>,
)
    requires
        0 <= j < extensions(start, keys).len(),
        forall|i: int| 0 <= i < keys.len() ==> (#[trigger] keys[i]).0 != key,
    ensures
        ordered_map::lookup(extensions(start, keys)[j], key) == ordered_map::lookup(start, key),
    decreases keys.len(),
{
    if keys.len() > 0 {
        let (n, k) = lemma_block(start, keys, keys[0].1.len(), j);
        let next = ordered_map::set(start, keys[0].0, keys[0].1[n]);
        assert forall|i: int| 0 <= i < keys.skip(1).len() implies (#[trigger] keys.skip(1)[i]).0
            != key by {
            assert(keys.skip(1)[i] == keys[i + 1]);
        }
        lemma_extension_keeps(next, keys.skip(1), k, key);
        ordered_map::law_set(start, keys[0].0, keys[0].1[n]);
    }
}

/// Where an extension comes from: which value the first key has in it, and
/// which extension it is among those with that value.
proof fn lemma_block(
    start: Seq<(Seq<char>, YamlView)>,
    keys: Seq<(Seq<char>, Seq<YamlView>)>,
    n: nat,
    j: int,
) -> (r: (int, int))
    requires
        keys.len() > 0,
        0 <= j < extensions_by(start, keys, n).len(),
    ensures
        0 <= r.0 < n,
        0 <= r.1 < extensions(
            ordered_map::set(start, keys[0].0, keys[0].1[r.0]),
            keys.skip(1),
        ).len(),
        extensions_by(start, keys, n)[j] == extensions(
            ordered_map::set(start, keys[0].0, keys[0].1[r.0]),
            keys.skip(1),
        )[r.1],
    decreases n,
{
    let front = extensions_by(start, keys, (n - 1) as nat);
    if j < front.len() {
        lemma_block(start, keys, (n - 1) as nat, j)
    } else {
        (n - 1, j - front.len())
    }
}

/// Where the extensions by a value of the first key stand among all.
proof fn lemma_in_block(
    start: Seq<(Seq<char>, YamlView)>,
    keys: Seq<(Seq<char>, Seq<YamlView>)>,
    n: nat,
    v: int,
    k: int,
)
    requires
        keys.len() > 0,
        0 <= v < n,
        0 <= k < product_len(keys.skip(1)),
    ensures
        0 <= v * product_len(keys.skip(1)) + k < extensions_by(start, keys, n).len(),
        extensions_by(start, keys, n)[v * product_len(keys.skip(1)) + k] == extensions(
            ordered_map::set(start, keys[0].0, keys[0].1[v]),
            keys.skip(1),
        )[k],
    decreases n,
{
    let front = extensions_by(start, keys, (n - 1) as nat);
    let one = product_len(keys.skip(1));
    lemma_extensions_len(ordered_map::set(start, keys[0].0, keys[0].1[n - 1]), keys.skip(1));
    lemma_extensions_by_len(start, keys, (n - 1) as nat);
    if v < n - 1 {
        lemma_in_block(start, keys, (n - 1) as nat, v, k);
    } else {
        assert(0 <= v * one) by (nonlinear_arith)
            requires
                0 <= v,
                0 <= one,
        ;
    }
}

proof fn lemma_first_key_kept(
    start: Seq<(Seq<char>, YamlView)>,
    keys: Seq<(Seq<char>, Seq<YamlView>)>,
    v: int,
    k: int,
)
    requires
        keys.len() > 0,
        ordered_map::distinct_keys(keys),
        0 <= k < extensions(
            ordered_map::set(start, keys[0].0, keys[0].1[v]),
            keys.skip(1),
        ).len(),
    ensures
        ordered_map::lookup(
            extensions(ordered_map::set(start, keys[0].0, keys[0].1[v]), keys.skip(1))[k],
            keys[0].0,
        ) == Some(keys[0].1[v]),
        ordered_map::distinct_keys(keys.skip(1)),
{
    let next = ordered_map::set(start, keys[0].0, keys[0].1[v]);
    ordered_map::law_set(start, keys[0].0, keys[0].1[v]);
    assert forall|i: int| 0 <= i < keys.skip(1).len() implies (#[trigger] keys.skip(1)[i]).0
        != keys[0].0 by {
        assert(keys.skip(1)[i] == keys[i + 1]);
        assert(keys[0].0 != keys[i + 1].0);
    }
    lemma_extension_keeps(next, keys.skip(1), k, keys[0].0);
    assert forall|a: int, b: int| 0 <= a < b < keys.skip(1).len() implies (#[trigger] keys.skip(
        1,
    )[a]).0 != (#[trigger] keys.skip(1)[b]).0 by {
        assert(keys[a + 1].0 != keys[b + 1].0);
    }
}

proof fn lemma_reaches(
    start: Seq<(Seq<char>, YamlView)>,
    keys: Seq<(Seq<char>, Seq<YamlView>)>,
    choice: Seq<int>,
)
    requires
        ordered_map::distinct_keys(keys),
        choice.len() == keys.len(),
        forall|i: int| 0 <= i < keys.len() ==> 0 <= #[trigger] choice[i] < keys[i].1.len(),
    ensures
        0 <= place_of(keys, choice) < extensions(start, keys).len(),
        picks(extensions(start, keys)[place_of(keys, choice)], keys, choice),
    decreases keys.len(),
{
    if keys.len() == 0 {
        assert(picks(extensions(start, keys)[0], keys, choice));
    } else {
        let v = choice[0];
        let next = ordered_map::set(start, keys[0].0, keys[0].1[v]);
        let rest = keys.skip(1);
        let tail = choice.skip(1);
        assert forall|a: int, b: int| 0 <= a < b < rest.len() implies (#[trigger] rest[a]).0 != (
        #[trigger] rest[b]).0 by {
            assert(keys[a + 1].0 != keys[b + 1].0);
        }
        assert forall|i: int| 0 <= i < rest.len() implies 0 <= #[trigger] tail[i]
            < rest[i].1.len() by {
            assert(tail[i] == choice[i + 1]);
        }
        lemma_reaches(next, rest, tail);
        lemma_extensions_len(next, rest);
        let k = place_of(rest, tail);
        lemma_first_key_kept(start, keys, v, k);
        lemma_in_block(start, keys, keys[0].1.len(), v, k);
        let found = extensions(start, keys)[place_of(keys, choice)];
        assert forall|i: int| 0 <= i < keys.len() implies 0 <= #[trigger] choice[i]
            < keys[i].1.len() && ordered_map::lookup(found, keys[i].0) == Some(
            keys[i].1[choice[i]],
        ) by {
            if i > 0 {
                assert(tail[i - 1] == choice[i]);
                assert(rest[i - 1] == keys[i]);
            }
        }
    }
}

proof fn lemma_comes_from(
    start: Seq<(Seq<char>, YamlView)>,
    keys: Seq<(Seq<char>, Seq<YamlView>)>,
    j: int,
) -> (choice: Seq<int>)
    requires
        ordered_map::distinct_keys(keys),
        0 <= j < extensions(start, keys).len(),
    ensures
        picks(extensions(start, keys)[j], keys, choice),
    decreases keys.len(),
{
    if keys.len() == 0 {
        seq![]
    } else {
        let (v, k) = lemma_block(start, keys, keys[0].1.len(), j);
        let next = ordered_map::set(start, keys[0].0, keys[0].1[v]);
        let rest = keys.skip(1);
        lemma_first_key_kept(start, keys, v, k);
        let tail = lemma_comes_from(next, rest, k);
        let choice = seq![v] + tail;
        let found = extensions(start, keys)[j];
        assert forall|i: int| 0 <= i < keys.len() implies 0 <= #[trigger] choice[i]
            < keys[i].1.len() && ordered_map::lookup(found, keys[i].0) == Some(
            keys[i].1[choice[i]],
        ) by {
            if i > 0 {
                assert(choice[i] == tail[i - 1]);
                assert(rest[i - 1] == keys[i]);
            }
        }
        choice
    }
}

/// The combination of a choice is the list of the keys in their order, each with the
/// value that was chosen for it, and nothing else.
pub proof fn law_combination_of_a_choice(
    keys: Seq<(Seq<char>, Seq<YamlView>)>,
    choice: Seq<int>,
)
    requires
        ordered_map::distinct_keys(keys),
        choice.len() == keys.len(),
        forall|i: int| 0 <= i < keys.len() ==> 0 <= #[trigger] choice[i] < keys[i].1.len(),
    ensures
        0 <= place_of(keys, choice) < product(keys).len(),
        product(keys)[place_of(keys, choice)] == Seq::new(
            keys.len(),
            |i: int| (keys[i].0, keys[i].1[choice[i]]),
        ),
{
    let none: Seq<(Seq<char>, YamlView)> = seq![];
    lemma_combination(none, keys, choice);
    assert(none + Seq::new(keys.len(), |i: int| (keys[i].0, keys[i].1[choice[i]])) =~= Seq::new(
        keys.len(),
        |i: int| (keys[i].0, keys[i].1[choice[i]]),
    ));
}

proof fn lemma_combination(
    start: Seq<(Seq<char>, YamlView)>,
    keys: Seq<(Seq<char>, Seq<YamlView>)>,
    choice: Seq<int>,
)
    requires
        ordered_map::distinct_keys(keys),
        choice.len() == keys.len(),
        forall|i: int| 0 <= i < keys.len() ==> 0 <= #[trigger] choice[i] < keys[i].1.len(),
        forall|i: int, j: int|
            0 <= i < keys.len() && 0 <= j < start.len() ==> (#[trigger] keys[i]).0 != (
            #[trigger] start[j]).0,
    ensures
        0 <= place_of(keys, choice) < extensions(start, keys).len(),
        extensions(start, keys)[place_of(keys, choice)] == start + Seq::new(
            keys.len(),
            |i: int| (keys[i].0, keys[i].1[choice[i]]),
        ),
    decreases keys.len(),
{
    let picked = Seq::new(keys.len(), |i: int| (keys[i].0, keys[i].1[choice[i]]));
    if keys.len() == 0 {
        assert(start + picked =~= start);
    } else {
        let v = choice[0];
        let entry = (keys[0].0, keys[0].1[v]);
        let rest = keys.skip(1);
        let tail = choice.skip(1);
        ordered_map::law_lookup(start, entry, keys[0].0);
        ordered_map::law_set_new_key(start, entry.0, entry.1);
        let next = start.push(entry);
        assert forall|a: int, b: int| 0 <= a < b < rest.len() implies (#[trigger] rest[a]).0 != (
        #[trigger] rest[b]).0 by {
            assert(keys[a + 1].0 != keys[b + 1].0);
        }
        assert forall|i: int| 0 <= i < rest.len() implies 0 <= #[trigger] tail[i]
            < rest[i].1.len() by {
            assert(tail[i] == choice[i + 1]);
        }
        assert forall|i: int, j: int| 0 <= i < rest.len() && 0 <= j < next.len() implies (
        #[trigger] rest[i]).0 != (#[trigger] next[j]).0 by {
            assert(rest[i] == keys[i + 1]);
            if j == start.len() {
                assert(keys[0].0 != keys[i + 1].0);
            } else {
                assert(next[j] == start[j]);
            }
        }
        lemma_combination(next, rest, tail);
        lemma_extensions_len(next, rest);
        lemma_in_block(start, keys, keys[0].1.len(), v, place_of(rest, tail));
        let behind = Seq::new(rest.len(), |i: int| (rest[i].0, rest[i].1[tail[i]]));
        assert(start + picked =~= next + behind);
    }
}

} // verus!
