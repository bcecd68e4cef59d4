//! Tables kept as sequences of entries in strictly increasing key order, read
//! as finite maps from key to value.
use vstd::prelude::*;
use crate::text::{lemma_name_lt_asymmetric, lemma_name_lt_irreflexive, lemma_name_lt_total, lemma_name_lt_transitive, name_lt, text_eq, text_less};

verus! {

/// Entries whose keys strictly increase, so no key repeats.
pub open spec fn keyed_sorted<V>(s: Seq<(Seq<char>, V)>) -> bool {
    forall|i: int, j: int| 0 <= i < j < s.len() ==> name_lt(#[trigger] s[i].0, #[trigger] s[j].0)
}

/// Whether some entry has this key.
pub open spec fn has_key<V>(s: Seq<(Seq<char>, V)>, k: Seq<char>) -> bool {
    exists|i: int| 0 <= i < s.len() && (#[trigger] s[i]).0 == k
}

/// The position of some entry with this key.
pub open spec fn key_index<V>(s: Seq<(Seq<char>, V)>, k: Seq<char>) -> int {
    choose|i: int| 0 <= i < s.len() && (#[trigger] s[i]).0 == k
}

/// The map an entry sequence stands for.
pub open spec fn keyed_map<V>(s: Seq<(Seq<char>, V)>) -> Map<Seq<char>, V> {
    Map::new(|k: Seq<char>| has_key(s, k), |k: Seq<char>| s[key_index(s, k)].1)
}

pub proof fn lemma_keyed_distinct<V>(s: Seq<(Seq<char>, V)>, i: int, j: int)
    requires
        keyed_sorted(s),
        0 <= i < s.len(),
        0 <= j < s.len(),
        i != j,
    ensures
        s[i].0 != s[j].0,
{
    if i < j {
        lemma_name_lt_asymmetric(s[i].0, s[j].0);
    } else {
        lemma_name_lt_asymmetric(s[j].0, s[i].0);
    }
}

/// The value the map gives an entry's key is that entry's value.
pub proof fn lemma_keyed_index<V>(s: Seq<(Seq<char>, V)>, i: int)
    requires
        keyed_sorted(s),
        0 <= i < s.len(),
    ensures
        keyed_map(s).contains_key(s[i].0),
        keyed_map(s)[s[i].0] == s[i].1,
{
    let k = s[i].0;
    assert(has_key(s, k));
    let j = key_index(s, k);
    assert(keyed_map(s)[k] == s[j].1);
    if j != i {
        lemma_keyed_distinct(s, i, j);
    }
}

/// Every key of the map is the key of some entry, whose value it gives.
pub proof fn lemma_keyed_lookup<V>(s: Seq<(Seq<char>, V)>, k: Seq<char>) -> (i: int)
    requires
        keyed_sorted(s),
        keyed_map(s).contains_key(k),
    ensures
        0 <= i < s.len(),
        s[i].0 == k,
        keyed_map(s)[k] == s[i].1,
{
    let i = key_index(s, k);
    lemma_keyed_index(s, i);
    i
}

/// Replacing an entry's value changes the map at that key only.
pub proof fn lemma_keyed_update<V>(s: Seq<(Seq<char>, V)>, i: int, v: V)
    requires
        keyed_sorted(s),
        0 <= i < s.len(),
    ensures
        keyed_sorted(s.update(i, (s[i].0, v))),
        keyed_map(s.update(i, (s[i].0, v))) == keyed_map(s).insert(s[i].0, v),
{
    let t = s.update(i, (s[i].0, v));
    assert(keyed_sorted(t)) by {
        assert forall|a: int, b: int| 0 <= a < b < t.len() implies name_lt(#[trigger] t[a].0, #[trigger] t[b].0) by {
            assert(t[a].0 == s[a].0);
            assert(t[b].0 == s[b].0);
        }
    }
    let m = keyed_map(s).insert(s[i].0, v);
    assert forall|k: Seq<char>| #[trigger] keyed_map(t).contains_key(k) <==> m.contains_key(k) by {
        if has_key(t, k) {
            let j = choose|j: int| 0 <= j < t.len() && (#[trigger] t[j]).0 == k;
            assert(s[j].0 == k);
            assert(has_key(s, k));
        }
        if has_key(s, k) {
            let j = choose|j: int| 0 <= j < s.len() && (#[trigger] s[j]).0 == k;
            assert(t[j].0 == k);
            assert(has_key(t, k));
        }
    }
    assert forall|k: Seq<char>| #[trigger] keyed_map(t).contains_key(k) implies keyed_map(t)[k] == m[k] by {
        let j = lemma_keyed_lookup(t, k);
        if j == i {
        } else {
            lemma_keyed_distinct(t, i, j);
            lemma_keyed_index(s, j);
        }
    }
    assert(keyed_map(t) =~= m);
}

/// Inserting an entry at its place in the order adds its key to the map.
pub proof fn lemma_keyed_insert<V>(s: Seq<(Seq<char>, V)>, i: int, k: Seq<char>, v: V)
    requires
        keyed_sorted(s),
        0 <= i <= s.len(),
        forall|a: int| 0 <= a < i ==> name_lt(#[trigger] s[a].0, k),
        forall|a: int| i <= a < s.len() ==> name_lt(k, #[trigger] s[a].0),
    ensures
        keyed_sorted(s.insert(i, (k, v))),
        keyed_map(s.insert(i, (k, v))) == keyed_map(s).insert(k, v),
        !keyed_map(s).contains_key(k),
{
    let t = s.insert(i, (k, v));
    assert(keyed_sorted(t)) by {
        assert forall|a: int, b: int| 0 <= a < b < t.len() implies name_lt(#[trigger] t[a].0, #[trigger] t[b].0) by {
            if a < i && b < i {
            } else if a < i && b == i {
            } else if a < i && b > i {
                assert(t[b] == s[b - 1]);
                lemma_name_lt_transitive(s[a].0, k, s[b - 1].0);
            } else if a == i {
                assert(t[b] == s[b - 1]);
            } else {
                assert(t[a] == s[a - 1]);
                assert(t[b] == s[b - 1]);
            }
        }
    }
    assert(!has_key(s, k)) by {
        if has_key(s, k) {
            let j = choose|j: int| 0 <= j < s.len() && (#[trigger] s[j]).0 == k;
            lemma_name_lt_irreflexive(k);
        }
    }
    let m = keyed_map(s).insert(k, v);
    assert forall|q: Seq<char>| #[trigger] keyed_map(t).contains_key(q) <==> m.contains_key(q) by {
        if has_key(t, q) {
            let j = choose|j: int| 0 <= j < t.len() && (#[trigger] t[j]).0 == q;
            if j < i {
                assert(s[j].0 == q);
            } else if j > i {
                assert(s[j - 1].0 == q);
            }
        }
        if has_key(s, q) {
            let j = choose|j: int| 0 <= j < s.len() && (#[trigger] s[j]).0 == q;
            if j < i {
                assert(t[j].0 == q);
            } else {
                assert(t[j + 1].0 == q);
            }
        }
        if q == k {
            assert(t[i].0 == q);
        }
    }
    assert forall|q: Seq<char>| #[trigger] keyed_map(t).contains_key(q) implies keyed_map(t)[q] == m[q] by {
        let j = lemma_keyed_lookup(t, q);
        if j < i {
            lemma_keyed_index(s, j);
        } else if j > i {
            lemma_keyed_index(s, j - 1);
        }
    }
    assert(keyed_map(t) =~= m);
}

/// Removing an entry removes its key from the map.
pub proof fn lemma_keyed_remove<V>(s: Seq<(Seq<char>, V)>, i: int)
    requires
        keyed_sorted(s),
        0 <= i < s.len(),
    ensures
        keyed_sorted(s.remove(i)),
        keyed_map(s.remove(i)) == keyed_map(s).remove(s[i].0),
{
    let t = s.remove(i);
    let k = s[i].0;
    assert(keyed_sorted(t)) by {
        assert forall|a: int, b: int| 0 <= a < b < t.len() implies name_lt(#[trigger] t[a].0, #[trigger] t[b].0) by {
            if a < i && b < i {
            } else if a < i {
                assert(t[b] == s[b + 1]);
            } else {
                assert(t[a] == s[a + 1]);
                assert(t[b] == s[b + 1]);
            }
        }
    }
    let m = keyed_map(s).remove(k);
    assert forall|q: Seq<char>| #[trigger] keyed_map(t).contains_key(q) <==> m.contains_key(q) by {
        if has_key(t, q) {
            let j = choose|j: int| 0 <= j < t.len() && (#[trigger] t[j]).0 == q;
            if j < i {
                assert(s[j].0 == q);
                lemma_keyed_distinct(s, i, j);
            } else {
                assert(s[j + 1].0 == q);
                lemma_keyed_distinct(s, i, j + 1);
            }
            assert(has_key(s, q));
        }
        if has_key(s, q) && q != k {
            let j = choose|j: int| 0 <= j < s.len() && (#[trigger] s[j]).0 == q;
            if j < i {
                assert(t[j].0 == q);
            } else {
                assert(j != i);
                assert(t[j - 1].0 == q);
            }
        }
    }
    assert forall|q: Seq<char>| #[trigger] keyed_map(t).contains_key(q) implies keyed_map(t)[q] == m[q] by {
        let j = lemma_keyed_lookup(t, q);
        if j < i {
            lemma_keyed_index(s, j);
        } else {
            lemma_keyed_index(s, j + 1);
        }
    }
    assert(keyed_map(t) =~= m);
}

/// The empty table is the empty map.
pub proof fn lemma_keyed_empty<V>(s: Seq<(Seq<char>, V)>)
    requires
        s.len() == 0,
    ensures
        keyed_sorted(s),
        keyed_map(s) == Map::<Seq<char>, V>::empty(),
{
    assert(keyed_map(s) =~= Map::<Seq<char>, V>::empty());
}

} // verus!

verus! {

/// `out` lists, in order, the keys of the first `i` entries whose values
/// satisfy `pred`; `idx` says which entry each came from.
pub open spec fn selection<V>(
    e: Seq<(Seq<char>, V)>,
    pred: spec_fn(V) -> bool,
    i: int,
    out: Seq<Seq<char>>,
    idx: Seq<int>,
) -> bool {
    &&& 0 <= i <= e.len()
    &&& out.len() == idx.len()
    &&& forall|j: int| 0 <= j < idx.len() ==> 0 <= #[trigger] idx[j] < i
    &&& forall|j: int, l: int| 0 <= j < l < idx.len() ==> #[trigger] idx[j] < #[trigger] idx[l]
    &&& forall|j: int| 0 <= j < idx.len() ==> #[trigger] out[j] == e[idx[j]].0 && pred(e[idx[j]].1)
    &&& forall|k: int| 0 <= k < i && pred(#[trigger] e[k].1) ==> exists|j: int| 0 <= j < idx.len() && idx[j] == k
}

/// Nothing selected from no entries.
pub proof fn lemma_selection_start<V>(e: Seq<(Seq<char>, V)>, pred: spec_fn(V) -> bool)
    ensures
        selection(e, pred, 0, Seq::empty(), Seq::empty()),
{
}

/// Looking at one more entry: keep it if it satisfies `pred`.
pub proof fn lemma_selection_step<V>(
    e: Seq<(Seq<char>, V)>,
    pred: spec_fn(V) -> bool,
    i: int,
    out: Seq<Seq<char>>,
    idx: Seq<int>,
)
    requires
        selection(e, pred, i, out, idx),
        i < e.len(),
    ensures
        pred(e[i].1) ==> selection(e, pred, i + 1, out.push(e[i].0), idx.push(i)),
        !pred(e[i].1) ==> selection(e, pred, i + 1, out, idx),
{
    if pred(e[i].1) {
        let o2 = out.push(e[i].0);
        let i2 = idx.push(i);
        assert forall|k: int| 0 <= k < i + 1 && pred(#[trigger] e[k].1) implies exists|j: int|
            0 <= j < i2.len() && i2[j] == k by {
            if k == i {
                assert(i2[idx.len() as int] == k);
            } else {
                let j = choose|j: int| 0 <= j < idx.len() && idx[j] == k;
                assert(i2[j] == k);
            }
        }
        assert forall|j: int| 0 <= j < i2.len() implies #[trigger] o2[j] == e[i2[j]].0 && pred(e[i2[j]].1) by {
            if j < idx.len() {
                assert(o2[j] == out[j]);
                assert(i2[j] == idx[j]);
            }
        }
    }
}

/// A completed selection lists exactly the keys whose values satisfy `pred`,
/// in key order.
pub proof fn lemma_selection_done<V>(
    e: Seq<(Seq<char>, V)>,
    pred: spec_fn(V) -> bool,
    out: Seq<Seq<char>>,
    idx: Seq<int>,
)
    requires
        keyed_sorted(e),
        selection(e, pred, e.len() as int, out, idx),
    ensures
        crate::text::names_sorted(out),
        forall|n: Seq<char>| out.contains(n) <==> (keyed_map(e).contains_key(n) && pred(keyed_map(e)[n])),
{
    assert forall|a: int, b: int| 0 <= a < b < out.len() implies crate::text::name_lt(#[trigger] out[a], #[trigger] out[b]) by {
        assert(idx[a] < idx[b]);
        assert(out[a] == e[idx[a]].0);
        assert(out[b] == e[idx[b]].0);
    }
    assert forall|n: Seq<char>| out.contains(n) <==> (keyed_map(e).contains_key(n) && pred(keyed_map(e)[n])) by {
        if out.contains(n) {
            let j = choose|j: int| 0 <= j < out.len() && out[j] == n;
            assert(out[j] == e[idx[j]].0 && pred(e[idx[j]].1));
            lemma_keyed_index(e, idx[j]);
        }
        if keyed_map(e).contains_key(n) && pred(keyed_map(e)[n]) {
            let k = lemma_keyed_lookup(e, n);
            assert(pred(e[k].1));
            let j = choose|j: int| 0 <= j < idx.len() && idx[j] == k;
            assert(out[j] == n);
        }
    }
}

/// Keeping, in order, exactly the entries whose values satisfy `pred` keeps
/// the table sorted and restricts its map to those entries.
pub proof fn lemma_keyed_keep<V>(e: Seq<(Seq<char>, V)>, kept: Seq<(Seq<char>, V)>, idx: Seq<int>, pred: spec_fn(V) -> bool)
    requires
        keyed_sorted(e),
        kept.len() == idx.len(),
        forall|j: int| 0 <= j < idx.len() ==> 0 <= #[trigger] idx[j] < e.len(),
        forall|j: int, l: int| 0 <= j < l < idx.len() ==> #[trigger] idx[j] < #[trigger] idx[l],
        forall|j: int| 0 <= j < idx.len() ==> #[trigger] kept[j] == e[idx[j]] && pred(e[idx[j]].1),
        forall|k: int| 0 <= k < e.len() && pred(#[trigger] e[k].1) ==> exists|j: int| 0 <= j < idx.len() && idx[j] == k,
    ensures
        keyed_sorted(kept),
        forall|n: Seq<char>| #[trigger] keyed_map(kept).contains_key(n) <==> (keyed_map(e).contains_key(n) && pred(keyed_map(e)[n])),
        forall|n: Seq<char>| #[trigger] keyed_map(kept).contains_key(n) ==> keyed_map(kept)[n] == keyed_map(e)[n],
{
    assert forall|a: int, b: int| 0 <= a < b < kept.len() implies name_lt(#[trigger] kept[a].0, #[trigger] kept[b].0) by {
        assert(idx[a] < idx[b]);
        assert(kept[a] == e[idx[a]]);
        assert(kept[b] == e[idx[b]]);
    }
    assert forall|n: Seq<char>| #[trigger] keyed_map(kept).contains_key(n) implies keyed_map(e).contains_key(n) && pred(keyed_map(e)[n])
        && keyed_map(kept)[n] == keyed_map(e)[n] by {
        let j = lemma_keyed_lookup(kept, n);
        assert(kept[j] == e[idx[j]]);
        lemma_keyed_index(e, idx[j]);
        lemma_keyed_index(kept, j);
    }
    assert forall|n: Seq<char>| keyed_map(e).contains_key(n) && pred(keyed_map(e)[n]) implies #[trigger] keyed_map(kept).contains_key(n) by {
        let k = lemma_keyed_lookup(e, n);
        lemma_keyed_index(e, k);
        let j = choose|j: int| 0 <= j < idx.len() && idx[j] == k;
        assert(kept[j] == e[k]);
        lemma_keyed_index(kept, j);
    }
}

/// A table of named values, read through the names' views.
pub open spec fn table_view<V>(t: Seq<(String, V)>) -> Seq<(Seq<char>, V)> {
    t.map_values(|e: (String, V)| (e.0@, e.1))
}

/// Whether a table has an entry called `name`.
pub fn table_has<V>(table: &Vec<(String, V)>, name: &str) -> (r: bool)
    ensures
        r == has_key(table_view(table@), name@),
{
    let ghost view = table_view(table@);
    let mut k: usize = 0;
    while k < table.len()
        invariant
            k <= table@.len(),
            view == table_view(table@),
            forall|j: int| 0 <= j < k ==> (#[trigger] view[j]).0 != name@,
        decreases table@.len() - k,
    {
        if text_eq(table[k].0.as_str(), name) {
            proof {
                assert(view[k as int].0 == name@);
            }
            return true;
        }
        k = k + 1;
    }
    false
}

/// Set `name` to `value` in a table kept in name order.
pub fn place<V>(table: &mut Vec<(String, V)>, name: String, value: V)
    requires
        keyed_sorted(table_view(old(table)@)),
    ensures
        keyed_sorted(table_view(final(table)@)),
        keyed_map(table_view(final(table)@)) == keyed_map(table_view(old(table)@)).insert(name@, value),
{
    let ghost s = table_view(table@);
    let mut i: usize = 0;
    while i < table.len() && text_less(table[i].0.as_str(), name.as_str())
        invariant
            i <= table@.len(),
            s == table_view(table@),
            keyed_sorted(s),
            forall|a: int| 0 <= a < i ==> name_lt(#[trigger] s[a].0, name@),
        decreases table@.len() - i,
    {
        i = i + 1;
    }
    let ghost k = name@;
    if i < table.len() && text_eq(table[i].0.as_str(), name.as_str()) {
        table.remove(i);
        table.insert(i, (name, value));
        proof {
            assert(table_view(table@) =~= s.update(i as int, (s[i as int].0, value)));
            lemma_keyed_update(s, i as int, value);
        }
    } else {
        proof {
            if i < s.len() {
                lemma_name_lt_total(s[i as int].0, k);
                assert forall|a: int| i <= a < s.len() implies name_lt(k, #[trigger] s[a].0) by {
                    if a > i {
                        lemma_name_lt_transitive(k, s[i as int].0, s[a].0);
                    }
                }
            }
        }
        table.insert(i, (name, value));
        proof {
            assert(table_view(table@) =~= s.insert(i as int, (k, value)));
            lemma_keyed_insert(s, i as int, k, value);
        }
    }
}

/// The names of a list, as text.
pub open spec fn names_view(names: Seq<String>) -> Seq<Seq<char>> {
    names.map_values(|n: String| n@)
}

/// Whether one of `names` is `name`.
pub fn names_contain(names: &Vec<String>, name: &str) -> (r: bool)
    ensures
        r == names_view(names@).contains(name@),
{
    let ghost v = names_view(names@);
    let mut k: usize = 0;
    while k < names.len()
        invariant
            k <= names@.len(),
            v == names_view(names@),
            forall|j: int| 0 <= j < k ==> (#[trigger] v[j]) != name@,
        decreases names@.len() - k,
    {
        if text_eq(names[k].as_str(), name) {
            proof {
                assert(v[k as int] == name@);
            }
            return true;
        }
        k = k + 1;
    }
    false
}

} // verus!
