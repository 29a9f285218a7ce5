//! Association lists with string keys: the finite-map semantics of a
//! sequence of key/value pairs, and the lemmas that relate pushing and
//! removing entries to `Map` insertion and removal.

use vstd::prelude::*;

verus! {

/// The finite map denoted by a sequence of key/value pairs, later entries
/// overriding earlier ones.
pub open spec fn kv_map<V>(s: Seq<(Seq<char>, V)>) -> Map<Seq<char>, V>
    decreases s.len(),
{
    if s.len() == 0 {
        Map::empty()
    } else {
        kv_map(s.drop_last()).insert(s.last().0, s.last().1)
    }
}

/// No key occurs at two positions.
pub open spec fn kv_distinct<V>(s: Seq<(Seq<char>, V)>) -> bool {
    forall|i: int, j: int|
        #![trigger s[i].0, s[j].0]
        0 <= i < j < s.len() ==> s[i].0 != s[j].0
}

pub proof fn lemma_kv_distinct_prefix<V>(s: Seq<(Seq<char>, V)>)
    requires
        kv_distinct(s),
        s.len() > 0,
    ensures
        kv_distinct(s.drop_last()),
{
    assert forall|i: int, j: int|
        0 <= i < j < s.drop_last().len() implies (#[trigger] s.drop_last()[i].0) != (
    #[trigger] s.drop_last()[j].0) by {
        assert(s.drop_last()[i] == s[i]);
        assert(s.drop_last()[j] == s[j]);
    }
}

/// A key is in the map exactly when some entry carries it.
pub proof fn lemma_kv_dom<V>(s: Seq<(Seq<char>, V)>, k: Seq<char>)
    ensures
        kv_map(s).contains_key(k) <==> exists|i: int| 0 <= i < s.len() && s[i].0 == k,
    decreases s.len(),
{
    if s.len() > 0 {
        lemma_kv_dom(s.drop_last(), k);
        if s.last().0 == k {
            assert(s[s.len() - 1].0 == k);
        } else {
            if kv_map(s).contains_key(k) {
                let i = choose|i: int| 0 <= i < s.drop_last().len() && s.drop_last()[i].0 == k;
                assert(s[i].0 == k);
            }
            if exists|i: int| 0 <= i < s.len() && s[i].0 == k {
                let i = choose|i: int| 0 <= i < s.len() && s[i].0 == k;
                assert(s.drop_last()[i].0 == k);
            }
        }
    }
}

/// With distinct keys, each entry's key maps to that entry's value.
pub proof fn lemma_kv_index<V>(s: Seq<(Seq<char>, V)>, i: int)
    requires
        kv_distinct(s),
        0 <= i < s.len(),
    ensures
        kv_map(s).contains_key(s[i].0),
        kv_map(s)[s[i].0] == s[i].1,
    decreases s.len(),
{
    if i < s.len() - 1 {
        lemma_kv_distinct_prefix(s);
        lemma_kv_index(s.drop_last(), i);
        assert(s.drop_last()[i] == s[i]);
        assert(s.last().0 != s[i].0);
    }
}

/// Appending an entry inserts its binding.
pub proof fn lemma_kv_push<V>(s: Seq<(Seq<char>, V)>, kv: (Seq<char>, V))
    ensures
        kv_map(s.push(kv)) == kv_map(s).insert(kv.0, kv.1),
{
    assert(s.push(kv).drop_last() =~= s);
    assert(s.push(kv).last() == kv);
}

/// Removing an entry removes its binding, and keeps the keys distinct.
pub proof fn lemma_kv_remove<V>(s: Seq<(Seq<char>, V)>, i: int)
    requires
        kv_distinct(s),
        0 <= i < s.len(),
    ensures
        kv_map(s.remove(i)) == kv_map(s).remove(s[i].0),
        kv_distinct(s.remove(i)),
    decreases s.len(),
{
    assert forall|p: int, q: int|
        0 <= p < q < s.remove(i).len() implies (#[trigger] s.remove(i)[p].0) != (
    #[trigger] s.remove(i)[q].0) by {
        let p0: int = if p < i {
            p
        } else {
            p + 1
        };
        let q0: int = if q < i {
            q
        } else {
            q + 1
        };
        assert(s.remove(i)[p] == s[p0]);
        assert(s.remove(i)[q] == s[q0]);
        assert(s[p0].0 != s[q0].0);
    }
    if i == s.len() - 1 {
        assert(s.remove(i) =~= s.drop_last());
        lemma_kv_distinct_prefix(s);
        lemma_kv_dom(s.drop_last(), s[i].0);
        assert forall|j: int| 0 <= j < s.drop_last().len() implies (#[trigger] s.drop_last()[j].0)
            != s[i].0 by {
            assert(s.drop_last()[j] == s[j]);
            assert(s[j].0 != s[i].0);
        }
        assert(!kv_map(s.drop_last()).contains_key(s[i].0));
        assert(kv_map(s.remove(i)) =~= kv_map(s).remove(s[i].0));
    } else {
        lemma_kv_distinct_prefix(s);
        lemma_kv_remove(s.drop_last(), i);
        assert(s.remove(i).drop_last() =~= s.drop_last().remove(i));
        assert(s.remove(i).last() == s.last());
        assert(s.last().0 != s[i].0);
        assert(s.drop_last()[i] == s[i]);
        assert(kv_map(s.remove(i)) =~= kv_map(s).remove(s[i].0));
    }
}

/// With distinct keys the map's domain is as large as the list.
pub proof fn lemma_kv_len<V>(s: Seq<(Seq<char>, V)>)
    requires
        kv_distinct(s),
    ensures
        kv_map(s).dom().finite(),
        kv_map(s).dom().len() == s.len(),
    decreases s.len(),
{
    if s.len() > 0 {
        lemma_kv_distinct_prefix(s);
        lemma_kv_len(s.drop_last());
        lemma_kv_dom(s.drop_last(), s.last().0);
        assert forall|j: int| 0 <= j < s.drop_last().len() implies (#[trigger] s.drop_last()[j].0)
            != s.last().0 by {
            assert(s.drop_last()[j] == s[j]);
            assert(s[j].0 != s[s.len() - 1].0);
        }
        assert(!kv_map(s.drop_last()).contains_key(s.last().0));
    }
}

/// The storage units held by a list of entries: each entry costs its key's
/// length plus whatever `f` assigns to its value.
pub open spec fn units_sum<V>(s: Seq<(Seq<char>, V)>, f: spec_fn(V) -> int) -> int
    decreases s.len(),
{
    if s.len() == 0 {
        0
    } else {
        units_sum(s.drop_last(), f) + s.last().0.len() + f(s.last().1)
    }
}

pub proof fn lemma_units_sum_push<V>(s: Seq<(Seq<char>, V)>, kv: (Seq<char>, V), f: spec_fn(V) -> int)
    ensures
        units_sum(s.push(kv), f) == units_sum(s, f) + kv.0.len() + f(kv.1),
{
    assert(s.push(kv).drop_last() =~= s);
    assert(s.push(kv).last() == kv);
}

pub proof fn lemma_units_sum_remove<V>(s: Seq<(Seq<char>, V)>, i: int, f: spec_fn(V) -> int)
    requires
        0 <= i < s.len(),
    ensures
        units_sum(s.remove(i), f) == units_sum(s, f) - s[i].0.len() - f(s[i].1),
    decreases s.len(),
{
    if i == s.len() - 1 {
        assert(s.remove(i) =~= s.drop_last());
    } else {
        lemma_units_sum_remove(s.drop_last(), i, f);
        assert(s.remove(i).drop_last() =~= s.drop_last().remove(i));
        assert(s.remove(i).last() == s.last());
        assert(s.drop_last()[i] == s[i]);
    }
}

/// Position of the first entry with the given key, if any.
pub fn find_idx<V>(v: &Vec<(String, V)>, key: &String) -> (r: Option<usize>)
    ensures
        match r {
            Some(i) => i < v@.len() && v@[i as int].0@ == key@,
            None => forall|j: int| 0 <= j < v@.len() ==> v@[j].0@ != key@,
        },
{
    let mut j: usize = 0;
    while j < v.len()
        invariant
            j <= v@.len(),
            forall|k: int| 0 <= k < j ==> v@[k].0@ != key@,
        decreases v@.len() - j,
    {
        if v[j].0 == *key {
            return Some(j);
        }
        j += 1;
    }
    None
}

/// Position of the first occurrence of a string in a list, if any.
pub fn find_pos(v: &Vec<String>, x: &String) -> (r: Option<usize>)
    ensures
        match r {
            Some(i) => i < v@.len() && v@[i as int]@ == x@,
            None => forall|j: int| 0 <= j < v@.len() ==> v@[j]@ != x@,
        },
{
    let mut j: usize = 0;
    while j < v.len()
        invariant
            j <= v@.len(),
            forall|k: int| 0 <= k < j ==> v@[k]@ != x@,
        decreases v@.len() - j,
    {
        if v[j] == *x {
            return Some(j);
        }
        j += 1;
    }
    None
}

} // verus!
