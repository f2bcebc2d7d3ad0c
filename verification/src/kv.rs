//! String-keyed association lists and the maps they denote, shared by the
//! plugin's pod and container tables.

use vstd::prelude::*;

verus! {

/// The map a key-value list denotes, later entries winning.
pub open spec fn kv_map<V>(s: Seq<(String, V)>) -> Map<Seq<char>, V>
    decreases s.len(),
{
    if s.len() == 0 {
        Map::empty()
    } else {
        kv_map(s.drop_last()).insert(s.last().0@, s.last().1)
    }
}

/// Each key occurs at most once.
pub open spec fn kv_wf<V>(s: Seq<(String, V)>) -> bool {
    forall|i: int, j: int| 0 <= i < j < s.len() ==> (#[trigger] s[i]).0@ != (#[trigger] s[j]).0@
}

pub proof fn lemma_kv_contains<V>(s: Seq<(String, V)>, k: Seq<char>)
    ensures
        kv_map(s).contains_key(k) <==> exists|i: int|
            0 <= i < s.len() && (#[trigger] s[i]).0@ == k,
    decreases s.len(),
{
    if s.len() > 0 {
        lemma_kv_contains(s.drop_last(), k);
        if s.last().0@ == k {
            assert((s[s.len() - 1]).0@ == k);
        } else if kv_map(s).contains_key(k) {
            let i = choose|i: int|
                0 <= i < s.drop_last().len() && (#[trigger] s.drop_last()[i]).0@ == k;
            assert((s[i]).0@ == k);
        } else {
            if exists|i: int| 0 <= i < s.len() && (#[trigger] s[i]).0@ == k {
                let i = choose|i: int| 0 <= i < s.len() && (#[trigger] s[i]).0@ == k;
                assert((s.drop_last()[i]).0@ == k);
            }
        }
    }
}

pub proof fn lemma_kv_index<V>(s: Seq<(String, V)>, i: int)
    requires
        kv_wf(s),
        0 <= i < s.len(),
    ensures
        kv_map(s).contains_key(s[i].0@),
        kv_map(s)[s[i].0@] == s[i].1,
    decreases s.len(),
{
    if i == s.len() - 1 {
    } else {
        lemma_kv_index(s.drop_last(), i);
        assert(s.drop_last()[i] == s[i]);
        assert(s.last().0@ != s[i].0@) by {
            assert((s[s.len() - 1]).0@ != (s[i]).0@);
        }
    }
}

/// Appending a fresh key inserts it into the map.
pub proof fn lemma_kv_push<V>(s: Seq<(String, V)>, k: String, v: V)
    requires
        kv_wf(s),
        !kv_map(s).contains_key(k@),
    ensures
        kv_wf(s.push((k, v))),
        kv_map(s.push((k, v))) == kv_map(s).insert(k@, v),
{
    assert(s.push((k, v)).drop_last() =~= s);
    lemma_kv_contains(s, k@);
    assert forall|a: int, b: int| 0 <= a < b < s.push((k, v)).len() implies (#[trigger] s.push(
        (k, v),
    )[a]).0@ != (#[trigger] s.push((k, v))[b]).0@ by {
        if b < s.len() {
            assert(s[a].0@ != s[b].0@);
        } else {
            assert(s.push((k, v))[b] == (k, v));
            assert(s.push((k, v))[a] == s[a]);
        }
    }
}

/// The list without entry `i` denotes the map without that key.
pub proof fn lemma_kv_remove<V>(s: Seq<(String, V)>, i: int)
    requires
        kv_wf(s),
        0 <= i < s.len(),
    ensures
        kv_wf(s.remove(i)),
        kv_map(s.remove(i)) == kv_map(s).remove(s[i].0@),
    decreases s.len(),
{
    assert forall|a: int, b: int| 0 <= a < b < s.remove(i).len() implies (#[trigger] s.remove(
        i,
    )[a]).0@ != (#[trigger] s.remove(i)[b]).0@ by {
        let a0 = if a < i {
            a
        } else {
            a + 1
        };
        let b0 = if b < i {
            b
        } else {
            b + 1
        };
        assert(s.remove(i)[a] == s[a0]);
        assert(s.remove(i)[b] == s[b0]);
        assert(s[a0].0@ != s[b0].0@);
    }
    if i == s.len() - 1 {
        assert(s.remove(i) =~= s.drop_last());
        lemma_kv_contains(s.drop_last(), s[i].0@);
        assert(!kv_map(s.drop_last()).contains_key(s[i].0@)) by {
            if exists|j: int| 0 <= j < s.drop_last().len() && (#[trigger] s.drop_last()[j]).0@
                == s[i].0@ {
                let j = choose|j: int|
                    0 <= j < s.drop_last().len() && (#[trigger] s.drop_last()[j]).0@ == s[i].0@;
                assert((s[j]).0@ == s[i].0@);
            }
        }
        assert(kv_map(s.remove(i)) =~= kv_map(s).remove(s[i].0@));
    } else {
        lemma_kv_remove(s.drop_last(), i);
        assert(s.drop_last()[i] == s[i]);
        assert(s.remove(i).drop_last() =~= s.drop_last().remove(i));
        assert(s.remove(i).last() == s.last());
        assert(s.last().0@ != s[i].0@) by {
            assert((s[s.len() - 1]).0@ != (s[i]).0@);
        }
        assert(kv_map(s.remove(i)) =~= kv_map(s).remove(s[i].0@));
    }
}

/// The entries whose value satisfies `f`, order kept.
pub open spec fn kv_filter<V>(s: Seq<(String, V)>, f: spec_fn(V) -> bool) -> Seq<(String, V)>
    decreases s.len(),
{
    if s.len() == 0 {
        s
    } else if f(s.last().1) {
        kv_filter(s.drop_last(), f).push(s.last())
    } else {
        kv_filter(s.drop_last(), f)
    }
}

/// Filtering keeps well-formedness and restricts the map to the kept
/// values.
pub proof fn lemma_kv_filter<V>(s: Seq<(String, V)>, f: spec_fn(V) -> bool)
    requires
        kv_wf(s),
    ensures
        kv_wf(kv_filter(s, f)),
        forall|k: Seq<char>|
            kv_map(kv_filter(s, f)).contains_key(k) <==> (#[trigger] kv_map(s).contains_key(k)
                && f(kv_map(s)[k])),
        forall|k: Seq<char>|
            #[trigger] kv_map(kv_filter(s, f)).contains_key(k) ==> kv_map(kv_filter(s, f))[k]
                == kv_map(s)[k],
    decreases s.len(),
{
    if s.len() > 0 {
        assert forall|i: int, j: int|
            0 <= i < j < s.drop_last().len() implies (#[trigger] s.drop_last()[i]).0@ != (
        #[trigger] s.drop_last()[j]).0@ by {
            assert(s[i].0@ != s[j].0@);
        }
        lemma_kv_filter(s.drop_last(), f);
        lemma_kv_contains(s.drop_last(), s.last().0@);
        assert(!kv_map(s.drop_last()).contains_key(s.last().0@)) by {
            if exists|i: int|
                0 <= i < s.drop_last().len() && (#[trigger] s.drop_last()[i]).0@ == s.last().0@ {
                let i = choose|i: int|
                    0 <= i < s.drop_last().len() && (#[trigger] s.drop_last()[i]).0@
                        == s.last().0@;
                assert(s[i].0@ == s[s.len() - 1].0@);
            }
        }
        if f(s.last().1) {
            let base = kv_filter(s.drop_last(), f);
            lemma_kv_contains(base, s.last().0@);
            assert(!kv_map(base).contains_key(s.last().0@)) by {
                if kv_map(base).contains_key(s.last().0@) {
                    assert(kv_map(s.drop_last()).contains_key(s.last().0@));
                }
            }
            lemma_kv_push(base, s.last().0, s.last().1);
            assert(base.push((s.last().0, s.last().1)) =~= kv_filter(s, f));
            assert forall|a: int, b: int|
                0 <= a < b < kv_filter(s, f).len() implies (#[trigger] kv_filter(s, f)[a]).0@
                != (#[trigger] kv_filter(s, f)[b]).0@ by {
                assert(kv_wf(base.push((s.last().0, s.last().1))));
            }
        }
    }
}

/// Index of the entry holding `key`, if any.
pub fn kv_find<V>(v: &Vec<(String, V)>, key: &String) -> (r: Option<usize>)
    requires
        kv_wf(v@),
    ensures
        match r {
            Some(i) => i < v@.len() && v@[i as int].0@ == key@ && kv_map(v@).contains_key(key@)
                && kv_map(v@)[key@] == v@[i as int].1,
            None => !kv_map(v@).contains_key(key@),
        },
{
    let n = v.len();
    let mut i: usize = 0;
    while i < n
        invariant
            i <= n,
            n == v@.len(),
            kv_wf(v@),
            forall|j: int| 0 <= j < i ==> (#[trigger] v@[j]).0@ != key@,
        decreases n - i,
    {
        if v[i].0.eq(key) {
            proof {
                lemma_kv_index(v@, i as int);
            }
            return Some(i);
        }
        i += 1;
    }
    proof {
        lemma_kv_contains(v@, key@);
    }
    None
}

} // verus!
