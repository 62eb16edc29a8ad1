//! Lists of entries keyed by name, seen as maps.
use vstd::prelude::*;
use crate::text::str_eq;

verus! {

/// No two entries share a key.
pub open spec fn keys_unique<V>(s: Seq<(Seq<char>, V)>) -> bool {
    forall|i: int, j: int| 0 <= i < s.len() && 0 <= j < s.len() && i != j ==> (#[trigger] s[i]).0 != (#[trigger] s[j]).0
}

/// Some entry has the key.
pub open spec fn has_key<V>(s: Seq<(Seq<char>, V)>, k: Seq<char>) -> bool {
    exists|i: int| 0 <= i < s.len() && (#[trigger] s[i]).0 == k
}

/// The map from each key to the value of its entry.
pub open spec fn keyed<V>(s: Seq<(Seq<char>, V)>) -> Map<Seq<char>, V> {
    Map::new(
        |k: Seq<char>| has_key(s, k),
        |k: Seq<char>| s[choose|i: int| 0 <= i < s.len() && (#[trigger] s[i]).0 == k].1,
    )
}

/// The map holds each entry of a list whose keys are unique.
pub proof fn lemma_keyed_index<V>(s: Seq<(Seq<char>, V)>, i: int)
    requires
        keys_unique(s),
        0 <= i < s.len(),
    ensures
        keyed(s).contains_key(s[i].0),
        keyed(s)[s[i].0] == s[i].1,
{
    assert(has_key(s, s[i].0));
    let j = choose|j: int| 0 <= j < s.len() && (#[trigger] s[j]).0 == s[i].0;
    assert(j == i);
}

/// Adding an entry with a new key adds it to the map.
pub proof fn lemma_keyed_push<V>(s: Seq<(Seq<char>, V)>, x: (Seq<char>, V))
    requires
        keys_unique(s),
        !has_key(s, x.0),
    ensures
        keys_unique(s.push(x)),
        keyed(s.push(x)) == keyed(s).insert(x.0, x.1),
{
    let t = s.push(x);
    assert(keys_unique(t)) by {
        assert forall|i: int, j: int| 0 <= i < t.len() && 0 <= j < t.len() && i != j implies (#[trigger] t[i]).0 != (#[trigger] t[j]).0 by {
            if i < s.len() && j < s.len() {
                assert(t[i] == s[i] && t[j] == s[j]);
            } else if i < s.len() {
                assert(t[i] == s[i]);
            } else {
                assert(t[j] == s[j]);
            }
        }
    }
    assert forall|k: Seq<char>| #[trigger] keyed(t).contains_key(k) == keyed(s).insert(x.0, x.1).contains_key(k) by {
        if has_key(t, k) && k != x.0 {
            let i = choose|i: int| 0 <= i < t.len() && (#[trigger] t[i]).0 == k;
            assert(i < s.len());
            assert(s[i] == t[i]);
        }
        if has_key(s, k) {
            let i = choose|i: int| 0 <= i < s.len() && (#[trigger] s[i]).0 == k;
            assert(t[i] == s[i]);
        }
        if k == x.0 {
            assert(t[s.len() as int] == x);
        }
    }
    assert forall|k: Seq<char>| #[trigger] keyed(t).contains_key(k) implies keyed(t)[k] == keyed(s).insert(x.0, x.1)[k] by {
        let i = choose|i: int| 0 <= i < t.len() && (#[trigger] t[i]).0 == k;
        lemma_keyed_index(t, i);
        if i < s.len() {
            assert(t[i] == s[i]);
            lemma_keyed_index(s, i);
        }
    }
    assert(keyed(t) =~= keyed(s).insert(x.0, x.1));
}

/// Replacing the value of an entry replaces it in the map.
pub proof fn lemma_keyed_update<V>(s: Seq<(Seq<char>, V)>, i: int, x: (Seq<char>, V))
    requires
        keys_unique(s),
        0 <= i < s.len(),
        s[i].0 == x.0,
    ensures
        keys_unique(s.update(i, x)),
        keyed(s.update(i, x)) == keyed(s).insert(x.0, x.1),
{
    let t = s.update(i, x);
    assert(keys_unique(t)) by {
        assert forall|a: int, b: int| 0 <= a < t.len() && 0 <= b < t.len() && a != b implies (#[trigger] t[a]).0 != (#[trigger] t[b]).0 by {
            assert(t[a].0 == s[a].0 && t[b].0 == s[b].0);
        }
    }
    assert forall|k: Seq<char>| #[trigger] keyed(t).contains_key(k) == keyed(s).insert(x.0, x.1).contains_key(k) by {
        if has_key(t, k) {
            let j = choose|j: int| 0 <= j < t.len() && (#[trigger] t[j]).0 == k;
            assert(s[j].0 == k);
        }
        if has_key(s, k) {
            let j = choose|j: int| 0 <= j < s.len() && (#[trigger] s[j]).0 == k;
            assert(t[j].0 == k);
        }
        if k == x.0 {
            assert(t[i].0 == k);
        }
    }
    assert forall|k: Seq<char>| #[trigger] keyed(t).contains_key(k) implies keyed(t)[k] == keyed(s).insert(x.0, x.1)[k] by {
        let j = choose|j: int| 0 <= j < t.len() && (#[trigger] t[j]).0 == k;
        lemma_keyed_index(t, j);
        if j != i {
            lemma_keyed_index(s, j);
        }
    }
    assert(keyed(t) =~= keyed(s).insert(x.0, x.1));
}

/// Removing an entry removes its key from the map.
pub proof fn lemma_keyed_remove<V>(s: Seq<(Seq<char>, V)>, i: int)
    requires
        keys_unique(s),
        0 <= i < s.len(),
    ensures
        keys_unique(s.remove(i)),
        keyed(s.remove(i)) == keyed(s).remove(s[i].0),
{
    let t = s.remove(i);
    assert(keys_unique(t)) by {
        assert forall|a: int, b: int| 0 <= a < t.len() && 0 <= b < t.len() && a != b implies (#[trigger] t[a]).0 != (#[trigger] t[b]).0 by {
            let a2 = if a < i { a } else { a + 1 };
            let b2 = if b < i { b } else { b + 1 };
            assert(t[a] == s[a2] && t[b] == s[b2]);
        }
    }
    assert forall|k: Seq<char>| #[trigger] keyed(t).contains_key(k) == keyed(s).remove(s[i].0).contains_key(k) by {
        if has_key(t, k) {
            let j = choose|j: int| 0 <= j < t.len() && (#[trigger] t[j]).0 == k;
            let j2 = if j < i { j } else { j + 1 };
            assert(t[j] == s[j2]);
        }
        if has_key(s, k) && k != s[i].0 {
            let j = choose|j: int| 0 <= j < s.len() && (#[trigger] s[j]).0 == k;
            if j < i {
                assert(t[j] == s[j]);
            } else {
                assert(t[j - 1] == s[j]);
            }
        }
    }
    assert forall|k: Seq<char>| #[trigger] keyed(t).contains_key(k) implies keyed(t)[k] == keyed(s).remove(s[i].0)[k] by {
        let j = choose|j: int| 0 <= j < t.len() && (#[trigger] t[j]).0 == k;
        let j2 = if j < i { j } else { j + 1 };
        assert(t[j] == s[j2]);
        lemma_keyed_index(t, j);
        lemma_keyed_index(s, j2);
    }
    assert(keyed(t) =~= keyed(s).remove(s[i].0));
}

/// The names and numbers of a list of pairs, as plain values.
pub open spec fn pairs_view(v: Seq<(String, u64)>) -> Seq<(Seq<char>, u64)> {
    v.map_values(|p: (String, u64)| (p.0@, p.1))
}

/// Where the entry with the given name stands, if any.
pub fn find_key(v: &Vec<(String, u64)>, name: &str) -> (r: Option<usize>)
    ensures
        match r {
            Some(j) => j < v@.len() && v@[j as int].0@ == name@,
            None => !has_key(pairs_view(v@), name@),
        },
{
    let mut j: usize = 0;
    while j < v.len()
        invariant
            j <= v@.len(),
            forall|x: int| 0 <= x < j ==> (#[trigger] v@[x]).0@ != name@,
        decreases v@.len() - j,
    {
        if str_eq(v[j].0.as_str(), name) {
            return Some(j);
        }
        j = j + 1;
    }
    assert forall|x: int| 0 <= x < pairs_view(v@).len() implies (#[trigger] pairs_view(v@)[x]).0 != name@ by {
        assert(pairs_view(v@)[x].0 == v@[x].0@);
    }
    None
}

/// Every entry of `a` stands in `b` with the same number.
pub open spec fn keyed_within(a: Map<Seq<char>, u64>, b: Map<Seq<char>, u64>) -> bool {
    forall|k: Seq<char>| a.contains_key(k) ==> b.contains_key(k) && #[trigger] b[k] == a[k]
}

/// Whether every entry of `a` stands in `b` with the same number.
fn included(a: &Vec<(String, u64)>, b: &Vec<(String, u64)>) -> (r: bool)
    requires
        keys_unique(pairs_view(a@)),
        keys_unique(pairs_view(b@)),
    ensures
        r == keyed_within(keyed(pairs_view(a@)), keyed(pairs_view(b@))),
{
    let ghost pa = pairs_view(a@);
    let ghost pb = pairs_view(b@);
    let mut i: usize = 0;
    while i < a.len()
        invariant
            pa == pairs_view(a@),
            pb == pairs_view(b@),
            keys_unique(pa),
            keys_unique(pb),
            i <= a@.len(),
            forall|x: int| 0 <= x < i ==> keyed(pb).contains_key(#[trigger] pa[x].0) && keyed(pb)[pa[x].0] == pa[x].1,
        decreases a@.len() - i,
    {
        proof {
            lemma_keyed_index(pa, i as int);
            assert(pa[i as int] == (a@[i as int].0@, a@[i as int].1));
        }
        match find_key(b, a[i].0.as_str()) {
            None => {
                assert(!keyed(pb).contains_key(pa[i as int].0));
                assert(!keyed_within(keyed(pa), keyed(pb))) by {
                    if keyed_within(keyed(pa), keyed(pb)) {
                        assert(keyed(pb)[pa[i as int].0] == keyed(pa)[pa[i as int].0]);
                    }
                }
                return false;
            },
            Some(j) => {
                proof {
                    lemma_keyed_index(pb, j as int);
                    assert(pb[j as int] == (b@[j as int].0@, b@[j as int].1));
                }
                if b[j].1 != a[i].1 {
                    assert(!keyed_within(keyed(pa), keyed(pb))) by {
                        if keyed_within(keyed(pa), keyed(pb)) {
                            assert(keyed(pb)[pa[i as int].0] == keyed(pa)[pa[i as int].0]);
                        }
                    }
                    return false;
                }
            },
        }
        i = i + 1;
    }
    assert forall|k: Seq<char>| keyed(pa).contains_key(k) implies keyed(pb).contains_key(k) && #[trigger] keyed(pb)[k] == keyed(pa)[k] by {
        let x = choose|x: int| 0 <= x < pa.len() && (#[trigger] pa[x]).0 == k;
        lemma_keyed_index(pa, x);
    }
    true
}

/// Whether two lists with unique names map each name to the same number.
pub fn same_keyed(a: &Vec<(String, u64)>, b: &Vec<(String, u64)>) -> (r: bool)
    requires
        keys_unique(pairs_view(a@)),
        keys_unique(pairs_view(b@)),
    ensures
        r == (keyed(pairs_view(a@)) == keyed(pairs_view(b@))),
{
    let r = included(a, b) && included(b, a);
    proof {
        let ma = keyed(pairs_view(a@));
        let mb = keyed(pairs_view(b@));
        if r {
            assert forall|k: Seq<char>| #[trigger] ma.contains_key(k) == mb.contains_key(k) by {
                if ma.contains_key(k) {
                    assert(mb[k] == ma[k]);
                }
                if mb.contains_key(k) {
                    assert(ma[k] == mb[k]);
                }
            }
            assert(ma =~= mb);
        } else {
            if ma == mb {
                assert(keyed_within(ma, mb));
            }
        }
    }
    r
}

} // verus!
