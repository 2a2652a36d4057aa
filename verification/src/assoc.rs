//! Ordered key-value tables kept in vectors: insertion order is
//! preserved, a repeated key replaces its value in place, and the layout
//! table keeps its rows sorted by scan code.

use vstd::prelude::*;

verus! {

/// Whether some pair of the table has this key.
pub open spec fn assoc_contains<K, V>(s: Seq<(K, V)>, k: K) -> bool {
    exists|i: int| 0 <= i < s.len() && (#[trigger] s[i]).0 == k
}

/// The value of the oldest pair with this key, if any.
pub open spec fn assoc_get<K, V>(s: Seq<(K, V)>, k: K) -> Option<V>
    decreases s.len(),
{
    if s.len() == 0 {
        None
    } else if s.first().0 == k {
        Some(s.first().1)
    } else {
        assoc_get(s.drop_first(), k)
    }
}

/// The table with this key bound to this value: the oldest pair with the
/// key is replaced in place, or a new pair is appended.
pub open spec fn assoc_set<K, V>(s: Seq<(K, V)>, k: K, v: V) -> Seq<(K, V)>
    decreases s.len(),
{
    if s.len() == 0 {
        seq![(k, v)]
    } else if s.first().0 == k {
        seq![(k, v)] + s.drop_first()
    } else {
        seq![s.first()] + assoc_set(s.drop_first(), k, v)
    }
}

/// Replacing at the first position that holds the key is the same as
/// updating that position.
pub proof fn lemma_assoc_set_found<K, V>(s: Seq<(K, V)>, k: K, v: V, i: int)
    requires
        0 <= i < s.len(),
        s[i].0 == k,
        forall|j: int| 0 <= j < i ==> (#[trigger] s[j]).0 != k,
    ensures
        assoc_set(s, k, v) == s.update(i, (k, v)),
    decreases s.len(),
{
    if i == 0 {
        assert(assoc_set(s, k, v) =~= s.update(0, (k, v)));
    } else {
        assert(s.drop_first()[i - 1].0 == k);
        assert(forall|j: int| 0 <= j < i - 1 ==> (#[trigger] s.drop_first()[j]).0 != k);
        lemma_assoc_set_found(s.drop_first(), k, v, i - 1);
        assert(assoc_set(s, k, v) =~= s.update(i, (k, v)));
    }
}

/// Binding a key no pair holds appends a new pair.
pub proof fn lemma_assoc_set_absent<K, V>(s: Seq<(K, V)>, k: K, v: V)
    requires
        !assoc_contains(s, k),
    ensures
        assoc_set(s, k, v) == s.push((k, v)),
    decreases s.len(),
{
    if s.len() > 0 {
        assert(s.first().0 != k) by {
            assert(s[0].0 == s.first().0);
        }
        assert(!assoc_contains(s.drop_first(), k)) by {
            assert(forall|i: int|
                0 <= i < s.drop_first().len() ==> (#[trigger] s.drop_first()[i]) == s[i + 1]);
        }
        lemma_assoc_set_absent(s.drop_first(), k, v);
        assert(assoc_set(s, k, v) =~= s.push((k, v)));
    } else {
        assert(assoc_set(s, k, v) =~= s.push((k, v)));
    }
}

/// The pairs of a table, each value replaced by its mathematical model.
pub open spec fn pair_view<K, V: View>(s: Seq<(K, V)>) -> Seq<(K, V::V)> {
    s.map_values(|p: (K, V)| (p.0, p.1@))
}

/// Replacing a binding commutes with taking the table's model.
pub proof fn lemma_assoc_set_view<K, V: View>(s: Seq<(K, V)>, k: K, v: V)
    ensures
        pair_view(assoc_set(s, k, v)) == assoc_set(pair_view(s), k, v@),
    decreases s.len(),
{
    if s.len() == 0 {
        assert(pair_view(assoc_set(s, k, v)) =~= assoc_set(pair_view(s), k, v@));
    } else if s.first().0 == k {
        assert(pair_view(s).first().0 == k);
        assert(pair_view(assoc_set(s, k, v)) =~= assoc_set(pair_view(s), k, v@));
    } else {
        lemma_assoc_set_view(s.drop_first(), k, v);
        assert(pair_view(s.drop_first()) =~= pair_view(s).drop_first());
        assert(pair_view(s).first().0 != k);
        assert(pair_view(assoc_set(s, k, v)) =~= seq![pair_view(s).first()] + assoc_set(
            pair_view(s).drop_first(),
            k,
            v@,
        ));
        assert(assoc_set(pair_view(s), k, v@) == seq![pair_view(s).first()] + assoc_set(
            pair_view(s).drop_first(),
            k,
            v@,
        ));
    }
}

/// Binds a key in a character-keyed table: the oldest pair with the key
/// is replaced in place, or a new pair is appended.
pub fn assoc_set_char<V>(m: &mut Vec<(char, V)>, k: char, v: V)
    ensures
        final(m)@ == assoc_set(old(m)@, k, v),
{
    let n: usize = m.len();
    let mut i: usize = 0;
    while i < n
        invariant
            i <= n,
            n == m.len(),
            m@ == old(m)@,
            forall|j: int| 0 <= j < i ==> (#[trigger] m@[j]).0 != k,
        decreases n - i,
    {
        if m[i].0 == k {
            m.set(i, (k, v));
            proof {
                lemma_assoc_set_found(old(m)@, k, v, i as int);
            }
            return ;
        }
        i = i + 1;
    }
    m.push((k, v));
    proof {
        lemma_assoc_set_absent(old(m)@, k, v);
    }
}

/// Binds a key in a byte-keyed table: the oldest pair with the key is
/// replaced in place, or a new pair is appended.
pub fn assoc_set_u8<V>(m: &mut Vec<(u8, V)>, k: u8, v: V)
    ensures
        final(m)@ == assoc_set(old(m)@, k, v),
{
    let n: usize = m.len();
    let mut i: usize = 0;
    while i < n
        invariant
            i <= n,
            n == m.len(),
            m@ == old(m)@,
            forall|j: int| 0 <= j < i ==> (#[trigger] m@[j]).0 != k,
        decreases n - i,
    {
        if m[i].0 == k {
            m.set(i, (k, v));
            proof {
                lemma_assoc_set_found(old(m)@, k, v, i as int);
            }
            return ;
        }
        i = i + 1;
    }
    m.push((k, v));
    proof {
        lemma_assoc_set_absent(old(m)@, k, v);
    }
}

/// The position of the oldest pair with this key in a character-keyed
/// table, if any.
pub fn assoc_index_char<V>(m: &Vec<(char, V)>, k: char) -> (r: Option<usize>)
    ensures
        match r {
            Some(i) => i < m@.len() && m@[i as int].0 == k && forall|j: int|
                0 <= j < i ==> (#[trigger] m@[j]).0 != k,
            None => !assoc_contains(m@, k),
        },
{
    let n: usize = m.len();
    let mut i: usize = 0;
    while i < n
        invariant
            i <= n,
            n == m.len(),
            forall|j: int| 0 <= j < i ==> (#[trigger] m@[j]).0 != k,
        decreases n - i,
    {
        if m[i].0 == k {
            return Some(i);
        }
        i = i + 1;
    }
    None
}

/// Whether a character-keyed table holds this key.
pub fn assoc_contains_char<V>(m: &Vec<(char, V)>, k: char) -> (r: bool)
    ensures
        r == assoc_contains(m@, k),
{
    match assoc_index_char(m, k) {
        Some(_) => true,
        None => false,
    }
}

/// The keys of a byte-keyed table are in strictly increasing order.
pub open spec fn keys_sorted_u8<V>(s: Seq<(u8, V)>) -> bool {
    forall|i: int, j: int| 0 <= i < j < s.len() ==> (#[trigger] s[i]).0 < (#[trigger] s[j]).0
}

/// The table with this key bound to this value, its keys kept in
/// increasing order: an equal key is replaced, a new one is placed
/// before the first greater key.
pub open spec fn sorted_set_spec<V>(s: Seq<(u8, V)>, k: u8, v: V) -> Seq<(u8, V)>
    decreases s.len(),
{
    if s.len() == 0 {
        seq![(k, v)]
    } else if k < s.first().0 {
        seq![(k, v)] + s
    } else if k == s.first().0 {
        seq![(k, v)] + s.drop_first()
    } else {
        seq![s.first()] + sorted_set_spec(s.drop_first(), k, v)
    }
}

/// Placing a binding keeps the keys sorted.
pub proof fn lemma_sorted_set_sorted<V>(s: Seq<(u8, V)>, k: u8, v: V)
    requires
        keys_sorted_u8(s),
    ensures
        keys_sorted_u8(sorted_set_spec(s, k, v)),
    decreases s.len(),
{
    if s.len() > 0 && k > s.first().0 {
        assert(keys_sorted_u8(s.drop_first())) by {
            assert(forall|i: int|
                0 <= i < s.drop_first().len() ==> (#[trigger] s.drop_first()[i]) == s[i + 1]);
        }
        lemma_sorted_set_sorted(s.drop_first(), k, v);
        let t = sorted_set_spec(s, k, v);
        let t2 = sorted_set_spec(s.drop_first(), k, v);
        assert(forall|i: int| 0 <= i < t2.len() ==> (#[trigger] t2[i]) == t[i + 1]);
        assert(forall|i: int| 0 <= i < t2.len() ==> (#[trigger] t2[i]).0 >= k || assoc_contains(
            s.drop_first(),
            t2[i].0,
        )) by {
            lemma_sorted_set_members(s.drop_first(), k, v);
        }
        assert forall|i: int, j: int| 0 <= i < j < t.len() implies (#[trigger] t[i]).0 < (
        #[trigger] t[j]).0 by {
            if i == 0 {
                assert(t[0] == s.first());
                let x = t2[j - 1];
                if x.0 >= k {
                } else {
                    let w = choose|w: int|
                        0 <= w < s.drop_first().len() && (#[trigger] s.drop_first()[w]).0 == x.0;
                    assert(s[w + 1].0 == x.0);
                }
            }
        }
    }
}

/// Every key of the placed table is the new key or one of the old keys.
proof fn lemma_sorted_set_members<V>(s: Seq<(u8, V)>, k: u8, v: V)
    ensures
        forall|i: int|
            0 <= i < sorted_set_spec(s, k, v).len() ==> (#[trigger] sorted_set_spec(s, k, v)[i]).0
                == k || assoc_contains(s, sorted_set_spec(s, k, v)[i].0),
    decreases s.len(),
{
    let t = sorted_set_spec(s, k, v);
    if s.len() == 0 {
    } else if k < s.first().0 {
        assert forall|i: int| 0 <= i < t.len() implies (#[trigger] t[i]).0 == k || assoc_contains(
            s,
            t[i].0,
        ) by {
            if i > 0 {
                assert(t[i] == s[i - 1]);
            }
        }
    } else if k == s.first().0 {
        assert forall|i: int| 0 <= i < t.len() implies (#[trigger] t[i]).0 == k || assoc_contains(
            s,
            t[i].0,
        ) by {
            if i > 0 {
                assert(t[i] == s[i]);
            }
        }
    } else {
        lemma_sorted_set_members(s.drop_first(), k, v);
        let t2 = sorted_set_spec(s.drop_first(), k, v);
        assert forall|i: int| 0 <= i < t.len() implies (#[trigger] t[i]).0 == k || assoc_contains(
            s,
            t[i].0,
        ) by {
            if i == 0 {
                assert(t[0] == s[0]);
            } else {
                assert(t[i] == t2[i - 1]);
                if t2[i - 1].0 != k {
                    let w = choose|w: int|
                        0 <= w < s.drop_first().len() && (#[trigger] s.drop_first()[w]).0 == t2[i
                            - 1].0;
                    assert(s[w + 1].0 == t2[i - 1].0);
                }
            }
        }
    }
}

/// Placing at the position the scan finds is the same as the sorted
/// placement.
pub proof fn lemma_sorted_set_at<V>(s: Seq<(u8, V)>, k: u8, v: V, i: int)
    requires
        0 <= i <= s.len(),
        forall|j: int| 0 <= j < i ==> (#[trigger] s[j]).0 < k,
        i < s.len() ==> s[i].0 >= k,
    ensures
        sorted_set_spec(s, k, v) == if i < s.len() && s[i].0 == k {
            s.update(i, (k, v))
        } else {
            s.insert(i, (k, v))
        },
    decreases s.len(),
{
    if i == 0 {
        if 0 < s.len() && s[0].0 == k {
            assert(sorted_set_spec(s, k, v) =~= s.update(0, (k, v)));
        } else {
            assert(sorted_set_spec(s, k, v) =~= s.insert(0, (k, v)));
        }
    } else {
        assert(s[0].0 < k);
        assert(forall|j: int| 0 <= j < i - 1 ==> (#[trigger] s.drop_first()[j]).0 < k) by {
            assert(forall|j: int|
                0 <= j < s.drop_first().len() ==> (#[trigger] s.drop_first()[j]) == s[j + 1]);
        }
        assert(i - 1 < s.drop_first().len() ==> s.drop_first()[i - 1].0 >= k);
        lemma_sorted_set_at(s.drop_first(), k, v, i - 1);
        if i < s.len() && s[i].0 == k {
            assert(s.drop_first()[i - 1] == s[i]);
            assert(sorted_set_spec(s, k, v) =~= s.update(i, (k, v)));
        } else {
            assert(sorted_set_spec(s, k, v) =~= s.insert(i, (k, v)));
        }
    }
}

/// Sorted placement commutes with taking the table's model.
pub proof fn lemma_sorted_set_view<V: View>(s: Seq<(u8, V)>, k: u8, v: V)
    ensures
        pair_view(sorted_set_spec(s, k, v)) == sorted_set_spec(pair_view(s), k, v@),
    decreases s.len(),
{
    if s.len() == 0 {
        assert(pair_view(sorted_set_spec(s, k, v)) =~= sorted_set_spec(pair_view(s), k, v@));
    } else if k < s.first().0 {
        assert(pair_view(sorted_set_spec(s, k, v)) =~= sorted_set_spec(pair_view(s), k, v@));
    } else if k == s.first().0 {
        assert(pair_view(s).first().0 == k);
        assert(pair_view(sorted_set_spec(s, k, v)) =~= sorted_set_spec(pair_view(s), k, v@));
    } else {
        lemma_sorted_set_view(s.drop_first(), k, v);
        assert(pair_view(s.drop_first()) =~= pair_view(s).drop_first());
        assert(pair_view(s).first().0 < k);
        assert(pair_view(sorted_set_spec(s, k, v)) =~= seq![pair_view(s).first()]
            + sorted_set_spec(pair_view(s).drop_first(), k, v@));
        assert(sorted_set_spec(pair_view(s), k, v@) == seq![pair_view(s).first()]
            + sorted_set_spec(pair_view(s).drop_first(), k, v@));
    }
}

/// Binds a key in a byte-keyed table whose keys are kept sorted.
pub fn sorted_set_u8<V>(m: &mut Vec<(u8, V)>, k: u8, v: V)
    ensures
        final(m)@ == sorted_set_spec(old(m)@, k, v),
{
    let n: usize = m.len();
    let mut i: usize = 0;
    while i < n
        invariant
            i <= n,
            n == m.len(),
            m@ == old(m)@,
            forall|j: int| 0 <= j < i ==> (#[trigger] m@[j]).0 < k,
        decreases n - i,
    {
        if m[i].0 == k {
            m.set(i, (k, v));
            proof {
                lemma_sorted_set_at(old(m)@, k, v, i as int);
            }
            return ;
        }
        if m[i].0 > k {
            m.insert(i, (k, v));
            proof {
                lemma_sorted_set_at(old(m)@, k, v, i as int);
            }
            return ;
        }
        i = i + 1;
    }
    m.insert(n, (k, v));
    proof {
        lemma_sorted_set_at(old(m)@, k, v, n as int);
    }
}

/// The value found at the first position that holds the key.
pub proof fn lemma_assoc_get_found<K, V>(s: Seq<(K, V)>, k: K, i: int)
    requires
        0 <= i < s.len(),
        s[i].0 == k,
        forall|j: int| 0 <= j < i ==> (#[trigger] s[j]).0 != k,
    ensures
        assoc_get(s, k) == Some(s[i].1),
    decreases s.len(),
{
    if i > 0 {
        assert(s.drop_first()[i - 1] == s[i]);
        assert(forall|j: int| 0 <= j < i - 1 ==> (#[trigger] s.drop_first()[j]).0 != k) by {
            assert(forall|j: int|
                0 <= j < s.drop_first().len() ==> (#[trigger] s.drop_first()[j]) == s[j + 1]);
        }
        lemma_assoc_get_found(s.drop_first(), k, i - 1);
    }
}


/// A key no pair holds has no value.
pub proof fn lemma_assoc_get_absent<K, V>(s: Seq<(K, V)>, k: K)
    requires
        !assoc_contains(s, k),
    ensures
        assoc_get(s, k) is None,
    decreases s.len(),
{
    if s.len() > 0 {
        assert(s.first().0 != k) by {
            assert(s[0].0 == s.first().0);
        }
        assert(!assoc_contains(s.drop_first(), k)) by {
            assert(forall|i: int|
                0 <= i < s.drop_first().len() ==> (#[trigger] s.drop_first()[i]) == s[i + 1]);
        }
        lemma_assoc_get_absent(s.drop_first(), k);
    }
}

/// A copy of a table of character pairs.
pub fn copy_char_pairs(v: &Vec<(char, char)>) -> (r: Vec<(char, char)>)
    ensures
        r@ == v@,
{
    let mut r: Vec<(char, char)> = Vec::new();
    let mut i: usize = 0;
    while i < v.len()
        invariant
            i <= v@.len(),
            r@ == v@.take(i as int),
        decreases v@.len() - i,
    {
        r.push(v[i]);
        i = i + 1;
        proof {
            assert(r@ =~= v@.take(i as int));
        }
    }
    proof {
        assert(v@.take(v@.len() as int) =~= v@);
    }
    r
}


/// A table and its model hold the same keys.
pub proof fn lemma_pair_view_contains<K, V: View>(s: Seq<(K, V)>, k: K)
    ensures
        assoc_contains(pair_view(s), k) == assoc_contains(s, k),
{
    if assoc_contains(s, k) {
        let i = choose|i: int| 0 <= i < s.len() && (#[trigger] s[i]).0 == k;
        assert(pair_view(s)[i].0 == k);
    }
    if assoc_contains(pair_view(s), k) {
        let i = choose|i: int| 0 <= i < pair_view(s).len() && (#[trigger] pair_view(s)[i]).0 == k;
        assert(s[i].0 == k);
    }
}


} // verus!
