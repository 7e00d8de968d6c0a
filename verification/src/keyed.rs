use vstd::prelude::*;

verus! {

/// Some entry of the list has this key.
pub open spec fn has_key<T>(s: Seq<(u128, T)>, k: u128) -> bool {
    exists|i: int| 0 <= i < s.len() && s[i].0 == k
}

/// `i` is the first entry with this key.
pub open spec fn is_first_key<T>(s: Seq<(u128, T)>, k: u128, i: int) -> bool {
    &&& 0 <= i < s.len()
    &&& s[i].0 == k
    &&& forall|j: int| 0 <= j < i ==> s[j].0 != k
}

/// The index of the first entry with this key.
pub open spec fn first_key_index<T>(s: Seq<(u128, T)>, k: u128) -> int {
    choose|i: int| is_first_key(s, k, i)
}

/// The value of the first entry with this key.
pub open spec fn value_at<T>(s: Seq<(u128, T)>, k: u128) -> T {
    s[first_key_index(s, k)].1
}

/// No two entries share a key.
pub open spec fn keys_distinct<T>(s: Seq<(u128, T)>) -> bool {
    forall|i: int, j: int| 0 <= i < j < s.len() ==> s[i].0 != s[j].0
}

/// With distinct keys, an entry with the key is the first one.
pub proof fn lemma_first_key<T>(s: Seq<(u128, T)>, k: u128, i: int)
    requires
        keys_distinct(s),
        0 <= i < s.len(),
        s[i].0 == k,
    ensures
        is_first_key(s, k, i),
        first_key_index(s, k) == i,
        value_at(s, k) == s[i].1,
        has_key(s, k),
{
    assert(is_first_key(s, k, i));
    let f = first_key_index(s, k);
    assert(is_first_key(s, k, f));
    if f < i {
        assert(s[f].0 != s[i].0);
    } else if f > i {
        assert(s[i].0 != k);
    }
}

/// Finds the first entry with this key.
pub fn find_key<T>(s: &Vec<(u128, T)>, k: u128) -> (r: Option<usize>)
    ensures
        match r {
            Some(i) => is_first_key(s@, k, i as int) && first_key_index(s@, k) == i && value_at(
                s@,
                k,
            ) == s@[i as int].1 && has_key(s@, k),
            None => !has_key(s@, k),
        },
{
    let mut i: usize = 0;
    while i < s.len()
        invariant
            i <= s.len(),
            forall|j: int| 0 <= j < i ==> s@[j].0 != k,
        decreases s.len() - i,
    {
        if s[i].0 == k {
            proof {
                assert(is_first_key(s@, k, i as int));
                let f = first_key_index(s@, k);
                assert(is_first_key(s@, k, f));
                if f < i {
                } else if f > i {
                    assert(s@[i as int].0 != k);
                }
            }
            return Some(i);
        }
        i = i + 1;
    }
    None
}

/// Adding an entry with a new key keeps the keys distinct and the other lookups.
pub proof fn lemma_push_new_key<T>(s: Seq<(u128, T)>, k: u128, v: T)
    requires
        keys_distinct(s),
        !has_key(s, k),
    ensures
        keys_distinct(s.push((k, v))),
        has_key(s.push((k, v)), k),
        value_at(s.push((k, v)), k) == v,
        forall|x: u128| x != k ==> has_key(s.push((k, v)), x) == has_key(s, x),
        forall|x: u128| has_key(s, x) ==> value_at(s.push((k, v)), x) == value_at(s, x),
{
    let t = s.push((k, v));
    assert forall|i: int, j: int| 0 <= i < j < t.len() implies t[i].0 != t[j].0 by {
        if j == s.len() {
            assert(s[i].0 != k);
        }
    }
    lemma_first_key(t, k, s.len() as int);
    assert forall|x: u128| x != k implies has_key(t, x) == has_key(s, x) by {
        if has_key(t, x) {
            let i = choose|i: int| 0 <= i < t.len() && t[i].0 == x;
            assert(s[i].0 == x);
        }
        if has_key(s, x) {
            let i = choose|i: int| 0 <= i < s.len() && s[i].0 == x;
            assert(t[i].0 == x);
        }
    }
    assert forall|x: u128| has_key(s, x) implies value_at(t, x) == value_at(s, x) by {
        let i = choose|i: int| 0 <= i < s.len() && s[i].0 == x;
        lemma_first_key(s, x, i);
        assert(t[i] == s[i]);
        lemma_first_key(t, x, i);
    }
}

/// Replacing the value of an entry keeps the keys and the other lookups.
pub proof fn lemma_update_value<T>(s: Seq<(u128, T)>, i: int, v: T)
    requires
        keys_distinct(s),
        0 <= i < s.len(),
    ensures
        keys_distinct(s.update(i, (s[i].0, v))),
        forall|x: u128| has_key(s.update(i, (s[i].0, v)), x) == has_key(s, x),
        value_at(s.update(i, (s[i].0, v)), s[i].0) == v,
        forall|x: u128|
            has_key(s, x) && x != s[i].0 ==> value_at(s.update(i, (s[i].0, v)), x) == value_at(
                s,
                x,
            ),
{
    let t = s.update(i, (s[i].0, v));
    assert forall|a: int, b: int| 0 <= a < b < t.len() implies t[a].0 != t[b].0 by {
        assert(t[a].0 == s[a].0);
        assert(t[b].0 == s[b].0);
    }
    assert forall|x: u128| has_key(t, x) == has_key(s, x) by {
        if has_key(t, x) {
            let a = choose|a: int| 0 <= a < t.len() && t[a].0 == x;
            assert(s[a].0 == x);
        }
        if has_key(s, x) {
            let a = choose|a: int| 0 <= a < s.len() && s[a].0 == x;
            assert(t[a].0 == x);
        }
    }
    lemma_first_key(t, s[i].0, i);
    assert forall|x: u128| has_key(s, x) && x != s[i].0 implies value_at(t, x) == value_at(s, x) by {
        let a = choose|a: int| 0 <= a < s.len() && s[a].0 == x;
        lemma_first_key(s, x, a);
        lemma_first_key(t, x, a);
    }
}

} // verus!
