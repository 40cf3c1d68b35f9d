//! Association-vector maps backing the ledger.
//!
//! Each ledger map is a `Vec<(u64, u128)>` of key/amount entries with
//! pairwise-distinct keys. The account map additionally keeps its keys in
//! strictly increasing order so that it can be enumerated as an ordered map.
//! The spec functions here give the entries a key/value reading, and
//! `sum_amounts` gives the total that the conservation invariant speaks of.

use vstd::prelude::*;

verus! {

/// Whether some entry of `s` has key `k`.
pub open spec fn has_key(s: Seq<(u64, u128)>, k: u64) -> bool {
    exists|i: int| 0 <= i < s.len() && s[i].0 == k
}

/// An index of an entry of `s` with key `k` (the index when keys are distinct).
pub open spec fn index_of_key(s: Seq<(u64, u128)>, k: u64) -> int {
    choose|i: int| 0 <= i < s.len() && s[i].0 == k
}

/// The amount stored under key `k`.
pub open spec fn value_of(s: Seq<(u64, u128)>, k: u64) -> u128 {
    s[index_of_key(s, k)].1
}

/// The amount stored under key `k`, or zero when `k` is absent.
pub open spec fn balance_of(s: Seq<(u64, u128)>, k: u64) -> u128 {
    if has_key(s, k) {
        value_of(s, k)
    } else {
        0
    }
}

/// No two entries share a key.
pub open spec fn distinct_keys(s: Seq<(u64, u128)>) -> bool {
    forall|i: int, j: int| 0 <= i < j < s.len() ==> s[i].0 != s[j].0
}

/// Keys are strictly increasing (an ordered map; implies `distinct_keys`).
pub open spec fn sorted_keys(s: Seq<(u64, u128)>) -> bool {
    forall|i: int, j: int| 0 <= i < j < s.len() ==> s[i].0 < s[j].0
}

/// The sum of all stored amounts.
pub open spec fn sum_amounts(s: Seq<(u64, u128)>) -> int
    decreases s.len(),
{
    if s.len() == 0 {
        0
    } else {
        sum_amounts(s.drop_last()) + s.last().1
    }
}

pub proof fn lemma_sorted_implies_distinct(s: Seq<(u64, u128)>)
    requires
        sorted_keys(s),
    ensures
        distinct_keys(s),
{
}

/// With distinct keys, any entry carrying key `k` is the entry of `k`.
pub proof fn lemma_key_at(s: Seq<(u64, u128)>, i: int)
    requires
        distinct_keys(s),
        0 <= i < s.len(),
    ensures
        has_key(s, s[i].0),
        index_of_key(s, s[i].0) == i,
        value_of(s, s[i].0) == s[i].1,
{
    let k = s[i].0;
    assert(has_key(s, k));
    let j = index_of_key(s, k);
    assert(0 <= j < s.len() && s[j].0 == k);
    if i < j {
        assert(s[i].0 != s[j].0);
    } else if j < i {
        assert(s[j].0 != s[i].0);
    }
}

pub proof fn lemma_sum_nonneg(s: Seq<(u64, u128)>)
    ensures
        sum_amounts(s) >= 0,
    decreases s.len(),
{
    if s.len() > 0 {
        lemma_sum_nonneg(s.drop_last());
    }
}

pub proof fn lemma_sum_push(s: Seq<(u64, u128)>, p: (u64, u128))
    ensures
        sum_amounts(s.push(p)) == sum_amounts(s) + p.1,
{
    assert(s.push(p).drop_last() =~= s);
}

pub proof fn lemma_sum_update(s: Seq<(u64, u128)>, i: int, p: (u64, u128))
    requires
        0 <= i < s.len(),
    ensures
        sum_amounts(s.update(i, p)) == sum_amounts(s) - s[i].1 + p.1,
    decreases s.len(),
{
    if i == s.len() - 1 {
        assert(s.update(i, p).drop_last() =~= s.drop_last());
    } else {
        assert(s.update(i, p).drop_last() =~= s.drop_last().update(i, p));
        lemma_sum_update(s.drop_last(), i, p);
    }
}

pub proof fn lemma_sum_remove(s: Seq<(u64, u128)>, i: int)
    requires
        0 <= i < s.len(),
    ensures
        sum_amounts(s.remove(i)) == sum_amounts(s) - s[i].1,
    decreases s.len(),
{
    if i == s.len() - 1 {
        assert(s.remove(i) =~= s.drop_last());
    } else {
        assert(s.remove(i).drop_last() =~= s.drop_last().remove(i));
        assert(s.remove(i).last() == s.last());
        lemma_sum_remove(s.drop_last(), i);
    }
}

pub proof fn lemma_sum_insert(s: Seq<(u64, u128)>, i: int, p: (u64, u128))
    requires
        0 <= i <= s.len(),
    ensures
        sum_amounts(s.insert(i, p)) == sum_amounts(s) + p.1,
    decreases s.len(),
{
    if i == s.len() {
        assert(s.insert(i, p) =~= s.push(p));
        lemma_sum_push(s, p);
    } else {
        assert(s.insert(i, p).drop_last() =~= s.drop_last().insert(i, p));
        assert(s.insert(i, p).last() == s.last());
        lemma_sum_insert(s.drop_last(), i, p);
    }
}

/// Every single amount is bounded by the total.
pub proof fn lemma_entry_le_sum(s: Seq<(u64, u128)>, i: int)
    requires
        0 <= i < s.len(),
    ensures
        s[i].1 <= sum_amounts(s),
    decreases s.len(),
{
    if i == s.len() - 1 {
        lemma_sum_nonneg(s.drop_last());
    } else {
        lemma_entry_le_sum(s.drop_last(), i);
    }
}

/// The amount under a present key is bounded by the total.
pub proof fn lemma_value_le_sum(s: Seq<(u64, u128)>, k: u64)
    requires
        has_key(s, k),
    ensures
        value_of(s, k) <= sum_amounts(s),
{
    let i = index_of_key(s, k);
    assert(0 <= i < s.len() && s[i].0 == k);
    lemma_entry_le_sum(s, i);
}

/// Two amounts under different keys together are bounded by the total.
pub proof fn lemma_two_values_le_sum(s: Seq<(u64, u128)>, k1: u64, k2: u64)
    requires
        distinct_keys(s),
        has_key(s, k1),
        has_key(s, k2),
        k1 != k2,
    ensures
        value_of(s, k1) + value_of(s, k2) <= sum_amounts(s),
{
    let i = index_of_key(s, k1);
    let j = index_of_key(s, k2);
    assert(0 <= i < s.len() && s[i].0 == k1);
    assert(0 <= j < s.len() && s[j].0 == k2);
    lemma_sum_remove(s, i);
    let t = s.remove(i);
    if j < i {
        assert(t[j] == s[j]);
        lemma_entry_le_sum(t, j);
    } else {
        assert(t[j - 1] == s[j]);
        lemma_entry_le_sum(t, j - 1);
    }
}

/// Looks an amount up by key.
pub fn map_get(v: &Vec<(u64, u128)>, k: u64) -> (r: Option<u128>)
    requires
        distinct_keys(v@),
    ensures
        r is Some <==> has_key(v@, k),
        r matches Some(a) ==> a == value_of(v@, k),
{
    let mut i: usize = 0;
    while i < v.len()
        invariant
            i <= v@.len(),
            distinct_keys(v@),
            forall|j: int| 0 <= j < i ==> v@[j].0 != k,
        decreases v@.len() - i,
    {
        if v[i].0 == k {
            proof {
                lemma_key_at(v@, i as int);
            }
            return Some(v[i].1);
        }
        i += 1;
    }
    None
}

/// Looks an amount up by a key known to be present.
pub fn map_get_present(v: &Vec<(u64, u128)>, k: u64) -> (a: u128)
    requires
        distinct_keys(v@),
        has_key(v@, k),
    ensures
        a == value_of(v@, k),
{
    match map_get(v, k) {
        Some(a) => a,
        None => {
            proof {
                assert(false);
            }
            0
        },
    }
}

/// Overwrites the amount under a key that is already present.
pub fn map_set(v: &mut Vec<(u64, u128)>, k: u64, a: u128)
    requires
        distinct_keys(old(v)@),
        has_key(old(v)@, k),
    ensures
        final(v)@ == old(v)@.update(index_of_key(old(v)@, k), (k, a)),
        final(v)@.len() == old(v)@.len(),
        distinct_keys(final(v)@),
        sorted_keys(old(v)@) ==> sorted_keys(final(v)@),
        has_key(final(v)@, k),
        value_of(final(v)@, k) == a,
        forall|k2: u64| k2 != k ==> (has_key(final(v)@, k2) <==> has_key(old(v)@, k2)),
        forall|k2: u64|
            k2 != k && has_key(old(v)@, k2) ==> value_of(final(v)@, k2) == value_of(old(v)@, k2),
        sum_amounts(final(v)@) == sum_amounts(old(v)@) - value_of(old(v)@, k) + a,
{
    let ghost s = v@;
    let mut i: usize = 0;
    while i < v.len()
        invariant
            i <= v@.len(),
            v@ == s,
            s == old(v)@,
            distinct_keys(s),
            has_key(s, k),
            forall|j: int| 0 <= j < i ==> s[j].0 != k,
        decreases v@.len() - i,
    {
        if v[i].0 == k {
            proof {
                lemma_key_at(s, i as int);
                lemma_sum_update(s, i as int, (k, a));
            }
            v.set(i, (k, a));
            proof {
                let t = v@;
                assert forall|x: int, y: int| 0 <= x < y < t.len() implies t[x].0 != t[y].0 by {
                    assert(s[x].0 != s[y].0);
                }
                assert(sorted_keys(s) ==> sorted_keys(t)) by {
                    if sorted_keys(s) {
                        assert forall|x: int, y: int| 0 <= x < y < t.len() implies t[x].0
                            < t[y].0 by {
                            assert(s[x].0 < s[y].0);
                        }
                    }
                }
                lemma_key_at(t, i as int);
                assert forall|k2: u64| k2 != k implies (has_key(t, k2) <==> has_key(s, k2)) by {
                    if has_key(t, k2) {
                        let j = index_of_key(t, k2);
                        assert(s[j].0 == k2);
                    }
                    if has_key(s, k2) {
                        let j = index_of_key(s, k2);
                        assert(t[j].0 == k2);
                    }
                }
                assert forall|k2: u64| k2 != k && has_key(s, k2) implies value_of(t, k2)
                    == value_of(s, k2) by {
                    let j = index_of_key(s, k2);
                    assert(0 <= j < s.len() && s[j].0 == k2);
                    assert(t[j].0 == k2);
                    lemma_key_at(t, j);
                }
            }
            return ;
        }
        i += 1;
    }
    proof {
        let j = index_of_key(s, k);
        assert(0 <= j < s.len() && s[j].0 == k);
        assert(false);
    }
}

/// Removes a key's entry, returning its amount, or `None` when absent.
pub fn map_remove(v: &mut Vec<(u64, u128)>, k: u64) -> (r: Option<u128>)
    requires
        distinct_keys(old(v)@),
    ensures
        r is Some <==> has_key(old(v)@, k),
        !has_key(old(v)@, k) ==> final(v)@ == old(v)@,
        has_key(old(v)@, k) ==> r == Some(value_of(old(v)@, k)) && final(v)@ == old(v)@.remove(
            index_of_key(old(v)@, k),
        ),
        distinct_keys(final(v)@),
        sorted_keys(old(v)@) ==> sorted_keys(final(v)@),
        !has_key(final(v)@, k),
        forall|k2: u64| k2 != k ==> (has_key(final(v)@, k2) <==> has_key(old(v)@, k2)),
        forall|k2: u64|
            k2 != k && has_key(old(v)@, k2) ==> value_of(final(v)@, k2) == value_of(old(v)@, k2),
        sum_amounts(final(v)@) == sum_amounts(old(v)@) - balance_of(old(v)@, k),
{
    let ghost s = v@;
    let mut i: usize = 0;
    while i < v.len()
        invariant
            i <= v@.len(),
            v@ == s,
            s == old(v)@,
            distinct_keys(s),
            forall|j: int| 0 <= j < i ==> s[j].0 != k,
        decreases v@.len() - i,
    {
        if v[i].0 == k {
            proof {
                lemma_key_at(s, i as int);
                lemma_sum_remove(s, i as int);
            }
            let a = v.remove(i).1;
            proof {
                let t = v@;
                let ii = i as int;
                assert forall|x: int, y: int| 0 <= x < y < t.len() implies t[x].0 != t[y].0 by {
                    let sx: int = if x < ii {
                        x
                    } else {
                        x + 1
                    };
                    let sy: int = if y < ii {
                        y
                    } else {
                        y + 1
                    };
                    assert(t[x] == s[sx]);
                    assert(t[y] == s[sy]);
                    assert(s[sx].0 != s[sy].0);
                }
                assert(sorted_keys(s) ==> sorted_keys(t)) by {
                    if sorted_keys(s) {
                        assert forall|x: int, y: int| 0 <= x < y < t.len() implies t[x].0
                            < t[y].0 by {
                            let sx: int = if x < ii {
                                x
                            } else {
                                x + 1
                            };
                            let sy: int = if y < ii {
                                y
                            } else {
                                y + 1
                            };
                            assert(t[x] == s[sx]);
                            assert(t[y] == s[sy]);
                            assert(s[sx].0 < s[sy].0);
                        }
                    }
                }
                assert(!has_key(t, k)) by {
                    if has_key(t, k) {
                        let j = index_of_key(t, k);
                        let sj: int = if j < ii {
                            j
                        } else {
                            j + 1
                        };
                        assert(t[j] == s[sj]);
                        assert(s[sj].0 == k && sj != ii);
                        lemma_key_at(s, sj);
                    }
                }
                assert forall|k2: u64| k2 != k implies (has_key(t, k2) <==> has_key(s, k2)) by {
                    if has_key(t, k2) {
                        let j = index_of_key(t, k2);
                        let sj: int = if j < ii {
                            j
                        } else {
                            j + 1
                        };
                        assert(t[j] == s[sj]);
                        assert(s[sj].0 == k2);
                    }
                    if has_key(s, k2) {
                        let j = index_of_key(s, k2);
                        assert(0 <= j < s.len() && s[j].0 == k2);
                        assert(j != ii);
                        if j < ii {
                            assert(t[j] == s[j]);
                        } else {
                            assert(t[j - 1] == s[j]);
                        }
                    }
                }
                assert forall|k2: u64| k2 != k && has_key(s, k2) implies value_of(t, k2)
                    == value_of(s, k2) by {
                    let j = index_of_key(s, k2);
                    assert(0 <= j < s.len() && s[j].0 == k2);
                    assert(j != ii);
                    if j < ii {
                        assert(t[j] == s[j]);
                        lemma_key_at(t, j);
                    } else {
                        assert(t[j - 1] == s[j]);
                        lemma_key_at(t, j - 1);
                    }
                }
            }
            return Some(a);
        }
        i += 1;
    }
    None
}

/// Appends an entry under a key that is not yet present.
pub fn map_push_fresh(v: &mut Vec<(u64, u128)>, k: u64, a: u128)
    requires
        distinct_keys(old(v)@),
        !has_key(old(v)@, k),
    ensures
        final(v)@ == old(v)@.push((k, a)),
        distinct_keys(final(v)@),
        has_key(final(v)@, k),
        value_of(final(v)@, k) == a,
        forall|k2: u64| k2 != k ==> (has_key(final(v)@, k2) <==> has_key(old(v)@, k2)),
        forall|k2: u64|
            k2 != k && has_key(old(v)@, k2) ==> value_of(final(v)@, k2) == value_of(old(v)@, k2),
        sum_amounts(final(v)@) == sum_amounts(old(v)@) + a,
{
    let ghost s = v@;
    v.push((k, a));
    proof {
        let t = v@;
        lemma_sum_push(s, (k, a));
        assert forall|x: int, y: int| 0 <= x < y < t.len() implies t[x].0 != t[y].0 by {
            if y < t.len() - 1 {
                assert(s[x].0 != s[y].0);
            } else {
                assert(t[y] == (k, a));
                if s[x].0 == k {
                    assert(has_key(s, k));
                }
            }
        }
        lemma_key_at(t, t.len() - 1);
        assert forall|k2: u64| k2 != k implies (has_key(t, k2) <==> has_key(s, k2)) by {
            if has_key(t, k2) {
                let j = index_of_key(t, k2);
                assert(j < t.len() - 1);
                assert(s[j].0 == k2);
            }
            if has_key(s, k2) {
                let j = index_of_key(s, k2);
                assert(t[j].0 == k2);
            }
        }
        assert forall|k2: u64| k2 != k && has_key(s, k2) implies value_of(t, k2) == value_of(
            s,
            k2,
        ) by {
            let j = index_of_key(s, k2);
            assert(0 <= j < s.len() && s[j].0 == k2);
            assert(t[j] == s[j]);
            lemma_key_at(t, j);
        }
    }
}

/// Inserts a fresh key into a sorted map, keeping the order.
pub fn map_insert_sorted(v: &mut Vec<(u64, u128)>, k: u64, a: u128)
    requires
        sorted_keys(old(v)@),
        !has_key(old(v)@, k),
    ensures
        sorted_keys(final(v)@),
        distinct_keys(final(v)@),
        final(v)@.len() == old(v)@.len() + 1,
        has_key(final(v)@, k),
        value_of(final(v)@, k) == a,
        forall|k2: u64| k2 != k ==> (has_key(final(v)@, k2) <==> has_key(old(v)@, k2)),
        forall|k2: u64|
            k2 != k && has_key(old(v)@, k2) ==> value_of(final(v)@, k2) == value_of(old(v)@, k2),
        sum_amounts(final(v)@) == sum_amounts(old(v)@) + a,
{
    let ghost s = v@;
    proof {
        lemma_sorted_implies_distinct(s);
    }
    let mut i: usize = 0;
    while i < v.len() && v[i].0 < k
        invariant
            i <= v@.len(),
            v@ == s,
            s == old(v)@,
            sorted_keys(s),
            !has_key(s, k),
            forall|j: int| 0 <= j < i ==> s[j].0 < k,
        decreases v@.len() - i,
    {
        i += 1;
    }
    proof {
        lemma_sum_insert(s, i as int, (k, a));
        if i < s.len() {
            assert(s[i as int].0 != k) by {
                if s[i as int].0 == k {
                    assert(has_key(s, k));
                }
            }
            assert(s[i as int].0 > k);
        }
    }
    v.insert(i, (k, a));
    proof {
        let t = v@;
        let ii = i as int;
        assert forall|x: int| 0 <= x < t.len() implies t[x] == (if x < ii {
            s[x]
        } else if x == ii {
            (k, a)
        } else {
            s[x - 1]
        }) by {
            s.insert_ensures(ii, (k, a));
        }
        assert forall|x: int, y: int| 0 <= x < y < t.len() implies t[x].0 < t[y].0 by {
            if x < ii && y < ii {
                assert(s[x].0 < s[y].0);
            } else if x < ii && y == ii {
                assert(s[x].0 < k);
            } else if x < ii && y > ii {
                // y - 1 >= ii > x, so both are positions of s and x < y - 1
                assert(s[x].0 < s[y - 1].0);
            } else if x == ii {
                // y - 1 >= ii is a position of s, so the loop stopped at an
                // entry whose key exceeds k, and sortedness carries it to y - 1
                assert(ii < s.len());
                assert(s[ii].0 > k);
                if ii < y - 1 {
                    assert(s[ii].0 < s[y - 1].0);
                }
                assert(k < s[y - 1].0);
            } else {
                assert(s[x - 1].0 < s[y - 1].0);
            }
        }
        lemma_sorted_implies_distinct(t);
        lemma_key_at(t, ii);
        assert forall|k2: u64| k2 != k implies (has_key(t, k2) <==> has_key(s, k2)) by {
            if has_key(t, k2) {
                let j = index_of_key(t, k2);
                if j < ii {
                    assert(s[j].0 == k2);
                } else {
                    assert(j > ii);
                    assert(s[j - 1].0 == k2);
                }
            }
            if has_key(s, k2) {
                let j = index_of_key(s, k2);
                assert(0 <= j < s.len() && s[j].0 == k2);
                if j < ii {
                    assert(t[j].0 == k2);
                } else {
                    assert(t[j + 1].0 == k2);
                }
            }
        }
        assert forall|k2: u64| k2 != k && has_key(s, k2) implies value_of(t, k2) == value_of(
            s,
            k2,
        ) by {
            let j = index_of_key(s, k2);
            assert(0 <= j < s.len() && s[j].0 == k2);
            if j < ii {
                assert(t[j] == s[j]);
                lemma_key_at(t, j);
            } else {
                assert(t[j + 1] == s[j]);
                lemma_key_at(t, j + 1);
            }
        }
    }
}

/// Copies the entries of a map.
pub fn clone_entries(v: &Vec<(u64, u128)>) -> (r: Vec<(u64, u128)>)
    ensures
        r@ == v@,
{
    let mut r: Vec<(u64, u128)> = Vec::new();
    let mut i: usize = 0;
    while i < v.len()
        invariant
            i <= v@.len(),
            r@ == v@.subrange(0, i as int),
        decreases v@.len() - i,
    {
        r.push(v[i]);
        proof {
            assert(r@ =~= v@.subrange(0, i + 1));
        }
        i += 1;
    }
    proof {
        assert(r@ =~= v@);
    }
    r
}

/// Copies a list of ids.
pub fn clone_ids(v: &Vec<u64>) -> (r: Vec<u64>)
    ensures
        r@ == v@,
{
    let mut r: Vec<u64> = Vec::new();
    let mut i: usize = 0;
    while i < v.len()
        invariant
            i <= v@.len(),
            r@ == v@.subrange(0, i as int),
        decreases v@.len() - i,
    {
        r.push(v[i]);
        proof {
            assert(r@ =~= v@.subrange(0, i + 1));
        }
        i += 1;
    }
    proof {
        assert(r@ =~= v@);
    }
    r
}

/// Whether the list contains an id.
pub fn ids_contains(v: &Vec<u64>, x: u64) -> (r: bool)
    ensures
        r <==> v@.contains(x),
{
    let mut i: usize = 0;
    while i < v.len()
        invariant
            i <= v@.len(),
            forall|j: int| 0 <= j < i ==> v@[j] != x,
        decreases v@.len() - i,
    {
        if v[i] == x {
            return true;
        }
        i += 1;
    }
    false
}

} // verus!
