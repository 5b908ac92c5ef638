//! Ranking shops by distance.
//!
//! Each shop stands for its distance by an integer key whose order is the
//! order of the distances. Shops are ranked by key; shops at the same key keep
//! the order in which they were given, as a stable sort would leave them.

use vstd::prelude::*;

verus! {

/// Shop `i` ranks before shop `j`: it is nearer, or equally near and given
/// earlier.
pub open spec fn ranks_before(keys: Seq<u32>, i: int, j: int) -> bool {
    keys[i] < keys[j] || (keys[i] == keys[j] && i < j)
}

/// The smaller of `k` and `n`.
pub open spec fn min_len(k: nat, n: nat) -> nat {
    if k < n {
        k
    } else {
        n
    }
}

/// `sel` lists the `k` nearest shops (all of them where there are fewer),
/// nearest first: the first `k` entries of a stable sort of the shops by key.
///
/// Each entry is a shop index, the entries rank strictly one after the other,
/// and every shop left out ranks after every shop listed.
pub open spec fn is_nearest(keys: Seq<u32>, k: nat, sel: Seq<usize>) -> bool {
    &&& sel.len() == min_len(k, keys.len())
    &&& forall|i: int| 0 <= i < sel.len() ==> #[trigger] sel[i] < keys.len()
    &&& forall|i: int, j: int|
        0 <= i < j < sel.len() ==> ranks_before(keys, #[trigger] sel[i] as int, #[trigger] sel[j] as int)
    &&& forall|i: int, j: usize|
        0 <= i < sel.len() && j < keys.len() && !#[trigger] sel.contains(j) ==> ranks_before(
            keys,
            #[trigger] sel[i] as int,
            j as int,
        )
}

/// A sequence of fewer than `n` distinct indices below `n` misses one of them.
proof fn lemma_missing_index(sel: Seq<usize>, n: usize)
    requires
        sel.len() < n,
        forall|i: int| 0 <= i < sel.len() ==> #[trigger] sel[i] < n,
        sel.no_duplicates(),
    ensures
        exists|j: usize| j < n && !sel.contains(j),
    decreases n,
{
    let m = (n - 1) as usize;
    if !sel.contains(m) {
        assert(m < n && !sel.contains(m));
    } else {
        let idx = choose|idx: int| 0 <= idx < sel.len() && sel[idx] == m;
        let rest = sel.remove(idx);
        assert forall|i: int| 0 <= i < rest.len() implies #[trigger] rest[i] < m by {
            if i < idx {
                assert(rest[i] == sel[i]);
                assert(sel[i] != sel[idx]);
            } else {
                assert(rest[i] == sel[i + 1]);
                assert(sel[i + 1] != sel[idx]);
            }
        }
        assert(rest.no_duplicates()) by {
            assert forall|a: int, b: int| 0 <= a < rest.len() && 0 <= b < rest.len() && a != b implies rest[a] != rest[b] by {
                let sa = if a < idx { a } else { a + 1 };
                let sb = if b < idx { b } else { b + 1 };
                assert(rest[a] == sel[sa]);
                assert(rest[b] == sel[sb]);
            }
        }
        lemma_missing_index(rest, m);
        let j = choose|j: usize| j < m && !rest.contains(j);
        assert(!sel.contains(j)) by {
            if sel.contains(j) {
                let t = choose|t: int| 0 <= t < sel.len() && sel[t] == j;
                assert(t != idx);
                if t < idx {
                    assert(rest[t] == j);
                } else {
                    assert(rest[t - 1] == j);
                }
            }
        }
    }
}

/// Exec form of `ranks_before`.
fn ranks_before_exec(keys: &Vec<u32>, i: usize, j: usize) -> (res: bool)
    requires
        i < keys.len(),
        j < keys.len(),
    ensures
        res == ranks_before(keys@, i as int, j as int),
{
    keys[i] < keys[j] || (keys[i] == keys[j] && i < j)
}

/// The indices of the `k` nearest shops, nearest first; all shops where there
/// are fewer than `k`. Shops at equal keys come in the order they were given.
pub fn nearest(keys: &Vec<u32>, k: usize) -> (sel: Vec<usize>)
    ensures
        is_nearest(keys@, k as nat, sel@),
{
    let n = keys.len();
    let limit = if k < n {
        k
    } else {
        n
    };
    let mut sel: Vec<usize> = Vec::new();
    while sel.len() < limit
        invariant
            n == keys.len(),
            limit == min_len(k as nat, n as nat),
            sel.len() <= limit,
            forall|i: int| 0 <= i < sel.len() ==> #[trigger] sel@[i] < n,
            forall|i: int, j: int|
                0 <= i < j < sel.len() ==> ranks_before(keys@, #[trigger] sel@[i] as int, #[trigger] sel@[j] as int),
            forall|i: int, j: usize|
                0 <= i < sel.len() && j < n && !#[trigger] sel@.contains(j) ==> ranks_before(
                    keys@,
                    #[trigger] sel@[i] as int,
                    j as int,
                ),
        decreases limit - sel.len(),
    {
        let count = sel.len();
        // Shop `j` is still unlisted exactly when it ranks after the last listed shop.
        let mut best: usize = n;
        let mut j: usize = 0;
        while j < n
            invariant
                n == keys.len(),
                count == sel.len(),
                count < n,
                j <= n,
                forall|i: int| 0 <= i < sel.len() ==> #[trigger] sel@[i] < n,
                forall|a: int, b: int|
                    0 <= a < b < sel.len() ==> ranks_before(keys@, #[trigger] sel@[a] as int, #[trigger] sel@[b] as int),
                forall|i: int, t: usize|
                    0 <= i < sel.len() && t < n && !#[trigger] sel@.contains(t) ==> ranks_before(
                        keys@,
                        #[trigger] sel@[i] as int,
                        t as int,
                    ),
                best == n || (best < n && !sel@.contains(best)),
                forall|t: usize|
                    t < j && !#[trigger] sel@.contains(t) ==> best < n && (best == t || ranks_before(
                        keys@,
                        best as int,
                        t as int,
                    )),
            decreases n - j,
        {
            let unlisted = count == 0 || ranks_before_exec(keys, sel[count - 1], j);
            proof {
                if count > 0 {
                    let last = sel@[count - 1];
                    if sel@.contains(j) {
                        let m = choose|m: int| 0 <= m < sel.len() && sel@[m] == j;
                        if m < count - 1 {
                            assert(ranks_before(keys@, sel@[m] as int, sel@[count - 1] as int));
                        }
                        assert(!unlisted);
                    } else {
                        assert(ranks_before(keys@, sel@[count - 1] as int, j as int));
                        assert(unlisted);
                    }
                } else {
                    assert(!sel@.contains(j));
                }
                assert(unlisted == !sel@.contains(j));
            }
            if unlisted && (best == n || ranks_before_exec(keys, j, best)) {
                best = j;
            }
            j += 1;
        }
        proof {
            assert(sel@.no_duplicates()) by {
                assert forall|a: int, b: int| 0 <= a < sel.len() && 0 <= b < sel.len() && a != b implies sel@[a] != sel@[b] by {
                    if a < b {
                        assert(ranks_before(keys@, sel@[a] as int, sel@[b] as int));
                    } else {
                        assert(ranks_before(keys@, sel@[b] as int, sel@[a] as int));
                    }
                }
            }
            lemma_missing_index(sel@, n);
            let t = choose|t: usize| t < n && !sel@.contains(t);
            assert(best < n);
        }
        let ghost old_sel = sel@;
        sel.push(best);
        proof {
            assert(sel@ == old_sel.push(best));
            assert forall|a: int, b: int| 0 <= a < b < sel.len() implies ranks_before(keys@, #[trigger] sel@[a] as int, #[trigger] sel@[b] as int) by {
                if b == count {
                    assert(sel@[a] == old_sel[a]);
                    assert(!old_sel.contains(best));
                    assert(ranks_before(keys@, old_sel[a] as int, best as int));
                } else {
                    assert(sel@[a] == old_sel[a]);
                    assert(sel@[b] == old_sel[b]);
                }
            }
            assert forall|i: int, t: usize| 0 <= i < sel.len() && t < n && !#[trigger] sel@.contains(t) implies ranks_before(keys@, #[trigger] sel@[i] as int, t as int) by {
                assert(!old_sel.contains(t)) by {
                    if old_sel.contains(t) {
                        let m = choose|m: int| 0 <= m < old_sel.len() && old_sel[m] == t;
                        assert(sel@[m] == t);
                    }
                }
                assert(t != best) by {
                    assert(sel@[count as int] == best);
                }
                if i < count {
                    assert(sel@[i] == old_sel[i]);
                } else {
                    assert(sel@[i] == best);
                }
            }
        }
    }
    sel
}


/// Two sequences that both list the `k` nearest shops agree on their first
/// `i` entries.
proof fn lemma_nearest_agree_upto(keys: Seq<u32>, k: nat, s1: Seq<usize>, s2: Seq<usize>, i: int)
    requires
        is_nearest(keys, k, s1),
        is_nearest(keys, k, s2),
        0 <= i <= s1.len(),
    ensures
        forall|t: int| 0 <= t < i ==> s1[t] == s2[t],
    decreases i,
{
    if i > 0 {
        lemma_nearest_agree_upto(keys, k, s1, s2, i - 1);
        let d = i - 1;
        let a = s1[d];
        let b = s2[d];
        if a != b {
            // `a` ranks after `b` in `s2`, and `b` after `a` in `s1`.
            if s2.contains(a) {
                let p = choose|p: int| 0 <= p < s2.len() && s2[p] == a;
                if p < d {
                    assert(s1[p] == a);
                    assert(ranks_before(keys, s1[p] as int, s1[d] as int));
                } else {
                    assert(p != d);
                    assert(ranks_before(keys, s2[d] as int, s2[p] as int));
                }
            } else {
                assert(ranks_before(keys, s2[d] as int, a as int));
            }
            if s1.contains(b) {
                let p = choose|p: int| 0 <= p < s1.len() && s1[p] == b;
                if p < d {
                    assert(s2[p] == b);
                    assert(ranks_before(keys, s2[p] as int, s2[d] as int));
                } else {
                    assert(p != d);
                    assert(ranks_before(keys, s1[d] as int, s1[p] as int));
                }
            } else {
                assert(ranks_before(keys, s1[d] as int, b as int));
            }
        }
    }
}

/// Law: the listing of the `k` nearest shops is unique, so `nearest` is
/// fully determined by its contract.
pub proof fn nearest_is_unique(keys: Seq<u32>, k: nat, s1: Seq<usize>, s2: Seq<usize>)
    requires
        is_nearest(keys, k, s1),
        is_nearest(keys, k, s2),
    ensures
        s1 == s2,
{
    lemma_nearest_agree_upto(keys, k, s1, s2, s1.len() as int);
    assert(s1 =~= s2);
}

/// Law: asking for fewer shops gives a prefix of the longer listing; the
/// `k` nearest are the first `k` of the `k2` nearest for `k <= k2`.
pub proof fn nearest_prefix(keys: Seq<u32>, k: nat, k2: nat, s: Seq<usize>, s2: Seq<usize>)
    requires
        k <= k2,
        is_nearest(keys, k, s),
        is_nearest(keys, k2, s2),
    ensures
        s == s2.take(min_len(k, keys.len()) as int),
{
    let m = min_len(k, keys.len()) as int;
    let t = s2.take(m);
    assert forall|i: int, j: usize| 0 <= i < t.len() && j < keys.len() && !#[trigger] t.contains(j) implies ranks_before(keys, #[trigger] t[i] as int, j as int) by {
        if s2.contains(j) {
            let p = choose|p: int| 0 <= p < s2.len() && s2[p] == j;
            if p < m {
                assert(t[p] == j);
            }
            assert(ranks_before(keys, s2[i] as int, s2[p] as int));
        } else {
            assert(ranks_before(keys, s2[i] as int, j as int));
        }
    }
    assert(is_nearest(keys, k, t));
    nearest_is_unique(keys, k, s, t);
}

/// Law: every listed shop is at least as near as every shop left out, and
/// the listing goes from nearer to farther.
pub proof fn nearest_first(keys: Seq<u32>, k: nat, sel: Seq<usize>)
    requires
        is_nearest(keys, k, sel),
    ensures
        forall|i: int, j: int| 0 <= i < j < sel.len() ==> keys[#[trigger] sel[i] as int] <= keys[#[trigger] sel[j] as int],
        forall|i: int, j: usize|
            0 <= i < sel.len() && j < keys.len() && !#[trigger] sel.contains(j) ==> keys[#[trigger] sel[i] as int] <= keys[j as int],
{
}

/// A sequence of distinct indices below `n` is no longer than `n`.
proof fn lemma_distinct_below_len(sel: Seq<usize>, n: nat)
    requires
        forall|i: int| 0 <= i < sel.len() ==> #[trigger] sel[i] < n,
        sel.no_duplicates(),
    ensures
        sel.len() <= n,
    decreases n,
{
    if n == 0 {
        if sel.len() > 0 {
            assert(sel[0] < 0);
        }
    } else {
        let m = (n - 1) as nat;
        if exists|idx: int| 0 <= idx < sel.len() && sel[idx] == m {
            let idx = choose|idx: int| 0 <= idx < sel.len() && sel[idx] == m;
            let rest = sel.remove(idx);
            assert forall|i: int| 0 <= i < rest.len() implies #[trigger] rest[i] < m by {
                if i < idx {
                    assert(rest[i] == sel[i]);
                } else {
                    assert(rest[i] == sel[i + 1]);
                }
            }
            assert(rest.no_duplicates()) by {
                assert forall|a: int, b: int| 0 <= a < rest.len() && 0 <= b < rest.len() && a != b implies rest[a] != rest[b] by {
                    let sa = if a < idx { a } else { a + 1 };
                    let sb = if b < idx { b } else { b + 1 };
                    assert(rest[a] == sel[sa]);
                    assert(rest[b] == sel[sb]);
                }
            }
            lemma_distinct_below_len(rest, m);
        } else {
            assert forall|i: int| 0 <= i < sel.len() implies #[trigger] sel[i] < m by {
                assert(sel[i] != m);
            }
            lemma_distinct_below_len(sel, m);
        }
    }
}

/// Law: asking for at least as many shops as there are lists every shop
/// exactly once, so the listing is a stable sort of all the shops.
pub proof fn nearest_all_is_permutation(keys: Seq<u32>, k: nat, sel: Seq<usize>)
    requires
        k >= keys.len(),
        is_nearest(keys, k, sel),
    ensures
        sel.len() == keys.len(),
        sel.no_duplicates(),
        forall|j: usize| j < keys.len() ==> #[trigger] sel.contains(j),
{
    assert(sel.no_duplicates()) by {
        assert forall|a: int, b: int| 0 <= a < sel.len() && 0 <= b < sel.len() && a != b implies sel[a] != sel[b] by {
            if a < b {
                assert(ranks_before(keys, sel[a] as int, sel[b] as int));
            } else {
                assert(ranks_before(keys, sel[b] as int, sel[a] as int));
            }
        }
    }
    assert forall|j: usize| j < keys.len() implies #[trigger] sel.contains(j) by {
        if !sel.contains(j) {
            let n = keys.len();
            // Close the gap at `j`: the values stay distinct and fall below `n - 1`.
            let shifted = sel.map_values(|x: usize| if x > j { (x - 1) as usize } else { x });
            assert forall|i: int| 0 <= i < shifted.len() implies #[trigger] shifted[i] < (n - 1) as nat by {
                assert(sel[i] != j);
            }
            assert(shifted.no_duplicates()) by {
                assert forall|a: int, b: int| 0 <= a < shifted.len() && 0 <= b < shifted.len() && a != b implies shifted[a] != shifted[b] by {
                    assert(sel[a] != sel[b]);
                    assert(sel[a] != j);
                    assert(sel[b] != j);
                }
            }
            lemma_distinct_below_len(shifted, (n - 1) as nat);
        }
    }
}

} // verus!
