//! Counting how often keys occur and ranking them by count.
use vstd::prelude::*;

use crate::text::views;

verus! {

/// How many times `k` occurs in `keys`.
pub open spec fn occurrences(keys: Seq<Seq<char>>, k: Seq<char>) -> nat
    decreases keys.len(),
{
    if keys.len() == 0 {
        0
    } else {
        occurrences(keys.drop_last(), k) + if keys.last() == k {
            1nat
        } else {
            0nat
        }
    }
}

/// Whether some entry of `r` has the key `k`.
pub open spec fn has_key(r: Seq<(String, usize)>, k: Seq<char>) -> bool {
    exists|i: int| 0 <= i < r.len() && (#[trigger] r[i]).0@ == k
}

/// Counts never increase along `r`.
pub open spec fn sorted_by_count(r: Seq<(String, usize)>) -> bool {
    forall|i: int, j: int| 0 <= i < j < r.len() ==> (#[trigger] r[i]).1 >= (#[trigger] r[j]).1
}

/// No two entries of `r` share a key.
pub open spec fn distinct_keys(r: Seq<(String, usize)>) -> bool {
    forall|i: int, j: int| 0 <= i < j < r.len() ==> (#[trigger] r[i]).0@ != (#[trigger] r[j]).0@
}

/// Every entry of `r` is a key of `keys` with the number of times it occurs there.
pub open spec fn counted_in(r: Seq<(String, usize)>, keys: Seq<Seq<char>>) -> bool {
    forall|i: int|
        0 <= i < r.len() ==> {
            &&& keys.contains((#[trigger] r[i]).0@)
            &&& r[i].1 == occurrences(keys, r[i].0@)
        }
}

/// Every key of `keys` has an entry in `r`.
pub open spec fn covers(r: Seq<(String, usize)>, keys: Seq<Seq<char>>) -> bool {
    forall|j: int| 0 <= j < keys.len() ==> #[trigger] has_key(r, keys[j])
}

/// `r` ranks the keys of `keys` by how often they occur: at most `limit`
/// distinct keys of `keys`, each with its exact count, in non-increasing order of
/// count; keys are left out only when `limit` of them are kept, and a key left
/// out occurs no more often than the last one kept.
pub open spec fn is_ranking(r: Seq<(String, usize)>, keys: Seq<Seq<char>>, limit: nat) -> bool {
    &&& r.len() <= limit
    &&& counted_in(r, keys)
    &&& sorted_by_count(r)
    &&& distinct_keys(r)
    &&& forall|j: int|
        0 <= j < keys.len() ==> #[trigger] has_key(r, keys[j]) || (r.len() == limit && (r.len()
            == 0 || occurrences(keys, keys[j]) <= r[r.len() - 1].1))
}

proof fn lemma_occurrences_bound(keys: Seq<Seq<char>>, k: Seq<char>)
    ensures
        occurrences(keys, k) <= keys.len(),
    decreases keys.len(),
{
    if keys.len() > 0 {
        lemma_occurrences_bound(keys.drop_last(), k);
    }
}

proof fn lemma_occurs_contains(keys: Seq<Seq<char>>, k: Seq<char>)
    requires
        occurrences(keys, k) > 0,
    ensures
        keys.contains(k),
    decreases keys.len(),
{
    if keys.last() == k {
        assert(keys[keys.len() - 1] == k);
    } else {
        lemma_occurs_contains(keys.drop_last(), k);
        let t = choose|t: int| 0 <= t < keys.drop_last().len() && keys.drop_last()[t] == k;
        assert(keys[t] == k);
    }
}

/// The index of the entry with key `key`, or `r.len()` when there is none.
fn find_key(r: &Vec<(String, usize)>, key: &String) -> (x: usize)
    ensures
        x <= r@.len(),
        x < r@.len() ==> r@[x as int].0@ == key@,
        x == r@.len() ==> !has_key(r@, key@),
{
    let m = r.len();
    let mut x: usize = 0;
    while x < m && !(r[x].0 == *key)
        invariant
            x <= m,
            m == r@.len(),
            forall|t: int| 0 <= t < x ==> (#[trigger] r@[t]).0@ != key@,
        decreases m - x,
    {
        x = x + 1;
    }
    x
}

/// One more key seen: the counts of the keys seen so far, updated.
proof fn lemma_count_step(
    old_r: Seq<(String, usize)>,
    r: Seq<(String, usize)>,
    pre: Seq<Seq<char>>,
    k: Seq<char>,
    x: int,
)
    requires
        counted_in(old_r, pre),
        distinct_keys(old_r),
        covers(old_r, pre),
        0 <= x <= old_r.len(),
        x < old_r.len() ==> old_r[x].0@ == k && r == old_r.update(x, (old_r[x].0, r[x].1)) && r[x].1
            == old_r[x].1 + 1,
        x == old_r.len() ==> !has_key(old_r, k) && r.len() == old_r.len() + 1 && r.drop_last() == old_r && r.last().0@ == k && r.last().1 == 1,
    ensures
        counted_in(r, pre.push(k)),
        distinct_keys(r),
        covers(r, pre.push(k)),
{
    let post = pre.push(k);
    assert(post.drop_last() =~= pre);
    assert forall|q: Seq<char>| #[trigger] occurrences(post, q) == occurrences(pre, q) + if q == k {
        1nat
    } else {
        0nat
    } by {}
    assert forall|q: Seq<char>| pre.contains(q) implies #[trigger] post.contains(q) by {
        let t = choose|t: int| 0 <= t < pre.len() && pre[t] == q;
        assert(post[t] == q);
    }
    assert(post.contains(k)) by {
        assert(post[pre.len() as int] == k);
    }
    if x == old_r.len() {
        assert forall|i: int| 0 <= i < old_r.len() implies old_r[i].0@ != k by {
            if old_r[i].0@ == k {
                assert(has_key(old_r, k));
            }
        }
        assert(occurrences(pre, k) == 0) by {
            if occurrences(pre, k) > 0 {
                lemma_occurs_contains(pre, k);
                let t = choose|t: int| 0 <= t < pre.len() && pre[t] == k;
                assert(has_key(old_r, pre[t]));
            }
        }
        assert forall|i: int| 0 <= i < r.len() - 1 implies #[trigger] r[i] == old_r[i] by {
            assert(r[i] == r.drop_last()[i]);
        }
        assert forall|i: int, j: int| 0 <= i < j < r.len() implies (#[trigger] r[i]).0@ != (
        #[trigger] r[j]).0@ by {
            if j == r.len() - 1 {
                assert(old_r[i].0@ != k);
            }
        }
        assert forall|j: int| 0 <= j < post.len() implies #[trigger] has_key(r, post[j]) by {
            if j < pre.len() {
                assert(post[j] == pre[j]);
                assert(has_key(old_r, pre[j]));
                let i = choose|i: int| 0 <= i < old_r.len() && (#[trigger] old_r[i]).0@ == pre[j];
                assert(r[i] == old_r[i]);
            } else {
                assert(r[r.len() - 1].0@ == post[j]);
            }
        }
        assert forall|i: int| 0 <= i < r.len() implies {
            &&& post.contains((#[trigger] r[i]).0@)
            &&& r[i].1 == occurrences(post, r[i].0@)
        } by {
            if i < old_r.len() {
                assert(r[i] == old_r[i]);
                assert(pre.contains(old_r[i].0@));
                assert(occurrences(post, r[i].0@) == occurrences(pre, r[i].0@));
            } else {
                assert(occurrences(post, k) == 1);
            }
        }
    } else {
        assert forall|i: int| 0 <= i < r.len() implies {
            &&& post.contains((#[trigger] r[i]).0@)
            &&& r[i].1 == occurrences(post, r[i].0@)
        } by {
            assert(pre.contains(old_r[i].0@));
            if i != x {
                assert(r[i] == old_r[i]);
                assert(old_r[i].0@ != old_r[x].0@);
                assert(occurrences(post, r[i].0@) == occurrences(pre, r[i].0@));
            } else {
                assert(occurrences(post, k) == occurrences(pre, k) + 1);
            }
        }
        assert forall|j: int| 0 <= j < post.len() implies #[trigger] has_key(r, post[j]) by {
            if j < pre.len() {
                assert(post[j] == pre[j]);
                assert(has_key(old_r, pre[j]));
                let i = choose|i: int| 0 <= i < old_r.len() && (#[trigger] old_r[i]).0@ == pre[j];
                assert(r[i].0@ == old_r[i].0@);
            } else {
                assert(r[x].0@ == post[j]);
            }
        }
        assert forall|i: int, j: int| 0 <= i < j < r.len() implies (#[trigger] r[i]).0@ != (
        #[trigger] r[j]).0@ by {
            assert(r[i].0@ == old_r[i].0@);
            assert(r[j].0@ == old_r[j].0@);
        }
    }
}

/// The distinct keys of `keys` with the number of times each occurs, in order
/// of first occurrence.
fn count_keys(keys: &Vec<String>) -> (r: Vec<(String, usize)>)
    ensures
        counted_in(r@, views(keys@)),
        distinct_keys(r@),
        covers(r@, views(keys@)),
{
    let mut entries: Vec<(String, usize)> = Vec::new();
    let n = keys.len();
    for i in 0..n
        invariant
            n == keys@.len(),
            counted_in(entries@, views(keys@.take(i as int))),
            distinct_keys(entries@),
            covers(entries@, views(keys@.take(i as int))),
    {
        let ghost pre = views(keys@.take(i as int));
        let ghost k = keys@[i as int]@;
        proof {
            assert(views(keys@.take(i + 1)) =~= pre.push(k));
        }
        let x = find_key(&entries, &keys[i]);
        let ghost old_entries = entries@;
        if x < entries.len() {
            let c = entries[x].1;
            proof {
                lemma_occurrences_bound(pre, k);
            }
            let key = entries[x].0.clone();
            entries.set(x, (key, c + 1));
        } else {
            let key = keys[i].clone();
            entries.push((key, 1));
            proof {
                assert(entries@.drop_last() =~= old_entries);
            }
        }
        proof {
            lemma_count_step(old_entries, entries@, pre, k, x as int);
        }
    }
    proof {
        assert(keys@.take(n as int) =~= keys@);
    }
    entries
}

/// Places `e` in the sorted `r` after every entry that counts at least as much.
fn insert_by_count(r: &mut Vec<(String, usize)>, e: (String, usize)) -> (p: usize)
    requires
        sorted_by_count(old(r)@),
    ensures
        p <= old(r)@.len(),
        final(r)@ == old(r)@.insert(p as int, e),
        sorted_by_count(final(r)@),
{
    let c = e.1;
    let m = r.len();
    let mut p: usize = 0;
    while p < m && r[p].1 >= c
        invariant
            p <= m,
            m == r@.len(),
            forall|t: int| 0 <= t < p ==> (#[trigger] r@[t]).1 >= c,
        decreases m - p,
    {
        p = p + 1;
    }
    let ghost old_r = r@;
    proof {
        assert forall|t: int| p <= t < old_r.len() implies (#[trigger] old_r[t]).1 < c by {
            assert(old_r[p as int].1 < c);
            if t > p {
                assert(old_r[p as int].1 >= old_r[t].1);
            }
        }
    }
    r.insert(p, e);
    proof {
        assert forall|x: int| 0 <= x < r@.len() implies #[trigger] r@[x] == if x < p {
            old_r[x]
        } else if x == p {
            e
        } else {
            old_r[x - 1]
        } by {}
    }
    p
}

/// What inserting an entry does to key membership, counts and distinctness.
proof fn lemma_insert_facts(
    old_r: Seq<(String, usize)>,
    p: int,
    e: (String, usize),
    ks: Seq<Seq<char>>,
)
    requires
        0 <= p <= old_r.len(),
        counted_in(old_r, ks),
        distinct_keys(old_r),
        !has_key(old_r, e.0@),
        ks.contains(e.0@),
        e.1 == occurrences(ks, e.0@),
    ensures
        forall|k: Seq<char>| #[trigger] has_key(old_r.insert(p, e), k) == (has_key(old_r, k) || k == e.0@),
        counted_in(old_r.insert(p, e), ks),
        distinct_keys(old_r.insert(p, e)),
{
    let r = old_r.insert(p, e);
    assert forall|x: int| 0 <= x < r.len() implies #[trigger] r[x] == if x < p {
        old_r[x]
    } else if x == p {
        e
    } else {
        old_r[x - 1]
    } by {}
    assert forall|k: Seq<char>| #[trigger] has_key(r, k) == (has_key(old_r, k) || k == e.0@) by {
        if has_key(r, k) {
            let x = choose|x: int| 0 <= x < r.len() && (#[trigger] r[x]).0@ == k;
            if x < p {
                assert(old_r[x].0@ == k);
            } else if x > p {
                assert(old_r[x - 1].0@ == k);
            }
        }
        if has_key(old_r, k) {
            let y = choose|y: int| 0 <= y < old_r.len() && (#[trigger] old_r[y]).0@ == k;
            if y < p {
                assert(r[y] == old_r[y]);
            } else {
                assert(r[y + 1] == old_r[y]);
            }
        }
        if k == e.0@ {
            assert(r[p] == e);
        }
    }
    assert forall|i: int, j: int| 0 <= i < j < r.len() implies (#[trigger] r[i]).0@ != (
    #[trigger] r[j]).0@ by {
        if i == p {
            assert(has_key(old_r, r[j].0@));
        } else if j == p {
            assert(has_key(old_r, r[i].0@));
        }
    }
}

/// Ranks the keys of `keys` by how often they occur and keeps the first
/// `limit` of them; keys with equal counts keep the order of first occurrence.
pub fn rank_keys(keys: &Vec<String>, limit: usize) -> (r: Vec<(String, usize)>)
    ensures
        is_ranking(r@, views(keys@), limit as nat),
{
    let entries = count_keys(keys);
    let ghost ks = views(keys@);
    let n = entries.len();
    let mut out: Vec<(String, usize)> = Vec::new();
    let mut i: usize = 0;
    while i < n
        invariant
            i <= n,
            n == entries@.len(),
            out@.len() == i,
            counted_in(entries@, ks),
            distinct_keys(entries@),
            covers(entries@, ks),
            counted_in(out@, ks),
            distinct_keys(out@),
            sorted_by_count(out@),
            forall|x: int|
                0 <= x < out@.len() ==> #[trigger] has_key(entries@.take(i as int), out@[x].0@),
            forall|j: int| 0 <= j < i ==> #[trigger] has_key(out@, entries@[j].0@),
        decreases n - i,
    {
        let key = entries[i].0.clone();
        let c = entries[i].1;
        let ghost e = (key, c);
        let ghost old_out = out@;
        let ghost pre = entries@.take(i as int);
        let ghost post = entries@.take(i + 1);
        proof {
            assert(!has_key(old_out, e.0@)) by {
                if has_key(old_out, e.0@) {
                    let x = choose|x: int| 0 <= x < old_out.len() && (#[trigger] old_out[x]).0@ == e.0@;
                    assert(has_key(entries@.take(i as int), out@[x].0@));
                    assert(has_key(pre, old_out[x].0@));
                    let j = choose|j: int| 0 <= j < pre.len() && (#[trigger] pre[j]).0@ == old_out[x].0@;
                    assert(entries@[j].0@ != entries@[i as int].0@);
                }
            }
        }
        let p = insert_by_count(&mut out, (key, c));
        proof {
            lemma_insert_facts(old_out, p as int, e, ks);
            assert forall|x: int| 0 <= x < out@.len() implies #[trigger] has_key(post, out@[x].0@) by {
                if has_key(old_out, out@[x].0@) {
                    let y = choose|y: int| 0 <= y < old_out.len() && (#[trigger] old_out[y]).0@ == out@[x].0@;
                    assert(has_key(pre, old_out[y].0@));
                    let j = choose|j: int| 0 <= j < pre.len() && (#[trigger] pre[j]).0@ == old_out[y].0@;
                    assert(post[j] == pre[j]);
                } else {
                    assert(post[i as int] == e);
                }
            }
            assert forall|j: int| 0 <= j < i + 1 implies #[trigger] has_key(out@, entries@[j].0@) by {
                if j < i {
                    assert(has_key(old_out, entries@[j].0@));
                }
            }
        }
        i = i + 1;
    }
    // keep the first `limit` entries
    let mut r: Vec<(String, usize)> = Vec::new();
    let k = if n < limit {
        n
    } else {
        limit
    };
    for i in 0..k
        invariant
            k <= n,
            k <= limit,
            n == out@.len(),
            r@ == out@.take(i as int),
    {
        let key = out[i].0.clone();
        let c = out[i].1;
        r.push((key, c));
        proof {
            assert(r@ =~= out@.take(i + 1));
        }
    }
    proof {
        assert(entries@.take(n as int) =~= entries@);
        assert(r@ =~= out@.take(k as int));
        assert forall|j: int| 0 <= j < ks.len() implies #[trigger] has_key(r@, ks[j]) || (r@.len()
            == limit && (r@.len() == 0 || occurrences(ks, ks[j]) <= r@[r@.len() - 1].1)) by {
            assert(has_key(entries@, ks[j]));
            let y = choose|y: int| 0 <= y < entries@.len() && (#[trigger] entries@[y]).0@ == ks[j];
            assert(has_key(out@, entries@[y].0@));
            let x = choose|x: int| 0 <= x < out@.len() && (#[trigger] out@[x]).0@ == entries@[y].0@;
            if x < k {
                assert(r@[x] == out@[x]);
            } else if k > 0 {
                assert(out@[k - 1].1 >= out@[x].1);
                assert(r@[k - 1] == out@[k - 1]);
                assert(counted_in(out@, ks));
                assert(out@[x].1 == occurrences(ks, out@[x].0@));
            }
        }
    }
    r
}

// ---------------------------------------------------------------------
// Counting rows that list a key
// ---------------------------------------------------------------------

/// `keys` without repeats, each kept at its first occurrence.
pub open spec fn distinct_in_order(keys: Seq<Seq<char>>) -> Seq<Seq<char>>
    decreases keys.len(),
{
    if keys.len() == 0 {
        Seq::empty()
    } else {
        let d = distinct_in_order(keys.drop_last());
        if d.contains(keys.last()) {
            d
        } else {
            d.push(keys.last())
        }
    }
}

/// The keys of each row, each row's keys taken once, one row after the other.
pub open spec fn keys_once_per_row(lists: Seq<Seq<Seq<char>>>) -> Seq<Seq<char>>
    decreases lists.len(),
{
    if lists.len() == 0 {
        Seq::empty()
    } else {
        keys_once_per_row(lists.drop_last()) + distinct_in_order(lists.last())
    }
}

/// How many rows list `k`.
pub open spec fn rows_listing(lists: Seq<Seq<Seq<char>>>, k: Seq<char>) -> nat
    decreases lists.len(),
{
    if lists.len() == 0 {
        0
    } else {
        rows_listing(lists.drop_last(), k) + if lists.last().contains(k) {
            1nat
        } else {
            0nat
        }
    }
}

/// `r` ranks the keys that the rows list by the number of rows that list them:
/// at most `limit` distinct keys, each listed by some row and paired with the
/// number of rows listing it, in non-increasing order of that number; keys are
/// left out only when `limit` of them are kept, and a key left out is listed by
/// no more rows than the last one kept.
pub open spec fn ranks_rows(r: Seq<(String, usize)>, lists: Seq<Seq<Seq<char>>>, limit: nat) -> bool {
    &&& r.len() <= limit
    &&& forall|i: int|
        0 <= i < r.len() ==> {
            &&& rows_listing(lists, (#[trigger] r[i]).0@) > 0
            &&& r[i].1 == rows_listing(lists, r[i].0@)
        }
    &&& sorted_by_count(r)
    &&& distinct_keys(r)
    &&& forall|k: Seq<char>|
        #[trigger] rows_listing(lists, k) > 0 ==> has_key(r, k) || (r.len() == limit && (r.len()
            == 0 || rows_listing(lists, k) <= r[r.len() - 1].1))
}

proof fn lemma_contains_occurs(keys: Seq<Seq<char>>, k: Seq<char>)
    requires
        keys.contains(k),
    ensures
        occurrences(keys, k) > 0,
    decreases keys.len(),
{
    if keys.last() != k {
        let t = choose|t: int| 0 <= t < keys.len() && keys[t] == k;
        assert(keys.drop_last()[t] == k);
        lemma_contains_occurs(keys.drop_last(), k);
    }
}

/// A ranking of the keys taken once per row ranks the keys by the number of
/// rows that list them.
pub proof fn lemma_ranking_counts_rows(r: Seq<(String, usize)>, lists: Seq<Seq<Seq<char>>>, limit: nat)
    requires
        is_ranking(r, keys_once_per_row(lists), limit),
    ensures
        ranks_rows(r, lists, limit),
{
    let ks = keys_once_per_row(lists);
    assert forall|i: int| 0 <= i < r.len() implies {
        &&& rows_listing(lists, (#[trigger] r[i]).0@) > 0
        &&& r[i].1 == rows_listing(lists, r[i].0@)
    } by {
        lemma_once_per_row_counts_rows(lists, r[i].0@);
        lemma_contains_occurs(ks, r[i].0@);
    }
    assert forall|k: Seq<char>| #[trigger] rows_listing(lists, k) > 0 implies has_key(r, k) || (
    r.len() == limit && (r.len() == 0 || rows_listing(lists, k) <= r[r.len() - 1].1)) by {
        lemma_once_per_row_counts_rows(lists, k);
        lemma_occurs_contains(ks, k);
        let j = choose|j: int| 0 <= j < ks.len() && ks[j] == k;
        assert(has_key(r, ks[j]) || (r.len() == limit && (r.len() == 0 || occurrences(ks, ks[j])
            <= r[r.len() - 1].1)));
    }
}

proof fn lemma_occurrences_concat(a: Seq<Seq<char>>, b: Seq<Seq<char>>, k: Seq<char>)
    ensures
        occurrences(a + b, k) == occurrences(a, k) + occurrences(b, k),
    decreases b.len(),
{
    if b.len() == 0 {
        assert(a + b =~= a);
    } else {
        lemma_occurrences_concat(a, b.drop_last(), k);
        assert((a + b).drop_last() =~= a + b.drop_last());
        assert((a + b).last() == b.last());
    }
}

proof fn lemma_distinct_in_order(keys: Seq<Seq<char>>, k: Seq<char>)
    ensures
        occurrences(distinct_in_order(keys), k) == if keys.contains(k) {
            1nat
        } else {
            0nat
        },
        distinct_in_order(keys).contains(k) == keys.contains(k),
    decreases keys.len(),
{
    if keys.len() > 0 {
        let rest = keys.drop_last();
        lemma_distinct_in_order(rest, k);
        lemma_distinct_in_order(rest, keys.last());
        let d = distinct_in_order(rest);
        assert(keys.contains(k) == (rest.contains(k) || keys.last() == k)) by {
            if keys.contains(k) {
                let t = choose|t: int| 0 <= t < keys.len() && keys[t] == k;
                if t < keys.len() - 1 {
                    assert(rest[t] == k);
                }
            }
            if rest.contains(k) {
                let t = choose|t: int| 0 <= t < rest.len() && rest[t] == k;
                assert(keys[t] == k);
            }
            if keys.last() == k {
                assert(keys[keys.len() - 1] == k);
            }
        }
        if !d.contains(keys.last()) {
            let e = d.push(keys.last());
            assert(e.drop_last() =~= d);
            assert(e.contains(k) == (d.contains(k) || keys.last() == k)) by {
                if e.contains(k) {
                    let t = choose|t: int| 0 <= t < e.len() && e[t] == k;
                    if t < d.len() {
                        assert(d[t] == k);
                    }
                }
                if d.contains(k) {
                    let t = choose|t: int| 0 <= t < d.len() && d[t] == k;
                    assert(e[t] == k);
                }
                if keys.last() == k {
                    assert(e[d.len() as int] == k);
                }
            }
        }
    }
}

/// Counting the keys taken once per row counts the rows that list a key.
pub proof fn lemma_once_per_row_counts_rows(lists: Seq<Seq<Seq<char>>>, k: Seq<char>)
    ensures
        occurrences(keys_once_per_row(lists), k) == rows_listing(lists, k),
    decreases lists.len(),
{
    if lists.len() > 0 {
        lemma_once_per_row_counts_rows(lists.drop_last(), k);
        lemma_occurrences_concat(
            keys_once_per_row(lists.drop_last()),
            distinct_in_order(lists.last()),
            k,
        );
        lemma_distinct_in_order(lists.last(), k);
    }
}

/// Appends the keys of one row to `out`, each taken once, in the order of
/// their first occurrence.
pub fn push_distinct(out: &mut Vec<String>, keys: &Vec<String>)
    ensures
        views(final(out)@) == views(old(out)@) + distinct_in_order(views(keys@)),
{
    let mut seen: Vec<String> = Vec::new();
    let n = keys.len();
    let mut i: usize = 0;
    while i < n
        invariant
            i <= n,
            n == keys@.len(),
            views(seen@) == distinct_in_order(views(keys@.take(i as int))),
        decreases n - i,
    {
        let ghost pre = views(keys@.take(i as int));
        proof {
            assert(views(keys@.take(i + 1)).drop_last() =~= pre);
            assert(views(keys@.take(i + 1)).last() == keys@[i as int]@);
        }
        let m = seen.len();
        let mut x: usize = 0;
        while x < m && !(seen[x] == keys[i])
            invariant
                x <= m,
                m == seen@.len(),
                i < n,
                n == keys@.len(),
                forall|t: int| 0 <= t < x ==> (#[trigger] seen@[t])@ != keys@[i as int]@,
            decreases m - x,
        {
            x = x + 1;
        }
        if x == m {
            let k = keys[i].clone();
            let ghost before = seen@;
            seen.push(k);
            proof {
                assert(views(seen@) =~= views(before).push(k@));
                assert(!views(before).contains(keys@[i as int]@)) by {
                    if views(before).contains(keys@[i as int]@) {
                        let t = choose|t: int| 0 <= t < views(before).len() && views(before)[t] == keys@[i as int]@;
                        assert(before[t]@ == views(before)[t]);
                    }
                }
            }
        } else {
            proof {
                assert(views(seen@)[x as int] == seen@[x as int]@);
                assert(views(seen@).contains(keys@[i as int]@));
            }
        }
        i = i + 1;
    }
    proof {
        assert(keys@.take(n as int) =~= keys@);
    }
    let ghost start = out@;
    let m = seen.len();
    let mut j: usize = 0;
    while j < m
        invariant
            j <= m,
            m == seen@.len(),
            views(out@) == views(start) + views(seen@.take(j as int)),
        decreases m - j,
    {
        let k = seen[j].clone();
        let ghost before = out@;
        out.push(k);
        proof {
            assert(views(out@) =~= views(before).push(k@));
            assert(views(seen@.take(j + 1)) =~= views(seen@.take(j as int)).push(seen@[j as int]@));
        }
        j = j + 1;
    }
    proof {
        assert(seen@.take(m as int) =~= seen@);
    }
}

} // verus!
