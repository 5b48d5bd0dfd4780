//! Grouping texts by equal value: the distinct values in order of first
//! appearance, how often each occurs, and the most frequent ones.
use vstd::prelude::*;

use crate::model::{pick, pick_rows};
use crate::order::{is_sorted_order, key_before, lemma_sorted_order, sort_order, sorted_order};
use crate::text::{lemma_text_irreflexive, lemma_text_transitive, text_before, text_lt};
use crate::store::lemma_filter_push;

verus! {

/// The distinct values of `s`, in order of first appearance.
pub open spec fn distinct<A>(s: Seq<A>) -> Seq<A>
    decreases s.len(),
{
    if s.len() == 0 {
        Seq::empty()
    } else {
        let d = distinct(s.drop_last());
        if d.contains(s.last()) {
            d
        } else {
            d.push(s.last())
        }
    }
}

pub open spec fn equal_to<A>(x: A) -> spec_fn(A) -> bool {
    |y: A| y == x
}

/// How often `x` occurs in `s`.
pub open spec fn occurrences<A>(s: Seq<A>, x: A) -> int {
    s.filter(equal_to(x)).len() as int
}

/// Sort keys that put larger counts first.
pub open spec fn count_keys(counts: Seq<int>) -> Seq<(i128, i128)> {
    counts.map_values(|c: int| ((-c) as i128, 0i128))
}

/// The `limit` most frequent values of `labels` with their counts, most
/// frequent first; values equally frequent come in order of first appearance.
pub open spec fn top_groups(labels: Seq<Seq<char>>, limit: int) -> Seq<(Seq<char>, int)> {
    let d = distinct(labels);
    let counts = d.map_values(|x: Seq<char>| occurrences(labels, x));
    let order = sorted_order(count_keys(counts));
    let n = if limit < d.len() {
        limit
    } else {
        d.len() as int
    };
    order.take(n).map_values(|j: usize| (d[j as int], counts[j as int]))
}

/// The texts that `v` holds.
pub open spec fn texts(v: Seq<String>) -> Seq<Seq<char>> {
    v.map_values(|s: String| s@)
}

pub proof fn lemma_distinct<A>(s: Seq<A>)
    ensures
        distinct(s).no_duplicates(),
        forall|x: A| distinct(s).contains(x) <==> s.contains(x),
        distinct(s).len() <= s.len(),
    decreases s.len(),
{
    if s.len() > 0 {
        let d0 = s.drop_last();
        lemma_distinct(d0);
        assert forall|x: A| distinct(s).contains(x) <==> s.contains(x) by {
            if s.contains(x) && x != s.last() {
                let k = choose|k: int| 0 <= k < s.len() && s[k] == x;
                assert(d0[k] == x);
                assert(d0.contains(x));
                assert(distinct(d0).contains(x));
                let i = choose|i: int| 0 <= i < distinct(d0).len() && distinct(d0)[i] == x;
                if !distinct(d0).contains(s.last()) {
                    assert(distinct(s)[i] == x);
                }
                assert(distinct(s).contains(x));
            }
            if distinct(s).contains(x) && x != s.last() {
                let ds = distinct(s);
                let i = choose|i: int| 0 <= i < ds.len() && ds[i] == x;
                if !distinct(d0).contains(s.last()) {
                    assert(i < ds.len() - 1);
                    assert(distinct(d0)[i] == x);
                }
                assert(distinct(d0).contains(x));
                assert(d0.contains(x));
                let k = choose|k: int| 0 <= k < d0.len() && d0[k] == x;
                assert(s[k] == x);
            }
            if x == s.last() {
                assert(s[s.len() - 1] == x);
                if !distinct(d0).contains(x) {
                    assert(distinct(s)[distinct(s).len() - 1] == x);
                }
                assert(distinct(s).contains(x));
                assert(s.contains(x));
            }
        }
    }
}

pub proof fn lemma_absent_occurs_never<A>(s: Seq<A>, x: A)
    requires
        !s.contains(x),
    ensures
        occurrences(s, x) == 0,
{
    crate::store::lemma_filter_subset(s, equal_to(x));
    if s.filter(equal_to(x)).len() > 0 {
        s.lemma_filter_pred(equal_to(x), 0);
        assert(s.contains(s.filter(equal_to(x))[0]));
    }
}

/// Counts the distinct values of `labels` (in order of first appearance)
/// and how often each occurs.
pub fn group_counts(labels: &Vec<String>) -> (r: (Vec<String>, Vec<usize>))
    ensures
        texts(r.0@) == distinct(texts(labels@)),
        r.1@.len() == r.0@.len(),
        forall|k: int| 0 <= k < r.1@.len() ==> r.1@[k] as int == occurrences(texts(labels@), #[trigger] r.0@[k]@),
        forall|k: int| 0 <= k < r.1@.len() ==> r.1@[k] <= labels@.len(),
{
    let mut keys: Vec<String> = Vec::new();
    let mut counts: Vec<usize> = Vec::new();
    let ghost all = texts(labels@);
    let mut i: usize = 0;
    while i < labels.len()
        invariant
            i <= labels@.len(),
            all == texts(labels@),
            texts(keys@) == distinct(all.take(i as int)),
            counts@.len() == keys@.len(),
            forall|k: int| 0 <= k < counts@.len() ==> counts@[k] as int == occurrences(all.take(i as int), #[trigger] keys@[k]@),
            forall|k: int| 0 <= k < counts@.len() ==> counts@[k] <= i,
        decreases labels@.len() - i,
    {
        let x = &labels[i];
        let ghost pre = all.take(i as int);
        let ghost post = all.take(i + 1);
        proof {
            assert(post =~= pre.push(x@));
            assert(post.drop_last() =~= pre);
            lemma_distinct(pre);
            assert forall|y: Seq<char>| occurrences(post, y) == occurrences(pre, y) + (if y == x@ { 1int } else { 0int }) by {
                lemma_filter_push(pre, x@, equal_to(y));
            }
        }
        let mut k: usize = 0;
        while k < keys.len() && !(keys[k] == *x)
            invariant
                k <= keys@.len(),
                forall|j: int| 0 <= j < k ==> keys@[j]@ != x@,
            decreases keys@.len() - k,
        {
            k = k + 1;
        }
        if k < keys.len() {
            proof {
                assert(texts(keys@)[k as int] == x@);
                assert(distinct(pre).contains(x@));
                assert(distinct(post) == distinct(pre));
            }
            let c = counts[k];
            counts.set(k, c + 1);
            proof {
                assert forall|j: int| 0 <= j < counts@.len() implies counts@[j] as int == occurrences(post, #[trigger] keys@[j]@) by {
                    if j != k {
                        assert(distinct(pre)[j] != distinct(pre)[k as int]);
                    }
                }
            }
        } else {
            proof {
                assert(!texts(keys@).contains(x@));
                assert(!distinct(pre).contains(x@));
                assert(!pre.contains(x@));
                lemma_absent_occurs_never(pre, x@);
            }
            keys.push(x.clone());
            counts.push(1);
            proof {
                assert(texts(keys@) =~= distinct(post));
            }
        }
        i = i + 1;
    }
    assert(all.take(labels@.len() as int) =~= all);
    (keys, counts)
}

/// The numbers that `v` holds.
pub open spec fn numbers(v: Seq<u64>) -> Seq<int> {
    v.map_values(|x: u64| x as int)
}

/// Counts the distinct values of `values` (in order of first appearance)
/// and how often each occurs.
pub fn group_numbers(values: &Vec<u64>) -> (r: (Vec<u64>, Vec<usize>))
    ensures
        numbers(r.0@) == distinct(numbers(values@)),
        r.1@.len() == r.0@.len(),
        forall|k: int| 0 <= k < r.1@.len() ==> r.1@[k] as int == occurrences(numbers(values@), #[trigger] r.0@[k] as int),
        forall|k: int| 0 <= k < r.1@.len() ==> r.1@[k] <= values@.len(),
{
    let mut keys: Vec<u64> = Vec::new();
    let mut counts: Vec<usize> = Vec::new();
    let ghost all = numbers(values@);
    let mut i: usize = 0;
    while i < values.len()
        invariant
            i <= values@.len(),
            all == numbers(values@),
            numbers(keys@) == distinct(all.take(i as int)),
            counts@.len() == keys@.len(),
            forall|k: int| 0 <= k < counts@.len() ==> counts@[k] as int == occurrences(all.take(i as int), #[trigger] keys@[k] as int),
            forall|k: int| 0 <= k < counts@.len() ==> counts@[k] <= i,
        decreases values@.len() - i,
    {
        let x = values[i];
        let ghost pre = all.take(i as int);
        let ghost post = all.take(i + 1);
        proof {
            assert(post =~= pre.push(x as int));
            assert(post.drop_last() =~= pre);
            lemma_distinct(pre);
            assert forall|y: int| occurrences(post, y) == occurrences(pre, y) + (if y == x as int { 1int } else { 0int }) by {
                lemma_filter_push(pre, x as int, equal_to(y));
            }
        }
        let mut k: usize = 0;
        while k < keys.len() && keys[k] != x
            invariant
                k <= keys@.len(),
                forall|j: int| 0 <= j < k ==> keys@[j] != x,
            decreases keys@.len() - k,
        {
            k = k + 1;
        }
        if k < keys.len() {
            proof {
                assert(numbers(keys@)[k as int] == x as int);
                assert(distinct(pre).contains(x as int));
                assert(distinct(post) == distinct(pre));
            }
            let c = counts[k];
            counts.set(k, c + 1);
            proof {
                assert forall|j: int| 0 <= j < counts@.len() implies counts@[j] as int == occurrences(post, #[trigger] keys@[j] as int) by {
                    if j != k {
                        assert(distinct(pre)[j] != distinct(pre)[k as int]);
                    }
                }
            }
        } else {
            proof {
                assert(!numbers(keys@).contains(x as int));
                assert(!distinct(pre).contains(x as int));
                assert(!pre.contains(x as int));
                lemma_absent_occurs_never(pre, x as int);
            }
            keys.push(x);
            counts.push(1);
            proof {
                assert(numbers(keys@) =~= distinct(post));
            }
        }
        i = i + 1;
    }
    assert(all.take(values@.len() as int) =~= all);
    (keys, counts)
}

/// Texts with counts, as values.
pub open spec fn pair_view(v: Seq<(String, i64)>) -> Seq<(Seq<char>, int)> {
    v.map_values(|p: (String, i64)| (p.0@, p.1 as int))
}

/// The `limit` most frequent values of `labels` with their counts.
pub fn top_counts(labels: &Vec<String>, limit: usize) -> (r: Vec<(String, i64)>)
    requires
        labels@.len() <= i64::MAX,
    ensures
        pair_view(r@) == top_groups(texts(labels@), limit as int),
        r@.len() == top_groups(texts(labels@), limit as int).len(),
        forall|q: int| 0 <= q < r@.len() ==> (#[trigger] r@[q]).0@ == top_groups(texts(labels@), limit as int)[q].0
            && r@[q].1 as int == top_groups(texts(labels@), limit as int)[q].1,
{
    let (keys, counts) = group_counts(labels);
    let ghost all = texts(labels@);
    let ghost d = distinct(all);
    let ghost cs = d.map_values(|x: Seq<char>| occurrences(all, x));
    let mut sk: Vec<(i128, i128)> = Vec::new();
    let mut i: usize = 0;
    while i < counts.len()
        invariant
            i <= counts@.len(),
            counts@.len() == keys@.len(),
            texts(keys@) == d,
            cs == d.map_values(|x: Seq<char>| occurrences(all, x)),
            forall|k: int| 0 <= k < counts@.len() ==> counts@[k] as int == occurrences(all, #[trigger] keys@[k]@),
            forall|k: int| 0 <= k < counts@.len() ==> counts@[k] <= labels@.len(),
            labels@.len() <= i64::MAX,
            sk@ =~= count_keys(cs.take(i as int)),
        decreases counts@.len() - i,
    {
        proof {
            assert(keys@[i as int]@ == d[i as int]);
        }
        sk.push((-(counts[i] as i128), 0i128));
        i = i + 1;
    }
    assert(cs.take(counts@.len() as int) =~= cs);
    let order = sort_order(&sk);
    let n = if limit < keys.len() {
        limit
    } else {
        keys.len()
    };
    let ghost want = top_groups(all, limit as int);
    let mut out: Vec<(String, i64)> = Vec::new();
    let mut q: usize = 0;
    while q < n
        invariant
            q <= n,
            n <= keys@.len(),
            n == (if limit < d.len() { limit as int } else { d.len() as int }),
            is_sorted_order(sk@, order@),
            sk@ == count_keys(cs),
            order@ == sorted_order(count_keys(cs)),
            counts@.len() == keys@.len(),
            texts(keys@) == d,
            cs == d.map_values(|x: Seq<char>| occurrences(all, x)),
            forall|k: int| 0 <= k < counts@.len() ==> counts@[k] as int == occurrences(all, #[trigger] keys@[k]@),
            forall|k: int| 0 <= k < counts@.len() ==> counts@[k] <= labels@.len(),
            labels@.len() <= i64::MAX,
            want == top_groups(all, limit as int),
            all == texts(labels@),
            d == distinct(all),
            out@.len() == q,
            forall|t: int| 0 <= t < q ==> (#[trigger] out@[t]).0@ == want[t].0 && out@[t].1 as int == want[t].1,
        decreases n - q,
    {
        let j = order[q];
        proof {
            assert(keys@[j as int]@ == d[j as int]);
        }
        out.push((keys[j].clone(), counts[j] as i64));
        q = q + 1;
    }
    assert(pair_view(out@) =~= want);
    out
}

pub open spec fn before_text(x: Seq<char>) -> spec_fn(Seq<char>) -> bool {
    |y: Seq<char>| text_before(y, x)
}

/// How many texts of `l` come before `x` in text order.
pub open spec fn text_rank(l: Seq<Seq<char>>, x: Seq<char>) -> int {
    l.filter(before_text(x)).len() as int
}

/// Sort keys that put texts in text order.
pub open spec fn text_keys(l: Seq<Seq<char>>) -> Seq<(i128, i128)> {
    l.map_values(|x: Seq<char>| (text_rank(l, x) as i128, 0i128))
}

/// The texts of `l` in text order; equal texts keep their order.
pub open spec fn in_text_order(l: Seq<Seq<char>>) -> Seq<Seq<char>> {
    pick(l, sorted_order(text_keys(l)))
}

/// A text before another has fewer texts before it, strictly fewer when
/// it occurs itself.
pub proof fn lemma_rank_monotone(l: Seq<Seq<char>>, a: Seq<char>, b: Seq<char>)
    requires
        text_before(a, b),
    ensures
        text_rank(l, a) <= text_rank(l, b),
        l.contains(a) ==> text_rank(l, a) < text_rank(l, b),
    decreases l.len(),
{
    if l.len() > 0 {
        let d = l.drop_last();
        let y = l.last();
        lemma_rank_monotone(d, a, b);
        assert(d.push(y) =~= l);
        lemma_filter_push(d, y, before_text(a));
        lemma_filter_push(d, y, before_text(b));
        lemma_text_transitive(y, a, b);
        lemma_text_irreflexive(a);
        if l.contains(a) && !d.contains(a) {
            let k = choose|k: int| 0 <= k < l.len() && l[k] == a;
            if k < d.len() {
                assert(d[k] == a);
            }
        }
    }
}

/// Texts in text order: no text comes after one that should follow it.
pub proof fn lemma_in_text_order(l: Seq<Seq<char>>)
    requires
        l.len() <= usize::MAX,
        forall|k: int| 0 <= k < l.len() ==> text_rank(l, #[trigger] l[k]) <= l.len(),
    ensures
        in_text_order(l).len() == l.len(),
        forall|i: int, j: int|
            0 <= i < j < l.len() ==> !text_before(#[trigger] in_text_order(l)[j], #[trigger] in_text_order(l)[i]),
{
    let keys = text_keys(l);
    lemma_sorted_order(keys);
    let p = sorted_order(keys);
    let r = in_text_order(l);
    assert forall|i: int, j: int| 0 <= i < j < l.len() implies !text_before(#[trigger] r[j], #[trigger] r[i]) by {
        assert(key_before(keys, p[i] as int, p[j] as int));
        assert(r[i] == l[p[i] as int] && r[j] == l[p[j] as int]);
        if text_before(r[j], r[i]) {
            assert(l.contains(r[j]));
            lemma_rank_monotone(l, r[j], r[i]);
            crate::store::lemma_filter_subset(l, before_text(r[i]));
            crate::store::lemma_filter_subset(l, before_text(r[j]));
        }
    }
}

/// How many of `v` come before `x` in text order.
fn rank_of(v: &Vec<String>, x: &String) -> (r: usize)
    ensures
        r as int == text_rank(texts(v@), x@),
        r <= v@.len(),
{
    let ghost l = texts(v@);
    let mut c: usize = 0;
    let mut j: usize = 0;
    while j < v.len()
        invariant
            j <= v@.len(),
            l == texts(v@),
            c as int == l.take(j as int).filter(before_text(x@)).len(),
            c <= j,
        decreases v@.len() - j,
    {
        proof {
            assert(l.take(j + 1) =~= l.take(j as int).push(l[j as int]));
            lemma_filter_push(l.take(j as int), l[j as int], before_text(x@));
        }
        if text_lt(v[j].as_str(), x.as_str()) {
            c = c + 1;
        }
        j = j + 1;
    }
    assert(l.take(v@.len() as int) =~= l);
    c
}

/// The texts of `v` in text order.
pub fn sort_texts(v: &Vec<String>) -> (r: Vec<String>)
    ensures
        texts(r@) == in_text_order(texts(v@)),
        r@.len() == v@.len(),
        forall|i: int, j: int| 0 <= i < j < r@.len() ==> !text_before(#[trigger] r@[j]@, #[trigger] r@[i]@),
{
    let ghost l = texts(v@);
    let mut keys: Vec<(i128, i128)> = Vec::new();
    let mut i: usize = 0;
    while i < v.len()
        invariant
            i <= v@.len(),
            l == texts(v@),
            keys@ =~= text_keys(l).take(i as int),
            forall|k: int| 0 <= k < i ==> text_rank(l, #[trigger] l[k]) <= l.len(),
        decreases v@.len() - i,
    {
        let rank = rank_of(v, &v[i]);
        keys.push((rank as i128, 0i128));
        i = i + 1;
    }
    assert(text_keys(l).take(v@.len() as int) =~= text_keys(l));
    let order = sort_order(&keys);
    let r = pick_rows(v, &order);
    proof {
        lemma_in_text_order(l);
        assert(texts(r@) =~= in_text_order(l));
        assert forall|i: int, j: int| 0 <= i < j < r@.len() implies !text_before(#[trigger] r@[j]@, #[trigger] r@[i]@) by {
            assert(texts(r@)[i] == r@[i]@ && texts(r@)[j] == r@[j]@);
        }
    }
    r
}

} // verus!
