//! Ordering of rows by integer sort keys, ties broken by position, so that
//! every listing comes out in one determined order.
use vstd::prelude::*;

verus! {

/// Row `a` comes before row `b`: by the first key, then the second, then by
/// position in the table.
pub open spec fn key_before(keys: Seq<(i128, i128)>, a: int, b: int) -> bool {
    ||| keys[a].0 < keys[b].0
    ||| (keys[a].0 == keys[b].0 && keys[a].1 < keys[b].1)
    ||| (keys[a].0 == keys[b].0 && keys[a].1 == keys[b].1 && a < b)
}

/// `p` lists every position of `keys` once, in `key_before` order.
pub open spec fn is_sorted_order(keys: Seq<(i128, i128)>, p: Seq<usize>) -> bool {
    &&& p.len() == keys.len()
    &&& p.no_duplicates()
    &&& forall|q: int| 0 <= q < p.len() ==> (#[trigger] p[q]) < keys.len()
    &&& forall|k: int| 0 <= k < keys.len() ==> #[trigger] p.contains(k as usize)
    &&& forall|q: int, s: int|
        0 <= q < s < p.len() ==> key_before(keys, #[trigger] p[q] as int, #[trigger] p[s] as int)
}

/// The positions of `keys` in `key_before` order.
pub open spec fn sorted_order(keys: Seq<(i128, i128)>) -> Seq<usize> {
    choose|p: Seq<usize>| is_sorted_order(keys, p)
}

/// Two sequences without repeats that hold the same positions, each in
/// `key_before` order, are the same sequence.
pub proof fn lemma_sorted_unique(keys: Seq<(i128, i128)>, left: Seq<usize>, right: Seq<usize>)
    requires
        left.no_duplicates(),
        right.no_duplicates(),
        forall|x: usize| left.contains(x) <==> right.contains(x),
        forall|q: int| 0 <= q < left.len() ==> (#[trigger] left[q]) < keys.len(),
        forall|q: int, s: int|
            0 <= q < s < left.len() ==> key_before(keys, #[trigger] left[q] as int, #[trigger] left[s] as int),
        forall|q: int, s: int|
            0 <= q < s < right.len() ==> key_before(keys, #[trigger] right[q] as int, #[trigger] right[s] as int),
    ensures
        left == right,
    decreases left.len(),
{
    if left.len() == 0 {
        if right.len() > 0 {
            assert(right.contains(right[0]));
        }
        assert(left =~= right);
    } else if right.len() == 0 {
        assert(left.contains(left[0]));
    } else {
        let a = left[0];
        let b = right[0];
        assert(left.contains(a));
        assert(right.contains(b));
        if a != b {
            let j = choose|j: int| 0 <= j < right.len() && right[j] == a;
            let k = choose|k: int| 0 <= k < left.len() && left[k] == b;
            assert(key_before(keys, right[0] as int, right[j] as int));
            assert(key_before(keys, left[0] as int, left[k] as int));
        }
        let r1 = left.drop_first();
        let r2 = right.drop_first();
        assert forall|x: usize| r1.contains(x) <==> r2.contains(x) by {
            if r1.contains(x) {
                let q = choose|q: int| 0 <= q < r1.len() && r1[q] == x;
                assert(left[q + 1] == x);
                assert(left.contains(x));
                let s = choose|s: int| 0 <= s < right.len() && right[s] == x;
                assert(s != 0);
                assert(r2[s - 1] == x);
            }
            if r2.contains(x) {
                let q = choose|q: int| 0 <= q < r2.len() && r2[q] == x;
                assert(right[q + 1] == x);
                assert(right.contains(x));
                let s = choose|s: int| 0 <= s < left.len() && left[s] == x;
                assert(s != 0);
                assert(r1[s - 1] == x);
            }
        }
        assert forall|q: int, s: int| 0 <= q < s < r1.len() implies key_before(
            keys,
            #[trigger] r1[q] as int,
            #[trigger] r1[s] as int,
        ) by {
            assert(r1[q] == left[q + 1] && r1[s] == left[s + 1]);
        }
        assert forall|q: int, s: int| 0 <= q < s < r2.len() implies key_before(
            keys,
            #[trigger] r2[q] as int,
            #[trigger] r2[s] as int,
        ) by {
            assert(r2[q] == right[q + 1] && r2[s] == right[s + 1]);
        }
        lemma_sorted_unique(keys, r1, r2);
        assert(left =~= seq![a] + r1);
        assert(right =~= seq![b] + r2);
    }
}

/// `p` holds the positions below `i`, each once, in `key_before` order.
pub open spec fn sorted_prefix(keys: Seq<(i128, i128)>, p: Seq<usize>, i: int) -> bool {
    &&& 0 <= i <= keys.len()
    &&& p.len() == i
    &&& p.no_duplicates()
    &&& forall|q: int| 0 <= q < p.len() ==> (#[trigger] p[q]) < i
    &&& forall|k: int| 0 <= k < i ==> #[trigger] p.contains(k as usize)
    &&& forall|q: int, s: int|
        0 <= q < s < p.len() ==> key_before(keys, #[trigger] p[q] as int, #[trigger] p[s] as int)
}

/// Inserting position `i` where the first later row stands keeps the order.
proof fn lemma_insert_sorted(keys: Seq<(i128, i128)>, p: Seq<usize>, i: int, pos: int)
    requires
        sorted_prefix(keys, p, i),
        i < keys.len() <= usize::MAX,
        0 <= pos <= p.len(),
        forall|q: int| 0 <= q < pos ==> !key_before(keys, i, #[trigger] p[q] as int),
        pos < p.len() ==> key_before(keys, i, p[pos] as int),
    ensures
        sorted_prefix(keys, p.insert(pos, i as usize), i + 1),
{
    let np = p.insert(pos, i as usize);
    assert forall|q: int| 0 <= q < np.len() implies (#[trigger] np[q]) < i + 1 by {
        if q < pos {
            assert(np[q] == p[q]);
        } else if q > pos {
            assert(np[q] == p[q - 1]);
        }
    }
    assert forall|k: int| 0 <= k < i + 1 implies #[trigger] np.contains(k as usize) by {
        if k == i {
            assert(np[pos] == i);
        } else {
            assert(p.contains(k as usize));
            let q = choose|q: int| 0 <= q < p.len() && p[q] == k as usize;
            if q < pos {
                assert(np[q] == p[q]);
            } else {
                assert(np[q + 1] == p[q]);
            }
        }
    }
    assert forall|q: int, s: int| 0 <= q < s < np.len() implies np[q] != np[s] by {
        if q < pos && s < pos {
            assert(np[q] == p[q] && np[s] == p[s]);
        } else if q < pos && s == pos {
            assert(np[q] == p[q]);
        } else if q < pos && s > pos {
            assert(np[q] == p[q] && np[s] == p[s - 1]);
        } else if q == pos {
            assert(np[s] == p[s - 1]);
        } else {
            assert(np[q] == p[q - 1] && np[s] == p[s - 1]);
        }
    }
    assert forall|q: int, s: int| 0 <= q < s < np.len() implies key_before(
        keys,
        #[trigger] np[q] as int,
        #[trigger] np[s] as int,
    ) by {
        if q < pos && s < pos {
            assert(np[q] == p[q] && np[s] == p[s]);
        } else if q < pos && s == pos {
            assert(np[q] == p[q]);
            assert(!key_before(keys, i, p[q] as int));
        } else if q < pos && s > pos {
            assert(np[q] == p[q] && np[s] == p[s - 1]);
        } else if q == pos {
            assert(np[s] == p[s - 1]);
            if s - 1 > pos {
                assert(key_before(keys, p[pos] as int, p[s - 1] as int));
            }
        } else {
            assert(np[q] == p[q - 1] && np[s] == p[s - 1]);
        }
    }
}

/// The first position of `p`, from `from` on, whose row comes after row `i`.
proof fn lemma_find_pos(keys: Seq<(i128, i128)>, p: Seq<usize>, i: int, from: int) -> (pos: int)
    requires
        0 <= from <= p.len(),
        forall|q: int| 0 <= q < from ==> !key_before(keys, i, #[trigger] p[q] as int),
    ensures
        from <= pos <= p.len(),
        forall|q: int| 0 <= q < pos ==> !key_before(keys, i, #[trigger] p[q] as int),
        pos < p.len() ==> key_before(keys, i, p[pos] as int),
    decreases p.len() - from,
{
    if from == p.len() || key_before(keys, i, p[from] as int) {
        from
    } else {
        lemma_find_pos(keys, p, i, from + 1)
    }
}

/// The positions below `i` can be put in `key_before` order.
proof fn lemma_prefix_sortable(keys: Seq<(i128, i128)>, i: int) -> (p: Seq<usize>)
    requires
        0 <= i <= keys.len() <= usize::MAX,
    ensures
        sorted_prefix(keys, p, i),
    decreases i,
{
    if i == 0 {
        Seq::empty()
    } else {
        let p0 = lemma_prefix_sortable(keys, i - 1);
        let pos = lemma_find_pos(keys, p0, i - 1, 0);
        lemma_insert_sorted(keys, p0, i - 1, pos);
        p0.insert(pos, (i - 1) as usize)
    }
}

/// `sorted_order` puts the positions of any keys in `key_before` order.
pub proof fn lemma_sorted_order(keys: Seq<(i128, i128)>)
    requires
        keys.len() <= usize::MAX,
    ensures
        is_sorted_order(keys, sorted_order(keys)),
{
    let p = lemma_prefix_sortable(keys, keys.len() as int);
    assert(is_sorted_order(keys, p));
}

/// Whether row `a` comes before row `b`.
fn comes_before(keys: &Vec<(i128, i128)>, a: usize, b: usize) -> (r: bool)
    requires
        a < keys@.len(),
        b < keys@.len(),
    ensures
        r == key_before(keys@, a as int, b as int),
{
    let ka = keys[a];
    let kb = keys[b];
    ka.0 < kb.0 || (ka.0 == kb.0 && ka.1 < kb.1) || (ka.0 == kb.0 && ka.1 == kb.1 && a < b)
}

/// The positions of the rows in `key_before` order (a stable sort on the keys).
pub fn sort_order(keys: &Vec<(i128, i128)>) -> (r: Vec<usize>)
    ensures
        is_sorted_order(keys@, r@),
        r@ == sorted_order(keys@),
{
    let n = keys.len();
    let mut p: Vec<usize> = Vec::new();
    let mut i: usize = 0;
    while i < n
        invariant
            n == keys@.len(),
            sorted_prefix(keys@, p@, i as int),
        decreases n - i,
    {
        let mut pos: usize = 0;
        while pos < p.len() && !comes_before(keys, i, p[pos])
            invariant
                n == keys@.len(),
                i < n,
                sorted_prefix(keys@, p@, i as int),
                pos <= p@.len(),
                forall|q: int| 0 <= q < pos ==> !key_before(keys@, i as int, #[trigger] p@[q] as int),
            decreases p@.len() - pos,
        {
            pos = pos + 1;
        }
        proof {
            lemma_insert_sorted(keys@, p@, i as int, pos as int);
        }
        p.insert(pos, i);
        i = i + 1;
    }
    proof {
        assert(is_sorted_order(keys@, p@));
        let c = sorted_order(keys@);
        lemma_sorted_order(keys@);
        assert forall|x: usize| p@.contains(x) <==> c.contains(x) by {
            if p@.contains(x) {
                let q = choose|q: int| 0 <= q < p@.len() && p@[q] == x;
                assert(c.contains((x as int) as usize));
            }
            if c.contains(x) {
                let q = choose|q: int| 0 <= q < c.len() && c[q] == x;
                assert(p@.contains((x as int) as usize));
            }
        }
        lemma_sorted_unique(keys@, p@, c);
    }
    p
}

} // verus!
