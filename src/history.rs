//! Search history: every non-blank search is recorded, and only the most
//! recent searches, up to a fixed number, are kept.
use vstd::prelude::*;

use crate::error::{AppError, AppResult};
use crate::model::SearchEntry;
use crate::store::{unchanged_except, Store, Table, HISTORY_CAP};
use crate::text::{trim_of, trim_text};

verus! {

/// Search `a` is no more recent than search `b`: by time, then by identifier.
pub open spec fn no_later(a: SearchEntry, b: SearchEntry) -> bool {
    a.searched_at < b.searched_at || (a.searched_at == b.searched_at && a.id <= b.id)
}

/// The position of the least recent search of `h` (the first, on ties).
pub open spec fn oldest(h: Seq<SearchEntry>) -> int
    decreases h.len(),
{
    if h.len() <= 1 {
        0
    } else {
        let k = oldest(h.drop_last());
        if no_later(h[k], h.last()) {
            k
        } else {
            h.len() - 1
        }
    }
}

/// `h` cut back to the cap by dropping its least recent search.
pub open spec fn pruned(h: Seq<SearchEntry>) -> Seq<SearchEntry> {
    if h.len() <= HISTORY_CAP {
        h
    } else {
        h.remove(oldest(h))
    }
}

/// The history after recording `e`.
pub open spec fn history_after(h: Seq<SearchEntry>, e: SearchEntry) -> Seq<SearchEntry> {
    pruned(h.push(e))
}

/// The history after recording each of `es` in turn.
pub open spec fn history_after_all(h: Seq<SearchEntry>, es: Seq<SearchEntry>) -> Seq<SearchEntry>
    decreases es.len(),
{
    if es.len() == 0 {
        h
    } else {
        history_after(history_after_all(h, es.drop_last()), es.last())
    }
}

/// Recording a trimmed keyword: a blank one changes nothing; otherwise one
/// search is added with the next identifier and the history is cut back to
/// its cap.
pub open spec fn record_post(old: Store, new: Store, keyword: Seq<char>, now: u64, r: AppResult<()>) -> bool {
    if keyword.len() == 0 {
        r is Ok && unchanged_except(old, new, Set::empty())
    } else if old.next_search_id == i64::MAX {
        r matches Err(e) && e is Database && unchanged_except(old, new, Set::empty())
    } else {
        let n = old.search_history@.len() as int;
        let grown = new.search_history@.len() == n + 1;
        &&& r is Ok
        &&& new.next_search_id == old.next_search_id + 1
        &&& unchanged_except(old, new, set![Table::Searches])
        &&& exists|e: SearchEntry|
            e.id == old.next_search_id && e.keyword@ == keyword && e.searched_at == now
                && new.search_history@ == #[trigger] history_after(old.search_history@, e)
    }
}

pub proof fn lemma_oldest(h: Seq<SearchEntry>)
    requires
        h.len() > 0,
    ensures
        0 <= oldest(h) < h.len(),
        forall|j: int| 0 <= j < h.len() ==> no_later(h[oldest(h)], #[trigger] h[j]),
    decreases h.len(),
{
    if h.len() > 1 {
        let d = h.drop_last();
        lemma_oldest(d);
        assert forall|j: int| 0 <= j < h.len() implies no_later(h[oldest(h)], #[trigger] h[j]) by {
            if j < h.len() - 1 {
                assert(d[j] == h[j]);
            }
        }
    }
}

impl Store {
    /// The position of the least recent search.
    fn oldest_search(&self) -> (r: usize)
        requires
            self.search_history@.len() > 0,
        ensures
            r as int == oldest(self.search_history@),
    {
        let h = &self.search_history;
        let mut best: usize = 0;
        let mut i: usize = 1;
        while i < h.len()
            invariant
                h@ == self.search_history@,
                1 <= i <= h@.len(),
                best as int == oldest(h@.take(i as int)),
                best < i,
            decreases h@.len() - i,
        {
            proof {
                assert(h@.take(i + 1).drop_last() =~= h@.take(i as int));
                assert(h@.take(i as int)[best as int] == h@[best as int]);
            }
            let b = &h[best];
            let c = &h[i];
            if !(b.searched_at < c.searched_at || (b.searched_at == c.searched_at && b.id <= c.id)) {
                best = i;
            }
            i = i + 1;
        }
        assert(h@.take(h@.len() as int) =~= h@);
        best
    }

    /// Records a keyword that has already been trimmed, searched at time
    /// `now`; a blank keyword is ignored.
    pub fn record_search(&mut self, keyword: String, now: u64) -> (r: AppResult<()>)
        requires
            old(self).wf(),
        ensures
            final(self).wf(),
            record_post(*old(self), *final(self), keyword@, now, r),
    {
        if keyword.as_str().unicode_len() == 0 {
            return Ok(());
        }
        if self.next_search_id == i64::MAX {
            return Err(AppError::Database(String::from_str("database or disk is full")));
        }
        let id = self.next_search_id;
        let entry = SearchEntry { id, keyword, searched_at: now };
        let ghost e = entry;
        self.search_history.push(entry);
        self.next_search_id = id + 1;
        if self.search_history.len() > HISTORY_CAP {
            let k = self.oldest_search();
            proof {
                lemma_oldest(self.search_history@);
            }
            let ghost full = self.search_history@;
            self.search_history.remove(k);
            proof {
                assert forall|i: int| 0 <= i < self.search_history@.len() implies (
                #[trigger] self.search_history@[i]).id < self.next_search_id by {
                    if i < k {
                        assert(self.search_history@[i] == full[i]);
                    } else {
                        assert(self.search_history@[i] == full[i + 1]);
                    }
                }
            }
        }
        assert(self.search_history@ == history_after(old(self).search_history@, e));
        Ok(())
    }

    /// Records a search for `keyword` at time `now`: the keyword is trimmed,
    /// a blank one is ignored, and only the most recent searches are kept.
    pub fn save_search_history(&mut self, keyword: &str, now: u64) -> (r: AppResult<()>)
        requires
            old(self).wf(),
        ensures
            final(self).wf(),
            record_post(*old(self), *final(self), trim_of(keyword@), now, r),
    {
        let trimmed = trim_text(keyword);
        self.record_search(trimmed, now)
    }
}

/// However many searches are recorded, the history holds at most its cap:
/// exactly the cap once there have been that many; and every search that
/// was dropped is no more recent than any search kept.
pub proof fn law_history_retention(h: Seq<SearchEntry>, es: Seq<SearchEntry>)
    requires
        h.len() <= HISTORY_CAP,
    ensures
        history_after_all(h, es).len() == if h.len() + es.len() <= HISTORY_CAP {
            (h.len() + es.len()) as int
        } else {
            HISTORY_CAP as int
        },
        forall|x: SearchEntry, y: SearchEntry|
            #![trigger (h + es).contains(x), history_after_all(h, es).contains(y)]
            (h + es).contains(x) && !history_after_all(h, es).contains(x) && history_after_all(h, es).contains(y)
                ==> no_later(x, y),
        (exists|x: SearchEntry| (h + es).contains(x) && !history_after_all(h, es).contains(x))
            ==> history_after_all(h, es).len() == HISTORY_CAP,
    decreases es.len(),
{
    let r = history_after_all(h, es);
    if es.len() == 0 {
        assert(h + es =~= h);
    } else {
        let es0 = es.drop_last();
        let e = es.last();
        let r0 = history_after_all(h, es0);
        law_history_retention(h, es0);
        let g = r0.push(e);
        assert(h + es =~= (h + es0).push(e));
        assert(r == pruned(g));
        if g.len() > HISTORY_CAP {
            lemma_oldest(g);
            let m = oldest(g);
            assert forall|x: SearchEntry, y: SearchEntry|
                #![trigger (h + es).contains(x), r.contains(y)]
                (h + es).contains(x) && !r.contains(x) && r.contains(y) implies no_later(x, y) by {
                let yi = choose|i: int| 0 <= i < r.len() && r[i] == y;
                let yj = if yi < m { yi } else { yi + 1 };
                assert(g[yj] == y);
                if g.contains(x) {
                    let xi = choose|i: int| 0 <= i < g.len() && g[i] == x;
                    if xi != m {
                        let xr = if xi < m { xi } else { xi - 1 };
                        assert(r[xr] == x);
                    }
                    assert(no_later(g[m], y));
                } else {
                    assert(x != e);
                    assert((h + es0).contains(x)) by {
                        let xi = choose|i: int| 0 <= i < (h + es).len() && (h + es)[i] == x;
                        assert((h + es0)[xi] == x);
                    }
                    assert(!r0.contains(x)) by {
                        if r0.contains(x) {
                            let xi = choose|i: int| 0 <= i < r0.len() && r0[i] == x;
                            assert(g[xi] == x);
                        }
                    }
                    if yj < r0.len() {
                        assert(r0.contains(y));
                    } else {
                        assert(y == e);
                        if m < r0.len() {
                            assert(r0.contains(g[m]));
                            assert(no_later(x, g[m]));
                            assert(no_later(g[m], e));
                        } else {
                            assert(false);
                        }
                    }
                }
            }
        } else {
            assert forall|x: SearchEntry|
                (h + es).contains(x) && !r.contains(x) implies false by {
                let xi = choose|i: int| 0 <= i < (h + es).len() && (h + es)[i] == x;
                if xi == (h + es).len() - 1 {
                    assert(r[r.len() - 1] == x);
                } else {
                    assert((h + es0)[xi] == x);
                    assert(!r0.contains(x)) by {
                        if r0.contains(x) {
                            let k = choose|k: int| 0 <= k < r0.len() && r0[k] == x;
                            assert(r[k] == x);
                        }
                    }
                }
            }
        }
    }
}

} // verus!
