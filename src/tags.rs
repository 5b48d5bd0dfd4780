//! Item tags: replacing an item's tag set, reading tags one item at a time
//! or for every favorite at once, and the set of all tags in use.
use vstd::prelude::*;
use std::collections::HashMap;

use crate::collections::of_item;
use crate::error::{AppError, AppResult};
use crate::favorites::{has_favorite, other_tag, tags_without};
use crate::grouping::{distinct, group_counts, in_text_order, lemma_distinct, sort_texts, texts};
use crate::model::{ItemTag, Membership};
use crate::stats::tag_texts;
use crate::store::{fits, lemma_filter_push, lemma_filter_subset, unchanged_except, Store, Table, tag_key, lemma_unique_filter, lemma_unique_push};
use crate::text::{keep_trimmed_tag, tag_ok, text_before, trim_of, trim_text};

verus! {

pub open spec fn valid_tag() -> spec_fn(Seq<char>) -> bool {
    |t: Seq<char>| tag_ok(t)
}

/// The tags kept of a list of trimmed tags: the valid ones, each once, in
/// order of first appearance.
pub open spec fn kept_tags(trimmed: Seq<Seq<char>>) -> Seq<Seq<char>> {
    distinct(trimmed.filter(valid_tag()))
}

/// Replacing the tags of `item_id` with `trimmed`: its old tags go, and one
/// row is added for each kept tag with consecutive identifiers.
pub open spec fn replace_tags_post(
    old: Store,
    new: Store,
    item_id: i64,
    trimmed: Seq<Seq<char>>,
    r: AppResult<()>,
) -> bool {
    let base = old.item_tags@.filter(other_tag(item_id));
    let ks = kept_tags(trimmed);
    if !(old.next_tag_id as int + ks.len() <= i64::MAX && fits(base.len() + ks.len())) {
        r matches Err(e) && e is Database && unchanged_except(old, new, Set::empty())
    } else {
        &&& r is Ok
        &&& new.item_tags@.len() == base.len() + ks.len()
        &&& new.item_tags@.take(base.len() as int) == base
        &&& forall|k: int|
            0 <= k < ks.len() ==> {
                let t = #[trigger] new.item_tags@[base.len() + k];
                t.id == old.next_tag_id + k && t.item_id == item_id && t.tag@ == ks[k]
            }
        &&& new.next_tag_id == old.next_tag_id + ks.len()
        &&& unchanged_except(old, new, set![Table::Tags])
    }
}

pub open spec fn tag_of_item(item_id: i64) -> spec_fn(ItemTag) -> bool {
    |t: ItemTag| t.item_id == item_id
}

/// The tags of `item_id`, in table order.
pub open spec fn tags_of(tags: Seq<ItemTag>, item_id: i64) -> Seq<Seq<char>> {
    tags.filter(tag_of_item(item_id)).map_values(|t: ItemTag| t.tag@)
}

/// The collections of `item_id`, in table order.
pub open spec fn collections_of(ms: Seq<Membership>, item_id: i64) -> Seq<i64> {
    ms.filter(of_item(item_id)).map_values(|m: Membership| m.collection_id)
}

impl Store {
    /// Replaces the tags of `item_id` with the valid ones of `trimmed`
    /// (already trimmed), each once; empty or over-long tags are dropped.
    pub fn replace_item_tags(&mut self, item_id: i64, trimmed: &Vec<String>) -> (r: AppResult<()>)
        requires
            old(self).wf(),
        ensures
            final(self).wf(),
            replace_tags_post(*old(self), *final(self), item_id, texts(trimmed@), r),
    {
        let mut valid: Vec<String> = Vec::new();
        let mut i: usize = 0;
        while i < trimmed.len()
            invariant
                i <= trimmed@.len(),
                texts(valid@) == texts(trimmed@).take(i as int).filter(valid_tag()),
            decreases trimmed@.len() - i,
        {
            proof {
                assert(texts(trimmed@).take(i + 1) =~= texts(trimmed@).take(i as int).push(trimmed@[i as int]@));
                lemma_filter_push(texts(trimmed@).take(i as int), trimmed@[i as int]@, valid_tag());
            }
            if keep_trimmed_tag(trimmed[i].as_str()) {
                let ghost before = valid@;
                valid.push(trimmed[i].clone());
                assert(texts(valid@) =~= texts(before).push(trimmed@[i as int]@));
            }
            i = i + 1;
        }
        assert(texts(trimmed@).take(trimmed@.len() as int) =~= texts(trimmed@));
        let (kept, _) = group_counts(&valid);
        let base = tags_without(&self.item_tags, item_id);
        let room = (self.next_tag_id as i128) + (kept.len() as i128) <= i64::MAX as i128
            && (base.len() as u128) + (kept.len() as u128) <= crate::store::MAX_ROWS as u128
            && (base.len() as u128) + (kept.len() as u128) < usize::MAX as u128;
        if !room {
            return Err(AppError::Database(String::from_str("database or disk is full")));
        }
        proof {
            lemma_filter_subset(self.item_tags@, other_tag(item_id));
            lemma_unique_filter(self.item_tags@, tag_key(), other_tag(item_id));
            assert forall|p: int| 0 <= p < base@.len() implies (#[trigger] base@[p]).item_id != item_id by {
                self.item_tags@.lemma_filter_pred(other_tag(item_id), p);
            }
            lemma_distinct(texts(valid@));
        }
        let ghost base_rows = base@;
        let ghost start_id = self.next_tag_id;
        self.item_tags = base;
        proof {
            assert forall|p: int| 0 <= p < self.item_tags@.len() implies (#[trigger] self.item_tags@[p]).id
                < self.next_tag_id by {
                assert(old(self).item_tags@.contains(self.item_tags@[p]));
            }
        }
        let mut k: usize = 0;
        while k < kept.len()
            invariant
                k <= kept@.len(),
                self.wf(),
                texts(kept@) == kept_tags(texts(trimmed@)),
                texts(kept@).no_duplicates(),
                forall|p: int| 0 <= p < base_rows.len() ==> (#[trigger] base_rows[p]).item_id != item_id,
                base_rows == old(self).item_tags@.filter(other_tag(item_id)),
                start_id == old(self).next_tag_id,
                start_id as int + kept@.len() <= i64::MAX,
                fits(base_rows.len() + kept@.len()),
                self.next_tag_id == start_id + k,
                self.item_tags@.len() == base_rows.len() + k,
                self.item_tags@.take(base_rows.len() as int) == base_rows,
                forall|j: int|
                    0 <= j < k ==> {
                        let t = #[trigger] self.item_tags@[base_rows.len() + j];
                        t.id == start_id + j && t.item_id == item_id && t.tag@ == texts(kept@)[j]
                    },
                unchanged_except(*old(self), *self, set![Table::Tags]),
            decreases kept@.len() - k,
        {
            let id = self.next_tag_id;
            let ghost before = self.item_tags@;
            let row = ItemTag { id, item_id, tag: kept[k].clone() };
            proof {
                assert forall|p: int| 0 <= p < before.len() implies (tag_key())(#[trigger] before[p]) != (tag_key())(row) by {
                    if p < base_rows.len() {
                        assert(before.take(base_rows.len() as int)[p] == before[p]);
                    } else {
                        let j = p - base_rows.len();
                        assert(before[base_rows.len() + j].tag@ == texts(kept@)[j]);
                        assert(texts(kept@)[k as int] == kept@[k as int]@);
                    }
                }
                lemma_unique_push(before, row, tag_key());
            }
            self.item_tags.push(row);
            self.next_tag_id = id + 1;
            proof {
                assert(self.item_tags@.take(base_rows.len() as int) =~= before.take(base_rows.len() as int));
                assert forall|j: int| 0 <= j < k + 1 implies {
                    let t = #[trigger] self.item_tags@[base_rows.len() + j];
                    t.id == start_id + j && t.item_id == item_id && t.tag@ == texts(kept@)[j]
                } by {
                    if j < k {
                        assert(self.item_tags@[base_rows.len() + j] == before[base_rows.len() + j]);
                    }
                }
            }
            k = k + 1;
        }
        Ok(())
    }

    /// Replaces the tags of `item_id` with `tags`, each trimmed; empty or
    /// over-long tags are dropped and duplicates kept once, so the call
    /// fails only when the store is full.
    pub fn set_item_tags(&mut self, item_id: i64, tags: &Vec<String>) -> (r: AppResult<()>)
        requires
            old(self).wf(),
        ensures
            final(self).wf(),
            replace_tags_post(*old(self), *final(self), item_id, texts(tags@).map_values(|t: Seq<char>| trim_of(t)), r),
    {
        let mut trimmed: Vec<String> = Vec::new();
        let mut i: usize = 0;
        while i < tags.len()
            invariant
                i <= tags@.len(),
                texts(trimmed@) =~= texts(tags@).map_values(|t: Seq<char>| trim_of(t)).take(i as int),
                trimmed@.len() == i,
            decreases tags@.len() - i,
        {
            trimmed.push(trim_text(tags[i].as_str()));
            i = i + 1;
        }
        assert(texts(tags@).map_values(|t: Seq<char>| trim_of(t)).take(tags@.len() as int)
            =~= texts(tags@).map_values(|t: Seq<char>| trim_of(t)));
        self.replace_item_tags(item_id, &trimmed)
    }

    /// The tags of `item_id`, in text order.
    pub fn get_item_tags(&self, item_id: i64) -> (r: Vec<String>)
        ensures
            texts(r@) == in_text_order(tags_of(self.item_tags@, item_id)),
            r@.len() == tags_of(self.item_tags@, item_id).len(),
            forall|i: int, j: int| 0 <= i < j < r@.len() ==> !text_before(#[trigger] r@[j]@, #[trigger] r@[i]@),
    {
        let mut out: Vec<String> = Vec::new();
        let mut i: usize = 0;
        while i < self.item_tags.len()
            invariant
                i <= self.item_tags@.len(),
                texts(out@) == tags_of(self.item_tags@.take(i as int), item_id),
            decreases self.item_tags@.len() - i,
        {
            proof {
                assert(self.item_tags@.take(i + 1) =~= self.item_tags@.take(i as int).push(self.item_tags@[i as int]));
                lemma_filter_push(self.item_tags@.take(i as int), self.item_tags@[i as int], tag_of_item(item_id));
            }
            if self.item_tags[i].item_id == item_id {
                let ghost before = out@;
                out.push(self.item_tags[i].tag.clone());
                assert(texts(out@) =~= texts(before).push(self.item_tags@[i as int].tag@));
                assert(tags_of(self.item_tags@.take(i + 1), item_id) =~= tags_of(self.item_tags@.take(i as int), item_id).push(self.item_tags@[i as int].tag@));
            }
            i = i + 1;
        }
        assert(self.item_tags@.take(self.item_tags@.len() as int) =~= self.item_tags@);
        sort_texts(&out)
    }

    /// Every tag in use, each once, in text order.
    pub fn get_all_user_tags(&self) -> (r: Vec<String>)
        ensures
            texts(r@) == in_text_order(distinct(tag_texts(*self))),
            forall|i: int, j: int| 0 <= i < j < r@.len() ==> !text_before(#[trigger] r@[j]@, #[trigger] r@[i]@),
    {
        let mut all: Vec<String> = Vec::new();
        let mut i: usize = 0;
        while i < self.item_tags.len()
            invariant
                i <= self.item_tags@.len(),
                texts(all@) =~= tag_texts(*self).take(i as int),
                all@.len() == i,
            decreases self.item_tags@.len() - i,
        {
            all.push(self.item_tags[i].tag.clone());
            i = i + 1;
        }
        assert(tag_texts(*self).take(self.item_tags@.len() as int) =~= tag_texts(*self));
        let (d, _) = group_counts(&all);
        sort_texts(&d)
    }

    /// For every favorite that has tags, its tags in text order.
    pub fn get_all_item_tags_batch(&self) -> (r: HashMap<i64, Vec<String>>)
        requires
            self.wf(),
        ensures
            forall|k: i64| #[trigger] r@.contains_key(k) <==> has_favorite(self.favorites@, k)
                && tags_of(self.item_tags@, k).len() > 0,
            forall|k: i64| #[trigger] r@.contains_key(k) ==> texts(r@[k]@) == in_text_order(tags_of(self.item_tags@, k)),
    {
        broadcast use vstd::std_specs::hash::group_hash_axioms;
        let mut map: HashMap<i64, Vec<String>> = HashMap::new();
        let mut i: usize = 0;
        while i < self.favorites.len()
            invariant
                i <= self.favorites@.len(),
                self.wf(),
                forall|k: i64| #[trigger] map@.contains_key(k) <==> (exists|j: int|
                    0 <= j < i && (#[trigger] self.favorites@[j]).item_id == k)
                    && tags_of(self.item_tags@, k).len() > 0,
                forall|k: i64| #[trigger] map@.contains_key(k) ==> texts(map@[k]@) == in_text_order(tags_of(self.item_tags@, k)),
            decreases self.favorites@.len() - i,
        {
            let id = self.favorites[i].item_id;
            let tags = self.get_item_tags(id);
            if tags.len() > 0 {
                map.insert(id, tags);
            }
            i = i + 1;
        }
        map
    }

    /// For every favorite in some collection, the identifiers of its collections.
    pub fn get_all_item_collections_batch(&self) -> (r: HashMap<i64, Vec<i64>>)
        requires
            self.wf(),
        ensures
            forall|k: i64| #[trigger] r@.contains_key(k) <==> has_favorite(self.favorites@, k)
                && collections_of(self.memberships@, k).len() > 0,
            forall|k: i64| #[trigger] r@.contains_key(k) ==> r@[k]@ == collections_of(self.memberships@, k),
    {
        broadcast use vstd::std_specs::hash::group_hash_axioms;
        let mut map: HashMap<i64, Vec<i64>> = HashMap::new();
        let mut i: usize = 0;
        while i < self.favorites.len()
            invariant
                i <= self.favorites@.len(),
                self.wf(),
                forall|k: i64| #[trigger] map@.contains_key(k) <==> (exists|j: int|
                    0 <= j < i && (#[trigger] self.favorites@[j]).item_id == k)
                    && collections_of(self.memberships@, k).len() > 0,
                forall|k: i64| #[trigger] map@.contains_key(k) ==> map@[k]@ == collections_of(self.memberships@, k),
            decreases self.favorites@.len() - i,
        {
            let id = self.favorites[i].item_id;
            let cols = self.get_item_collections(id);
            if cols.len() > 0 {
                map.insert(id, cols);
            }
            i = i + 1;
        }
        map
    }
}

} // verus!
