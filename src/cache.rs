//! The listing cache: listings from the marketplace are stored whole,
//! replacing any earlier copy, with their image and tag lists encoded as
//! JSON text.
use vstd::prelude::*;

use crate::error::{AppError, AppResult};
use crate::grouping::texts;
use crate::model::{BoothItem, CachedItem, Snapshot};
use crate::store::{fits, lemma_filter_push, lemma_filter_subset, unchanged_except, Store, Table, unique_by, cached_key, lemma_unique_filter, lemma_unique_push};

verus! {

/// The compact JSON array text that serde_json writes for a list of strings.
pub uninterp spec fn json_of_strings(items: Seq<Seq<char>>) -> Seq<char>;

/// Relies on `serde_json::to_string` on a `Vec<String>`: it writes into a
/// `Vec<u8>` and has no error path for strings, so it succeeds, and its text
/// depends on the strings alone.
#[verifier::external_body]
fn encode_list(items: &Vec<String>) -> (r: Option<String>)
    ensures
        r is Some,
        r matches Some(s) ==> s@ == json_of_strings(texts(items@)),
{
    serde_json::to_string(items).ok()
}

/// The text stored for a list whose encoding failed.
pub const EMPTY_LIST: &'static str = "[]";

/// The stored text of an encoded list: the encoding, or an empty list when
/// encoding failed.
pub fn encoded_or_empty(encoded: Option<String>) -> (r: String)
    ensures
        r@ == match encoded {
            Some(s) => s@,
            None => EMPTY_LIST@,
        },
{
    match encoded {
        Some(s) => s,
        None => String::from_str(EMPTY_LIST),
    }
}

/// `row` is the cached copy of `item` taken at time `now`.
pub open spec fn caches(row: CachedItem, item: BoothItem, now: u64) -> bool {
    &&& row.id == item.id
    &&& row.name == item.name
    &&& row.description == item.description
    &&& row.price == item.price
    &&& row.category_name == item.category_name
    &&& row.shop_name == item.shop_name
    &&& row.url == item.url
    &&& row.images_json@ == json_of_strings(texts(item.images@))
    &&& row.tags_json@ == json_of_strings(texts(item.tags@))
    &&& row.wish_count == item.wish_lists_count
    &&& row.cached_at == now
}

pub open spec fn other_id(id: i64) -> spec_fn(CachedItem) -> bool {
    |c: CachedItem| c.id != id
}

/// The table after storing `rows` in order, each replacing any row with its identifier.
pub open spec fn upserted(table: Seq<CachedItem>, rows: Seq<CachedItem>) -> Seq<CachedItem>
    decreases rows.len(),
{
    if rows.len() == 0 {
        table
    } else {
        upserted(table, rows.drop_last()).filter(other_id(rows.last().id)).push(rows.last())
    }
}

proof fn lemma_upserted_len(table: Seq<CachedItem>, rows: Seq<CachedItem>)
    ensures
        upserted(table, rows).len() <= table.len() + rows.len(),
    decreases rows.len(),
{
    if rows.len() > 0 {
        lemma_upserted_len(table, rows.drop_last());
        lemma_filter_subset(upserted(table, rows.drop_last()), other_id(rows.last().id));
    }
}

proof fn lemma_upserted_unique(table: Seq<CachedItem>, rows: Seq<CachedItem>)
    requires
        unique_by(table, cached_key()),
    ensures
        unique_by(upserted(table, rows), cached_key()),
    decreases rows.len(),
{
    if rows.len() > 0 {
        let base = upserted(table, rows.drop_last());
        lemma_upserted_unique(table, rows.drop_last());
        let x = rows.last();
        lemma_unique_filter(base, cached_key(), other_id(x.id));
        let f = base.filter(other_id(x.id));
        assert forall|i: int| 0 <= i < f.len() implies (cached_key())(#[trigger] f[i]) != (cached_key())(x) by {
            base.lemma_filter_pred(other_id(x.id), i);
        }
        lemma_unique_push(f, x, cached_key());
    }
}

/// The cached copy of `item` taken at time `now`.
fn cached_row(item: &BoothItem, now: u64) -> (r: CachedItem)
    ensures
        caches(r, *item, now),
{
    let images = encoded_or_empty(encode_list(&item.images));
    let tags = encoded_or_empty(encode_list(&item.tags));
    CachedItem {
        id: item.id,
        name: item.name.clone(),
        description: crate::model::copy_text(&item.description),
        price: item.price,
        category_name: crate::model::copy_text(&item.category_name),
        shop_name: crate::model::copy_text(&item.shop_name),
        url: item.url.clone(),
        images_json: images,
        tags_json: tags,
        wish_count: item.wish_lists_count,
        cached_at: now,
    }
}

fn without_id(v: &Vec<CachedItem>, id: i64) -> (r: Vec<CachedItem>)
    ensures
        r@ == v@.filter(other_id(id)),
{
    let mut out: Vec<CachedItem> = Vec::new();
    let mut i: usize = 0;
    while i < v.len()
        invariant
            i <= v@.len(),
            out@ == v@.take(i as int).filter(other_id(id)),
        decreases v@.len() - i,
    {
        proof {
            assert(v@.take(i + 1) =~= v@.take(i as int).push(v@[i as int]));
            lemma_filter_push(v@.take(i as int), v@[i as int], other_id(id));
        }
        if v[i].id != id {
            out.push(v[i].snapshot());
        }
        i = i + 1;
    }
    assert(v@.take(v@.len() as int) =~= v@);
    out
}

impl Store {
    /// Stores `rows` in order, each replacing any cached row with its
    /// identifier; an error, with nothing stored, when the table could
    /// outgrow its limit.
    pub fn upsert_cached_items(&mut self, rows: Vec<CachedItem>) -> (r: AppResult<()>)
        requires
            old(self).wf(),
        ensures
            final(self).wf(),
            r is Ok <==> fits(old(self).cached_items@.len() + rows@.len()),
            r matches Err(e) ==> e is Database && unchanged_except(*old(self), *final(self), Set::empty()),
            r is Ok ==> final(self).cached_items@ == upserted(old(self).cached_items@, rows@)
                && unchanged_except(*old(self), *final(self), set![Table::Cache]),
    {
        let total = self.cached_items.len() as u128 + rows.len() as u128;
        if !(total <= crate::store::MAX_ROWS as u128 && total < usize::MAX as u128) {
            return Err(AppError::Database(String::from_str("database or disk is full")));
        }
        let mut k: usize = 0;
        while k < rows.len()
            invariant
                k <= rows@.len(),
                old(self).wf(),
                fits(old(self).cached_items@.len() + rows@.len()),
                self.cached_items@ == upserted(old(self).cached_items@, rows@.take(k as int)),
                unchanged_except(*old(self), *self, set![Table::Cache]),
            decreases rows@.len() - k,
        {
            proof {
                assert(rows@.take(k + 1).drop_last() =~= rows@.take(k as int));
                lemma_upserted_len(old(self).cached_items@, rows@.take(k as int));
            }
            let mut kept = without_id(&self.cached_items, rows[k].id);
            kept.push(rows[k].snapshot());
            self.cached_items = kept;
            k = k + 1;
        }
        proof {
            assert(rows@.take(rows@.len() as int) =~= rows@);
            lemma_upserted_len(old(self).cached_items@, rows@);
            lemma_upserted_unique(old(self).cached_items@, rows@);
        }
        Ok(())
    }

    /// Caches listings at time `now`, each replacing any earlier copy, with
    /// its image and tag lists stored as their JSON text.
    pub fn cache_items(&mut self, items: Vec<BoothItem>, now: u64) -> (r: AppResult<()>)
        requires
            old(self).wf(),
        ensures
            final(self).wf(),
            r is Ok <==> fits(old(self).cached_items@.len() + items@.len()),
            r matches Err(e) ==> e is Database && unchanged_except(*old(self), *final(self), Set::empty()),
            r is Ok ==> unchanged_except(*old(self), *final(self), set![Table::Cache])
                && exists|rows: Seq<CachedItem>|
                rows.len() == items@.len()
                && (forall|k: int| 0 <= k < rows.len() ==> caches(#[trigger] rows[k], items@[k], now))
                && final(self).cached_items@ == upserted(old(self).cached_items@, rows),
    {
        let mut rows: Vec<CachedItem> = Vec::new();
        let mut k: usize = 0;
        while k < items.len()
            invariant
                k <= items@.len(),
                rows@.len() == k,
                forall|j: int| 0 <= j < k ==> caches(#[trigger] rows@[j], items@[j], now),
            decreases items@.len() - k,
        {
            rows.push(cached_row(&items[k], now));
            k = k + 1;
        }
        self.upsert_cached_items(rows)
    }
}

} // verus!
