//! The rows of the store's tables and the values that its operations take
//! and return. Timestamps are whole seconds since the Unix epoch.
use vstd::prelude::*;

verus! {

/// A row that can hand out an exact copy of itself.
pub trait Snapshot: Sized {
    fn snapshot(&self) -> (r: Self)
        ensures
            r == *self,
    ;
}

pub fn copy_text(o: &Option<String>) -> (r: Option<String>)
    ensures
        r == *o,
{
    match o {
        Some(s) => Some(s.clone()),
        None => None,
    }
}

impl Snapshot for String {
    fn snapshot(&self) -> (r: Self) {
        self.clone()
    }
}

/// A listing saved by the user, with a snapshot of its display data taken
/// when it was saved.
#[derive(Debug)]
pub struct FavoriteItem {
    pub id: i64,
    pub item_id: i64,
    pub name: String,
    pub price: i64,
    pub thumbnail_url: Option<String>,
    pub category_name: Option<String>,
    pub shop_name: Option<String>,
    /// When it was saved; none for a row whose time could not be read back.
    pub added_at: Option<u64>,
    pub note: Option<String>,
}

impl Snapshot for FavoriteItem {
    fn snapshot(&self) -> (r: Self) {
        FavoriteItem {
            id: self.id,
            item_id: self.item_id,
            name: self.name.clone(),
            price: self.price,
            thumbnail_url: copy_text(&self.thumbnail_url),
            category_name: copy_text(&self.category_name),
            shop_name: copy_text(&self.shop_name),
            added_at: self.added_at,
            note: copy_text(&self.note),
        }
    }
}

/// What the caller supplies to save a listing as a favorite.
#[derive(Debug)]
pub struct AddFavoriteParams {
    pub item_id: i64,
    pub name: String,
    pub price: i64,
    pub thumbnail_url: Option<String>,
    pub category_name: Option<String>,
    pub shop_name: Option<String>,
}

/// A stored collection.
#[derive(Debug)]
pub struct CollectionRecord {
    pub id: i64,
    pub name: String,
    pub color: String,
    pub created_at: u64,
    pub sort_order: i64,
}

impl Snapshot for CollectionRecord {
    fn snapshot(&self) -> (r: Self) {
        CollectionRecord {
            id: self.id,
            name: self.name.clone(),
            color: self.color.clone(),
            created_at: self.created_at,
            sort_order: self.sort_order,
        }
    }
}

/// A collection as listed, with the live number of its members.
#[derive(Debug)]
pub struct Collection {
    pub id: i64,
    pub name: String,
    pub color: String,
    pub created_at: u64,
    pub sort_order: i64,
    pub item_count: i64,
}

/// What the caller supplies to create a collection.
#[derive(Debug)]
pub struct CreateCollectionParams {
    pub name: String,
    pub color: Option<String>,
}

/// Membership of an item in a collection.
#[derive(Debug)]
pub struct Membership {
    pub collection_id: i64,
    pub item_id: i64,
    pub added_at: u64,
}

impl Snapshot for Membership {
    fn snapshot(&self) -> (r: Self) {
        Membership { collection_id: self.collection_id, item_id: self.item_id, added_at: self.added_at }
    }
}

/// A tag attached to an item.
#[derive(Debug)]
pub struct ItemTag {
    pub id: i64,
    pub item_id: i64,
    pub tag: String,
}

impl Snapshot for ItemTag {
    fn snapshot(&self) -> (r: Self) {
        ItemTag { id: self.id, item_id: self.item_id, tag: self.tag.clone() }
    }
}

/// One recorded search.
#[derive(Debug)]
pub struct SearchEntry {
    pub id: i64,
    pub keyword: String,
    pub searched_at: u64,
}

impl Snapshot for SearchEntry {
    fn snapshot(&self) -> (r: Self) {
        SearchEntry { id: self.id, keyword: self.keyword.clone(), searched_at: self.searched_at }
    }
}

/// A popular avatar, named in three languages.
#[derive(Debug)]
pub struct PopularAvatar {
    pub id: i64,
    pub name_ja: String,
    pub name_ko: String,
    pub name_en: String,
    pub item_count: i64,
    pub thumbnail_url: Option<String>,
    pub updated_at: u64,
    pub is_default: i64,
}

impl Snapshot for PopularAvatar {
    fn snapshot(&self) -> (r: Self) {
        PopularAvatar {
            id: self.id,
            name_ja: self.name_ja.clone(),
            name_ko: self.name_ko.clone(),
            name_en: self.name_en.clone(),
            item_count: self.item_count,
            thumbnail_url: copy_text(&self.thumbnail_url),
            updated_at: self.updated_at,
            is_default: self.is_default,
        }
    }
}

/// A listing as it arrives from the marketplace.
#[derive(Debug)]
pub struct BoothItem {
    pub id: i64,
    pub name: String,
    pub description: Option<String>,
    pub price: i64,
    pub category_name: Option<String>,
    pub shop_name: Option<String>,
    pub url: String,
    pub images: Vec<String>,
    pub tags: Vec<String>,
    pub wish_lists_count: Option<i64>,
}

/// A cached copy of a listing; its image and tag lists are kept encoded.
#[derive(Debug)]
pub struct CachedItem {
    pub id: i64,
    pub name: String,
    pub description: Option<String>,
    pub price: i64,
    pub category_name: Option<String>,
    pub shop_name: Option<String>,
    pub url: String,
    pub images_json: String,
    pub tags_json: String,
    pub wish_count: Option<i64>,
    pub cached_at: u64,
}

impl Snapshot for CachedItem {
    fn snapshot(&self) -> (r: Self) {
        CachedItem {
            id: self.id,
            name: self.name.clone(),
            description: copy_text(&self.description),
            price: self.price,
            category_name: copy_text(&self.category_name),
            shop_name: copy_text(&self.shop_name),
            url: self.url.clone(),
            images_json: self.images_json.clone(),
            tags_json: self.tags_json.clone(),
            wish_count: self.wish_count,
            cached_at: self.cached_at,
        }
    }
}

/// A cached translation of a source text.
#[derive(Debug)]
pub struct Translation {
    pub source_text: String,
    pub translated_text: String,
    pub created_at: u64,
}

impl Snapshot for Translation {
    fn snapshot(&self) -> (r: Self) {
        Translation {
            source_text: self.source_text.clone(),
            translated_text: self.translated_text.clone(),
            created_at: self.created_at,
        }
    }
}

/// What is known of an available application update.
#[derive(Debug)]
pub struct UpdateInfo {
    pub version: String,
    pub body: Option<String>,
}

/// An exact copy of the rows of `v`.
pub fn copy_rows<T: Snapshot>(v: &Vec<T>) -> (r: Vec<T>)
    ensures
        r@ == v@,
{
    let mut out: Vec<T> = Vec::new();
    let mut i: usize = 0;
    while i < v.len()
        invariant
            i <= v@.len(),
            out@ =~= v@.take(i as int),
        decreases v@.len() - i,
    {
        out.push(v[i].snapshot());
        i = i + 1;
    }
    assert(v@.take(v@.len() as int) =~= v@);
    out
}

/// The rows of `rows` at the positions `order`, in that order.
pub open spec fn pick<T>(rows: Seq<T>, order: Seq<usize>) -> Seq<T> {
    order.map_values(|j: usize| rows[j as int])
}

/// Copies the rows of `rows` at the positions `order`.
pub fn pick_rows<T: Snapshot>(rows: &Vec<T>, order: &Vec<usize>) -> (r: Vec<T>)
    requires
        forall|q: int| 0 <= q < order@.len() ==> (#[trigger] order@[q]) < rows@.len(),
    ensures
        r@ == pick(rows@, order@),
{
    let mut out: Vec<T> = Vec::new();
    let mut q: usize = 0;
    while q < order.len()
        invariant
            q <= order@.len(),
            forall|k: int| 0 <= k < order@.len() ==> (#[trigger] order@[k]) < rows@.len(),
            out@ =~= pick(rows@, order@.take(q as int)),
        decreases order@.len() - q,
    {
        let j = order[q];
        out.push(rows[j].snapshot());
        q = q + 1;
    }
    assert(order@.take(order@.len() as int) =~= order@);
    out
}

} // verus!
