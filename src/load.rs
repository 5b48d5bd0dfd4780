//! Rebuilding a store from rows read back from persistent storage, with
//! every invariant checked.
use vstd::prelude::*;

use crate::error::{AppError, AppResult};
use crate::model::{
    CachedItem, CollectionRecord, FavoriteItem, ItemTag, Membership, PopularAvatar, SearchEntry,
    Translation,
};
use crate::store::{
    avatars_unique, cached_key, collection_key, favorites_unique, fits, membership_key, source_key, tag_key,
    unique_by, Store, HISTORY_CAP, MAX_ROWS,
};

verus! {

/// The largest identifier ever handed out in each table with
/// store-assigned identifiers (zero when none was).
pub struct Sequences {
    pub favorites: i64,
    pub collections: i64,
    pub tags: i64,
    pub searches: i64,
    pub avatars: i64,
}

/// Whether no two listings repeat.
fn distinct_listings(v: &Vec<FavoriteItem>) -> (r: bool)
    ensures
        r == favorites_unique(v@),
{
    let mut i: usize = 0;
    while i < v.len()
        invariant
            i <= v@.len(),
            forall|a: int, b: int| 0 <= a < i && 0 <= b < i && a != b ==> v@[a].item_id != v@[b].item_id,
        decreases v@.len() - i,
    {
        let mut j: usize = 0;
        while j < i
            invariant
                j <= i < v@.len(),
                forall|b: int| 0 <= b < j ==> v@[b].item_id != v@[i as int].item_id,
            decreases i - j,
        {
            if v[j].item_id == v[i].item_id {
                assert(!favorites_unique(v@)) by {
                    assert(v@[j as int].item_id == v@[i as int].item_id);
                }
                return false;
            }
            j = j + 1;
        }
        i = i + 1;
    }
    true
}

/// Whether no two avatars share a Japanese name.
fn distinct_avatar_names(v: &Vec<PopularAvatar>) -> (r: bool)
    ensures
        r == avatars_unique(v@),
{
    let mut i: usize = 0;
    while i < v.len()
        invariant
            i <= v@.len(),
            forall|a: int, b: int| 0 <= a < i && 0 <= b < i && a != b ==> v@[a].name_ja@ != v@[b].name_ja@,
        decreases v@.len() - i,
    {
        let mut j: usize = 0;
        while j < i
            invariant
                j <= i < v@.len(),
                forall|b: int| 0 <= b < j ==> v@[b].name_ja@ != v@[i as int].name_ja@,
            decreases i - j,
        {
            if v[j].name_ja == v[i].name_ja {
                assert(!avatars_unique(v@)) by {
                    assert(v@[j as int].name_ja@ == v@[i as int].name_ja@);
                }
                return false;
            }
            j = j + 1;
        }
        i = i + 1;
    }
    true
}

/// Whether no two cached listings share an identifier.
fn distinct_cached_ids(v: &Vec<CachedItem>) -> (r: bool)
    ensures
        r == unique_by(v@, cached_key()),
{
    let mut i: usize = 0;
    while i < v.len()
        invariant
            i <= v@.len(),
            forall|a: int, b: int| 0 <= a < i && 0 <= b < i && a != b ==> (cached_key())(v@[a]) != (cached_key())(v@[b]),
        decreases v@.len() - i,
    {
        let mut j: usize = 0;
        while j < i
            invariant
                j <= i < v@.len(),
                forall|b: int| 0 <= b < j ==> (cached_key())(v@[b]) != (cached_key())(v@[i as int]),
            decreases i - j,
        {
            if v[j].id == v[i].id {
                assert(!unique_by(v@, cached_key())) by {
                    assert((cached_key())(v@[j as int]) == (cached_key())(v@[i as int]));
                }
                return false;
            }
            j = j + 1;
        }
        i = i + 1;
    }
    true
}

/// Whether no two collections share an identifier.
fn distinct_collection_ids(v: &Vec<CollectionRecord>) -> (r: bool)
    ensures
        r == unique_by(v@, collection_key()),
{
    let mut i: usize = 0;
    while i < v.len()
        invariant
            i <= v@.len(),
            forall|a: int, b: int| 0 <= a < i && 0 <= b < i && a != b ==> (collection_key())(v@[a]) != (collection_key())(v@[b]),
        decreases v@.len() - i,
    {
        let mut j: usize = 0;
        while j < i
            invariant
                j <= i < v@.len(),
                forall|b: int| 0 <= b < j ==> (collection_key())(v@[b]) != (collection_key())(v@[i as int]),
            decreases i - j,
        {
            if v[j].id == v[i].id {
                assert(!unique_by(v@, collection_key())) by {
                    assert((collection_key())(v@[j as int]) == (collection_key())(v@[i as int]));
                }
                return false;
            }
            j = j + 1;
        }
        i = i + 1;
    }
    true
}

/// Whether no two memberships share a collection and item.
fn distinct_memberships(v: &Vec<Membership>) -> (r: bool)
    ensures
        r == unique_by(v@, membership_key()),
{
    let mut i: usize = 0;
    while i < v.len()
        invariant
            i <= v@.len(),
            forall|a: int, b: int| 0 <= a < i && 0 <= b < i && a != b ==> (membership_key())(v@[a]) != (membership_key())(v@[b]),
        decreases v@.len() - i,
    {
        let mut j: usize = 0;
        while j < i
            invariant
                j <= i < v@.len(),
                forall|b: int| 0 <= b < j ==> (membership_key())(v@[b]) != (membership_key())(v@[i as int]),
            decreases i - j,
        {
            if v[j].collection_id == v[i].collection_id && v[j].item_id == v[i].item_id {
                assert(!unique_by(v@, membership_key())) by {
                    assert((membership_key())(v@[j as int]) == (membership_key())(v@[i as int]));
                }
                return false;
            }
            j = j + 1;
        }
        i = i + 1;
    }
    true
}

/// Whether no two item tags share an item and tag.
fn distinct_item_tags(v: &Vec<ItemTag>) -> (r: bool)
    ensures
        r == unique_by(v@, tag_key()),
{
    let mut i: usize = 0;
    while i < v.len()
        invariant
            i <= v@.len(),
            forall|a: int, b: int| 0 <= a < i && 0 <= b < i && a != b ==> (tag_key())(v@[a]) != (tag_key())(v@[b]),
        decreases v@.len() - i,
    {
        let mut j: usize = 0;
        while j < i
            invariant
                j <= i < v@.len(),
                forall|b: int| 0 <= b < j ==> (tag_key())(v@[b]) != (tag_key())(v@[i as int]),
            decreases i - j,
        {
            if v[j].item_id == v[i].item_id && v[j].tag == v[i].tag {
                assert(!unique_by(v@, tag_key())) by {
                    assert((tag_key())(v@[j as int]) == (tag_key())(v@[i as int]));
                }
                return false;
            }
            j = j + 1;
        }
        i = i + 1;
    }
    true
}

/// Whether no two translations share a source text.
fn distinct_sources(v: &Vec<Translation>) -> (r: bool)
    ensures
        r == unique_by(v@, source_key()),
{
    let mut i: usize = 0;
    while i < v.len()
        invariant
            i <= v@.len(),
            forall|a: int, b: int| 0 <= a < i && 0 <= b < i && a != b ==> (source_key())(v@[a]) != (source_key())(v@[b]),
        decreases v@.len() - i,
    {
        let mut j: usize = 0;
        while j < i
            invariant
                j <= i < v@.len(),
                forall|b: int| 0 <= b < j ==> (source_key())(v@[b]) != (source_key())(v@[i as int]),
            decreases i - j,
        {
            if v[j].source_text == v[i].source_text {
                assert(!unique_by(v@, source_key())) by {
                    assert((source_key())(v@[j as int]) == (source_key())(v@[i as int]));
                }
                return false;
            }
            j = j + 1;
        }
        i = i + 1;
    }
    true
}

/// The identifier after every one of `ids` and after `seq`.
fn next_id(ids: &Vec<i64>, seq: i64) -> (r: Option<i64>)
    ensures
        r is Some <==> (seq < i64::MAX && forall|i: int| 0 <= i < ids@.len() ==> #[trigger] ids@[i] < i64::MAX),
        r matches Some(n) ==> n > seq && forall|i: int| 0 <= i < ids@.len() ==> #[trigger] ids@[i] < n,
{
    if seq == i64::MAX {
        return None;
    }
    let mut top: i64 = seq;
    let mut i: usize = 0;
    while i < ids.len()
        invariant
            i <= ids@.len(),
            seq <= top < i64::MAX,
            forall|k: int| 0 <= k < i ==> #[trigger] ids@[k] <= top,
        decreases ids@.len() - i,
    {
        if ids[i] == i64::MAX {
            return None;
        }
        if ids[i] > top {
            top = ids[i];
        }
        i = i + 1;
    }
    Some(top + 1)
}

fn fits_exec(n: usize) -> (r: bool)
    ensures
        r == fits(n as nat),
{
    (n as u64) <= MAX_ROWS && n < usize::MAX
}

impl Store {
    /// A store holding the given rows. Fails when a table is over its limit,
    /// the history over its cap, a table's key repeated, or the identifiers
    /// exhausted.
    pub fn from_tables(
        cached_items: Vec<CachedItem>,
        favorites: Vec<FavoriteItem>,
        collections: Vec<CollectionRecord>,
        memberships: Vec<Membership>,
        item_tags: Vec<ItemTag>,
        search_history: Vec<SearchEntry>,
        avatars: Vec<PopularAvatar>,
        translations: Vec<Translation>,
        sequences: Sequences,
    ) -> (r: AppResult<Store>)
        ensures
            r matches Ok(s) ==> {
                &&& s.wf()
                &&& s.cached_items@ == cached_items@
                &&& s.favorites@ == favorites@
                &&& s.collections@ == collections@
                &&& s.memberships@ == memberships@
                &&& s.item_tags@ == item_tags@
                &&& s.search_history@ == search_history@
                &&& s.avatars@ == avatars@
                &&& s.translations@ == translations@
                &&& s.next_favorite_id > sequences.favorites
                &&& s.next_collection_id > sequences.collections
                &&& s.next_tag_id > sequences.tags
                &&& s.next_search_id > sequences.searches
                &&& s.next_avatar_id > sequences.avatars
            },
            r is Err ==> r->Err_0 is Database,
            r is Err <==> !(fits(cached_items@.len()) && fits(favorites@.len()) && fits(collections@.len())
                && fits(memberships@.len()) && fits(item_tags@.len()) && fits(avatars@.len())
                && fits(translations@.len()) && search_history@.len() <= HISTORY_CAP
                && favorites_unique(favorites@) && avatars_unique(avatars@)
                && unique_by(cached_items@, cached_key()) && unique_by(collections@, collection_key())
                && unique_by(memberships@, membership_key()) && unique_by(item_tags@, tag_key())
                && unique_by(translations@, source_key())
                && sequences.favorites < i64::MAX && sequences.collections < i64::MAX
                && sequences.tags < i64::MAX && sequences.searches < i64::MAX
                && sequences.avatars < i64::MAX
                && (forall|i: int| 0 <= i < favorites@.len() ==> (#[trigger] favorites@[i]).id < i64::MAX)
                && (forall|i: int| 0 <= i < collections@.len() ==> (#[trigger] collections@[i]).id < i64::MAX)
                && (forall|i: int| 0 <= i < item_tags@.len() ==> (#[trigger] item_tags@[i]).id < i64::MAX)
                && (forall|i: int| 0 <= i < search_history@.len() ==> (#[trigger] search_history@[i]).id < i64::MAX)
                && (forall|i: int| 0 <= i < avatars@.len() ==> (#[trigger] avatars@[i]).id < i64::MAX)),
    {
        if !(fits_exec(cached_items.len()) && fits_exec(favorites.len()) && fits_exec(collections.len())
            && fits_exec(memberships.len()) && fits_exec(item_tags.len()) && fits_exec(avatars.len())
            && fits_exec(translations.len()) && search_history.len() <= HISTORY_CAP) {
            return Err(AppError::Database(String::from_str("table over its limit")));
        }
        if !distinct_listings(&favorites) || !distinct_avatar_names(&avatars) || !distinct_cached_ids(&cached_items)
            || !distinct_collection_ids(&collections) || !distinct_memberships(&memberships)
            || !distinct_item_tags(&item_tags) || !distinct_sources(&translations) {
            return Err(AppError::Database(String::from_str("UNIQUE constraint failed")));
        }
        let mut ids: Vec<i64> = Vec::new();
        let mut i: usize = 0;
        while i < favorites.len()
            invariant
                i <= favorites@.len(),
                ids@.len() == i,
                forall|k: int| 0 <= k < i ==> ids@[k] == (#[trigger] favorites@[k]).id,
            decreases favorites@.len() - i,
        {
            ids.push(favorites[i].id);
            i = i + 1;
        }
        let next_favorite_id = match next_id(&ids, sequences.favorites) {
            Some(n) => n,
            None => {
                assert(!(forall|i: int| 0 <= i < favorites@.len() ==> (#[trigger] favorites@[i]).id < i64::MAX) || sequences.favorites == i64::MAX) by {
                    if sequences.favorites < i64::MAX {
                        let k = choose|k: int| 0 <= k < ids@.len() && !(#[trigger] ids@[k] < i64::MAX);
                        assert(favorites@[k].id == ids@[k]);
                    }
                }
                return Err(AppError::Database(String::from_str("database or disk is full")));
            },
        };
        assert forall|k: int| 0 <= k < favorites@.len() implies (#[trigger] favorites@[k]).id < next_favorite_id by {
            assert(ids@[k] == favorites@[k].id);
        }
        let mut ids: Vec<i64> = Vec::new();
        let mut i: usize = 0;
        while i < collections.len()
            invariant
                i <= collections@.len(),
                ids@.len() == i,
                forall|k: int| 0 <= k < i ==> ids@[k] == (#[trigger] collections@[k]).id,
            decreases collections@.len() - i,
        {
            ids.push(collections[i].id);
            i = i + 1;
        }
        let next_collection_id = match next_id(&ids, sequences.collections) {
            Some(n) => n,
            None => {
                assert(!(forall|i: int| 0 <= i < collections@.len() ==> (#[trigger] collections@[i]).id < i64::MAX) || sequences.collections == i64::MAX) by {
                    if sequences.collections < i64::MAX {
                        let k = choose|k: int| 0 <= k < ids@.len() && !(#[trigger] ids@[k] < i64::MAX);
                        assert(collections@[k].id == ids@[k]);
                    }
                }
                return Err(AppError::Database(String::from_str("database or disk is full")));
            },
        };
        assert forall|k: int| 0 <= k < collections@.len() implies (#[trigger] collections@[k]).id < next_collection_id by {
            assert(ids@[k] == collections@[k].id);
        }
        let mut ids: Vec<i64> = Vec::new();
        let mut i: usize = 0;
        while i < item_tags.len()
            invariant
                i <= item_tags@.len(),
                ids@.len() == i,
                forall|k: int| 0 <= k < i ==> ids@[k] == (#[trigger] item_tags@[k]).id,
            decreases item_tags@.len() - i,
        {
            ids.push(item_tags[i].id);
            i = i + 1;
        }
        let next_tag_id = match next_id(&ids, sequences.tags) {
            Some(n) => n,
            None => {
                assert(!(forall|i: int| 0 <= i < item_tags@.len() ==> (#[trigger] item_tags@[i]).id < i64::MAX) || sequences.tags == i64::MAX) by {
                    if sequences.tags < i64::MAX {
                        let k = choose|k: int| 0 <= k < ids@.len() && !(#[trigger] ids@[k] < i64::MAX);
                        assert(item_tags@[k].id == ids@[k]);
                    }
                }
                return Err(AppError::Database(String::from_str("database or disk is full")));
            },
        };
        assert forall|k: int| 0 <= k < item_tags@.len() implies (#[trigger] item_tags@[k]).id < next_tag_id by {
            assert(ids@[k] == item_tags@[k].id);
        }
        let mut ids: Vec<i64> = Vec::new();
        let mut i: usize = 0;
        while i < search_history.len()
            invariant
                i <= search_history@.len(),
                ids@.len() == i,
                forall|k: int| 0 <= k < i ==> ids@[k] == (#[trigger] search_history@[k]).id,
            decreases search_history@.len() - i,
        {
            ids.push(search_history[i].id);
            i = i + 1;
        }
        let next_search_id = match next_id(&ids, sequences.searches) {
            Some(n) => n,
            None => {
                assert(!(forall|i: int| 0 <= i < search_history@.len() ==> (#[trigger] search_history@[i]).id < i64::MAX) || sequences.searches == i64::MAX) by {
                    if sequences.searches < i64::MAX {
                        let k = choose|k: int| 0 <= k < ids@.len() && !(#[trigger] ids@[k] < i64::MAX);
                        assert(search_history@[k].id == ids@[k]);
                    }
                }
                return Err(AppError::Database(String::from_str("database or disk is full")));
            },
        };
        assert forall|k: int| 0 <= k < search_history@.len() implies (#[trigger] search_history@[k]).id < next_search_id by {
            assert(ids@[k] == search_history@[k].id);
        }
        let mut ids: Vec<i64> = Vec::new();
        let mut i: usize = 0;
        while i < avatars.len()
            invariant
                i <= avatars@.len(),
                ids@.len() == i,
                forall|k: int| 0 <= k < i ==> ids@[k] == (#[trigger] avatars@[k]).id,
            decreases avatars@.len() - i,
        {
            ids.push(avatars[i].id);
            i = i + 1;
        }
        let next_avatar_id = match next_id(&ids, sequences.avatars) {
            Some(n) => n,
            None => {
                assert(!(forall|i: int| 0 <= i < avatars@.len() ==> (#[trigger] avatars@[i]).id < i64::MAX) || sequences.avatars == i64::MAX) by {
                    if sequences.avatars < i64::MAX {
                        let k = choose|k: int| 0 <= k < ids@.len() && !(#[trigger] ids@[k] < i64::MAX);
                        assert(avatars@[k].id == ids@[k]);
                    }
                }
                return Err(AppError::Database(String::from_str("database or disk is full")));
            },
        };
        assert forall|k: int| 0 <= k < avatars@.len() implies (#[trigger] avatars@[k]).id < next_avatar_id by {
            assert(ids@[k] == avatars@[k].id);
        }
        Ok(Store {
            cached_items,
            favorites,
            collections,
            memberships,
            item_tags,
            search_history,
            avatars,
            translations,
            next_favorite_id,
            next_collection_id,
            next_tag_id,
            next_search_id,
            next_avatar_id,
        })
    }
}

} // verus!
