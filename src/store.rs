//! The store: every table of the application, owned by one value that is
//! passed explicitly to each operation, with the invariants the operations
//! keep.
use vstd::prelude::*;

use crate::model::{CachedItem, CollectionRecord, FavoriteItem, ItemTag, Membership, PopularAvatar, SearchEntry, Translation};

verus! {

/// Most rows a table can hold (the largest row identifier of the storage engine).
pub const MAX_ROWS: u64 = 9223372036854775807;

/// How many searches the history keeps.
pub const HISTORY_CAP: usize = 10000;

/// The tables of the store.
pub enum Table {
    Cache,
    Favorites,
    Collections,
    Memberships,
    Tags,
    Searches,
    Avatars,
    Translations,
}

/// All persistent state: one value per table, and for each table with
/// store-assigned identifiers the next identifier to hand out.
pub struct Store {
    pub cached_items: Vec<CachedItem>,
    pub favorites: Vec<FavoriteItem>,
    pub collections: Vec<CollectionRecord>,
    pub memberships: Vec<Membership>,
    pub item_tags: Vec<ItemTag>,
    pub search_history: Vec<SearchEntry>,
    pub avatars: Vec<PopularAvatar>,
    pub translations: Vec<Translation>,
    pub next_favorite_id: i64,
    pub next_collection_id: i64,
    pub next_tag_id: i64,
    pub next_search_id: i64,
    pub next_avatar_id: i64,
}

/// Every table not in `t` is the same in `a` and `b`.
pub open spec fn unchanged_except(a: Store, b: Store, t: Set<Table>) -> bool {
    &&& !t.contains(Table::Cache) ==> a.cached_items@ == b.cached_items@
    &&& !t.contains(Table::Favorites) ==> a.favorites@ == b.favorites@ && a.next_favorite_id
        == b.next_favorite_id
    &&& !t.contains(Table::Collections) ==> a.collections@ == b.collections@
        && a.next_collection_id == b.next_collection_id
    &&& !t.contains(Table::Memberships) ==> a.memberships@ == b.memberships@
    &&& !t.contains(Table::Tags) ==> a.item_tags@ == b.item_tags@ && a.next_tag_id
        == b.next_tag_id
    &&& !t.contains(Table::Searches) ==> a.search_history@ == b.search_history@
        && a.next_search_id == b.next_search_id
    &&& !t.contains(Table::Avatars) ==> a.avatars@ == b.avatars@ && a.next_avatar_id
        == b.next_avatar_id
    &&& !t.contains(Table::Translations) ==> a.translations@ == b.translations@
}

/// A table of `n` rows is within the limits of the engine and of memory.
pub open spec fn fits(n: nat) -> bool {
    n <= MAX_ROWS && n < usize::MAX
}

/// Whether a table of `n` rows can take one more.
pub fn room_for_one(n: usize) -> (r: bool)
    ensures
        r == fits(n as nat + 1),
{
    (n as u64) < MAX_ROWS && n < usize::MAX - 1
}

/// No two rows of `s` share a key.
pub open spec fn unique_by<A, K>(s: Seq<A>, key: spec_fn(A) -> K) -> bool {
    forall|i: int, j: int| 0 <= i < s.len() && 0 <= j < s.len() && i != j ==> key(#[trigger] s[i]) != key(#[trigger] s[j])
}

pub open spec fn collection_key() -> spec_fn(CollectionRecord) -> i64 {
    |c: CollectionRecord| c.id
}

pub open spec fn membership_key() -> spec_fn(Membership) -> (i64, i64) {
    |m: Membership| (m.collection_id, m.item_id)
}

pub open spec fn tag_key() -> spec_fn(ItemTag) -> (i64, Seq<char>) {
    |t: ItemTag| (t.item_id, t.tag@)
}

pub open spec fn source_key() -> spec_fn(Translation) -> Seq<char> {
    |t: Translation| t.source_text@
}

pub open spec fn cached_key() -> spec_fn(CachedItem) -> i64 {
    |c: CachedItem| c.id
}

/// A row whose key no row has keeps the keys unique.
pub proof fn lemma_unique_push<A, K>(s: Seq<A>, x: A, key: spec_fn(A) -> K)
    requires
        unique_by(s, key),
        forall|i: int| 0 <= i < s.len() ==> key(#[trigger] s[i]) != key(x),
    ensures
        unique_by(s.push(x), key),
{
    let t = s.push(x);
    assert forall|i: int, j: int| 0 <= i < t.len() && 0 <= j < t.len() && i != j implies key(#[trigger] t[i]) != key(#[trigger] t[j]) by {
        if i < s.len() && j < s.len() {
            assert(t[i] == s[i] && t[j] == s[j]);
        } else if i < s.len() {
            assert(t[i] == s[i]);
        } else {
            assert(t[j] == s[j]);
        }
    }
}

/// Keeping some rows keeps the keys unique.
pub proof fn lemma_unique_filter<A, K>(s: Seq<A>, key: spec_fn(A) -> K, p: spec_fn(A) -> bool)
    requires
        unique_by(s, key),
    ensures
        unique_by(s.filter(p), key),
    decreases s.len(),
{
    reveal(Seq::filter);
    if s.len() > 0 {
        let d = s.drop_last();
        assert(unique_by(d, key)) by {
            assert forall|i: int, j: int| 0 <= i < d.len() && 0 <= j < d.len() && i != j implies key(#[trigger] d[i]) != key(#[trigger] d[j]) by {
                assert(d[i] == s[i] && d[j] == s[j]);
            }
        }
        lemma_unique_filter(d, key, p);
        if p(s.last()) {
            lemma_filter_subset(d, p);
            let f = d.filter(p);
            assert forall|i: int| 0 <= i < f.len() implies key(#[trigger] f[i]) != key(s.last()) by {
                assert(d.contains(f[i]));
                let j = choose|j: int| 0 <= j < d.len() && d[j] == f[i];
                assert(s[j] == f[i]);
                assert(s[s.len() - 1] == s.last());
            }
            lemma_unique_push(f, s.last(), key);
        }
    }
}

/// No two favorites are for the same listing.
pub open spec fn favorites_unique(favs: Seq<FavoriteItem>) -> bool {
    forall|i: int, j: int|
        0 <= i < favs.len() && 0 <= j < favs.len() && #[trigger] favs[i].item_id
            == #[trigger] favs[j].item_id ==> i == j
}

/// No two avatars share a Japanese name.
pub open spec fn avatars_unique(avs: Seq<PopularAvatar>) -> bool {
    forall|i: int, j: int|
        0 <= i < avs.len() && 0 <= j < avs.len() && #[trigger] avs[i].name_ja@
            == #[trigger] avs[j].name_ja@ ==> i == j
}

impl Store {
    /// The invariant of the store: tables within their size limits, every
    /// table's key unique (a listing favorited at most once, one avatar per
    /// Japanese name, one row per cached listing, collection, membership,
    /// item tag and translated text), and every identifier below the next one
    /// to be handed out.
    pub open spec fn wf(&self) -> bool {
        &&& fits(self.cached_items@.len())
        &&& fits(self.favorites@.len())
        &&& fits(self.collections@.len())
        &&& fits(self.memberships@.len())
        &&& fits(self.item_tags@.len())
        &&& fits(self.avatars@.len())
        &&& fits(self.translations@.len())
        &&& self.search_history@.len() <= HISTORY_CAP
        &&& favorites_unique(self.favorites@)
        &&& avatars_unique(self.avatars@)
        &&& unique_by(self.cached_items@, cached_key())
        &&& unique_by(self.collections@, collection_key())
        &&& unique_by(self.memberships@, membership_key())
        &&& unique_by(self.item_tags@, tag_key())
        &&& unique_by(self.translations@, source_key())
        &&& forall|i: int|
            0 <= i < self.favorites@.len() ==> (#[trigger] self.favorites@[i]).id
                < self.next_favorite_id
        &&& forall|i: int|
            0 <= i < self.collections@.len() ==> (#[trigger] self.collections@[i]).id
                < self.next_collection_id
        &&& forall|i: int|
            0 <= i < self.item_tags@.len() ==> (#[trigger] self.item_tags@[i]).id
                < self.next_tag_id
        &&& forall|i: int|
            0 <= i < self.search_history@.len() ==> (#[trigger] self.search_history@[i]).id
                < self.next_search_id
        &&& forall|i: int|
            0 <= i < self.avatars@.len() ==> (#[trigger] self.avatars@[i]).id
                < self.next_avatar_id
    }

    /// An empty store.
    pub fn new() -> (r: Store)
        ensures
            r.wf(),
            r.cached_items@.len() == 0,
            r.favorites@.len() == 0,
            r.collections@.len() == 0,
            r.memberships@.len() == 0,
            r.item_tags@.len() == 0,
            r.search_history@.len() == 0,
            r.avatars@.len() == 0,
            r.translations@.len() == 0,
            r.next_favorite_id == 1,
            r.next_collection_id == 1,
            r.next_tag_id == 1,
            r.next_search_id == 1,
            r.next_avatar_id == 1,
    {
        Store {
            cached_items: Vec::new(),
            favorites: Vec::new(),
            collections: Vec::new(),
            memberships: Vec::new(),
            item_tags: Vec::new(),
            search_history: Vec::new(),
            avatars: Vec::new(),
            translations: Vec::new(),
            next_favorite_id: 1,
            next_collection_id: 1,
            next_tag_id: 1,
            next_search_id: 1,
            next_avatar_id: 1,
        }
    }
}

/// Keeping the rows that satisfy `p` of a sequence with one more row.
pub proof fn lemma_filter_push<A>(s: Seq<A>, x: A, p: spec_fn(A) -> bool)
    ensures
        s.push(x).filter(p) == (if p(x) {
            s.filter(p).push(x)
        } else {
            s.filter(p)
        }),
{
    reveal(Seq::filter);
    assert(s.push(x).drop_last() =~= s);
}

/// Every row kept by a filter is a row of the source.
pub proof fn lemma_filter_subset<A>(s: Seq<A>, p: spec_fn(A) -> bool)
    ensures
        forall|i: int| 0 <= i < s.filter(p).len() ==> s.contains(#[trigger] s.filter(p)[i]),
        s.filter(p).len() <= s.len(),
    decreases s.len(),
{
    reveal(Seq::filter);
    if s.len() > 0 {
        let d = s.drop_last();
        lemma_filter_subset(d, p);
        assert forall|i: int| 0 <= i < s.filter(p).len() implies s.contains(
            #[trigger] s.filter(p)[i],
        ) by {
            if i < d.filter(p).len() {
                let x = d.filter(p)[i];
                assert(d.contains(x));
                let k = choose|k: int| 0 <= k < d.len() && d[k] == x;
                assert(s[k] == x);
            } else {
                assert(s[s.len() - 1] == s.filter(p)[i]);
            }
        }
    }
}

} // verus!
