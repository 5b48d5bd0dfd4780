//! Favorites: saving a listing once, listing favorites newest first, and
//! removing a favorite together with its tags and collection memberships.
use vstd::prelude::*;

use crate::error::{AppError, AppResult};
use crate::model::{pick, pick_rows, AddFavoriteParams, FavoriteItem, ItemTag, Membership, Snapshot};
use crate::order::{sort_order, sorted_order};
use crate::store::{room_for_one, favorites_unique, fits, lemma_filter_push, lemma_filter_subset, unchanged_except, Store, Table, lemma_unique_filter, membership_key, tag_key};

verus! {

pub open spec fn has_favorite(favs: Seq<FavoriteItem>, item_id: i64) -> bool {
    exists|i: int| 0 <= i < favs.len() && (#[trigger] favs[i]).item_id == item_id
}

/// The row that saving `p` at time `now` adds under identifier `id`.
pub open spec fn new_favorite(p: AddFavoriteParams, id: i64, now: u64) -> FavoriteItem {
    FavoriteItem {
        id,
        item_id: p.item_id,
        name: p.name,
        price: p.price,
        thumbnail_url: p.thumbnail_url,
        category_name: p.category_name,
        shop_name: p.shop_name,
        added_at: Some(now),
        note: None,
    }
}

/// The favorites table can take no further row.
pub open spec fn favorites_full(s: Store) -> bool {
    !fits(s.favorites@.len() + 1) || s.next_favorite_id == i64::MAX
}

/// Saving a favorite: a listing already saved is left as it is (its note and
/// time included); otherwise one row is added.
pub open spec fn add_favorite_post(
    old: Store,
    new: Store,
    p: AddFavoriteParams,
    now: u64,
    r: AppResult<()>,
) -> bool {
    if has_favorite(old.favorites@, p.item_id) {
        r is Ok && unchanged_except(old, new, Set::empty())
    } else if favorites_full(old) {
        r matches Err(e) && e is Database && unchanged_except(old, new, Set::empty())
    } else {
        &&& r is Ok
        &&& new.favorites@ == old.favorites@.push(new_favorite(p, old.next_favorite_id, now))
        &&& new.next_favorite_id == old.next_favorite_id + 1
        &&& unchanged_except(old, new, set![Table::Favorites])
    }
}

pub open spec fn other_favorite(item_id: i64) -> spec_fn(FavoriteItem) -> bool {
    |f: FavoriteItem| f.item_id != item_id
}

pub open spec fn other_member(item_id: i64) -> spec_fn(Membership) -> bool {
    |m: Membership| m.item_id != item_id
}

pub open spec fn other_tag(item_id: i64) -> spec_fn(ItemTag) -> bool {
    |t: ItemTag| t.item_id != item_id
}

/// Removing a favorite: the item's memberships, tags and favorite row all go,
/// and nothing else changes.
pub open spec fn remove_favorite_post(old: Store, new: Store, item_id: i64) -> bool {
    &&& new.favorites@ == old.favorites@.filter(other_favorite(item_id))
    &&& new.memberships@ == old.memberships@.filter(other_member(item_id))
    &&& new.item_tags@ == old.item_tags@.filter(other_tag(item_id))
    &&& new.next_favorite_id == old.next_favorite_id
    &&& new.next_tag_id == old.next_tag_id
    &&& unchanged_except(old, new, set![Table::Favorites, Table::Memberships, Table::Tags])
}

/// Sort keys of the favorites listing: newest first, favorites without a
/// time last, then highest identifier first.
pub open spec fn favorite_keys(favs: Seq<FavoriteItem>) -> Seq<(i128, i128)> {
    favs.map_values(|f: FavoriteItem| (time_key(f.added_at), (-(f.id as int)) as i128))
}

pub open spec fn time_key(t: Option<u64>) -> i128 {
    match t {
        Some(t) => (-(t as int)) as i128,
        None => 1,
    }
}

pub fn favorite_sort_keys(favs: &Vec<FavoriteItem>) -> (r: Vec<(i128, i128)>)
    ensures
        r@ == favorite_keys(favs@),
{
    let mut keys: Vec<(i128, i128)> = Vec::new();
    let mut i: usize = 0;
    while i < favs.len()
        invariant
            i <= favs@.len(),
            keys@ =~= favorite_keys(favs@.take(i as int)),
        decreases favs@.len() - i,
    {
        let f = &favs[i];
        let t: i128 = match f.added_at {
            Some(t) => -(t as i128),
            None => 1,
        };
        keys.push((t, -(f.id as i128)));
        i = i + 1;
    }
    assert(favs@.take(favs@.len() as int) =~= favs@);
    keys
}

fn favorites_without(v: &Vec<FavoriteItem>, item_id: i64) -> (r: Vec<FavoriteItem>)
    requires
        favorites_unique(v@),
    ensures
        r@ == v@.filter(other_favorite(item_id)),
        favorites_unique(r@),
{
    let mut out: Vec<FavoriteItem> = Vec::new();
    let mut i: usize = 0;
    while i < v.len()
        invariant
            i <= v@.len(),
            favorites_unique(v@),
            out@ == v@.take(i as int).filter(other_favorite(item_id)),
            favorites_unique(out@),
            forall|k: int| #![trigger out@[k]]
                0 <= k < out@.len() ==> exists|j: int| 0 <= j < i && #[trigger] v@[j] == out@[k],
        decreases v@.len() - i,
    {
        proof {
            assert(v@.take(i + 1) =~= v@.take(i as int).push(v@[i as int]));
            lemma_filter_push(v@.take(i as int), v@[i as int], other_favorite(item_id));
        }
        if v[i].item_id != item_id {
            let ghost before = out@;
            out.push(v[i].snapshot());
            proof {
                assert forall|a: int, b: int|
                    0 <= a < out@.len() && 0 <= b < out@.len() && #[trigger] out@[a].item_id
                        == #[trigger] out@[b].item_id implies a == b by {
                    if a < before.len() && b == before.len() {
                        let j = choose|j: int| 0 <= j < i && #[trigger] v@[j] == before[a];
                        assert(v@[j].item_id == v@[i as int].item_id);
                    } else if b < before.len() && a == before.len() {
                        let j = choose|j: int| 0 <= j < i && #[trigger] v@[j] == before[b];
                        assert(v@[j].item_id == v@[i as int].item_id);
                    }
                }
                assert forall|k: int| #![trigger out@[k]] 0 <= k < out@.len() implies exists|j: int|
                    0 <= j < i + 1 && #[trigger] v@[j] == out@[k] by {
                    if k == before.len() {
                        assert(v@[i as int] == out@[k]);
                    } else {
                        let j = choose|j: int| 0 <= j < i && #[trigger] v@[j] == before[k];
                        assert(v@[j] == out@[k]);
                    }
                }
            }
        }
        i = i + 1;
    }
    assert(v@.take(v@.len() as int) =~= v@);
    out
}

fn memberships_without(v: &Vec<Membership>, item_id: i64) -> (r: Vec<Membership>)
    ensures
        r@ == v@.filter(other_member(item_id)),
{
    let mut out: Vec<Membership> = Vec::new();
    let mut i: usize = 0;
    while i < v.len()
        invariant
            i <= v@.len(),
            out@ == v@.take(i as int).filter(other_member(item_id)),
        decreases v@.len() - i,
    {
        proof {
            assert(v@.take(i + 1) =~= v@.take(i as int).push(v@[i as int]));
            lemma_filter_push(v@.take(i as int), v@[i as int], other_member(item_id));
        }
        if v[i].item_id != item_id {
            out.push(v[i].snapshot());
        }
        i = i + 1;
    }
    assert(v@.take(v@.len() as int) =~= v@);
    out
}

pub(crate) fn tags_without(v: &Vec<ItemTag>, item_id: i64) -> (r: Vec<ItemTag>)
    ensures
        r@ == v@.filter(other_tag(item_id)),
{
    let mut out: Vec<ItemTag> = Vec::new();
    let mut i: usize = 0;
    while i < v.len()
        invariant
            i <= v@.len(),
            out@ == v@.take(i as int).filter(other_tag(item_id)),
        decreases v@.len() - i,
    {
        proof {
            assert(v@.take(i + 1) =~= v@.take(i as int).push(v@[i as int]));
            lemma_filter_push(v@.take(i as int), v@[i as int], other_tag(item_id));
        }
        if v[i].item_id != item_id {
            out.push(v[i].snapshot());
        }
        i = i + 1;
    }
    assert(v@.take(v@.len() as int) =~= v@);
    out
}

/// Exactly one favorite is for the listing `item_id`.
pub open spec fn exactly_one_favorite(favs: Seq<FavoriteItem>, item_id: i64) -> bool {
    exists|i: int|
        0 <= i < favs.len() && (#[trigger] favs[i]).item_id == item_id && forall|j: int|
            0 <= j < favs.len() && (#[trigger] favs[j]).item_id == item_id ==> j == i
}

/// Saving the same listing twice leaves exactly one favorite for it, and the
/// second save changes nothing: the note and time of the first stay.
pub proof fn law_favorite_saved_once(
    s0: Store,
    s1: Store,
    s2: Store,
    first: AddFavoriteParams,
    second: AddFavoriteParams,
    t1: u64,
    t2: u64,
    r1: AppResult<()>,
    r2: AppResult<()>,
)
    requires
        s0.wf(),
        first.item_id == second.item_id,
        add_favorite_post(s0, s1, first, t1, r1),
        add_favorite_post(s1, s2, second, t2, r2),
        r1 is Ok,
    ensures
        r2 is Ok,
        exactly_one_favorite(s2.favorites@, first.item_id),
        s2.favorites@ == s1.favorites@,
        unchanged_except(s1, s2, Set::empty()),
{
    let x = first.item_id;
    if has_favorite(s0.favorites@, x) {
        let i = choose|i: int| 0 <= i < s0.favorites@.len() && (#[trigger] s0.favorites@[i]).item_id == x;
        assert(s1.favorites@ == s0.favorites@);
        assert(has_favorite(s1.favorites@, x));
    } else {
        let n = s0.favorites@.len() as int;
        assert(s1.favorites@[n].item_id == x);
        assert(has_favorite(s1.favorites@, x));
        assert forall|j: int|
            0 <= j < s1.favorites@.len() && (#[trigger] s1.favorites@[j]).item_id == x implies j == n by {
            if j < n {
                assert(s0.favorites@[j] == s1.favorites@[j]);
            }
        }
    }
}

/// After a favorite is removed, no membership, tag or favorite row refers to
/// its listing, whether or not any did before.
pub proof fn law_remove_favorite_cascades(old: Store, new: Store, item_id: i64)
    requires
        remove_favorite_post(old, new, item_id),
    ensures
        forall|i: int| 0 <= i < new.memberships@.len() ==> (#[trigger] new.memberships@[i]).item_id != item_id,
        forall|i: int| 0 <= i < new.item_tags@.len() ==> (#[trigger] new.item_tags@[i]).item_id != item_id,
        forall|i: int| 0 <= i < new.favorites@.len() ==> (#[trigger] new.favorites@[i]).item_id != item_id,
{
    assert forall|i: int| 0 <= i < new.memberships@.len() implies (#[trigger] new.memberships@[i]).item_id != item_id by {
        old.memberships@.lemma_filter_pred(other_member(item_id), i);
    }
    assert forall|i: int| 0 <= i < new.item_tags@.len() implies (#[trigger] new.item_tags@[i]).item_id != item_id by {
        old.item_tags@.lemma_filter_pred(other_tag(item_id), i);
    }
    assert forall|i: int| 0 <= i < new.favorites@.len() implies (#[trigger] new.favorites@[i]).item_id != item_id by {
        old.favorites@.lemma_filter_pred(other_favorite(item_id), i);
    }
}

impl Store {
    /// Whether the listing `item_id` is a favorite.
    pub fn is_favorite(&self, item_id: i64) -> (r: bool)
        ensures
            r == has_favorite(self.favorites@, item_id),
    {
        let mut i: usize = 0;
        while i < self.favorites.len()
            invariant
                i <= self.favorites@.len(),
                forall|j: int| 0 <= j < i ==> (#[trigger] self.favorites@[j]).item_id != item_id,
            decreases self.favorites@.len() - i,
        {
            if self.favorites[i].item_id == item_id {
                return true;
            }
            i = i + 1;
        }
        false
    }

    /// Saves a listing as a favorite at time `now`; saving one that is
    /// already a favorite changes nothing.
    pub fn add_favorite(&mut self, params: AddFavoriteParams, now: u64) -> (r: AppResult<()>)
        requires
            old(self).wf(),
        ensures
            final(self).wf(),
            add_favorite_post(*old(self), *final(self), params, now, r),
    {
        if self.is_favorite(params.item_id) {
            return Ok(());
        }
        if !room_for_one(self.favorites.len()) || self.next_favorite_id == i64::MAX {
            return Err(AppError::Database(String::from_str("database or disk is full")));
        }
        let id = self.next_favorite_id;
        let row = FavoriteItem {
            id,
            item_id: params.item_id,
            name: params.name,
            price: params.price,
            thumbnail_url: params.thumbnail_url,
            category_name: params.category_name,
            shop_name: params.shop_name,
            added_at: Some(now),
            note: None,
        };
        let ghost before = self.favorites@;
        self.favorites.push(row);
        self.next_favorite_id = id + 1;
        proof {
            assert forall|i: int, j: int|
                0 <= i < self.favorites@.len() && 0 <= j < self.favorites@.len()
                    && #[trigger] self.favorites@[i].item_id == #[trigger] self.favorites@[j].item_id implies i
                    == j by {
                if i < before.len() && j == before.len() {
                    assert(before[i].item_id == params.item_id);
                } else if j < before.len() && i == before.len() {
                    assert(before[j].item_id == params.item_id);
                }
            }
        }
        Ok(())
    }

    /// Removes the favorite for `item_id` together with its collection
    /// memberships and tags, all at once; removing an absent favorite is no
    /// error.
    pub fn remove_favorite(&mut self, item_id: i64) -> (r: AppResult<()>)
        requires
            old(self).wf(),
        ensures
            r is Ok,
            final(self).wf(),
            remove_favorite_post(*old(self), *final(self), item_id),
    {
        let members = memberships_without(&self.memberships, item_id);
        let tags = tags_without(&self.item_tags, item_id);
        let favs = favorites_without(&self.favorites, item_id);
        proof {
            lemma_unique_filter(self.memberships@, membership_key(), other_member(item_id));
            lemma_unique_filter(self.item_tags@, tag_key(), other_tag(item_id));
            lemma_filter_subset(self.memberships@, other_member(item_id));
            lemma_filter_subset(self.item_tags@, other_tag(item_id));
            lemma_filter_subset(self.favorites@, other_favorite(item_id));
        }
        self.memberships = members;
        self.item_tags = tags;
        self.favorites = favs;
        proof {
            assert forall|i: int| 0 <= i < self.favorites@.len() implies (
            #[trigger] self.favorites@[i]).id < self.next_favorite_id by {
                assert(old(self).favorites@.contains(self.favorites@[i]));
            }
            assert forall|i: int| 0 <= i < self.item_tags@.len() implies (
            #[trigger] self.item_tags@[i]).id < self.next_tag_id by {
                assert(old(self).item_tags@.contains(self.item_tags@[i]));
            }
        }
        Ok(())
    }

    /// Every favorite, newest first and those without a time last;
    /// favorites saved at the same time come highest identifier first.
    pub fn get_favorites(&self) -> (r: Vec<FavoriteItem>)
        ensures
            r@ == pick(self.favorites@, sorted_order(favorite_keys(self.favorites@))),
    {
        let keys = favorite_sort_keys(&self.favorites);
        let order = sort_order(&keys);
        pick_rows(&self.favorites, &order)
    }
}

} // verus!
