//! Collections: named, colored groups of items, their memberships, and the
//! listing of collections in display order.
use vstd::prelude::*;

use crate::error::{AppError, AppResult};
use crate::favorites::has_favorite;
use crate::model::{
    pick, Collection, CollectionRecord, CreateCollectionParams, FavoriteItem, Membership, Snapshot,
};
use crate::order::{is_sorted_order, key_before, lemma_sorted_order, sort_order, sorted_order};
use crate::store::{room_for_one, fits, lemma_filter_push, lemma_filter_subset, unchanged_except, Store, Table, lemma_unique_filter, membership_key, collection_key};
use crate::text::{color_ok, name_ok, trim_of, validate_color, validate_name};

verus! {

/// The color of a collection created without one.
pub const DEFAULT_COLOR: &'static str = "#6366f1";

/// The color that creating a collection with `p` asks for.
pub open spec fn chosen_color(p: CreateCollectionParams) -> Seq<char> {
    match p.color {
        Some(c) => c@,
        None => DEFAULT_COLOR@,
    }
}

/// The collections table can take no further row.
pub open spec fn collections_full(s: Store) -> bool {
    !fits(s.collections@.len() + 1) || s.next_collection_id == i64::MAX
}

/// Creating a collection: the name is trimmed and checked, then the color;
/// a valid request adds one row with sort order zero and returns its identifier.
pub open spec fn create_collection_post(
    old: Store,
    new: Store,
    p: CreateCollectionParams,
    now: u64,
    r: AppResult<i64>,
) -> bool {
    if !name_ok(trim_of(p.name@)) || !color_ok(chosen_color(p)) {
        r matches Err(e) && e is ParseError && unchanged_except(old, new, Set::empty())
    } else if collections_full(old) {
        r matches Err(e) && e is Database && unchanged_except(old, new, Set::empty())
    } else {
        let n = old.collections@.len() as int;
        &&& r == Ok::<i64, AppError>(old.next_collection_id)
        &&& new.collections@.len() == n + 1
        &&& new.collections@.take(n) == old.collections@
        &&& new.collections@[n].id == old.next_collection_id
        &&& new.collections@[n].name@ == trim_of(p.name@)
        &&& new.collections@[n].color@ == chosen_color(p)
        &&& new.collections@[n].created_at == now
        &&& new.collections@[n].sort_order == 0
        &&& new.next_collection_id == old.next_collection_id + 1
        &&& unchanged_except(old, new, set![Table::Collections])
    }
}

/// `new` is `old` with the name of each collection `id` set to `name` and
/// nothing else changed.
pub open spec fn renamed(old: Seq<CollectionRecord>, new: Seq<CollectionRecord>, id: i64, name: Seq<char>) -> bool {
    &&& new.len() == old.len()
    &&& forall|i: int| 0 <= i < old.len() ==> {
        let (a, b) = (#[trigger] old[i], new[i]);
        if a.id == id {
            b.name@ == name && b.id == a.id && b.color == a.color && b.created_at == a.created_at
                && b.sort_order == a.sort_order
        } else {
            b == a
        }
    }
}

/// `new` is `old` with the color of each collection `id` set to `color` and
/// nothing else changed.
pub open spec fn recolored(old: Seq<CollectionRecord>, new: Seq<CollectionRecord>, id: i64, color: Seq<char>) -> bool {
    &&& new.len() == old.len()
    &&& forall|i: int| 0 <= i < old.len() ==> {
        let (a, b) = (#[trigger] old[i], new[i]);
        if a.id == id {
            b.color@ == color && b.id == a.id && b.name == a.name && b.created_at == a.created_at
                && b.sort_order == a.sort_order
        } else {
            b == a
        }
    }
}

pub open spec fn other_collection(id: i64) -> spec_fn(CollectionRecord) -> bool {
    |c: CollectionRecord| c.id != id
}

pub open spec fn outside_collection(id: i64) -> spec_fn(Membership) -> bool {
    |m: Membership| m.collection_id != id
}

pub open spec fn in_collection(id: i64) -> spec_fn(Membership) -> bool {
    |m: Membership| m.collection_id == id
}

pub open spec fn of_item(item_id: i64) -> spec_fn(Membership) -> bool {
    |m: Membership| m.item_id == item_id
}

pub open spec fn not_pair(collection_id: i64, item_id: i64) -> spec_fn(Membership) -> bool {
    |m: Membership| !(m.collection_id == collection_id && m.item_id == item_id)
}

pub open spec fn has_collection(cs: Seq<CollectionRecord>, id: i64) -> bool {
    exists|i: int| 0 <= i < cs.len() && (#[trigger] cs[i]).id == id
}

pub open spec fn has_membership(ms: Seq<Membership>, collection_id: i64, item_id: i64) -> bool {
    exists|i: int|
        0 <= i < ms.len() && (#[trigger] ms[i]).collection_id == collection_id && ms[i].item_id
            == item_id
}

/// Adding an item to a collection: the collection must exist; an existing
/// membership is left as it is.
pub open spec fn add_to_collection_post(
    old: Store,
    new: Store,
    collection_id: i64,
    item_id: i64,
    now: u64,
    r: AppResult<()>,
) -> bool {
    if !has_collection(old.collections@, collection_id) {
        r matches Err(e) && e is Database && unchanged_except(old, new, Set::empty())
    } else if has_membership(old.memberships@, collection_id, item_id) {
        r is Ok && unchanged_except(old, new, Set::empty())
    } else if !fits(old.memberships@.len() + 1) {
        r matches Err(e) && e is Database && unchanged_except(old, new, Set::empty())
    } else {
        &&& r is Ok
        &&& new.memberships@ == old.memberships@.push(
            Membership { collection_id, item_id, added_at: now },
        )
        &&& unchanged_except(old, new, set![Table::Memberships])
    }
}

/// The favorites that the memberships `ms` refer to, in the order of `ms`.
pub open spec fn joined(favs: Seq<FavoriteItem>, ms: Seq<Membership>) -> Seq<FavoriteItem>
    decreases ms.len(),
{
    if ms.len() == 0 {
        Seq::empty()
    } else {
        joined(favs, ms.drop_last()) + favs.filter(same_listing(ms.last().item_id))
    }
}

pub open spec fn same_listing(item_id: i64) -> spec_fn(FavoriteItem) -> bool {
    |f: FavoriteItem| f.item_id == item_id
}

/// Sort keys of a collection's members: most recently added first.
pub open spec fn member_keys(ms: Seq<Membership>) -> Seq<(i128, i128)> {
    ms.map_values(|m: Membership| ((-(m.added_at as int)) as i128, 0i128))
}

/// The members of collection `id`, most recently added first.
pub open spec fn members_in_order(ms: Seq<Membership>, id: i64) -> Seq<Membership> {
    let own = ms.filter(in_collection(id));
    pick(own, sorted_order(member_keys(own)))
}

/// Sort keys of the collections listing: by sort order, then by identifier.
pub open spec fn collection_keys(cs: Seq<CollectionRecord>) -> Seq<(i128, i128)> {
    cs.map_values(|c: CollectionRecord| (c.sort_order as i128, c.id as i128))
}

/// How many memberships collection `id` has.
pub open spec fn member_count(ms: Seq<Membership>, id: i64) -> int {
    ms.filter(in_collection(id)).len() as int
}

/// A collection as listed.
pub open spec fn listed(c: CollectionRecord, ms: Seq<Membership>) -> Collection {
    Collection {
        id: c.id,
        name: c.name,
        color: c.color,
        created_at: c.created_at,
        sort_order: c.sort_order,
        item_count: member_count(ms, c.id) as i64,
    }
}

/// Every collection with its member count, by sort order and then identifier.
pub open spec fn collections_listing(s: Store) -> Seq<Collection> {
    pick(s.collections@, sorted_order(collection_keys(s.collections@))).map_values(
        |c: CollectionRecord| listed(c, s.memberships@),
    )
}

fn collections_without(v: &Vec<CollectionRecord>, id: i64) -> (r: Vec<CollectionRecord>)
    ensures
        r@ == v@.filter(other_collection(id)),
{
    let mut out: Vec<CollectionRecord> = Vec::new();
    let mut i: usize = 0;
    while i < v.len()
        invariant
            i <= v@.len(),
            out@ == v@.take(i as int).filter(other_collection(id)),
        decreases v@.len() - i,
    {
        proof {
            assert(v@.take(i + 1) =~= v@.take(i as int).push(v@[i as int]));
            lemma_filter_push(v@.take(i as int), v@[i as int], other_collection(id));
        }
        if v[i].id != id {
            out.push(v[i].snapshot());
        }
        i = i + 1;
    }
    assert(v@.take(v@.len() as int) =~= v@);
    out
}

/// Which memberships a filter keeps.
enum MemberFilter {
    /// Those outside a collection.
    OutsideCollection(i64),
    /// Those of a collection.
    InCollection(i64),
    /// Those of an item.
    OfItem(i64),
    /// All but one pair of collection and item.
    AllBut(i64, i64),
}

spec fn kept_by(f: MemberFilter) -> spec_fn(Membership) -> bool {
    match f {
        MemberFilter::OutsideCollection(id) => outside_collection(id),
        MemberFilter::InCollection(id) => in_collection(id),
        MemberFilter::OfItem(item_id) => of_item(item_id),
        MemberFilter::AllBut(collection_id, item_id) => not_pair(collection_id, item_id),
    }
}

fn keeps(f: &MemberFilter, m: &Membership) -> (r: bool)
    ensures
        r == (kept_by(*f))(*m),
{
    match f {
        MemberFilter::OutsideCollection(id) => m.collection_id != *id,
        MemberFilter::InCollection(id) => m.collection_id == *id,
        MemberFilter::OfItem(item_id) => m.item_id == *item_id,
        MemberFilter::AllBut(collection_id, item_id) => !(m.collection_id == *collection_id && m.item_id == *item_id),
    }
}

/// The memberships of `v` that `f` keeps, in order.
fn memberships_where(v: &Vec<Membership>, f: MemberFilter) -> (r: Vec<Membership>)
    ensures
        r@ == v@.filter(kept_by(f)),
{
    let mut out: Vec<Membership> = Vec::new();
    let mut i: usize = 0;
    while i < v.len()
        invariant
            i <= v@.len(),
            out@ == v@.take(i as int).filter(kept_by(f)),
        decreases v@.len() - i,
    {
        proof {
            assert(v@.take(i + 1) =~= v@.take(i as int).push(v@[i as int]));
            lemma_filter_push(v@.take(i as int), v@[i as int], kept_by(f));
        }
        if keeps(&f, &v[i]) {
            out.push(v[i].snapshot());
        }
        i = i + 1;
    }
    assert(v@.take(v@.len() as int) =~= v@);
    out
}

/// How many memberships collection `id` has.
fn count_members(ms: &Vec<Membership>, id: i64) -> (r: usize)
    ensures
        r == member_count(ms@, id),
        r <= ms@.len(),
{
    let mut c: usize = 0;
    let mut i: usize = 0;
    while i < ms.len()
        invariant
            i <= ms@.len(),
            c == ms@.take(i as int).filter(in_collection(id)).len(),
            c <= i,
        decreases ms@.len() - i,
    {
        proof {
            assert(ms@.take(i + 1) =~= ms@.take(i as int).push(ms@[i as int]));
            lemma_filter_push(ms@.take(i as int), ms@[i as int], in_collection(id));
        }
        if ms[i].collection_id == id {
            c = c + 1;
        }
        i = i + 1;
    }
    assert(ms@.take(ms@.len() as int) =~= ms@);
    c
}

impl Store {
    /// Whether a collection `id` exists.
    pub fn collection_exists(&self, id: i64) -> (r: bool)
        ensures
            r == has_collection(self.collections@, id),
    {
        let mut i: usize = 0;
        while i < self.collections.len()
            invariant
                i <= self.collections@.len(),
                forall|j: int| 0 <= j < i ==> (#[trigger] self.collections@[j]).id != id,
            decreases self.collections@.len() - i,
        {
            if self.collections[i].id == id {
                return true;
            }
            i = i + 1;
        }
        false
    }

    /// Whether item `item_id` is a member of collection `collection_id`.
    pub fn is_member(&self, collection_id: i64, item_id: i64) -> (r: bool)
        ensures
            r == has_membership(self.memberships@, collection_id, item_id),
    {
        let mut i: usize = 0;
        while i < self.memberships.len()
            invariant
                i <= self.memberships@.len(),
                forall|j: int|
                    0 <= j < i ==> !((#[trigger] self.memberships@[j]).collection_id == collection_id
                        && self.memberships@[j].item_id == item_id),
            decreases self.memberships@.len() - i,
        {
            if self.memberships[i].collection_id == collection_id && self.memberships[i].item_id == item_id {
                return true;
            }
            i = i + 1;
        }
        false
    }

    /// Creates a collection at time `now` and returns its identifier; the
    /// name is trimmed, and the color defaults to `#6366f1`.
    pub fn create_collection(&mut self, params: CreateCollectionParams, now: u64) -> (r: AppResult<i64>)
        requires
            old(self).wf(),
        ensures
            final(self).wf(),
            create_collection_post(*old(self), *final(self), params, now, r),
    {
        let name = match validate_name(params.name.as_str()) {
            Ok(n) => n,
            Err(e) => return Err(e),
        };
        let color = match params.color {
            Some(c) => c,
            None => String::from_str(DEFAULT_COLOR),
        };
        match validate_color(color.as_str()) {
            Ok(()) => {},
            Err(e) => return Err(e),
        }
        if !room_for_one(self.collections.len()) || self.next_collection_id == i64::MAX {
            return Err(AppError::Database(String::from_str("database or disk is full")));
        }
        let id = self.next_collection_id;
        let ghost before = self.collections@;
        self.collections.push(CollectionRecord { id, name, color, created_at: now, sort_order: 0 });
        self.next_collection_id = id + 1;
        assert(self.collections@.take(before.len() as int) =~= before);
        Ok(id)
    }

    /// Renames collection `id`; the name is trimmed and checked first.
    pub fn rename_collection(&mut self, id: i64, name: &str) -> (r: AppResult<()>)
        requires
            old(self).wf(),
        ensures
            final(self).wf(),
            r is Ok <==> name_ok(trim_of(name@)),
            r matches Err(e) ==> e is ParseError && unchanged_except(*old(self), *final(self), Set::empty()),
            r is Ok ==> renamed(old(self).collections@, final(self).collections@, id, trim_of(name@))
                && unchanged_except(*old(self), *final(self), set![Table::Collections])
                && final(self).next_collection_id == old(self).next_collection_id,
    {
        let name = match validate_name(name) {
            Ok(n) => n,
            Err(e) => return Err(e),
        };
        let ghost start = self.collections@;
        let mut i: usize = 0;
        while i < self.collections.len()
            invariant
                i <= self.collections@.len(),
                self.collections@.len() == start.len(),
                unchanged_except(*old(self), *self, set![Table::Collections]),
                self.next_collection_id == old(self).next_collection_id,
                start == old(self).collections@,
                old(self).wf(),
                self.wf(),
                forall|k: int| i <= k < start.len() ==> self.collections@[k] == #[trigger] start[k],
                forall|k: int| 0 <= k < i ==> {
                    let (a, b) = (#[trigger] start[k], self.collections@[k]);
                    if a.id == id {
                        b.name@ == name@ && b.id == a.id && b.color == a.color && b.created_at
                            == a.created_at && b.sort_order == a.sort_order
                    } else {
                        b == a
                    }
                },
            decreases start.len() - i,
        {
            if self.collections[i].id == id {
                let mut rec = self.collections[i].snapshot();
                rec.name = name.clone();
                self.collections.set(i, rec);
            }
            i = i + 1;
        }
        Ok(())
    }

    /// Sets the color of collection `id`; the color must be `#RRGGBB`.
    pub fn update_collection_color(&mut self, id: i64, color: &str) -> (r: AppResult<()>)
        requires
            old(self).wf(),
        ensures
            final(self).wf(),
            r is Ok <==> color_ok(color@),
            r matches Err(e) ==> e is ParseError && unchanged_except(*old(self), *final(self), Set::empty()),
            r is Ok ==> recolored(old(self).collections@, final(self).collections@, id, color@)
                && unchanged_except(*old(self), *final(self), set![Table::Collections])
                && final(self).next_collection_id == old(self).next_collection_id,
    {
        match validate_color(color) {
            Ok(()) => {},
            Err(e) => return Err(e),
        }
        let ghost start = self.collections@;
        let mut i: usize = 0;
        while i < self.collections.len()
            invariant
                i <= self.collections@.len(),
                self.collections@.len() == start.len(),
                unchanged_except(*old(self), *self, set![Table::Collections]),
                self.next_collection_id == old(self).next_collection_id,
                start == old(self).collections@,
                old(self).wf(),
                self.wf(),
                color_ok(color@),
                forall|k: int| i <= k < start.len() ==> self.collections@[k] == #[trigger] start[k],
                forall|k: int| 0 <= k < i ==> {
                    let (a, b) = (#[trigger] start[k], self.collections@[k]);
                    if a.id == id {
                        b.color@ == color@ && b.id == a.id && b.name == a.name && b.created_at
                            == a.created_at && b.sort_order == a.sort_order
                    } else {
                        b == a
                    }
                },
            decreases start.len() - i,
        {
            if self.collections[i].id == id {
                let mut rec = self.collections[i].snapshot();
                rec.color = String::from_str(color);
                self.collections.set(i, rec);
            }
            i = i + 1;
        }
        Ok(())
    }

    /// Deletes collection `id` and all its memberships.
    pub fn delete_collection(&mut self, id: i64) -> (r: AppResult<()>)
        requires
            old(self).wf(),
        ensures
            r is Ok,
            final(self).wf(),
            final(self).collections@ == old(self).collections@.filter(other_collection(id)),
            final(self).memberships@ == old(self).memberships@.filter(outside_collection(id)),
            final(self).next_collection_id == old(self).next_collection_id,
            unchanged_except(*old(self), *final(self), set![Table::Collections, Table::Memberships]),
    {
        let cs = collections_without(&self.collections, id);
        let ms = memberships_where(&self.memberships, MemberFilter::OutsideCollection(id));
        proof {
            lemma_unique_filter(self.collections@, collection_key(), other_collection(id));
            lemma_unique_filter(self.memberships@, membership_key(), outside_collection(id));
            lemma_filter_subset(self.collections@, other_collection(id));
            lemma_filter_subset(self.memberships@, outside_collection(id));
        }
        self.collections = cs;
        self.memberships = ms;
        proof {
            assert forall|i: int| 0 <= i < self.collections@.len() implies (
            #[trigger] self.collections@[i]).id < self.next_collection_id by {
                assert(old(self).collections@.contains(self.collections@[i]));
            }
        }
        Ok(())
    }

    /// Adds item `item_id` to collection `collection_id` at time `now`.
    pub fn add_to_collection(&mut self, collection_id: i64, item_id: i64, now: u64) -> (r: AppResult<()>)
        requires
            old(self).wf(),
        ensures
            final(self).wf(),
            add_to_collection_post(*old(self), *final(self), collection_id, item_id, now, r),
    {
        if !self.collection_exists(collection_id) {
            return Err(AppError::Database(String::from_str("FOREIGN KEY constraint failed")));
        }
        if self.is_member(collection_id, item_id) {
            return Ok(());
        }
        if !room_for_one(self.memberships.len()) {
            return Err(AppError::Database(String::from_str("database or disk is full")));
        }
        self.memberships.push(Membership { collection_id, item_id, added_at: now });
        Ok(())
    }

    /// Removes item `item_id` from collection `collection_id`.
    pub fn remove_from_collection(&mut self, collection_id: i64, item_id: i64) -> (r: AppResult<()>)
        requires
            old(self).wf(),
        ensures
            r is Ok,
            final(self).wf(),
            final(self).memberships@ == old(self).memberships@.filter(not_pair(collection_id, item_id)),
            unchanged_except(*old(self), *final(self), set![Table::Memberships]),
    {
        let ms = memberships_where(&self.memberships, MemberFilter::AllBut(collection_id, item_id));
        proof {
            lemma_unique_filter(self.memberships@, membership_key(), not_pair(collection_id, item_id));
            lemma_filter_subset(self.memberships@, not_pair(collection_id, item_id));
        }
        self.memberships = ms;
        Ok(())
    }

    /// The identifiers of the collections that item `item_id` belongs to.
    pub fn get_item_collections(&self, item_id: i64) -> (r: Vec<i64>)
        ensures
            r@ == self.memberships@.filter(of_item(item_id)).map_values(|m: Membership| m.collection_id),
    {
        let ms = memberships_where(&self.memberships, MemberFilter::OfItem(item_id));
        let mut out: Vec<i64> = Vec::new();
        let mut i: usize = 0;
        while i < ms.len()
            invariant
                i <= ms@.len(),
                out@ =~= ms@.take(i as int).map_values(|m: Membership| m.collection_id),
            decreases ms@.len() - i,
        {
            out.push(ms[i].collection_id);
            i = i + 1;
        }
        assert(ms@.take(ms@.len() as int) =~= ms@);
        out
    }

    /// The favorites in collection `collection_id`, most recently added to it first.
    pub fn get_collection_items(&self, collection_id: i64) -> (r: Vec<FavoriteItem>)
        ensures
            r@ == joined(self.favorites@, members_in_order(self.memberships@, collection_id)),
    {
        let own = memberships_where(&self.memberships, MemberFilter::InCollection(collection_id));
        let mut keys: Vec<(i128, i128)> = Vec::new();
        let mut i: usize = 0;
        while i < own.len()
            invariant
                i <= own@.len(),
                keys@ =~= member_keys(own@.take(i as int)),
            decreases own@.len() - i,
        {
            keys.push((-(own[i].added_at as i128), 0i128));
            i = i + 1;
        }
        assert(own@.take(own@.len() as int) =~= own@);
        let order = sort_order(&keys);
        let ghost ordered = pick(own@, order@);
        let mut out: Vec<FavoriteItem> = Vec::new();
        let mut q: usize = 0;
        while q < order.len()
            invariant
                q <= order@.len(),
                is_sorted_order(keys@, order@),
                keys@.len() == own@.len(),
                ordered == pick(own@, order@),
                out@ == joined(self.favorites@, ordered.take(q as int)),
            decreases order@.len() - q,
        {
            let m = &own[order[q]];
            let ghost base = out@;
            let mut j: usize = 0;
            while j < self.favorites.len()
                invariant
                    j <= self.favorites@.len(),
                    out@ == base + self.favorites@.take(j as int).filter(same_listing(m.item_id)),
                decreases self.favorites@.len() - j,
            {
                proof {
                    assert(self.favorites@.take(j + 1) =~= self.favorites@.take(j as int).push(self.favorites@[j as int]));
                    lemma_filter_push(self.favorites@.take(j as int), self.favorites@[j as int], same_listing(m.item_id));
                }
                if self.favorites[j].item_id == m.item_id {
                    out.push(self.favorites[j].snapshot());
                    assert(out@ =~= base + self.favorites@.take(j + 1).filter(same_listing(m.item_id)));
                }
                j = j + 1;
            }
            proof {
                assert(self.favorites@.take(self.favorites@.len() as int) =~= self.favorites@);
                let t = ordered.take(q + 1);
                assert(t.drop_last() =~= ordered.take(q as int));
                assert(t.last() == *m);
            }
            q = q + 1;
        }
        assert(ordered.take(order@.len() as int) =~= ordered);
        out
    }

    /// Every collection with the live number of its members, by sort order
    /// and then by identifier.
    pub fn get_collections(&self) -> (r: Vec<Collection>)
        requires
            self.wf(),
        ensures
            r@ == collections_listing(*self),
    {
        let mut keys: Vec<(i128, i128)> = Vec::new();
        let mut i: usize = 0;
        while i < self.collections.len()
            invariant
                i <= self.collections@.len(),
                keys@ =~= collection_keys(self.collections@.take(i as int)),
            decreases self.collections@.len() - i,
        {
            keys.push((self.collections[i].sort_order as i128, self.collections[i].id as i128));
            i = i + 1;
        }
        assert(self.collections@.take(self.collections@.len() as int) =~= self.collections@);
        let order = sort_order(&keys);
        let ghost want = collections_listing(*self);
        let mut out: Vec<Collection> = Vec::new();
        let mut q: usize = 0;
        while q < order.len()
            invariant
                q <= order@.len(),
                self.wf(),
                is_sorted_order(keys@, order@),
                keys@.len() == self.collections@.len(),
                order@ == sorted_order(collection_keys(self.collections@)),
                want == collections_listing(*self),
                want.len() == order@.len(),
                out@ =~= want.take(q as int),
            decreases order@.len() - q,
        {
            let c = &self.collections[order[q]];
            let n = count_members(&self.memberships, c.id);
            out.push(Collection {
                id: c.id,
                name: c.name.clone(),
                color: c.color.clone(),
                created_at: c.created_at,
                sort_order: c.sort_order,
                item_count: n as i64,
            });
            q = q + 1;
        }
        out
    }
}

/// Collections are listed by sort order; those that share one, by strictly
/// ascending identifier.
pub proof fn law_collections_display_order(s: Store)
    requires
        s.wf(),
    ensures
        forall|q: int, t: int|
            0 <= q < t < collections_listing(s).len() ==> {
                let (a, b) = (#[trigger] collections_listing(s)[q], #[trigger] collections_listing(s)[t]);
                a.sort_order < b.sort_order || (a.sort_order == b.sort_order && a.id < b.id)
            },
{
    let keys = collection_keys(s.collections@);
    let order = sorted_order(keys);
    lemma_sorted_order(keys);
    let l = collections_listing(s);
    assert forall|q: int, t: int| 0 <= q < t < l.len() implies {
        let (a, b) = (#[trigger] l[q], #[trigger] l[t]);
        a.sort_order < b.sort_order || (a.sort_order == b.sort_order && a.id < b.id)
    } by {
        assert(key_before(keys, order[q] as int, order[t] as int));
        assert(order[q] != order[t]);
        assert(s.collections@[order[q] as int].id != s.collections@[order[t] as int].id);
    }
}

} // verus!
