//! Popular avatars: the listing, the freshness check and the refresh of one row.
use vstd::prelude::*;

use crate::error::AppResult;
use crate::model::{pick, pick_rows, PopularAvatar};
use crate::order::{sort_order, sorted_order};
use crate::store::{unchanged_except, Store, Table};

verus! {

/// Avatars older than this many seconds need a refresh.
pub const AVATAR_MAX_AGE: u64 = 604800;

/// Sort keys of the avatar listing: most items first, then lowest identifier.
pub open spec fn avatar_keys(avs: Seq<PopularAvatar>) -> Seq<(i128, i128)> {
    avs.map_values(|a: PopularAvatar| ((-(a.item_count as int)) as i128, a.id as i128))
}

/// The avatars need a refresh when there are none, or when the oldest of
/// them was updated more than seven days before `now`.
pub open spec fn needs_refresh(avs: Seq<PopularAvatar>, now: u64) -> bool {
    avs.len() == 0 || exists|i: int|
        0 <= i < avs.len() && (#[trigger] avs[i]).updated_at as int + AVATAR_MAX_AGE < now as int
}

/// `new` is `old` with the avatar `id` given a new item count, thumbnail and time.
pub open spec fn refreshed(
    old: Seq<PopularAvatar>,
    new: Seq<PopularAvatar>,
    id: i64,
    item_count: i64,
    thumbnail_url: Option<String>,
    now: u64,
) -> bool {
    &&& new.len() == old.len()
    &&& forall|i: int| 0 <= i < old.len() ==> {
        let (a, b) = (#[trigger] old[i], new[i]);
        if a.id == id {
            b == PopularAvatar { item_count, thumbnail_url, updated_at: now, ..a }
        } else {
            b == a
        }
    }
}

impl Store {
    /// Every avatar, most items first; ties by ascending identifier.
    pub fn get_popular_avatars(&self) -> (r: Vec<PopularAvatar>)
        ensures
            r@ == pick(self.avatars@, sorted_order(avatar_keys(self.avatars@))),
    {
        let mut keys: Vec<(i128, i128)> = Vec::new();
        let mut i: usize = 0;
        while i < self.avatars.len()
            invariant
                i <= self.avatars@.len(),
                keys@ =~= avatar_keys(self.avatars@).take(i as int),
            decreases self.avatars@.len() - i,
        {
            keys.push((-(self.avatars[i].item_count as i128), self.avatars[i].id as i128));
            i = i + 1;
        }
        assert(avatar_keys(self.avatars@).take(self.avatars@.len() as int) =~= avatar_keys(self.avatars@));
        let order = sort_order(&keys);
        pick_rows(&self.avatars, &order)
    }

    /// Whether the avatars need a refresh at time `now`.
    pub fn check_avatars_need_update(&self, now: u64) -> (r: AppResult<bool>)
        ensures
            r == Ok::<bool, crate::error::AppError>(needs_refresh(self.avatars@, now)),
    {
        if self.avatars.len() == 0 {
            return Ok(true);
        }
        let mut i: usize = 0;
        while i < self.avatars.len()
            invariant
                i <= self.avatars@.len(),
                forall|j: int| 0 <= j < i ==> !((#[trigger] self.avatars@[j]).updated_at as int + AVATAR_MAX_AGE < now as int),
            decreases self.avatars@.len() - i,
        {
            let t = self.avatars[i].updated_at;
            if t < now && now - t > AVATAR_MAX_AGE {
                return Ok(true);
            }
            i = i + 1;
        }
        Ok(false)
    }

    /// Records a fresh item count and thumbnail for avatar `id` at time `now`.
    pub fn update_popular_avatar(
        &mut self,
        id: i64,
        item_count: i64,
        thumbnail_url: Option<String>,
        now: u64,
    ) -> (r: AppResult<()>)
        requires
            old(self).wf(),
        ensures
            r is Ok,
            final(self).wf(),
            refreshed(old(self).avatars@, final(self).avatars@, id, item_count, thumbnail_url, now),
            final(self).next_avatar_id == old(self).next_avatar_id,
            unchanged_except(*old(self), *final(self), set![Table::Avatars]),
    {
        let ghost start = self.avatars@;
        let mut i: usize = 0;
        while i < self.avatars.len()
            invariant
                i <= self.avatars@.len(),
                self.avatars@.len() == start.len(),
                start == old(self).avatars@,
                old(self).wf(),
                self.next_avatar_id == old(self).next_avatar_id,
                unchanged_except(*old(self), *self, set![Table::Avatars]),
                forall|k: int| i <= k < start.len() ==> self.avatars@[k] == #[trigger] start[k],
                forall|k: int| 0 <= k < i ==> {
                    let (a, b) = (#[trigger] start[k], self.avatars@[k]);
                    if a.id == id {
                        b == PopularAvatar { item_count, thumbnail_url, updated_at: now, ..a }
                    } else {
                        b == a
                    }
                },
            decreases start.len() - i,
        {
            if self.avatars[i].id == id {
                let a = &self.avatars[i];
                let row = PopularAvatar {
                    id: a.id,
                    name_ja: a.name_ja.clone(),
                    name_ko: a.name_ko.clone(),
                    name_en: a.name_en.clone(),
                    item_count,
                    thumbnail_url: crate::model::copy_text(&thumbnail_url),
                    updated_at: now,
                    is_default: a.is_default,
                };
                self.avatars.set(i, row);
            }
            i = i + 1;
        }
        proof {
            assert forall|p: int, q: int|
                0 <= p < self.avatars@.len() && 0 <= q < self.avatars@.len() && #[trigger] self.avatars@[p].name_ja@
                    == #[trigger] self.avatars@[q].name_ja@ implies p == q by {
                assert(self.avatars@[p].name_ja == start[p].name_ja);
                assert(self.avatars@[q].name_ja == start[q].name_ja);
            }
            assert forall|p: int| 0 <= p < self.avatars@.len() implies (#[trigger] self.avatars@[p]).id
                < self.next_avatar_id by {
                assert(self.avatars@[p].id == start[p].id);
            }
        }
        Ok(())
    }
}

} // verus!
