//! What running the startup data steps again does: once a store has been
//! brought up, a later startup, at any time and after any refresh of the
//! avatars, leaves the avatar rows and their identifiers exactly as they were.
use vstd::prelude::*;

use crate::avatars::refreshed;
use crate::error::AppResult;
use crate::model::PopularAvatar;
use crate::schema::{
    backfilled, corrected, has_name, has_obsolete_defaults, initialize_post, not_default, seed_named, seed_row,
    seeded, seeding_fits, AvatarSeed,
};
use crate::store::{unchanged_except, Store, Table};

verus! {

/// Two rows with the same Japanese name and default flag.
pub open spec fn same_name_and_flag(a: PopularAvatar, b: PopularAvatar) -> bool {
    &&& a.name_ja@ == b.name_ja@
    &&& a.is_default == b.is_default
}

/// Backfilling `avs` with `sd` would change nothing.
pub open spec fn settled(avs: Seq<PopularAvatar>, sd: AvatarSeed) -> bool {
    forall|i: int|
        0 <= i < avs.len() && (#[trigger] avs[i]).name_ja@ == sd.name_ja@ && avs[i].name_en@.len() == 0
            ==> sd.name_en@.len() == 0
}

/// The avatars of a store that has been brought up with `seeds`: every
/// default row is named by a seed, every seed names a row, and no row waits
/// for an English name from a seed.
pub open spec fn seeded_state(avs: Seq<PopularAvatar>, seeds: Seq<AvatarSeed>) -> bool {
    &&& forall|i: int| 0 <= i < avs.len() && (#[trigger] avs[i]).is_default == 1 ==> seed_named(seeds, avs[i].name_ja@)
    &&& forall|k: int| 0 <= k < seeds.len() ==> has_name(avs, (#[trigger] seeds[k]).name_ja@)
    &&& forall|k: int| 0 <= k < seeds.len() ==> settled(avs, #[trigger] seeds[k])
}

/// The rows of a table after seeding: the old rows keep their name and
/// default flag, the new rows are defaults named by seeds, every seed names
/// a row, and every row is settled for every seed.
proof fn lemma_seeded_shape(x: Seq<PopularAvatar>, seeds: Seq<AvatarSeed>, n: int, now: u64)
    ensures
        seeded(x, seeds, n, now).0.len() >= x.len(),
        forall|i: int| 0 <= i < x.len() ==> same_name_and_flag(#[trigger] seeded(x, seeds, n, now).0[i], x[i]),
        forall|i: int|
            x.len() <= i < seeded(x, seeds, n, now).0.len() ==> (#[trigger] seeded(x, seeds, n, now).0[i]).is_default == 1
                && seed_named(seeds, seeded(x, seeds, n, now).0[i].name_ja@),
        forall|k: int| 0 <= k < seeds.len() ==> settled(seeded(x, seeds, n, now).0, #[trigger] seeds[k]),
        forall|k: int| 0 <= k < seeds.len() ==> has_name(seeded(x, seeds, n, now).0, (#[trigger] seeds[k]).name_ja@),
    decreases seeds.len(),
{
    if seeds.len() > 0 {
        let sd = seeds.last();
        let d = seeds.drop_last();
        lemma_seeded_shape(x, d, n, now);
        let (a, m) = seeded(x, d, n, now);
        let a2 = if has_name(a, sd.name_ja@) { a } else { a.push(seed_row(sd, m, now)) };
        let t = backfilled(a2, sd);
        assert(t == seeded(x, seeds, n, now).0);
        assert forall|i: int| 0 <= i < x.len() implies same_name_and_flag(#[trigger] t[i], x[i]) by {
            assert(a2[i] == a[i]);
        }
        assert forall|i: int| x.len() <= i < t.len() implies (#[trigger] t[i]).is_default == 1 && seed_named(seeds, t[i].name_ja@) by {
            if i < a.len() {
                assert(a2[i] == a[i]);
                let k = choose|k: int| 0 <= k < d.len() && (#[trigger] d[k]).name_ja@ == a[i].name_ja@;
                assert(seeds[k] == d[k]);
            } else {
                assert(seeds[seeds.len() - 1] == sd);
            }
        }
        assert forall|k: int| 0 <= k < seeds.len() implies settled(t, #[trigger] seeds[k]) by {
            let sk = seeds[k];
            assert forall|i: int|
                0 <= i < t.len() && (#[trigger] t[i]).name_ja@ == sk.name_ja@ && t[i].name_en@.len() == 0
                    implies sk.name_en@.len() == 0 by {
                if k < seeds.len() - 1 {
                    assert(d[k] == sk);
                    assert(settled(a, d[k]));
                    if i < a.len() {
                        assert(a2[i] == a[i]);
                    } else {
                        assert(has_name(a, d[k].name_ja@));
                        let j = choose|j: int| 0 <= j < a.len() && (#[trigger] a[j]).name_ja@ == sk.name_ja@;
                        assert(a[j].name_ja@ == sd.name_ja@);
                    }
                } else if i >= a.len() {
                    assert(a2[i].name_en@ == sd.name_en@);
                } else {
                    assert(a2[i] == a[i]);
                }
            }
        }
        assert forall|k: int| 0 <= k < seeds.len() implies has_name(t, (#[trigger] seeds[k]).name_ja@) by {
            let sk = seeds[k];
            if k < seeds.len() - 1 {
                assert(d[k] == sk);
                assert(has_name(a, d[k].name_ja@));
                let i = choose|i: int| 0 <= i < a.len() && (#[trigger] a[i]).name_ja@ == sk.name_ja@;
                assert(a2[i] == a[i]);
                assert(t[i].name_ja@ == sk.name_ja@);
            } else if has_name(a, sd.name_ja@) {
                let i = choose|i: int| 0 <= i < a.len() && (#[trigger] a[i]).name_ja@ == sd.name_ja@;
                assert(t[i].name_ja@ == sd.name_ja@);
            } else {
                assert(t[a.len() as int].name_ja@ == sd.name_ja@);
            }
        }
    }
}

/// Seeding rows that already name every seed, all settled, changes nothing
/// and hands out no identifier.
proof fn lemma_seeding_settled(t: Seq<PopularAvatar>, seeds: Seq<AvatarSeed>, k: int, n: int, now: u64)
    requires
        0 <= k <= seeds.len(),
        forall|j: int| 0 <= j < seeds.len() ==> has_name(t, (#[trigger] seeds[j]).name_ja@),
        forall|j: int| 0 <= j < seeds.len() ==> settled(t, #[trigger] seeds[j]),
    ensures
        seeded(t, seeds.take(k), n, now) == (t, n),
    decreases k,
{
    if k == 0 {
        assert(seeds.take(0) =~= Seq::<AvatarSeed>::empty());
    } else {
        let sd = seeds[k - 1];
        lemma_seeding_settled(t, seeds, k - 1, n, now);
        assert(seeds.take(k).drop_last() =~= seeds.take(k - 1));
        assert(seeds.take(k).last() == sd);
        assert(has_name(t, seeds[k - 1].name_ja@));
        assert(settled(t, seeds[k - 1]));
        assert(backfilled(t, sd) =~= t);
    }
}

/// After a successful startup the avatars are in the seeded state.
pub proof fn law_startup_settles(s0: Store, s1: Store, seeds: Seq<AvatarSeed>, now: u64)
    requires
        initialize_post(s0, s1, seeds, now, Ok(())),
    ensures
        seeded_state(s1.avatars@, seeds),
{
    let a = s0.avatars@;
    let x = corrected(a, seeds);
    let n = s0.next_avatar_id as int;
    lemma_seeded_shape(x, seeds, n, now);
    let t = s1.avatars@;
    assert forall|i: int| 0 <= i < x.len() && (#[trigger] x[i]).is_default == 1 implies seed_named(seeds, x[i].name_ja@) by {
        if has_obsolete_defaults(a, seeds) {
            a.lemma_filter_pred(not_default(), i);
        }
    }
    assert forall|i: int| 0 <= i < t.len() && (#[trigger] t[i]).is_default == 1 implies seed_named(seeds, t[i].name_ja@) by {
        if i < x.len() {
            assert(same_name_and_flag(t[i], x[i]));
        }
    }
}

/// Refreshing an avatar (its item count, thumbnail and time) keeps the
/// seeded state.
pub proof fn law_refresh_keeps_seeded_state(
    old: Seq<PopularAvatar>,
    new: Seq<PopularAvatar>,
    seeds: Seq<AvatarSeed>,
    id: i64,
    item_count: i64,
    thumbnail_url: Option<String>,
    now: u64,
)
    requires
        seeded_state(old, seeds),
        refreshed(old, new, id, item_count, thumbnail_url, now),
    ensures
        seeded_state(new, seeds),
{
    assert forall|i: int| 0 <= i < new.len() implies (#[trigger] new[i]).name_ja == old[i].name_ja
        && new[i].name_en == old[i].name_en && new[i].is_default == old[i].is_default by {
        assert(old[i] == old[i]);
    }
    assert forall|k: int| 0 <= k < seeds.len() implies has_name(new, (#[trigger] seeds[k]).name_ja@) by {
        assert(has_name(old, seeds[k].name_ja@));
        let i = choose|i: int| 0 <= i < old.len() && (#[trigger] old[i]).name_ja@ == seeds[k].name_ja@;
        assert(new[i].name_ja == old[i].name_ja);
    }
    assert forall|k: int| 0 <= k < seeds.len() implies settled(new, #[trigger] seeds[k]) by {
        assert(settled(old, seeds[k]));
        assert forall|i: int|
            0 <= i < new.len() && (#[trigger] new[i]).name_ja@ == seeds[k].name_ja@ && new[i].name_en@.len() == 0
                implies seeds[k].name_en@.len() == 0 by {
            assert(new[i].name_ja == old[i].name_ja && new[i].name_en == old[i].name_en);
        }
    }
    assert forall|i: int| 0 <= i < new.len() && (#[trigger] new[i]).is_default == 1 implies seed_named(seeds, new[i].name_ja@) by {
        assert(new[i].name_ja == old[i].name_ja && new[i].is_default == old[i].is_default);
    }
}

/// A startup of a store whose avatars are in the seeded state succeeds
/// and leaves the avatar rows, their identifiers and the next identifier
/// exactly as they were, whatever the time.
pub proof fn law_restart_keeps_avatars(s1: Store, s2: Store, seeds: Seq<AvatarSeed>, now: u64, r: AppResult<()>)
    requires
        s1.wf(),
        seeded_state(s1.avatars@, seeds),
        initialize_post(s1, s2, seeds, now, r),
    ensures
        r is Ok,
        s2.avatars@ == s1.avatars@,
        s2.next_avatar_id == s1.next_avatar_id,
        unchanged_except(s1, s2, set![Table::Cache, Table::Translations]),
{
    let a = s1.avatars@;
    assert(!has_obsolete_defaults(a, seeds));
    assert(corrected(a, seeds) == a);
    lemma_seeding_settled(a, seeds, seeds.len() as int, s1.next_avatar_id as int, now);
    assert(seeds.take(seeds.len() as int) =~= seeds);
    assert(seeding_fits(a, seeds, s1.next_avatar_id as int, now));
}

/// Two startups with the same seeds, at any two times, with any refresh of
/// an avatar in between: the second succeeds and leaves the avatar rows,
/// with their identifiers, exactly as the first left them after the refresh.
pub proof fn law_startup_idempotent(
    s0: Store,
    s1: Store,
    s2: Store,
    s3: Store,
    seeds: Seq<AvatarSeed>,
    t1: u64,
    t2: u64,
    id: i64,
    item_count: i64,
    thumbnail_url: Option<String>,
    t_refresh: u64,
    r: AppResult<()>,
)
    requires
        initialize_post(s0, s1, seeds, t1, Ok(())),
        s2.wf(),
        refreshed(s1.avatars@, s2.avatars@, id, item_count, thumbnail_url, t_refresh),
        initialize_post(s2, s3, seeds, t2, r),
    ensures
        r is Ok,
        s3.avatars@ == s2.avatars@,
        s3.next_avatar_id == s2.next_avatar_id,
{
    law_startup_settles(s0, s1, seeds, t1);
    law_refresh_keeps_seeded_state(s1.avatars@, s2.avatars@, seeds, id, item_count, thumbnail_url, t_refresh);
    law_restart_keeps_avatars(s2, s3, seeds, t2, r);
}

} // verus!
