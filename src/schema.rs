//! The data steps of bringing a store up at startup: the corrective removal
//! of an obsolete default avatar set, idempotent seeding of the default
//! avatars with backfill of their English names, and age eviction of the
//! listing and translation caches.
use vstd::prelude::*;

use crate::error::{AppError, AppResult};
use crate::model::{copy_rows, CachedItem, PopularAvatar, Snapshot, Translation};
use crate::store::{avatars_unique, fits, room_for_one, lemma_filter_push, lemma_filter_subset, unchanged_except, Store, Table, lemma_unique_filter, cached_key, source_key};

verus! {

/// A default avatar: its names in Japanese, Korean and English.
#[derive(Debug)]
pub struct AvatarSeed {
    pub name_ja: String,
    pub name_ko: String,
    pub name_en: String,
}

/// Cached listings older than this many seconds are evicted.
pub const CACHE_MAX_AGE: u64 = 2592000;

/// Cached translations older than this many seconds are evicted.
pub const TRANSLATION_MAX_AGE: u64 = 7776000;

pub open spec fn has_name(avs: Seq<PopularAvatar>, ja: Seq<char>) -> bool {
    exists|i: int| 0 <= i < avs.len() && (#[trigger] avs[i]).name_ja@ == ja
}

/// The row that seeding `sd` adds under identifier `id` at time `now`.
pub open spec fn seed_row(sd: AvatarSeed, id: int, now: u64) -> PopularAvatar {
    PopularAvatar {
        id: id as i64,
        name_ja: sd.name_ja,
        name_ko: sd.name_ko,
        name_en: sd.name_en,
        item_count: 0,
        thumbnail_url: None,
        updated_at: now,
        is_default: 1,
    }
}

/// Rows named like `sd` whose English name is empty take the seed's English
/// name, when the seed has one.
pub open spec fn backfilled(avs: Seq<PopularAvatar>, sd: AvatarSeed) -> Seq<PopularAvatar> {
    avs.map_values(
        |a: PopularAvatar|
            if a.name_ja@ == sd.name_ja@ && a.name_en@.len() == 0 && sd.name_en@.len() > 0 {
                PopularAvatar { name_en: sd.name_en, ..a }
            } else {
                a
            },
    )
}

/// Seeding in order: each seed absent by Japanese name is inserted with the
/// next identifier, then English names are backfilled. Returns the rows and
/// the next identifier.
pub open spec fn seeded(avs: Seq<PopularAvatar>, seeds: Seq<AvatarSeed>, next: int, now: u64) -> (Seq<PopularAvatar>, int)
    decreases seeds.len(),
{
    if seeds.len() == 0 {
        (avs, next)
    } else {
        let (a, n) = seeded(avs, seeds.drop_last(), next, now);
        let sd = seeds.last();
        if has_name(a, sd.name_ja@) {
            (backfilled(a, sd), n)
        } else {
            (backfilled(a.push(seed_row(sd, n, now)), sd), n + 1)
        }
    }
}

/// Some seed names `ja`.
pub open spec fn seed_named(seeds: Seq<AvatarSeed>, ja: Seq<char>) -> bool {
    exists|k: int| 0 <= k < seeds.len() && (#[trigger] seeds[k]).name_ja@ == ja
}

/// A row flagged default that no current seed names: the mark of an
/// obsolete default set, which the current set never leaves.
pub open spec fn has_obsolete_defaults(avs: Seq<PopularAvatar>, seeds: Seq<AvatarSeed>) -> bool {
    exists|i: int|
        0 <= i < avs.len() && (#[trigger] avs[i]).is_default == 1 && !seed_named(seeds, avs[i].name_ja@)
}

pub open spec fn not_default() -> spec_fn(PopularAvatar) -> bool {
    |a: PopularAvatar| a.is_default != 1
}

/// The avatars after the corrective step: every default row goes when an
/// obsolete default row is found among them.
pub open spec fn corrected(avs: Seq<PopularAvatar>, seeds: Seq<AvatarSeed>) -> Seq<PopularAvatar> {
    if has_obsolete_defaults(avs, seeds) {
        avs.filter(not_default())
    } else {
        avs
    }
}

pub open spec fn fresh_item(now: u64) -> spec_fn(CachedItem) -> bool {
    |c: CachedItem| c.cached_at as int + CACHE_MAX_AGE >= now as int
}

pub open spec fn fresh_translation(now: u64) -> spec_fn(Translation) -> bool {
    |t: Translation| t.created_at as int + TRANSLATION_MAX_AGE >= now as int
}

/// Seeding `avs` leaves identifiers to hand out and a table within its limits.
pub open spec fn seeding_fits(avs: Seq<PopularAvatar>, seeds: Seq<AvatarSeed>, next: int, now: u64) -> bool {
    seeded(avs, seeds, next, now).1 <= i64::MAX && fits(seeded(avs, seeds, next, now).0.len())
}

/// Bringing up the data: correction, seeding, eviction; an error, with
/// nothing changed, when seeding would run out of identifiers or room.
pub open spec fn initialize_post(old: Store, new: Store, seeds: Seq<AvatarSeed>, now: u64, r: AppResult<()>) -> bool {
    let x = corrected(old.avatars@, seeds);
    if !seeding_fits(x, seeds, old.next_avatar_id as int, now) {
        r matches Err(e) && e is Database && unchanged_except(old, new, Set::empty())
    } else {
        let (avs, next) = seeded(x, seeds, old.next_avatar_id as int, now);
        &&& r is Ok
        &&& new.avatars@ == avs
        &&& new.next_avatar_id == next
        &&& new.cached_items@ == old.cached_items@.filter(fresh_item(now))
        &&& new.translations@ == old.translations@.filter(fresh_translation(now))
        &&& unchanged_except(old, new, set![Table::Avatars, Table::Cache, Table::Translations])
    }
}

/// Seeding a prefix of the seeds hands out no more identifiers than seeding all.
proof fn lemma_seeded_prefix(x: Seq<PopularAvatar>, seeds: Seq<AvatarSeed>, k: int, next: int, now: u64)
    requires
        0 <= k <= seeds.len(),
    ensures
        seeded(x, seeds.take(k), next, now).1 <= seeded(x, seeds, next, now).1,
    decreases seeds.len(),
{
    if k < seeds.len() {
        let d = seeds.drop_last();
        assert(d.take(k) =~= seeds.take(k));
        lemma_seeded_prefix(x, d, k, next, now);
    } else {
        assert(seeds.take(k) =~= seeds);
    }
}

pub(crate) proof fn lemma_seeded_bounds(avs: Seq<PopularAvatar>, seeds: Seq<AvatarSeed>, next: int, now: u64)
    ensures
        next <= seeded(avs, seeds, next, now).1 <= next + seeds.len(),
        seeded(avs, seeds, next, now).0.len() == avs.len() + (seeded(avs, seeds, next, now).1 - next),
    decreases seeds.len(),
{
    if seeds.len() > 0 {
        lemma_seeded_bounds(avs, seeds.drop_last(), next, now);
    }
}

fn avatars_without_defaults(v: &Vec<PopularAvatar>) -> (r: Vec<PopularAvatar>)
    requires
        avatars_unique(v@),
    ensures
        r@ == v@.filter(not_default()),
        avatars_unique(r@),
{
    let mut out: Vec<PopularAvatar> = Vec::new();
    let mut i: usize = 0;
    while i < v.len()
        invariant
            i <= v@.len(),
            avatars_unique(v@),
            out@ == v@.take(i as int).filter(not_default()),
            avatars_unique(out@),
            forall|k: int| #![trigger out@[k]]
                0 <= k < out@.len() ==> exists|j: int| 0 <= j < i && #[trigger] v@[j] == out@[k],
        decreases v@.len() - i,
    {
        proof {
            assert(v@.take(i + 1) =~= v@.take(i as int).push(v@[i as int]));
            lemma_filter_push(v@.take(i as int), v@[i as int], not_default());
        }
        if v[i].is_default != 1 {
            let ghost before = out@;
            out.push(v[i].snapshot());
            proof {
                assert forall|a: int, b: int|
                    0 <= a < out@.len() && 0 <= b < out@.len() && #[trigger] out@[a].name_ja@
                        == #[trigger] out@[b].name_ja@ implies a == b by {
                    if a < before.len() && b == before.len() {
                        let j = choose|j: int| 0 <= j < i && #[trigger] v@[j] == before[a];
                        assert(v@[j].name_ja@ == v@[i as int].name_ja@);
                    } else if b < before.len() && a == before.len() {
                        let j = choose|j: int| 0 <= j < i && #[trigger] v@[j] == before[b];
                        assert(v@[j].name_ja@ == v@[i as int].name_ja@);
                    }
                }
                assert forall|k: int| #![trigger out@[k]] 0 <= k < out@.len() implies exists|j: int|
                    0 <= j < i + 1 && #[trigger] v@[j] == out@[k] by {
                    if k == before.len() {
                        assert(v@[i as int] == out@[k]);
                    } else {
                        let j = choose|j: int| 0 <= j < i && #[trigger] v@[j] == before[k];
                        assert(v@[j] == out@[k]);
                    }
                }
            }
        }
        i = i + 1;
    }
    assert(v@.take(v@.len() as int) =~= v@);
    out
}

fn fresh_items(v: &Vec<CachedItem>, now: u64) -> (r: Vec<CachedItem>)
    ensures
        r@ == v@.filter(fresh_item(now)),
{
    let mut out: Vec<CachedItem> = Vec::new();
    let mut i: usize = 0;
    while i < v.len()
        invariant
            i <= v@.len(),
            out@ == v@.take(i as int).filter(fresh_item(now)),
        decreases v@.len() - i,
    {
        proof {
            assert(v@.take(i + 1) =~= v@.take(i as int).push(v@[i as int]));
            lemma_filter_push(v@.take(i as int), v@[i as int], fresh_item(now));
        }
        if now < CACHE_MAX_AGE || v[i].cached_at >= now - CACHE_MAX_AGE {
            out.push(v[i].snapshot());
        }
        i = i + 1;
    }
    assert(v@.take(v@.len() as int) =~= v@);
    out
}

fn fresh_translations(v: &Vec<Translation>, now: u64) -> (r: Vec<Translation>)
    ensures
        r@ == v@.filter(fresh_translation(now)),
{
    let mut out: Vec<Translation> = Vec::new();
    let mut i: usize = 0;
    while i < v.len()
        invariant
            i <= v@.len(),
            out@ == v@.take(i as int).filter(fresh_translation(now)),
        decreases v@.len() - i,
    {
        proof {
            assert(v@.take(i + 1) =~= v@.take(i as int).push(v@[i as int]));
            lemma_filter_push(v@.take(i as int), v@[i as int], fresh_translation(now));
        }
        if now < TRANSLATION_MAX_AGE || v[i].created_at >= now - TRANSLATION_MAX_AGE {
            out.push(v[i].snapshot());
        }
        i = i + 1;
    }
    assert(v@.take(v@.len() as int) =~= v@);
    out
}

fn seed(ja: &str, ko: &str, en: &str) -> (r: AvatarSeed)
    ensures
        r.name_ja@ == ja@,
        r.name_ko@ == ko@,
        r.name_en@ == en@,
{
    AvatarSeed { name_ja: String::from_str(ja), name_ko: String::from_str(ko), name_en: String::from_str(en) }
}

/// The three names of each seed.
pub open spec fn seed_names(seeds: Seq<AvatarSeed>) -> Seq<(Seq<char>, Seq<char>, Seq<char>)> {
    seeds.map_values(|sd: AvatarSeed| (sd.name_ja@, sd.name_ko@, sd.name_en@))
}

/// The curated default avatars: Japanese, Korean and English names, in seeding order.
pub open spec fn default_seed_table() -> Seq<(Seq<char>, Seq<char>, Seq<char>)> {
    seq![
        ("キプフェル"@, "키프펠"@, "Kipfel"@),
        ("ルルネ"@, "루루네"@, "Rurune"@),
        ("ミルティナ"@, "밀티나"@, "Miltina"@),
        ("まめひなた"@, "마메히나타"@, "Mamehinata"@),
        ("ショコラ"@, "쇼콜라"@, "Chocolat"@),
        ("しお"@, "시오"@, "Shio"@),
        ("Grus"@, "그루스"@, "Grus"@),
        ("りりか"@, "리리카"@, "Ririka"@),
        ("狐雪"@, "코유키"@, "Koyuki"@),
        ("ミント"@, "민트"@, "Mint"@),
        ("みなほし"@, "미나호시"@, "Minahoshi"@),
        ("しらつめ"@, "시라츠메"@, "Shiratsume"@),
        ("リルモワ"@, "리루모와"@, "Lilmoire"@),
        ("ソラハ"@, "소라하"@, "Soraha"@),
        ("碼希"@, "마키"@, "Maki"@),
        ("カルネ"@, "카르네"@, "Carne"@),
        ("リーファ"@, "리파"@, "Leefa"@),
        ("ラズリ"@, "라즈리"@, "Lazuli"@),
        ("ルーナリット"@, "루나릿"@, "Lunalit"@),
        ("ハオラン"@, "하오란"@, "Haolan"@),
        ("マヌカ"@, "마누카"@, "Manuka"@),
        ("しなの"@, "시나노"@, "Shinano"@),
        ("セレスティア"@, "셀레스티아"@, "Celestia"@),
        ("真冬"@, "마후유"@, "Mafuyu"@),
        ("シフォン"@, "시폰"@, "Chiffon"@),
        ("カリン"@, "카린"@, "Karin"@),
        ("桔梗"@, "키쿄"@, "Kikyou"@),
        ("萌"@, "모에"@, "Moe"@),
        ("狛乃"@, "코마노"@, "Komano"@),
        ("リナシータ"@, "리나시타"@, "Rinasciita"@),
        ("ミルフィ"@, "밀피"@, "Milfy"@),
        ("エク"@, "에쿠"@, "Eku"@),
        ("ライム"@, "라임"@, "Lime"@),
        ("イチゴ"@, "이치고"@, "Ichigo"@),
        ("舞夜"@, "마이야"@, "Maiya"@),
        ("瑞希"@, "미즈키"@, "Mizuki"@),
        ("真央"@, "마오"@, "Mao"@),
        ("ラスク"@, "라스크"@, "Rusk"@),
        ("ルミナ"@, "루미나"@, "Lumina"@),
        ("愛莉"@, "아이리"@, "Airi"@),
        ("凪"@, "나기"@, "Nagi"@),
        ("ゾメちゃん"@, "조메짱"@, "Zome-chan"@),
        ("マリシア"@, "마리시아"@, "Marycia"@),
        ("デルタフレア"@, "델타플레어"@, "Delta Flare"@),
        ("プラム"@, "플럼"@, "Plum"@),
        ("Lapwing"@, "랩윙"@, "Lapwing"@),
        ("竜胆"@, "린도"@, "Rindou"@),
        ("墨惺"@, "스미세"@, "Sumise"@),
        ("ラムネ"@, "라무네"@, "Ramune"@),
        ("斑霞"@, "한카"@, "Hanka"@),
        ("幽狐族のお姉様"@, "유코족 오네사마"@, "Yuukozoku no Onesama"@),
        ("くうた"@, "쿠우타"@, "Kuuta"@),
        ("彼方"@, "카나타"@, "Kanata"@),
        ("此方"@, "코나타"@, "Konata"@),
        ("アッシュ"@, "애쉬"@, "Ash"@),
        ("シーカー"@, "시커"@, "Seeker"@),
        ("ネメシス"@, "네메시스"@, "Nemesis"@),
        ("ラシューシャ"@, "라슈샤"@, "Lasyusha"@),
        ("ナナセ・ノワール"@, "나나세 누아르"@, "Nanase Noir"@),
        ("龍のヨルちゃん"@, "요루짱"@, "Yoru-chan"@),
        ("うささき"@, "우사사키"@, "Usasaki"@),
        ("Bird"@, "버드"@, "Bird"@),
        ("アルエ"@, "알뤼에"@, "Alue"@),
        ("ここあ"@, "코코아"@, "Cocoa"@),
        ("サフィー"@, "사피"@, "Sapphy"@),
    ]
}

/// How many default avatars there are.
pub const DEFAULT_AVATAR_COUNT: usize = 65;

/// The curated default avatars, in seeding order.
pub fn default_avatar_seeds() -> (r: Vec<AvatarSeed>)
    ensures
        r@.len() == DEFAULT_AVATAR_COUNT,
        seed_names(r@) == default_seed_table(),
{
    let mut v: Vec<AvatarSeed> = Vec::new();
    v.push(seed("キプフェル", "키프펠", "Kipfel"));
    v.push(seed("ルルネ", "루루네", "Rurune"));
    v.push(seed("ミルティナ", "밀티나", "Miltina"));
    v.push(seed("まめひなた", "마메히나타", "Mamehinata"));
    v.push(seed("ショコラ", "쇼콜라", "Chocolat"));
    v.push(seed("しお", "시오", "Shio"));
    v.push(seed("Grus", "그루스", "Grus"));
    v.push(seed("りりか", "리리카", "Ririka"));
    v.push(seed("狐雪", "코유키", "Koyuki"));
    v.push(seed("ミント", "민트", "Mint"));
    v.push(seed("みなほし", "미나호시", "Minahoshi"));
    v.push(seed("しらつめ", "시라츠메", "Shiratsume"));
    v.push(seed("リルモワ", "리루모와", "Lilmoire"));
    v.push(seed("ソラハ", "소라하", "Soraha"));
    v.push(seed("碼希", "마키", "Maki"));
    v.push(seed("カルネ", "카르네", "Carne"));
    v.push(seed("リーファ", "리파", "Leefa"));
    v.push(seed("ラズリ", "라즈리", "Lazuli"));
    v.push(seed("ルーナリット", "루나릿", "Lunalit"));
    v.push(seed("ハオラン", "하오란", "Haolan"));
    v.push(seed("マヌカ", "마누카", "Manuka"));
    v.push(seed("しなの", "시나노", "Shinano"));
    v.push(seed("セレスティア", "셀레스티아", "Celestia"));
    v.push(seed("真冬", "마후유", "Mafuyu"));
    v.push(seed("シフォン", "시폰", "Chiffon"));
    v.push(seed("カリン", "카린", "Karin"));
    v.push(seed("桔梗", "키쿄", "Kikyou"));
    v.push(seed("萌", "모에", "Moe"));
    v.push(seed("狛乃", "코마노", "Komano"));
    v.push(seed("リナシータ", "리나시타", "Rinasciita"));
    v.push(seed("ミルフィ", "밀피", "Milfy"));
    v.push(seed("エク", "에쿠", "Eku"));
    v.push(seed("ライム", "라임", "Lime"));
    v.push(seed("イチゴ", "이치고", "Ichigo"));
    v.push(seed("舞夜", "마이야", "Maiya"));
    v.push(seed("瑞希", "미즈키", "Mizuki"));
    v.push(seed("真央", "마오", "Mao"));
    v.push(seed("ラスク", "라스크", "Rusk"));
    v.push(seed("ルミナ", "루미나", "Lumina"));
    v.push(seed("愛莉", "아이리", "Airi"));
    v.push(seed("凪", "나기", "Nagi"));
    v.push(seed("ゾメちゃん", "조메짱", "Zome-chan"));
    v.push(seed("マリシア", "마리시아", "Marycia"));
    v.push(seed("デルタフレア", "델타플레어", "Delta Flare"));
    v.push(seed("プラム", "플럼", "Plum"));
    v.push(seed("Lapwing", "랩윙", "Lapwing"));
    v.push(seed("竜胆", "린도", "Rindou"));
    v.push(seed("墨惺", "스미세", "Sumise"));
    v.push(seed("ラムネ", "라무네", "Ramune"));
    v.push(seed("斑霞", "한카", "Hanka"));
    v.push(seed("幽狐族のお姉様", "유코족 오네사마", "Yuukozoku no Onesama"));
    v.push(seed("くうた", "쿠우타", "Kuuta"));
    v.push(seed("彼方", "카나타", "Kanata"));
    v.push(seed("此方", "코나타", "Konata"));
    v.push(seed("アッシュ", "애쉬", "Ash"));
    v.push(seed("シーカー", "시커", "Seeker"));
    v.push(seed("ネメシス", "네메시스", "Nemesis"));
    v.push(seed("ラシューシャ", "라슈샤", "Lasyusha"));
    v.push(seed("ナナセ・ノワール", "나나세 누아르", "Nanase Noir"));
    v.push(seed("龍のヨルちゃん", "요루짱", "Yoru-chan"));
    v.push(seed("うささき", "우사사키", "Usasaki"));
    v.push(seed("Bird", "버드", "Bird"));
    v.push(seed("アルエ", "알뤼에", "Alue"));
    v.push(seed("ここあ", "코코아", "Cocoa"));
    v.push(seed("サフィー", "사피", "Sapphy"));
    assert(seed_names(v@) =~= default_seed_table());
    v
}

impl Store {
    /// Whether an avatar is named `ja` in Japanese.
    fn avatar_named(&self, ja: &String) -> (r: bool)
        ensures
            r == has_name(self.avatars@, ja@),
    {
        let mut i: usize = 0;
        while i < self.avatars.len()
            invariant
                i <= self.avatars@.len(),
                forall|j: int| 0 <= j < i ==> (#[trigger] self.avatars@[j]).name_ja@ != ja@,
            decreases self.avatars@.len() - i,
        {
            if self.avatars[i].name_ja == *ja {
                return true;
            }
            i = i + 1;
        }
        false
    }

    /// Gives rows named like `sd` whose English name is empty the seed's English name.
    fn backfill_english_name(&mut self, sd: &AvatarSeed)
        requires
            old(self).wf(),
        ensures
            final(self).wf(),
            final(self).avatars@ == backfilled(old(self).avatars@, *sd),
            final(self).next_avatar_id == old(self).next_avatar_id,
            unchanged_except(*old(self), *final(self), set![Table::Avatars]),
    {
        let ghost start = self.avatars@;
        let mut i: usize = 0;
        while i < self.avatars.len()
            invariant
                i <= self.avatars@.len(),
                self.avatars@.len() == start.len(),
                start == old(self).avatars@,
                old(self).wf(),
                self.next_avatar_id == old(self).next_avatar_id,
                unchanged_except(*old(self), *self, set![Table::Avatars]),
                forall|k: int| i <= k < start.len() ==> self.avatars@[k] == #[trigger] start[k],
                forall|k: int| 0 <= k < i ==> self.avatars@[k] == #[trigger] backfilled(start, *sd)[k],
            decreases start.len() - i,
        {
            if self.avatars[i].name_ja == sd.name_ja && self.avatars[i].name_en.as_str().unicode_len() == 0
                && sd.name_en.as_str().unicode_len() > 0 {
                let a = &self.avatars[i];
                let row = PopularAvatar {
                    id: a.id,
                    name_ja: a.name_ja.clone(),
                    name_ko: a.name_ko.clone(),
                    name_en: sd.name_en.clone(),
                    item_count: a.item_count,
                    thumbnail_url: crate::model::copy_text(&a.thumbnail_url),
                    updated_at: a.updated_at,
                    is_default: a.is_default,
                };
                self.avatars.set(i, row);
            }
            i = i + 1;
        }
        assert(self.avatars@ =~= backfilled(start, *sd));
        proof {
            assert forall|p: int, q: int|
                0 <= p < self.avatars@.len() && 0 <= q < self.avatars@.len() && #[trigger] self.avatars@[p].name_ja@
                    == #[trigger] self.avatars@[q].name_ja@ implies p == q by {
                assert(self.avatars@[p].name_ja == start[p].name_ja);
                assert(self.avatars@[q].name_ja == start[q].name_ja);
            }
            assert forall|p: int| 0 <= p < self.avatars@.len() implies (#[trigger] self.avatars@[p]).id
                < self.next_avatar_id by {
                assert(self.avatars@[p].id == start[p].id);
            }
        }
    }

    /// Seeds `seeds` in order at time `now`: each absent by Japanese name is
    /// inserted flagged default, and English names are backfilled. Fails,
    /// changing nothing, when identifiers or room run out.
    pub fn seed_default_avatars(&mut self, seeds: &Vec<AvatarSeed>, now: u64) -> (r: AppResult<()>)
        requires
            old(self).wf(),
        ensures
            final(self).wf(),
            r is Ok <==> seeding_fits(old(self).avatars@, seeds@, old(self).next_avatar_id as int, now),
            r matches Err(e) ==> e is Database && unchanged_except(*old(self), *final(self), Set::empty()),
            r is Ok ==> (final(self).avatars@, final(self).next_avatar_id as int) == seeded(
                old(self).avatars@,
                seeds@,
                old(self).next_avatar_id as int,
                now,
            ) && unchanged_except(*old(self), *final(self), set![Table::Avatars]),
    {
        let saved = copy_rows(&self.avatars);
        let saved_next = self.next_avatar_id;
        let mut k: usize = 0;
        while k < seeds.len()
            invariant
                k <= seeds@.len(),
                self.wf(),
                saved@ == old(self).avatars@,
                saved_next == old(self).next_avatar_id,
                old(self).wf(),
                (self.avatars@, self.next_avatar_id as int) == seeded(
                    old(self).avatars@,
                    seeds@.take(k as int),
                    old(self).next_avatar_id as int,
                    now,
                ),
                unchanged_except(*old(self), *self, set![Table::Avatars]),
            decreases seeds@.len() - k,
        {
            let sd = &seeds[k];
            proof {
                assert(seeds@.take(k + 1).drop_last() =~= seeds@.take(k as int));
                assert(seeds@.take(k + 1).last() == *sd);
                lemma_seeded_bounds(old(self).avatars@, seeds@.take(k as int), old(self).next_avatar_id as int, now);
            }
            if !self.avatar_named(&sd.name_ja) {
                if self.next_avatar_id == i64::MAX || !room_for_one(self.avatars.len()) {
                    proof {
                        let x = old(self).avatars@;
                        let n0 = old(self).next_avatar_id as int;
                        lemma_seeded_prefix(x, seeds@, k + 1, n0, now);
                        lemma_seeded_bounds(x, seeds@.take(k + 1), n0, now);
                        lemma_seeded_bounds(x, seeds@, n0, now);
                    }
                    self.avatars = saved;
                    self.next_avatar_id = saved_next;
                    return Err(AppError::Database(String::from_str("database or disk is full")));
                }
                let id = self.next_avatar_id;
                let ghost before = self.avatars@;
                self.avatars.push(PopularAvatar {
                    id,
                    name_ja: sd.name_ja.clone(),
                    name_ko: sd.name_ko.clone(),
                    name_en: sd.name_en.clone(),
                    item_count: 0,
                    thumbnail_url: None,
                    updated_at: now,
                    is_default: 1,
                });
                self.next_avatar_id = id + 1;
                proof {
                    assert forall|p: int, q: int|
                        0 <= p < self.avatars@.len() && 0 <= q < self.avatars@.len() && #[trigger] self.avatars@[p].name_ja@
                            == #[trigger] self.avatars@[q].name_ja@ implies p == q by {
                        if p < before.len() && q == before.len() {
                            assert(before[p].name_ja@ == sd.name_ja@);
                        } else if q < before.len() && p == before.len() {
                            assert(before[q].name_ja@ == sd.name_ja@);
                        }
                    }
                    assert(self.avatars@ == before.push(seed_row(*sd, id as int, now)));
                }
            }
            self.backfill_english_name(sd);
            k = k + 1;
        }
        assert(seeds@.take(seeds@.len() as int) =~= seeds@);
        Ok(())
    }

    /// Brings up the data of a store at time `now`: removes an obsolete
    /// default avatar set (default rows that no seed names), seeds `seeds`,
    /// and evicts cached listings older than thirty days and translations
    /// older than ninety. Fails, changing nothing, when seeding would run
    /// out of identifiers or room.
    pub fn initialize_data(&mut self, seeds: &Vec<AvatarSeed>, now: u64) -> (r: AppResult<()>)
        requires
            old(self).wf(),
        ensures
            final(self).wf(),
            initialize_post(*old(self), *final(self), seeds@, now, r),
    {
        let original = copy_rows(&self.avatars);
        let mut obsolete = false;
        let mut i: usize = 0;
        while i < self.avatars.len()
            invariant
                i <= self.avatars@.len(),
                obsolete == exists|j: int|
                    0 <= j < i && (#[trigger] self.avatars@[j]).is_default == 1 && !seed_named(seeds@, self.avatars@[j].name_ja@),
            decreases self.avatars@.len() - i,
        {
            if self.avatars[i].is_default == 1 && !names_a_seed(seeds, &self.avatars[i].name_ja) {
                obsolete = true;
            }
            i = i + 1;
        }
        if obsolete {
            let kept = avatars_without_defaults(&self.avatars);
            proof {
                lemma_filter_subset(self.avatars@, not_default());
            }
            let ghost prev = self.avatars@;
            self.avatars = kept;
            proof {
                assert forall|p: int| 0 <= p < self.avatars@.len() implies (#[trigger] self.avatars@[p]).id
                    < self.next_avatar_id by {
                    assert(prev.contains(self.avatars@[p]));
                }
            }
        }
        match self.seed_default_avatars(seeds, now) {
            Ok(()) => {},
            Err(e) => {
                self.avatars = original;
                return Err(e);
            },
        }
        let items = fresh_items(&self.cached_items, now);
        let translations = fresh_translations(&self.translations, now);
        proof {
            lemma_unique_filter(self.cached_items@, cached_key(), fresh_item(now));
            lemma_unique_filter(self.translations@, source_key(), fresh_translation(now));
            lemma_filter_subset(self.cached_items@, fresh_item(now));
            lemma_filter_subset(self.translations@, fresh_translation(now));
        }
        self.cached_items = items;
        self.translations = translations;
        Ok(())
    }
}

/// Whether some seed names `ja`.
fn names_a_seed(seeds: &Vec<AvatarSeed>, ja: &String) -> (r: bool)
    ensures
        r == seed_named(seeds@, ja@),
{
    let mut k: usize = 0;
    while k < seeds.len()
        invariant
            k <= seeds@.len(),
            forall|j: int| 0 <= j < k ==> (#[trigger] seeds@[j]).name_ja@ != ja@,
        decreases seeds@.len() - k,
    {
        if seeds[k].name_ja == *ja {
            return true;
        }
        k = k + 1;
    }
    false
}

} // verus!
