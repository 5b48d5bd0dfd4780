//! The statistics engine: counts, sums and distributions computed live from
//! the store's tables, one by one or bundled into one report.
use vstd::prelude::*;

use crate::calendar::{month_index, month_index_of, month_label, month_text};
use crate::error::{AppError, AppResult};
use crate::grouping::{distinct, group_numbers, lemma_distinct, numbers, occurrences, pair_view, texts, top_counts, top_groups};
use crate::model::FavoriteItem;
use crate::order::{is_sorted_order, sort_order, sorted_order};
use crate::store::{fits, lemma_filter_push, Store};

verus! {

/// Counts and sums over the whole store.
#[derive(Debug)]
pub struct DashboardStats {
    pub favorites_count: i64,
    pub collections_count: i64,
    pub tags_count: i64,
    pub searches_count: i64,
    pub total_value: i64,
    pub avg_price: i64,
}

#[derive(Debug)]
pub struct CategoryStat {
    pub category: String,
    pub count: i64,
}

#[derive(Debug)]
pub struct PriceBucket {
    pub label: String,
    pub count: i64,
}

#[derive(Debug)]
pub struct TagStat {
    pub tag: String,
    pub count: i64,
}

#[derive(Debug)]
pub struct SearchFrequency {
    pub keyword: String,
    pub count: i64,
}

#[derive(Debug)]
pub struct MonthlyCount {
    pub month: String,
    pub count: i64,
}

#[derive(Debug)]
pub struct ShopStat {
    pub shop: String,
    pub count: i64,
}

/// Every statistic in one report.
#[derive(Debug)]
pub struct AllStatistics {
    pub stats: DashboardStats,
    pub categories: Vec<CategoryStat>,
    pub prices: Vec<PriceBucket>,
    pub tags: Vec<TagStat>,
    pub searches: Vec<SearchFrequency>,
    pub monthly: Vec<MonthlyCount>,
    pub shops: Vec<ShopStat>,
}

/// The category under which favorites without one are counted.
pub const UNCATEGORIZED: &'static str = "미분류";

pub const TOP_CATEGORIES: usize = 10;

pub const TOP_TAGS: usize = 15;

pub const TOP_SEARCHES: usize = 10;

pub const TOP_SHOPS: usize = 10;

// ── Dashboard ─────────────────────────────────────────

/// The sum of the prices of `favs`.
pub open spec fn price_total(favs: Seq<FavoriteItem>) -> int
    decreases favs.len(),
{
    if favs.len() == 0 {
        0
    } else {
        price_total(favs.drop_last()) + favs.last().price
    }
}

pub open spec fn in_i64(x: int) -> bool {
    i64::MIN <= x <= i64::MAX
}

/// Adding up the prices in table order leaves the 64-bit range at some point.
pub open spec fn sum_overflows(favs: Seq<FavoriteItem>) -> bool {
    exists|k: int| 1 <= k <= favs.len() && !in_i64(#[trigger] price_total(favs.take(k)))
}

/// Division rounded toward zero.
pub open spec fn trunc_div(a: int, b: int) -> int {
    if a >= 0 {
        a / b
    } else {
        -((-a) / b)
    }
}

pub open spec fn tag_texts(s: Store) -> Seq<Seq<char>> {
    s.item_tags@.map_values(|t: crate::model::ItemTag| t.tag@)
}

/// The dashboard of a store whose price sum does not overflow.
pub open spec fn dashboard(s: Store) -> DashboardStats {
    let favs = s.favorites@;
    DashboardStats {
        favorites_count: favs.len() as i64,
        collections_count: s.collections@.len() as i64,
        tags_count: distinct(tag_texts(s)).len() as i64,
        searches_count: s.search_history@.len() as i64,
        total_value: price_total(favs) as i64,
        avg_price: (if favs.len() == 0 {
            0
        } else {
            trunc_div(price_total(favs), favs.len() as int)
        }) as i64,
    }
}

/// The dashboard statistics: an error exactly when the price sum overflows.
pub open spec fn dashboard_post(s: Store, r: AppResult<DashboardStats>) -> bool {
    if sum_overflows(s.favorites@) {
        r matches Err(e) && e is Database
    } else {
        r matches Ok(d) && d == dashboard(s)
    }
}

// ── Distributions ─────────────────────────────────────

/// The category a favorite is counted under: favorites with no category,
/// or an empty one, are counted as uncategorized.
pub open spec fn category_label(f: FavoriteItem) -> Seq<char> {
    match f.category_name {
        Some(c) => if c@.len() > 0 {
            c@
        } else {
            UNCATEGORIZED@
        },
        None => UNCATEGORIZED@,
    }
}

pub open spec fn category_distribution(s: Store) -> Seq<(Seq<char>, int)> {
    top_groups(s.favorites@.map_values(|f: FavoriteItem| category_label(f)), TOP_CATEGORIES as int)
}

pub open spec fn tag_ranking(s: Store) -> Seq<(Seq<char>, int)> {
    top_groups(tag_texts(s), TOP_TAGS as int)
}

pub open spec fn search_ranking(s: Store) -> Seq<(Seq<char>, int)> {
    top_groups(s.search_history@.map_values(|e: crate::model::SearchEntry| e.keyword@), TOP_SEARCHES as int)
}

pub open spec fn has_shop() -> spec_fn(FavoriteItem) -> bool {
    |f: FavoriteItem| f.shop_name is Some && f.shop_name->Some_0@.len() > 0
}

pub open spec fn shop_ranking(s: Store) -> Seq<(Seq<char>, int)> {
    top_groups(
        s.favorites@.filter(has_shop()).map_values(|f: FavoriteItem| f.shop_name->Some_0@),
        TOP_SHOPS as int,
    )
}

pub open spec fn dated() -> spec_fn(FavoriteItem) -> bool {
    |f: FavoriteItem| f.added_at is Some
}

/// The months of the favorites that have a time.
pub open spec fn month_indexes(favs: Seq<FavoriteItem>) -> Seq<int> {
    favs.filter(dated()).map_values(|f: FavoriteItem| month_index(f.added_at->Some_0))
}

/// Favorites per month of their time, oldest month first; favorites
/// without a time are left out.
pub open spec fn monthly_counts(s: Store) -> Seq<(Seq<char>, int)> {
    let idx = month_indexes(s.favorites@);
    let d = distinct(idx);
    let order = sorted_order(d.map_values(|k: int| (k as i128, 0i128)));
    order.map_values(|j: usize| (month_label(d[j as int] as nat), occurrences(idx, d[j as int])))
}

pub open spec fn category_view(v: Seq<CategoryStat>) -> Seq<(Seq<char>, int)> {
    v.map_values(|c: CategoryStat| (c.category@, c.count as int))
}

pub open spec fn tag_view(v: Seq<TagStat>) -> Seq<(Seq<char>, int)> {
    v.map_values(|c: TagStat| (c.tag@, c.count as int))
}

pub open spec fn search_view(v: Seq<SearchFrequency>) -> Seq<(Seq<char>, int)> {
    v.map_values(|c: SearchFrequency| (c.keyword@, c.count as int))
}

pub open spec fn shop_view(v: Seq<ShopStat>) -> Seq<(Seq<char>, int)> {
    v.map_values(|c: ShopStat| (c.shop@, c.count as int))
}

pub open spec fn monthly_view(v: Seq<MonthlyCount>) -> Seq<(Seq<char>, int)> {
    v.map_values(|c: MonthlyCount| (c.month@, c.count as int))
}

pub open spec fn price_view(v: Seq<PriceBucket>) -> Seq<(Seq<char>, int)> {
    v.map_values(|c: PriceBucket| (c.label@, c.count as int))
}

// ── Price bands ───────────────────────────────────────

pub const BAND_COUNT: usize = 7;

/// Price `p` lies in band `b`: free, up to 500, up to 1000, up to 3000, up
/// to 5000, up to 10000, above 10000 (each upper bound included).
pub open spec fn in_band(p: int, b: int) -> bool {
    if b == 0 {
        p == 0
    } else if b == 1 {
        0 < p <= 500
    } else if b == 2 {
        500 < p <= 1000
    } else if b == 3 {
        1000 < p <= 3000
    } else if b == 4 {
        3000 < p <= 5000
    } else if b == 5 {
        5000 < p <= 10000
    } else if b == 6 {
        10000 < p
    } else {
        false
    }
}

/// The band of a price; negative prices have none (`BAND_COUNT`).
pub open spec fn price_band(p: int) -> int {
    if p == 0 {
        0
    } else if 0 < p <= 500 {
        1
    } else if 500 < p <= 1000 {
        2
    } else if 1000 < p <= 3000 {
        3
    } else if 3000 < p <= 5000 {
        4
    } else if 5000 < p <= 10000 {
        5
    } else if 10000 < p {
        6
    } else {
        7
    }
}

pub open spec fn band_label(b: int) -> Seq<char> {
    if b == 0 {
        "무료"@
    } else if b == 1 {
        "~500"@
    } else if b == 2 {
        "501~1000"@
    } else if b == 3 {
        "1001~3000"@
    } else if b == 4 {
        "3001~5000"@
    } else if b == 5 {
        "5001~10000"@
    } else {
        "10000~"@
    }
}

pub open spec fn priced_in(b: int) -> spec_fn(FavoriteItem) -> bool {
    |f: FavoriteItem| price_band(f.price as int) == b
}

pub open spec fn band_count(favs: Seq<FavoriteItem>, b: int) -> int {
    favs.filter(priced_in(b)).len() as int
}

/// The seven bands in ascending order, each with its number of favorites.
pub open spec fn price_distribution(s: Store) -> Seq<(Seq<char>, int)> {
    Seq::new(BAND_COUNT as nat, |b: int| (band_label(b), band_count(s.favorites@, b)))
}

/// The combined report: an error exactly when the dashboard is one, and
/// otherwise each part as its own operation gives it.
pub open spec fn all_statistics_post(s: Store, r: AppResult<AllStatistics>) -> bool {
    if sum_overflows(s.favorites@) {
        r matches Err(e) && e is Database
    } else {
        r matches Ok(a) && {
            &&& a.stats == dashboard(s)
            &&& category_view(a.categories@) == category_distribution(s)
            &&& price_view(a.prices@) == price_distribution(s)
            &&& tag_view(a.tags@) == tag_ranking(s)
            &&& search_view(a.searches@) == search_ranking(s)
            &&& monthly_view(a.monthly@) == monthly_counts(s)
            &&& shop_view(a.shops@) == shop_ranking(s)
        }
    }
}

fn band_text(b: usize) -> (r: &'static str)
    ensures
        r@ == band_label(b as int),
{
    if b == 0 {
        "무료"
    } else if b == 1 {
        "~500"
    } else if b == 2 {
        "501~1000"
    } else if b == 3 {
        "1001~3000"
    } else if b == 4 {
        "3001~5000"
    } else if b == 5 {
        "5001~10000"
    } else {
        "10000~"
    }
}

fn band_of(p: i64) -> (r: usize)
    ensures
        r as int == price_band(p as int),
{
    if p == 0 {
        0
    } else if 0 < p && p <= 500 {
        1
    } else if 500 < p && p <= 1000 {
        2
    } else if 1000 < p && p <= 3000 {
        3
    } else if 3000 < p && p <= 5000 {
        4
    } else if 5000 < p && p <= 10000 {
        5
    } else if 10000 < p {
        6
    } else {
        7
    }
}

impl Store {
    /// Counts of favorites, collections, distinct tags and searches, the sum
    /// of favorite prices and their average rounded toward zero (zero when
    /// there are no favorites).
    pub fn get_dashboard_stats(&self) -> (r: AppResult<DashboardStats>)
        requires
            self.wf(),
        ensures
            dashboard_post(*self, r),
    {
        let favs = &self.favorites;
        let mut total: i64 = 0;
        let mut i: usize = 0;
        while i < favs.len()
            invariant
                favs@ == self.favorites@,
                i <= favs@.len(),
                total as int == price_total(favs@.take(i as int)),
                forall|k: int| 1 <= k <= i ==> in_i64(#[trigger] price_total(favs@.take(k))),
            decreases favs@.len() - i,
        {
            proof {
                assert(favs@.take(i + 1).drop_last() =~= favs@.take(i as int));
                assert(favs@.take(i + 1).last() == favs@[i as int]);
                assert(price_total(favs@.take(i + 1)) == total + favs@[i as int].price);
            }
            match total.checked_add(favs[i].price) {
                Some(t) => {
                    total = t;
                },
                None => {
                    proof {
                        assert(!in_i64(price_total(favs@.take(i + 1))));
                        assert(sum_overflows(favs@));
                    }
                    return Err(AppError::Database(String::from_str("integer overflow")));
                },
            }
            i = i + 1;
        }
        proof {
            assert(favs@.take(favs@.len() as int) =~= favs@);
            assert(!sum_overflows(favs@));
        }
        let n = favs.len() as i64;
        let avg: i64 = if n == 0 {
            0
        } else if total >= 0 {
            ((total as u64) / (n as u64)) as i64
        } else {
            let a: u128 = (-(total as i128)) as u128;
            let q: u128 = a / (n as u128);
            -(q as i128) as i64
        };
        let tags = self.tag_texts();
        let (distinct_tags, _) = crate::grouping::group_counts(&tags);
        proof {
            lemma_distinct(texts(tags@));
        }
        Ok(DashboardStats {
            favorites_count: n,
            collections_count: self.collections.len() as i64,
            tags_count: distinct_tags.len() as i64,
            searches_count: self.search_history.len() as i64,
            total_value: total,
            avg_price: avg,
        })
    }

    fn tag_texts(&self) -> (r: Vec<String>)
        ensures
            texts(r@) == tag_texts(*self),
            r@.len() == self.item_tags@.len(),
    {
        let mut out: Vec<String> = Vec::new();
        let mut i: usize = 0;
        while i < self.item_tags.len()
            invariant
                i <= self.item_tags@.len(),
                texts(out@) =~= tag_texts(*self).take(i as int),
                out@.len() == i,
            decreases self.item_tags@.len() - i,
        {
            out.push(self.item_tags[i].tag.clone());
            i = i + 1;
        }
        out
    }
}

fn category_stats(v: Vec<(String, i64)>) -> (r: Vec<CategoryStat>)
    ensures
        category_view(r@) == pair_view(v@),
{
    let mut out: Vec<CategoryStat> = Vec::new();
    let mut q: usize = 0;
    while q < v.len()
        invariant
            q <= v@.len(),
            out@.len() == q,
            category_view(out@) =~= pair_view(v@).take(q as int),
        decreases v@.len() - q,
    {
        out.push(CategoryStat { category: v[q].0.clone(), count: v[q].1 });
        q = q + 1;
    }
    assert(pair_view(v@).take(v@.len() as int) =~= pair_view(v@));
    out
}

fn tag_stats(v: Vec<(String, i64)>) -> (r: Vec<TagStat>)
    ensures
        tag_view(r@) == pair_view(v@),
{
    let mut out: Vec<TagStat> = Vec::new();
    let mut q: usize = 0;
    while q < v.len()
        invariant
            q <= v@.len(),
            out@.len() == q,
            tag_view(out@) =~= pair_view(v@).take(q as int),
        decreases v@.len() - q,
    {
        out.push(TagStat { tag: v[q].0.clone(), count: v[q].1 });
        q = q + 1;
    }
    assert(pair_view(v@).take(v@.len() as int) =~= pair_view(v@));
    out
}

fn search_stats(v: Vec<(String, i64)>) -> (r: Vec<SearchFrequency>)
    ensures
        search_view(r@) == pair_view(v@),
{
    let mut out: Vec<SearchFrequency> = Vec::new();
    let mut q: usize = 0;
    while q < v.len()
        invariant
            q <= v@.len(),
            out@.len() == q,
            search_view(out@) =~= pair_view(v@).take(q as int),
        decreases v@.len() - q,
    {
        out.push(SearchFrequency { keyword: v[q].0.clone(), count: v[q].1 });
        q = q + 1;
    }
    assert(pair_view(v@).take(v@.len() as int) =~= pair_view(v@));
    out
}

fn shop_stats(v: Vec<(String, i64)>) -> (r: Vec<ShopStat>)
    ensures
        shop_view(r@) == pair_view(v@),
{
    let mut out: Vec<ShopStat> = Vec::new();
    let mut q: usize = 0;
    while q < v.len()
        invariant
            q <= v@.len(),
            out@.len() == q,
            shop_view(out@) =~= pair_view(v@).take(q as int),
        decreases v@.len() - q,
    {
        out.push(ShopStat { shop: v[q].0.clone(), count: v[q].1 });
        q = q + 1;
    }
    assert(pair_view(v@).take(v@.len() as int) =~= pair_view(v@));
    out
}

impl Store {
    /// Favorites per category (those without one, or with an empty one,
    /// under "미분류"), the ten largest, largest first.
    pub fn get_category_distribution(&self) -> (r: Vec<CategoryStat>)
        requires
            self.wf(),
        ensures
            category_view(r@) == category_distribution(*self),
    {
        let mut labels: Vec<String> = Vec::new();
        let mut i: usize = 0;
        while i < self.favorites.len()
            invariant
                i <= self.favorites@.len(),
                texts(labels@) =~= self.favorites@.map_values(|f: FavoriteItem| category_label(f)).take(i as int),
                labels@.len() == i,
            decreases self.favorites@.len() - i,
        {
            let label = match &self.favorites[i].category_name {
                Some(c) => if c.as_str().unicode_len() > 0 {
                    c.clone()
                } else {
                    String::from_str(UNCATEGORIZED)
                },
                None => String::from_str(UNCATEGORIZED),
            };
            labels.push(label);
            i = i + 1;
        }
        assert(self.favorites@.map_values(|f: FavoriteItem| category_label(f)).take(self.favorites@.len() as int)
            =~= self.favorites@.map_values(|f: FavoriteItem| category_label(f)));
        category_stats(top_counts(&labels, TOP_CATEGORIES))
    }

    /// The seven price bands in ascending order, each with its number of favorites.
    pub fn get_price_distribution(&self) -> (r: Vec<PriceBucket>)
        requires
            self.wf(),
        ensures
            price_view(r@) == price_distribution(*self),
    {
        let favs = &self.favorites;
        let mut counts: Vec<usize> = vec![0, 0, 0, 0, 0, 0, 0];
        let mut i: usize = 0;
        while i < favs.len()
            invariant
                favs@ == self.favorites@,
                fits(favs@.len()),
                i <= favs@.len(),
                counts@.len() == BAND_COUNT,
                forall|b: int| 0 <= b < BAND_COUNT ==> #[trigger] counts@[b] as int == band_count(favs@.take(i as int), b),
                forall|b: int| 0 <= b < BAND_COUNT ==> #[trigger] counts@[b] <= i,
            decreases favs@.len() - i,
        {
            proof {
                assert(favs@.take(i + 1) =~= favs@.take(i as int).push(favs@[i as int]));
                assert forall|b: int| 0 <= b < BAND_COUNT implies band_count(favs@.take(i + 1), b)
                    == band_count(favs@.take(i as int), b) + (if price_band(favs@[i as int].price as int) == b { 1int } else { 0int }) by {
                    lemma_filter_push(favs@.take(i as int), favs@[i as int], priced_in(b));
                }
            }
            let b = band_of(favs[i].price);
            if b < BAND_COUNT {
                let c = counts[b];
                counts.set(b, c + 1);
            }
            i = i + 1;
        }
        assert(favs@.take(favs@.len() as int) =~= favs@);
        let mut out: Vec<PriceBucket> = Vec::new();
        let mut b: usize = 0;
        while b < BAND_COUNT
            invariant
                favs@ == self.favorites@,
                fits(favs@.len()),
                b <= BAND_COUNT,
                counts@.len() == BAND_COUNT,
                forall|k: int| 0 <= k < BAND_COUNT ==> #[trigger] counts@[k] as int == band_count(favs@, k),
                forall|k: int| 0 <= k < BAND_COUNT ==> #[trigger] counts@[k] <= favs@.len(),
                out@.len() == b,
                price_view(out@) =~= price_distribution(*self).take(b as int),
            decreases BAND_COUNT - b,
        {
            out.push(PriceBucket { label: String::from_str(band_text(b)), count: counts[b] as i64 });
            b = b + 1;
        }
        assert(price_distribution(*self).take(BAND_COUNT as int) =~= price_distribution(*self));
        out
    }

    /// The fifteen most used tags, most used first.
    pub fn get_top_tags(&self) -> (r: Vec<TagStat>)
        requires
            self.wf(),
        ensures
            tag_view(r@) == tag_ranking(*self),
    {
        let labels = self.tag_texts();
        tag_stats(top_counts(&labels, TOP_TAGS))
    }

    /// The ten most searched keywords, most searched first.
    pub fn get_search_history_stats(&self) -> (r: Vec<SearchFrequency>)
        requires
            self.wf(),
        ensures
            search_view(r@) == search_ranking(*self),
    {
        let mut labels: Vec<String> = Vec::new();
        let mut i: usize = 0;
        while i < self.search_history.len()
            invariant
                i <= self.search_history@.len(),
                texts(labels@) =~= self.search_history@.map_values(|e: crate::model::SearchEntry| e.keyword@).take(i as int),
                labels@.len() == i,
            decreases self.search_history@.len() - i,
        {
            labels.push(self.search_history[i].keyword.clone());
            i = i + 1;
        }
        assert(self.search_history@.map_values(|e: crate::model::SearchEntry| e.keyword@).take(self.search_history@.len() as int)
            =~= self.search_history@.map_values(|e: crate::model::SearchEntry| e.keyword@));
        search_stats(top_counts(&labels, TOP_SEARCHES))
    }

    /// The ten shops with the most favorites, most first; favorites without
    /// a shop name are left out.
    pub fn get_top_shops(&self) -> (r: Vec<ShopStat>)
        requires
            self.wf(),
        ensures
            shop_view(r@) == shop_ranking(*self),
    {
        let mut labels: Vec<String> = Vec::new();
        let mut i: usize = 0;
        while i < self.favorites.len()
            invariant
                i <= self.favorites@.len(),
                fits(self.favorites@.len()),
                texts(labels@) =~= self.favorites@.take(i as int).filter(has_shop()).map_values(|f: FavoriteItem| f.shop_name->Some_0@),
                labels@.len() <= i,
            decreases self.favorites@.len() - i,
        {
            proof {
                assert(self.favorites@.take(i + 1) =~= self.favorites@.take(i as int).push(self.favorites@[i as int]));
                lemma_filter_push(self.favorites@.take(i as int), self.favorites@[i as int], has_shop());
            }
            let ghost pre = self.favorites@.take(i as int).filter(has_shop());
            let ghost before = labels@;
            match &self.favorites[i].shop_name {
                Some(shop) => {
                    if shop.as_str().unicode_len() > 0 {
                        labels.push(shop.clone());
                        proof {
                            let g = |f: FavoriteItem| f.shop_name->Some_0@;
                            assert(pre.push(self.favorites@[i as int]).map_values(g) =~= pre.map_values(g).push(shop@));
                            assert(texts(labels@) =~= texts(before).push(shop@));
                        }
                    }
                },
                None => {},
            }
            i = i + 1;
        }
        assert(self.favorites@.take(self.favorites@.len() as int) =~= self.favorites@);
        shop_stats(top_counts(&labels, TOP_SHOPS))
    }

    /// Favorites per month of their saving time, oldest month first.
    pub fn get_monthly_favorites(&self) -> (r: Vec<MonthlyCount>)
        requires
            self.wf(),
        ensures
            monthly_view(r@) == monthly_counts(*self),
    {
        let mut idx: Vec<u64> = Vec::new();
        let mut i: usize = 0;
        while i < self.favorites.len()
            invariant
                i <= self.favorites@.len(),
                idx@.len() <= i,
                numbers(idx@) =~= month_indexes(self.favorites@.take(i as int)),
            decreases self.favorites@.len() - i,
        {
            proof {
                assert(self.favorites@.take(i + 1) =~= self.favorites@.take(i as int).push(self.favorites@[i as int]));
                lemma_filter_push(self.favorites@.take(i as int), self.favorites@[i as int], dated());
            }
            let ghost pre = self.favorites@.take(i as int).filter(dated());
            let ghost before = idx@;
            match self.favorites[i].added_at {
                Some(t) => {
                    idx.push(month_index_of(t));
                    proof {
                        let g = |f: FavoriteItem| month_index(f.added_at->Some_0);
                        assert(pre.push(self.favorites@[i as int]).map_values(g) =~= pre.map_values(g).push(month_index(t)));
                        assert(numbers(idx@) =~= numbers(before).push(month_index(t)));
                    }
                },
                None => {},
            }
            i = i + 1;
        }
        assert(self.favorites@.take(self.favorites@.len() as int) =~= self.favorites@);
        let (keys, counts) = group_numbers(&idx);
        let ghost all = numbers(idx@);
        let ghost d = distinct(all);
        let mut sk: Vec<(i128, i128)> = Vec::new();
        let mut k: usize = 0;
        while k < keys.len()
            invariant
                k <= keys@.len(),
                numbers(keys@) == d,
                sk@ =~= d.map_values(|x: int| (x as i128, 0i128)).take(k as int),
            decreases keys@.len() - k,
        {
            proof {
                assert(numbers(keys@)[k as int] == keys@[k as int] as int);
            }
            sk.push((keys[k] as i128, 0i128));
            k = k + 1;
        }
        assert(d.map_values(|x: int| (x as i128, 0i128)).take(keys@.len() as int) =~= d.map_values(|x: int| (x as i128, 0i128)));
        let order = sort_order(&sk);
        let ghost want = monthly_counts(*self);
        let mut out: Vec<MonthlyCount> = Vec::new();
        let mut q: usize = 0;
        while q < order.len()
            invariant
                q <= order@.len(),
                is_sorted_order(sk@, order@),
                sk@ == d.map_values(|x: int| (x as i128, 0i128)),
                order@ == sorted_order(d.map_values(|x: int| (x as i128, 0i128))),
                numbers(keys@) == d,
                d == distinct(all),
                all == month_indexes(self.favorites@),
                counts@.len() == keys@.len(),
                forall|t: int| 0 <= t < counts@.len() ==> counts@[t] as int == occurrences(all, #[trigger] keys@[t] as int),
                forall|t: int| 0 <= t < counts@.len() ==> counts@[t] <= idx@.len(),
                idx@.len() <= self.favorites@.len(),
                fits(self.favorites@.len()),
                want == monthly_counts(*self),
                out@.len() == q,
                monthly_view(out@) =~= want.take(q as int),
            decreases order@.len() - q,
        {
            let j = order[q];
            proof {
                assert(numbers(keys@)[j as int] == keys@[j as int] as int);
            }
            out.push(MonthlyCount { month: month_text(keys[j]), count: counts[j] as i64 });
            q = q + 1;
        }
        assert(want.take(order@.len() as int) =~= want);
        out
    }

    /// Every statistic at once, each as its own operation computes it.
    pub fn get_all_statistics(&self) -> (r: AppResult<AllStatistics>)
        requires
            self.wf(),
        ensures
            all_statistics_post(*self, r),
    {
        let stats = match self.get_dashboard_stats() {
            Ok(d) => d,
            Err(e) => return Err(e),
        };
        let categories = self.get_category_distribution();
        let prices = self.get_price_distribution();
        let tags = self.get_top_tags();
        let searches = self.get_search_history_stats();
        let monthly = self.get_monthly_favorites();
        let shops = self.get_top_shops();
        Ok(AllStatistics { stats, categories, prices, tags, searches, monthly, shops })
    }
}

/// Every price of zero or more lies in exactly one band, and over favorites
/// whose prices are all zero or more the band counts add up to their number.
pub proof fn law_price_bands_partition(favs: Seq<FavoriteItem>, p: i64)
    requires
        p >= 0,
        forall|i: int| 0 <= i < favs.len() ==> (#[trigger] favs[i]).price >= 0,
    ensures
        0 <= price_band(p as int) < BAND_COUNT,
        in_band(p as int, price_band(p as int)),
        forall|b: int| #[trigger] in_band(p as int, b) ==> b == price_band(p as int),
        band_count(favs, 0) + band_count(favs, 1) + band_count(favs, 2) + band_count(favs, 3)
            + band_count(favs, 4) + band_count(favs, 5) + band_count(favs, 6) == favs.len(),
    decreases favs.len(),
{
    if favs.len() > 0 {
        let rest = favs.drop_last();
        let last = favs.last();
        law_price_bands_partition(rest, p);
        assert(favs =~= rest.push(last));
        assert forall|b: int| 0 <= b < BAND_COUNT implies band_count(favs, b) == band_count(rest, b)
            + (if price_band(last.price as int) == b { 1int } else { 0int }) by {
            lemma_filter_push(rest, last, priced_in(b));
        }
    } else {
        assert forall|b: int| 0 <= b < BAND_COUNT implies band_count(favs, b) == 0 by {
            crate::store::lemma_filter_subset(favs, priced_in(b));
        }
    }
}

/// The combined report agrees, part by part, with each statistic computed
/// on its own over the same store.
pub proof fn law_combined_report_agrees(
    s: Store,
    all: AllStatistics,
    stats: AppResult<DashboardStats>,
    categories: Seq<CategoryStat>,
    prices: Seq<PriceBucket>,
    tags: Seq<TagStat>,
    searches: Seq<SearchFrequency>,
    monthly: Seq<MonthlyCount>,
    shops: Seq<ShopStat>,
)
    requires
        all_statistics_post(s, Ok(all)),
        dashboard_post(s, stats),
        category_view(categories) == category_distribution(s),
        price_view(prices) == price_distribution(s),
        tag_view(tags) == tag_ranking(s),
        search_view(searches) == search_ranking(s),
        monthly_view(monthly) == monthly_counts(s),
        shop_view(shops) == shop_ranking(s),
    ensures
        stats == Ok::<DashboardStats, AppError>(all.stats),
        category_view(all.categories@) == category_view(categories),
        price_view(all.prices@) == price_view(prices),
        tag_view(all.tags@) == tag_view(tags),
        search_view(all.searches@) == search_view(searches),
        monthly_view(all.monthly@) == monthly_view(monthly),
        shop_view(all.shops@) == shop_view(shops),
{
}

} // verus!
