use boothhunter::error::AppError;
use boothhunter::model::AddFavoriteParams;
use boothhunter::stats::{CategoryStat, MonthlyCount, PriceBucket, SearchFrequency, ShopStat, TagStat};
use boothhunter::store::Store;

fn add(s: &mut Store, item_id: i64, price: i64, category: Option<&str>, shop: Option<&str>, at: u64) {
    s.add_favorite(
        AddFavoriteParams {
            item_id,
            name: format!("item {item_id}"),
            price,
            thumbnail_url: None,
            category_name: category.map(|c| c.to_string()),
            shop_name: shop.map(|c| c.to_string()),
        },
        at,
    )
    .unwrap();
}

fn pairs_c(v: &[CategoryStat]) -> Vec<(String, i64)> {
    v.iter().map(|c| (c.category.clone(), c.count)).collect()
}

fn pairs_p(v: &[PriceBucket]) -> Vec<(String, i64)> {
    v.iter().map(|c| (c.label.clone(), c.count)).collect()
}

fn pairs_t(v: &[TagStat]) -> Vec<(String, i64)> {
    v.iter().map(|c| (c.tag.clone(), c.count)).collect()
}

fn pairs_s(v: &[SearchFrequency]) -> Vec<(String, i64)> {
    v.iter().map(|c| (c.keyword.clone(), c.count)).collect()
}

fn pairs_m(v: &[MonthlyCount]) -> Vec<(String, i64)> {
    v.iter().map(|c| (c.month.clone(), c.count)).collect()
}

fn pairs_sh(v: &[ShopStat]) -> Vec<(String, i64)> {
    v.iter().map(|c| (c.shop.clone(), c.count)).collect()
}

fn owned(v: &[(&str, i64)]) -> Vec<(String, i64)> {
    v.iter().map(|(a, b)| (a.to_string(), *b)).collect()
}

#[test]
fn price_bands_partition_boundaries() {
    let mut s = Store::new();
    for (i, p) in [0, 500, 501, 10000, 10001].iter().enumerate() {
        add(&mut s, i as i64, *p, None, None, 1);
    }
    let bands = s.get_price_distribution();
    assert_eq!(
        pairs_p(&bands),
        owned(&[
            ("무료", 1),
            ("~500", 1),
            ("501~1000", 1),
            ("1001~3000", 0),
            ("3001~5000", 0),
            ("5001~10000", 1),
            ("10000~", 1)
        ])
    );
    assert_eq!(bands.iter().map(|b| b.count).sum::<i64>(), 5);
}

#[test]
fn price_bands_fixed_order_when_empty() {
    let s = Store::new();
    let bands = s.get_price_distribution();
    assert_eq!(bands.len(), 7);
    assert!(bands.iter().all(|b| b.count == 0));
    assert_eq!(bands[0].label, "무료");
    assert_eq!(bands[6].label, "10000~");
}

#[test]
fn dashboard_counts_and_average() {
    let mut s = Store::new();
    let empty = s.get_dashboard_stats().unwrap();
    assert_eq!(empty.favorites_count, 0);
    assert_eq!(empty.total_value, 0);
    assert_eq!(empty.avg_price, 0);
    add(&mut s, 1, 100, None, None, 1);
    add(&mut s, 2, 250, None, None, 1);
    s.set_item_tags(1, &vec!["a".to_string(), "b".to_string()]).unwrap();
    s.set_item_tags(2, &vec!["a".to_string()]).unwrap();
    s.save_search_history("x", 1).unwrap();
    s.save_search_history("x", 2).unwrap();
    s.create_collection(
        boothhunter::model::CreateCollectionParams { name: "c".to_string(), color: None },
        1,
    )
    .unwrap();
    let d = s.get_dashboard_stats().unwrap();
    assert_eq!(d.favorites_count, 2);
    assert_eq!(d.collections_count, 1);
    assert_eq!(d.tags_count, 2);
    assert_eq!(d.searches_count, 2);
    assert_eq!(d.total_value, 350);
    assert_eq!(d.avg_price, 175);
    add(&mut s, 3, 0, None, None, 1);
    assert_eq!(s.get_dashboard_stats().unwrap().avg_price, 116);
}

#[test]
fn average_rounds_toward_zero_for_negative_sums() {
    let mut s = Store::new();
    add(&mut s, 1, -7, None, None, 1);
    add(&mut s, 2, 0, None, None, 1);
    assert_eq!(s.get_dashboard_stats().unwrap().avg_price, -3);
}

#[test]
fn price_sum_overflow_is_a_database_error() {
    let mut s = Store::new();
    add(&mut s, 1, i64::MAX, None, None, 1);
    add(&mut s, 2, 1, None, None, 1);
    assert!(matches!(s.get_dashboard_stats(), Err(AppError::Database(_))));
    assert!(matches!(s.get_all_statistics(), Err(AppError::Database(_))));
}

#[test]
fn categories_shops_and_months() {
    let mut s = Store::new();
    add(&mut s, 1, 1, Some("3D"), Some("alpha"), 1705276800);
    add(&mut s, 2, 1, None, Some(""), 1709208000);
    add(&mut s, 3, 1, Some("3D"), None, 1704067199);
    add(&mut s, 4, 1, Some("Tools"), Some("beta"), 1704067200);
    add(&mut s, 5, 1, None, Some("alpha"), 0);
    add(&mut s, 6, 1, Some(""), None, 0);
    assert_eq!(
        pairs_c(&s.get_category_distribution()),
        owned(&[("미분류", 3), ("3D", 2), ("Tools", 1)])
    );
    assert_eq!(pairs_sh(&s.get_top_shops()), owned(&[("alpha", 2), ("beta", 1)]));
    assert_eq!(
        pairs_m(&s.get_monthly_favorites()),
        owned(&[("1970-01", 2), ("2023-12", 1), ("2024-01", 2), ("2024-02", 1)])
    );
}

#[test]
fn top_lists_are_capped() {
    let mut s = Store::new();
    for i in 0..12u64 {
        for _ in 0..=i {
            s.save_search_history(&format!("kw{i}"), i).unwrap();
        }
    }
    let top = s.get_search_history_stats();
    assert_eq!(top.len(), 10);
    assert_eq!(top[0].keyword, "kw11");
    assert_eq!(top[0].count, 12);
    assert_eq!(top[9].keyword, "kw2");
    for i in 0..20i64 {
        s.set_item_tags(i, &vec![format!("t{}", i % 17)]).unwrap();
    }
    let tags = s.get_top_tags();
    assert_eq!(tags.len(), 15);
    assert_eq!(pairs_t(&tags[..3]), owned(&[("t0", 2), ("t1", 2), ("t2", 2)]));
    assert_eq!(tags[3].count, 1);
}

#[test]
fn combined_report_matches_individual_views() {
    let mut s = Store::new();
    add(&mut s, 1, 300, Some("3D"), Some("alpha"), 1705276800);
    add(&mut s, 2, 7000, None, Some("beta"), 1709208000);
    s.set_item_tags(1, &vec!["cute".to_string()]).unwrap();
    s.save_search_history("dress", 5).unwrap();
    let all = s.get_all_statistics().unwrap();
    let d = s.get_dashboard_stats().unwrap();
    assert_eq!(all.stats.favorites_count, d.favorites_count);
    assert_eq!(all.stats.total_value, d.total_value);
    assert_eq!(all.stats.avg_price, d.avg_price);
    assert_eq!(pairs_c(&all.categories), pairs_c(&s.get_category_distribution()));
    assert_eq!(pairs_p(&all.prices), pairs_p(&s.get_price_distribution()));
    assert_eq!(pairs_t(&all.tags), pairs_t(&s.get_top_tags()));
    assert_eq!(pairs_s(&all.searches), pairs_s(&s.get_search_history_stats()));
    assert_eq!(pairs_m(&all.monthly), pairs_m(&s.get_monthly_favorites()));
    assert_eq!(pairs_sh(&all.shops), pairs_sh(&s.get_top_shops()));
}

#[test]
fn favorites_without_a_time_are_not_counted_by_month() {
    let mut s = Store::new();
    add(&mut s, 1, 1, None, None, 1705276800);
    s.favorites.push(boothhunter::model::FavoriteItem {
        id: 9,
        item_id: 2,
        name: "undated".to_string(),
        price: 1,
        thumbnail_url: None,
        category_name: None,
        shop_name: None,
        added_at: None,
        note: None,
    });
    s.next_favorite_id = 10;
    assert_eq!(pairs_m(&s.get_monthly_favorites()), owned(&[("2024-01", 1)]));
    let listed: Vec<i64> = s.get_favorites().iter().map(|f| f.item_id).collect();
    assert_eq!(listed, vec![1, 2]);
    assert_eq!(s.get_dashboard_stats().unwrap().favorites_count, 2);
}
