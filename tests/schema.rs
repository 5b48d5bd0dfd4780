use boothhunter::error::AppError;
use boothhunter::model::{BoothItem, PopularAvatar, Translation};
use boothhunter::schema::{default_avatar_seeds, AvatarSeed, DEFAULT_AVATAR_COUNT};
use boothhunter::store::Store;

const NOW: u64 = 1_700_000_000;
const DAY: u64 = 86_400;

#[test]
fn default_seed_list() {
    let seeds = default_avatar_seeds();
    assert_eq!(seeds.len(), DEFAULT_AVATAR_COUNT);
    assert!(seeds.iter().any(|s| s.name_ja == "しなの"));
    assert_eq!(seeds[0].name_en, "Kipfel");
}

fn rows(s: &Store) -> Vec<(i64, String, String, String, i64, Option<String>, u64, i64)> {
    s.avatars
        .iter()
        .map(|a| {
            (
                a.id,
                a.name_ja.clone(),
                a.name_ko.clone(),
                a.name_en.clone(),
                a.item_count,
                a.thumbnail_url.clone(),
                a.updated_at,
                a.is_default,
            )
        })
        .collect()
}

#[test]
fn initializing_twice_gives_the_same_rows() {
    let seeds = default_avatar_seeds();
    let mut s = Store::new();
    s.initialize_data(&seeds, NOW).unwrap();
    assert_eq!(s.avatars.len(), DEFAULT_AVATAR_COUNT);
    let first = rows(&s);
    let next = s.next_avatar_id;
    s.initialize_data(&seeds, NOW + 3 * DAY).unwrap();
    assert_eq!(rows(&s), first);
    assert_eq!(s.next_avatar_id, next);
    let mut names: Vec<&String> = s.avatars.iter().map(|a| &a.name_ja).collect();
    names.sort();
    names.dedup();
    assert_eq!(names.len(), DEFAULT_AVATAR_COUNT);
}

#[test]
fn restart_keeps_refreshed_default_avatars() {
    let seeds = default_avatar_seeds();
    let mut s = Store::new();
    s.initialize_data(&seeds, NOW).unwrap();
    let id = s.avatars[21].id;
    s.update_popular_avatar(id, 321, Some("thumb.png".to_string()), NOW + DAY).unwrap();
    let before = rows(&s);
    s.initialize_data(&seeds, NOW + 40 * DAY).unwrap();
    assert_eq!(rows(&s), before);
    let a = s.avatars.iter().find(|a| a.id == id).unwrap();
    assert_eq!(a.item_count, 321);
    assert_eq!(a.thumbnail_url.as_deref(), Some("thumb.png"));
}

#[test]
fn restart_needs_no_free_identifiers() {
    let seeds = default_avatar_seeds();
    let mut s = Store::new();
    s.initialize_data(&seeds, NOW).unwrap();
    s.next_avatar_id = i64::MAX;
    let before = rows(&s);
    assert!(s.initialize_data(&seeds, NOW + 1).is_ok());
    assert_eq!(rows(&s), before);
}

#[test]
fn seeding_backfills_empty_english_names() {
    let mut s = Store::new();
    s.avatars.push(PopularAvatar {
        id: 1,
        name_ja: "ルルネ".to_string(),
        name_ko: "루루네".to_string(),
        name_en: String::new(),
        item_count: 9,
        thumbnail_url: None,
        updated_at: 5,
        is_default: 0,
    });
    s.next_avatar_id = 2;
    let seeds = vec![AvatarSeed {
        name_ja: "ルルネ".to_string(),
        name_ko: "x".to_string(),
        name_en: "Rurune".to_string(),
    }];
    s.seed_default_avatars(&seeds, NOW).unwrap();
    assert_eq!(s.avatars.len(), 1);
    assert_eq!(s.avatars[0].name_en, "Rurune");
    assert_eq!(s.avatars[0].name_ko, "루루네");
    assert_eq!(s.avatars[0].item_count, 9);
}

#[test]
fn obsolete_default_set_is_replaced() {
    let mut s = Store::new();
    for (i, (ja, d)) in [("しなの", 1), ("old", 1), ("mine", 0)].iter().enumerate() {
        s.avatars.push(PopularAvatar {
            id: i as i64 + 1,
            name_ja: ja.to_string(),
            name_ko: String::new(),
            name_en: "e".to_string(),
            item_count: 3,
            thumbnail_url: None,
            updated_at: 5,
            is_default: *d,
        });
    }
    s.next_avatar_id = 4;
    s.initialize_data(&default_avatar_seeds(), NOW).unwrap();
    assert!(s.avatars.iter().all(|a| a.name_ja != "old"));
    assert!(s.avatars.iter().any(|a| a.name_ja == "mine" && a.is_default == 0));
    assert_eq!(s.avatars.len(), DEFAULT_AVATAR_COUNT + 1);
    assert!(s.avatars.iter().all(|a| a.id != 1 && a.id != 2));
}

#[test]
fn current_defaults_are_not_obsolete() {
    let mut s = Store::new();
    s.avatars.push(PopularAvatar {
        id: 1,
        name_ja: "しなの".to_string(),
        name_ko: "시나노".to_string(),
        name_en: "Shinano".to_string(),
        item_count: 8,
        thumbnail_url: None,
        updated_at: 5,
        is_default: 1,
    });
    s.next_avatar_id = 2;
    s.initialize_data(&default_avatar_seeds(), NOW).unwrap();
    assert_eq!(s.avatars[0].id, 1);
    assert_eq!(s.avatars[0].item_count, 8);
    assert_eq!(s.avatars.len(), DEFAULT_AVATAR_COUNT);
}

#[test]
fn startup_evicts_old_cache_rows() {
    let mut s = Store::new();
    let item = |id: i64| BoothItem {
        id,
        name: "n".to_string(),
        description: None,
        price: 1,
        category_name: None,
        shop_name: None,
        url: "u".to_string(),
        images: vec![],
        tags: vec![],
        wish_lists_count: None,
    };
    s.cache_items(vec![item(1)], NOW - 31 * DAY).unwrap();
    s.cache_items(vec![item(2)], NOW - 30 * DAY).unwrap();
    s.translations.push(Translation {
        source_text: "old".to_string(),
        translated_text: "t".to_string(),
        created_at: NOW - 91 * DAY,
    });
    s.translations.push(Translation {
        source_text: "new".to_string(),
        translated_text: "t".to_string(),
        created_at: NOW - 89 * DAY,
    });
    s.initialize_data(&vec![], NOW).unwrap();
    let ids: Vec<i64> = s.cached_items.iter().map(|c| c.id).collect();
    assert_eq!(ids, vec![2]);
    assert_eq!(s.translations.len(), 1);
    assert_eq!(s.translations[0].source_text, "new");
}

#[test]
fn seeding_without_identifiers_fails() {
    let mut s = Store::new();
    s.next_avatar_id = i64::MAX - 1;
    assert!(matches!(s.initialize_data(&default_avatar_seeds(), NOW), Err(AppError::Database(_))));
    assert!(s.avatars.is_empty());
    assert_eq!(s.next_avatar_id, i64::MAX - 1);
}

#[test]
fn avatar_freshness() {
    let mut s = Store::new();
    assert_eq!(s.check_avatars_need_update(NOW).unwrap(), true);
    s.initialize_data(&default_avatar_seeds(), NOW).unwrap();
    assert_eq!(s.check_avatars_need_update(NOW + 7 * DAY).unwrap(), false);
    assert_eq!(s.check_avatars_need_update(NOW + 7 * DAY + 1).unwrap(), true);
}

#[test]
fn avatars_listed_by_item_count() {
    let mut s = Store::new();
    s.initialize_data(&default_avatar_seeds(), NOW).unwrap();
    s.update_popular_avatar(3, 50, Some("thumb".to_string()), NOW + 10).unwrap();
    s.update_popular_avatar(5, 50, None, NOW + 10).unwrap();
    s.update_popular_avatar(2, 70, None, NOW + 10).unwrap();
    let listed = s.get_popular_avatars();
    let ids: Vec<i64> = listed.iter().take(4).map(|a| a.id).collect();
    assert_eq!(ids, vec![2, 3, 5, 1]);
    assert_eq!(listed[1].thumbnail_url.as_deref(), Some("thumb"));
    assert_eq!(listed[1].updated_at, NOW + 10);
}
