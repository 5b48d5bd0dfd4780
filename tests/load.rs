use boothhunter::error::AppError;
use boothhunter::load::Sequences;
use boothhunter::model::{AddFavoriteParams, FavoriteItem, Membership, PopularAvatar};
use boothhunter::store::Store;

fn fav(id: i64, item_id: i64) -> FavoriteItem {
    FavoriteItem {
        id,
        item_id,
        name: "n".to_string(),
        price: 1,
        thumbnail_url: None,
        category_name: None,
        shop_name: None,
        added_at: Some(5),
        note: Some("note".to_string()),
    }
}

fn seqs(favorites: i64) -> Sequences {
    Sequences { favorites, collections: 0, tags: 0, searches: 0, avatars: 0 }
}

#[test]
fn loaded_store_continues_identifiers() {
    let mut s = Store::from_tables(
        vec![],
        vec![fav(3, 10), fav(7, 11)],
        vec![],
        vec![],
        vec![],
        vec![],
        vec![],
        vec![],
        seqs(9),
    )
    .unwrap();
    assert_eq!(s.next_favorite_id, 10);
    assert_eq!(s.next_collection_id, 1);
    s.add_favorite(
        AddFavoriteParams {
            item_id: 12,
            name: "m".to_string(),
            price: 2,
            thumbnail_url: None,
            category_name: None,
            shop_name: None,
        },
        6,
    )
    .unwrap();
    assert_eq!(s.favorites[2].id, 10);
}

#[test]
fn loading_refuses_repeated_listings() {
    let r = Store::from_tables(
        vec![],
        vec![fav(1, 10), fav(2, 10)],
        vec![],
        vec![],
        vec![],
        vec![],
        vec![],
        vec![],
        seqs(0),
    );
    assert!(matches!(r, Err(AppError::Database(_))));
}

#[test]
fn loading_refuses_repeated_avatar_names() {
    let av = |id: i64| PopularAvatar {
        id,
        name_ja: "同じ".to_string(),
        name_ko: String::new(),
        name_en: String::new(),
        item_count: 0,
        thumbnail_url: None,
        updated_at: 0,
        is_default: 0,
    };
    let r = Store::from_tables(vec![], vec![], vec![], vec![], vec![], vec![], vec![av(1), av(2)], vec![], seqs(0));
    assert!(matches!(r, Err(AppError::Database(_))));
}

#[test]
fn loading_refuses_exhausted_identifiers() {
    let r = Store::from_tables(
        vec![],
        vec![fav(i64::MAX, 1)],
        vec![],
        vec![],
        vec![],
        vec![],
        vec![],
        vec![],
        seqs(0),
    );
    assert!(matches!(r, Err(AppError::Database(_))));
}

#[test]
fn loading_refuses_repeated_memberships() {
    let m = |at: u64| Membership { collection_id: 1, item_id: 2, added_at: at };
    let r = Store::from_tables(vec![], vec![], vec![], vec![m(1), m(2)], vec![], vec![], vec![], vec![], seqs(0));
    assert!(matches!(r, Err(AppError::Database(_))));
}
