use boothhunter::collections::DEFAULT_COLOR;
use boothhunter::model::{AddFavoriteParams, CreateCollectionParams};
use boothhunter::store::Store;

fn params(item_id: i64, name: &str, price: i64) -> AddFavoriteParams {
    AddFavoriteParams {
        item_id,
        name: name.to_string(),
        price,
        thumbnail_url: Some(format!("https://img/{item_id}.png")),
        category_name: Some("3D".to_string()),
        shop_name: Some("shop".to_string()),
    }
}

#[test]
fn adding_twice_keeps_one_favorite() {
    let mut s = Store::new();
    s.add_favorite(params(42, "first", 500), 1000).unwrap();
    s.favorites[0].note = Some("keep me".to_string());
    s.add_favorite(params(42, "second", 900), 2000).unwrap();
    assert_eq!(s.favorites.len(), 1);
    let f = &s.favorites[0];
    assert_eq!(f.name, "first");
    assert_eq!(f.price, 500);
    assert_eq!(f.added_at, Some(1000));
    assert_eq!(f.note.as_deref(), Some("keep me"));
}

#[test]
fn favorites_listed_newest_first() {
    let mut s = Store::new();
    s.add_favorite(params(1, "a", 1), 100).unwrap();
    s.add_favorite(params(2, "b", 1), 300).unwrap();
    s.add_favorite(params(3, "c", 1), 200).unwrap();
    s.add_favorite(params(4, "d", 1), 300).unwrap();
    let ids: Vec<i64> = s.get_favorites().iter().map(|f| f.item_id).collect();
    assert_eq!(ids, vec![4, 2, 3, 1]);
    assert!(s.is_favorite(3));
    assert!(!s.is_favorite(9));
}

#[test]
fn removing_a_favorite_cascades() {
    let mut s = Store::new();
    s.add_favorite(params(7, "seven", 100), 10).unwrap();
    s.add_favorite(params(8, "eight", 100), 10).unwrap();
    let c = s
        .create_collection(CreateCollectionParams { name: "c".to_string(), color: None }, 10)
        .unwrap();
    s.add_to_collection(c, 7, 11).unwrap();
    s.add_to_collection(c, 8, 11).unwrap();
    s.set_item_tags(7, &vec!["x".to_string(), "y".to_string()]).unwrap();
    s.set_item_tags(8, &vec!["x".to_string()]).unwrap();
    s.remove_favorite(7).unwrap();
    assert!(s.favorites.iter().all(|f| f.item_id != 7));
    assert!(s.memberships.iter().all(|m| m.item_id != 7));
    assert!(s.item_tags.iter().all(|t| t.item_id != 7));
    assert_eq!(s.favorites.len(), 1);
    assert_eq!(s.memberships.len(), 1);
    assert_eq!(s.item_tags.len(), 1);
    assert_eq!(s.collections[0].color, DEFAULT_COLOR);
}

#[test]
fn removing_an_absent_favorite_is_no_error() {
    let mut s = Store::new();
    assert!(s.remove_favorite(99).is_ok());
    assert!(s.favorites.is_empty());
}
