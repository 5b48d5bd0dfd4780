use boothhunter::error::AppError;
use boothhunter::model::{AddFavoriteParams, CreateCollectionParams};
use boothhunter::store::Store;

fn create(s: &mut Store, name: &str, color: Option<&str>) -> Result<i64, AppError> {
    s.create_collection(
        CreateCollectionParams { name: name.to_string(), color: color.map(|c| c.to_string()) },
        50,
    )
}

fn favorite(s: &mut Store, item_id: i64) {
    s.add_favorite(
        AddFavoriteParams {
            item_id,
            name: format!("item {item_id}"),
            price: 100,
            thumbnail_url: None,
            category_name: None,
            shop_name: None,
        },
        10,
    )
    .unwrap();
}

#[test]
fn collection_creation_validates_name_and_color() {
    let mut s = Store::new();
    assert!(matches!(create(&mut s, "  ", None), Err(AppError::ParseError(_))));
    assert!(matches!(create(&mut s, "ok", Some("123456")), Err(AppError::ParseError(_))));
    assert!(s.collections.is_empty());
    let id = create(&mut s, "  Faves  ", Some("#aabbcc")).unwrap();
    assert_eq!(id, 1);
    let c = &s.collections[0];
    assert_eq!(c.name, "Faves");
    assert_eq!(c.color, "#aabbcc");
    assert_eq!(c.sort_order, 0);
    assert_eq!(c.created_at, 50);
    let id2 = create(&mut s, "Other", None).unwrap();
    assert_eq!(id2, 2);
    assert_eq!(s.collections[1].color, "#6366f1");
}

#[test]
fn rename_and_recolor() {
    let mut s = Store::new();
    let id = create(&mut s, "a", None).unwrap();
    assert!(matches!(s.rename_collection(id, " "), Err(AppError::ParseError(_))));
    s.rename_collection(id, " b ").unwrap();
    assert_eq!(s.collections[0].name, "b");
    assert!(matches!(s.update_collection_color(id, "#12345"), Err(AppError::ParseError(_))));
    s.update_collection_color(id, "#012345").unwrap();
    assert_eq!(s.collections[0].color, "#012345");
}

#[test]
fn equal_sort_order_lists_by_id() {
    let mut s = Store::new();
    create(&mut s, "one", None).unwrap();
    create(&mut s, "two", None).unwrap();
    create(&mut s, "three", None).unwrap();
    s.collections[0].sort_order = 5;
    s.collections[2].sort_order = -1;
    let listed: Vec<i64> = s.get_collections().iter().map(|c| c.id).collect();
    assert_eq!(listed, vec![3, 2, 1]);
    s.collections[0].sort_order = 0;
    s.collections[2].sort_order = 0;
    let listed: Vec<i64> = s.get_collections().iter().map(|c| c.id).collect();
    assert_eq!(listed, vec![1, 2, 3]);
}

#[test]
fn collections_count_their_members() {
    let mut s = Store::new();
    let a = create(&mut s, "a", None).unwrap();
    let b = create(&mut s, "b", None).unwrap();
    s.add_to_collection(a, 1, 1).unwrap();
    s.add_to_collection(a, 2, 1).unwrap();
    s.add_to_collection(a, 2, 5).unwrap();
    let listed = s.get_collections();
    assert_eq!(listed[0].item_count, 2);
    assert_eq!(listed[1].id, b);
    assert_eq!(listed[1].item_count, 0);
}

#[test]
fn membership_needs_an_existing_collection() {
    let mut s = Store::new();
    assert!(matches!(s.add_to_collection(9, 1, 1), Err(AppError::Database(_))));
    assert!(s.memberships.is_empty());
}

#[test]
fn collection_items_newest_membership_first() {
    let mut s = Store::new();
    favorite(&mut s, 1);
    favorite(&mut s, 2);
    favorite(&mut s, 3);
    let c = create(&mut s, "c", None).unwrap();
    s.add_to_collection(c, 1, 100).unwrap();
    s.add_to_collection(c, 2, 300).unwrap();
    s.add_to_collection(c, 3, 200).unwrap();
    s.add_to_collection(c, 4, 400).unwrap();
    let items: Vec<i64> = s.get_collection_items(c).iter().map(|f| f.item_id).collect();
    assert_eq!(items, vec![2, 3, 1]);
    assert_eq!(s.get_item_collections(2), vec![c]);
    s.remove_from_collection(c, 2).unwrap();
    assert!(s.get_item_collections(2).is_empty());
}

#[test]
fn deleting_a_collection_drops_its_memberships() {
    let mut s = Store::new();
    let a = create(&mut s, "a", None).unwrap();
    let b = create(&mut s, "b", None).unwrap();
    s.add_to_collection(a, 1, 1).unwrap();
    s.add_to_collection(b, 1, 1).unwrap();
    s.delete_collection(a).unwrap();
    assert_eq!(s.collections.len(), 1);
    assert_eq!(s.get_item_collections(1), vec![b]);
    let again = create(&mut s, "c", None).unwrap();
    assert_eq!(again, 3);
}
