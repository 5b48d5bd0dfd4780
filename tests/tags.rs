use boothhunter::model::AddFavoriteParams;
use boothhunter::store::Store;

fn strings(v: &[&str]) -> Vec<String> {
    v.iter().map(|s| s.to_string()).collect()
}

#[test]
fn invalid_tags_are_dropped_silently() {
    let mut s = Store::new();
    let long = "a".repeat(101);
    let tags = vec!["".to_string(), "  ".to_string(), long, "valid".to_string()];
    assert!(s.set_item_tags(5, &tags).is_ok());
    assert_eq!(s.get_item_tags(5), vec!["valid".to_string()]);
    assert_eq!(s.item_tags.len(), 1);
}

#[test]
fn tags_are_trimmed_deduplicated_and_replaced() {
    let mut s = Store::new();
    s.set_item_tags(1, &strings(&[" red ", "blue", "red"])).unwrap();
    assert_eq!(s.get_item_tags(1), strings(&["blue", "red"]));
    s.set_item_tags(1, &strings(&["green"])).unwrap();
    assert_eq!(s.get_item_tags(1), strings(&["green"]));
    let ids: Vec<i64> = s.item_tags.iter().map(|t| t.id).collect();
    assert_eq!(ids, vec![3]);
}

#[test]
fn all_user_tags_once_each() {
    let mut s = Store::new();
    s.set_item_tags(1, &strings(&["b", "a"])).unwrap();
    s.set_item_tags(2, &strings(&["a", "c"])).unwrap();
    assert_eq!(s.get_all_user_tags(), strings(&["a", "b", "c"]));
}

#[test]
fn tags_come_in_code_point_order() {
    let mut s = Store::new();
    s.set_item_tags(1, &strings(&["b", "ab", "あ", "a", "B"])).unwrap();
    assert_eq!(s.get_item_tags(1), strings(&["B", "a", "ab", "b", "あ"]));
}

#[test]
fn batches_cover_favorites_only() {
    let mut s = Store::new();
    for id in [1, 2] {
        s.add_favorite(
            AddFavoriteParams {
                item_id: id,
                name: "n".to_string(),
                price: 0,
                thumbnail_url: None,
                category_name: None,
                shop_name: None,
            },
            1,
        )
        .unwrap();
    }
    s.set_item_tags(1, &strings(&["y", "x"])).unwrap();
    s.set_item_tags(3, &strings(&["z"])).unwrap();
    let tags = s.get_all_item_tags_batch();
    assert_eq!(tags.len(), 1);
    assert_eq!(tags[&1], strings(&["x", "y"]));
    let c = s
        .create_collection(
            boothhunter::model::CreateCollectionParams { name: "c".to_string(), color: None },
            1,
        )
        .unwrap();
    s.add_to_collection(c, 2, 1).unwrap();
    s.add_to_collection(c, 3, 1).unwrap();
    let cols = s.get_all_item_collections_batch();
    assert_eq!(cols.len(), 1);
    assert_eq!(cols[&2], vec![c]);
}
