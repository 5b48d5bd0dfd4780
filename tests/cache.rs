use boothhunter::cache::encoded_or_empty;
use boothhunter::model::BoothItem;
use boothhunter::store::Store;

fn item(id: i64, name: &str, images: &[&str], tags: &[&str]) -> BoothItem {
    BoothItem {
        id,
        name: name.to_string(),
        description: Some("d".to_string()),
        price: 800,
        category_name: Some("3D".to_string()),
        shop_name: Some("shop".to_string()),
        url: format!("https://booth.pm/items/{id}"),
        images: images.iter().map(|s| s.to_string()).collect(),
        tags: tags.iter().map(|s| s.to_string()).collect(),
        wish_lists_count: Some(12),
    }
}

#[test]
fn lists_are_stored_as_json() {
    let mut s = Store::new();
    s.cache_items(vec![item(1, "a", &["x.png", "y\"z.png"], &[])], 77).unwrap();
    let row = &s.cached_items[0];
    assert_eq!(row.images_json, "[\"x.png\",\"y\\\"z.png\"]");
    assert_eq!(row.tags_json, "[]");
    assert_eq!(row.wish_count, Some(12));
    assert_eq!(row.cached_at, 77);
    assert_eq!(row.url, "https://booth.pm/items/1");
    s.cache_items(vec![item(2, "b", &[], &["3D", "衣装"])], 78).unwrap();
    assert_eq!(s.cached_items[1].tags_json, "[\"3D\",\"衣装\"]");
}

#[test]
fn caching_again_replaces_the_row() {
    let mut s = Store::new();
    s.cache_items(vec![item(1, "a", &[], &[]), item(2, "b", &[], &[])], 1).unwrap();
    s.cache_items(vec![item(1, "a2", &[], &["t"]), item(1, "a3", &[], &[])], 2).unwrap();
    assert_eq!(s.cached_items.len(), 2);
    assert_eq!(s.cached_items[0].id, 2);
    assert_eq!(s.cached_items[1].name, "a3");
    assert_eq!(s.cached_items[1].cached_at, 2);
}

#[test]
fn failed_encoding_stores_an_empty_list() {
    assert_eq!(encoded_or_empty(None), "[]");
    assert_eq!(encoded_or_empty(Some("[\"a\"]".to_string())), "[\"a\"]");
}
