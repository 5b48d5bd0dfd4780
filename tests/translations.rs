use boothhunter::store::Store;

#[test]
fn saving_again_replaces_the_translation() {
    let mut s = Store::new();
    s.save_cached_translation("こんにちは".to_string(), "hello".to_string(), 10).unwrap();
    s.save_cached_translation("こんにちは".to_string(), "hi".to_string(), 20).unwrap();
    assert_eq!(s.translations.len(), 1);
    assert_eq!(s.translations[0].created_at, 20);
    assert_eq!(s.get_cached_translation("こんにちは").unwrap(), Some("hi".to_string()));
}

#[test]
fn unknown_text_is_a_miss() {
    let mut s = Store::new();
    s.save_cached_translation("a".to_string(), "b".to_string(), 1).unwrap();
    assert_eq!(s.get_cached_translation("zzz").unwrap(), None);
}
