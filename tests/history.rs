use boothhunter::store::{Store, HISTORY_CAP};

#[test]
fn blank_keywords_are_ignored() {
    let mut s = Store::new();
    s.save_search_history("   ", 1).unwrap();
    assert!(s.search_history.is_empty());
    s.save_search_history("  avatar  ", 2).unwrap();
    assert_eq!(s.search_history.len(), 1);
    assert_eq!(s.search_history[0].keyword, "avatar");
    assert_eq!(s.search_history[0].searched_at, 2);
}

#[test]
fn history_keeps_the_most_recent_ten_thousand() {
    let mut s = Store::new();
    for i in 0..10_005u64 {
        s.save_search_history(&format!("k{i}"), 1_000 + i).unwrap();
    }
    assert_eq!(s.search_history.len(), HISTORY_CAP);
    assert_eq!(HISTORY_CAP, 10_000);
    let mut times: Vec<u64> = s.search_history.iter().map(|e| e.searched_at).collect();
    times.sort();
    assert_eq!(times[0], 1_005);
    assert_eq!(times[9_999], 11_004);
    assert!(s.search_history.iter().all(|e| e.keyword != "k4"));
}

#[test]
fn oldest_search_goes_first_even_out_of_order() {
    let mut s = Store::new();
    for i in 0..10_000u64 {
        s.save_search_history("k", 500 + i).unwrap();
    }
    s.save_search_history("early", 10).unwrap();
    assert_eq!(s.search_history.len(), HISTORY_CAP);
    assert!(s.search_history.iter().all(|e| e.keyword != "early"));
    assert!(s.search_history.iter().any(|e| e.searched_at == 500));
}
