use chronox_tui::cache::RowCache;
use chronox_tui::model::ChangeSource;

fn src(line_index: usize) -> ChangeSource {
    ChangeSource {
        session_file: "s.jsonl".to_string(),
        line_index,
        index_in_line: 0,
    }
}

#[test]
fn empty_cache_is_stale_and_has_no_rows() {
    let cache: RowCache<u32> = RowCache::new();
    assert!(!cache.is_fresh_for(Some(&src(1))));
    assert!(!cache.is_fresh_for(None));
    assert!(cache.rows().is_empty());
}

#[test]
fn stored_rows_are_fresh_for_their_source_only() {
    let mut cache = RowCache::new();
    cache.store(src(1), vec![10u32, 20]);
    assert!(cache.is_fresh_for(Some(&src(1))));
    assert!(!cache.is_fresh_for(Some(&src(2))));
    assert!(!cache.is_fresh_for(None));
    assert_eq!(cache.rows(), &[10, 20]);
    cache.clear();
    assert!(cache.rows().is_empty());
    assert!(!cache.is_fresh_for(Some(&src(1))));
}
