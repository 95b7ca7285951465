use devhub::paging::{HistoryLoad, HistoryPager};

#[test]
fn first_page_sets_up_paging() {
    let mut pager = HistoryPager::new();
    assert_eq!(pager.request_more(), None);
    let generation = pager.reload();
    assert_eq!(pager.load, HistoryLoad::Loading);
    assert!(pager.take_first_page(generation, true, Ok(50), 50));
    assert_eq!(pager.load, HistoryLoad::Loaded);
    assert_eq!((pager.commits, pager.skip, pager.has_more), (50, 50, true));
    assert_eq!(pager.request_more(), Some((generation, 50)));
    assert_eq!(pager.request_more(), None);
    assert!(pager.take_further_page(generation, true, Ok(20), 50));
    assert_eq!((pager.commits, pager.skip, pager.has_more, pager.loading_more), (70, 70, false, false));
    assert_eq!(pager.request_more(), None);
}

#[test]
fn short_or_empty_first_pages_end_paging() {
    let mut pager = HistoryPager::new();
    let generation = pager.reload();
    assert!(pager.take_first_page(generation, true, Ok(0), 50));
    assert_eq!(pager.load, HistoryLoad::Empty);
    assert!(!pager.has_more);
    let generation = pager.reload();
    assert!(pager.take_first_page(generation, true, Ok(10), 50));
    assert_eq!((pager.commits, pager.skip, pager.has_more), (10, 50, false));
    let generation = pager.reload();
    assert!(pager.take_first_page(generation, true, Err("not a repository".to_string()), 50));
    assert_eq!(pager.load, HistoryLoad::Failed("not a repository".to_string()));
}

#[test]
fn stale_or_foreign_pages_are_ignored() {
    let mut pager = HistoryPager::new();
    let old = pager.reload();
    let current = pager.reload();
    assert!(!pager.take_first_page(old, true, Ok(50), 50));
    assert_eq!(pager.load, HistoryLoad::Loading);
    assert!(!pager.take_first_page(current, false, Ok(50), 50));
    assert!(pager.take_first_page(current, true, Ok(50), 50));
    assert_eq!(pager.request_more(), Some((current, 50)));
    assert!(!pager.take_further_page(old, true, Ok(50), 50));
    assert!(pager.loading_more);
    assert!(pager.take_further_page(current, true, Err("network".to_string()), 50));
    assert_eq!(pager.more_error, Some("network".to_string()));
    assert!(!pager.has_more);
}
