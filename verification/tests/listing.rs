use caldir_provider_proton::listing::{more_pages_follow, EventListing};

fn ids(names: &[&str]) -> Vec<String> {
    names.iter().map(|n| n.to_string()).collect()
}

#[test]
fn every_kind_is_listed_over_the_whole_range() {
    let mut listing = EventListing::new(0, 1000);
    let mut kinds = Vec::new();
    while let Some(request) = listing.next_request() {
        assert_eq!((request.from, request.to, request.page), (0, 1000, 0));
        kinds.push(request.query_type);
        listing.on_page(&Vec::new(), Some(0));
    }
    assert_eq!(kinds, vec![0, 1, 2, 3]);
}

#[test]
fn pages_continue_while_more_follow_and_ids_are_handed_out_once() {
    let mut listing = EventListing::new(0, 1000);
    let fresh = listing.on_page(&ids(&["a", "b", "a"]), Some(1));
    assert_eq!(fresh, vec![0, 1]);
    let request = listing.next_request().unwrap();
    assert_eq!((request.query_type, request.page), (0, 1));
    let fresh = listing.on_page(&ids(&["b", "c"]), None);
    assert_eq!(fresh, vec![1]);
    let request = listing.next_request().unwrap();
    assert_eq!((request.query_type, request.page), (1, 0));
    let fresh = listing.on_page(&ids(&["c", "d"]), Some(0));
    assert_eq!(fresh, vec![1]);
}

#[test]
fn a_full_page_without_flag_means_more() {
    let mut listing = EventListing::new(0, 10);
    let page: Vec<String> = (0..100).map(|i| format!("id-{i}")).collect();
    assert_eq!(listing.on_page(&page, None).len(), 100);
    assert_eq!(listing.next_request().unwrap().page, 1);
}

#[test]
fn too_big_windows_are_split_in_order() {
    let mut listing = EventListing::new(100, 200);
    assert!(listing.on_window_too_big());
    let first = listing.next_request().unwrap();
    assert_eq!((first.from, first.to, first.page, first.query_type), (100, 150, 0, 0));
    listing.on_page(&Vec::new(), Some(0));
    let second = listing.next_request().unwrap();
    assert_eq!((second.from, second.to, second.query_type), (150, 200, 0));
    listing.on_page(&Vec::new(), Some(0));
    let next_kind = listing.next_request().unwrap();
    assert_eq!((next_kind.from, next_kind.to, next_kind.query_type), (100, 200, 1));
    let mut narrow = EventListing::new(100, 101);
    assert!(!narrow.on_window_too_big());
}

#[test]
fn more_pages_follow_the_flag_or_a_full_page() {
    assert!(more_pages_follow(3, Some(1)));
    assert!(!more_pages_follow(100, Some(0)));
    assert!(more_pages_follow(100, None));
    assert!(!more_pages_follow(99, None));
}
