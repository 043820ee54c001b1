use caldir_provider_proton::constants::{ITEM_UID_PROPERTY, PAGE_SIZE, PROVIDER_NAME};

#[test]
fn proton_page_size_is_within_api_bounds() {
    assert!((1..=100).contains(&PAGE_SIZE));
}

#[test]
fn provider_names() {
    assert_eq!(PROVIDER_NAME, "proton");
    assert_eq!(ITEM_UID_PROPERTY, "X-PROTON-ITEM");
}

