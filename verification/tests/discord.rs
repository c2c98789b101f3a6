use parse_message::domain::discord::{api_version, page_size, API_VERSION, PAGE_SIZE};

#[test]
fn requests_use_api_v10_and_pages_of_one_hundred() {
    assert_eq!(api_version(), 10);
    assert_eq!(page_size(), 100);
    assert_eq!(API_VERSION, 10);
    assert_eq!(PAGE_SIZE, 100);
}
