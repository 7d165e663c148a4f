use crab::prelude::AppError;
use crab::storage::{new_row_id, page_from_tuple, Page, PageStatus, Storage};

#[test]
fn count_number_of_pages_in_database() {
    let storage = Storage::new();
    assert_eq!(0, storage.count_all_pages());
}

#[test]
fn write_and_read_pages_to_database() {
    let mut storage = Storage::new();

    let type_id = 1;
    let url = "http://test.com";
    let new_id = storage.register_page(url, type_id, 0).unwrap();
    assert_eq!(new_id, Some(1));

    let pages = storage.list_not_downloaded_pages(10);

    let expected_page = Page {
        id: new_id.unwrap(),
        url: "http://test.com/".to_string(),
        type_id,
        depth: 0,
        status: PageStatus::NotDownloaded,
    };
    assert_eq!(pages.len(), 1);
    assert_eq!(pages[0], expected_page);
}

#[test]
fn read_downloaded_pages() {
    let mut storage = Storage::new();

    let url = "http://test.com";
    let expected_content = "<html>";
    let new_id = storage.register_page(url, 1, 0).unwrap().unwrap();
    storage.write_page_content(new_id, expected_content);

    let pages = storage.read_downloaded_pages();
    let Some((page, content)) = pages.first() else {
        panic!("No pages found");
    };
    assert_eq!(page.id, new_id);
    assert_eq!(content, expected_content);
}

#[test]
fn page_should_be_registered_only_once() {
    let mut storage = Storage::new();

    let page_id = storage.register_page("http://test.com", 1, 0).unwrap();
    assert_eq!(page_id, Some(1));

    let page_id = storage.register_page("http://test.com", 1, 0).unwrap();
    assert_eq!(page_id, None);

    let page_id = storage.register_page("http://test.com", 1, 0).unwrap();
    assert_eq!(page_id, None);

    assert_eq!(storage.count_all_pages(), 1);
}

#[test]
fn write_and_read_page_content() {
    let mut storage = Storage::new();

    let expected_type_id = 1;
    let expected_html = "<html />";

    let page_id = storage.register_page("http://test.com", expected_type_id, 0).unwrap().unwrap();

    storage.write_page_content(page_id, expected_html);

    let (html, type_id) = storage.read_page_content(page_id).unwrap();
    assert_eq!(html, expected_html);
    assert_eq!(type_id, expected_type_id);

    let page = storage.read_page(page_id).unwrap();
    assert_eq!(page.status, PageStatus::Downloaded);
}

#[test]
fn register_refuses_malformed_url() {
    let mut storage = Storage::new();
    assert_eq!(
        storage.register_page("not a url", 1, 0),
        Err(AppError::InvalidUrl("not a url".to_string()))
    );
    assert_eq!(storage.register_page("/relative/path", 1, 0).is_err(), true);
    assert_eq!(storage.count_all_pages(), 0);
    assert!(storage.list_pages().is_empty());
}

#[test]
fn register_keeps_url_in_written_out_form() {
    let mut storage = Storage::new();
    assert_eq!(storage.register_page("HTTP://Example.COM/a/../b?x=1", 2, 3), Ok(Some(1)));
    let page = storage.read_page(1).unwrap();
    assert_eq!(page.url, "http://example.com/b?x=1");
    assert_eq!(page.type_id, 2);
    assert_eq!(page.depth, 3);
    // The same page under another spelling is known already.
    assert_eq!(storage.register_page("http://example.com/b?x=1", 5, 9), Ok(None));
    assert!(storage.contains_url("http://example.com/b?x=1"));
    assert!(!storage.contains_url("HTTP://Example.COM/a/../b?x=1"));
    let page = storage.read_page(1).unwrap();
    assert_eq!((page.type_id, page.depth), (2, 3));
}

#[test]
fn register_url_numbers_pages_from_one() {
    let mut storage = Storage::new();
    assert_eq!(storage.register_url("http://a/".to_string(), 1, 0), Some(1));
    assert_eq!(storage.register_url("http://b/".to_string(), 1, 0), Some(2));
    assert_eq!(storage.register_url("http://a/".to_string(), 1, 0), None);
    assert_eq!(storage.register_url("http://c/".to_string(), 1, 0), Some(3));
    assert_eq!(storage.count_all_pages(), 3);
    let ids: Vec<i64> = storage.list_pages().iter().map(|p| p.id).collect();
    assert_eq!(ids, vec![1, 2, 3]);
}

#[test]
fn pending_pages_come_shallowest_first() {
    let mut storage = Storage::new();
    storage.register_url("http://a/3".to_string(), 1, 3); // 1
    storage.register_url("http://a/1".to_string(), 1, 1); // 2
    storage.register_url("http://a/0".to_string(), 1, 0); // 3
    storage.register_url("http://a/1b".to_string(), 1, 1); // 4
    storage.register_url("http://a/2".to_string(), 1, 2); // 5
    let ids = |pages: Vec<Page>| pages.iter().map(|p| p.id).collect::<Vec<i64>>();
    assert_eq!(ids(storage.list_not_downloaded_pages(10)), vec![3, 2, 4, 5, 1]);
    assert_eq!(ids(storage.list_not_downloaded_pages(5)), vec![3, 2, 4, 5, 1]);
    assert_eq!(ids(storage.list_not_downloaded_pages(3)), vec![3, 2, 4]);
    assert_eq!(ids(storage.list_not_downloaded_pages(1)), vec![3]);
    assert_eq!(ids(storage.list_not_downloaded_pages(0)), Vec::<i64>::new());
    storage.write_page_content(2, "x");
    storage.write_page_content(3, "y");
    assert_eq!(ids(storage.list_not_downloaded_pages(2)), vec![4, 5]);
    assert_eq!(ids(storage.list_not_downloaded_pages(100)), vec![4, 5, 1]);
}

#[test]
fn content_write_is_idempotent_and_latest_wins() {
    let mut storage = Storage::new();
    storage.register_page("http://a/", 4, 0).unwrap();
    storage.write_page_content(1, "first");
    storage.write_page_content(1, "second");
    assert_eq!(storage.read_page(1).unwrap().status, PageStatus::Downloaded);
    assert_eq!(storage.read_page_content(1), Some(("second".to_string(), 4)));
    storage.write_page_content(1, "second");
    assert_eq!(storage.read_page_content(1), Some(("second".to_string(), 4)));
    assert_eq!(storage.read_downloaded_pages().len(), 1);
}

#[test]
fn reset_requeues_and_keeps_content() {
    let mut storage = Storage::new();
    storage.register_page("http://a/", 1, 0).unwrap();
    storage.write_page_content(1, "body");
    assert!(storage.list_not_downloaded_pages(10).is_empty());
    storage.reset_page(1);
    assert_eq!(storage.read_page(1).unwrap().status, PageStatus::NotDownloaded);
    assert_eq!(storage.read_page_content(1), Some(("body".to_string(), 1)));
    assert_eq!(storage.list_not_downloaded_pages(10).len(), 1);
    // A page that was reset is not among the downloaded ones.
    assert!(storage.read_downloaded_pages().is_empty());
}

#[test]
fn operations_on_unknown_pages_change_nothing() {
    let mut storage = Storage::new();
    storage.register_page("http://a/", 1, 0).unwrap();
    for id in [0, -1, 2, i64::MAX, i64::MIN] {
        storage.write_page_content(id, "x");
        storage.reset_page(id);
        assert_eq!(storage.read_page(id), None);
        assert_eq!(storage.read_page_content(id), None);
    }
    assert_eq!(storage.read_page(1).unwrap().status, PageStatus::NotDownloaded);
    assert_eq!(storage.read_page_content(1), None);
    assert!(storage.read_downloaded_pages().is_empty());
}

#[test]
fn page_status_numbers_and_labels() {
    assert_eq!(PageStatus::NotDownloaded.int_value(), 1);
    assert_eq!(PageStatus::Downloaded.int_value(), 2);
    assert_eq!(PageStatus::from_int(1), Ok(PageStatus::NotDownloaded));
    assert_eq!(PageStatus::from_int(2), Ok(PageStatus::Downloaded));
    assert_eq!(PageStatus::from_int(0), Err(AppError::InvalidPageStatus(0)));
    assert_eq!(PageStatus::from_int(3), Err(AppError::InvalidPageStatus(3)));
    assert_eq!(PageStatus::NotDownloaded.label(), "not downloaded");
    assert_eq!(PageStatus::Downloaded.label(), "downloaded");
}

#[test]
fn page_from_tuple_checks_url_and_status() {
    let page = page_from_tuple((7, "http://test.com".to_string(), 3, 2, 2)).unwrap();
    assert_eq!(
        page,
        Page {
            id: 7,
            url: "http://test.com/".to_string(),
            type_id: 3,
            depth: 2,
            status: PageStatus::Downloaded,
        }
    );
    assert_eq!(
        page_from_tuple((7, "nonsense".to_string(), 3, 2, 2)),
        Err(AppError::InvalidUrl("nonsense".to_string()))
    );
    assert_eq!(
        page_from_tuple((7, "http://test.com".to_string(), 3, 2, 9)),
        Err(AppError::InvalidPageStatus(9))
    );
}

#[test]
fn page_clone_and_comparison() {
    let page = Page {
        id: 1,
        url: "http://a/".to_string(),
        type_id: 1,
        depth: 0,
        status: PageStatus::NotDownloaded,
    };
    let copy = page.clone();
    assert_eq!(copy, page);
    assert!(page.same_as(&copy));
    let other = Page { depth: 1, ..page.clone() };
    assert!(!page.same_as(&other));
    let other = Page { url: "http://b/".to_string(), ..page.clone() };
    assert!(!page.same_as(&other));
}

#[test]
fn new_row_id_tells_inserts_from_skipped_ones() {
    assert_eq!(new_row_id(0, 1), Some(1));
    assert_eq!(new_row_id(1, 1), None);
    assert_eq!(new_row_id(1, 2), Some(2));
    assert_eq!(new_row_id(0, 0), None);
    assert_eq!(new_row_id(5, 0), None);
    assert_eq!(new_row_id(5, -1), None);
}

#[test]
fn stored_pages_are_put_back_in_order() {
    let page = |id: i64, url: &str, status: PageStatus| Page {
        id,
        url: url.to_string(),
        type_id: 1,
        depth: 2,
        status,
    };
    let mut storage = Storage::new();
    // The first page has to carry the id 1.
    assert!(!storage.restore_page(page(2, "http://a/", PageStatus::NotDownloaded), None));
    assert!(!storage.restore_page(page(0, "http://a/", PageStatus::NotDownloaded), None));
    assert!(storage.restore_page(page(1, "http://a/", PageStatus::NotDownloaded), None));
    // A downloaded page comes with its content.
    assert!(!storage.restore_page(page(2, "http://b/", PageStatus::Downloaded), None));
    assert!(storage.restore_page(
        page(2, "http://b/", PageStatus::Downloaded),
        Some("body".to_string())
    ));
    // A page that was reset keeps what was stored for it.
    assert!(storage.restore_page(
        page(3, "http://c/", PageStatus::NotDownloaded),
        Some("old".to_string())
    ));
    // No URL twice, no id twice.
    assert!(!storage.restore_page(page(4, "http://a/", PageStatus::NotDownloaded), None));
    assert!(!storage.restore_page(page(3, "http://d/", PageStatus::NotDownloaded), None));
    assert_eq!(storage.count_all_pages(), 3);
    assert_eq!(storage.read_page(2), Some(page(2, "http://b/", PageStatus::Downloaded)));
    assert_eq!(storage.read_page_content(2), Some(("body".to_string(), 1)));
    assert_eq!(storage.read_page_content(3), Some(("old".to_string(), 1)));
    let pending: Vec<i64> = storage.list_not_downloaded_pages(10).iter().map(|p| p.id).collect();
    assert_eq!(pending, vec![1, 3]);
    assert_eq!(storage.register_page("http://d/", 1, 0), Ok(Some(4)));
}
