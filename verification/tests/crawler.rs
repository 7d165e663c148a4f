use crab::crawler::{
    assess, assessed, navigate_page, Action, CrawlerState, Dispatcher, Fetched, BATCH,
};
use crab::parsers::{PageParser, PageParsers, ParsedTables};
use crab::prelude::{AppError, PageTypeId};
use crab::storage::{Page, PageStatus, Storage};

struct Stub {
    type_id: PageTypeId,
    links: Vec<(String, PageTypeId)>,
    valid: bool,
}

impl PageParser for Stub {
    fn navigate(&self, _content: &str) -> Result<Option<Vec<(String, PageTypeId)>>, String> {
        Ok(Some(self.links.clone()))
    }

    fn parse(&self, _content: &str) -> Result<Option<ParsedTables>, String> {
        Ok(None)
    }

    fn validate(&self, _content: &str) -> Result<bool, String> {
        Ok(self.valid)
    }

    fn page_type_id(&self) -> PageTypeId {
        self.type_id
    }
}

struct Lost(PageTypeId);

impl PageParser for Lost {
    fn navigate(&self, _content: &str) -> Result<Option<Vec<(String, PageTypeId)>>, String> {
        Err("lost".to_string())
    }

    fn parse(&self, _content: &str) -> Result<Option<ParsedTables>, String> {
        Ok(None)
    }

    fn page_type_id(&self) -> PageTypeId {
        self.0
    }
}

fn link(url: &str, type_id: PageTypeId) -> (String, PageTypeId) {
    (url.to_string(), type_id)
}

fn stub(links: Vec<(String, PageTypeId)>) -> PageParsers {
    PageParsers(vec![Box::new(Stub { type_id: 1, links, valid: true })])
}

fn proxy_list(items: &[&str]) -> Vec<String> {
    items.iter().map(|s| s.to_string()).collect()
}

/// Drives a crawl to its end. `respond` stands for the network: it gets the
/// page and the number of the attempt, counted from one, and says what came
/// back. Returns the pages in the order in which they were launched.
fn crawl(
    dispatcher: &mut Dispatcher,
    storage: &mut Storage,
    parsers: &PageParsers,
    navigate: bool,
    respond: &mut dyn FnMut(&Page, u32) -> Option<String>,
) -> Vec<i64> {
    let mut launched = Vec::new();
    let mut in_flight: Vec<(Page, Option<usize>)> = Vec::new();
    let mut attempts = 0;
    loop {
        match dispatcher.next_action(storage) {
            Action::Finish => break,
            Action::Launch { page, proxy } => {
                assert!(dispatcher.is_in_flight(&page));
                launched.push(page.id);
                in_flight.push((page, proxy.map(|p| p.1)));
            },
            Action::Wait => {
                // The fetch launched last ends first.
                let (page, proxy_id) = in_flight.pop().unwrap();
                attempts += 1;
                let response = respond(&page, attempts);
                let (fetched, failure) = assess(parsers, &page, response, navigate).unwrap();
                assert_eq!(failure, None);
                let valid = matches!(fetched, Fetched::Valid { .. });
                let done = dispatcher.complete(storage, proxy_id, &page, fetched);
                assert_eq!(done.success, valid);
                assert!(!dispatcher.is_in_flight(&page));
            },
        }
    }
    assert!(in_flight.is_empty());
    launched
}

#[test]
fn one_pass_with_navigation_registers_the_children() {
    let mut storage = Storage::new();
    assert_eq!(storage.register_page("http://a/", 1, 0), Ok(Some(1)));
    let parsers = stub(vec![link("http://a/1", 1), link("http://a/2", 1)]);
    let mut dispatcher = Dispatcher::new(1, &Vec::new());

    // One pass: the seed is launched and its fetch completes.
    let Action::Launch { page, proxy } = dispatcher.next_action(&storage) else {
        panic!("the seed has to be launched");
    };
    assert_eq!(page.url, "http://a/");
    assert_eq!(proxy, None);
    assert!(matches!(dispatcher.next_action(&storage), Action::Wait));
    let (fetched, failure) =
        assess(&parsers, &page, Some("<html>".to_string()), true).unwrap();
    assert_eq!(failure, None);
    let done = dispatcher.complete(&mut storage, None, &page, fetched);
    assert!(done.success);
    assert!(!done.proxy_found_dead);

    assert_eq!(storage.count_all_pages(), 3);
    let pages = storage.list_pages();
    assert_eq!(pages[0].url, "http://a/");
    assert_eq!(pages[0].status, PageStatus::Downloaded);
    assert_eq!(storage.read_page_content(1), Some(("<html>".to_string(), 1)));
    for (child, url) in [(1, "http://a/1"), (2, "http://a/2")] {
        assert_eq!(pages[child].url, url);
        assert_eq!(pages[child].status, PageStatus::NotDownloaded);
        assert_eq!(pages[child].depth, 1);
        assert_eq!(pages[child].type_id, 1);
    }
    let state = dispatcher.snapshot();
    assert_eq!(state.requests, 1);
    assert_eq!(state.successfull_requests, 1);
    assert_eq!(state.new_links_found, 2);
    assert!(state.requests_in_flight.is_empty());
}

#[test]
fn crawl_without_navigation_fetches_each_pending_page_once() {
    let mut storage = Storage::new();
    for i in 0..7 {
        storage.register_page(&format!("http://a/{i}"), 1, 0).unwrap();
    }
    storage.write_page_content(3, "done before");
    let parsers = stub(vec![link("http://a/never", 1)]);
    let mut dispatcher = Dispatcher::new(3, &Vec::new());
    let launched = crawl(&mut dispatcher, &mut storage, &parsers, false, &mut |page, _| {
        Some(format!("content of {}", page.url))
    });
    assert_eq!(launched.len(), 6);
    let state = dispatcher.snapshot();
    assert_eq!(state.requests, 6);
    assert_eq!(state.successfull_requests, 6);
    assert_eq!(state.new_links_found, 0);
    assert_eq!(storage.count_all_pages(), 7);
    assert!(storage.list_not_downloaded_pages(BATCH).is_empty());
    assert_eq!(storage.read_page_content(1), Some(("content of http://a/0".to_string(), 1)));
    assert_eq!(storage.read_page_content(3), Some(("done before".to_string(), 1)));
}

#[test]
fn failed_fetches_are_retried_until_they_succeed() {
    let mut storage = Storage::new();
    for i in 0..4 {
        storage.register_page(&format!("http://a/{i}"), 1, 0).unwrap();
    }
    let parsers = stub(Vec::new());
    let mut dispatcher = Dispatcher::new(2, &Vec::new());
    // The first five attempts fail at the transport level.
    let launched = crawl(&mut dispatcher, &mut storage, &parsers, false, &mut |_, attempt| {
        if attempt <= 5 {
            None
        } else {
            Some("ok".to_string())
        }
    });
    // One fetch for each pending page and one more for each failure.
    assert_eq!(launched.len(), 4 + 5);
    let state = dispatcher.snapshot();
    assert_eq!(state.requests, 9);
    assert_eq!(state.successfull_requests, 4);
    assert!(storage.list_not_downloaded_pages(BATCH).is_empty());
}

#[test]
fn invalid_content_is_not_stored_and_the_page_stays_pending() {
    let mut storage = Storage::new();
    storage.register_page("http://a/", 1, 0).unwrap();
    let parsers = PageParsers(vec![Box::new(Stub { type_id: 1, links: Vec::new(), valid: false })]);
    let mut dispatcher = Dispatcher::new(1, &proxy_list(&["http://proxy:1"]));
    let Action::Launch { page, proxy } = dispatcher.next_action(&storage) else {
        panic!("the seed has to be launched");
    };
    assert_eq!(proxy, Some(("http://proxy:1".to_string(), 0)));
    let (fetched, _) = assess(&parsers, &page, Some("captcha".to_string()), true).unwrap();
    assert!(matches!(fetched, Fetched::Invalid));
    let done = dispatcher.complete(&mut storage, Some(0), &page, fetched);
    assert!(!done.success);
    assert_eq!(storage.read_page(1).unwrap().status, PageStatus::NotDownloaded);
    assert_eq!(storage.read_page_content(1), None);
    let state = dispatcher.snapshot();
    assert_eq!((state.requests, state.successfull_requests), (1, 0));
    assert_eq!(state.proxies[0].1.requests, 1);
    assert_eq!(state.proxies[0].1.successfull_requests, 0);
    // The page is offered again.
    assert!(matches!(dispatcher.next_action(&storage), Action::Launch { .. }));
}

#[test]
fn proxy_is_told_of_success_and_failure() {
    let mut storage = Storage::new();
    storage.register_page("http://a/", 1, 0).unwrap();
    let parsers = stub(Vec::new());
    let mut dispatcher = Dispatcher::new(1, &proxy_list(&["http://proxy:1", ""]));
    let mut dead = Vec::new();
    for attempt in 1..=4 {
        let Action::Launch { page, proxy } = dispatcher.next_action(&storage) else {
            panic!("the page has to be launched");
        };
        let proxy_id = proxy.map(|p| p.1);
        assert_eq!(proxy_id, Some(0));
        let response = if attempt < 4 { None } else { Some("ok".to_string()) };
        let (fetched, _) = assess(&parsers, &page, response, false).unwrap();
        let done = dispatcher.complete(&mut storage, proxy_id, &page, fetched);
        assert_eq!(done.success, attempt == 4);
        dead.push(done.proxy_found_dead);
    }
    assert_eq!(dead, vec![false, true, false, false]);
    let state = dispatcher.snapshot();
    assert_eq!(state.proxies.len(), 1);
    assert_eq!(state.proxies[0].1.requests, 4);
    assert_eq!(state.proxies[0].1.successfull_requests, 1);
    assert!(!state.proxies[0].1.is_dead());
    assert!(matches!(dispatcher.next_action(&storage), Action::Finish));
}

#[test]
fn dispatch_stops_at_the_concurrency_limit_and_takes_shallow_pages_first() {
    let mut storage = Storage::new();
    storage.register_page("http://a/deep", 1, 2).unwrap();
    storage.register_page("http://a/shallow", 1, 0).unwrap();
    storage.register_page("http://a/middle", 1, 1).unwrap();
    let mut dispatcher = Dispatcher::new(2, &Vec::new());
    let Action::Launch { page: first, .. } = dispatcher.next_action(&storage) else {
        panic!("a page has to be launched");
    };
    let Action::Launch { page: second, .. } = dispatcher.next_action(&storage) else {
        panic!("a page has to be launched");
    };
    assert_eq!((first.id, second.id), (2, 3));
    assert!(matches!(dispatcher.next_action(&storage), Action::Wait));
    let state = dispatcher.snapshot();
    assert_eq!(state.requests, 2);
    assert_eq!(state.requests_in_flight, vec![first.clone(), second]);
    dispatcher.complete(&mut storage, None, &first, Fetched::Failed);
    let Action::Launch { page: third, .. } = dispatcher.next_action(&storage) else {
        panic!("a page has to be launched");
    };
    assert_eq!(third.id, 1);
}

#[test]
fn empty_store_finishes_at_once() {
    let storage = Storage::new();
    let mut dispatcher = Dispatcher::new(4, &Vec::new());
    assert!(matches!(dispatcher.next_action(&storage), Action::Finish));
    let state = dispatcher.snapshot();
    assert_eq!(state.requests, 0);
}

#[test]
fn crawl_with_navigation_follows_links_level_by_level() {
    let mut storage = Storage::new();
    storage.register_page("http://a/", 1, 0).unwrap();
    // Every page links to the same two pages, one of them itself.
    let parsers = stub(vec![link("/x", 1), link("/y", 1), link("http://a/", 1)]);
    let mut dispatcher = Dispatcher::new(2, &Vec::new());
    let launched = crawl(&mut dispatcher, &mut storage, &parsers, true, &mut |_, _| {
        Some("page".to_string())
    });
    assert_eq!(launched, vec![1, 2, 3]);
    let pages = storage.list_pages();
    let found: Vec<(&str, u16)> = pages.iter().map(|p| (p.url.as_str(), p.depth)).collect();
    assert_eq!(found, vec![("http://a/", 0), ("http://a/x", 1), ("http://a/y", 1)]);
    let state = dispatcher.snapshot();
    assert_eq!(state.requests, 3);
    assert_eq!(state.new_links_found, 2);
}

#[test]
fn navigate_page_counts_only_new_links() {
    let mut storage = Storage::new();
    storage.register_page("http://a/", 1, 4).unwrap();
    storage.register_page("http://a/known", 1, 1).unwrap();
    let page = storage.read_page(1).unwrap();
    let mut state = CrawlerState::default();
    let links = vec![
        link("http://a/new", 2),
        link("http://a/known", 1),
        link("http://a/new", 3),
        link("http://a/other", 1),
    ];
    navigate_page(&page, links, &mut storage, &mut state);
    assert_eq!(state.new_links_found, 2);
    assert_eq!(storage.count_all_pages(), 4);
    let new = storage.read_page(3).unwrap();
    assert_eq!((new.url.as_str(), new.type_id, new.depth), ("http://a/new", 2, 5));
    let other = storage.read_page(4).unwrap();
    assert_eq!((other.url.as_str(), other.depth), ("http://a/other", 5));
    assert_eq!(storage.read_page(2).unwrap().depth, 1);
    navigate_page(&page, Vec::new(), &mut storage, &mut state);
    assert_eq!(state.new_links_found, 2);
}

#[test]
fn assessment_of_a_fetch() {
    let page = Page {
        id: 1,
        url: "http://a/dir/".to_string(),
        type_id: 1,
        depth: 0,
        status: PageStatus::NotDownloaded,
    };
    let parsers = stub(vec![link("x", 1)]);
    assert!(matches!(assess(&parsers, &page, None, true), Ok((Fetched::Failed, None))));
    match assess(&parsers, &page, Some("body".to_string()), true) {
        Ok((Fetched::Valid { content, links }, None)) => {
            assert_eq!(content, "body");
            assert_eq!(links, vec![link("http://a/dir/x", 1)]);
        },
        _ => panic!("the content is valid"),
    }
    match assess(&parsers, &page, Some("body".to_string()), false) {
        Ok((Fetched::Valid { content, links }, None)) => {
            assert_eq!(content, "body");
            assert!(links.is_empty());
        },
        _ => panic!("the content is valid"),
    }
    let stranger = Page { type_id: 2, ..page.clone() };
    assert_eq!(
        assess(&parsers, &stranger, Some("body".to_string()), true).err(),
        Some(AppError::PageParserNotFound(2))
    );
    // A parser that cannot navigate found no links; the page is valid all the same.
    let lost = PageParsers(vec![Box::new(Lost(1))]);
    match assess(&lost, &page, Some("body".to_string()), true) {
        Ok((Fetched::Valid { links, .. }, failure)) => {
            assert!(links.is_empty());
            assert_eq!(failure, Some(AppError::PageParserFailed(1)));
        },
        _ => panic!("the content is valid"),
    }
}

#[test]
fn assessment_from_the_answers_of_a_parser() {
    assert!(matches!(assessed("c".to_string(), false, None), (Fetched::Invalid, None)));
    assert!(matches!(
        assessed("c".to_string(), false, Some(Ok(Some(vec![link("http://a/", 1)])))),
        (Fetched::Invalid, None)
    ));
    match assessed("c".to_string(), true, Some(Ok(Some(vec![link("http://a/", 1)])))) {
        (Fetched::Valid { content, links }, None) => {
            assert_eq!(content, "c");
            assert_eq!(links, vec![link("http://a/", 1)]);
        },
        _ => panic!("valid content with a link"),
    }
    match assessed("c".to_string(), true, Some(Err(AppError::PageParserFailed(3)))) {
        (Fetched::Valid { links, .. }, Some(AppError::PageParserFailed(3))) => {
            assert!(links.is_empty())
        },
        _ => panic!("valid content without links"),
    }
}

#[test]
fn report_is_made_from_a_state() {
    let mut state = CrawlerState::default();
    state.requests = 3;
    match crab::CrawlerReport::from(state) {
        crab::CrawlerReport::Report(state) => assert_eq!(state.requests, 3),
        crab::CrawlerReport::Finished => panic!("a state makes a report"),
    }
}

#[test]
fn dispatcher_counts_requests_and_links() {
    let mut storage = Storage::new();
    storage.register_page("http://a/", 1, 0).unwrap();
    let parsers = stub(vec![link("http://a/1", 1)]);
    let mut dispatcher = Dispatcher::new(1, &Vec::new());
    assert_eq!((dispatcher.requests(), dispatcher.new_links_found()), (0, 0));
    let Action::Launch { page, .. } = dispatcher.next_action(&storage) else {
        panic!("the seed has to be launched");
    };
    assert_eq!((dispatcher.requests(), dispatcher.new_links_found()), (1, 0));
    let (fetched, _) = assess(&parsers, &page, Some("x".to_string()), true).unwrap();
    dispatcher.complete(&mut storage, None, &page, fetched);
    assert_eq!((dispatcher.requests(), dispatcher.new_links_found()), (1, 1));
}
