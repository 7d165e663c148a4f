use crab::parsers::{
    answered, create_absolute_url, create_absolute_urls, find_parser, navigated, page_parser,
    PageParser, PageParsers, ParsedTables,
};
use crab::prelude::{AppError, PageTypeId};
use crab::storage::{Page, PageStatus};
use std::collections::HashMap;

struct Fixed {
    type_id: PageTypeId,
    links: Option<Vec<(String, PageTypeId)>>,
    valid: bool,
}

impl PageParser for Fixed {
    fn navigate(&self, _content: &str) -> Result<Option<Vec<(String, PageTypeId)>>, String> {
        Ok(self.links.clone())
    }

    fn parse(&self, content: &str) -> Result<Option<ParsedTables>, String> {
        let mut row = HashMap::new();
        row.insert("content".to_string(), content.to_string());
        let mut tables = HashMap::new();
        tables.insert("page".to_string(), vec![row]);
        Ok(Some(tables))
    }

    fn validate(&self, _content: &str) -> Result<bool, String> {
        Ok(self.valid)
    }

    fn page_type_id(&self) -> PageTypeId {
        self.type_id
    }
}

struct Broken(PageTypeId);

impl PageParser for Broken {
    fn navigate(&self, _content: &str) -> Result<Option<Vec<(String, PageTypeId)>>, String> {
        Err("navigate failed".to_string())
    }

    fn parse(&self, _content: &str) -> Result<Option<ParsedTables>, String> {
        Err("parse failed".to_string())
    }

    fn validate(&self, _content: &str) -> Result<bool, String> {
        Err("validate failed".to_string())
    }

    fn page_type_id(&self) -> PageTypeId {
        self.0
    }
}

fn page(url: &str, type_id: PageTypeId) -> Page {
    Page { id: 1, url: url.to_string(), type_id, depth: 0, status: PageStatus::NotDownloaded }
}

fn link(url: &str, type_id: PageTypeId) -> (String, PageTypeId) {
    (url.to_string(), type_id)
}

fn registry() -> PageParsers {
    PageParsers(vec![
        Box::new(Fixed {
            type_id: 1,
            links: Some(vec![link("/b?x=1", 1), link("https://other.net/c", 2), link("d", 1)]),
            valid: true,
        }),
        Box::new(Fixed { type_id: 2, links: None, valid: false }),
        Box::new(Broken(3)),
        Box::new(Fixed { type_id: 2, links: Some(vec![]), valid: true }),
    ])
}

#[test]
fn parser_is_found_by_type_first_match_wins() {
    let parsers = registry();
    assert_eq!(page_parser(&parsers.0, 1), Ok(0));
    assert_eq!(page_parser(&parsers.0, 2), Ok(1));
    assert_eq!(page_parser(&parsers.0, 3), Ok(2));
    assert_eq!(page_parser(&parsers.0, 4), Err(AppError::PageParserNotFound(4)));
    assert_eq!(page_parser(&Vec::new(), 1), Err(AppError::PageParserNotFound(1)));
}

#[test]
fn parser_is_picked_from_the_types_named() {
    assert_eq!(find_parser(&vec![5, 7, 5, 9], 5), Ok(0));
    assert_eq!(find_parser(&vec![5, 7, 5, 9], 7), Ok(1));
    assert_eq!(find_parser(&vec![5, 7, 5, 9], 9), Ok(3));
    assert_eq!(find_parser(&vec![5, 7, 5, 9], 0), Err(AppError::PageParserNotFound(0)));
    assert_eq!(find_parser(&vec![], 5), Err(AppError::PageParserNotFound(5)));
}

struct Lenient;

impl PageParser for Lenient {
    fn navigate(&self, _content: &str) -> Result<Option<Vec<(String, PageTypeId)>>, String> {
        Ok(None)
    }

    fn parse(&self, _content: &str) -> Result<Option<ParsedTables>, String> {
        Ok(None)
    }

    fn page_type_id(&self) -> PageTypeId {
        8
    }
}

#[test]
fn parser_without_validation_finds_every_content_valid() {
    let parsers = PageParsers(vec![Box::new(Lenient)]);
    assert_eq!(parsers.validate(8, ""), Ok(true));
    assert_eq!(parsers.validate(8, "captcha"), Ok(true));
    assert_eq!(parsers.parse(8, "x").unwrap(), None);
}

#[test]
fn missing_parser_fails_every_operation() {
    let parsers = registry();
    assert_eq!(parsers.validate(9, "x"), Err(AppError::PageParserNotFound(9)));
    assert_eq!(parsers.parse(9, "x").err(), Some(AppError::PageParserNotFound(9)));
    assert_eq!(
        parsers.navigate(&page("http://a/", 9), "x"),
        Err(AppError::PageParserNotFound(9))
    );
}

#[test]
fn failing_parser_is_reported_with_its_type() {
    let parsers = registry();
    assert_eq!(parsers.validate(3, "x"), Err(AppError::PageParserFailed(3)));
    assert_eq!(parsers.parse(3, "x").err(), Some(AppError::PageParserFailed(3)));
    assert_eq!(parsers.navigate(&page("http://a/", 3), "x"), Err(AppError::PageParserFailed(3)));
}

#[test]
fn validate_and_parse_pass_the_answer_on() {
    let parsers = registry();
    assert_eq!(parsers.validate(1, "x"), Ok(true));
    assert_eq!(parsers.validate(2, "x"), Ok(false));
    let tables = parsers.parse(1, "body").unwrap().unwrap();
    assert_eq!(tables["page"][0]["content"], "body");
}

#[test]
fn navigate_makes_links_absolute() {
    let parsers = registry();
    assert_eq!(
        parsers.navigate(&page("http://a.org/dir/page", 1), "x"),
        Ok(Some(vec![
            link("http://a.org/b?x=1", 1),
            link("https://other.net/c", 2),
            link("http://a.org/dir/d", 1),
        ]))
    );
    assert_eq!(parsers.navigate(&page("http://a.org/", 2), "x"), Ok(None));
}

#[test]
fn absolute_url_of_one_link() {
    assert_eq!(
        create_absolute_url(link("http://b.org", 4), "http://a.org/x/y"),
        Some(link("http://b.org/", 4))
    );
    assert_eq!(
        create_absolute_url(link("https://b.org/z", 4), "http://a.org/x/y"),
        Some(link("https://b.org/z", 4))
    );
    assert_eq!(
        create_absolute_url(link("../z", 5), "http://a.org/x/y"),
        Some(link("http://a.org/z", 5))
    );
    assert_eq!(
        create_absolute_url(link("//c.org/z", 5), "https://a.org/x/y"),
        Some(link("https://c.org/z", 5))
    );
    // An absolute link stands by itself, whatever the page it was found on.
    assert_eq!(
        create_absolute_url(link("http://b.org", 4), "not a url"),
        Some(link("http://b.org/", 4))
    );
    // An absolute link that does not parse is dropped, not resolved.
    assert_eq!(create_absolute_url(link("http://", 5), "http://a.org/"), None);
    // Nothing can be resolved against a base that is no URL.
    assert_eq!(create_absolute_url(link("z", 5), "not a url"), None);
    assert_eq!(create_absolute_url(link("http://[", 5), "http://a.org/"), None);
}

#[test]
fn absolute_urls_keep_order_and_drop_failures() {
    let links = vec![link("a", 1), link("https://", 2), link("http://c.org/x", 3), link("/d", 4)];
    assert_eq!(
        create_absolute_urls(links, "http://a.org/dir/"),
        vec![link("http://a.org/dir/a", 1), link("http://c.org/x", 3), link("http://a.org/d", 4)]
    );
    assert_eq!(create_absolute_urls(Vec::new(), "http://a.org/"), Vec::new());
}

#[test]
fn answers_of_a_parser_as_the_crawler_takes_them() {
    assert_eq!(answered(7, Ok::<bool, String>(true)), Ok(true));
    assert_eq!(answered(7, Err::<bool, String>("no".to_string())), Err(AppError::PageParserFailed(7)));
    assert_eq!(navigated(7, "http://a.org/", Ok(None)), Ok(None));
    assert_eq!(
        navigated(7, "http://a.org/", Ok(Some(vec![link("x", 1)]))),
        Ok(Some(vec![link("http://a.org/x", 1)]))
    );
    assert_eq!(
        navigated(7, "http://a.org/", Err("no".to_string())),
        Err(AppError::PageParserFailed(7))
    );
}
