//! The contract through which the crawler consults page parsers.
//!
//! A parser handles the pages of one type. It can tell whether a content is
//! valid, which links lead on from it, and which data it holds. The crawler
//! looks a parser up by the type of a page and knows nothing else of it.

use crate::prelude::{AppError, PageTypeId};
use crate::storage::Page;
use crate::text::starts_with;
use crate::weburl::{join, joined_url, parse, parsed_url};
use std::collections::HashMap;
use vstd::prelude::*;

verus! {

/// The rows that a parser found for one table, each a map from column to
/// value.
pub type ParsedTable = Vec<HashMap<String, String>>;

/// What a parser found in a page, by the name of the table.
pub type ParsedTables = HashMap<String, ParsedTable>;

/// Base type allowing a user to provide parsing rules.
///
/// A method that fails reports why in words.
pub trait PageParser {
    /// Parses the next pages referenced in the content. `None` where the
    /// parser does not navigate.
    fn navigate(&self, content: &str) -> Result<Option<Vec<(String, PageTypeId)>>, String>;

    /// Returns the parsed key-value pairs for the page. `None` where the
    /// parser extracts nothing.
    fn parse(&self, content: &str) -> Result<Option<ParsedTables>, String>;

    /// Validates page content.
    ///
    /// Content that is not valid is not stored, and the page is requested
    /// again. A parser without validation of its own finds all content valid.
    fn validate(&self, _content: &str) -> (valid: Result<bool, String>)
        default_ensures
            valid == Ok::<bool, String>(true),
    {
        Ok(true)
    }

    /// The type of the pages that this parser handles.
    fn page_type_id(&self) -> PageTypeId;
}

/// The parsers of a crawl, looked up by the type of a page.
pub struct PageParsers(pub Vec<Box<dyn PageParser>>);

/// The place of the first of `type_ids` that equals `type_id`.
pub open spec fn first_of(type_ids: Seq<PageTypeId>, type_id: PageTypeId) -> Option<int>
    decreases type_ids.len(),
{
    if type_ids.len() == 0 {
        None
    } else if first_of(type_ids.drop_last(), type_id) is Some {
        first_of(type_ids.drop_last(), type_id)
    } else if type_ids.last() == type_id {
        Some(type_ids.len() - 1)
    } else {
        None
    }
}

/// `first_of` finds the first place that holds the type, and none only where
/// no place holds it.
pub proof fn lemma_first_of(type_ids: Seq<PageTypeId>, type_id: PageTypeId)
    ensures
        match first_of(type_ids, type_id) {
            Some(at) => {
                &&& 0 <= at < type_ids.len()
                &&& type_ids[at] == type_id
                &&& forall|i: int| 0 <= i < at ==> type_ids[i] != type_id
            },
            None => forall|i: int| 0 <= i < type_ids.len() ==> type_ids[i] != type_id,
        },
    decreases type_ids.len(),
{
    if type_ids.len() > 0 {
        let front = type_ids.drop_last();
        lemma_first_of(front, type_id);
        match first_of(front, type_id) {
            Some(at) => {
                assert(front[at] == type_ids[at]);
                assert forall|i: int| 0 <= i < at implies type_ids[i] != type_id by {
                    assert(front[i] == type_ids[i]);
                }
            },
            None => {
                assert forall|i: int| 0 <= i < front.len() implies type_ids[i] != type_id by {
                    assert(front[i] == type_ids[i]);
                }
            },
        }
    }
}

/// Picks the parser for pages of type `type_id` from the types that the
/// parsers said they handle, each at the place of its parser: the first
/// parser of that type. Fails where there is none.
pub fn find_parser(type_ids: &Vec<PageTypeId>, type_id: PageTypeId) -> (found: Result<
    usize,
    AppError,
>)
    ensures
        match found {
            Ok(at) => first_of(type_ids@, type_id) == Some(at as int) && at < type_ids@.len(),
            Err(e) => first_of(type_ids@, type_id) is None && e == AppError::PageParserNotFound(
                type_id,
            ),
        },
{
    let mut i: usize = 0;
    while i < type_ids.len()
        invariant
            i <= type_ids.len(),
            first_of(type_ids@.take(i as int), type_id) is None,
        decreases type_ids.len() - i,
    {
        proof {
            assert(type_ids@.take(i + 1).drop_last() == type_ids@.take(i as int));
            assert(type_ids@.take(i + 1).last() == type_ids@[i as int]);
        }
        if type_ids[i] == type_id {
            proof {
                lemma_found_stays(type_ids@, i + 1, type_id);
            }
            return Ok(i);
        }
        i += 1;
    }
    proof {
        assert(type_ids@.take(type_ids.len() as int) == type_ids@);
    }
    Err(AppError::PageParserNotFound(type_id))
}

proof fn lemma_found_stays(type_ids: Seq<PageTypeId>, upto: int, type_id: PageTypeId)
    requires
        0 <= upto <= type_ids.len(),
        first_of(type_ids.take(upto), type_id) is Some,
    ensures
        first_of(type_ids, type_id) == first_of(type_ids.take(upto), type_id),
    decreases type_ids.len() - upto,
{
    if upto < type_ids.len() {
        assert(type_ids.take(upto + 1).drop_last() == type_ids.take(upto));
        lemma_found_stays(type_ids, upto + 1, type_id);
    } else {
        assert(type_ids.take(upto) == type_ids);
    }
}

/// Finds the parser for pages of type `type_id`: asks each parser for the
/// type it handles and picks the first that names this one. Fails where no
/// parser does.
pub fn page_parser(parsers: &Vec<Box<dyn PageParser>>, type_id: PageTypeId) -> (found: Result<
    usize,
    AppError,
>)
    ensures
        match found {
            Ok(at) => at < parsers@.len(),
            Err(e) => e == AppError::PageParserNotFound(type_id),
        },
{
    let mut type_ids: Vec<PageTypeId> = Vec::new();
    let mut i: usize = 0;
    while i < parsers.len()
        invariant
            i <= parsers.len(),
            type_ids@.len() == i,
        decreases parsers.len() - i,
    {
        type_ids.push(parsers[i].page_type_id());
        i += 1;
    }
    find_parser(&type_ids, type_id)
}

/// A link as the contracts see it: the text of the URL and the type of the
/// page behind it.
pub type LinkView = (Seq<char>, PageTypeId);

/// A list of links as the contracts see it.
pub open spec fn link_views(links: Seq<(String, PageTypeId)>) -> Seq<LinkView> {
    Seq::new(links.len(), |i: int| (links[i].0@, links[i].1))
}

/// The absolute URL that a link on the page at `base` stands for. A link
/// that begins with `http://` or `https://` is taken by itself, any other is
/// resolved against `base`. `None` where that gives no URL.
pub open spec fn absolute_url(base: Seq<char>, link: Seq<char>) -> Option<Seq<char>> {
    if "http://"@.is_prefix_of(link) || "https://"@.is_prefix_of(link) {
        parsed_url(link)
    } else {
        joined_url(base, link)
    }
}

/// The links of a page at `base` made absolute, in their order; those that
/// give no URL are left out.
pub open spec fn absolute_links(base: Seq<char>, links: Seq<LinkView>) -> Seq<LinkView>
    decreases links.len(),
{
    if links.len() == 0 {
        Seq::empty()
    } else {
        match absolute_url(base, links.last().0) {
            Some(url) => absolute_links(base, links.drop_last()).push((url, links.last().1)),
            None => absolute_links(base, links.drop_last()),
        }
    }
}

/// Makes the link `item`, found on the page at `base_url`, absolute. `None`
/// where the link gives no URL.
pub fn create_absolute_url(item: (String, PageTypeId), base_url: &str) -> (link: Option<
    (String, PageTypeId),
>)
    ensures
        match link {
            Some((url, type_id)) => absolute_url(base_url@, item.0@) == Some(url@) && type_id
                == item.1,
            None => absolute_url(base_url@, item.0@) is None,
        },
{
    let (url, type_id) = item;
    let absolute_url = if starts_with(url.as_str(), "http://") || starts_with(
        url.as_str(),
        "https://",
    ) {
        parse(url.as_str())
    } else {
        join(base_url, url.as_str())
    };
    match absolute_url {
        Ok(url) => Some((url, type_id)),
        Err(_) => None,
    }
}

/// Makes the links found on the page at `base_url` absolute. Links that give
/// no URL are left out.
pub fn create_absolute_urls(input: Vec<(String, PageTypeId)>, base_url: &str) -> (links: Vec<
    (String, PageTypeId),
>)
    ensures
        link_views(links@) == absolute_links(base_url@, link_views(input@)),
{
    let mut links: Vec<(String, PageTypeId)> = Vec::new();
    let ghost all = link_views(input@);
    let mut i: usize = 0;
    while i < input.len()
        invariant
            i <= input.len(),
            all == link_views(input@),
            link_views(links@) == absolute_links(base_url@, all.take(i as int)),
        decreases input.len() - i,
    {
        proof {
            assert(all.take(i + 1).drop_last() == all.take(i as int));
            assert(all.take(i + 1).last() == all[i as int]);
        }
        let ghost before = link_views(links@);
        let item = (input[i].0.clone(), input[i].1);
        match create_absolute_url(item, base_url) {
            Some(link) => {
                links.push(link);
                proof {
                    assert(link_views(links@) =~= before.push((link.0@, link.1)));
                }
            },
            None => {},
        }
        i += 1;
    }
    proof {
        assert(all.take(input.len() as int) == all);
    }
    links
}

/// What the crawler makes of a parser's answer to `navigate`, for a page of
/// type `type_id` at `base_url`: the links made absolute, or the failure of
/// the parser.
pub fn navigated(
    type_id: PageTypeId,
    base_url: &str,
    answer: Result<Option<Vec<(String, PageTypeId)>>, String>,
) -> (links: Result<Option<Vec<(String, PageTypeId)>>, AppError>)
    ensures
        match answer {
            Ok(Some(found)) => links matches Ok(Some(absolute)) && link_views(absolute@)
                == absolute_links(base_url@, link_views(found@)),
            Ok(None) => links matches Ok(None),
            Err(_) => links == Err::<Option<Vec<(String, PageTypeId)>>, AppError>(
                AppError::PageParserFailed(type_id),
            ),
        },
{
    match answer {
        Ok(Some(found)) => Ok(Some(create_absolute_urls(found, base_url))),
        Ok(None) => Ok(None),
        Err(_) => Err(AppError::PageParserFailed(type_id)),
    }
}

/// What the crawler makes of a parser's answer to `validate` or `parse`, for
/// a page of type `type_id`: the answer itself, or the failure of the parser.
pub fn answered<T>(type_id: PageTypeId, answer: Result<T, String>) -> (outcome: Result<T, AppError>)
    ensures
        match answer {
            Ok(value) => outcome == Ok::<T, AppError>(value),
            Err(_) => outcome == Err::<T, AppError>(AppError::PageParserFailed(type_id)),
        },
{
    match answer {
        Ok(value) => Ok(value),
        Err(_) => Err(AppError::PageParserFailed(type_id)),
    }
}

impl PageParsers {
    /// Asks the parser of the page for the links that lead on from `content`
    /// and makes them absolute against the URL of the page.
    ///
    /// Fails where no parser handles the type of the page, or where the
    /// parser fails. `None` where the parser does not navigate.
    pub fn navigate(&self, page: &Page, content: &str) -> (links: Result<
        Option<Vec<(String, PageTypeId)>>,
        AppError,
    >)
        ensures
            links matches Err(e) ==> e == AppError::PageParserNotFound(page.type_id) || e
                == AppError::PageParserFailed(page.type_id),
            self.0@.len() == 0 ==> links == Err::<Option<Vec<(String, PageTypeId)>>, AppError>(
                AppError::PageParserNotFound(page.type_id),
            ),
    {
        let at = match page_parser(&self.0, page.type_id) {
            Ok(at) => at,
            Err(e) => {
                return Err(e);
            },
        };
        let answer = self.0[at].navigate(content);
        navigated(page.type_id, page.url.as_str(), answer)
    }

    /// Returns the parsed key-value pairs for a page of type `type_id`.
    ///
    /// Fails where no parser handles the type, or where the parser fails.
    pub fn parse(&self, type_id: PageTypeId, content: &str) -> (tables: Result<
        Option<ParsedTables>,
        AppError,
    >)
        ensures
            tables matches Err(e) ==> e == AppError::PageParserNotFound(type_id) || e
                == AppError::PageParserFailed(type_id),
            self.0@.len() == 0 ==> tables == Err::<Option<ParsedTables>, AppError>(
                AppError::PageParserNotFound(type_id),
            ),
    {
        let at = match page_parser(&self.0, type_id) {
            Ok(at) => at,
            Err(e) => {
                return Err(e);
            },
        };
        let answer = self.0[at].parse(content);
        answered(type_id, answer)
    }

    /// Validates page content.
    ///
    /// If a page is not valid its content will not be written to storage and
    /// the crawler will repeat the request to the page. Fails where no parser
    /// handles the type, or where the parser fails.
    pub fn validate(&self, type_id: PageTypeId, content: &str) -> (valid: Result<bool, AppError>)
        ensures
            valid matches Err(e) ==> e == AppError::PageParserNotFound(type_id) || e
                == AppError::PageParserFailed(type_id),
            self.0@.len() == 0 ==> valid == Err::<bool, AppError>(
                AppError::PageParserNotFound(type_id),
            ),
    {
        let at = match page_parser(&self.0, type_id) {
            Ok(at) => at,
            Err(e) => {
                return Err(e);
            },
        };
        let answer = self.0[at].validate(content);
        answered(type_id, answer)
    }
}

} // verus!
