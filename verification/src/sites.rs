//! Parsing rules for two sites: a database of CPU specifications and a test
//! server.

use crate::html::{
    attributes, cell_texts, cells, html_texts, inner_html, optional_texts, selected_attributes,
    selected_cells, selected_html,
};
use crate::prelude::AppError;
use crate::storage::Page;
use crate::text::{
    contains, occurs_in, starts_with, trim, trim_end_matches, trimmed, without_trailing,
};
use crate::weburl::{join, joined_url};
use vstd::prelude::*;

verus! {

/// The pages that the links `hrefs`, found on the page at `base`, lead to:
/// each link that begins with `prefix`, resolved against `base`, in the
/// order of the links. Where a link cannot be resolved, the first such link
/// is the error.
pub open spec fn resolved(base: Seq<char>, hrefs: Seq<Option<Seq<char>>>, prefix: Seq<char>) -> Result<
    Seq<Seq<char>>,
    Seq<char>,
>
    decreases hrefs.len(),
{
    if hrefs.len() == 0 {
        Ok(Seq::empty())
    } else {
        match resolved(base, hrefs.drop_last(), prefix) {
            Err(link) => Err(link),
            Ok(urls) => match hrefs.last() {
                Some(link) => if prefix.is_prefix_of(link) {
                    match joined_url(base, link) {
                        Some(url) => Ok(urls.push(url)),
                        None => Err(link),
                    }
                } else {
                    Ok(urls)
                },
                None => Ok(urls),
            },
        }
    }
}

proof fn lemma_failure_stays(
    base: Seq<char>,
    hrefs: Seq<Option<Seq<char>>>,
    prefix: Seq<char>,
    upto: int,
)
    requires
        0 <= upto <= hrefs.len(),
        resolved(base, hrefs.take(upto), prefix) is Err,
    ensures
        resolved(base, hrefs, prefix) == resolved(base, hrefs.take(upto), prefix),
    decreases hrefs.len() - upto,
{
    if upto < hrefs.len() {
        assert(hrefs.take(upto + 1).drop_last() == hrefs.take(upto));
        lemma_failure_stays(base, hrefs, prefix, upto + 1);
    } else {
        assert(hrefs.take(upto) == hrefs);
    }
}

/// Resolves the links of a page: `hrefs` holds what the `href` attribute of
/// each link gave. Links that begin with `prefix` are resolved against
/// `base_url`, the others are left out. Fails at the first link that cannot
/// be resolved.
pub fn resolve_links(base_url: &str, hrefs: Vec<Option<String>>, prefix: &str) -> (pages: Result<
    Vec<String>,
    AppError,
>)
    ensures
        match resolved(base_url@, optional_texts(hrefs@), prefix@) {
            Ok(urls) => pages matches Ok(found) && html_texts(found@) == urls,
            Err(link) => pages matches Err(AppError::InvalidUrl(text)) && text@ == link,
        },
{
    let ghost all = optional_texts(hrefs@);
    let mut links: Vec<String> = Vec::new();
    let mut i: usize = 0;
    proof {
        assert(all.take(0) =~= Seq::<Option<Seq<char>>>::empty());
        assert(html_texts(links@) =~= Seq::<Seq<char>>::empty());
    }
    while i < hrefs.len()
        invariant
            i <= hrefs@.len(),
            all == optional_texts(hrefs@),
            resolved(base_url@, all.take(i as int), prefix@) == Ok::<Seq<Seq<char>>, Seq<char>>(
                html_texts(links@),
            ),
        decreases hrefs@.len() - i,
    {
        proof {
            assert(all.take(i + 1).drop_last() == all.take(i as int));
            assert(all.take(i + 1).last() == all[i as int]);
        }
        let ghost before = html_texts(links@);
        if let Some(link) = &hrefs[i] {
            if starts_with(link.as_str(), prefix) {
                match join(base_url, link.as_str()) {
                    Ok(url) => {
                        links.push(url);
                        proof {
                            assert(html_texts(links@) =~= before.push(url@));
                        }
                    },
                    Err(_) => {
                        proof {
                            lemma_failure_stays(base_url@, all, prefix@, i + 1);
                        }
                        return Err(AppError::InvalidUrl(link.clone()));
                    },
                }
            }
        }
        i += 1;
    }
    proof {
        assert(all.take(hrefs@.len() as int) == all);
    }
    Ok(links)
}

/// The names and values that the rows of a table give: for each row with
/// both cells, the first cell without the white space around it and the
/// colons at its end, and the second cell without the white space around
/// it.
pub open spec fn labelled(rows: Seq<(Option<Seq<char>>, Option<Seq<char>>)>) -> Seq<
    (Seq<char>, Seq<char>),
>
    decreases rows.len(),
{
    if rows.len() == 0 {
        Seq::empty()
    } else {
        match rows.last() {
            (Some(key), Some(value)) => labelled(rows.drop_last()).push(
                (without_trailing(trimmed(key), ':'), trimmed(value)),
            ),
            _ => labelled(rows.drop_last()),
        }
    }
}

/// Pairs of texts as the contracts see them.
pub open spec fn value_views(values: Seq<(String, String)>) -> Seq<(Seq<char>, Seq<char>)> {
    Seq::new(values.len(), |i: int| (values[i].0@, values[i].1@))
}

/// Reads names and values off the rows of a table: `rows` holds the first
/// two cells of each row. A row that lacks a cell is left out.
pub fn label_values(rows: Vec<(Option<String>, Option<String>)>) -> (values: Vec<(String, String)>)
    ensures
        value_views(values@) == labelled(cell_texts(rows@)),
{
    let ghost all = cell_texts(rows@);
    let mut values: Vec<(String, String)> = Vec::new();
    let mut i: usize = 0;
    proof {
        assert(all.take(0) =~= Seq::<(Option<Seq<char>>, Option<Seq<char>>)>::empty());
        assert(value_views(values@) =~= Seq::<(Seq<char>, Seq<char>)>::empty());
    }
    while i < rows.len()
        invariant
            i <= rows@.len(),
            all == cell_texts(rows@),
            value_views(values@) == labelled(all.take(i as int)),
        decreases rows@.len() - i,
    {
        proof {
            assert(all.take(i + 1).drop_last() == all.take(i as int));
            assert(all.take(i + 1).last() == all[i as int]);
        }
        let ghost before = value_views(values@);
        if let Some(key) = &rows[i].0 {
            if let Some(value) = &rows[i].1 {
                let key = trim_end_matches(trim(key.as_str()), ':');
                let value = trim(value.as_str()).to_owned();
                values.push((key, value));
                proof {
                    assert(value_views(values@) =~= before.push((key@, value@)));
                }
            }
        }
        i += 1;
    }
    proof {
        assert(all.take(rows@.len() as int) == all);
    }
    values
}

/// The rules for a database of CPU specifications.
pub struct CpuDatabase;

impl CpuDatabase {
    /// The pages that `content`, found at `page`, links to: every link into
    /// the CPU specifications, resolved against the URL of the page.
    pub fn next_pages(page: &Page, content: &str) -> (pages: Result<Vec<String>, AppError>)
        ensures
            match selected_attributes(content@, "a"@, "href"@) {
                Some(hrefs) => match resolved(page.url@, hrefs, "/cpu-specs/"@) {
                    Ok(urls) => pages matches Ok(found) && html_texts(found@) == urls,
                    Err(link) => pages matches Err(AppError::InvalidUrl(text)) && text@ == link,
                },
                None => pages == Err::<Vec<String>, AppError>(AppError::InvalidSelector),
            },
    {
        match attributes(content, "a", "href") {
            Some(hrefs) => resolve_links(page.url.as_str(), hrefs, "/cpu-specs/"),
            None => Err(AppError::InvalidSelector),
        }
    }

    /// The names and values in the details table of `content`.
    pub fn kv(content: &str) -> (values: Result<Vec<(String, String)>, AppError>)
        ensures
            match selected_cells(content@, ".details table tr"@, "th"@, "td"@) {
                Some(rows) => values matches Ok(found) && value_views(found@) == labelled(rows),
                None => values == Err::<Vec<(String, String)>, AppError>(
                    AppError::InvalidSelector,
                ),
            },
    {
        match cells(content, ".details table tr", "th", "td") {
            Some(rows) => Ok(label_values(rows)),
            None => Err(AppError::InvalidSelector),
        }
    }

    /// A page is valid unless it asks for a captcha.
    pub fn validate(content: &str) -> (valid: bool)
        ensures
            valid == !occurs_in("captcha"@, content@),
    {
        !contains(content, "captcha")
    }
}

/// The rules for the pages of a test server.
pub struct TestServer;

impl TestServer {
    /// The pages that `content`, found at `page`, links to: the links of the
    /// pager, then the links of the lists, each resolved against the URL of
    /// the page.
    pub fn next_pages(page: &Page, content: &str) -> (pages: Result<Vec<String>, AppError>)
        ensures
            match selected_attributes(content@, "section.pager a"@, "href"@) {
                Some(pager) => match resolved(page.url@, pager, Seq::empty()) {
                    Ok(first) => match selected_attributes(content@, "ul a"@, "href"@) {
                        Some(lists) => match resolved(page.url@, lists, Seq::empty()) {
                            Ok(second) => pages matches Ok(found) && html_texts(found@) == first
                                + second,
                            Err(link) => pages matches Err(AppError::InvalidUrl(text)) && text@
                                == link,
                        },
                        None => pages == Err::<Vec<String>, AppError>(AppError::InvalidSelector),
                    },
                    Err(link) => pages matches Err(AppError::InvalidUrl(text)) && text@ == link,
                },
                None => pages == Err::<Vec<String>, AppError>(AppError::InvalidSelector),
            },
    {
        proof {
            reveal_strlit("");
            assert(""@ =~= Seq::<char>::empty());
        }
        let pager = match attributes(content, "section.pager a", "href") {
            Some(hrefs) => hrefs,
            None => {
                return Err(AppError::InvalidSelector);
            },
        };
        let mut links = match resolve_links(page.url.as_str(), pager, "") {
            Ok(links) => links,
            Err(e) => {
                return Err(e);
            },
        };
        let lists = match attributes(content, "ul a", "href") {
            Some(hrefs) => hrefs,
            None => {
                return Err(AppError::InvalidSelector);
            },
        };
        let mut more = match resolve_links(page.url.as_str(), lists, "") {
            Ok(links) => links,
            Err(e) => {
                return Err(e);
            },
        };
        let ghost first = html_texts(links@);
        let ghost second = html_texts(more@);
        links.append(&mut more);
        proof {
            assert(html_texts(links@) =~= first + second);
        }
        Ok(links)
    }

    /// The input and the output that `content` shows: the first element of
    /// class `input` and the first of class `output`, where both are there.
    pub fn kv(content: &str) -> (values: Result<Vec<(String, String)>, AppError>)
        ensures
            match (selected_html(content@, ".input"@), selected_html(content@, ".output"@)) {
                (Some(inputs), Some(outputs)) => values matches Ok(found) && value_views(found@)
                    == if inputs.len() > 0 && outputs.len() > 0 {
                    seq![("input"@, inputs[0]), ("output"@, outputs[0])]
                } else {
                    Seq::empty()
                },
                _ => values == Err::<Vec<(String, String)>, AppError>(AppError::InvalidSelector),
            },
    {
        let inputs = match inner_html(content, ".input") {
            Some(found) => found,
            None => {
                return Err(AppError::InvalidSelector);
            },
        };
        let outputs = match inner_html(content, ".output") {
            Some(found) => found,
            None => {
                return Err(AppError::InvalidSelector);
            },
        };
        let mut values: Vec<(String, String)> = Vec::new();
        if inputs.len() > 0 && outputs.len() > 0 {
            values.push(("input".to_owned(), inputs[0].clone()));
            values.push(("output".to_owned(), outputs[0].clone()));
            proof {
                assert(value_views(values@) =~= seq![
                    ("input"@, html_texts(inputs@)[0]),
                    ("output"@, html_texts(outputs@)[0]),
                ]);
            }
        } else {
            proof {
                assert(value_views(values@) =~= Seq::<(Seq<char>, Seq<char>)>::empty());
            }
        }
        Ok(values)
    }
}

} // verus!
