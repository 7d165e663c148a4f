//! What parsing rules read out of an HTML document.
//!
//! Parsing and CSS selection are left to the `scraper` crate. What it finds
//! is named here and handed on as plain texts.

use vstd::prelude::*;

verus! {

/// What the attribute `name` holds on each element that `selector` selects
/// in the document `content`, in the order of the document; `None` for an
/// element without the attribute. `None` in all where `selector` is no CSS
/// selector.
pub uninterp spec fn selected_attributes(
    content: Seq<char>,
    selector: Seq<char>,
    name: Seq<char>,
) -> Option<Seq<Option<Seq<char>>>>;

/// The inner HTML of each element that `selector` selects in the document
/// `content`, in the order of the document. `None` where `selector` is no
/// CSS selector.
pub uninterp spec fn selected_html(content: Seq<char>, selector: Seq<char>) -> Option<
    Seq<Seq<char>>,
>;

/// For each element that `rows` selects in the document `content`, the inner
/// HTML of the first element below it that `first` selects and of the first
/// that `second` selects. `None` where one of the three is no CSS selector.
pub uninterp spec fn selected_cells(
    content: Seq<char>,
    rows: Seq<char>,
    first: Seq<char>,
    second: Seq<char>,
) -> Option<Seq<(Option<Seq<char>>, Option<Seq<char>>)>>;

/// The optional texts of a list as the contracts see them.
pub open spec fn optional_texts(items: Seq<Option<String>>) -> Seq<Option<Seq<char>>> {
    Seq::new(
        items.len(),
        |i: int|
            match items[i] {
                Some(text) => Some(text@),
                None => None,
            },
    )
}

/// The texts of a list as the contracts see them.
pub open spec fn html_texts(items: Seq<String>) -> Seq<Seq<char>> {
    Seq::new(items.len(), |i: int| items[i]@)
}

/// Pairs of optional texts as the contracts see them.
pub open spec fn cell_texts(items: Seq<(Option<String>, Option<String>)>) -> Seq<
    (Option<Seq<char>>, Option<Seq<char>>),
> {
    Seq::new(
        items.len(),
        |i: int|
            (
                match items[i].0 {
                    Some(text) => Some(text@),
                    None => None,
                },
                match items[i].1 {
                    Some(text) => Some(text@),
                    None => None,
                },
            ),
    )
}

/// `Html::select` of scraper on the document that `Html::parse_document`
/// makes of `content`, with the selector that `Selector::parse` makes of
/// `selector`, and `Element::attr` on each element found. The result is the
/// named value `selected_attributes` of the inputs.
#[verifier::external_body]
pub(crate) fn attributes(content: &str, selector: &str, name: &str) -> (found: Option<
    Vec<Option<String>>,
>)
    ensures
        found matches Some(values) ==> selected_attributes(content@, selector@, name@) == Some(
            optional_texts(values@),
        ),
        found is None ==> selected_attributes(content@, selector@, name@) is None,
{
    let selector = scraper::Selector::parse(selector).ok()?;
    let document = scraper::Html::parse_document(content);
    Some(document.select(&selector).map(|e| e.value().attr(name).map(String::from)).collect())
}

/// `Html::select` of scraper on the document that `Html::parse_document`
/// makes of `content`, with the selector that `Selector::parse` makes of
/// `selector`, and `ElementRef::inner_html` on each element found. The
/// result is the named value `selected_html` of the inputs.
#[verifier::external_body]
pub(crate) fn inner_html(content: &str, selector: &str) -> (found: Option<Vec<String>>)
    ensures
        found matches Some(values) ==> selected_html(content@, selector@) == Some(
            html_texts(values@),
        ),
        found is None ==> selected_html(content@, selector@) is None,
{
    let selector = scraper::Selector::parse(selector).ok()?;
    let document = scraper::Html::parse_document(content);
    Some(document.select(&selector).map(|e| e.inner_html()).collect())
}

/// `Html::select` of scraper for the rows of a document, and for each row
/// `ElementRef::select` for its first two cells, with `ElementRef::inner_html`
/// on each cell found. The result is the named value `selected_cells` of the
/// inputs.
#[verifier::external_body]
pub(crate) fn cells(content: &str, rows: &str, first: &str, second: &str) -> (found: Option<
    Vec<(Option<String>, Option<String>)>,
>)
    ensures
        found matches Some(values) ==> selected_cells(content@, rows@, first@, second@) == Some(
            cell_texts(values@),
        ),
        found is None ==> selected_cells(content@, rows@, first@, second@) is None,
{
    let rows = scraper::Selector::parse(rows).ok()?;
    let first = scraper::Selector::parse(first).ok()?;
    let second = scraper::Selector::parse(second).ok()?;
    let document = scraper::Html::parse_document(content);
    let cell = |row: scraper::ElementRef, s| row.select(s).next().map(|e| e.inner_html());
    Some(document.select(&rows).map(|row| (cell(row, &first), cell(row, &second))).collect())
}

} // verus!
