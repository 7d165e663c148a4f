//! What every part of the crawler shares: the errors it can report.

use vstd::prelude::*;

verus! {

/// The tag that selects the parser of a page.
pub type PageTypeId = u8;

/// Why an operation of the crawler failed.
#[derive(Debug, PartialEq, Eq)]
pub enum AppError {
    /// No page has this id.
    PageNotFound(i64),
    /// The proxy list at this path could not be loaded.
    LoadingProxyList(String),
    /// No parser handles pages of this type.
    PageParserNotFound(PageTypeId),
    /// No parser could be made from the file at this path.
    UnableToCreateParser(String),
    /// The configuration at this path could not be read.
    ReadingConfig(String),
    /// The database could not be opened.
    OpeningDatabase,
    /// The parsers written in Python could not be loaded.
    LoadingPythonParsers,
    /// The parser for pages of this type reported a failure.
    PageParserFailed(PageTypeId),
    /// This text is not an absolute URL.
    InvalidUrl(String),
    /// This number stands for no page status.
    InvalidPageStatus(u8),
    /// A parsing rule holds what is no CSS selector.
    InvalidSelector,
}

} // verus!
