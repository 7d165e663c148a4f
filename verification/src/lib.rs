//! The scheduling core of a web crawler: a page store with a download
//! lifecycle, a pool of proxies with saturating health scores, the contract
//! through which page parsers are consulted, and the dispatcher that decides
//! what to fetch next and what a finished fetch changes.
//!
//! The library fetches nothing and keeps nothing on disk. Whoever drives it
//! performs the fetches, tells the dispatcher how they ended, and persists
//! what the store holds.

pub mod counter;
pub mod crawler;
pub mod filter;
pub mod html;
pub mod parsers;
pub mod prelude;
pub mod proxy;
pub mod schedule;
pub mod sites;
pub mod storage;
pub mod table;
pub mod text;
pub mod utils;
pub mod weburl;

pub use crawler::{CrawlerReport, CrawlerState};
pub use parsers::{PageParser, PageParsers, ParsedTable, ParsedTables};
pub use prelude::PageTypeId;
pub use storage::Page;
