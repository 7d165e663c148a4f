//! The page store: every page the crawler knows, with its download status
//! and, once downloaded, its content.
//!
//! A page is registered once under its absolute URL and numbered from `1` in
//! the order of registration. It starts as not downloaded, becomes
//! downloaded when content is written for it, and goes back to not
//! downloaded when it is reset.

use crate::prelude::{AppError, PageTypeId};
use crate::weburl::{parse, parsed_url};
use vstd::prelude::*;

verus! {

/// Where a page stands in its lifecycle.
#[derive(Debug, PartialEq, Eq, Structural, Clone, Copy, Hash)]
pub enum PageStatus {
    NotDownloaded,
    Downloaded,
}

impl PageStatus {
    /// The number under which the status is kept: `1` for a page that is not
    /// downloaded, `2` for one that is.
    pub open spec fn number(self) -> u8 {
        match self {
            PageStatus::NotDownloaded => 1,
            PageStatus::Downloaded => 2,
        }
    }

    /// The number under which the status is kept.
    pub fn int_value(self) -> (value: u8)
        ensures
            value == self.number(),
    {
        match self {
            PageStatus::NotDownloaded => 1,
            PageStatus::Downloaded => 2,
        }
    }

    /// The status that is kept under `value`.
    pub fn from_int(value: u8) -> (status: Result<PageStatus, AppError>)
        ensures
            match status {
                Ok(s) => s.number() == value,
                Err(e) => value != 1 && value != 2 && e == AppError::InvalidPageStatus(value),
            },
    {
        if value == 1 {
            Ok(PageStatus::NotDownloaded)
        } else if value == 2 {
            Ok(PageStatus::Downloaded)
        } else {
            Err(AppError::InvalidPageStatus(value))
        }
    }

    /// The status in words.
    pub fn label(&self) -> (words: &'static str)
        ensures
            words@ == match *self {
                PageStatus::NotDownloaded => "not downloaded"@,
                PageStatus::Downloaded => "downloaded"@,
            },
    {
        match self {
            PageStatus::NotDownloaded => "not downloaded",
            PageStatus::Downloaded => "downloaded",
        }
    }
}

/// A unit of crawl work: one URL and what is known of it.
#[derive(Debug, PartialEq, Eq, Hash)]
pub struct Page {
    /// The number the store gave the page.
    pub id: i64,
    /// The absolute URL of the page.
    pub url: String,
    /// Which parser applies to the page.
    pub type_id: PageTypeId,
    /// How many links away from a seed the page was found.
    pub depth: u16,
    /// Whether the page has been downloaded.
    pub status: PageStatus,
}

/// A page as the contracts see it.
pub struct PageView {
    pub id: i64,
    pub url: Seq<char>,
    pub type_id: PageTypeId,
    pub depth: u16,
    pub status: PageStatus,
}

impl View for Page {
    type V = PageView;

    open spec fn view(&self) -> PageView {
        PageView {
            id: self.id,
            url: self.url@,
            type_id: self.type_id,
            depth: self.depth,
            status: self.status,
        }
    }
}

impl Clone for Page {
    fn clone(&self) -> (copy: Page)
        ensures
            copy@ == self@,
    {
        Page {
            id: self.id,
            url: self.url.clone(),
            type_id: self.type_id,
            depth: self.depth,
            status: self.status,
        }
    }
}

impl Page {
    /// Whether two pages agree in every field.
    pub fn same_as(&self, other: &Page) -> (same: bool)
        ensures
            same == (self@ == other@),
    {
        self.id == other.id && self.url == other.url && self.type_id == other.type_id
            && self.depth == other.depth && self.status == other.status
    }
}

/// A list of pages as the contracts see it.
pub open spec fn page_views(pages: Seq<Page>) -> Seq<PageView> {
    Seq::new(pages.len(), |i: int| pages[i]@)
}

/// Whether page `a` is handed out before page `b`: the shallower page first,
/// and of two pages of one depth the one registered first.
pub open spec fn before(a: PageView, b: PageView) -> bool {
    a.depth < b.depth || (a.depth == b.depth && a.id < b.id)
}

/// Makes a page from the five values under which the store keeps it.
///
/// Fails where `row.1` is no absolute URL or `row.4` stands for no status.
/// The page carries the URL as the `url` crate writes it.
pub fn page_from_tuple(row: (i64, String, PageTypeId, u16, u8)) -> (page: Result<Page, AppError>)
    ensures
        match page {
            Ok(p) => {
                &&& parsed_url(row.1@) == Some(p@.url)
                &&& p@.status.number() == row.4
                &&& p@.id == row.0
                &&& p@.type_id == row.2
                &&& p@.depth == row.3
            },
            Err(AppError::InvalidUrl(text)) => parsed_url(row.1@) is None && text@ == row.1@,
            Err(AppError::InvalidPageStatus(value)) => {
                &&& parsed_url(row.1@) is Some
                &&& value == row.4
                &&& row.4 != 1
                &&& row.4 != 2
            },
            Err(_) => false,
        },
{
    let (id, url, type_id, depth, status) = row;
    let url = match parse(url.as_str()) {
        Ok(text) => text,
        Err(_) => {
            return Err(AppError::InvalidUrl(url));
        },
    };
    let status = match PageStatus::from_int(status) {
        Ok(status) => status,
        Err(e) => {
            return Err(e);
        },
    };
    Ok(Page { id, url, type_id, depth, status })
}

/// Tells whether an insert that skips known URLs has added a row, from the
/// row id that the database reports after it. The database reports the id of
/// the row it inserted last, also when the insert was skipped: the insert
/// added a row if the id is a true id and differs from `last_insert_id`, the
/// one seen after the insert before.
pub fn new_row_id(last_insert_id: i64, reported: i64) -> (new_id: Option<i64>)
    ensures
        new_id == if reported > 0 && reported != last_insert_id {
            Some(reported)
        } else {
            None
        },
{
    if reported > 0 && reported != last_insert_id {
        Some(reported)
    } else {
        None
    }
}

/// One row of the store as the contracts see it: a page and the content
/// stored for it, if any.
pub struct Row {
    pub page: PageView,
    pub content: Option<Seq<char>>,
}

impl Row {
    /// The row has to be fetched: its page is not downloaded.
    pub open spec fn is_pending(self) -> bool {
        self.page.status == PageStatus::NotDownloaded
    }

    /// The row shows up among the downloaded pages: its page is downloaded
    /// and content is stored for it.
    pub open spec fn is_downloaded(self) -> bool {
        self.page.status == PageStatus::Downloaded && self.content is Some
    }
}

/// The rules that every table of pages obeys: the pages are numbered from
/// `1` in the order of the rows, a page that is downloaded has content, and
/// no URL occurs twice.
pub open spec fn table_wf(rows: Seq<Row>) -> bool {
    &&& forall|i: int|
        0 <= i < rows.len() ==> {
            &&& (#[trigger] rows[i]).page.id == i + 1
            &&& rows[i].page.status == PageStatus::Downloaded ==> rows[i].content is Some
        }
    &&& forall|i: int, j: int|
        0 <= i < j < rows.len() ==> (#[trigger] rows[i]).page.url != (#[trigger] rows[j]).page.url
}

/// Whether a page with this URL is in the table.
pub open spec fn knows_url(rows: Seq<Row>, url: Seq<char>) -> bool {
    exists|i: int| 0 <= i < rows.len() && (#[trigger] rows[i]).page.url == url
}

/// The number of rows with this URL.
pub open spec fn count_url(rows: Seq<Row>, url: Seq<char>) -> nat
    decreases rows.len(),
{
    if rows.len() == 0 {
        0
    } else {
        count_url(rows.drop_last(), url) + if rows.last().page.url == url {
            1nat
        } else {
            0nat
        }
    }
}

/// The row with which a page enters the table.
pub open spec fn new_row(id: int, url: Seq<char>, type_id: PageTypeId, depth: u16) -> Row {
    Row {
        page: PageView { id: id as i64, url, type_id, depth, status: PageStatus::NotDownloaded },
        content: None,
    }
}

/// The table after a page with this URL was registered: unchanged where the
/// URL is known, else one row longer.
pub open spec fn registered(rows: Seq<Row>, url: Seq<char>, type_id: PageTypeId, depth: u16) -> Seq<
    Row,
> {
    if knows_url(rows, url) {
        rows
    } else {
        rows.push(new_row(rows.len() as int + 1, url, type_id, depth))
    }
}

/// The table after content was written for the page `id`: the page is
/// downloaded and holds the content. A table without that page is unchanged.
pub open spec fn written(rows: Seq<Row>, id: i64, content: Seq<char>) -> Seq<Row> {
    if 1 <= id <= rows.len() {
        rows.update(
            id - 1,
            Row {
                page: PageView { status: PageStatus::Downloaded, ..rows[id - 1].page },
                content: Some(content),
            },
        )
    } else {
        rows
    }
}

/// The table after the page `id` was reset: the page is not downloaded, and
/// what was stored for it stays. A table without that page is unchanged.
pub open spec fn reset(rows: Seq<Row>, id: i64) -> Seq<Row> {
    if 1 <= id <= rows.len() {
        rows.update(
            id - 1,
            Row {
                page: PageView { status: PageStatus::NotDownloaded, ..rows[id - 1].page },
                content: rows[id - 1].content,
            },
        )
    } else {
        rows
    }
}

/// Whether a page that was stored before fits the table as its next row: it
/// carries the next id and a URL that is not known, and comes with content
/// if it is downloaded.
pub open spec fn fits(rows: Seq<Row>, page: PageView, content: Option<Seq<char>>) -> bool {
    &&& page.id == rows.len() + 1
    &&& !knows_url(rows, page.url)
    &&& page.status == PageStatus::Downloaded ==> content is Some
}

/// The table after a page that was stored before was put back with its
/// content: one row longer where the page fits, else unchanged.
pub open spec fn restored(rows: Seq<Row>, page: PageView, content: Option<Seq<char>>) -> Seq<Row> {
    if fits(rows, page, content) {
        rows.push(Row { page, content })
    } else {
        rows
    }
}

/// The pages of the table, in the order of their ids.
pub open spec fn pages_of(rows: Seq<Row>) -> Seq<PageView> {
    Seq::new(rows.len(), |i: int| rows[i].page)
}

/// The downloaded pages of the table with their content, in the order of
/// their ids.
pub open spec fn downloaded_of(rows: Seq<Row>) -> Seq<(PageView, Seq<char>)>
    decreases rows.len(),
{
    if rows.len() == 0 {
        Seq::empty()
    } else if rows.last().is_downloaded() {
        downloaded_of(rows.drop_last()).push((rows.last().page, rows.last().content->0))
    } else {
        downloaded_of(rows.drop_last())
    }
}

/// Whether `batch` is what the table hands out when asked for at most
/// `limit` pages to fetch: pages that are not downloaded, the shallowest
/// first and among those of one depth the oldest first, none passed over.
pub open spec fn is_pending_batch(rows: Seq<Row>, limit: nat, batch: Seq<PageView>) -> bool {
    &&& batch.len() <= limit
    &&& forall|k: int|
        0 <= k < batch.len() ==> {
            &&& 1 <= (#[trigger] batch[k]).id <= rows.len()
            &&& rows[batch[k].id - 1].page == batch[k]
            &&& rows[batch[k].id - 1].is_pending()
        }
    &&& forall|k: int, l: int|
        0 <= k < l < batch.len() ==> before(#[trigger] batch[k], #[trigger] batch[l])
    &&& forall|i: int|
        0 <= i < rows.len() && (#[trigger] rows[i]).is_pending() && !batch.contains(rows[i].page)
            ==> {
            &&& batch.len() == limit
            &&& forall|k: int| 0 <= k < batch.len() ==> before(#[trigger] batch[k], rows[i].page)
        }
}

/// In a table that obeys its rules a URL that is known has exactly one row,
/// and one that is not known has none.
pub proof fn lemma_count_url(rows: Seq<Row>, url: Seq<char>)
    requires
        table_wf(rows),
    ensures
        count_url(rows, url) == if knows_url(rows, url) {
            1nat
        } else {
            0nat
        },
    decreases rows.len(),
{
    if rows.len() > 0 {
        let front = rows.drop_last();
        let tail = rows.len() - 1;
        assert forall|i: int, j: int| 0 <= i < j < front.len() implies (#[trigger] front[i]).page.url
            != (#[trigger] front[j]).page.url by {
            assert(rows[i].page.url != rows[j].page.url);
        }
        assert forall|i: int| 0 <= i < front.len() implies (#[trigger] front[i]).page.id == i + 1 by {
            assert(rows[i].page.id == i + 1);
        }
        lemma_count_url(front, url);
        if knows_url(front, url) {
            let i = choose|i: int| 0 <= i < front.len() && (#[trigger] front[i]).page.url == url;
            assert(rows[i].page.url == url);
            assert(rows[i].page.url != rows[tail].page.url);
        } else if rows.last().page.url == url {
            assert(rows[tail].page.url == url);
        } else if knows_url(rows, url) {
            let i = choose|i: int| 0 <= i < rows.len() && (#[trigger] rows[i]).page.url == url;
            assert(front[i].page.url == url);
        }
    }
}

/// Registering keeps the rules of the table.
pub proof fn lemma_registered_wf(rows: Seq<Row>, url: Seq<char>, type_id: PageTypeId, depth: u16)
    requires
        table_wf(rows),
        rows.len() < i64::MAX,
    ensures
        table_wf(registered(rows, url, type_id, depth)),
        knows_url(registered(rows, url, type_id, depth), url),
{
    let after = registered(rows, url, type_id, depth);
    if knows_url(rows, url) {
    } else {
        assert(after[rows.len() as int].page.url == url);
        assert forall|i: int, j: int| 0 <= i < j < after.len() implies (#[trigger] after[i]).page.url
            != (#[trigger] after[j]).page.url by {
            if j == rows.len() {
                assert(rows[i].page.url != url);
            } else {
                assert(rows[i].page.url != rows[j].page.url);
            }
        }
    }
}

/// Registering one URL twice leaves exactly one row with that URL: the
/// second registration changes nothing, whatever type and depth it carries.
pub proof fn lemma_register_twice(
    rows: Seq<Row>,
    url: Seq<char>,
    type_id: PageTypeId,
    depth: u16,
    other_type_id: PageTypeId,
    other_depth: u16,
)
    requires
        table_wf(rows),
        rows.len() < i64::MAX,
    ensures
        ({
            let once = registered(rows, url, type_id, depth);
            &&& knows_url(once, url)
            &&& registered(once, url, other_type_id, other_depth) == once
            &&& count_url(once, url) == 1
        }),
{
    lemma_registered_wf(rows, url, type_id, depth);
    lemma_count_url(registered(rows, url, type_id, depth), url);
}

/// Writing content keeps the rules of the table and touches no other page.
pub proof fn lemma_written_wf(rows: Seq<Row>, id: i64, content: Seq<char>)
    requires
        table_wf(rows),
    ensures
        table_wf(written(rows, id, content)),
        written(rows, id, content).len() == rows.len(),
        forall|i: int|
            0 <= i < rows.len() && i != id - 1 ==> written(rows, id, content)[i] == rows[i],
{
    let after = written(rows, id, content);
    assert forall|i: int, j: int| 0 <= i < j < after.len() implies (#[trigger] after[i]).page.url
        != (#[trigger] after[j]).page.url by {
        assert(rows[i].page.url != rows[j].page.url);
    }
}

/// Writing content for one page twice leaves the page downloaded with the
/// content that was written last; the first write leaves no trace.
pub proof fn lemma_write_twice(rows: Seq<Row>, id: i64, first: Seq<char>, second: Seq<char>)
    ensures
        written(written(rows, id, first), id, second) == written(rows, id, second),
        1 <= id <= rows.len() ==> {
            &&& written(written(rows, id, first), id, second)[id - 1].page.status
                == PageStatus::Downloaded
            &&& written(written(rows, id, first), id, second)[id - 1].content == Some(second)
        },
{
    assert(written(written(rows, id, first), id, second) =~= written(rows, id, second));
}

/// The table hands out one batch and no other: two batches that it could
/// hand out for one limit are the same.
pub proof fn lemma_pending_batch_unique(
    rows: Seq<Row>,
    limit: nat,
    one: Seq<PageView>,
    other: Seq<PageView>,
)
    requires
        is_pending_batch(rows, limit, one),
        is_pending_batch(rows, limit, other),
    ensures
        one == other,
{
    lemma_batch_agrees(rows, limit, one, other, one.len() as int);
    lemma_batch_agrees(rows, limit, other, one, other.len() as int);
    lemma_batch_longer(rows, limit, one, other);
    lemma_batch_longer(rows, limit, other, one);
    assert(one =~= other);
}

proof fn lemma_batch_agrees(
    rows: Seq<Row>,
    limit: nat,
    one: Seq<PageView>,
    other: Seq<PageView>,
    upto: int,
)
    requires
        is_pending_batch(rows, limit, one),
        is_pending_batch(rows, limit, other),
        0 <= upto <= one.len(),
    ensures
        forall|k: int| 0 <= k < upto && k < other.len() ==> one[k] == other[k],
    decreases upto,
{
    if upto > 0 {
        lemma_batch_agrees(rows, limit, one, other, upto - 1);
        let k = upto - 1;
        if k < other.len() && one[k] != other[k] {
            let x = one[k];
            let y = other[k];
            assert(rows[x.id - 1].page == x);
            assert(rows[y.id - 1].page == y);
            assert(x.id != y.id);
            if before(x, y) {
                lemma_not_listed(rows, limit, one, other, k);
                assert(before(other[k], x));
            } else {
                lemma_not_listed(rows, limit, other, one, k);
                assert(before(one[k], y));
            }
        }
    }
}

proof fn lemma_not_listed(
    rows: Seq<Row>,
    limit: nat,
    one: Seq<PageView>,
    other: Seq<PageView>,
    k: int,
)
    requires
        is_pending_batch(rows, limit, one),
        is_pending_batch(rows, limit, other),
        0 <= k < one.len(),
        k < other.len(),
        forall|j: int| 0 <= j < k ==> one[j] == other[j],
        before(one[k], other[k]),
    ensures
        !other.contains(one[k]),
        rows[one[k].id - 1].is_pending(),
        rows[one[k].id - 1].page == one[k],
        0 <= one[k].id - 1 < rows.len(),
{
    if other.contains(one[k]) {
        let m = choose|m: int| 0 <= m < other.len() && other[m] == one[k];
        if m < k {
            assert(one[m] == other[m]);
            assert(before(one[m], one[k]));
        } else if m > k {
            assert(before(other[k], other[m]));
        }
    }
}

proof fn lemma_batch_longer(rows: Seq<Row>, limit: nat, short: Seq<PageView>, long: Seq<PageView>)
    requires
        is_pending_batch(rows, limit, short),
        is_pending_batch(rows, limit, long),
        forall|k: int| 0 <= k < short.len() && k < long.len() ==> short[k] == long[k],
    ensures
        long.len() <= short.len(),
{
    if short.len() < long.len() {
        let extra = long[short.len() as int];
        assert(rows[extra.id - 1].page == extra);
        if short.contains(extra) {
            let m = choose|m: int| 0 <= m < short.len() && short[m] == extra;
            assert(long[m] == short[m]);
            assert(before(long[m], long[short.len() as int]));
        }
        assert(rows[extra.id - 1].is_pending());
        assert(!short.contains(rows[extra.id - 1].page));
    }
}

struct Record {
    page: Page,
    content: Option<String>,
}

impl View for Record {
    type V = Row;

    closed spec fn view(&self) -> Row {
        Row {
            page: self.page@,
            content: match self.content {
                Some(text) => Some(text@),
                None => None,
            },
        }
    }
}

/// The page store.
pub struct Storage {
    records: Vec<Record>,
}

impl View for Storage {
    type V = Seq<Row>;

    closed spec fn view(&self) -> Seq<Row> {
        Seq::new(self.records@.len(), |i: int| self.records@[i]@)
    }
}

impl Storage {
    /// The store obeys the rules of a table of pages.
    pub open spec fn wf(&self) -> bool {
        table_wf(self@)
    }

    /// An empty store.
    pub fn new() -> (store: Storage)
        ensures
            store.wf(),
            store@ == Seq::<Row>::empty(),
    {
        Storage { records: Vec::new() }
    }

    /// The number of pages in the store.
    pub fn count_all_pages(&self) -> (count: i64)
        requires
            self.wf(),
        ensures
            count == self@.len(),
    {
        let n = self.records.len();
        proof {
            if n > 0 {
                assert(self@[n - 1].page.id == n);
            }
        }
        n as i64
    }

    /// All pages of the store, in the order of their ids.
    pub fn list_pages(&self) -> (pages: Vec<Page>)
        ensures
            page_views(pages@) == pages_of(self@),
    {
        let mut pages: Vec<Page> = Vec::new();
        let mut i: usize = 0;
        while i < self.records.len()
            invariant
                i <= self.records.len(),
                pages@.len() == i,
                forall|k: int| 0 <= k < i ==> (#[trigger] pages@[k])@ == self@[k].page,
            decreases self.records.len() - i,
        {
            pages.push(self.records[i].page.clone());
            i += 1;
        }
        proof {
            assert(page_views(pages@) =~= pages_of(self@));
        }
        pages
    }

    /// Registers a page under a URL that is already in its written-out
    /// form. A URL that the store knows is left alone and gives `None`; a new
    /// one enters as not downloaded and gives the id of the new page.
    pub fn register_url(&mut self, url: String, type_id: PageTypeId, depth: u16) -> (new_id: Option<
        i64,
    >)
        requires
            old(self).wf(),
            old(self)@.len() < i64::MAX,
        ensures
            final(self).wf(),
            final(self)@ == registered(old(self)@, url@, type_id, depth),
            new_id == if knows_url(old(self)@, url@) {
                None
            } else {
                Some((old(self)@.len() + 1) as i64)
            },
    {
        if self.contains_url(url.as_str()) {
            return None;
        }
        let id = self.count_all_pages() + 1;
        let page = Page { id, url, type_id, depth, status: PageStatus::NotDownloaded };
        self.records.push(Record { page, content: None });
        proof {
            assert(final(self)@ =~= old(self)@.push(new_row(id as int, url@, type_id, depth)));
            assert forall|i: int, j: int| 0 <= i < j < final(self)@.len() implies (
            #[trigger] final(self)@[i]).page.url != (#[trigger] final(self)@[j]).page.url by {
                if j == old(self)@.len() {
                    assert(old(self)@[i].page.url != url@);
                }
            }
        }
        Some(id)
    }

    /// Puts back a page that was stored before, with its status and its
    /// content. The pages have to come in the order of their ids, the first
    /// with id `1`, each under a URL of its own, a downloaded page with its
    /// content; a page that does not fit is left out. Tells whether the page
    /// was taken.
    pub fn restore_page(&mut self, page: Page, content: Option<String>) -> (taken: bool)
        requires
            old(self).wf(),
        ensures
            final(self).wf(),
            final(self)@ == restored(
                old(self)@,
                page@,
                match content {
                    Some(text) => Some(text@),
                    None => None,
                },
            ),
            taken == fits(
                old(self)@,
                page@,
                match content {
                    Some(text) => Some(text@),
                    None => None,
                },
            ),
    {
        let count = self.records.len();
        proof {
            assert(self@.len() == count);
            if count > 0 {
                assert(self@[count - 1].page.id == count);
            }
        }
        if page.id < 1 || page.id - 1 != count as i64 {
            return false;
        }
        if self.contains_url(page.url.as_str()) {
            return false;
        }
        if page.status == PageStatus::Downloaded && content.is_none() {
            return false;
        }
        let ghost row = (Record { page, content })@;
        self.records.push(Record { page, content });
        proof {
            assert(self@ =~= old(self)@.push(row));
            assert forall|i: int, j: int| 0 <= i < j < self@.len() implies (#[trigger] self@[i]).page.url
                != (#[trigger] self@[j]).page.url by {
                if j == old(self)@.len() {
                    assert(old(self)@[i].page.url != page.url@);
                }
            }
        }
        true
    }

    /// Registers a new page.
    ///
    /// The URL is kept as the `url` crate writes it. If a page with that URL
    /// exists already, `None` is returned and nothing changes. A text that is
    /// no absolute URL is refused, and nothing changes either.
    pub fn register_page(&mut self, url: &str, type_id: PageTypeId, depth: u16) -> (new_id: Result<
        Option<i64>,
        AppError,
    >)
        requires
            old(self).wf(),
            old(self)@.len() < i64::MAX,
        ensures
            final(self).wf(),
            match parsed_url(url@) {
                Some(absolute) => {
                    &&& final(self)@ == registered(old(self)@, absolute, type_id, depth)
                    &&& new_id == Ok::<Option<i64>, AppError>(
                        if knows_url(old(self)@, absolute) {
                            None
                        } else {
                            Some((old(self)@.len() + 1) as i64)
                        },
                    )
                },
                None => {
                    &&& final(self)@ == old(self)@
                    &&& new_id matches Err(AppError::InvalidUrl(text))
                    &&& text@ == url@
                },
            },
    {
        match parse(url) {
            Ok(absolute) => Ok(self.register_url(absolute, type_id, depth)),
            Err(_) => Err(AppError::InvalidUrl(url.to_owned())),
        }
    }

    /// Resets the page: it is not downloaded any more. What was stored for
    /// it stays.
    pub fn reset_page(&mut self, page_id: i64)
        requires
            old(self).wf(),
        ensures
            final(self).wf(),
            final(self)@ == reset(old(self)@, page_id),
    {
        let at = match self.position(page_id) {
            Some(at) => at,
            None => {
                return ;
            },
        };
        self.records[at].page.status = PageStatus::NotDownloaded;
        proof {
            assert(final(self)@ =~= reset(old(self)@, page_id));
            Self::lemma_same_urls(old(self)@, final(self)@);
        }
    }

    /// Writes the content of a page into the store and marks the page as
    /// downloaded.
    pub fn write_page_content(&mut self, page_id: i64, content: &str)
        requires
            old(self).wf(),
        ensures
            final(self).wf(),
            final(self)@ == written(old(self)@, page_id, content@),
    {
        let at = match self.position(page_id) {
            Some(at) => at,
            None => {
                return ;
            },
        };
        self.records[at].page.status = PageStatus::Downloaded;
        self.records[at].content = Some(content.to_owned());
        proof {
            assert(final(self)@ =~= written(old(self)@, page_id, content@));
            Self::lemma_same_urls(old(self)@, final(self)@);
        }
    }

    fn position(&self, id: i64) -> (at: Option<usize>)
        requires
            self.wf(),
        ensures
            match at {
                Some(at) => 1 <= id <= self@.len() && at == id - 1 && at < self.records@.len(),
                None => !(1 <= id <= self@.len()),
            },
    {
        let count = self.records.len();
        proof {
            assert(self@.len() == count);
            if count > 0 {
                assert(self@[count - 1].page.id == count);
            }
        }
        if id < 1 || id > count as i64 {
            None
        } else {
            Some((id - 1) as usize)
        }
    }

    proof fn lemma_same_urls(before: Seq<Row>, after: Seq<Row>)
        requires
            table_wf(before),
            after.len() == before.len(),
            forall|i: int|
                0 <= i < before.len() ==> {
                    &&& (#[trigger] after[i]).page.id == before[i].page.id
                    &&& after[i].page.url == before[i].page.url
                    &&& after[i].page.status == PageStatus::Downloaded ==> after[i].content is Some
                },
        ensures
            table_wf(after),
    {
        assert forall|i: int, j: int| 0 <= i < j < after.len() implies (#[trigger] after[i]).page.url
            != (#[trigger] after[j]).page.url by {
            assert(before[i].page.url != before[j].page.url);
        }
    }

    /// The page `id`, if the store holds it.
    pub fn read_page(&self, id: i64) -> (page: Option<Page>)
        requires
            self.wf(),
        ensures
            match page {
                Some(p) => 1 <= id <= self@.len() && p@ == self@[id - 1].page,
                None => !(1 <= id <= self@.len()),
            },
    {
        match self.position(id) {
            Some(at) => Some(self.records[at].page.clone()),
            None => None,
        }
    }

    /// The content stored for the page `id` and the type of the page. `None`
    /// where the store does not hold the page or holds no content for it.
    pub fn read_page_content(&self, id: i64) -> (content: Option<(String, PageTypeId)>)
        requires
            self.wf(),
        ensures
            match content {
                Some((text, type_id)) => {
                    &&& 1 <= id <= self@.len()
                    &&& self@[id - 1].content == Some(text@)
                    &&& type_id == self@[id - 1].page.type_id
                },
                None => !(1 <= id <= self@.len()) || self@[id - 1].content is None,
            },
    {
        let at = match self.position(id) {
            Some(at) => at,
            None => {
                return None;
            },
        };
        let record = &self.records[at];
        match &record.content {
            Some(text) => Some((text.clone(), record.page.type_id)),
            None => None,
        }
    }

    /// Lists the downloaded pages and their content, in the order of their
    /// ids.
    pub fn read_downloaded_pages(&self) -> (pages: Vec<(Page, String)>)
        ensures
            pages@.len() == downloaded_of(self@).len(),
            forall|k: int|
                0 <= k < pages@.len() ==> ((#[trigger] pages@[k]).0@, pages@[k].1@)
                    == downloaded_of(self@)[k],
    {
        let mut pages: Vec<(Page, String)> = Vec::new();
        let mut i: usize = 0;
        while i < self.records.len()
            invariant
                i <= self.records.len(),
                pages@.len() == downloaded_of(self@.take(i as int)).len(),
                forall|k: int|
                    0 <= k < pages@.len() ==> ((#[trigger] pages@[k]).0@, pages@[k].1@)
                        == downloaded_of(self@.take(i as int))[k],
            decreases self.records.len() - i,
        {
            proof {
                assert(self@.take(i + 1).drop_last() == self@.take(i as int));
                assert(self@.take(i + 1).last() == self@[i as int]);
            }
            let record = &self.records[i];
            if let Some(text) = &record.content {
                if record.page.status == PageStatus::Downloaded {
                    pages.push((record.page.clone(), text.clone()));
                }
            }
            i += 1;
        }
        proof {
            assert(self@.take(self.records.len() as int) == self@);
        }
        pages
    }

    /// Lists at most `count` pages that are not downloaded: the shallowest
    /// first, and among pages of one depth the one registered first.
    pub fn list_not_downloaded_pages(&self, count: u16) -> (pages: Vec<Page>)
        requires
            self.wf(),
        ensures
            is_pending_batch(self@, count as nat, page_views(pages@)),
    {
        let mut pages: Vec<Page> = Vec::new();
        let mut last: Option<(u16, i64)> = None;
        let mut exhausted = false;
        let total = self.records.len();
        proof {
            assert(self@.len() == total);
        }
        while pages.len() < count as usize && !exhausted
            invariant
                self.wf(),
                total == self.records@.len(),
                total == self@.len(),
                pages@.len() <= count,
                last is None <==> pages@.len() == 0,
                last matches Some(key) ==> key.0 == pages@[pages@.len() - 1]@.depth && key.1
                    == pages@[pages@.len() - 1]@.id,
                forall|k: int|
                    0 <= k < pages@.len() ==> {
                        &&& 1 <= (#[trigger] pages@[k])@.id <= self@.len()
                        &&& self@[pages@[k]@.id - 1].page == pages@[k]@
                        &&& self@[pages@[k]@.id - 1].is_pending()
                    },
                forall|k: int, l: int|
                    0 <= k < l < pages@.len() ==> before(
                        (#[trigger] pages@[k])@,
                        (#[trigger] pages@[l])@,
                    ),
                forall|i: int, k: int|
                    0 <= i < self@.len() && (#[trigger] self@[i]).is_pending() && !page_views(
                        pages@,
                    ).contains(self@[i].page) && 0 <= k < pages@.len() ==> before(
                        (#[trigger] pages@[k])@,
                        self@[i].page,
                    ),
                exhausted ==> forall|i: int|
                    0 <= i < self@.len() && (#[trigger] self@[i]).is_pending() ==> page_views(
                        pages@,
                    ).contains(self@[i].page),
            decreases count - pages@.len() + if exhausted { 0int } else { 1int },
        {
            let ghost listed = page_views(pages@);
            let mut best: Option<usize> = None;
            let mut i: usize = 0;
            while i < total
                invariant
                    i <= total,
                    total == self.records@.len(),
                    total == self@.len(),
                    listed == page_views(pages@),
                    last is None <==> pages@.len() == 0,
                    last matches Some(key) ==> key.0 == pages@[pages@.len() - 1]@.depth && key.1
                        == pages@[pages@.len() - 1]@.id,
                    best matches Some(b) ==> {
                        &&& b < i
                        &&& self@[b as int].is_pending()
                        &&& pages@.len() > 0 ==> before(
                            pages@[pages@.len() - 1]@,
                            self@[b as int].page,
                        )
                        &&& forall|j: int|
                            0 <= j < i && (#[trigger] self@[j]).is_pending() && (pages@.len() > 0
                                ==> before(pages@[pages@.len() - 1]@, self@[j].page)) ==> !before(
                                self@[j].page,
                                self@[b as int].page,
                            )
                    },
                    best is None ==> forall|j: int|
                        0 <= j < i && (#[trigger] self@[j]).is_pending() ==> pages@.len() > 0
                            && !before(pages@[pages@.len() - 1]@, self@[j].page),
                decreases total - i,
            {
                let page = &self.records[i].page;
                assert(page@ == self@[i as int].page);
                let eligible = page.status == PageStatus::NotDownloaded && match last {
                    Some((depth, id)) => depth < page.depth || (depth == page.depth && id
                        < page.id),
                    None => true,
                };
                if eligible {
                    let better = match best {
                        Some(b) => {
                            let held = &self.records[b].page;
                            assert(held@ == self@[b as int].page);
                            page.depth < held.depth || (page.depth == held.depth && page.id
                                < held.id)
                        },
                        None => true,
                    };
                    if better {
                        best = Some(i);
                    }
                }
                i += 1;
            }
            match best {
                None => {
                    exhausted = true;
                    proof {
                        assert forall|r: int|
                            0 <= r < self@.len() && (#[trigger] self@[r]).is_pending() implies listed.contains(
                            self@[r].page,
                        ) by {
                            let tail = pages@.len() - 1;
                            if !listed.contains(self@[r].page) {
                                assert(before(pages@[tail]@, self@[r].page));
                            }
                        }
                    }
                },
                Some(b) => {
                    let page = self.records[b].page.clone();
                    let ghost row = self@[b as int].page;
                    assert(row.id == b + 1);
                    proof {
                        if pages@.len() > 0 {
                            let tail = pages@.len() - 1;
                            if listed.contains(row) {
                                let k = choose|k: int| 0 <= k < listed.len() && listed[k] == row;
                                assert(pages@[k]@ == row);
                                if k < tail {
                                    assert(before(pages@[k]@, pages@[tail]@));
                                }
                            }
                        }
                        assert(!listed.contains(row)) by {
                            if listed.contains(row) {
                                let k = choose|k: int| 0 <= k < listed.len() && listed[k] == row;
                                assert(pages@[k]@ == row);
                            }
                        }
                    }
                    last = Some((page.depth, page.id));
                    pages.push(page);
                    proof {
                        let listed_now = page_views(pages@);
                        assert(listed_now =~= listed.push(row));
                        assert forall|k: int, l: int| 0 <= k < l < pages@.len() implies before(
                            (#[trigger] pages@[k])@,
                            (#[trigger] pages@[l])@,
                        ) by {
                            if l == pages@.len() - 1 {
                                assert(listed[k] == pages@[k]@);
                                assert(before(listed[k], self@[b as int].page));
                            } else {
                                assert(listed[k] == pages@[k]@);
                                assert(listed[l] == pages@[l]@);
                            }
                        }
                        assert forall|r: int, k: int|
                            0 <= r < self@.len() && (#[trigger] self@[r]).is_pending()
                                && !listed_now.contains(self@[r].page) && 0 <= k
                                < pages@.len() implies before(
                            (#[trigger] pages@[k])@,
                            self@[r].page,
                        ) by {
                            assert(!listed.contains(self@[r].page)) by {
                                if listed.contains(self@[r].page) {
                                    let m = choose|m: int|
                                        0 <= m < listed.len() && listed[m] == self@[r].page;
                                    assert(listed_now[m] == self@[r].page);
                                }
                            }
                            assert(listed_now[listed.len() as int] == row);
                            assert(self@[r].page != row);
                            assert(r != b);
                            if k < listed.len() {
                                assert(listed[k] == pages@[k]@);
                            } else {
                                if listed.len() > 0 {
                                    assert(listed[listed.len() - 1] == pages@[listed.len() - 1]@);
                                    assert(before(listed[listed.len() - 1], self@[r].page));
                                }
                                assert(!before(self@[r].page, row));
                            }
                        }
                    }
                },
            }
        }
        proof {
            let listed = page_views(pages@);
            assert forall|k: int| 0 <= k < listed.len() implies {
                &&& 1 <= (#[trigger] listed[k]).id <= self@.len()
                &&& self@[listed[k].id - 1].page == listed[k]
                &&& self@[listed[k].id - 1].is_pending()
            } by {
                assert(listed[k] == pages@[k]@);
            }
            assert forall|k: int, l: int| 0 <= k < l < listed.len() implies before(
                #[trigger] listed[k],
                #[trigger] listed[l],
            ) by {
                assert(listed[k] == pages@[k]@);
                assert(listed[l] == pages@[l]@);
            }
            assert forall|i: int|
                0 <= i < self@.len() && (#[trigger] self@[i]).is_pending() && !listed.contains(
                    self@[i].page,
                ) implies {
                &&& listed.len() == count as nat
                &&& forall|k: int| 0 <= k < listed.len() ==> before(#[trigger] listed[k], self@[i].page)
            } by {
                assert forall|k: int| 0 <= k < listed.len() implies before(
                    #[trigger] listed[k],
                    self@[i].page,
                ) by {
                    assert(listed[k] == pages@[k]@);
                }
            }
        }
        pages
    }

    /// Whether a page with this URL is in the store.
    pub fn contains_url(&self, url: &str) -> (known: bool)
        ensures
            known == knows_url(self@, url@),
    {
        let wanted = url.to_owned();
        let mut i: usize = 0;
        while i < self.records.len()
            invariant
                i <= self.records.len(),
                wanted@ == url@,
                forall|k: int| 0 <= k < i ==> (#[trigger] self@[k]).page.url != url@,
            decreases self.records.len() - i,
        {
            if self.records[i].page.url == wanted {
                assert(self@[i as int].page.url == url@);
                return true;
            }
            i += 1;
        }
        false
    }
}

} // verus!
