//! A table that grows its columns as rows come in, and writes itself out as
//! CSV.

use vstd::prelude::*;

verus! {

/// Why a table could not be written.
#[derive(Debug, PartialEq, Eq)]
pub enum TableError {
    /// No columns are defined for the table.
    NoColumns,
    /// The CSV writer refused a record.
    CsvError,
}

/// One cell of a row: the place of its column and its value.
pub type Cell = (int, Seq<char>);

/// A table as the contracts see it.
pub struct TableView {
    /// The names of the columns, in the order in which they first occurred.
    pub columns: Seq<Seq<char>>,
    /// The rows, each with its cells in the order of the columns, cells of
    /// one column in the order in which they came.
    pub rows: Seq<Seq<Cell>>,
}

/// The place of the column named `key`: that of the first column with that
/// name, and the number of columns where there is none.
pub open spec fn column_of(columns: Seq<Seq<char>>, key: Seq<char>) -> int
    decreases columns.len(),
{
    if columns.len() == 0 {
        0
    } else if column_of(columns.drop_last(), key) < columns.len() - 1 {
        column_of(columns.drop_last(), key)
    } else if columns.last() == key {
        columns.len() - 1
    } else {
        columns.len() as int
    }
}

/// Where a cell of `column` goes among `cells`: behind the last cell whose
/// column is not greater.
pub open spec fn slot(cells: Seq<Cell>, column: int) -> int
    decreases cells.len(),
{
    if cells.len() == 0 {
        0
    } else if cells.last().0 <= column {
        cells.len() as int
    } else {
        slot(cells.drop_last(), column)
    }
}

/// Whether the cells stand in the order of their columns.
pub open spec fn in_column_order(cells: Seq<Cell>) -> bool {
    forall|i: int, j: int| 0 <= i < j < cells.len() ==> cells[i].0 <= cells[j].0
}

/// The columns and the cells of a row after `entries`, pairs of a column
/// name and a value, were filed one after the other. A name that is no
/// column yet becomes the last column.
pub open spec fn filed(columns: Seq<Seq<char>>, entries: Seq<(Seq<char>, Seq<char>)>) -> (
    Seq<Seq<char>>,
    Seq<Cell>,
)
    decreases entries.len(),
{
    if entries.len() == 0 {
        (columns, Seq::empty())
    } else {
        let (names, cells) = filed(columns, entries.drop_last());
        let (key, value) = entries.last();
        let column = column_of(names, key);
        (
            if column == names.len() {
                names.push(key)
            } else {
                names
            },
            cells.insert(slot(cells, column), (column, value)),
        )
    }
}

/// The table after a row of `entries` was added. A row without entries adds
/// nothing.
pub open spec fn with_row(table: TableView, entries: Seq<(Seq<char>, Seq<char>)>) -> TableView {
    if entries.len() == 0 {
        table
    } else {
        TableView {
            columns: filed(table.columns, entries).0,
            rows: table.rows.push(filed(table.columns, entries).1),
        }
    }
}

/// A row written out over `width` columns: each cell under its column, the
/// later of two cells of one column over the earlier, and the empty text
/// where no cell stands.
pub open spec fn laid_out(width: nat, cells: Seq<Cell>) -> Seq<Seq<char>>
    decreases cells.len(),
{
    if cells.len() == 0 {
        Seq::new(width, |i: int| Seq::<char>::empty())
    } else if 0 <= cells.last().0 < width {
        laid_out(width, cells.drop_last()).update(cells.last().0, cells.last().1)
    } else {
        laid_out(width, cells.drop_last())
    }
}

/// The records that are written for a table: the names of the columns, then
/// every row laid out over the columns.
pub open spec fn records_of(table: TableView) -> Seq<Seq<Seq<char>>> {
    Seq::new(
        table.rows.len() + 1,
        |i: int|
            if i == 0 {
                table.columns
            } else {
                laid_out(table.columns.len(), table.rows[i - 1])
            },
    )
}

/// A list of texts as the contracts see it.
pub open spec fn texts(items: Seq<String>) -> Seq<Seq<char>> {
    Seq::new(items.len(), |i: int| items[i]@)
}

/// A list of records as the contracts see it.
pub open spec fn record_views(records: Seq<Vec<String>>) -> Seq<Seq<Seq<char>>> {
    Seq::new(records.len(), |i: int| texts(records[i]@))
}

/// A list of entries as the contracts see it.
pub open spec fn entry_views(entries: Seq<(String, String)>) -> Seq<(Seq<char>, Seq<char>)> {
    Seq::new(entries.len(), |i: int| (entries[i].0@, entries[i].1@))
}

/// `csv::Error`, the reason for which a record was not written. Nothing is
/// known of what is inside.
#[verifier::external_type_specification]
#[verifier::external_body]
pub struct ExCsvError(csv::Error);

/// What a `csv::Writer` with the default settings writes for a list of
/// records: the bytes of the CSV text, or `None` where it refuses a record.
pub uninterp spec fn csv_text(records: Seq<Seq<Seq<char>>>) -> Option<Seq<u8>>;

/// `csv::Writer::write_record` for each record, on a writer made by
/// `csv::Writer::from_writer` over a byte vector that `into_inner` hands
/// back. The result is the named value `csv_text` of the records, an error
/// standing for `None`.
#[verifier::external_body]
fn csv_write(records: &Vec<Vec<String>>) -> (written: Result<Vec<u8>, csv::Error>)
    ensures
        written matches Ok(bytes) ==> csv_text(record_views(records@)) == Some(bytes@),
        written is Err ==> csv_text(record_views(records@)) is None,
{
    let mut writer = csv::Writer::from_writer(Vec::new());
    for record in records {
        writer.write_record(record)?;
    }
    writer.into_inner().map_err(|e| e.into_error().into())
}

/// Rows of named values, with the columns in the order in which their names
/// first occurred.
pub struct Table {
    columns: Vec<String>,
    rows: Vec<Vec<(usize, String)>>,
}

impl View for Table {
    type V = TableView;

    closed spec fn view(&self) -> TableView {
        TableView {
            columns: texts(self.columns@),
            rows: Seq::new(
                self.rows@.len(),
                |i: int|
                    Seq::new(
                        self.rows@[i]@.len(),
                        |k: int| (self.rows@[i]@[k].0 as int, self.rows@[i]@[k].1@),
                    ),
            ),
        }
    }
}

/// Every cell of the table stands under one of its columns, and the cells
/// of each row stand in the order of the columns.
pub open spec fn table_wf(table: TableView) -> bool {
    forall|r: int|
        0 <= r < table.rows.len() ==> {
            &&& in_column_order(#[trigger] table.rows[r])
            &&& forall|k: int|
                0 <= k < table.rows[r].len() ==> 0 <= (#[trigger] table.rows[r][k]).0
                    < table.columns.len()
        }
}

/// `column_of` finds the first column of that name.
pub proof fn lemma_column_of(columns: Seq<Seq<char>>, key: Seq<char>)
    ensures
        0 <= column_of(columns, key) <= columns.len(),
        column_of(columns, key) < columns.len() ==> columns[column_of(columns, key)] == key,
        forall|j: int| 0 <= j < column_of(columns, key) ==> columns[j] != key,
    decreases columns.len(),
{
    if columns.len() > 0 {
        let front = columns.drop_last();
        lemma_column_of(front, key);
        assert forall|j: int| 0 <= j < column_of(columns, key) implies columns[j] != key by {
            if j < front.len() {
                assert(front[j] == columns[j]);
            }
        }
        if column_of(front, key) < front.len() {
            assert(front[column_of(front, key)] == columns[column_of(front, key)]);
        }
    }
}

/// A cell that is put into its slot keeps the cells in the order of their
/// columns, behind the cells of its own column that came before.
pub proof fn lemma_slot(cells: Seq<Cell>, column: int, value: Seq<char>)
    requires
        in_column_order(cells),
    ensures
        0 <= slot(cells, column) <= cells.len(),
        forall|k: int| 0 <= k < slot(cells, column) ==> cells[k].0 <= column,
        forall|k: int| slot(cells, column) <= k < cells.len() ==> cells[k].0 > column,
        in_column_order(cells.insert(slot(cells, column), (column, value))),
    decreases cells.len(),
{
    if cells.len() > 0 {
        let front = cells.drop_last();
        assert forall|i: int, j: int| 0 <= i < j < front.len() implies front[i].0 <= front[j].0 by {
            assert(front[i] == cells[i] && front[j] == cells[j]);
        }
        lemma_slot(front, column, value);
        assert forall|k: int| 0 <= k < slot(cells, column) implies cells[k].0 <= column by {
            if cells.last().0 <= column {
                assert(cells[k].0 <= cells[cells.len() - 1].0);
            } else {
                assert(front[k] == cells[k]);
            }
        }
        assert forall|k: int| slot(cells, column) <= k < cells.len() implies cells[k].0 > column by {
            if k < front.len() {
                assert(front[k] == cells[k]);
            }
        }
    }
    let at = slot(cells, column);
    let after = cells.insert(at, (column, value));
    assert forall|i: int, j: int| 0 <= i < j < after.len() implies after[i].0 <= after[j].0 by {
        let from = |k: int|
            if k < at {
                k
            } else {
                k - 1
            };
        if i != at && j != at {
            assert(after[i] == cells[from(i)]);
            assert(after[j] == cells[from(j)]);
        } else if i == at {
            assert(after[j] == cells[j - 1]);
        } else {
            assert(after[i] == cells[i]);
        }
    }
}

/// Filing entries makes one cell for each entry, only ever adds columns, and
/// leaves every cell under a column, the cells in the order of the columns.
pub proof fn lemma_filed(columns: Seq<Seq<char>>, entries: Seq<(Seq<char>, Seq<char>)>)
    ensures
        filed(columns, entries).1.len() == entries.len(),
        filed(columns, entries).0.len() >= columns.len(),
        forall|j: int| 0 <= j < columns.len() ==> filed(columns, entries).0[j] == columns[j],
        in_column_order(filed(columns, entries).1),
        forall|k: int|
            0 <= k < filed(columns, entries).1.len() ==> 0 <= (#[trigger] filed(
                columns,
                entries,
            ).1[k]).0 < filed(columns, entries).0.len(),
    decreases entries.len(),
{
    if entries.len() > 0 {
        lemma_filed(columns, entries.drop_last());
        let (names, cells) = filed(columns, entries.drop_last());
        let (key, value) = entries.last();
        let column = column_of(names, key);
        lemma_column_of(names, key);
        lemma_slot(cells, column, value);
        let at = slot(cells, column);
        let after = cells.insert(at, (column, value));
        assert(filed(columns, entries).1 == after);
        assert forall|k: int| 0 <= k < after.len() implies 0 <= (#[trigger] after[k]).0 < filed(
            columns,
            entries,
        ).0.len() by {
            if k < at {
                assert(after[k] == cells[k]);
            } else if k > at {
                assert(after[k] == cells[k - 1]);
            }
        }
    }
}

/// The cells of a row as the contracts see them.
pub open spec fn cell_views(cells: Seq<(usize, String)>) -> Seq<Cell> {
    Seq::new(cells.len(), |k: int| (cells[k].0 as int, cells[k].1@))
}

impl Table {
    /// Every cell of the table stands under one of its columns, and the
    /// cells of each row stand in the order of the columns.
    pub open spec fn wf(&self) -> bool {
        table_wf(self@)
    }

    /// A table without columns and rows.
    pub fn new() -> (table: Table)
        ensures
            table.wf(),
            table@ == (TableView { columns: Seq::empty(), rows: Seq::empty() }),
    {
        let table = Table { columns: Vec::new(), rows: Vec::new() };
        proof {
            assert(table@.columns =~= Seq::<Seq<char>>::empty());
            assert(table@.rows =~= Seq::<Seq<Cell>>::empty());
        }
        table
    }

    fn find_column(&self, key: &String) -> (column: usize)
        ensures
            column == column_of(self@.columns, key@),
            column <= self.columns@.len(),
    {
        let mut i: usize = 0;
        while i < self.columns.len()
            invariant
                i <= self.columns@.len(),
                self@.columns.len() == self.columns@.len(),
                forall|j: int| 0 <= j < i ==> self@.columns[j] != key@,
            decreases self.columns@.len() - i,
        {
            if self.columns[i] == *key {
                proof {
                    let found = column_of(self@.columns, key@);
                    lemma_column_of(self@.columns, key@);
                    assert(self@.columns[i as int] == key@);
                    if found < i {
                        assert(self@.columns[found] != key@);
                    }
                }
                return i;
            }
            i += 1;
        }
        proof {
            let found = column_of(self@.columns, key@);
            lemma_column_of(self@.columns, key@);
            if found < i {
                assert(self@.columns[found] != key@);
            }
        }
        i
    }

    fn find_slot(cells: &Vec<(usize, String)>, column: usize) -> (at: usize)
        ensures
            at == slot(cell_views(cells@), column as int),
            at <= cells@.len(),
    {
        let ghost all = cell_views(cells@);
        let mut at = cells.len();
        proof {
            assert(all.take(at as int) == all);
        }
        while at > 0 && cells[at - 1].0 > column
            invariant
                at <= cells@.len(),
                all == cell_views(cells@),
                slot(all, column as int) == slot(all.take(at as int), column as int),
            decreases at,
        {
            proof {
                assert(all.take(at as int).drop_last() == all.take(at - 1));
                assert(all.take(at as int).last() == all[at - 1]);
            }
            at -= 1;
        }
        proof {
            if at > 0 {
                assert(all.take(at as int).last() == all[at - 1]);
            }
        }
        at
    }

    /// Adds a row of named values. A name that is no column yet becomes the
    /// last column. A row without values adds nothing.
    pub fn add_row(&mut self, row: Vec<(String, String)>)
        requires
            old(self).wf(),
        ensures
            final(self).wf(),
            final(self)@ == with_row(old(self)@, entry_views(row@)),
    {
        let ghost entries = entry_views(row@);
        let ghost start = self@;
        let mut row_as_vec: Vec<(usize, String)> = Vec::new();
        let mut i: usize = 0;
        proof {
            assert(entries.take(0) =~= Seq::<(Seq<char>, Seq<char>)>::empty());
            assert(cell_views(row_as_vec@) =~= Seq::<Cell>::empty());
        }
        while i < row.len()
            invariant
                i <= row@.len(),
                entries == entry_views(row@),
                self@.rows == start.rows,
                self@.columns == filed(start.columns, entries.take(i as int)).0,
                cell_views(row_as_vec@) == filed(start.columns, entries.take(i as int)).1,
            decreases row@.len() - i,
        {
            let key = row[i].0.clone();
            let value = row[i].1.clone();
            proof {
                assert(entries.take(i + 1).drop_last() == entries.take(i as int));
                assert(entries.take(i + 1).last() == (key@, value@));
            }
            let ghost names = self@.columns;
            let ghost cells = cell_views(row_as_vec@);
            let column_idx = self.find_column(&key);
            if column_idx == self.columns.len() {
                self.columns.push(key);
                assert(self@.columns =~= names.push(key@));
            }
            assert(self@.rows =~= start.rows);
            let at = Self::find_slot(&row_as_vec, column_idx);
            row_as_vec.insert(at, (column_idx, value));
            proof {
                assert(cell_views(row_as_vec@) =~= cells.insert(
                    at as int,
                    (column_idx as int, value@),
                ));
            }
            i += 1;
        }
        proof {
            assert(entries.take(row@.len() as int) == entries);
            lemma_filed(start.columns, entries);
        }
        if row_as_vec.len() > 0 {
            let ghost cells = cell_views(row_as_vec@);
            self.rows.push(row_as_vec);
            proof {
                assert(self@.rows =~= start.rows.push(cells));
                assert(self@.columns == filed(start.columns, entries).0);
                assert forall|r: int| 0 <= r < self@.rows.len() implies {
                    &&& in_column_order(#[trigger] self@.rows[r])
                    &&& forall|k: int|
                        0 <= k < self@.rows[r].len() ==> 0 <= (#[trigger] self@.rows[r][k]).0
                            < self@.columns.len()
                } by {
                    if r < start.rows.len() {
                        assert(self@.rows[r] == start.rows[r]);
                        assert(in_column_order(start.rows[r]));
                    }
                }
            }
        } else {
            proof {
                assert(self@.columns == start.columns);
                assert(self@ == start);
            }
        }
    }
}

impl Table {
    fn copy_of(items: &Vec<String>) -> (copy: Vec<String>)
        ensures
            texts(copy@) == texts(items@),
    {
        let mut copy: Vec<String> = Vec::new();
        let mut i: usize = 0;
        while i < items.len()
            invariant
                i <= items@.len(),
                copy@.len() == i,
                forall|k: int| 0 <= k < i ==> copy@[k]@ == items@[k]@,
            decreases items@.len() - i,
        {
            copy.push(items[i].clone());
            i += 1;
        }
        proof {
            assert(texts(copy@) =~= texts(items@));
        }
        copy
    }

    fn lay_out(width: usize, cells: &Vec<(usize, String)>) -> (record: Vec<String>)
        ensures
            texts(record@) == laid_out(width as nat, cell_views(cells@)),
    {
        let mut record: Vec<String> = Vec::new();
        let mut n: usize = 0;
        while n < width
            invariant
                n <= width,
                record@.len() == n,
                forall|k: int| 0 <= k < n ==> record@[k]@ == Seq::<char>::empty(),
            decreases width - n,
        {
            record.push(String::new());
            n += 1;
        }
        let ghost all = cell_views(cells@);
        proof {
            assert(all.take(0) =~= Seq::<Cell>::empty());
            assert(texts(record@) =~= laid_out(width as nat, all.take(0)));
        }
        let mut i: usize = 0;
        while i < cells.len()
            invariant
                i <= cells@.len(),
                all == cell_views(cells@),
                record@.len() == width,
                texts(record@) == laid_out(width as nat, all.take(i as int)),
            decreases cells@.len() - i,
        {
            proof {
                assert(all.take(i + 1).drop_last() == all.take(i as int));
                assert(all.take(i + 1).last() == all[i as int]);
            }
            let column = cells[i].0;
            if column < width {
                let ghost before = texts(record@);
                let value = cells[i].1.clone();
                record[column] = value;
                proof {
                    assert(texts(record@) =~= before.update(column as int, cells@[i as int].1@));
                }
            }
            i += 1;
        }
        proof {
            assert(all.take(cells@.len() as int) == all);
        }
        record
    }

    /// The records that are written for the table: the names of the columns,
    /// then every row laid out over the columns.
    pub fn records(&self) -> (records: Vec<Vec<String>>)
        ensures
            record_views(records@) == records_of(self@),
    {
        let mut records: Vec<Vec<String>> = Vec::new();
        records.push(Self::copy_of(&self.columns));
        let mut i: usize = 0;
        while i < self.rows.len()
            invariant
                i <= self.rows@.len(),
                records@.len() == i + 1,
                texts(records@[0]@) == self@.columns,
                forall|k: int|
                    1 <= k <= i ==> texts((#[trigger] records@[k])@) == laid_out(
                        self@.columns.len(),
                        self@.rows[k - 1],
                    ),
            decreases self.rows@.len() - i,
        {
            let record = Self::lay_out(self.columns.len(), &self.rows[i]);
            proof {
                assert(cell_views(self.rows@[i as int]@) =~= self@.rows[i as int]);
            }
            records.push(record);
            i += 1;
        }
        proof {
            assert(record_views(records@) =~= records_of(self@));
        }
        records
    }

    /// Writes the table out as CSV: a line with the names of the columns,
    /// then one line for each row.
    pub fn write(&self) -> (out: Result<Vec<u8>, TableError>)
        ensures
            match out {
                Ok(bytes) => csv_text(records_of(self@)) == Some(bytes@),
                Err(e) => csv_text(records_of(self@)) is None && e == TableError::CsvError,
            },
    {
        let records = self.records();
        match csv_write(&records) {
            Ok(bytes) => Ok(bytes),
            Err(_) => Err(TableError::CsvError),
        }
    }
}

impl Default for Table {
    fn default() -> (table: Table)
        ensures
            table.wf(),
            table@ == (TableView { columns: Seq::empty(), rows: Seq::empty() }),
    {
        Table::new()
    }
}

} // verus!
