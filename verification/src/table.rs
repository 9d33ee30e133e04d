//! The data model shared by every operator: cells, rows and tables.

use vstd::prelude::*;
use vstd::std_specs::cmp::PartialEqSpecImpl;
use crate::text::{decimal, i64_to_decimal, join_strings, joined, str_eq, views};

verus! {

/// A single value held in a table.
#[derive(Debug, Eq, Hash, PartialOrd)]
pub enum Cell {
    /// A piece of text.
    String(String),
    /// An integer.
    Int64(i64),
    /// An integer that may be absent.
    OptInt64(Option<i64>),
}

/// The mathematical value of a [`Cell`].
pub enum CellView {
    String(Seq<char>),
    Int64(i64),
    OptInt64(Option<i64>),
}

impl View for Cell {
    type V = CellView;

    open spec fn view(&self) -> CellView {
        match self {
            Cell::String(s) => CellView::String(s@),
            Cell::Int64(v) => CellView::Int64(*v),
            Cell::OptInt64(v) => CellView::OptInt64(*v),
        }
    }
}

impl CellView {
    /// The text a cell is printed as: text as it is, an integer in decimal,
    /// an absent integer as nothing.
    pub open spec fn text(self) -> Seq<char> {
        match self {
            CellView::String(s) => s,
            CellView::Int64(v) => decimal(v as int),
            CellView::OptInt64(Some(v)) => decimal(v as int),
            CellView::OptInt64(None) => Seq::empty(),
        }
    }
}

impl Clone for Cell {
    fn clone(&self) -> (r: Self)
        ensures
            r@ == self@,
    {
        match self {
            Cell::String(s) => Cell::String(s.clone()),
            Cell::Int64(v) => Cell::Int64(*v),
            Cell::OptInt64(v) => Cell::OptInt64(*v),
        }
    }
}

impl PartialEq for Cell {
    /// Whether two cells hold the same value, variant included.
    fn eq(&self, other: &Cell) -> (r: bool) {
        match (self, other) {
            (Cell::String(a), Cell::String(b)) => *a == *b,
            (Cell::Int64(a), Cell::Int64(b)) => *a == *b,
            (Cell::OptInt64(a), Cell::OptInt64(b)) => match (a, b) {
                (Some(x), Some(y)) => *x == *y,
                (None, None) => true,
                _ => false,
            },
            _ => false,
        }
    }
}

impl PartialEqSpecImpl for Cell {
    open spec fn obeys_eq_spec() -> bool {
        true
    }

    open spec fn eq_spec(&self, other: &Cell) -> bool {
        self@ == other@
    }
}

impl Cell {
    /// The text this cell is printed as.
    pub fn to_string(&self) -> (r: String)
        ensures
            r@ == self@.text(),
    {
        match self {
            Cell::String(s) => s.clone(),
            Cell::Int64(v) => i64_to_decimal(*v),
            Cell::OptInt64(Some(v)) => i64_to_decimal(*v),
            Cell::OptInt64(None) => String::new(),
        }
    }
}

/// One record of a table: a cell for each column, in header order.
#[derive(Debug)]
pub struct Row {
    pub cells: Vec<Cell>,
}

impl View for Row {
    type V = Seq<CellView>;

    open spec fn view(&self) -> Seq<CellView> {
        self.cells@.map_values(|c: Cell| c@)
    }
}

/// The text of a row: the texts of its cells, separated by commas.
pub open spec fn row_text(row: Seq<CellView>) -> Seq<char> {
    joined(row.map_values(|c: CellView| c.text()), seq![','])
}

impl Clone for Row {
    fn clone(&self) -> (r: Self)
        ensures
            r@ == self@,
    {
        let mut cells: Vec<Cell> = Vec::new();
        let mut i: usize = 0;
        while i < self.cells.len()
            invariant
                i <= self.cells.len(),
                cells.len() == i,
                forall|j: int| 0 <= j < i ==> cells@[j]@ == self.cells@[j]@,
            decreases self.cells.len() - i,
        {
            cells.push(self.cells[i].clone());
            i = i + 1;
        }
        let r = Row { cells };
        assert(r@ =~= self@);
        r
    }
}

impl Row {
    /// The cells of this row as text, separated by commas.
    pub fn join(&self) -> (r: String)
        ensures
            r@ == row_text(self@),
    {
        let mut parts: Vec<String> = Vec::new();
        let mut i: usize = 0;
        while i < self.cells.len()
            invariant
                i <= self.cells.len(),
                parts.len() == i,
                forall|j: int| 0 <= j < i ==> parts@[j]@ == self.cells@[j]@.text(),
            decreases self.cells.len() - i,
        {
            parts.push(self.cells[i].to_string());
            i = i + 1;
        }
        proof {
            reveal_strlit(",");
            assert(","@ =~= seq![',']);
            assert(views(parts@) =~= self@.map_values(|c: CellView| c.text()));
        }
        join_strings(&parts, ",")
    }

    /// The text of this row, as [`Row::join`] gives it.
    pub fn to_string(&self) -> (r: String)
        ensures
            r@ == row_text(self@),
    {
        self.join()
    }
}

/// The view of each row of a sequence.
pub open spec fn row_views(rows: Seq<Row>) -> Seq<Seq<CellView>> {
    rows.map_values(|r: Row| r@)
}

/// The result of every operator: named columns, the names of those that
/// hold numbers, and the rows.
#[derive(Debug)]
pub struct Table {
    /// The name of each column.
    pub header: Vec<String>,
    /// The names of the columns whose values are numbers.
    pub numeric_columns: Vec<String>,
    /// The records, each with one cell per entry of `header`.
    pub rows: Vec<Row>,
}

/// The mathematical value of a [`Table`].
pub struct TableView {
    pub header: Seq<Seq<char>>,
    pub numeric_columns: Seq<Seq<char>>,
    pub rows: Seq<Seq<CellView>>,
}

impl View for Table {
    type V = TableView;

    open spec fn view(&self) -> TableView {
        TableView {
            header: views(self.header@),
            numeric_columns: views(self.numeric_columns@),
            rows: row_views(self.rows@),
        }
    }
}

/// Each line of a sequence followed by a line feed.
pub open spec fn lines(rows: Seq<Seq<char>>) -> Seq<char>
    decreases rows.len(),
{
    if rows.len() == 0 {
        Seq::empty()
    } else {
        lines(rows.drop_last()) + rows.last() + seq!['\n']
    }
}

impl TableView {
    /// Every row has one cell per column, and every numeric column is a
    /// column.
    pub open spec fn well_formed(self) -> bool {
        &&& forall|i: int|
            0 <= i < self.rows.len() ==> (#[trigger] self.rows[i]).len() == self.header.len()
        &&& forall|i: int|
            0 <= i < self.numeric_columns.len() ==> self.header.contains(
                #[trigger] self.numeric_columns[i],
            )
    }

    /// The index of the first column called `name`, if there is one.
    pub open spec fn column_index(self, name: Seq<char>) -> Option<int> {
        self.header.index_of_first(name)
    }

    /// The printed form: the header line, then one line for each row.
    pub open spec fn text(self) -> Seq<char> {
        joined(self.header, seq![',']) + seq!['\n'] + lines(
            self.rows.map_values(|r: Seq<CellView>| row_text(r)),
        )
    }
}

impl Clone for Table {
    fn clone(&self) -> (r: Self)
        ensures
            r@ == self@,
    {
        let mut rows: Vec<Row> = Vec::new();
        let mut i: usize = 0;
        while i < self.rows.len()
            invariant
                i <= self.rows.len(),
                rows.len() == i,
                forall|j: int| 0 <= j < i ==> rows@[j]@ == self.rows@[j]@,
            decreases self.rows.len() - i,
        {
            rows.push(self.rows[i].clone());
            i = i + 1;
        }
        let r = Table {
            header: clone_names(&self.header),
            numeric_columns: clone_names(&self.numeric_columns),
            rows,
        };
        assert(r@.rows =~= self@.rows);
        r
    }
}

/// A copy of a list of names.
pub fn clone_names(names: &Vec<String>) -> (r: Vec<String>)
    ensures
        views(r@) == views(names@),
{
    let mut out: Vec<String> = Vec::new();
    let mut i: usize = 0;
    while i < names.len()
        invariant
            i <= names.len(),
            out.len() == i,
            forall|j: int| 0 <= j < i ==> out@[j]@ == names@[j]@,
        decreases names.len() - i,
    {
        out.push(names[i].clone());
        i = i + 1;
    }
    assert(views(out@) =~= views(names@));
    out
}

/// Whether `name` is one of `names`.
pub fn contains_name(names: &Vec<String>, name: &str) -> (r: bool)
    ensures
        r == views(names@).contains(name@),
{
    let mut i: usize = 0;
    while i < names.len()
        invariant
            i <= names.len(),
            forall|j: int| 0 <= j < i ==> views(names@)[j] != name@,
        decreases names.len() - i,
    {
        if str_eq(names[i].as_str(), name) {
            assert(views(names@)[i as int] == name@);
            return true;
        }
        i = i + 1;
    }
    false
}

impl Table {
    /// The index in `header` of the first column called `name`; `None` if
    /// no column has that name.
    pub fn find_column_index_by_name(&self, name: &str) -> (r: Option<usize>)
        ensures
            match r {
                Some(i) => self@.column_index(name@) == Some(i as int) && i < self@.header.len()
                    && self@.header[i as int] == name@,
                None => self@.column_index(name@) is None,
            },
            r is Some <==> self@.header.contains(name@),
    {
        let mut i: usize = 0;
        while i < self.header.len()
            invariant
                i <= self.header.len(),
                forall|j: int| 0 <= j < i ==> self@.header[j] != name@,
            decreases self.header.len() - i,
        {
            if str_eq(self.header[i].as_str(), name) {
                proof {
                    assert(self@.header[i as int] == name@);
                    self@.header.index_of_first_ensures(name@);
                }
                return Some(i);
            }
            i = i + 1;
        }
        proof {
            self@.header.index_of_first_ensures(name@);
        }
        None
    }

    /// The printed form of the table: the header line, then one line for
    /// each row, every line ended by a line feed.
    pub fn to_string(&self) -> (r: String)
        ensures
            r@ == self@.text(),
    {
        proof {
            reveal_strlit(",");
            reveal_strlit("\n");
            assert(","@ =~= seq![',']);
            assert("\n"@ =~= seq!['\n']);
        }
        let mut out = join_strings(&self.header, ",");
        out.append("\n");
        let ghost texts = self@.rows.map_values(|r: Seq<CellView>| row_text(r));
        let ghost head = out@;
        let mut i: usize = 0;
        while i < self.rows.len()
            invariant
                i <= self.rows.len(),
                texts == self@.rows.map_values(|r: Seq<CellView>| row_text(r)),
                out@ == head + lines(texts.take(i as int)),
                "\n"@ == seq!['\n'],
            decreases self.rows.len() - i,
        {
            let line = self.rows[i].join();
            out.append(line.as_str());
            out.append("\n");
            proof {
                assert(texts.take(i + 1).drop_last() =~= texts.take(i as int));
                assert(texts.take(i + 1).last() == row_text(self.rows@[i as int]@));
                assert(out@ =~= head + lines(texts.take(i + 1)));
            }
            i = i + 1;
        }
        assert(texts.take(i as int) =~= texts);
        out
    }
}

} // verus!
