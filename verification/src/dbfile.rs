//! A database held in memory: the file's bytes, its schema page and the
//! catalog read from it, and the queries answered against them.

use vstd::prelude::*;
use crate::btree::{walk, walk_matches, walk_table, PageFault};
use crate::error::{syntax_error_text, CommandErrorView, SQLCommandError, SQLSyntaxError};
use crate::page::{leaf_page_cells, page_cell_count, read_u16};
use crate::record::{buffers_view, Record, RecordView};
use crate::schema::{
    declared_page_size, listed_names, schema_cells_fit, schema_page_fits, schema_rows,
    schema_rows_view, table_names, SchemaRAW, SchemaRow, SchemaRowView,
};
use crate::select::{
    aggregate_table_rows, count_row, select_rows, selected_rows, table_rows_view, TableRow,
    TableRowView, TableRows,
};
use crate::statement::{
    is_keyword, keyword_at, parse_statement, parse_tokens, AggregatorFunction, SQLStatement,
    SelectStatement, SelectView, StatementView,
};
use crate::text::strings_view;
use crate::token::{tokenize, tokenize_text, word_create, word_select};

verus! {

/// An open database: the bytes of its file, its first page taken apart, and
/// the catalog rows decoded from that page.
#[derive(Debug)]
pub struct DBFile {
    pub image: Vec<u8>,
    pub schema: SchemaRAW,
    pub entries: Vec<SchemaRow>,
}

/// The first page of a file that declares its page size at offset 16.
pub open spec fn first_page(data: Seq<u8>) -> Seq<u8> {
    data.take(declared_page_size(data) as int)
}

/// Whether `data` is a database that can be opened: it holds the page size
/// and a whole first page, and that page is a schema page every cell of
/// which holds a catalog row.
pub open spec fn database_fits(data: Seq<u8>) -> bool {
    &&& data.len() >= 18
    &&& declared_page_size(data) <= data.len()
    &&& schema_page_fits(first_page(data))
    &&& schema_cells_fit(leaf_page_cells(first_page(data), 100))
}

impl DBFile {
    /// The page size and the number of catalog rows that the database was
    /// opened with.
    pub open spec fn dbinfo(&self) -> (u16, usize) {
        (self.schema.page_size, self.schema.cells@.len() as usize)
    }

    /// Opens the database whose file holds `data`: reads the page size at
    /// offset 16, takes the first page apart and decodes its catalog rows.
    /// `None` when `data` ends before the first page does, or when that
    /// page is no schema page that can be read.
    pub fn from_bytes(data: Vec<u8>) -> (r: Option<DBFile>)
        ensures
            r is Some <==> database_fits(data@),
            r matches Some(db) ==> {
                &&& db.image@ == data@
                &&& db.dbinfo() == (
                    declared_page_size(data@) as u16,
                    page_cell_count(data@, 100) as usize,
                )
                &&& buffers_view(db.schema.cells@) == leaf_page_cells(first_page(data@), 100)
                &&& schema_rows_view(db.entries@) == schema_rows(
                    leaf_page_cells(first_page(data@), 100),
                )
            },
    {
        if data.len() < 18 {
            return None;
        }
        let page_size: usize = read_u16(data.as_slice(), 16) as usize;
        if page_size > data.len() {
            return None;
        }
        let page = &data.as_slice()[0..page_size];
        assert(page@ =~= first_page(data@));
        let schema = match SchemaRAW::from_bytes(page) {
            None => {
                return None;
            },
            Some(schema) => schema,
        };
        let entries = match schema.to_schema_rows() {
            None => {
                return None;
            },
            Some(entries) => entries,
        };
        assert(page_cell_count(page@, 100) == page_cell_count(data@, 100));
        assert(declared_page_size(page@) == declared_page_size(data@));
        assert(leaf_page_cells(page@, 100).len() == page_cell_count(page@, 100));
        assert(buffers_view(schema.cells@).len() == schema.cells@.len());
        Some(DBFile { image: data, schema, entries })
    }

    /// The page size stored in the file header and the number of cells of
    /// the schema page, tables and all others alike.
    pub fn get_dbinfo(&self) -> (r: (u16, usize))
        ensures
            r == self.dbinfo(),
    {
        (self.schema.page_size, self.schema.cells.len())
    }

    /// The names of the tables: the table name of every catalog row whose
    /// name does not begin with `sqlite_`, in catalog order.
    pub fn get_table_names(&self) -> (r: Vec<String>)
        ensures
            strings_view(r@) == listed_names(schema_rows_view(self.entries@)),
    {
        table_names(&self.entries)
    }
}

/// Position of the first catalog row that belongs to the table `name`.
pub open spec fn resolve(entries: Seq<SchemaRowView>, name: Seq<char>) -> Option<int> {
    entries.map_values(|entry: SchemaRowView| entry.table_name).index_of_first(name)
}

/// The page number that a stored root page stands for; zero, which is no
/// page, where it is not positive.
pub open spec fn root_page_number(rootpage: int) -> u32 {
    if rootpage > 0 {
        rootpage as u32
    } else {
        0
    }
}

/// How many levels of interior pages a walk may pass: the number of whole
/// pages in the file, since a longer way down visits some page twice.
pub open spec fn walk_budget(image_len: nat, page_size: nat) -> nat {
    if page_size == 0 {
        0
    } else {
        image_len / page_size
    }
}

/// The rows of the table that the catalog row `entry` describes, in the
/// order of the walk from its root page.
pub open spec fn table_records(image: Seq<u8>, page_size: u16, entry: SchemaRowView) -> Result<
    Seq<RecordView>,
    PageFault,
> {
    walk(
        image,
        page_size as nat,
        root_page_number(entry.rootpage),
        walk_budget(image.len(), page_size as nat),
    )
}

/// The answer to a `SELECT` statement on the table of `entry`: the stored
/// definition's own error where it could not be read, the first page fault
/// of the walk, and else the selected columns of every row, folded into one
/// row where the statement asks for `COUNT`.
pub open spec fn select_answer(
    image: Seq<u8>,
    page_size: u16,
    entry: SchemaRowView,
    statement: SelectView,
) -> Result<Seq<TableRowView>, CommandErrorView> {
    match entry.sql {
        Err(error) => Err(CommandErrorView::SyntaxError(syntax_error_text(error))),
        Ok(table) => match table_records(image, page_size, entry) {
            Err(fault) => Err(CommandErrorView::CorruptPage(fault.page_number, fault.tag)),
            Ok(records) => {
                let rows = selected_rows(records, table, statement.columns);
                if statement.aggregator_function == Some(AggregatorFunction::COUNT) {
                    Ok(seq![count_row(rows.len())])
                } else {
                    Ok(rows)
                }
            },
        },
    }
}

/// The answer to the query `query`. A text that begins with neither
/// `SELECT` nor `CREATE` is unsupported, and so are a `CREATE` statement
/// and a `SELECT` with `SUM`; a statement that does not parse is a syntax
/// error with the parser's text; a table that the catalog does not hold is
/// unknown.
pub open spec fn answer(
    image: Seq<u8>,
    page_size: u16,
    entries: Seq<SchemaRowView>,
    query: Seq<char>,
) -> Result<Seq<TableRowView>, CommandErrorView> {
    let tokens = tokenize_text(query);
    if !keyword_at(tokens, 0, word_select()) && !keyword_at(tokens, 0, word_create()) {
        Err(CommandErrorView::UnsupportedCommand(query))
    } else {
        match parse_statement(tokens) {
            Err(text) => Err(CommandErrorView::SyntaxError(text)),
            Ok(StatementView::CreateTable(_)) => Err(CommandErrorView::UnsupportedCommand(query)),
            Ok(StatementView::Select(statement)) => match resolve(entries, statement.table_name) {
                None => Err(CommandErrorView::UnknownTable(statement.table_name)),
                Some(position) => if statement.aggregator_function == Some(
                    AggregatorFunction::SUM,
                ) {
                    Err(CommandErrorView::UnsupportedCommand(query))
                } else {
                    select_answer(image, page_size, entries[position], statement)
                },
            },
        }
    }
}

/// Whether the outcome `r` of a query is what `expected` says.
pub open spec fn rows_match(
    r: Result<Vec<TableRow>, SQLCommandError>,
    expected: Result<Seq<TableRowView>, CommandErrorView>,
) -> bool {
    match (r, expected) {
        (Ok(rows), Ok(views)) => table_rows_view(rows@) == views,
        (Err(error), Err(view)) => error@ == view,
        _ => false,
    }
}

/// Whether the outcome `r` of a query is what `expected` says.
pub open spec fn answer_matches(
    r: Result<TableRows, SQLCommandError>,
    expected: Result<Seq<TableRowView>, CommandErrorView>,
) -> bool {
    match (r, expected) {
        (Ok(rows), Ok(views)) => table_rows_view(rows.0@) == views,
        (Err(error), Err(view)) => error@ == view,
        _ => false,
    }
}

/// A table of an open database: its catalog row and the database that
/// holds its pages.
#[derive(Debug)]
pub struct DBTable<'a> {
    pub description: &'a SchemaRow,
    pub dbfile: &'a DBFile,
}

impl<'a> DBTable<'a> {
    /// The table that `description` describes in `dbfile`.
    pub fn new(description: &'a SchemaRow, dbfile: &'a DBFile) -> (r: DBTable<'a>)
        ensures
            r.description == description,
            r.dbfile == dbfile,
    {
        DBTable { description, dbfile }
    }

    /// All rows of the table, in the order of the walk from its root page;
    /// or the first page that the walk could not use.
    pub fn to_table_rows(&self) -> (r: Result<Vec<Record>, PageFault>)
        ensures
            walk_matches(
                r,
                table_records(
                    self.dbfile.image@,
                    self.dbfile.schema.page_size,
                    self.description@,
                ),
            ),
    {
        let page_size: usize = self.dbfile.schema.page_size as usize;
        let budget: usize = if page_size == 0 {
            0
        } else {
            self.dbfile.image.len() / page_size
        };
        let root: u32 = if self.description.rootpage > 0 {
            self.description.rootpage as u32
        } else {
            0
        };
        walk_table(self.dbfile.image.as_slice(), page_size, root, budget)
    }
}

fn syntax_text(error: &SQLSyntaxError) -> (r: String)
    ensures
        r@ == syntax_error_text(error@),
{
    match error {
        SQLSyntaxError::UnexpectedToken(text) => text.clone(),
        SQLSyntaxError::UnsupportedValue(text) => text.clone(),
    }
}

/// Answers a `SELECT` statement against `table`: walks the table, keeps the
/// requested columns of every row, and counts the rows where the statement
/// asks for `COUNT`.
pub fn select(table: &DBTable, statement: &SelectStatement) -> (r: Result<
    Vec<TableRow>,
    SQLCommandError,
>)
    requires
        statement.aggregator_function != Some(AggregatorFunction::SUM),
    ensures
        rows_match(
            r,
            select_answer(
                table.dbfile.image@,
                table.dbfile.schema.page_size,
                table.description@,
                statement@,
            ),
        ),
{
    let definition = match &table.description.sql {
        Err(error) => {
            return Err(SQLCommandError::SyntaxError(syntax_text(error)));
        },
        Ok(definition) => definition,
    };
    let records = match table.to_table_rows() {
        Err(fault) => {
            return Err(SQLCommandError::CorruptPage(fault.page_number, fault.tag));
        },
        Ok(records) => records,
    };
    let rows = select_rows(&records, definition, &statement.columns);
    match statement.aggregator_function {
        Some(aggregator_function) => Ok(aggregate_table_rows(rows, aggregator_function)),
        None => Ok(rows),
    }
}

impl DBFile {
    /// The table of the first catalog row whose table name is
    /// `table_name`; `UnknownTable` with that name where there is none.
    pub fn get_table(&self, table_name: &String) -> (r: Result<DBTable<'_>, SQLCommandError>)
        ensures
            match resolve(schema_rows_view(self.entries@), table_name@) {
                Some(position) => r matches Ok(table) && table.dbfile == self && table.description
                    == &self.entries@[position],
                None => r matches Err(error) && error@ == CommandErrorView::UnknownTable(
                    table_name@,
                ),
            },
    {
        let ghost names = schema_rows_view(self.entries@).map_values(
            |entry: SchemaRowView| entry.table_name,
        );
        let mut index: usize = 0;
        while index < self.entries.len()
            invariant
                index <= self.entries@.len(),
                names == schema_rows_view(self.entries@).map_values(
                    |entry: SchemaRowView| entry.table_name,
                ),
                forall|j: int| 0 <= j < index ==> names[j] != table_name@,
            decreases self.entries@.len() - index,
        {
            assert(names[index as int] == self.entries@[index as int].table_name@);
            if self.entries[index].table_name == *table_name {
                proof {
                    names.index_of_first_ensures(table_name@);
                    assert(names[index as int] == table_name@);
                }
                return Ok(DBTable::new(&self.entries[index], self));
            }
            index = index + 1;
        }
        proof {
            names.index_of_first_ensures(table_name@);
        }
        Err(SQLCommandError::UnknownTable(table_name.clone()))
    }

    /// Answers the query `query`: a `SELECT` statement on one table of the
    /// catalog, with `*` or a list of columns, and with `COUNT` or without.
    pub fn execute(&self, query: &str) -> (r: Result<TableRows, SQLCommandError>)
        ensures
            answer_matches(
                r,
                answer(
                    self.image@,
                    self.schema.page_size,
                    schema_rows_view(self.entries@),
                    query@,
                ),
            ),
    {
        let select_word: Vec<char> = vec!['S', 'E', 'L', 'E', 'C', 'T'];
        let create_word: Vec<char> = vec!['C', 'R', 'E', 'A', 'T', 'E'];
        assert(select_word@ =~= word_select());
        assert(create_word@ =~= word_create());
        let tokens = tokenize(query);
        if !is_keyword(&tokens, 0, select_word.as_slice()) && !is_keyword(
            &tokens,
            0,
            create_word.as_slice(),
        ) {
            return Err(SQLCommandError::UnsupportedCommand(query.to_owned()));
        }
        let statement = match parse_tokens(tokens) {
            Err(error) => {
                return Err(SQLCommandError::SyntaxError(syntax_text(&error)));
            },
            Ok(SQLStatement::CreateTable(_)) => {
                return Err(SQLCommandError::UnsupportedCommand(query.to_owned()));
            },
            Ok(SQLStatement::Select(statement)) => statement,
        };
        let table = match self.get_table(&statement.table_name) {
            Err(error) => {
                return Err(error);
            },
            Ok(table) => table,
        };
        match statement.aggregator_function {
            Some(AggregatorFunction::SUM) => {
                return Err(SQLCommandError::UnsupportedCommand(query.to_owned()));
            },
            _ => {},
        }
        proof {
            let entries = schema_rows_view(self.entries@);
            let position = resolve(entries, statement@.table_name)->Some_0;
            entries.map_values(|entry: SchemaRowView| entry.table_name).index_of_first_ensures(
                statement@.table_name,
            );
            assert(entries[position] == self.entries@[position]@);
        }
        match select(&table, &statement) {
            Err(error) => Err(error),
            Ok(rows) => Ok(TableRows(rows)),
        }
    }
}

/// Whatever database opens from `data`, the page size that it reports is
/// the one stored at offset 16 of the file header, and the number of tables
/// that it reports is the cell count of the schema page.
pub proof fn lemma_dbinfo_of_opened_file(data: Vec<u8>, db: DBFile, info: (u16, usize))
    requires
        call_ensures(DBFile::from_bytes, (data,), Some(db)),
        call_ensures(DBFile::get_dbinfo, (&db,), info),
    ensures
        info.0 == declared_page_size(data@),
        info.1 == page_cell_count(data@, 100),
{
}

} // verus!
