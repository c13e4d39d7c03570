//! The schema catalog: the first page of the file read as a table leaf page
//! whose rows name each table and index, its root page and the text that
//! created it.

use vstd::prelude::*;
use crate::page::{
    be_u16, cell_pointers, leaf_page_cells, leaf_page_fits, page_cell_count, read_cell_pointers,
    read_leaf_cells, read_u16, TABLE_LEAF,
};
use crate::record::{
    buffers_view, cell_payload, cell_well_formed, extract_record_column_values,
    extract_record_description, lemma_width_sum_monotonic, record_columns, record_header_len,
    record_widths, width_sum,
};
use crate::error::{SQLSyntaxError, SyntaxErrorView};
use crate::statement::{parse_create, CreateTableStatement, CreateTableView};
use crate::text::{
    bytes_text, chars_of, has_prefix, starts_with, strings_view, text_from_bytes,
};
use crate::token::{tokenize, tokenize_text};
use crate::varint::parse_varint;

verus! {

/// The page size that the file header declares at offset 16.
pub open spec fn declared_page_size(data: Seq<u8>) -> nat {
    be_u16(data[16], data[17])
}

/// Whether `data` begins with a schema page that can be read: a file
/// header, and behind it a table leaf page all of whose cells lie inside
/// `data`.
pub open spec fn schema_page_fits(data: Seq<u8>) -> bool {
    &&& data.len() >= 108
    &&& data[100] == TABLE_LEAF
    &&& leaf_page_fits(data, 100)
}

/// The first page of a database file, taken apart but not yet decoded.
#[derive(Debug)]
pub struct SchemaRAW {
    pub page_size: u16,
    pub file_header: [u8; 100],
    pub page_header: [u8; 8],
    pub cell_pointer_array: Vec<u16>,
    pub cells: Vec<Vec<u8>>,
}

impl SchemaRAW {
    /// Takes the first page apart. `None` when `data` is shorter than the
    /// two headers, when the page is no table leaf page, or when its
    /// pointer array or one of its cells reaches beyond `data`.
    pub fn from_bytes(data: &[u8]) -> (r: Option<Self>)
        ensures
            r is Some <==> schema_page_fits(data@),
            r matches Some(schema) ==> {
                &&& schema.page_size == declared_page_size(data@)
                &&& schema.file_header@ == data@.take(100)
                &&& schema.page_header@ == data@.subrange(100, 108)
                &&& schema.cell_pointer_array@ == cell_pointers(
                    data@,
                    108,
                    page_cell_count(data@, 100),
                )
                &&& buffers_view(schema.cells@) == leaf_page_cells(data@, 100)
            },
    {
        if data.len() < 108 || data[100] != TABLE_LEAF {
            return None;
        }
        let page_size = read_u16(data, 16);
        let mut file_header: [u8; 100] = [0u8; 100];
        let mut index: usize = 0;
        while index < 100
            invariant
                index <= 100,
                data@.len() >= 108,
                forall|i: int| 0 <= i < index ==> file_header@[i] == data@[i],
            decreases 100 - index,
        {
            file_header[index] = data[index];
            index = index + 1;
        }
        assert(file_header@ =~= data@.take(100));
        let page_header: [u8; 8] = [
            data[100],
            data[101],
            data[102],
            data[103],
            data[104],
            data[105],
            data[106],
            data[107],
        ];
        assert(page_header@ =~= data@.subrange(100, 108));
        let cell_count = read_u16(data, 103);
        if 2 * (cell_count as usize) > data.len() - 108 {
            return None;
        }
        let cell_pointer_array = read_cell_pointers(data, 108, cell_count);
        match read_leaf_cells(data, &cell_pointer_array) {
            None => None,
            Some(cells) => Some(
                SchemaRAW { page_size, file_header, page_header, cell_pointer_array, cells },
            ),
        }
    }
}

/// The page size and the number of catalog rows, tables and all others
/// alike.
pub fn get_dbinfo(schema_data: &SchemaRAW) -> (r: (u16, usize))
    ensures
        r.0 == schema_data.page_size,
        r.1 == schema_data.cells@.len(),
{
    (schema_data.page_size, schema_data.cells.len())
}

/// One row of the catalog: a table or an index, the table it belongs to,
/// its root page, and its defining statement, or what kept the stored text
/// from being read as a `CREATE TABLE` statement.
#[derive(Debug)]
pub struct SchemaRow {
    pub object_type: String,
    pub name: String,
    pub table_name: String,
    pub rootpage: i8,
    pub sql: Result<CreateTableStatement, SQLSyntaxError>,
}

/// What a catalog row is, as plain values.
pub struct SchemaRowView {
    pub object_type: Seq<char>,
    pub name: Seq<char>,
    pub table_name: Seq<char>,
    pub rootpage: int,
    pub sql: Result<CreateTableView, SyntaxErrorView>,
}

impl View for SchemaRow {
    type V = SchemaRowView;

    open spec fn view(&self) -> SchemaRowView {
        SchemaRowView {
            object_type: self.object_type@,
            name: self.name@,
            table_name: self.table_name@,
            rootpage: self.rootpage as int,
            sql: match self.sql {
                Ok(statement) => Ok(statement@),
                Err(error) => Err(error@),
            },
        }
    }
}

/// The contents of a list of catalog rows.
pub open spec fn schema_rows_view(rows: Seq<SchemaRow>) -> Seq<SchemaRowView> {
    rows.map_values(|row: SchemaRow| row@)
}

/// The body of the record in `payload`: what follows its header.
pub open spec fn payload_body(payload: Seq<u8>) -> Seq<u8> {
    payload.skip(record_header_len(payload))
}

/// Whether `cell` holds a catalog row: a whole record of at least five
/// columns, with a byte in its body where the root page stands.
pub open spec fn schema_cell_fits(cell: Seq<u8>) -> bool {
    &&& cell_well_formed(cell)
    &&& record_widths(cell_payload(cell)).len() >= 5
    &&& width_sum(record_widths(cell_payload(cell)), 3) < payload_body(cell_payload(cell)).len()
}

/// The catalog row that `cell` stands for. Its first three columns are the
/// object's type, its name and its table's name; the root page is the first
/// byte behind them, read as a signed number; the defining text is
/// whatever follows the fourth column, and is parsed as a `CREATE TABLE`
/// statement whatever the object's type.
pub open spec fn schema_row(cell: Seq<u8>) -> SchemaRowView {
    let payload = cell_payload(cell);
    let widths = record_widths(payload);
    let body = payload_body(payload);
    SchemaRowView {
        object_type: bytes_text(record_columns(payload)[0]),
        name: bytes_text(record_columns(payload)[1]),
        table_name: bytes_text(record_columns(payload)[2]),
        rootpage: signed_byte_value(body[width_sum(widths, 3) as int]),
        sql: match parse_create(
            tokenize_text(bytes_text(body.skip(width_sum(widths, 4) as int))),
        ) {
            Ok(statement) => Ok(statement),
            Err(text) => Err(SyntaxErrorView::UnexpectedToken(text)),
        },
    }
}

/// Whether every one of `cells` holds a catalog row.
pub open spec fn schema_cells_fit(cells: Seq<Seq<u8>>) -> bool {
    forall|i: int| 0 <= i < cells.len() ==> schema_cell_fits(#[trigger] cells[i])
}

/// The catalog rows that `cells` stand for, in cell order.
pub open spec fn schema_rows(cells: Seq<Seq<u8>>) -> Seq<SchemaRowView> {
    cells.map_values(|cell: Seq<u8>| schema_row(cell))
}

/// The two's complement reading of one byte.
pub open spec fn signed_byte_value(byte: u8) -> int {
    if byte >= 128 {
        byte - 256
    } else {
        byte as int
    }
}

fn signed_byte(byte: u8) -> (r: i8)
    ensures
        r == signed_byte_value(byte),
{
    if byte >= 128 {
        ((byte - 128) as i8) + i8::MIN
    } else {
        byte as i8
    }
}

fn width_prefix(widths: &Vec<u64>, count: usize, limit: usize) -> (r: usize)
    requires
        count <= widths@.len(),
        width_sum(widths@, widths@.len()) <= limit,
    ensures
        r == width_sum(widths@, count as nat),
{
    let mut sum: usize = 0;
    let mut index: usize = 0;
    while index < count
        invariant
            index <= count <= widths@.len(),
            sum == width_sum(widths@, index as nat),
            width_sum(widths@, widths@.len()) <= limit,
        decreases count - index,
    {
        proof {
            lemma_width_sum_monotonic(widths@, (index + 1) as nat, widths@.len());
        }
        sum = sum + widths[index] as usize;
        index = index + 1;
    }
    sum
}

impl SchemaRow {
    /// Decodes one cell of the schema page. `None` when the cell holds no
    /// whole record of at least five columns, or no byte where the root
    /// page stands.
    pub fn from_cell(cell: &[u8]) -> (r: Option<SchemaRow>)
        ensures
            r is Some <==> schema_cell_fits(cell@),
            r matches Some(row) ==> row@ == schema_row(cell@),
    {
        let size_len = match parse_varint(cell) {
            None => {
                return None;
            },
            Some((_, size_len)) => size_len,
        };
        let after_size = &cell[size_len..cell.len()];
        assert(after_size@ =~= cell@.skip(size_len as int));
        let row_id_len = match parse_varint(after_size) {
            None => {
                return None;
            },
            Some((_, row_id_len)) => row_id_len,
        };
        let payload = &cell[size_len + row_id_len..cell.len()];
        assert(payload@ =~= cell_payload(cell@));
        let (header_len, widths) = match extract_record_description(payload) {
            None => {
                return None;
            },
            Some(description) => description,
        };
        let body = &payload[header_len..payload.len()];
        assert(body@ =~= payload_body(payload@));
        let columns = match extract_record_column_values(&widths, body) {
            None => {
                return None;
            },
            Some(columns) => columns,
        };
        if widths.len() < 5 {
            return None;
        }
        let root_at = width_prefix(&widths, 3, body.len());
        if root_at >= body.len() {
            return None;
        }
        let sql_at = width_prefix(&widths, 4, body.len());
        proof {
            lemma_width_sum_monotonic(widths@, 4, widths@.len());
            assert(buffers_view(columns@).len() == widths@.len());
            assert(buffers_view(columns@)[0] == columns@[0]@);
            assert(buffers_view(columns@)[1] == columns@[1]@);
            assert(buffers_view(columns@)[2] == columns@[2]@);
        }
        let sql_bytes = &body[sql_at..body.len()];
        assert(sql_bytes@ =~= body@.skip(sql_at as int));
        let sql_text = text_from_bytes(sql_bytes);
        let sql = CreateTableStatement::from_tokens(tokenize(sql_text.as_str()));
        Some(
            SchemaRow {
                object_type: text_from_bytes(columns[0].as_slice()),
                name: text_from_bytes(columns[1].as_slice()),
                table_name: text_from_bytes(columns[2].as_slice()),
                rootpage: signed_byte(body[root_at]),
                sql,
            },
        )
    }
}

impl SchemaRAW {
    /// Decodes every cell of the schema page into a catalog row, in cell
    /// order. `None` when one of the cells holds no catalog row.
    pub fn to_schema_rows(&self) -> (r: Option<Vec<SchemaRow>>)
        ensures
            r is Some <==> schema_cells_fit(buffers_view(self.cells@)),
            r matches Some(rows) ==> schema_rows_view(rows@) == schema_rows(
                buffers_view(self.cells@),
            ),
    {
        let ghost cells = buffers_view(self.cells@);
        let mut rows: Vec<SchemaRow> = Vec::new();
        let mut index: usize = 0;
        while index < self.cells.len()
            invariant
                index <= self.cells@.len(),
                cells == buffers_view(self.cells@),
                schema_cells_fit(cells.take(index as int)),
                schema_rows_view(rows@) == schema_rows(cells).take(index as int),
            decreases self.cells@.len() - index,
        {
            assert(cells[index as int] == self.cells@[index as int]@);
            match SchemaRow::from_cell(self.cells[index].as_slice()) {
                None => {
                    return None;
                },
                Some(row) => {
                    let ghost before = rows@;
                    rows.push(row);
                    assert(schema_rows_view(rows@) =~= schema_rows(cells).take(index + 1)) by {
                        assert(schema_rows_view(rows@) =~= schema_rows_view(before).push(row@));
                    }
                    assert(schema_cells_fit(cells.take(index + 1))) by {
                        assert forall|i: int| 0 <= i < index + 1 implies schema_cell_fits(
                            #[trigger] cells.take(index + 1)[i],
                        ) by {
                            if i < index {
                                assert(cells.take(index as int)[i] == cells.take(index + 1)[i]);
                            }
                        }
                    }
                },
            }
            index = index + 1;
        }
        assert(cells.take(index as int) =~= cells);
        assert(schema_rows(cells).take(index as int) =~= schema_rows(cells));
        Some(rows)
    }
}

/// The prefix `sqlite_`, which marks the objects that the file format keeps
/// for its own bookkeeping.
pub open spec fn reserved_prefix() -> Seq<char> {
    seq!['s', 'q', 'l', 'i', 't', 'e', '_']
}

/// Whether `row` is listed among the tables: its name does not begin with
/// the reserved prefix.
pub open spec fn is_listed(row: SchemaRowView) -> bool {
    !has_prefix(row.name, reserved_prefix())
}

/// The table name of every listed row, in catalog order.
pub open spec fn listed_names(rows: Seq<SchemaRowView>) -> Seq<Seq<char>> {
    rows.filter(|row: SchemaRowView| is_listed(row)).map_values(
        |row: SchemaRowView| row.table_name,
    )
}

/// The table name of every row whose name does not begin with `sqlite_`,
/// in catalog order.
pub fn table_names(rows: &Vec<SchemaRow>) -> (r: Vec<String>)
    ensures
        strings_view(r@) == listed_names(schema_rows_view(rows@)),
{
    let prefix: Vec<char> = vec!['s', 'q', 'l', 'i', 't', 'e', '_'];
    assert(prefix@ =~= reserved_prefix());
    let ghost all = schema_rows_view(rows@);
    let mut names: Vec<String> = Vec::new();
    let mut index: usize = 0;
    proof {
        reveal(Seq::filter);
        assert(strings_view(names@) =~= listed_names(all.take(0)));
    }
    while index < rows.len()
        invariant
            index <= rows@.len(),
            all == schema_rows_view(rows@),
            prefix@ == reserved_prefix(),
            strings_view(names@) == listed_names(all.take(index as int)),
        decreases rows@.len() - index,
    {
        let row = &rows[index];
        let ghost before = names@;
        let name_chars = chars_of(row.name.as_str());
        proof {
            reveal(Seq::filter);
            assert(all.take(index + 1).drop_last() =~= all.take(index as int));
            assert(all.take(index + 1).last() == row@);
        }
        if !starts_with(name_chars.as_slice(), prefix.as_slice()) {
            names.push(row.table_name.clone());
            assert(strings_view(names@) =~= strings_view(before).push(row.table_name@));
            assert(strings_view(names@) =~= listed_names(all.take(index + 1)));
        } else {
            assert(strings_view(names@) =~= listed_names(all.take(index + 1)));
        }
        index = index + 1;
    }
    assert(all.take(index as int) =~= all);
    names
}

/// The names of the tables in the catalog: the table name of every row
/// whose name does not begin with `sqlite_`, in cell order. `None` when a
/// cell of the schema page holds no catalog row.
pub fn get_table_names(schema_data: &SchemaRAW) -> (r: Option<Vec<String>>)
    ensures
        r is Some <==> schema_cells_fit(buffers_view(schema_data.cells@)),
        r matches Some(names) ==> strings_view(names@) == listed_names(
            schema_rows(buffers_view(schema_data.cells@)),
        ),
{
    match schema_data.to_schema_rows() {
        None => None,
        Some(rows) => Some(table_names(&rows)),
    }
}

proof fn lemma_filter_members(rows: Seq<SchemaRowView>, keep: spec_fn(SchemaRowView) -> bool)
    ensures
        forall|j: int|
            0 <= j < rows.filter(keep).len() ==> keep(#[trigger] rows.filter(keep)[j])
                && rows.contains(rows.filter(keep)[j]),
    decreases rows.len(),
{
    reveal(Seq::filter);
    if rows.len() > 0 {
        let front = rows.drop_last();
        lemma_filter_members(front, keep);
        assert forall|j: int| 0 <= j < rows.filter(keep).len() implies keep(
            #[trigger] rows.filter(keep)[j],
        ) && rows.contains(rows.filter(keep)[j]) by {
            if j < front.filter(keep).len() {
                let kept = front.filter(keep)[j];
                assert(rows.filter(keep)[j] == kept);
                let at = choose|i: int| 0 <= i < front.len() && front[i] == kept;
                assert(rows[at] == kept);
            } else {
                assert(rows.filter(keep)[j] == rows.last());
                assert(rows[rows.len() - 1] == rows.last());
            }
        }
    }
}

/// No listed name begins with `sqlite_`, in a catalog in which no row
/// carries a table name with that prefix under a name without it.
pub proof fn lemma_listed_names_not_reserved(rows: Seq<SchemaRowView>)
    requires
        forall|i: int|
            0 <= i < rows.len() && has_prefix((#[trigger] rows[i]).table_name, reserved_prefix())
                ==> has_prefix(rows[i].name, reserved_prefix()),
    ensures
        forall|j: int|
            0 <= j < listed_names(rows).len() ==> !has_prefix(
                #[trigger] listed_names(rows)[j],
                reserved_prefix(),
            ),
{
    let keep = |row: SchemaRowView| is_listed(row);
    lemma_filter_members(rows, keep);
    assert forall|j: int| 0 <= j < listed_names(rows).len() implies !has_prefix(
        #[trigger] listed_names(rows)[j],
        reserved_prefix(),
    ) by {
        let kept = rows.filter(keep)[j];
        assert(keep(kept) && rows.contains(kept));
        let at = choose|i: int| 0 <= i < rows.len() && rows[i] == kept;
        assert(rows[at] == kept);
    }
}

} // verus!
