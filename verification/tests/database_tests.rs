#![allow(non_snake_case)]

use sqlite_fsr::btree::{read_page, walk_table, PageFault};
use sqlite_fsr::command::{command_arguments, run_command};
use sqlite_fsr::dbfile::{select, DBFile};
use sqlite_fsr::error::{CommandArgsError, RunError, SQLCommandError};
use sqlite_fsr::schema::{get_dbinfo, get_table_names, SchemaRAW};
use sqlite_fsr::select::{aggregate_table_rows, TableRow, TableRows};
use sqlite_fsr::statement::{AggregatorFunction, SQLStatement, ToSQLStatement};
use sqlite_fsr::varint::encode_varint;

const PAGE_SIZE: usize = 4096;

enum Value<'a> {
    Null,
    Text(&'a str),
    Byte(u8),
}

fn record(values: &[Value]) -> Vec<u8> {
    let mut types: Vec<u8> = Vec::new();
    let mut body: Vec<u8> = Vec::new();
    for value in values {
        match value {
            Value::Null => types.extend(encode_varint(0)),
            Value::Text(text) => {
                types.extend(encode_varint(13 + 2 * text.len() as i64));
                body.extend(text.as_bytes());
            }
            Value::Byte(byte) => {
                types.extend(encode_varint(1));
                body.push(*byte);
            }
        }
    }
    let header_len = types.len() + 1;
    assert!(header_len < 128);
    let mut out = encode_varint(header_len as i64);
    out.extend(types);
    out.extend(body);
    out
}

fn leaf_cell(row_id: i64, record: &[u8]) -> Vec<u8> {
    let mut cell = encode_varint(record.len() as i64);
    cell.extend(encode_varint(row_id));
    cell.extend(record);
    cell
}

fn put_u16(page: &mut [u8], at: usize, value: usize) {
    page[at] = (value / 256) as u8;
    page[at + 1] = (value % 256) as u8;
}

fn put_u32(page: &mut [u8], at: usize, value: u32) {
    page[at..at + 4].copy_from_slice(&value.to_be_bytes());
}

fn page_with_cells(page_size: usize, base: usize, header_len: usize, tag: u8, cells: &[Vec<u8>]) -> Vec<u8> {
    let mut page = vec![0u8; page_size];
    page[base] = tag;
    put_u16(&mut page, base + 3, cells.len());
    let mut end = page_size;
    for (index, cell) in cells.iter().enumerate() {
        end -= cell.len();
        page[end..end + cell.len()].copy_from_slice(cell);
        put_u16(&mut page, base + header_len + 2 * index, end);
    }
    assert!(base + header_len + 2 * cells.len() <= end);
    page
}

fn leaf_page(page_size: usize, base: usize, cells: &[Vec<u8>]) -> Vec<u8> {
    page_with_cells(page_size, base, 8, 0x0D, cells)
}

fn interior_page(page_size: usize, cells: &[(u32, i64)], right_most: u32) -> Vec<u8> {
    let encoded: Vec<Vec<u8>> = cells
        .iter()
        .map(|(child, key)| {
            let mut cell = child.to_be_bytes().to_vec();
            cell.extend(encode_varint(*key));
            cell
        })
        .collect();
    let mut page = page_with_cells(page_size, 0, 12, 0x05, &encoded);
    put_u32(&mut page, 8, right_most);
    page
}

fn schema_cell(row_id: i64, kind: &str, name: &str, table: &str, root: u8, sql: &str) -> Vec<u8> {
    leaf_cell(
        row_id,
        &record(&[
            Value::Text(kind),
            Value::Text(name),
            Value::Text(table),
            Value::Byte(root),
            Value::Text(sql),
        ]),
    )
}

fn database(page_size: usize, schema_cells: &[Vec<u8>], pages: &[Vec<u8>]) -> Vec<u8> {
    let mut image = leaf_page(page_size, 100, schema_cells);
    image[0..16].copy_from_slice(b"SQLite format 3\0");
    put_u16(&mut image, 16, page_size);
    for page in pages {
        assert_eq!(page.len(), page_size);
        image.extend(page);
    }
    image
}

fn text_row(row_id: i64, texts: &[&str]) -> Vec<u8> {
    let mut values = vec![Value::Null];
    for text in texts {
        values.push(Value::Text(text));
    }
    leaf_cell(row_id, &record(&values))
}

const APPLES_SQL: &str =
    "CREATE TABLE apples\n(\n\tid integer primary key autoincrement,\n\tname text,\n\tcolor text\n)";
const SEQUENCE_SQL: &str = "CREATE TABLE sqlite_sequence(name,seq)";
const ORANGES_SQL: &str =
    "CREATE TABLE oranges\n(\n\tid integer primary key autoincrement,\n\tname text,\n\tdescription text\n)";

fn sample_image() -> Vec<u8> {
    let apples = leaf_page(
        PAGE_SIZE,
        0,
        &[
            text_row(1, &["Granny Smith", "Light Green"]),
            text_row(2, &["Fuji", "Red"]),
            text_row(3, &["Honeycrisp", "Blush Red"]),
            text_row(4, &["Golden Delicious", "Yellow"]),
        ],
    );
    let sequence = leaf_page(
        PAGE_SIZE,
        0,
        &[
            leaf_cell(1, &record(&[Value::Text("apples"), Value::Byte(4)])),
            leaf_cell(2, &record(&[Value::Text("oranges"), Value::Byte(6)])),
        ],
    );
    let oranges = leaf_page(
        PAGE_SIZE,
        0,
        &[
            text_row(1, &["Mandarin", "great for snacking"]),
            text_row(2, &["Tangelo", "sweet and tart"]),
            text_row(3, &["Tangerine", "great for sweet juice"]),
            text_row(4, &["Clementine", "usually seedless, great for snacking"]),
            text_row(5, &["Valencia Orange", "best for juicing"]),
            text_row(6, &["Navel Orange", "sweet with slight bitterness"]),
        ],
    );
    database(
        PAGE_SIZE,
        &[
            schema_cell(1, "table", "apples", "apples", 2, APPLES_SQL),
            schema_cell(2, "table", "sqlite_sequence", "sqlite_sequence", 3, SEQUENCE_SQL),
            schema_cell(3, "table", "oranges", "oranges", 4, ORANGES_SQL),
        ],
        &[apples, sequence, oranges],
    )
}

fn sample_db() -> DBFile {
    DBFile::from_bytes(sample_image()).unwrap()
}

/// Builds a table B-tree with `row_count` rows whose row ids run from 1 up,
/// `rows_per_leaf` rows to a leaf and at most `fanout` children to an
/// interior page. The root becomes page 2, all other pages follow it.
fn tree_image(table: &str, sql: &str, row_count: i64, rows_per_leaf: usize, fanout: usize) -> Vec<u8> {
    let mut pages: Vec<Vec<u8>> = vec![Vec::new()];
    let mut level: Vec<(u32, i64)> = Vec::new();
    let mut cells: Vec<Vec<u8>> = Vec::new();
    let mut row_id = 1;
    while row_id <= row_count {
        let name = format!("{} {}", table, row_id);
        cells.push(text_row(row_id, &[&name]));
        if cells.len() == rows_per_leaf || row_id == row_count {
            pages.push(leaf_page(PAGE_SIZE, 0, &cells));
            level.push((pages.len() as u32 + 1, row_id));
            cells.clear();
        }
        row_id += 1;
    }
    while level.len() > 1 {
        let mut above: Vec<(u32, i64)> = Vec::new();
        for group in level.chunks(fanout) {
            let last = group[group.len() - 1];
            pages.push(interior_page(PAGE_SIZE, &group[..group.len() - 1], last.0));
            above.push((pages.len() as u32 + 1, last.1));
        }
        level = above;
    }
    let root = pages.pop().unwrap();
    let moved = pages.len() as u32 + 2;
    pages[0] = root;
    assert!(level.is_empty() || level[0].0 == moved);
    database(PAGE_SIZE, &[schema_cell(1, "table", table, table, 2, sql)], &pages)
}

fn superheroes_db() -> DBFile {
    DBFile::from_bytes(tree_image(
        "superheroes",
        "CREATE TABLE superheroes (id integer primary key autoincrement, name text not null)",
        6895,
        100,
        40,
    ))
    .unwrap()
}

fn companies_db() -> DBFile {
    DBFile::from_bytes(tree_image(
        "companies",
        "CREATE TABLE companies\n(\n\tid integer primary key autoincrement\n, name text)",
        55991,
        120,
        25,
    ))
    .unwrap()
}

fn lines(rows: &TableRows) -> Vec<String> {
    rows.iter().map(|row| row.to_text()).collect()
}

fn run(args: &[String]) -> Result<String, RunError> {
    let (_path, command) = match command_arguments(args) {
        Ok(found) => found,
        Err(error) => return Err(RunError::Args(error)),
    };
    run_command(&sample_db(), &command)
}

#[test]
fn main_test_run_fails_when_missing_all_args() {
    let args = vec![String::new()];
    let result = run(&args).unwrap_err();
    assert!(matches!(result, RunError::Args(CommandArgsError::MissingArgs)));
}

#[test]
fn main_test_run_fails_when_missing_one_args() {
    let args = vec![String::new(), String::from("./tests/assets/sample.db")];
    let result = run(&args).unwrap_err();
    assert!(matches!(result, RunError::Args(CommandArgsError::MissingCommand)));
}

#[test]
fn main_test_run_fails_when_invalid_command() {
    let args = vec![
        String::new(),
        String::from("./tests/assets/sample.db"),
        String::from(".dbpictures"),
    ];
    let result = run(&args).unwrap_err();
    assert!(matches!(result, RunError::Args(CommandArgsError::InvalidCommand(_))));
}

#[test]
fn main_test_run_succeeds_when_valid_command() {
    let args =
        vec![String::new(), String::from("./tests/assets/sample.db"), String::from(".dbinfo")];
    let result = run(&args);
    assert!(result.is_ok());
}

#[test]
fn main_test_run_returns_correct_output() {
    let args = vec![
        String::new(),
        String::from("./tests/assets/sample.db"),
        String::from("SELECT * FROM apples;"),
    ];
    let result = run(&args).unwrap();
    assert_eq!(
        result,
        String::from(
            "1 Granny Smith Light Green\n2 Fuji Red\n3 Honeycrisp Blush Red\n4 Golden Delicious Yellow\n"
        )
    );
}

#[test]
fn cli_test_test_run_fails_when_missing_all_args() {
    let args = vec![String::from("/path/to/binary")];
    let result = run(&args).unwrap_err();
    assert!(matches!(result, RunError::Args(CommandArgsError::MissingArgs)));
}

#[test]
fn cli_test_test_run_fails_when_missing_one_args() {
    let args = vec![String::from("/path/to/binary"), String::from("./sample.db")];
    let result = run(&args).unwrap_err();
    assert!(matches!(result, RunError::Args(CommandArgsError::MissingCommand)));
}

#[test]
fn cli_test_test_run_fails_when_invalid_command() {
    let args = vec![
        String::from("/path/to/binary"),
        String::from("./sample.db"),
        String::from(".dbpictures"),
    ];
    let result = run(&args).unwrap_err();
    assert!(matches!(result, RunError::Args(CommandArgsError::InvalidCommand(_))));
}

#[test]
fn cli_test_test_run_succeeds_when_valid_command() {
    let args = vec![
        String::from("/path/to/binary"),
        String::from("./sample.db"),
        String::from(".dbinfo"),
    ];
    let result = run(&args);
    assert!(result.is_ok());
}

#[test]
fn lib_tests_test_run_fails_when_missing_all_args() {
    let args = vec![String::new()];
    let result = run(&args).unwrap_err();
    assert!(matches!(result, RunError::Args(CommandArgsError::MissingArgs)));
}

#[test]
fn lib_tests_test_run_fails_when_missing_one_args() {
    let args = vec![String::new(), String::from("./tests/assets/sample.db")];
    let result = run(&args).unwrap_err();
    assert!(matches!(result, RunError::Args(CommandArgsError::MissingCommand)));
}

#[test]
fn lib_tests_test_run_fails_when_invalid_command() {
    let args = vec![
        String::new(),
        String::from("./tests/assets/sample.db"),
        String::from(".dbpictures"),
    ];
    let result = run(&args).unwrap_err();
    assert!(matches!(result, RunError::Args(CommandArgsError::InvalidCommand(_))));
}

#[test]
fn lib_tests_test_run_succeeds_when_valid_command() {
    let args =
        vec![String::new(), String::from("./tests/assets/sample.db"), String::from(".dbinfo")];
    let result = run(&args);
    assert!(result.is_ok());
}

#[test]
fn lib_tests_test_run_returns_correct_output() {
    let args = vec![
        String::new(),
        String::from("./tests/assets/sample.db"),
        String::from("SELECT * FROM apples;"),
    ];
    let result = run(&args).unwrap();
    assert_eq!(
        result,
        String::from(
            "1 Granny Smith Light Green\n2 Fuji Red\n3 Honeycrisp Blush Red\n4 Golden Delicious Yellow\n"
        )
    );
}

#[test]
fn cli_test_test_dbinfo_command_reads_pagesize_correctly() {
    let DB_PAGE_SIZE: u16 = 4096;

    let schema = SchemaRAW {
        page_size: DB_PAGE_SIZE,
        file_header: [0; 100],
        page_header: [0; 8],
        cell_pointer_array: Vec::new(),
        cells: Vec::new(),
    };

    let (result, _) = get_dbinfo(&schema);
    assert_eq!(result, 4096);
}

#[test]
fn cli_test_test_dbinfo_command_reads_table_count_correctly() {
    let schema = SchemaRAW {
        page_size: 4096,
        file_header: [0; 100],
        page_header: {
            let mut header = [0u8; 8];
            header[3..5].copy_from_slice(&(3u16).to_be_bytes());
            header
        },
        cell_pointer_array: vec![3983, 3901, 3779],
        cells: vec![vec![0; 111], vec![0; 80], vec![0; 120]],
    };

    let (_, result) = get_dbinfo(&schema);
    assert_eq!(result, 3);
}

#[test]
fn command_dbinfo_tests_test_dbinfo_command_reads_pagesize_correctly() {
    let dbfile = sample_db();
    let (result, _) = dbfile.get_dbinfo();
    assert_eq!(result, 4096);
}

#[test]
fn command_dbinfo_tests_test_dbinfo_command_reads_table_count_correctly() {
    let dbfile = sample_db();
    let result = dbfile.get_table_names();
    assert_eq!(result.len(), 2);
}

#[test]
fn cli_test_test_tables_command_reads_table_names_correctly() {
    let image = sample_image();
    let raw_schema = SchemaRAW::from_bytes(&image[0..PAGE_SIZE]).unwrap();
    let result = get_table_names(&raw_schema).unwrap();
    assert_eq!(result, ["apples", "oranges"]);
}

#[test]
fn command_table_tests_test_tables_command_reads_table_names_correctly() {
    let dbfile = sample_db();
    let result = dbfile.get_table_names();
    assert_eq!(result, ["apples", "oranges"]);
}

fn schemaraw_fixture() -> [u8; 4096] {
    let DB_PAGE_SIZE = 4096 as u16;
    let SCHEMA_PAGE_TYPE = 13 as u8;
    let SCHEMA_PAGE_CELL_COUNT = 3 as u16;

    let mut data = [0; 4096];
    data[16..18].copy_from_slice(&DB_PAGE_SIZE.to_be_bytes());
    data[100] = SCHEMA_PAGE_TYPE;
    data[103..105].copy_from_slice(&SCHEMA_PAGE_CELL_COUNT.to_be_bytes());

    let CELL1_OFFSET: u16 = 3983;
    let CELL1_SIZE = encode_varint(111);
    data[108..110].copy_from_slice(&(CELL1_OFFSET).to_be_bytes());
    data[CELL1_OFFSET as usize..(CELL1_OFFSET as usize + CELL1_SIZE.len())]
        .copy_from_slice(&CELL1_SIZE);

    let CELL2_OFFSET: u16 = 3901;
    let CELL2_SIZE = encode_varint(80);
    data[110..112].copy_from_slice(&(CELL2_OFFSET).to_be_bytes());
    data[CELL2_OFFSET as usize..(CELL2_OFFSET as usize + CELL2_SIZE.len())]
        .copy_from_slice(&CELL2_SIZE);

    let CELL3_OFFSET: u16 = 3779;
    let CELL3_SIZE = encode_varint(120);
    data[112..114].copy_from_slice(&(CELL3_OFFSET).to_be_bytes());
    data[CELL3_OFFSET as usize..(CELL3_OFFSET as usize + CELL3_SIZE.len())]
        .copy_from_slice(&CELL3_SIZE);
    data
}

#[test]
fn cli_test_test_from_bytes_extracts_schemaraw_data_correctly() {
    let DB_PAGE_SIZE = 4096 as u16;
    let SCHEMA_PAGE_CELL_COUNT = 3 as u16;
    let data = schemaraw_fixture();

    let raw_schema_data = SchemaRAW::from_bytes(&data).unwrap();
    assert_eq!(raw_schema_data.file_header[16..18], DB_PAGE_SIZE.to_be_bytes());
    assert_eq!(raw_schema_data.page_header[3..5], SCHEMA_PAGE_CELL_COUNT.to_be_bytes());

    let cell_pointers: [u16; 3] = raw_schema_data.cell_pointer_array.clone().try_into().unwrap();
    assert_eq!(cell_pointers, [3983, 3901, 3779])
}

#[test]
fn command_table_tests_test_from_bytes_extracts_schemaraw_data_correctly() {
    let DB_PAGE_SIZE = 4096 as u16;
    let SCHEMA_PAGE_CELL_COUNT = 3 as u16;
    let data = schemaraw_fixture();

    let raw_schema_data = SchemaRAW::from_bytes(&data).unwrap();
    assert_eq!(raw_schema_data.file_header[16..18], DB_PAGE_SIZE.to_be_bytes());
    assert_eq!(raw_schema_data.page_header[3..5], SCHEMA_PAGE_CELL_COUNT.to_be_bytes());

    let cell_pointers: [u16; 3] = raw_schema_data.cell_pointer_array.clone().try_into().unwrap();
    assert_eq!(cell_pointers, [3983, 3901, 3779]);
    assert_eq!(raw_schema_data.page_size, 4096);
    assert_eq!(raw_schema_data.cells.len(), 3);
    assert_eq!(raw_schema_data.cells[0].len(), 113);
    assert_eq!(raw_schema_data.cells[1].len(), 82);
    assert_eq!(raw_schema_data.cells[2].len(), 122);
}

#[test]
fn test_COUNT_sql_command_executes_without_error() {
    let args = vec![
        String::from("/path/to/binary"),
        String::from("./sample.db"),
        String::from("\"SELECT COUNT(*) FROM apples\""),
    ];
    let result = run(&args);
    assert!(result.is_ok());
    assert_eq!(result.unwrap(), "4\n");
}

fn count_records(db: &DBFile, words: Vec<&str>) -> Result<usize, SQLCommandError> {
    let statement = match words.to_sql_statment() {
        Ok(SQLStatement::Select(statement)) => statement,
        _ => panic!("expected a SELECT statement"),
    };
    let table = db.get_table(&statement.table_name)?;
    match table.to_table_rows() {
        Ok(records) => Ok(records.len()),
        Err(fault) => Err(SQLCommandError::CorruptPage(fault.page_number, fault.tag)),
    }
}

#[test]
fn cli_test_test_COUNT_sql_command_returns_correct_number_of_rows() {
    let file = sample_db();
    let result = count_records(&file, ["SELECT", "COUNT(*)", "FROM", "apples"].to_vec()).unwrap();
    assert_eq!(result, 4);
}

#[test]
fn cli_test_test_COUNT_sql_command_returns_correct_number_of_rows_2() {
    let file = sample_db();
    let result = count_records(&file, ["SELECT", "COUNT(*)", "FROM", "oranges"].to_vec()).unwrap();
    assert_eq!(result, 6);
}

#[test]
fn cli_test_test_COUNT_sql_command_returns_correct_number_of_rows_3() {
    let file = superheroes_db();
    let result =
        count_records(&file, ["SELECT", "COUNT(*)", "FROM", "superheroes"].to_vec()).unwrap();
    assert_eq!(result, 6895);
}

#[test]
fn cli_test_test_COUNT_sql_command_returns_correct_number_of_rows_4() {
    let file = companies_db();
    let result =
        count_records(&file, ["SELECT", "COUNT(*)", "FROM", "companies"].to_vec()).unwrap();
    assert_eq!(result, 55991);
}

#[test]
fn cli_test_test_SELECT_sql_command_returns_correct_values() {
    let file = sample_db();
    let statement = match ["SELECT", "name", "FROM", "apples"].to_vec().to_sql_statment() {
        Ok(SQLStatement::Select(statement)) => statement,
        _ => panic!("expected a SELECT statement"),
    };
    let table = file.get_table(&statement.table_name).unwrap();
    let result: Vec<String> =
        select(&table, &statement).unwrap().iter().map(|record| record.to_text()).collect();

    assert_eq!(result, vec!["Granny Smith", "Fuji", "Honeycrisp", "Golden Delicious"]);
}

#[test]
fn cli_test_test_COUNT_sql_command_returns_error_when_table_not_found() {
    let file = sample_db();
    let result = count_records(&file, ["SELECT", "COUNT(*)", "FROM", "seafood"].to_vec());
    assert!(result.is_err());
}

#[test]
fn command_sql_tests_test_COUNT_sql_command_returns_correct_number_of_rows() {
    let file = sample_db();
    let sql_statement = "SELECT COUNT(*) FROM apples";
    let result: Vec<String> = lines(&file.execute(sql_statement).unwrap());
    assert_eq!(result, vec!["4"]);
}

#[test]
fn command_sql_tests_test_COUNT_sql_command_returns_correct_number_of_rows_2() {
    let file = sample_db();
    let sql_statement = "SELECT COUNT(*) FROM oranges";
    let result: Vec<String> = lines(&file.execute(sql_statement).unwrap());
    assert_eq!(result, vec!["6"]);
}

#[test]
fn command_sql_tests_test_COUNT_sql_command_returns_correct_number_of_rows_3() {
    let file = superheroes_db();
    let sql_statement = "SELECT COUNT(*) FROM superheroes";
    let result: Vec<String> = lines(&file.execute(sql_statement).unwrap());
    assert_eq!(result, vec!["6895"]);
}

#[test]
fn command_sql_tests_test_COUNT_sql_command_returns_correct_number_of_rows_4() {
    let file = companies_db();
    let sql_statement = "SELECT COUNT(*) FROM companies";
    let result: Vec<String> = lines(&file.execute(sql_statement).unwrap());
    assert_eq!(result, vec!["55991"]);
}

#[test]
fn command_sql_tests_test_SELECT_sql_command_returns_correct_values() {
    let file = sample_db();
    let sql_statement = "SELECT name FROM apples";
    let result: Vec<String> = lines(&file.execute(sql_statement).unwrap());

    assert_eq!(result, vec!["Granny Smith", "Fuji", "Honeycrisp", "Golden Delicious"]);
}

#[test]
fn test_SELECT_sql_command_returns_correct_values_2() {
    let file = sample_db();
    let sql_statement = "SELECT name, color FROM apples";

    let result: Vec<String> = lines(&file.execute(sql_statement).unwrap());

    assert_eq!(
        result,
        vec!["Granny Smith Light Green", "Fuji Red", "Honeycrisp Blush Red", "Golden Delicious Yellow"]
    );
}

#[test]
fn test_SELECT_sql_command_returns_correct_values_3() {
    let file = sample_db();
    let sql_statement = "SELECT * FROM apples";
    let result: Vec<String> = lines(&file.execute(sql_statement).unwrap());

    assert_eq!(
        result,
        vec![
            "1 Granny Smith Light Green",
            "2 Fuji Red",
            "3 Honeycrisp Blush Red",
            "4 Golden Delicious Yellow"
        ]
    );
}

#[test]
fn command_sql_tests_test_COUNT_sql_command_returns_error_when_table_not_found() {
    let file = sample_db();
    let result = file.execute("SELECT COUNT(*) FROM seafood");
    assert!(result.is_err());
    assert!(matches!(result, Err(SQLCommandError::UnknownTable(name)) if name == "seafood"));
}

#[test]
fn test_sql_command_returns_error_when_command_not_supported() {
    let file = sample_db();
    let result = file.execute("WHOOPTY COUNT(*) FROM seafood");
    assert!(result.is_err());
    assert!(matches!(
        result,
        Err(SQLCommandError::UnsupportedCommand(text)) if text == "WHOOPTY COUNT(*) FROM seafood"
    ));
}

#[test]
fn test_tablerow_index_operator_access() {
    let file = sample_db();
    let sql_statement = "SELECT name, color FROM apples";
    let results = file.execute(sql_statement).unwrap();

    let first_row = &results[0];
    assert_eq!(first_row[0], "Granny Smith");
    assert_eq!(first_row[1], "Light Green");

    let second_row = &results[1];
    assert_eq!(second_row[0], "Fuji");
    assert_eq!(second_row[1], "Red");
}

#[test]
fn test_tablerow_with_all_columns() {
    let file = sample_db();
    let sql_statement = "SELECT * FROM apples";
    let results = file.execute(sql_statement).unwrap();

    let first_row = &results[0];
    assert_eq!(first_row[0], "1");
    assert_eq!(first_row[1], "Granny Smith");
    assert_eq!(first_row[2], "Light Green");
}

#[test]
fn dbinfo_gives_header_page_size_and_schema_cell_count() {
    let image = sample_image();
    let db = DBFile::from_bytes(image.clone()).unwrap();
    let expected_size = u16::from_be_bytes([image[16], image[17]]);
    let expected_count = u16::from_be_bytes([image[103], image[104]]) as usize;
    assert_eq!(db.get_dbinfo(), (expected_size, expected_count));
    assert_eq!(db.get_dbinfo(), (4096, 3));
    assert_eq!(run_command(&db, ".dbinfo").unwrap(), "database page size: 4096\nnumber of tables: 3");
}

#[test]
fn tables_command_joins_names_with_spaces() {
    assert_eq!(run_command(&sample_db(), ".tables").unwrap(), "apples oranges");
}

#[test]
fn table_names_leave_out_reserved_names() {
    let names = sample_db().get_table_names();
    assert!(names.iter().all(|name| !name.starts_with("sqlite_")));
}

#[test]
fn table_names_follow_the_name_but_list_the_table_name() {
    let image = database(
        PAGE_SIZE,
        &[
            schema_cell(1, "table", "apples", "apples", 2, APPLES_SQL),
            schema_cell(2, "index", "sqlite_autoindex_apples_1", "apples", 3, ""),
            schema_cell(3, "index", "by_color", "sqlite_stat1", 3, "CREATE INDEX by_color ON apples (color)"),
        ],
        &[leaf_page(PAGE_SIZE, 0, &[]), leaf_page(PAGE_SIZE, 0, &[])],
    );
    let db = DBFile::from_bytes(image).unwrap();
    assert_eq!(db.get_dbinfo().1, 3);
    assert_eq!(db.get_table_names(), ["apples", "sqlite_stat1"]);
}

#[test]
fn open_fails_on_short_or_foreign_bytes() {
    assert!(DBFile::from_bytes(Vec::new()).is_none());
    assert!(DBFile::from_bytes(vec![0; 17]).is_none());
    let image = sample_image();
    assert!(DBFile::from_bytes(image[0..PAGE_SIZE - 1].to_vec()).is_none());
    assert!(DBFile::from_bytes(image[0..PAGE_SIZE].to_vec()).is_some());
    let mut interior = image.clone();
    interior[100] = 0x05;
    assert!(DBFile::from_bytes(interior).is_none());
    let mut beyond = image.clone();
    put_u16(&mut beyond, 108, PAGE_SIZE - 1);
    assert!(DBFile::from_bytes(beyond).is_none());
    let mut small = image;
    put_u16(&mut small, 16, 64);
    assert!(DBFile::from_bytes(small).is_none());
}

#[test]
fn execute_reports_syntax_errors_with_the_offending_token() {
    let file = sample_db();
    let result = file.execute("SELECT * apples");
    assert!(matches!(result, Err(SQLCommandError::SyntaxError(text)) if text == "apples"));
    let result = file.execute("SELECT name FROM");
    assert!(matches!(result, Err(SQLCommandError::SyntaxError(text)) if text == ""));
    let result = file.execute("CREATE INDEX i ON apples (name)");
    assert!(matches!(result, Err(SQLCommandError::SyntaxError(text)) if text == "INDEX"));
}

#[test]
fn execute_does_not_support_create_sum_or_empty_text() {
    let file = sample_db();
    let result = file.execute("CREATE TABLE pears (id integer primary key)");
    assert!(matches!(result, Err(SQLCommandError::UnsupportedCommand(_))));
    let result = file.execute("SELECT SUM(id) FROM apples");
    assert!(matches!(
        result,
        Err(SQLCommandError::UnsupportedCommand(text)) if text == "SELECT SUM(id) FROM apples"
    ));
    let result = file.execute("SELECT SUM(id) FROM seafood");
    assert!(matches!(result, Err(SQLCommandError::UnknownTable(name)) if name == "seafood"));
    let result = file.execute("");
    assert!(matches!(result, Err(SQLCommandError::UnsupportedCommand(text)) if text == ""));
    let result = file.execute("select * from apples");
    assert!(matches!(result, Err(SQLCommandError::UnsupportedCommand(_))));
}

#[test]
fn select_keeps_request_order_and_drops_unknown_names() {
    let file = sample_db();
    assert_eq!(
        lines(&file.execute("SELECT color, name FROM apples").unwrap()),
        vec!["Light Green Granny Smith", "Red Fuji", "Blush Red Honeycrisp", "Yellow Golden Delicious"]
    );
    assert_eq!(
        lines(&file.execute("SELECT name, taste, id, name FROM apples").unwrap()),
        vec!["Granny Smith 1 Granny Smith", "Fuji 2 Fuji", "Honeycrisp 3 Honeycrisp", "Golden Delicious 4 Golden Delicious"]
    );
    let rows = file.execute("SELECT taste FROM apples").unwrap().0;
    assert_eq!(rows.len(), 4);
    assert!(rows.iter().all(|row| row.column_values.is_empty()));
}

#[test]
fn select_is_stable_under_reordering_of_the_request() {
    let file = sample_db();
    let forward = file.execute("SELECT id, name, color FROM apples").unwrap().0;
    let backward = file.execute("SELECT color, name, id FROM apples").unwrap().0;
    assert_eq!(forward.len(), backward.len());
    for (a, b) in forward.iter().zip(backward.iter()) {
        assert_eq!(a.row_id, b.row_id);
        let mut reversed = b.column_values.clone();
        reversed.reverse();
        assert_eq!(a.column_values, reversed);
    }
}

#[test]
fn select_shows_null_and_row_ids() {
    let rows = leaf_page(
        PAGE_SIZE,
        0,
        &[
            leaf_cell(-7, &record(&[Value::Null, Value::Null, Value::Text("x")])),
            leaf_cell(300, &record(&[Value::Null, Value::Text(""), Value::Null])),
            leaf_cell(9, &record(&[Value::Null])),
        ],
    );
    let image = database(
        PAGE_SIZE,
        &[schema_cell(1, "table", "t", "t", 2, "CREATE TABLE t (id INTEGER PRIMARY KEY, a, b)")],
        &[rows],
    );
    let db = DBFile::from_bytes(image).unwrap();
    let result = db.execute("SELECT * FROM t").unwrap();
    assert_eq!(lines(&result), vec!["-7 NULL x", "300 NULL NULL", "9"]);
    assert_eq!(result.0[0].row_id, -7);
    assert_eq!(result.0[1].row_id, 300);
    assert_eq!(result.to_text(), "-7 NULL x\n300 NULL NULL\n9\n");
    assert_eq!(lines(&db.execute("SELECT b, id FROM t").unwrap()), vec!["x -7", "NULL 300", "9"]);
}

#[test]
fn count_gives_one_row_with_row_id_one() {
    let rows = sample_db().execute("SELECT COUNT(name) FROM apples").unwrap().0;
    assert_eq!(rows.len(), 1);
    assert_eq!(rows[0].row_id, 1);
    assert_eq!(rows[0].column_values, vec!["4"]);
    let empty = aggregate_table_rows(Vec::new(), AggregatorFunction::COUNT);
    assert_eq!(empty.len(), 1);
    assert_eq!(empty[0].column_values, vec!["0"]);
    let many: Vec<TableRow> =
        (0..1203).map(|i| TableRow { row_id: i, column_values: Vec::new() }).collect();
    assert_eq!(aggregate_table_rows(many, AggregatorFunction::COUNT)[0].column_values, vec!["1203"]);
}

#[test]
fn walk_yields_strictly_ascending_row_ids_over_many_leaves() {
    let db = superheroes_db();
    let rows = db.execute("SELECT id, name FROM superheroes").unwrap().0;
    assert_eq!(rows.len(), 6895);
    for (index, row) in rows.iter().enumerate() {
        assert_eq!(row.row_id, index as i64 + 1);
        assert_eq!(row.column_values[0], (index + 1).to_string());
        assert_eq!(row.column_values[1], format!("superheroes {}", index + 1));
    }
}

#[test]
fn walk_visits_children_in_order_and_right_most_last() {
    let leaf = |ids: &[i64]| -> Vec<u8> {
        let cells: Vec<Vec<u8>> = ids.iter().map(|id| text_row(*id, &["r"])).collect();
        leaf_page(PAGE_SIZE, 0, &cells)
    };
    let root = interior_page(PAGE_SIZE, &[(4, 20), (3, 40)], 5);
    let image = database(
        PAGE_SIZE,
        &[schema_cell(1, "table", "t", "t", 2, "CREATE TABLE t (id INTEGER PRIMARY KEY, a)")],
        &[root, leaf(&[30, 40]), leaf(&[10, 20]), leaf(&[50])],
    );
    let records = walk_table(&image, PAGE_SIZE, 2, 5).unwrap();
    let ids: Vec<i64> = records.iter().map(|record| record.row_id).collect();
    assert_eq!(ids, vec![10, 20, 30, 40, 50]);
    assert_eq!(records[0].column_values, vec![Vec::new(), b"r".to_vec()]);
    let alone = walk_table(&image, PAGE_SIZE, 5, 0).unwrap();
    assert_eq!(alone.len(), 1);
    assert_eq!(alone[0].row_id, 50);
}

#[test]
fn walk_skips_index_pages() {
    let mut index_leaf = vec![0u8; PAGE_SIZE];
    index_leaf[0] = 0x0A;
    let mut index_interior = vec![0u8; PAGE_SIZE];
    index_interior[0] = 0x02;
    let root = interior_page(PAGE_SIZE, &[(3, 1), (4, 2)], 5);
    let image = database(
        PAGE_SIZE,
        &[schema_cell(1, "table", "t", "t", 2, "CREATE TABLE t (id INTEGER PRIMARY KEY, a)")],
        &[root, index_leaf, leaf_page(PAGE_SIZE, 0, &[text_row(2, &["kept"])]), index_interior],
    );
    let records = walk_table(&image, PAGE_SIZE, 2, 4).unwrap();
    assert_eq!(records.len(), 1);
    assert_eq!(records[0].row_id, 2);
    assert_eq!(walk_table(&image, PAGE_SIZE, 3, 4).unwrap().len(), 0);
}

#[test]
fn walk_reports_the_page_it_cannot_use() {
    let mut unknown = vec![0u8; PAGE_SIZE];
    unknown[0] = 0x07;
    let mut cut_leaf = leaf_page(PAGE_SIZE, 0, &[text_row(1, &["a"])]);
    put_u16(&mut cut_leaf, 8, PAGE_SIZE - 1);
    let root = interior_page(PAGE_SIZE, &[(3, 1)], 9);
    let cycle = interior_page(PAGE_SIZE, &[], 6);
    let image = database(
        PAGE_SIZE,
        &[
            schema_cell(1, "table", "t", "t", 2, "CREATE TABLE t (a)"),
            schema_cell(2, "table", "u", "u", 4, "CREATE TABLE u (a)"),
            schema_cell(3, "table", "v", "v", 5, "CREATE TABLE v (a)"),
            schema_cell(4, "table", "w", "w", 0, "CREATE TABLE w (a)"),
            schema_cell(5, "table", "x", "x", 6, "CREATE TABLE x (a)"),
            schema_cell(6, "table", "y", "y", 200, "CREATE TABLE y (a)"),
        ],
        &[root, leaf_page(PAGE_SIZE, 0, &[text_row(1, &["a"])]), unknown, cut_leaf, cycle],
    );
    assert_eq!(walk_table(&image, PAGE_SIZE, 2, 6).unwrap_err(), PageFault { page_number: 9, tag: 0 });
    assert_eq!(walk_table(&image, PAGE_SIZE, 2, 0).unwrap_err(), PageFault { page_number: 2, tag: 5 });
    assert_eq!(walk_table(&image, 0, 2, 6).unwrap_err(), PageFault { page_number: 2, tag: 0 });
    let db = DBFile::from_bytes(image).unwrap();
    assert!(matches!(db.execute("SELECT * FROM t"), Err(SQLCommandError::CorruptPage(9, 0))));
    assert!(matches!(db.execute("SELECT * FROM u"), Err(SQLCommandError::CorruptPage(4, 7))));
    assert!(matches!(db.execute("SELECT * FROM v"), Err(SQLCommandError::CorruptPage(5, 13))));
    assert!(matches!(db.execute("SELECT * FROM w"), Err(SQLCommandError::CorruptPage(0, 0))));
    assert!(matches!(db.execute("SELECT * FROM x"), Err(SQLCommandError::CorruptPage(6, 5))));
    assert!(matches!(db.execute("SELECT * FROM y"), Err(SQLCommandError::CorruptPage(0, 0))));
}

#[test]
fn read_page_gives_whole_pages_only() {
    let image = sample_image();
    assert_eq!(read_page(&image, PAGE_SIZE, 1).unwrap(), &image[0..PAGE_SIZE]);
    assert_eq!(read_page(&image, PAGE_SIZE, 4).unwrap(), &image[3 * PAGE_SIZE..4 * PAGE_SIZE]);
    assert!(read_page(&image, PAGE_SIZE, 0).is_none());
    assert!(read_page(&image, PAGE_SIZE, 5).is_none());
    assert!(read_page(&image[0..4 * PAGE_SIZE - 1], PAGE_SIZE, 4).is_none());
    assert!(read_page(&image, 0, 1).is_none());
}

#[test]
fn stored_definition_that_is_no_create_table_gives_its_syntax_error() {
    let image = database(
        PAGE_SIZE,
        &[schema_cell(1, "index", "by_name", "pears", 2, "CREATE INDEX by_name ON pears (name)")],
        &[leaf_page(PAGE_SIZE, 0, &[])],
    );
    let db = DBFile::from_bytes(image).unwrap();
    assert_eq!(db.entries.len(), 1);
    assert_eq!(db.entries[0].object_type, "index");
    assert_eq!(db.entries[0].name, "by_name");
    assert_eq!(db.entries[0].table_name, "pears");
    assert_eq!(db.entries[0].rootpage, 2);
    assert!(db.entries[0].sql.is_err());
    let result = db.execute("SELECT * FROM pears");
    assert!(matches!(result, Err(SQLCommandError::SyntaxError(text)) if text == "INDEX"));
}

#[test]
fn catalog_rows_hold_what_the_cells_store() {
    let db = sample_db();
    assert_eq!(db.entries.len(), 3);
    assert_eq!(db.entries[0].object_type, "table");
    assert_eq!(db.entries[0].name, "apples");
    assert_eq!(db.entries[0].table_name, "apples");
    assert_eq!(db.entries[0].rootpage, 2);
    let definition = db.entries[0].sql.as_ref().unwrap();
    assert_eq!(definition.table_name, "apples");
    assert_eq!(definition.columns, vec!["id", "name", "color"]);
    assert_eq!(definition.integer_primary_key_column, Some(0));
    assert_eq!(db.entries[1].name, "sqlite_sequence");
    assert_eq!(db.entries[1].sql.as_ref().unwrap().columns, vec!["name", "seq"]);
    assert_eq!(db.entries[2].rootpage, 4);
}

#[test]
fn run_command_strips_quotes_and_rejects_other_words() {
    let db = sample_db();
    assert_eq!(run_command(&db, "\"\".tables\"").unwrap(), "apples oranges");
    assert_eq!(run_command(&db, ".dbinfo extra words").unwrap(), "database page size: 4096\nnumber of tables: 3");
    let error = run_command(&db, "select * from apples").unwrap_err();
    assert!(matches!(error, RunError::Args(CommandArgsError::InvalidCommand(word)) if word == "select"));
    let error = run_command(&db, " SELECT * FROM apples").unwrap_err();
    assert!(matches!(error, RunError::Args(CommandArgsError::InvalidCommand(word)) if word == ""));
    let error = run_command(&db, "SELECT * FROM seafood").unwrap_err();
    assert!(matches!(error, RunError::Sql(SQLCommandError::UnknownTable(name)) if name == "seafood"));
    let error = run_command(&db, "").unwrap_err();
    assert!(matches!(error, RunError::Args(CommandArgsError::InvalidCommand(word)) if word == ""));
}
