#![allow(non_snake_case)]

use sqlite_fsr::error::SQLSyntaxError;
use sqlite_fsr::statement::{
    AggregatorFunction, CreateTableStatement, SQLStatement, SelectStatement, ToSQLStatement,
};
use sqlite_fsr::token::{tokenize_component, SQLToken, Symbol, ToSQLToken, Tokenize};

#[test]
fn test_ToSQLToken_converts_string_to_token_correctly() {
    let string = "SELECT";
    let result = string.tokenize();

    assert!(matches!(result[0], SQLToken::Keyword(_)));
}

#[test]
fn test_ToSQLToken_converts_string_to_token_correctly_2() {
    let string = ";";
    let result = string.tokenize();

    assert!(matches!(result[0], SQLToken::Symbol(Symbol::Semicolon)));
}

#[test]
fn test_ToSQLToken_converts_string_to_token_correctly_3() {
    let string = "age";
    let result = string.tokenize();

    assert!(matches!(result[0], SQLToken::Identifier(_)));
}

#[test]
fn test_ToSQLToken_converts_string_to_token_correctly_4() {
    let string = "(name,";
    let result = string.tokenize();

    assert_eq!(result.len(), 3);
    assert!(matches!(result[0], SQLToken::Symbol(Symbol::LeftParenthesis)));
    assert!(matches!(result[1], SQLToken::Identifier(_)));
    assert!(matches!(result[2], SQLToken::Symbol(Symbol::Comma)));
}

#[test]
fn test_ToSQLToken_converts_string_to_token_correctly_5() {
    let string = "SELECT (name, age, weight) FROM people;";
    let result = string.tokenize();

    assert_eq!(result.len(), 11);
    assert!(matches!(result[0], SQLToken::Keyword(_)));
    assert!(matches!(result[1], SQLToken::Symbol(Symbol::LeftParenthesis)));
    assert!(matches!(result[2], SQLToken::Identifier(_)));
    assert!(matches!(result[3], SQLToken::Symbol(Symbol::Comma)));
    assert!(matches!(result[4], SQLToken::Identifier(_)));
    assert!(matches!(result[5], SQLToken::Symbol(Symbol::Comma)));
    assert!(matches!(result[6], SQLToken::Identifier(_)));
    assert!(matches!(result[7], SQLToken::Symbol(Symbol::RightParenthesis)));
    assert!(matches!(result[8], SQLToken::Keyword(_)));
    assert!(matches!(result[9], SQLToken::Identifier(_)));
    assert!(matches!(result[10], SQLToken::Symbol(Symbol::Semicolon)));
}

#[test]
fn test_ToSQLToken_converts_string_to_token_correctly_6() {
    let string = "(name,";
    let result = string.tokenize();

    assert_eq!(result.len(), 3);
    match &result[1] {
        SQLToken::Identifier(identifier) => assert_eq!(identifier, "name"),
        _ => panic!("Expected CreateTable statement"),
    }
}

#[test]
fn test_ToSQLToken_converts_string_to_token_correctly_7() {
    let string = "name TEXT);";
    let result = string.tokenize();

    assert_eq!(result.len(), 4);
    match &result[0] {
        SQLToken::Identifier(identifier) => assert_eq!(identifier, "name"),
        _ => panic!("Expected CreateTable statement"),
    }
}

#[test]
fn test_ToSQLStatement_converts_string_to_statement_correct_1() {
    let string = "SELECT (name, age, weight) FROM people;";
    let result = string.to_sql_statment().unwrap();

    assert!(matches!(result, SQLStatement::Select(_)))
}

#[test]
fn test_ToSQLStatement_converts_string_to_statement_correctly_2() {
    let string = "CREATE TABLE users (id INTEGER PRIMARY KEY, name TEXT);";
    let result = string.to_sql_statment().unwrap();

    assert!(matches!(result, SQLStatement::CreateTable(_)))
}

#[test]
fn test_ToSQLStatement_extracts_tablename_from_CREATE_statement_correctly() {
    let string = "CREATE TABLE users (id INTEGER PRIMARY KEY, name TEXT);";
    let result = string.to_sql_statment().unwrap();
    match result {
        SQLStatement::CreateTable(statement) => assert_eq!(statement.table_name, "users"),
        _ => panic!("Expected CreateTable statement"),
    }
}

#[test]
fn test_ToSQLStatement_extracts_columns_from_CREATE_statement_correctly() {
    let string = "CREATE TABLE users (id INTEGER PRIMARY KEY, name TEXT);";
    let result = string.to_sql_statment().unwrap();
    match result {
        SQLStatement::CreateTable(statement) => assert_eq!(statement.columns, vec!["id", "name"]),
        _ => panic!("Expected CreateTable statement"),
    }
}

#[test]
fn test_ToSQLStatement_extracts_columns_from_CREATE_statement_correctly_2() {
    let string = "CREATE TABLE users ( id INTEGER PRIMARY KEY, name TEXT );";
    let result = string.to_sql_statment().unwrap();
    match result {
        SQLStatement::CreateTable(statement) => assert_eq!(statement.columns, vec!["id", "name"]),
        _ => panic!("Expected CreateTable statement"),
    }
}

#[test]
fn test_ToSQLStatement_extracts_columns_from_SELECT_statement_correctly() {
    let string = "SELECT (name, age, weight) FROM people;";
    let result = string.to_sql_statment().unwrap();
    match result {
        SQLStatement::Select(statement) => match statement.columns {
            Some(columns) => assert_eq!(columns, vec!["name", "age", "weight"]),
            None => panic!("Columns not properly extracted from SELECT statment"),
        },
        _ => panic!("Expected CreateTable statement"),
    }
}

#[test]
fn test_ToSQLStatement_extracts_columns_from_SELECT_statement_correctly_2() {
    let string = "SELECT * FROM people;";
    let result = string.to_sql_statment().unwrap();
    match result {
        SQLStatement::Select(statement) => assert_eq!(statement.columns, None),
        _ => panic!("Expected CreateTable statement"),
    }
}

fn unexpected_text(error: SQLSyntaxError) -> String {
    match error {
        SQLSyntaxError::UnexpectedToken(text) => text,
        SQLSyntaxError::UnsupportedValue(text) => panic!("unsupported value {}", text),
    }
}

fn create(text: &str) -> Result<CreateTableStatement, SQLSyntaxError> {
    CreateTableStatement::from_tokens(text.tokenize())
}

fn select(text: &str) -> Result<SelectStatement, SQLSyntaxError> {
    SelectStatement::from_tokens(text.tokenize())
}

#[test]
fn tokenize_splits_on_any_white_space() {
    let result = "  SELECT\n\tname \r\n FROM\u{00A0}people  ".tokenize();
    assert_eq!(result.len(), 4);
    assert!(matches!(&result[0], SQLToken::Keyword(word) if word == "SELECT"));
    assert!(matches!(&result[1], SQLToken::Identifier(word) if word == "name"));
    assert!(matches!(&result[2], SQLToken::Keyword(word) if word == "FROM"));
    assert!(matches!(&result[3], SQLToken::Identifier(word) if word == "people"));
}

#[test]
fn tokenize_of_empty_text_is_empty() {
    assert_eq!("".tokenize().len(), 0);
    assert_eq!(" \n ".tokenize().len(), 0);
}

#[test]
fn tokenize_keywords_are_case_sensitive() {
    let result = "select Create FROM CREATE from".tokenize();
    assert!(matches!(&result[0], SQLToken::Identifier(word) if word == "select"));
    assert!(matches!(&result[1], SQLToken::Identifier(word) if word == "Create"));
    assert!(matches!(&result[2], SQLToken::Keyword(word) if word == "FROM"));
    assert!(matches!(&result[3], SQLToken::Keyword(word) if word == "CREATE"));
    assert!(matches!(&result[4], SQLToken::Identifier(word) if word == "from"));
}

#[test]
fn tokenize_keeps_a_reserved_word_inside_a_chunk_as_identifier() {
    let result = "(SELECT".tokenize();
    assert_eq!(result.len(), 2);
    assert!(matches!(result[0], SQLToken::Symbol(Symbol::LeftParenthesis)));
    assert!(matches!(&result[1], SQLToken::Identifier(word) if word == "SELECT"));
}

#[test]
fn tokenize_component_splits_symbols_from_identifiers() {
    let result = tokenize_component("COUNT(*)");
    assert_eq!(result.len(), 4);
    assert!(matches!(&result[0], SQLToken::Identifier(word) if word == "COUNT"));
    assert!(matches!(result[1], SQLToken::Symbol(Symbol::LeftParenthesis)));
    assert!(matches!(&result[2], SQLToken::Identifier(word) if word == "*"));
    assert!(matches!(result[3], SQLToken::Symbol(Symbol::RightParenthesis)));
}

#[test]
fn tokenize_component_of_symbols_only() {
    let result = tokenize_component(");,(");
    assert_eq!(result.len(), 4);
    assert!(matches!(result[0], SQLToken::Symbol(Symbol::RightParenthesis)));
    assert!(matches!(result[1], SQLToken::Symbol(Symbol::Semicolon)));
    assert!(matches!(result[2], SQLToken::Symbol(Symbol::Comma)));
    assert!(matches!(result[3], SQLToken::Symbol(Symbol::LeftParenthesis)));
}

#[test]
fn char_to_sql_token_gives_symbol_or_identifier() {
    assert!(matches!('('.to_sql_token(), SQLToken::Symbol(Symbol::LeftParenthesis)));
    assert!(matches!(')'.to_sql_token(), SQLToken::Symbol(Symbol::RightParenthesis)));
    assert!(matches!(','.to_sql_token(), SQLToken::Symbol(Symbol::Comma)));
    assert!(matches!(';'.to_sql_token(), SQLToken::Symbol(Symbol::Semicolon)));
    assert!(matches!('x'.to_sql_token(), SQLToken::Identifier(word) if word == "x"));
}

#[test]
fn symbol_as_str_gives_its_character() {
    assert_eq!(Symbol::LeftParenthesis.as_str(), "(");
    assert_eq!(Symbol::RightParenthesis.as_str(), ")");
    assert_eq!(Symbol::Comma.as_str(), ",");
    assert_eq!(Symbol::Semicolon.as_str(), ";");
    assert_eq!(Symbol::from_char(';'), Some(Symbol::Semicolon));
    assert_eq!(Symbol::from_char('a'), None);
}

#[test]
fn create_records_the_integer_primary_key_column() {
    let statement = create("CREATE TABLE t (name text, id integer primary key autoincrement, c)").unwrap();
    assert_eq!(statement.table_name, "t");
    assert_eq!(statement.columns, vec!["name", "id", "c"]);
    assert_eq!(statement.integer_primary_key_column, Some(1));
}

#[test]
fn create_without_integer_primary_key_records_none() {
    let statement = create("CREATE TABLE t (id INTEGER, name TEXT PRIMARY KEY)").unwrap();
    assert_eq!(statement.columns, vec!["id", "name"]);
    assert_eq!(statement.integer_primary_key_column, None);
}

#[test]
fn create_finds_the_key_words_anywhere_behind_the_name() {
    let statement = create("CREATE TABLE t (a TEXT, b NOT NULL Integer Primary Key)").unwrap();
    assert_eq!(statement.integer_primary_key_column, Some(1));
}

#[test]
fn create_reads_the_key_words_in_upper_case_as_unicode_gives_it() {
    let statement = create("CREATE TABLE t (a, id \u{0131}nteger pr\u{0131}mary key)").unwrap();
    assert_eq!(statement.integer_primary_key_column, Some(1));
    let statement = create("CREATE TABLE t (id INTEGER PRIMARY KEYS)").unwrap();
    assert_eq!(statement.integer_primary_key_column, None);
    let statement = create("CREATE TABLE t (id 1NTEGER PRIMARY KEY)").unwrap();
    assert_eq!(statement.integer_primary_key_column, None);
    let statement = create("CREATE TABLE t (id iNtEgEr PrImArY kEy)").unwrap();
    assert_eq!(statement.integer_primary_key_column, Some(0));
}

#[test]
fn create_takes_the_first_of_two_key_columns() {
    let statement =
        create("CREATE TABLE t (a INTEGER PRIMARY KEY, b INTEGER PRIMARY KEY)").unwrap();
    assert_eq!(statement.integer_primary_key_column, Some(0));
}

#[test]
fn create_does_not_take_a_column_named_integer_for_a_key() {
    let statement = create("CREATE TABLE t (INTEGER PRIMARY KEY)").unwrap();
    assert_eq!(statement.columns, vec!["INTEGER"]);
    assert_eq!(statement.integer_primary_key_column, None);
}

#[test]
fn create_keeps_nested_parentheses_inside_one_definition() {
    let statement = create("CREATE TABLE t (price DECIMAL(10, 2), name VARCHAR(20))").unwrap();
    assert_eq!(statement.columns, vec!["price", "name"]);
}

#[test]
fn create_keeps_duplicate_column_names() {
    let statement = create("CREATE TABLE t (a, a, b)").unwrap();
    assert_eq!(statement.columns, vec!["a", "a", "b"]);
}

#[test]
fn create_with_no_columns() {
    let statement = create("CREATE TABLE t ()").unwrap();
    assert_eq!(statement.columns.len(), 0);
    assert_eq!(statement.integer_primary_key_column, None);
}

#[test]
fn create_fails_without_table() {
    assert_eq!(unexpected_text(create("CREATE INDEX i ON t (a)").unwrap_err()), "INDEX");
    assert_eq!(unexpected_text(create("CREATE").unwrap_err()), "");
}

#[test]
fn create_fails_without_table_name() {
    assert_eq!(unexpected_text(create("CREATE TABLE (a)").unwrap_err()), "(");
    assert_eq!(unexpected_text(create("CREATE TABLE").unwrap_err()), "");
}

#[test]
fn create_fails_without_opening_parenthesis() {
    assert_eq!(unexpected_text(create("CREATE TABLE t a, b)").unwrap_err()), "a");
    assert_eq!(unexpected_text(create("CREATE TABLE t").unwrap_err()), "");
}

#[test]
fn create_fails_when_the_tokens_end_early() {
    assert_eq!(unexpected_text(create("CREATE TABLE t (a, b").unwrap_err()), "");
    assert_eq!(unexpected_text(create("CREATE TABLE t (a,").unwrap_err()), "");
    assert_eq!(unexpected_text(create("CREATE TABLE t (").unwrap_err()), "");
}

#[test]
fn create_fails_on_a_definition_without_a_name() {
    assert_eq!(unexpected_text(create("CREATE TABLE t (a, , b)").unwrap_err()), ",");
    assert_eq!(unexpected_text(create("CREATE TABLE t ((a))").unwrap_err()), "(");
    assert_eq!(unexpected_text(create("CREATE TABLE t ( FROM a)").unwrap_err()), "FROM");
}

#[test]
fn select_parses_count() {
    let statement = select("SELECT COUNT(*) FROM apples").unwrap();
    assert_eq!(statement.table_name, "apples");
    assert_eq!(statement.columns, None);
    assert_eq!(statement.aggregator_function, Some(AggregatorFunction::COUNT));
    assert!(statement.where_clause.is_none());
}

#[test]
fn select_parses_sum() {
    let statement = select("SELECT SUM(price) FROM apples").unwrap();
    assert_eq!(statement.columns, Some(vec![String::from("price")]));
    assert_eq!(statement.aggregator_function, Some(AggregatorFunction::SUM));
}

#[test]
fn select_parses_a_plain_column_list() {
    let statement = select("SELECT name, color FROM apples").unwrap();
    assert_eq!(statement.table_name, "apples");
    assert_eq!(statement.columns, Some(vec![String::from("name"), String::from("color")]));
    assert_eq!(statement.aggregator_function, None);
}

#[test]
fn select_ignores_what_follows_the_table_name() {
    let statement = select("SELECT name FROM apples WHERE color = 'Red';").unwrap();
    assert_eq!(statement.table_name, "apples");
    assert!(statement.where_clause.is_none());
}

#[test]
fn select_fails_on_a_wrong_first_token() {
    assert_eq!(unexpected_text(select("CREATE TABLE t (a)").unwrap_err()), "CREATE");
    assert_eq!(unexpected_text(select("name FROM t").unwrap_err()), "name");
    assert_eq!(unexpected_text(select("").unwrap_err()), "");
}

#[test]
fn select_fails_without_columns() {
    assert_eq!(unexpected_text(select("SELECT FROM t").unwrap_err()), "FROM");
    assert_eq!(unexpected_text(select("SELECT").unwrap_err()), "");
    assert_eq!(unexpected_text(select("SELECT COUNT").unwrap_err()), "");
    assert_eq!(unexpected_text(select("SELECT COUNT()").unwrap_err()), ")");
}

#[test]
fn select_fails_on_a_symbol_among_the_columns() {
    assert_eq!(unexpected_text(select("SELECT a; b FROM t").unwrap_err()), ";");
    assert_eq!(unexpected_text(select("SELECT a (b) FROM t").unwrap_err()), "(");
}

#[test]
fn select_fails_without_from() {
    assert_eq!(unexpected_text(select("SELECT a, b").unwrap_err()), "");
    assert_eq!(unexpected_text(select("SELECT * apples").unwrap_err()), "apples");
    assert_eq!(unexpected_text(select("SELECT (a)) FROM t").unwrap_err()), ")");
}

#[test]
fn select_fails_without_table_name() {
    assert_eq!(unexpected_text(select("SELECT a FROM").unwrap_err()), "");
    assert_eq!(unexpected_text(select("SELECT a FROM ;").unwrap_err()), ";");
    assert_eq!(unexpected_text(select("SELECT a FROM FROM").unwrap_err()), "FROM");
}

#[test]
fn statement_fails_on_an_unknown_first_token() {
    let error = "WHOOPTY COUNT(*) FROM seafood".to_sql_statment().err().unwrap();
    assert_eq!(unexpected_text(error), "WHOOPTY");
    let error = "".to_sql_statment().err().unwrap();
    assert_eq!(unexpected_text(error), "");
}

#[test]
fn statement_from_words_joins_them_with_spaces() {
    let words = vec!["SELECT", "COUNT(*)", "FROM", "apples"];
    match words.to_sql_statment().unwrap() {
        SQLStatement::Select(statement) => {
            assert_eq!(statement.table_name, "apples");
            assert_eq!(statement.aggregator_function, Some(AggregatorFunction::COUNT));
        }
        _ => panic!("expected a SELECT statement"),
    }
    let parts = vec!["SEL", "ECT", "a", "FROM", "t"];
    assert!(parts.to_sql_statment().is_err());
}
