//! The commands of the command line: `.dbinfo`, `.tables`, and a `SELECT`
//! statement, each answered as text.

use vstd::prelude::*;
use vstd::string::StringExecFns;
use crate::dbfile::{answer, DBFile};
use crate::error::{CommandArgsError, CommandArgsErrorView, RunError, RunErrorView};
use crate::schema::{listed_names, schema_rows_view, SchemaRowView};
use crate::select::lines_text;
use crate::text::{
    chars_of, decimal_chars, decimal_digits, join_with_spaces, joined_with_spaces, same_text,
    string_of,
};
use crate::token::word_select;

verus! {

/// Where the run of double quotes that starts at `i` ends.
pub open spec fn quotes_end(text: Seq<char>, i: int) -> int
    decreases text.len() - i,
{
    if i < 0 || i >= text.len() || text[i] != '"' {
        i
    } else {
        quotes_end(text, i + 1)
    }
}

/// Where the run of double quotes that ends before `j` starts, `low` at the
/// least.
pub open spec fn quotes_start(text: Seq<char>, low: int, j: int) -> int
    decreases j - low,
{
    if j <= low || j > text.len() || text[j - 1] != '"' {
        j
    } else {
        quotes_start(text, low, j - 1)
    }
}

/// `text` without the double quotes at its start and at its end.
pub open spec fn unquoted(text: Seq<char>) -> Seq<char> {
    let start = quotes_end(text, 0);
    text.subrange(start, quotes_start(text, start, text.len() as int))
}

/// Where the first space at or behind `i` stands, or where `text` ends.
pub open spec fn space_at(text: Seq<char>, i: int) -> int
    decreases text.len() - i,
{
    if i < 0 || i >= text.len() || text[i] == ' ' {
        i
    } else {
        space_at(text, i + 1)
    }
}

/// What stands before the first space of `text`.
pub open spec fn first_word(text: Seq<char>) -> Seq<char> {
    text.take(space_at(text, 0))
}

/// The answer to `.dbinfo`.
pub open spec fn dbinfo_text(page_size: u16, table_count: usize) -> Seq<char> {
    "database page size: "@ + decimal_digits(page_size as nat) + "\nnumber of tables: "@
        + decimal_digits(table_count as nat)
}

/// What the command `command` gives on a database: its double quotes set
/// aside, its first word decides. `.dbinfo` gives the page size and the
/// number of catalog rows, `.tables` the table names with spaces between
/// them, `SELECT` the rows of the query's answer, one to a line. Any other
/// first word is an invalid command.
pub open spec fn command_output(
    image: Seq<u8>,
    dbinfo: (u16, usize),
    entries: Seq<SchemaRowView>,
    command: Seq<char>,
) -> Result<Seq<char>, RunErrorView> {
    let text = unquoted(command);
    let word = first_word(text);
    if word == ".dbinfo"@ {
        Ok(dbinfo_text(dbinfo.0, dbinfo.1))
    } else if word == ".tables"@ {
        Ok(joined_with_spaces(listed_names(entries)))
    } else if word == word_select() {
        match answer(image, dbinfo.0, entries, text) {
            Ok(rows) => Ok(lines_text(rows)),
            Err(error) => Err(RunErrorView::Sql(error)),
        }
    } else {
        Err(RunErrorView::Args(CommandArgsErrorView::InvalidCommand(word)))
    }
}

/// Whether the outcome `r` of a command is what `expected` says.
pub open spec fn output_matches(
    r: Result<String, RunError>,
    expected: Result<Seq<char>, RunErrorView>,
) -> bool {
    match (r, expected) {
        (Ok(text), Ok(view)) => text@ == view,
        (Err(error), Err(view)) => error@ == view,
        _ => false,
    }
}

/// The database path and the command among the arguments of a run, which
/// begin with the program's own name. `MissingArgs` where nothing follows
/// that name, `MissingCommand` where only the path does.
pub fn command_arguments(args: &[String]) -> (r: Result<(String, String), CommandArgsError>)
    ensures
        args@.len() <= 1 ==> (r matches Err(error) && error@
            == CommandArgsErrorView::MissingArgs),
        args@.len() == 2 ==> (r matches Err(error) && error@
            == CommandArgsErrorView::MissingCommand),
        args@.len() >= 3 ==> (r matches Ok(found) && found.0@ == args@[1]@ && found.1@
            == args@[2]@),
{
    if args.len() <= 1 {
        return Err(CommandArgsError::MissingArgs);
    }
    if args.len() == 2 {
        return Err(CommandArgsError::MissingCommand);
    }
    Ok((args[1].clone(), args[2].clone()))
}

fn strip_quotes(text: &[char]) -> (r: &[char])
    ensures
        r@ == unquoted(text@),
{
    let mut start: usize = 0;
    while start < text.len() && text[start] == '"'
        invariant
            start <= text@.len(),
            quotes_end(text@, start as int) == quotes_end(text@, 0),
        decreases text@.len() - start,
    {
        start = start + 1;
    }
    let mut end: usize = text.len();
    while end > start && text[end - 1] == '"'
        invariant
            start <= end <= text@.len(),
            quotes_start(text@, start as int, end as int) == quotes_start(
                text@,
                start as int,
                text@.len() as int,
            ),
        decreases end - start,
    {
        end = end - 1;
    }
    &text[start..end]
}

fn leading_word(text: &[char]) -> (r: &[char])
    ensures
        r@ == first_word(text@),
{
    let mut end: usize = 0;
    while end < text.len() && text[end] != ' '
        invariant
            end <= text@.len(),
            space_at(text@, end as int) == space_at(text@, 0),
        decreases text@.len() - end,
    {
        end = end + 1;
    }
    &text[0..end]
}

/// Carries out `command` on `db` and gives its answer as text.
pub fn run_command(db: &DBFile, command: &str) -> (r: Result<String, RunError>)
    ensures
        output_matches(
            r,
            command_output(db.image@, db.dbinfo(), schema_rows_view(db.entries@), command@),
        ),
{
    let chars = chars_of(command);
    let text = strip_quotes(chars.as_slice());
    let word = leading_word(text);
    let dbinfo_word = chars_of(".dbinfo");
    let tables_word = chars_of(".tables");
    let select_word: Vec<char> = vec!['S', 'E', 'L', 'E', 'C', 'T'];
    assert(select_word@ =~= word_select());
    if same_text(word, dbinfo_word.as_slice()) {
        let (page_size, table_count) = db.get_dbinfo();
        let mut out = "database page size: ".to_owned();
        out.append(string_of(decimal_chars(page_size as u64).as_slice()).as_str());
        out.append("\nnumber of tables: ");
        out.append(string_of(decimal_chars(table_count as u64).as_slice()).as_str());
        Ok(out)
    } else if same_text(word, tables_word.as_slice()) {
        let names = db.get_table_names();
        Ok(join_with_spaces(&names))
    } else if same_text(word, select_word.as_slice()) {
        let query = string_of(text);
        match db.execute(query.as_str()) {
            Ok(rows) => Ok(rows.to_text()),
            Err(error) => Err(RunError::Sql(error)),
        }
    } else {
        Err(RunError::Args(CommandArgsError::InvalidCommand(string_of(word))))
    }
}

} // verus!
