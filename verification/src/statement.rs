//! The statement parser: from a token sequence to a `SELECT` or a
//! `CREATE TABLE` statement.

use vstd::prelude::*;
use vstd::string::StringExecFns;
use crate::error::{SQLSyntaxError, SyntaxErrorView};
use crate::text::{
    chars_of, joined_with_spaces, same_text, strings_view, to_upper, upper_text,
};
use crate::token::{
    symbol_char, tokenize, tokenize_text, tokens_view, word_create, word_from, word_select,
    SQLToken, Symbol, TokenView,
};

verus! {

/// A table as its `CREATE TABLE` text declares it.
#[derive(Debug)]
pub struct CreateTableStatement {
    pub table_name: String,
    /// The column names, in declared order.
    pub columns: Vec<String>,
    /// Position of the column declared `INTEGER PRIMARY KEY`, which stands
    /// for the row id.
    pub integer_primary_key_column: Option<usize>,
}

/// What a `CREATE TABLE` statement is, as plain values.
pub struct CreateTableView {
    pub table_name: Seq<char>,
    pub columns: Seq<Seq<char>>,
    pub integer_primary_key_column: Option<nat>,
}

impl View for CreateTableStatement {
    type V = CreateTableView;

    open spec fn view(&self) -> CreateTableView {
        CreateTableView {
            table_name: self.table_name@,
            columns: strings_view(self.columns@),
            integer_primary_key_column: match self.integer_primary_key_column {
                Some(index) => Some(index as nat),
                None => None,
            },
        }
    }
}

/// The text that stands for `token` where an error reports it.
pub open spec fn token_text(token: TokenView) -> Seq<char> {
    match token {
        TokenView::Keyword(text) => text,
        TokenView::Identifier(text) => text,
        TokenView::Symbol(symbol) => seq![symbol_char(symbol)],
    }
}

/// The text of the token at `pos`, or the empty text where the tokens end
/// before it.
pub open spec fn text_at(tokens: Seq<TokenView>, pos: int) -> Seq<char> {
    if 0 <= pos < tokens.len() {
        token_text(tokens[pos])
    } else {
        Seq::empty()
    }
}

/// Whether the token at `pos` is the symbol `symbol`.
pub open spec fn symbol_at(tokens: Seq<TokenView>, pos: int, symbol: Symbol) -> bool {
    0 <= pos < tokens.len() && tokens[pos] == TokenView::Symbol(symbol)
}

/// Whether the token at `pos` is an identifier.
pub open spec fn identifier_at(tokens: Seq<TokenView>, pos: int) -> bool {
    0 <= pos < tokens.len() && tokens[pos] is Identifier
}

/// Whether the token at `pos` is the identifier `word`, letter for letter.
pub open spec fn word_at(tokens: Seq<TokenView>, pos: int, word: Seq<char>) -> bool {
    0 <= pos < tokens.len() && tokens[pos] == TokenView::Identifier(word)
}

/// Whether the token at `pos` is the keyword `word`.
pub open spec fn keyword_at(tokens: Seq<TokenView>, pos: int, word: Seq<char>) -> bool {
    0 <= pos < tokens.len() && tokens[pos] == TokenView::Keyword(word)
}

/// The word `TABLE`.
pub open spec fn word_table() -> Seq<char> {
    seq!['T', 'A', 'B', 'L', 'E']
}

/// The word `INTEGER`.
pub open spec fn word_integer() -> Seq<char> {
    seq!['I', 'N', 'T', 'E', 'G', 'E', 'R']
}

/// The word `PRIMARY`.
pub open spec fn word_primary() -> Seq<char> {
    seq!['P', 'R', 'I', 'M', 'A', 'R', 'Y']
}

/// The word `KEY`.
pub open spec fn word_key() -> Seq<char> {
    seq!['K', 'E', 'Y']
}

/// The word `COUNT`.
pub open spec fn word_count() -> Seq<char> {
    seq!['C', 'O', 'U', 'N', 'T']
}

/// The word `SUM`.
pub open spec fn word_sum() -> Seq<char> {
    seq!['S', 'U', 'M']
}

/// The text `*`.
pub open spec fn word_star() -> Seq<char> {
    seq!['*']
}

/// Where the column definition that starts at `pos` ends: at the first
/// comma or closing parenthesis that no parenthesis opened since `pos`
/// encloses, `depth` of them being open at `pos`; or where the tokens end.
pub open spec fn definition_end(tokens: Seq<TokenView>, pos: int, depth: nat) -> int
    decreases tokens.len() - pos,
{
    if pos < 0 || pos >= tokens.len() {
        pos
    } else if tokens[pos] == TokenView::Symbol(Symbol::LeftParenthesis) {
        definition_end(tokens, pos + 1, depth + 1)
    } else if tokens[pos] == TokenView::Symbol(Symbol::RightParenthesis) {
        if depth == 0 {
            pos
        } else {
            definition_end(tokens, pos + 1, (depth - 1) as nat)
        }
    } else if tokens[pos] == TokenView::Symbol(Symbol::Comma) && depth == 0 {
        pos
    } else {
        definition_end(tokens, pos + 1, depth)
    }
}

proof fn lemma_definition_end_bounds(tokens: Seq<TokenView>, pos: int, depth: nat)
    requires
        0 <= pos <= tokens.len(),
    ensures
        pos <= definition_end(tokens, pos, depth) <= tokens.len(),
        pos < tokens.len() && tokens[pos] is Identifier ==> pos < definition_end(
            tokens,
            pos,
            depth,
        ),
    decreases tokens.len() - pos,
{
    if pos < tokens.len() {
        if tokens[pos] == TokenView::Symbol(Symbol::LeftParenthesis) {
            lemma_definition_end_bounds(tokens, pos + 1, depth + 1);
        } else if tokens[pos] == TokenView::Symbol(Symbol::RightParenthesis) {
            if depth > 0 {
                lemma_definition_end_bounds(tokens, pos + 1, (depth - 1) as nat);
            }
        } else if tokens[pos] == TokenView::Symbol(Symbol::Comma) && depth == 0 {
        } else {
            lemma_definition_end_bounds(tokens, pos + 1, depth);
        }
    }
}

/// The column definitions that stand from `pos` on, up to the parenthesis
/// that closes the list: each begins with an identifier, its column name,
/// and ends before the next comma or before that parenthesis. Fails with the
/// text of the token that stands where a column name should, or with the
/// empty text where the tokens end before the list is closed.
pub open spec fn column_definitions(tokens: Seq<TokenView>, pos: int) -> Result<
    Seq<Seq<TokenView>>,
    Seq<char>,
>
    decreases tokens.len() - pos,
    via column_definitions_decreases
{
    if pos < 0 || pos >= tokens.len() {
        Err(Seq::empty())
    } else if tokens[pos] == TokenView::Symbol(Symbol::RightParenthesis) {
        Ok(Seq::empty())
    } else if !(tokens[pos] is Identifier) {
        Err(token_text(tokens[pos]))
    } else {
        let end = definition_end(tokens, pos, 0);
        if end >= tokens.len() {
            Err(Seq::empty())
        } else {
            let next = if tokens[end] == TokenView::Symbol(Symbol::Comma) {
                end + 1
            } else {
                end
            };
            match column_definitions(tokens, next) {
                Err(text) => Err(text),
                Ok(rest) => Ok(seq![tokens.subrange(pos, end)] + rest),
            }
        }
    }
}

#[via_fn]
proof fn column_definitions_decreases(tokens: Seq<TokenView>, pos: int) {
    if 0 <= pos < tokens.len() {
        lemma_definition_end_bounds(tokens, pos, 0);
    }
}

/// Whether `token` is an identifier that spells `word` once it is put in
/// upper case.
pub open spec fn spells(token: TokenView, word: Seq<char>) -> bool {
    token is Identifier && upper_text(token->Identifier_0) == word
}

/// Whether the three tokens of `definition` from `i` on spell `INTEGER`,
/// `PRIMARY`, `KEY`.
pub open spec fn key_run_at(definition: Seq<TokenView>, i: int) -> bool {
    &&& spells(definition[i], word_integer())
    &&& spells(definition[i + 1], word_primary())
    &&& spells(definition[i + 2], word_key())
}

/// Whether `definition` declares its column `INTEGER PRIMARY KEY` somewhere
/// behind the column's name.
pub open spec fn has_key_run(definition: Seq<TokenView>) -> bool {
    exists|i: int| 1 <= i && i + 2 < definition.len() && key_run_at(definition, i)
}

/// Position of the first of `definitions` that declares its column
/// `INTEGER PRIMARY KEY`.
pub open spec fn first_key_column(definitions: Seq<Seq<TokenView>>) -> Option<nat>
    decreases definitions.len(),
{
    if definitions.len() == 0 {
        None
    } else {
        match first_key_column(definitions.drop_last()) {
            Some(index) => Some(index),
            None => if has_key_run(definitions.last()) {
                Some((definitions.len() - 1) as nat)
            } else {
                None
            },
        }
    }
}

/// The column name of each of `definitions`: the text of its first token.
pub open spec fn definition_names(definitions: Seq<Seq<TokenView>>) -> Seq<Seq<char>> {
    definitions.map_values(|definition: Seq<TokenView>| token_text(definition[0]))
}

/// The `CREATE TABLE` statement that `tokens` spell: behind the first token
/// the identifier `TABLE`, the table's name, an opening parenthesis and the
/// column definitions. Fails with the text of the first token that stands
/// in a wrong place, or with the empty text where the tokens end too early.
pub open spec fn parse_create(tokens: Seq<TokenView>) -> Result<CreateTableView, Seq<char>> {
    if !word_at(tokens, 1, word_table()) {
        Err(text_at(tokens, 1))
    } else if !identifier_at(tokens, 2) {
        Err(text_at(tokens, 2))
    } else if !symbol_at(tokens, 3, Symbol::LeftParenthesis) {
        Err(text_at(tokens, 3))
    } else {
        match column_definitions(tokens, 4) {
            Err(text) => Err(text),
            Ok(definitions) => Ok(
                CreateTableView {
                    table_name: token_text(tokens[2]),
                    columns: definition_names(definitions),
                    integer_primary_key_column: first_key_column(definitions),
                },
            ),
        }
    }
}

fn token_string(token: &SQLToken) -> (r: String)
    ensures
        r@ == token_text(token@),
{
    match token {
        SQLToken::Keyword(text) => text.clone(),
        SQLToken::Identifier(text) => text.clone(),
        SQLToken::Symbol(symbol) => symbol.as_str().to_owned(),
    }
}

fn unexpected(tokens: &Vec<SQLToken>, pos: usize) -> (r: SQLSyntaxError)
    ensures
        r@ == SyntaxErrorView::UnexpectedToken(text_at(tokens_view(tokens@), pos as int)),
{
    if pos < tokens.len() {
        SQLSyntaxError::UnexpectedToken(token_string(&tokens[pos]))
    } else {
        SQLSyntaxError::UnexpectedToken(String::new())
    }
}

/// Whether the token at `pos` is the symbol `symbol`.
pub fn is_symbol(tokens: &Vec<SQLToken>, pos: usize, symbol: Symbol) -> (r: bool)
    ensures
        r == symbol_at(tokens_view(tokens@), pos as int, symbol),
{
    if pos < tokens.len() {
        match &tokens[pos] {
            SQLToken::Symbol(found) => *found == symbol,
            _ => false,
        }
    } else {
        false
    }
}

/// Whether the token at `pos` is the identifier `word`, letter for letter.
pub fn is_word(tokens: &Vec<SQLToken>, pos: usize, word: &[char]) -> (r: bool)
    ensures
        r == word_at(tokens_view(tokens@), pos as int, word@),
{
    if pos < tokens.len() {
        match &tokens[pos] {
            SQLToken::Identifier(text) => {
                let chars = chars_of(text.as_str());
                same_text(chars.as_slice(), word)
            },
            _ => false,
        }
    } else {
        false
    }
}

/// Whether the token at `pos` is the keyword `word`.
pub fn is_keyword(tokens: &Vec<SQLToken>, pos: usize, word: &[char]) -> (r: bool)
    ensures
        r == keyword_at(tokens_view(tokens@), pos as int, word@),
{
    if pos < tokens.len() {
        match &tokens[pos] {
            SQLToken::Keyword(text) => {
                let chars = chars_of(text.as_str());
                same_text(chars.as_slice(), word)
            },
            _ => false,
        }
    } else {
        false
    }
}

fn token_spells(token: &SQLToken, word: &[char]) -> (r: bool)
    ensures
        r == spells(token@, word@),
{
    match token {
        SQLToken::Identifier(text) => {
            let upper = to_upper(text.as_str());
            let chars = chars_of(upper.as_str());
            same_text(chars.as_slice(), word)
        },
        _ => false,
    }
}

fn find_definition_end(tokens: &Vec<SQLToken>, start: usize) -> (end: usize)
    requires
        start <= tokens@.len(),
    ensures
        end == definition_end(tokens_view(tokens@), start as int, 0),
        start <= end <= tokens@.len(),
{
    let mut pos: usize = start;
    let mut depth: usize = 0;
    while pos < tokens.len()
        invariant
            start <= pos <= tokens@.len(),
            depth <= pos - start,
            definition_end(tokens_view(tokens@), pos as int, depth as nat) == definition_end(
                tokens_view(tokens@),
                start as int,
                0,
            ),
        decreases tokens@.len() - pos,
    {
        assert(tokens_view(tokens@)[pos as int] == tokens@[pos as int]@);
        match &tokens[pos] {
            SQLToken::Symbol(Symbol::LeftParenthesis) => {
                depth = depth + 1;
            },
            SQLToken::Symbol(Symbol::RightParenthesis) => {
                if depth == 0 {
                    return pos;
                }
                depth = depth - 1;
            },
            SQLToken::Symbol(Symbol::Comma) => {
                if depth == 0 {
                    return pos;
                }
            },
            _ => {},
        }
        pos = pos + 1;
    }
    pos
}

fn declares_key(tokens: &Vec<SQLToken>, start: usize, end: usize) -> (r: bool)
    requires
        start <= end <= tokens@.len(),
    ensures
        r == has_key_run(tokens_view(tokens@).subrange(start as int, end as int)),
{
    let integer: Vec<char> = vec!['I', 'N', 'T', 'E', 'G', 'E', 'R'];
    let primary: Vec<char> = vec!['P', 'R', 'I', 'M', 'A', 'R', 'Y'];
    let key: Vec<char> = vec!['K', 'E', 'Y'];
    assert(integer@ =~= word_integer());
    assert(primary@ =~= word_primary());
    assert(key@ =~= word_key());
    let ghost definition = tokens_view(tokens@).subrange(start as int, end as int);
    if end - start < 4 {
        return false;
    }
    let mut pos: usize = start + 1;
    while pos + 2 < end
        invariant
            start < pos,
            pos + 2 <= end <= tokens@.len(),
            definition == tokens_view(tokens@).subrange(start as int, end as int),
            integer@ == word_integer(),
            primary@ == word_primary(),
            key@ == word_key(),
            forall|i: int| 1 <= i < pos - start ==> !key_run_at(definition, i),
        decreases end - pos,
    {
        assert(definition[pos - start] == tokens@[pos as int]@);
        assert(definition[pos - start + 1] == tokens@[pos + 1]@);
        assert(definition[pos - start + 2] == tokens@[pos + 2]@);
        if token_spells(&tokens[pos], integer.as_slice()) && token_spells(
            &tokens[pos + 1],
            primary.as_slice(),
        ) && token_spells(&tokens[pos + 2], key.as_slice()) {
            assert(key_run_at(definition, pos - start));
            return true;
        }
        pos = pos + 1;
    }
    false
}

/// Whether the outcome `r` of parsing is the statement, or carries the
/// text, that `expected` gives.
pub open spec fn create_matches(
    r: Result<CreateTableStatement, SQLSyntaxError>,
    expected: Result<CreateTableView, Seq<char>>,
) -> bool {
    match (r, expected) {
        (Ok(statement), Ok(view)) => statement@ == view,
        (Err(error), Err(text)) => error@ == SyntaxErrorView::UnexpectedToken(text),
        _ => false,
    }
}

/// Whether `r` holds the names and the key column of `expected`, or
/// carries its text.
pub open spec fn definitions_match(
    r: Result<(Vec<String>, Option<usize>), SQLSyntaxError>,
    expected: Result<Seq<Seq<TokenView>>, Seq<char>>,
) -> bool {
    match (r, expected) {
        (Ok(found), Ok(definitions)) => {
            &&& strings_view(found.0@) == definition_names(definitions)
            &&& match found.1 {
                Some(index) => first_key_column(definitions) == Some(index as nat),
                None => first_key_column(definitions) is None,
            }
        },
        (Err(error), Err(text)) => error@ == SyntaxErrorView::UnexpectedToken(text),
        _ => false,
    }
}

/// The definitions gathered so far followed by what the rest of the list
/// gives.
pub open spec fn with_definitions(
    definitions: Seq<Seq<TokenView>>,
    rest: Result<Seq<Seq<TokenView>>, Seq<char>>,
) -> Result<Seq<Seq<TokenView>>, Seq<char>> {
    match rest {
        Ok(more) => Ok(definitions + more),
        Err(text) => Err(text),
    }
}

impl CreateTableStatement {
    /// Parses a `CREATE TABLE` statement. The first token is not looked at:
    /// the caller has found it to be `CREATE`.
    pub fn from_tokens(tokens: Vec<SQLToken>) -> (r: Result<Self, SQLSyntaxError>)
        ensures
            create_matches(r, parse_create(tokens_view(tokens@))),
    {
        let table: Vec<char> = vec!['T', 'A', 'B', 'L', 'E'];
        assert(table@ =~= word_table());
        if !is_word(&tokens, 1, table.as_slice()) {
            return Err(unexpected(&tokens, 1));
        }
        if tokens.len() <= 2 {
            return Err(unexpected(&tokens, 2));
        }
        let table_name = match &tokens[2] {
            SQLToken::Identifier(name) => name.clone(),
            _ => {
                return Err(unexpected(&tokens, 2));
            },
        };
        if !is_symbol(&tokens, 3, Symbol::LeftParenthesis) {
            return Err(unexpected(&tokens, 3));
        }
        match Self::extract_column_definitions(&tokens, 4) {
            Err(error) => Err(error),
            Ok((columns, integer_primary_key_column)) => Ok(
                CreateTableStatement { table_name, columns, integer_primary_key_column },
            ),
        }
    }

    /// Reads the column definitions that stand from `start` on: the name of
    /// each column, and the position of the first one that is declared
    /// `INTEGER PRIMARY KEY`.
    pub fn extract_column_definitions(tokens: &Vec<SQLToken>, start: usize) -> (r: Result<
        (Vec<String>, Option<usize>),
        SQLSyntaxError,
    >)
        ensures
            definitions_match(r, column_definitions(tokens_view(tokens@), start as int)),
    {
        let ghost view = tokens_view(tokens@);
        let mut names: Vec<String> = Vec::new();
        let mut key_column: Option<usize> = None;
        let mut pos: usize = start;
        let ghost mut definitions: Seq<Seq<TokenView>> = Seq::empty();
        proof {
            match column_definitions(view, start as int) {
                Ok(all) => {
                    assert(definitions + all =~= all);
                },
                Err(_) => {},
            }
            assert(strings_view(names@) =~= definition_names(definitions));
        }
        while pos < tokens.len()
            invariant
                view == tokens_view(tokens@),
                with_definitions(definitions, column_definitions(view, pos as int))
                    == column_definitions(view, start as int),
                strings_view(names@) == definition_names(definitions),
                names@.len() == definitions.len(),
                match key_column {
                    Some(index) => first_key_column(definitions) == Some(index as nat),
                    None => first_key_column(definitions) is None,
                },
            decreases tokens@.len() - pos,
        {
            assert(view[pos as int] == tokens@[pos as int]@);
            let name = match &tokens[pos] {
                SQLToken::Symbol(Symbol::RightParenthesis) => {
                    assert(definitions + Seq::<Seq<TokenView>>::empty() =~= definitions);
                    return Ok((names, key_column));
                },
                SQLToken::Identifier(name) => name.clone(),
                _ => {
                    return Err(unexpected(tokens, pos));
                },
            };
            let end = find_definition_end(tokens, pos);
            proof {
                lemma_definition_end_bounds(view, pos as int, 0);
            }
            if end >= tokens.len() {
                return Err(unexpected(tokens, end));
            }
            let ghost definition = view.subrange(pos as int, end as int);
            let ghost before = definitions;
            let ghost old_names = names@;
            if key_column.is_none() && declares_key(tokens, pos, end) {
                key_column = Some(names.len());
            }
            names.push(name);
            let next: usize = if is_symbol(tokens, end, Symbol::Comma) {
                end + 1
            } else {
                end
            };
            proof {
                definitions = before.push(definition);
                assert(definitions.drop_last() =~= before);
                assert(strings_view(names@) =~= strings_view(old_names).push(name@));
                assert(definition_names(definitions) =~= definition_names(before).push(
                    token_text(definition[0]),
                ));
                match column_definitions(view, next as int) {
                    Ok(rest) => {
                        assert(before + (seq![definition] + rest) =~= definitions + rest);
                    },
                    Err(_) => {},
                }
            }
            pos = next;
        }
        Err(unexpected(tokens, pos))
    }
}

/// A function that folds the selected rows into one.
#[derive(Debug, Clone, Copy, PartialEq, Eq, Structural)]
pub enum AggregatorFunction {
    COUNT,
    SUM,
}

/// A comparison that narrows the selected rows. No statement that the
/// parser yields holds one.
#[derive(Debug)]
pub struct Condition {
    pub left: String,
    pub operator: String,
    pub right: String,
}

/// A `SELECT` statement.
#[derive(Debug)]
pub struct SelectStatement {
    pub table_name: String,
    /// The requested column names in request order, or `None` for `*`.
    pub columns: Option<Vec<String>>,
    pub where_clause: Option<Condition>,
    pub aggregator_function: Option<AggregatorFunction>,
}

/// What a `SELECT` statement is, as plain values.
pub struct SelectView {
    pub table_name: Seq<char>,
    pub columns: Option<Seq<Seq<char>>>,
    pub aggregator_function: Option<AggregatorFunction>,
}

impl View for SelectStatement {
    type V = SelectView;

    open spec fn view(&self) -> SelectView {
        SelectView {
            table_name: self.table_name@,
            columns: match self.columns {
                Some(names) => Some(strings_view(names@)),
                None => None,
            },
            aggregator_function: self.aggregator_function,
        }
    }
}

/// The position behind the token at `pos` where that token is `symbol`,
/// and `pos` itself where it is not.
pub open spec fn skip_symbol(tokens: Seq<TokenView>, pos: int, symbol: Symbol) -> int {
    if symbol_at(tokens, pos, symbol) {
        pos + 1
    } else {
        pos
    }
}

/// The aggregator that the identifier at `pos` names, if it names one.
pub open spec fn aggregator_at(tokens: Seq<TokenView>, pos: int) -> Option<AggregatorFunction> {
    if word_at(tokens, pos, word_count()) {
        Some(AggregatorFunction::COUNT)
    } else if word_at(tokens, pos, word_sum()) {
        Some(AggregatorFunction::SUM)
    } else {
        None
    }
}

/// The column names listed from `pos` on, commas between them passed over,
/// and the position of the closing parenthesis, keyword or end of tokens
/// that ends the list. Fails with the text of a token that is none of
/// these.
pub open spec fn selected_columns(tokens: Seq<TokenView>, pos: int) -> Result<
    (Seq<Seq<char>>, int),
    Seq<char>,
>
    decreases tokens.len() - pos,
{
    if pos < 0 || pos >= tokens.len() || tokens[pos] == TokenView::Symbol(
        Symbol::RightParenthesis,
    ) || tokens[pos] is Keyword {
        Ok((Seq::empty(), pos))
    } else if tokens[pos] is Identifier {
        match selected_columns(tokens, pos + 1) {
            Ok(rest) => Ok((seq![token_text(tokens[pos])] + rest.0, rest.1)),
            Err(text) => Err(text),
        }
    } else if tokens[pos] == TokenView::Symbol(Symbol::Comma) {
        selected_columns(tokens, pos + 1)
    } else {
        Err(token_text(tokens[pos]))
    }
}

/// What follows the column list of a `SELECT` statement: a closing
/// parenthesis that may be left out, the keyword `FROM` and the table's
/// name.
pub open spec fn select_tail(
    tokens: Seq<TokenView>,
    pos: int,
    columns: Option<Seq<Seq<char>>>,
    aggregator: Option<AggregatorFunction>,
) -> Result<SelectView, Seq<char>> {
    let from = skip_symbol(tokens, pos, Symbol::RightParenthesis);
    if !keyword_at(tokens, from, word_from()) {
        Err(text_at(tokens, from))
    } else if !identifier_at(tokens, from + 1) {
        Err(text_at(tokens, from + 1))
    } else {
        Ok(
            SelectView {
                table_name: token_text(tokens[from + 1]),
                columns,
                aggregator_function: aggregator,
            },
        )
    }
}

/// The `SELECT` statement that `tokens` spell: the keyword `SELECT`, an
/// opening parenthesis that may be left out, `COUNT` or `SUM` that may be
/// left out, again such a parenthesis, then `*` or a list of column names,
/// and the tail. Fails with the text of the first token that stands in a
/// wrong place, or with the empty text where the tokens end too early.
pub open spec fn parse_select(tokens: Seq<TokenView>) -> Result<SelectView, Seq<char>> {
    if !keyword_at(tokens, 0, word_select()) {
        Err(text_at(tokens, 0))
    } else {
        let first = skip_symbol(tokens, 1, Symbol::LeftParenthesis);
        if !identifier_at(tokens, first) {
            Err(text_at(tokens, first))
        } else {
            let aggregator = aggregator_at(tokens, first);
            let second = skip_symbol(
                tokens,
                if aggregator is Some {
                    first + 1
                } else {
                    first
                },
                Symbol::LeftParenthesis,
            );
            if !identifier_at(tokens, second) {
                Err(text_at(tokens, second))
            } else if word_at(tokens, second, word_star()) {
                select_tail(tokens, second + 1, None, aggregator)
            } else {
                match selected_columns(tokens, second) {
                    Err(text) => Err(text),
                    Ok(list) => select_tail(tokens, list.1, Some(list.0), aggregator),
                }
            }
        }
    }
}

/// Whether the outcome `r` of parsing is the statement, or carries the
/// text, that `expected` gives.
pub open spec fn select_matches(
    r: Result<SelectStatement, SQLSyntaxError>,
    expected: Result<SelectView, Seq<char>>,
) -> bool {
    match (r, expected) {
        (Ok(statement), Ok(view)) => statement@ == view && statement.where_clause is None,
        (Err(error), Err(text)) => error@ == SyntaxErrorView::UnexpectedToken(text),
        _ => false,
    }
}

/// Whether `r` holds the names and the end of `expected`, or carries its
/// text.
pub open spec fn columns_match(
    r: Result<(Vec<String>, usize), SQLSyntaxError>,
    expected: Result<(Seq<Seq<char>>, int), Seq<char>>,
) -> bool {
    match (r, expected) {
        (Ok(found), Ok(list)) => strings_view(found.0@) == list.0 && found.1 == list.1,
        (Err(error), Err(text)) => error@ == SyntaxErrorView::UnexpectedToken(text),
        _ => false,
    }
}

/// The names gathered so far followed by what the rest of the list gives.
pub open spec fn with_names(
    names: Seq<Seq<char>>,
    rest: Result<(Seq<Seq<char>>, int), Seq<char>>,
) -> Result<(Seq<Seq<char>>, int), Seq<char>> {
    match rest {
        Ok(list) => Ok((names + list.0, list.1)),
        Err(text) => Err(text),
    }
}

/// Whether the token at `pos` is an identifier.
pub fn is_identifier(tokens: &Vec<SQLToken>, pos: usize) -> (r: bool)
    ensures
        r == identifier_at(tokens_view(tokens@), pos as int),
{
    if pos < tokens.len() {
        match &tokens[pos] {
            SQLToken::Identifier(_) => true,
            _ => false,
        }
    } else {
        false
    }
}

impl SelectStatement {
    /// Parses a `SELECT` statement.
    pub fn from_tokens(tokens: Vec<SQLToken>) -> (r: Result<Self, SQLSyntaxError>)
        ensures
            select_matches(r, parse_select(tokens_view(tokens@))),
    {
        let select: Vec<char> = vec!['S', 'E', 'L', 'E', 'C', 'T'];
        let count: Vec<char> = vec!['C', 'O', 'U', 'N', 'T'];
        let sum: Vec<char> = vec!['S', 'U', 'M'];
        let star: Vec<char> = vec!['*'];
        assert(select@ =~= word_select());
        assert(count@ =~= word_count());
        assert(sum@ =~= word_sum());
        assert(star@ =~= word_star());
        if !is_keyword(&tokens, 0, select.as_slice()) {
            return Err(unexpected(&tokens, 0));
        }
        let mut pos: usize = 1;
        if is_symbol(&tokens, pos, Symbol::LeftParenthesis) {
            pos = pos + 1;
        }
        if !is_identifier(&tokens, pos) {
            return Err(unexpected(&tokens, pos));
        }
        let aggregator_function = if is_word(&tokens, pos, count.as_slice()) {
            Some(AggregatorFunction::COUNT)
        } else if is_word(&tokens, pos, sum.as_slice()) {
            Some(AggregatorFunction::SUM)
        } else {
            None
        };
        if aggregator_function.is_some() {
            pos = pos + 1;
        }
        if is_symbol(&tokens, pos, Symbol::LeftParenthesis) {
            pos = pos + 1;
        }
        if !is_identifier(&tokens, pos) {
            return Err(unexpected(&tokens, pos));
        }
        let columns: Option<Vec<String>> = if is_word(&tokens, pos, star.as_slice()) {
            pos = pos + 1;
            None
        } else {
            match Self::extract_columns(&tokens, pos) {
                Err(error) => {
                    return Err(error);
                },
                Ok((names, end)) => {
                    pos = end;
                    Some(names)
                },
            }
        };
        if is_symbol(&tokens, pos, Symbol::RightParenthesis) {
            pos = pos + 1;
        }
        let from: Vec<char> = vec!['F', 'R', 'O', 'M'];
        assert(from@ =~= word_from());
        if !is_keyword(&tokens, pos, from.as_slice()) {
            return Err(unexpected(&tokens, pos));
        }
        if pos + 1 >= tokens.len() {
            return Err(unexpected(&tokens, pos + 1));
        }
        let table_name = match &tokens[pos + 1] {
            SQLToken::Identifier(name) => name.clone(),
            _ => {
                return Err(unexpected(&tokens, pos + 1));
            },
        };
        Ok(SelectStatement { table_name, columns, where_clause: None, aggregator_function })
    }

    /// Reads the column names listed from `start` on, and the position of
    /// the token that ends the list.
    pub fn extract_columns(tokens: &Vec<SQLToken>, start: usize) -> (r: Result<
        (Vec<String>, usize),
        SQLSyntaxError,
    >)
        ensures
            columns_match(r, selected_columns(tokens_view(tokens@), start as int)),
    {
        let ghost view = tokens_view(tokens@);
        let mut names: Vec<String> = Vec::new();
        let mut pos: usize = start;
        proof {
            match selected_columns(view, start as int) {
                Ok(list) => {
                    assert(strings_view(names@) + list.0 =~= list.0);
                },
                Err(_) => {},
            }
        }
        while pos < tokens.len()
            invariant
                view == tokens_view(tokens@),
                with_names(strings_view(names@), selected_columns(view, pos as int))
                    == selected_columns(view, start as int),
            decreases tokens@.len() - pos,
        {
            assert(view[pos as int] == tokens@[pos as int]@);
            let ghost before = names@;
            match &tokens[pos] {
                SQLToken::Symbol(Symbol::RightParenthesis) => {
                    assert(strings_view(names@) + Seq::<Seq<char>>::empty() =~= strings_view(
                        names@,
                    ));
                    return Ok((names, pos));
                },
                SQLToken::Keyword(_) => {
                    assert(strings_view(names@) + Seq::<Seq<char>>::empty() =~= strings_view(
                        names@,
                    ));
                    return Ok((names, pos));
                },
                SQLToken::Identifier(name) => {
                    names.push(name.clone());
                    proof {
                        assert(strings_view(names@) =~= strings_view(before).push(name@));
                        match selected_columns(view, pos + 1) {
                            Ok(rest) => {
                                assert(strings_view(before) + (seq![name@] + rest.0)
                                    =~= strings_view(names@) + rest.0);
                            },
                            Err(_) => {},
                        }
                    }
                },
                SQLToken::Symbol(Symbol::Comma) => {},
                _ => {
                    return Err(unexpected(tokens, pos));
                },
            }
            pos = pos + 1;
        }
        assert(strings_view(names@) + Seq::<Seq<char>>::empty() =~= strings_view(names@));
        Ok((names, pos))
    }
}

/// A parsed statement.
#[derive(Debug)]
pub enum SQLStatement {
    Select(SelectStatement),
    CreateTable(CreateTableStatement),
}

/// What a statement is, as plain values.
pub enum StatementView {
    Select(SelectView),
    CreateTable(CreateTableView),
}

impl View for SQLStatement {
    type V = StatementView;

    open spec fn view(&self) -> StatementView {
        match self {
            SQLStatement::Select(statement) => StatementView::Select(statement@),
            SQLStatement::CreateTable(statement) => StatementView::CreateTable(statement@),
        }
    }
}

/// The statement that `tokens` spell: a `CREATE TABLE` statement where the
/// first token is the keyword `CREATE`, a `SELECT` statement where it is
/// the keyword `SELECT`. Fails with the text of the first token where it is
/// neither, and as the statement's own rules say.
pub open spec fn parse_statement(tokens: Seq<TokenView>) -> Result<StatementView, Seq<char>> {
    if keyword_at(tokens, 0, word_create()) {
        match parse_create(tokens) {
            Ok(statement) => Ok(StatementView::CreateTable(statement)),
            Err(text) => Err(text),
        }
    } else if keyword_at(tokens, 0, word_select()) {
        match parse_select(tokens) {
            Ok(statement) => Ok(StatementView::Select(statement)),
            Err(text) => Err(text),
        }
    } else {
        Err(text_at(tokens, 0))
    }
}

/// Whether the outcome `r` of parsing is the statement, or carries the
/// text, that `expected` gives.
pub open spec fn statement_matches(
    r: Result<SQLStatement, SQLSyntaxError>,
    expected: Result<StatementView, Seq<char>>,
) -> bool {
    match (r, expected) {
        (Ok(statement), Ok(view)) => statement@ == view && (statement matches SQLStatement::Select(
            select,
        ) ==> select.where_clause is None),
        (Err(error), Err(text)) => error@ == SyntaxErrorView::UnexpectedToken(text),
        _ => false,
    }
}

/// Parses the statement that `tokens` spell.
pub fn parse_tokens(tokens: Vec<SQLToken>) -> (r: Result<SQLStatement, SQLSyntaxError>)
    ensures
        statement_matches(r, parse_statement(tokens_view(tokens@))),
{
    let create: Vec<char> = vec!['C', 'R', 'E', 'A', 'T', 'E'];
    let select: Vec<char> = vec!['S', 'E', 'L', 'E', 'C', 'T'];
    assert(create@ =~= word_create());
    assert(select@ =~= word_select());
    if is_keyword(&tokens, 0, create.as_slice()) {
        match CreateTableStatement::from_tokens(tokens) {
            Ok(statement) => Ok(SQLStatement::CreateTable(statement)),
            Err(error) => Err(error),
        }
    } else if is_keyword(&tokens, 0, select.as_slice()) {
        match SelectStatement::from_tokens(tokens) {
            Ok(statement) => Ok(SQLStatement::Select(statement)),
            Err(error) => Err(error),
        }
    } else {
        Err(unexpected(&tokens, 0))
    }
}

/// Parses the statement that `text` holds.
pub fn parse_sql(text: &str) -> (r: Result<SQLStatement, SQLSyntaxError>)
    ensures
        statement_matches(r, parse_statement(tokenize_text(text@))),
{
    parse_tokens(tokenize(text))
}

/// Texts that can be read as a SQL statement.
pub trait ToSQLStatement {
    /// The statement that the text holds.
    fn to_sql_statment(&self) -> Result<SQLStatement, SQLSyntaxError>;
}

impl ToSQLStatement for &str {
    fn to_sql_statment(&self) -> (r: Result<SQLStatement, SQLSyntaxError>)
        ensures
            statement_matches(r, parse_statement(tokenize_text(self@))),
    {
        parse_sql(*self)
    }
}

impl ToSQLStatement for Vec<&str> {
    fn to_sql_statment(&self) -> (r: Result<SQLStatement, SQLSyntaxError>)
        ensures
            statement_matches(
                r,
                parse_statement(
                    tokenize_text(joined_with_spaces(self@.map_values(|part: &str| part@))),
                ),
            ),
    {
        let ghost parts = self@.map_values(|part: &str| part@);
        let mut joined = String::new();
        let mut index: usize = 0;
        while index < self.len()
            invariant
                index <= self@.len(),
                parts == self@.map_values(|part: &str| part@),
                joined@ == joined_with_spaces(parts.take(index as int)),
            decreases self@.len() - index,
        {
            let ghost before = joined@;
            if index > 0 {
                joined.push(' ');
            }
            joined.append(self[index]);
            proof {
                let taken = parts.take(index + 1);
                assert(taken.drop_last() =~= parts.take(index as int));
                assert(taken.last() == self@[index as int]@);
                if index == 0 {
                    assert(before =~= Seq::<char>::empty());
                    assert(joined@ =~= taken[0]);
                } else {
                    assert(joined@ =~= before + seq![' '] + taken.last());
                }
            }
            index = index + 1;
        }
        assert(parts.take(index as int) =~= parts);
        parse_sql(joined.as_str())
    }
}

} // verus!
