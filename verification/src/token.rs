//! The SQL tokenizer: white space separates chunks, a chunk that is a
//! reserved word is a keyword, and any other chunk falls apart into symbols
//! and the identifiers between them.

use vstd::prelude::*;
use crate::text::{chars_of, is_space, is_white_space, same_text, string_of};

verus! {

/// A punctuation mark that is a token of its own.
#[derive(Debug, Clone, Copy, PartialEq, Eq, Structural)]
pub enum Symbol {
    LeftParenthesis,
    RightParenthesis,
    Comma,
    Semicolon,
}

/// The character that `symbol` is written as.
pub open spec fn symbol_char(symbol: Symbol) -> char {
    match symbol {
        Symbol::LeftParenthesis => '(',
        Symbol::RightParenthesis => ')',
        Symbol::Comma => ',',
        Symbol::Semicolon => ';',
    }
}

/// The symbol that `c` is, if it is one.
pub open spec fn symbol_of(c: char) -> Option<Symbol> {
    if c == '(' {
        Some(Symbol::LeftParenthesis)
    } else if c == ')' {
        Some(Symbol::RightParenthesis)
    } else if c == ',' {
        Some(Symbol::Comma)
    } else if c == ';' {
        Some(Symbol::Semicolon)
    } else {
        None
    }
}

impl Symbol {
    /// The text that the symbol is written as.
    pub fn as_str(&self) -> (r: &'static str)
        ensures
            r@ == seq![symbol_char(*self)],
    {
        proof {
            reveal_strlit("(");
            reveal_strlit(")");
            reveal_strlit(",");
            reveal_strlit(";");
        }
        let r = match self {
            Symbol::LeftParenthesis => "(",
            Symbol::RightParenthesis => ")",
            Symbol::Comma => ",",
            Symbol::Semicolon => ";",
        };
        assert(r@ =~= seq![symbol_char(*self)]);
        r
    }

    /// The symbol that `c` is, if it is one.
    pub fn from_char(c: char) -> (r: Option<Symbol>)
        ensures
            r == symbol_of(c),
    {
        if c == '(' {
            Some(Symbol::LeftParenthesis)
        } else if c == ')' {
            Some(Symbol::RightParenthesis)
        } else if c == ',' {
            Some(Symbol::Comma)
        } else if c == ';' {
            Some(Symbol::Semicolon)
        } else {
            None
        }
    }
}

/// One token of a SQL text.
#[derive(Debug)]
pub enum SQLToken {
    Keyword(String),
    Identifier(String),
    Symbol(Symbol),
}

/// What a token is, as plain values.
pub enum TokenView {
    Keyword(Seq<char>),
    Identifier(Seq<char>),
    Symbol(Symbol),
}

impl View for SQLToken {
    type V = TokenView;

    open spec fn view(&self) -> TokenView {
        match self {
            SQLToken::Keyword(text) => TokenView::Keyword(text@),
            SQLToken::Identifier(text) => TokenView::Identifier(text@),
            SQLToken::Symbol(symbol) => TokenView::Symbol(*symbol),
        }
    }
}

/// The contents of a list of tokens.
pub open spec fn tokens_view(tokens: Seq<SQLToken>) -> Seq<TokenView> {
    tokens.map_values(|t: SQLToken| t@)
}

/// The word `SELECT`.
pub open spec fn word_select() -> Seq<char> {
    seq!['S', 'E', 'L', 'E', 'C', 'T']
}

/// The word `CREATE`.
pub open spec fn word_create() -> Seq<char> {
    seq!['C', 'R', 'E', 'A', 'T', 'E']
}

/// The word `FROM`.
pub open spec fn word_from() -> Seq<char> {
    seq!['F', 'R', 'O', 'M']
}

/// Whether `chunk` is one of the reserved words, letter for letter.
pub open spec fn is_reserved(chunk: Seq<char>) -> bool {
    chunk == word_select() || chunk == word_create() || chunk == word_from()
}

/// Where the run of characters that are no symbols, starting at `i`, ends.
pub open spec fn word_end(chunk: Seq<char>, i: int) -> int
    decreases chunk.len() - i,
{
    if i < 0 || i >= chunk.len() || symbol_of(chunk[i]) is Some {
        i
    } else {
        word_end(chunk, i + 1)
    }
}

/// Where the run of characters that are no white space, starting at `i`,
/// ends.
pub open spec fn chunk_end(text: Seq<char>, i: int) -> int
    decreases text.len() - i,
{
    if i < 0 || i >= text.len() || is_space(text[i]) {
        i
    } else {
        chunk_end(text, i + 1)
    }
}

proof fn lemma_word_end_bounds(chunk: Seq<char>, i: int)
    requires
        0 <= i <= chunk.len(),
    ensures
        i <= word_end(chunk, i) <= chunk.len(),
        i < chunk.len() && symbol_of(chunk[i]) is None ==> i < word_end(chunk, i),
    decreases chunk.len() - i,
{
    if i < chunk.len() && symbol_of(chunk[i]) is None {
        lemma_word_end_bounds(chunk, i + 1);
    }
}

proof fn lemma_chunk_end_bounds(text: Seq<char>, i: int)
    requires
        0 <= i <= text.len(),
    ensures
        i <= chunk_end(text, i) <= text.len(),
        i < text.len() && !is_space(text[i]) ==> i < chunk_end(text, i),
    decreases text.len() - i,
{
    if i < text.len() && !is_space(text[i]) {
        lemma_chunk_end_bounds(text, i + 1);
    }
}

/// The tokens of the part of `chunk` from `i` on, where `chunk` holds no
/// white space: each symbol by itself, and each run of other characters as
/// one identifier.
pub open spec fn component_tokens(chunk: Seq<char>, i: int) -> Seq<TokenView>
    decreases chunk.len() - i,
    via component_tokens_decreases
{
    if i < 0 || i >= chunk.len() {
        Seq::empty()
    } else {
        match symbol_of(chunk[i]) {
            Some(symbol) => seq![TokenView::Symbol(symbol)] + component_tokens(chunk, i + 1),
            None => seq![TokenView::Identifier(chunk.subrange(i, word_end(chunk, i)))]
                + component_tokens(chunk, word_end(chunk, i)),
        }
    }
}

#[via_fn]
proof fn component_tokens_decreases(chunk: Seq<char>, i: int) {
    if 0 <= i < chunk.len() {
        lemma_word_end_bounds(chunk, i);
    }
}

/// The tokens of one chunk: a keyword where the chunk is a reserved word,
/// and its symbols and identifiers otherwise.
pub open spec fn chunk_tokens(chunk: Seq<char>) -> Seq<TokenView> {
    if is_reserved(chunk) {
        seq![TokenView::Keyword(chunk)]
    } else {
        component_tokens(chunk, 0)
    }
}

/// The tokens of the part of `text` from `i` on: those of each chunk between
/// white space, in order.
pub open spec fn tokens_from(text: Seq<char>, i: int) -> Seq<TokenView>
    decreases text.len() - i,
    via tokens_from_decreases
{
    if i < 0 || i >= text.len() {
        Seq::empty()
    } else if is_space(text[i]) {
        tokens_from(text, i + 1)
    } else {
        chunk_tokens(text.subrange(i, chunk_end(text, i))) + tokens_from(text, chunk_end(text, i))
    }
}

#[via_fn]
proof fn tokens_from_decreases(text: Seq<char>, i: int) {
    if 0 <= i < text.len() {
        lemma_chunk_end_bounds(text, i);
    }
}

/// The tokens of `text`.
pub open spec fn tokenize_text(text: Seq<char>) -> Seq<TokenView> {
    tokens_from(text, 0)
}

fn find_word_end(chunk: &[char], start: usize) -> (end: usize)
    requires
        start <= chunk@.len(),
    ensures
        end == word_end(chunk@, start as int),
        start <= end <= chunk@.len(),
{
    let mut end: usize = start;
    while end < chunk.len() && Symbol::from_char(chunk[end]).is_none()
        invariant
            start <= end <= chunk@.len(),
            word_end(chunk@, end as int) == word_end(chunk@, start as int),
        decreases chunk@.len() - end,
    {
        end = end + 1;
    }
    end
}

fn find_chunk_end(text: &[char], start: usize) -> (end: usize)
    requires
        start <= text@.len(),
    ensures
        end == chunk_end(text@, start as int),
        start <= end <= text@.len(),
{
    let mut end: usize = start;
    while end < text.len() && !is_white_space(text[end])
        invariant
            start <= end <= text@.len(),
            chunk_end(text@, end as int) == chunk_end(text@, start as int),
        decreases text@.len() - end,
    {
        end = end + 1;
    }
    end
}

/// The tokens of a chunk that holds no white space: its symbols, and the
/// identifiers between them.
pub fn component_tokens_of(chunk: &[char]) -> (r: Vec<SQLToken>)
    ensures
        tokens_view(r@) == component_tokens(chunk@, 0),
{
    let mut tokens: Vec<SQLToken> = Vec::new();
    let mut index: usize = 0;
    assert(tokens_view(tokens@) + component_tokens(chunk@, 0) =~= component_tokens(chunk@, 0));
    while index < chunk.len()
        invariant
            index <= chunk@.len(),
            tokens_view(tokens@) + component_tokens(chunk@, index as int) == component_tokens(
                chunk@,
                0,
            ),
        decreases chunk@.len() - index,
    {
        let ghost before = tokens@;
        let ghost rest = component_tokens(chunk@, index as int);
        match Symbol::from_char(chunk[index]) {
            Some(symbol) => {
                tokens.push(SQLToken::Symbol(symbol));
                assert(tokens_view(tokens@) =~= tokens_view(before).push(
                    TokenView::Symbol(symbol),
                ));
                assert(tokens_view(tokens@) + component_tokens(chunk@, index + 1) =~= tokens_view(
                    before,
                ) + rest);
                index = index + 1;
            },
            None => {
                let end = find_word_end(chunk, index);
                proof {
                    lemma_word_end_bounds(chunk@, index as int);
                }
                let word = string_of(&chunk[index..end]);
                tokens.push(SQLToken::Identifier(word));
                assert(tokens_view(tokens@) =~= tokens_view(before).push(
                    TokenView::Identifier(word@),
                ));
                assert(tokens_view(tokens@) + component_tokens(chunk@, end as int) =~= tokens_view(
                    before,
                ) + rest);
                index = end;
            },
        }
    }
    assert(tokens_view(tokens@) + Seq::<TokenView>::empty() =~= tokens_view(tokens@));
    tokens
}

/// The tokens of a chunk of text that holds no white space: its symbols,
/// and the identifiers between them.
pub fn tokenize_component(value: &str) -> (r: Vec<SQLToken>)
    ensures
        tokens_view(r@) == component_tokens(value@, 0),
{
    let chars = chars_of(value);
    component_tokens_of(chars.as_slice())
}

fn is_reserved_word(chunk: &[char]) -> (r: bool)
    ensures
        r == is_reserved(chunk@),
{
    let select: Vec<char> = vec!['S', 'E', 'L', 'E', 'C', 'T'];
    let create: Vec<char> = vec!['C', 'R', 'E', 'A', 'T', 'E'];
    let from: Vec<char> = vec!['F', 'R', 'O', 'M'];
    assert(select@ =~= word_select());
    assert(create@ =~= word_create());
    assert(from@ =~= word_from());
    same_text(chunk, select.as_slice()) || same_text(chunk, create.as_slice()) || same_text(
        chunk,
        from.as_slice(),
    )
}

/// The tokens of `text`: those of each chunk between white space, a
/// reserved word as a keyword and any other chunk as its symbols and
/// identifiers.
pub fn tokenize_chars(text: &[char]) -> (r: Vec<SQLToken>)
    ensures
        tokens_view(r@) == tokenize_text(text@),
{
    let mut tokens: Vec<SQLToken> = Vec::new();
    let mut index: usize = 0;
    assert(tokens_view(tokens@) + tokens_from(text@, 0) =~= tokens_from(text@, 0));
    while index < text.len()
        invariant
            index <= text@.len(),
            tokens_view(tokens@) + tokens_from(text@, index as int) == tokenize_text(text@),
        decreases text@.len() - index,
    {
        if is_white_space(text[index]) {
            index = index + 1;
        } else {
            let end = find_chunk_end(text, index);
            proof {
                lemma_chunk_end_bounds(text@, index as int);
            }
            let chunk = &text[index..end];
            let ghost before = tokens@;
            let ghost rest = tokens_from(text@, index as int);
            if is_reserved_word(chunk) {
                tokens.push(SQLToken::Keyword(string_of(chunk)));
                assert(tokens_view(tokens@) =~= tokens_view(before) + chunk_tokens(chunk@));
            } else {
                let mut more = component_tokens_of(chunk);
                let ghost added = more@;
                tokens.append(&mut more);
                assert(tokens_view(tokens@) =~= tokens_view(before) + tokens_view(added));
            }
            assert(tokens_view(tokens@) + tokens_from(text@, end as int) =~= tokens_view(before)
                + rest);
            index = end;
        }
    }
    assert(tokens_view(tokens@) + Seq::<TokenView>::empty() =~= tokens_view(tokens@));
    tokens
}

/// The tokens of `text`.
pub fn tokenize(text: &str) -> (r: Vec<SQLToken>)
    ensures
        tokens_view(r@) == tokenize_text(text@),
{
    let chars = chars_of(text);
    tokenize_chars(chars.as_slice())
}

/// The token that the single character `c` is: its symbol, or an
/// identifier of one character.
pub fn char_token(c: char) -> (r: SQLToken)
    ensures
        r@ == match symbol_of(c) {
            Some(symbol) => TokenView::Symbol(symbol),
            None => TokenView::Identifier(seq![c]),
        },
{
    match Symbol::from_char(c) {
        Some(symbol) => SQLToken::Symbol(symbol),
        None => {
            let one: Vec<char> = vec![c];
            assert(one@ =~= seq![c]);
            SQLToken::Identifier(string_of(one.as_slice()))
        },
    }
}

/// Texts that can be cut into SQL tokens.
pub trait Tokenize {
    /// The tokens of the text.
    fn tokenize(&self) -> Vec<SQLToken>;
}

impl Tokenize for str {
    fn tokenize(&self) -> (r: Vec<SQLToken>)
        ensures
            tokens_view(r@) == tokenize_text(self@),
    {
        self::tokenize(self)
    }
}

/// Values that stand for one SQL token.
pub trait ToSQLToken {
    /// The token that the value stands for.
    fn to_sql_token(&self) -> SQLToken;
}

impl ToSQLToken for char {
    fn to_sql_token(&self) -> (r: SQLToken)
        ensures
            r@ == match symbol_of(*self) {
                Some(symbol) => TokenView::Symbol(symbol),
                None => TokenView::Identifier(seq![*self]),
            },
    {
        char_token(*self)
    }
}

} // verus!
