//! What can go wrong while a query is read and answered.

use vstd::prelude::*;

verus! {

/// A query that could not be answered.
#[derive(Debug)]
pub enum SQLCommandError {
    /// The catalog holds no table of this name.
    UnknownTable(String),
    /// The text is no statement that can be executed.
    UnsupportedCommand(String),
    /// The statement misses a token, or holds this one in a wrong place.
    SyntaxError(String),
    /// The page of this number, which starts with this tag byte, cannot be
    /// used.
    CorruptPage(u32, u8),
}

/// A statement that could not be parsed.
#[derive(Debug)]
pub enum SQLSyntaxError {
    /// This token stands where another was expected; the text is empty
    /// where the tokens ended instead.
    UnexpectedToken(String),
    /// This value is not supported.
    UnsupportedValue(String),
}

/// What a command error is, as plain values.
pub enum CommandErrorView {
    UnknownTable(Seq<char>),
    UnsupportedCommand(Seq<char>),
    SyntaxError(Seq<char>),
    CorruptPage(u32, u8),
}

impl View for SQLCommandError {
    type V = CommandErrorView;

    open spec fn view(&self) -> CommandErrorView {
        match self {
            SQLCommandError::UnknownTable(name) => CommandErrorView::UnknownTable(name@),
            SQLCommandError::UnsupportedCommand(text) => CommandErrorView::UnsupportedCommand(
                text@,
            ),
            SQLCommandError::SyntaxError(text) => CommandErrorView::SyntaxError(text@),
            SQLCommandError::CorruptPage(page_number, tag) => CommandErrorView::CorruptPage(
                *page_number,
                *tag,
            ),
        }
    }
}

/// What a syntax error is, as plain values.
pub enum SyntaxErrorView {
    UnexpectedToken(Seq<char>),
    UnsupportedValue(Seq<char>),
}

/// The text that a syntax error carries.
pub open spec fn syntax_error_text(error: SyntaxErrorView) -> Seq<char> {
    match error {
        SyntaxErrorView::UnexpectedToken(text) => text,
        SyntaxErrorView::UnsupportedValue(text) => text,
    }
}

impl View for SQLSyntaxError {
    type V = SyntaxErrorView;

    open spec fn view(&self) -> SyntaxErrorView {
        match self {
            SQLSyntaxError::UnexpectedToken(text) => SyntaxErrorView::UnexpectedToken(text@),
            SQLSyntaxError::UnsupportedValue(text) => SyntaxErrorView::UnsupportedValue(text@),
        }
    }
}

/// `std::io::Error`, which this library only carries from where a file was
/// read to where the failure is reported.
#[verifier::external_type_specification]
#[verifier::external_body]
pub struct ExIoError(std::io::Error);

/// A command line that could not be carried out.
#[derive(Debug)]
pub enum CommandArgsError {
    /// Neither a database path nor a command was given.
    MissingArgs,
    /// A database path was given, but no command.
    MissingCommand,
    /// The command begins with this word, which names no command.
    InvalidCommand(String),
    /// The database file could not be read.
    Io(std::io::Error),
}

/// What a command line error is, as plain values.
pub enum CommandArgsErrorView {
    MissingArgs,
    MissingCommand,
    InvalidCommand(Seq<char>),
    Io,
}

impl View for CommandArgsError {
    type V = CommandArgsErrorView;

    open spec fn view(&self) -> CommandArgsErrorView {
        match self {
            CommandArgsError::MissingArgs => CommandArgsErrorView::MissingArgs,
            CommandArgsError::MissingCommand => CommandArgsErrorView::MissingCommand,
            CommandArgsError::InvalidCommand(word) => CommandArgsErrorView::InvalidCommand(word@),
            CommandArgsError::Io(_) => CommandArgsErrorView::Io,
        }
    }
}

/// Why a run ended without an answer.
#[derive(Debug)]
pub enum RunError {
    Args(CommandArgsError),
    Sql(SQLCommandError),
}

/// What a run's error is, as plain values.
pub enum RunErrorView {
    Args(CommandArgsErrorView),
    Sql(CommandErrorView),
}

impl View for RunError {
    type V = RunErrorView;

    open spec fn view(&self) -> RunErrorView {
        match self {
            RunError::Args(error) => RunErrorView::Args(error@),
            RunError::Sql(error) => RunErrorView::Sql(error@),
        }
    }
}

} // verus!
