//! Why a configuration could not be compiled into a catalog.

use vstd::prelude::*;

verus! {

/// Why a configuration could not be compiled.
#[derive(Debug)]
pub enum ParseError {
    /// The game with this id has no display name.
    MissingName(String),
    /// The game with this id has no command.
    MissingCommand(String),
    /// An entry of the `games` table is not itself a table.
    GameNotTable,
    /// The document has no `games` table.
    MissingGameTable,
    /// The game with this id names a directory alias that is not defined.
    NoSuchDirectoryPrefix(String, String),
    /// The document is not well-formed; the message says where.
    TomlError(String),
    /// A game's table holds this key, which is no option.
    UnrecognizedOption(String),
}

/// A `ParseError` as mathematical values.
pub ghost enum ParseErrorView {
    MissingName(Seq<char>),
    MissingCommand(Seq<char>),
    GameNotTable,
    MissingGameTable,
    NoSuchDirectoryPrefix(Seq<char>, Seq<char>),
    TomlError(Seq<char>),
    UnrecognizedOption(Seq<char>),
}

impl View for ParseError {
    type V = ParseErrorView;

    open spec fn view(&self) -> ParseErrorView {
        match self {
            ParseError::MissingName(id) => ParseErrorView::MissingName(id@),
            ParseError::MissingCommand(id) => ParseErrorView::MissingCommand(id@),
            ParseError::GameNotTable => ParseErrorView::GameNotTable,
            ParseError::MissingGameTable => ParseErrorView::MissingGameTable,
            ParseError::NoSuchDirectoryPrefix(id, alias) => ParseErrorView::NoSuchDirectoryPrefix(
                id@,
                alias@,
            ),
            ParseError::TomlError(message) => ParseErrorView::TomlError(message@),
            ParseError::UnrecognizedOption(key) => ParseErrorView::UnrecognizedOption(key@),
        }
    }
}

} // verus!
