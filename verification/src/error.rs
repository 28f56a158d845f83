//! What can go wrong while a message of the editor is handled.

use vstd::prelude::*;
use vstd::string::*;
use crate::file::EditError;
use crate::spell::{SpellError, SpellErrorView};

verus! {

/// Why a message of the editor could not be handled.
#[derive(Clone, Debug, PartialEq, Eq)]
pub enum Error {
    /// The parameters of the message could not be read; it carries what the
    /// decoder said.
    Decode(String),
    /// The document is not open; it carries its URI.
    NotLoaded(String),
    /// The document has a line that no position can name; it carries its
    /// URI.
    TooLarge(String),
    /// The changes could not be applied.
    Edit(EditError),
    /// The checker could not be written to or read from; it carries the
    /// fault.
    Checker(String),
    /// The checker said what could not be used.
    Spell(SpellError),
}

/// The mathematical content of an [`Error`].
pub enum ErrorView {
    Decode(Seq<char>),
    NotLoaded(Seq<char>),
    TooLarge(Seq<char>),
    Edit(EditError),
    Checker(Seq<char>),
    Spell(SpellErrorView),
}

impl View for Error {
    type V = ErrorView;

    open spec fn view(&self) -> ErrorView {
        match self {
            Error::Decode(what) => ErrorView::Decode(what@),
            Error::NotLoaded(uri) => ErrorView::NotLoaded(uri@),
            Error::TooLarge(uri) => ErrorView::TooLarge(uri@),
            Error::Edit(e) => ErrorView::Edit(*e),
            Error::Checker(what) => ErrorView::Checker(what@),
            Error::Spell(e) => ErrorView::Spell(e@),
        }
    }
}

/// What an edit error says.
pub open spec fn edit_words(e: EditError) -> Seq<char> {
    match e {
        EditError::MissingRange => "No range in change notification"@,
        EditError::InvertedRange => "Range ends before it starts"@,
    }
}

/// What a checker error says.
pub open spec fn spell_words(e: SpellErrorView) -> Seq<char> {
    match e {
        SpellErrorView::UnexpectedLine(line) => "Unexpected line: "@ + line,
        SpellErrorView::BadOffset(line) => "No offset in line: "@ + line,
        SpellErrorView::RangeOverflow(line) => "Word ends too far right in line: "@ + line,
        SpellErrorView::TooManyLines => "Too many lines"@,
    }
}

/// What an error says.
pub open spec fn words(e: ErrorView) -> Seq<char> {
    match e {
        ErrorView::Decode(what) => what,
        ErrorView::NotLoaded(uri) => "File not loaded: "@ + uri,
        ErrorView::TooLarge(uri) => "File too large: "@ + uri,
        ErrorView::Edit(e) => edit_words(e),
        ErrorView::Checker(what) => what,
        ErrorView::Spell(e) => spell_words(e),
    }
}

/// What an edit error says.
pub fn edit_message(e: EditError) -> (r: String)
    ensures
        r@ == edit_words(e),
{
    match e {
        EditError::MissingRange => String::from_str("No range in change notification"),
        EditError::InvertedRange => String::from_str("Range ends before it starts"),
    }
}

/// What a checker error says.
pub fn spell_message(e: &SpellError) -> (r: String)
    ensures
        r@ == spell_words(e@),
{
    match e {
        SpellError::UnexpectedLine(line) => String::from_str("Unexpected line: ").concat(
            line.as_str(),
        ),
        SpellError::BadOffset(line) => String::from_str("No offset in line: ").concat(
            line.as_str(),
        ),
        SpellError::RangeOverflow(line) => String::from_str(
            "Word ends too far right in line: ",
        ).concat(line.as_str()),
        SpellError::TooManyLines => String::from_str("Too many lines"),
    }
}

impl Error {
    /// What the error says, for the editor to show.
    pub fn message(&self) -> (r: String)
        ensures
            r@ == words(self@),
    {
        match self {
            Error::Decode(what) => what.clone(),
            Error::NotLoaded(uri) => String::from_str("File not loaded: ").concat(uri.as_str()),
            Error::TooLarge(uri) => String::from_str("File too large: ").concat(uri.as_str()),
            Error::Edit(e) => edit_message(*e),
            Error::Checker(what) => what.clone(),
            Error::Spell(e) => spell_message(e),
        }
    }
}

} // verus!
