//! The errors of the pipeline and of the parser.

use crate::grammar::{rule_name, Rule};
use crate::text::{decimal, push_decimal};
use vstd::prelude::*;

verus! {

/// What can go wrong while a project is read, generated or written.
#[derive(Debug, PartialEq, Eq)]
pub enum PakError {
    /// A failure described by its message.
    CustomError(String),
    /// Reading or writing failed; holds what the system reported.
    IoError(String),
    /// The directory holds no project file.
    NotAProject,
    /// The project file is there but could not be opened.
    ProjectReadError,
    /// A descriptor could not be serialised; holds the detail.
    SerializationError(String),
    /// No target of the requested name is registered.
    TargetNotFound(String),
    /// The model source could not be parsed or resolved.
    ParserError(String),
}

/// What a [`PakError`] stands for.
pub ghost enum PakErrorView {
    CustomError(Seq<char>),
    IoError(Seq<char>),
    NotAProject,
    ProjectReadError,
    SerializationError(Seq<char>),
    TargetNotFound(Seq<char>),
    ParserError(Seq<char>),
}

/// What a step of the pipeline gives.
pub type PakResult<T> = Result<T, PakError>;

impl PakErrorView {
    /// The single line shown to the user for this error.
    pub open spec fn message(self) -> Seq<char> {
        match self {
            PakErrorView::CustomError(detail) => "error: "@ + detail,
            PakErrorView::IoError(detail) => "io-error: "@ + detail,
            PakErrorView::NotAProject => "this is not a pakken project."@,
            PakErrorView::ProjectReadError => "could not read project file"@,
            PakErrorView::SerializationError(detail) => "serialization error: "@ + detail,
            PakErrorView::TargetNotFound(name) => "could not locate the target `"@ + name + "`"@,
            PakErrorView::ParserError(detail) => "parser error: "@ + detail,
        }
    }
}

impl View for PakError {
    type V = PakErrorView;

    open spec fn view(&self) -> PakErrorView {
        match self {
            PakError::CustomError(detail) => PakErrorView::CustomError(detail@),
            PakError::IoError(detail) => PakErrorView::IoError(detail@),
            PakError::NotAProject => PakErrorView::NotAProject,
            PakError::ProjectReadError => PakErrorView::ProjectReadError,
            PakError::SerializationError(detail) => PakErrorView::SerializationError(detail@),
            PakError::TargetNotFound(name) => PakErrorView::TargetNotFound(name@),
            PakError::ParserError(detail) => PakErrorView::ParserError(detail@),
        }
    }
}

impl PakError {
    /// The single line shown to the user for this error.
    pub fn message(&self) -> (text: String)
        ensures
            text@ == self@.message(),
    {
        match self {
            PakError::CustomError(detail) => String::from_str("error: ").concat(detail.as_str()),
            PakError::IoError(detail) => String::from_str("io-error: ").concat(detail.as_str()),
            PakError::NotAProject => String::from_str("this is not a pakken project."),
            PakError::ProjectReadError => String::from_str("could not read project file"),
            PakError::SerializationError(detail) => String::from_str(
                "serialization error: ",
            ).concat(detail.as_str()),
            PakError::TargetNotFound(name) => String::from_str(
                "could not locate the target `",
            ).concat(name.as_str()).concat("`"),
            PakError::ParserError(detail) => String::from_str("parser error: ").concat(
                detail.as_str(),
            ),
        }
    }
}

/// What can go wrong while a model is parsed and resolved.
#[derive(Debug, PartialEq, Eq)]
pub enum ParserError {
    /// A rule stands where the grammar does not allow it.
    InvalidRule(Rule),
    /// The source holds nothing to parse.
    NoToken,
    /// An error on the given line.
    Line(usize),
    /// The source does not follow the grammar; holds the line and the column,
    /// both counted from one.
    ParsingError(usize, usize),
    /// The source follows the grammar but cannot be accepted; holds the line,
    /// the column and the reason.
    CustomError(usize, usize, String),
    /// A name refers to no entity that is declared at that point.
    UnknownEntity(String),
    /// Anything else.
    Unhandled,
}

/// What a [`ParserError`] stands for.
pub ghost enum ParserErrorView {
    InvalidRule(Rule),
    NoToken,
    Line(usize),
    ParsingError(usize, usize),
    CustomError(usize, usize, Seq<char>),
    UnknownEntity(Seq<char>),
    Unhandled,
}

/// What parsing or resolving gives.
pub type ParserResult<T> = Result<T, ParserError>;

impl ParserErrorView {
    /// The single line shown to the user for this error.
    pub open spec fn message(self) -> Seq<char> {
        match self {
            ParserErrorView::InvalidRule(rule) => "Invalid Token found: `"@ + rule_name(rule) + "`"@,
            ParserErrorView::NoToken => "No Token found"@,
            ParserErrorView::Line(line) => "Error at line `"@ + decimal(line as nat) + "`"@,
            ParserErrorView::ParsingError(line, column) => "Parsing error at `"@ + decimal(
                line as nat,
            ) + ":"@ + decimal(column as nat) + "`;"@,
            ParserErrorView::CustomError(line, column, reason) => "Parsing error at `"@ + decimal(
                line as nat,
            ) + ":"@ + decimal(column as nat) + "`: `"@ + reason + "`;"@,
            ParserErrorView::UnknownEntity(name) => "Unknown entity `"@ + name + "`"@,
            ParserErrorView::Unhandled => "Unhandled Error"@,
        }
    }
}

impl View for ParserError {
    type V = ParserErrorView;

    open spec fn view(&self) -> ParserErrorView {
        match self {
            ParserError::InvalidRule(rule) => ParserErrorView::InvalidRule(*rule),
            ParserError::NoToken => ParserErrorView::NoToken,
            ParserError::Line(line) => ParserErrorView::Line(*line),
            ParserError::ParsingError(line, column) => ParserErrorView::ParsingError(*line, *column),
            ParserError::CustomError(line, column, reason) => ParserErrorView::CustomError(
                *line,
                *column,
                reason@,
            ),
            ParserError::UnknownEntity(name) => ParserErrorView::UnknownEntity(name@),
            ParserError::Unhandled => ParserErrorView::Unhandled,
        }
    }
}

impl ParserError {
    /// The single line shown to the user for this error.
    pub fn message(&self) -> (text: String)
        ensures
            text@ == self@.message(),
    {
        match self {
            ParserError::InvalidRule(rule) => String::from_str("Invalid Token found: `").concat(
                rule.name(),
            ).concat("`"),
            ParserError::NoToken => String::from_str("No Token found"),
            ParserError::Line(line) => {
                let mut text = String::from_str("Error at line `");
                push_decimal(&mut text, *line);
                text.concat("`")
            },
            ParserError::ParsingError(line, column) => {
                let mut text = String::from_str("Parsing error at `");
                push_decimal(&mut text, *line);
                text.append(":");
                push_decimal(&mut text, *column);
                text.concat("`;")
            },
            ParserError::CustomError(line, column, reason) => {
                let mut text = String::from_str("Parsing error at `");
                push_decimal(&mut text, *line);
                text.append(":");
                push_decimal(&mut text, *column);
                text.append("`: `");
                text.append(reason.as_str());
                text.concat("`;")
            },
            ParserError::UnknownEntity(name) => String::from_str("Unknown entity `").concat(
                name.as_str(),
            ).concat("`"),
            ParserError::Unhandled => String::from_str("Unhandled Error"),
        }
    }
}

impl PakError {
    /// The failure of parsing as a failure of the pipeline: it keeps the
    /// message.
    pub fn from_parser(error: &ParserError) -> (wrapped: PakError)
        ensures
            wrapped@ == PakErrorView::ParserError(error@.message()),
    {
        PakError::ParserError(error.message())
    }
}

} // verus!
