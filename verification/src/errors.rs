//! The failures of each stage: lowering, table construction, querying,
//! loading and exporting.

use vstd::prelude::*;
use vstd::std_specs::cmp::PartialEqSpecImpl;
use std::io::ErrorKind;
use crate::utils::Text;

verus! {

/// The operating system's classification of an I/O failure. The library only
/// carries such a value from the place where the failure happened to the caller.
#[verifier::external_type_specification]
#[verifier::external_body]
pub struct ExErrorKind(ErrorKind);

/// An input that could not be turned into a token.
#[derive(Debug)]
pub struct TokenizeError {
    input: String,
    reason: Option<String>,
}

/// A [`TokenizeError`] as a mathematical value.
pub struct TokenizeErrorView {
    pub input: Text,
    pub reason: Option<Text>,
}

impl View for TokenizeError {
    type V = TokenizeErrorView;

    closed spec fn view(&self) -> TokenizeErrorView {
        TokenizeErrorView { input: self.input@, reason: self.reason.deep_view() }
    }
}

/// What a tokenizing failure says of an input for which no reason is known.
pub open spec fn tokenize_message(input: Text) -> Text {
    "The input \""@ + input + "\" could not be converted to a token.\n\n"@
}

impl TokenizeError {
    pub fn new(input: &str, reason: Option<String>) -> (e: Self)
        ensures
            e@ == (TokenizeErrorView { input: input@, reason: reason.deep_view() }),
    {
        Self { input: input.to_string(), reason }
    }

    /// The input that was refused.
    pub fn input(&self) -> (input: &String)
        ensures
            input@ == self@.input,
    {
        &self.input
    }

    /// Why the input was refused, if that is known.
    pub fn reason(&self) -> (reason: &Option<String>)
        ensures
            reason.deep_view() == self@.reason,
    {
        &self.reason
    }

    /// The failure in words: the input, and the reason if one is known.
    pub fn message(&self) -> (text: String)
        ensures
            text@ == match self@.reason {
                Some(reason) => tokenize_message(self@.input) + "Description : "@ + reason,
                None => tokenize_message(self@.input),
            },
    {
        let mut text = "The input \"".to_string();
        text.append(self.input.as_str());
        text.append("\" could not be converted to a token.\n\n");
        match &self.reason {
            Some(reason) => {
                text.append("Description : ");
                text.append(reason.as_str());
            },
            None => {},
        }
        text
    }
}

/// Two tokenizing failures are the same failure when they are about the same
/// input, whatever reason each one gives.
impl PartialEq for TokenizeError {
    fn eq(&self, other: &Self) -> (same: bool) {
        self.input == other.input
    }
}

impl PartialEqSpecImpl for TokenizeError {
    open spec fn obeys_eq_spec() -> bool {
        true
    }

    open spec fn eq_spec(&self, other: &Self) -> bool {
        self@.input == other@.input
    }
}

/// A table could not be built; the reason says why.
#[derive(Debug)]
pub struct TableInitError {
    reason: String,
}

impl View for TableInitError {
    type V = Text;

    closed spec fn view(&self) -> Text {
        self.reason@
    }
}

impl TableInitError {
    pub fn new(reason: &str) -> (e: Self)
        ensures
            e@ == reason@,
    {
        Self { reason: reason.to_string() }
    }

    /// Why the table could not be built.
    pub fn reason(&self) -> (reason: &String)
        ensures
            reason@ == self@,
    {
        &self.reason
    }

    /// The failure in words.
    pub fn message(&self) -> (text: String)
        ensures
            text@ == "Something went wrong when caching table :\n"@ + self@,
    {
        let mut text = "Something went wrong when caching table :\n".to_string();
        text.append(self.reason.as_str());
        text
    }
}

/// A table operation named a column that the schema lacks, or gave a row of
/// the wrong width.
#[derive(Debug, PartialEq, Eq)]
pub struct QueryError;

impl QueryError {
    /// The failure in words.
    pub fn message(&self) -> (text: String)
        ensures
            text@ == "Error while querying..."@,
    {
        "Error while querying...".to_string()
    }
}

/// The rows of a table could not be made durable.
#[derive(Debug, PartialEq, Eq)]
pub struct CommitError;

impl CommitError {
    /// The failure in words.
    pub fn message(&self) -> (text: String)
        ensures
            text@ == "Error while saving changes in the physical item."@,
    {
        "Error while saving changes in the physical item.".to_string()
    }
}

/// Why rows could not be loaded from a backing source.
#[derive(Debug)]
pub enum LoadingError {
    /// The source does not hold valid UTF-8.
    InvalidUTF8Encoding(ErrorKind),
    /// A line does not have as many fields as the table has columns.
    InvalidRecord(String),
    /// The kind of source is known but cannot be read yet.
    SourceNotImplemented,
    /// No source is registered under the section that was asked for.
    SourceNotListed,
    /// The source could not be opened or read.
    FailedFileLoading(ErrorKind),
}

impl LoadingError {
    /// The failure in words.
    pub fn message(&self) -> (text: String)
        ensures
            text@ == "Error while loading data from the physical item."@,
    {
        "Error while loading data from the physical item.".to_string()
    }
}

/// Why rows could not be written to a backing source.
#[derive(Debug, PartialEq, Eq)]
pub enum ExportError {
    /// The source could not be opened for writing.
    ResourceNotFound,
    /// The write began and did not complete.
    Interrupted,
}

/// Why a statement or an expression could not be lowered.
#[derive(Debug, PartialEq, Eq)]
pub enum SerializeError {
    /// The shape is recognised and not supported yet; the text says which.
    NotImplemented(String),
    /// The input lacks a part without which it cannot be lowered at all.
    NotImplementable,
    /// The kind of statement is outside what this engine is for.
    UselessToImplement,
}

/// A [`SerializeError`] as a mathematical value.
pub enum SerializeErrorView {
    NotImplemented(Text),
    NotImplementable,
    UselessToImplement,
}

impl View for SerializeError {
    type V = SerializeErrorView;

    open spec fn view(&self) -> SerializeErrorView {
        match self {
            SerializeError::NotImplemented(reason) => SerializeErrorView::NotImplemented(reason@),
            SerializeError::NotImplementable => SerializeErrorView::NotImplementable,
            SerializeError::UselessToImplement => SerializeErrorView::UselessToImplement,
        }
    }
}

} // verus!
