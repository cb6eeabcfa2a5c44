//! The records of a trace's body and the ways a trace can be refused.

use vstd::prelude::*;
use crate::vcd::scope::{items_view, HeaderItem, HeaderItemView};
use crate::vcd::value::Logic;

verus! {

/// One record of the body of a trace, as far as signals are concerned.
#[derive(Debug, PartialEq, Eq)]
pub enum Record {
    /// The simulation time from here on.
    Timestamp(u64),
    /// A new value of a one-bit variable, by its identifier code.
    ChangeScalar(String, Logic),
    /// New values of a vector variable, by its identifier code.
    ChangeVector(String, Vec<Logic>),
    /// A new text value of a variable, by its identifier code.
    ChangeString(String, String),
    /// Any other record.
    Other,
}

/// What a record stands for.
pub enum RecordView {
    Timestamp(u64),
    ChangeScalar(Seq<char>, Logic),
    ChangeVector(Seq<char>, Seq<Logic>),
    ChangeString(Seq<char>, Seq<char>),
    Other,
}

impl View for Record {
    type V = RecordView;

    open spec fn view(&self) -> RecordView {
        match *self {
            Record::Timestamp(time) => RecordView::Timestamp(time),
            Record::ChangeScalar(code, value) => RecordView::ChangeScalar(code@, value),
            Record::ChangeVector(code, values) => RecordView::ChangeVector(code@, values@),
            Record::ChangeString(code, text) => RecordView::ChangeString(code@, text@),
            Record::Other => RecordView::Other,
        }
    }
}

/// What a record that was read, or the message of one that could not be read,
/// stands for.
pub open spec fn reading_view(reading: Result<Record, String>) -> Result<RecordView, Seq<char>> {
    match reading {
        Ok(record) => Ok(record@),
        Err(message) => Err(message@),
    }
}

/// What a list of records, read or not, stands for.
pub open spec fn readings_view(records: Seq<Result<Record, String>>) -> Seq<
    Result<RecordView, Seq<char>>,
> {
    Seq::new(records.len(), |i: int| reading_view(records[i]))
}

/// A trace whose header could be read: the items of the header, and the
/// records of the body in the order in which they stand, each either read or
/// with the message of why it could not be.
#[derive(Debug, PartialEq, Eq)]
pub struct Document {
    pub items: Vec<HeaderItem>,
    pub records: Vec<Result<Record, String>>,
}

/// What a document stands for.
pub struct DocumentView {
    pub items: Seq<HeaderItemView>,
    pub records: Seq<Result<RecordView, Seq<char>>>,
}

impl View for Document {
    type V = DocumentView;

    open spec fn view(&self) -> DocumentView {
        DocumentView { items: items_view(self.items@), records: readings_view(self.records@) }
    }
}

/// Why a trace was refused.
#[derive(Debug, PartialEq, Eq)]
pub enum FormatError {
    /// The header could not be read; the message says why.
    Header(String),
    /// A record of the body could not be read; the message says why.
    Record(String),
    /// A vector change supplied more values than its variable was declared
    /// with.
    Width {
        /// The identifier code of the variable.
        code: String,
        /// The declared width of the variable.
        declared: usize,
        /// The number of values that the change supplied.
        supplied: usize,
    },
}

/// What a refusal stands for.
pub enum FormatErrorView {
    Header(Seq<char>),
    Record(Seq<char>),
    Width { code: Seq<char>, declared: usize, supplied: usize },
}

/// What the outcome of reading a trace's text stands for.
pub open spec fn outcome_view(outcome: Result<Document, String>) -> Result<DocumentView, Seq<char>> {
    match outcome {
        Ok(document) => Ok(document@),
        Err(message) => Err(message@),
    }
}

impl View for FormatError {
    type V = FormatErrorView;

    open spec fn view(&self) -> FormatErrorView {
        match *self {
            FormatError::Header(message) => FormatErrorView::Header(message@),
            FormatError::Record(message) => FormatErrorView::Record(message@),
            FormatError::Width { code, declared, supplied } => FormatErrorView::Width {
                code: code@,
                declared,
                supplied,
            },
        }
    }
}

} // verus!
