//! Rows as text: one line for each row, the fields of a line separated by
//! `;`, an empty field for null.

use vstd::prelude::*;
use crate::entities::Record;
use crate::errors::LoadingError;
use crate::model::{
    cell_field, field_cell, lemma_split_on_len, line_cells, row_line, rows_text, text_lines,
    text_rows, without_trailing, CARRIAGE_RETURN, FIELD_DELIMITER, LINE_END,
};
use crate::traits::{field_count_reason, Loadable, SourceType};
use crate::utils::{join_texts, split_text, strip_last, Cell, Row, Text, Value};

verus! {

/// Where rows are kept.
#[derive(Debug, PartialEq, Eq)]
pub enum Source {
    FilePath(String),
    HttpUri(String),
}

/// A [`Source`] as a mathematical value.
pub enum SourceView {
    FilePath(Text),
    HttpUri(Text),
}

impl View for Source {
    type V = SourceView;

    open spec fn view(&self) -> SourceView {
        match self {
            Source::FilePath(path) => SourceView::FilePath(path@),
            Source::HttpUri(uri) => SourceView::HttpUri(uri@),
        }
    }
}

/// What stands between a table and the source that keeps its rows.
///
/// The buffer says which file to read or to write and turns text into rows
/// and rows into text. To read and to write the file is left to the caller.
#[derive(Debug, PartialEq, Eq)]
pub struct Buffer {
    source: Source,
}

impl View for Buffer {
    type V = SourceView;

    closed spec fn view(&self) -> SourceView {
        self.source@
    }
}

impl Buffer {
    pub fn new(source: Source) -> (buffer: Self)
        ensures
            buffer@ == source@,
    {
        Self { source }
    }

    /// The source that the buffer stands for.
    pub fn source(&self) -> (source: &Source)
        ensures
            source@ == self@,
    {
        &self.source
    }

    /// The file to read the rows from. A source that is no local file cannot
    /// be read yet.
    pub fn read_path(&self) -> (outcome: Result<&String, LoadingError>)
        ensures
            match outcome {
                Ok(path) => self@ == SourceView::FilePath(path@),
                Err(LoadingError::SourceNotImplemented) => self@ is HttpUri,
                Err(_) => false,
            },
    {
        match &self.source {
            Source::FilePath(path) => Ok(path),
            Source::HttpUri(_) => Err(LoadingError::SourceNotImplemented),
        }
    }

    /// The file to write the rows to, for a buffer that stands for a local file.
    pub fn write_path(&self) -> (path: &String)
        requires
            self@ is FilePath,
        ensures
            self@ == SourceView::FilePath(path@),
    {
        match &self.source {
            Source::FilePath(path) => path,
            Source::HttpUri(uri) => uri,
        }
    }

    /// The line of a row: its fields with `;` between each two.
    pub fn record_to_string(record: &Vec<Option<String>>) -> (line: String)
        ensures
            line@ == row_line(record.deep_view()),
    {
        let mut fields: Vec<String> = Vec::new();
        let mut i: usize = 0;
        while i < record.len()
            invariant
                i <= record.len(),
                fields.len() == i,
                forall|k: int|
                    0 <= k < i ==> (#[trigger] fields[k])@ == cell_field(record.deep_view()[k]),
            decreases record.len() - i,
        {
            let field = match &record[i] {
                Some(text) => text.clone(),
                None => String::new(),
            };
            fields.push(field);
            i = i + 1;
        }
        assert(fields.deep_view() =~= record.deep_view().map_values(
            |cell: Cell| cell_field(cell),
        ));
        join_texts(&fields, FIELD_DELIMITER)
    }

    /// The lines of `text`.
    fn lines(text: &str) -> (lines: Vec<String>)
        ensures
            lines.deep_view() == text_lines(text@),
    {
        let pieces = split_text(text, LINE_END);
        proof {
            lemma_split_on_len(text@, LINE_END);
        }
        let last = pieces.len() - 1;
        let mut lines: Vec<String> = Vec::new();
        let mut i: usize = 0;
        while i < last
            invariant
                i <= last,
                last == pieces.len() - 1,
                lines.len() == i,
                forall|k: int|
                    0 <= k < i ==> (#[trigger] lines[k])@ == without_trailing(
                        pieces.deep_view()[k],
                        CARRIAGE_RETURN,
                    ),
            decreases last - i,
        {
            lines.push(strip_last(pieces[i].as_str(), CARRIAGE_RETURN));
            i = i + 1;
        }
        if !pieces[last].as_str().is_empty() {
            lines.push(pieces[last].clone());
        }
        assert(lines.deep_view() =~= text_lines(text@));
        lines
    }

    /// The rows that `text` holds, each of which has to have
    /// `columns_amount` cells.
    pub fn rows_from_text(text: &str, columns_amount: usize) -> (outcome: Result<
        Vec<Vec<Value>>,
        LoadingError,
    >)
        ensures
            match outcome {
                Ok(rows) => text_rows(text@, columns_amount as nat) == Some(rows.deep_view()),
                Err(LoadingError::InvalidRecord(reason)) => {
                    &&& text_rows(text@, columns_amount as nat) is None
                    &&& reason@ == field_count_reason()
                },
                Err(_) => false,
            },
    {
        let mut lines = Self::lines(text);
        let ghost all = lines.deep_view();
        let mut rows: Vec<Vec<Value>> = Vec::new();
        let mut i: usize = 0;
        while i < lines.len()
            invariant
                i <= lines.len(),
                lines.len() == all.len(),
                all == text_lines(text@),
                forall|k: int| i <= k < lines.len() ==> (#[trigger] lines[k])@ == all[k],
                rows.len() == i,
                forall|k: int|
                    0 <= k < i ==> {
                        &&& (#[trigger] rows[k]).deep_view() == line_cells(all[k])
                        &&& line_cells(all[k]).len() == columns_amount
                    },
            decreases lines.len() - i,
        {
            let ghost line = lines[i as int]@;
            assert(line == all[i as int]);
            match Self::line_to_vec(&mut lines[i], columns_amount) {
                Ok(values) => {
                    assert(values.deep_view() == line_cells(line));
                    rows.push(values);
                },
                Err(e) => {
                    assert(line_cells(all[i as int]).len() != columns_amount);
                    return Err(e);
                },
            }
            i = i + 1;
        }
        assert forall|k: int| 0 <= k < all.len() implies line_cells(#[trigger] all[k]).len()
            == columns_amount by {
            assert(rows[k].deep_view() == line_cells(all[k]));
        }
        assert(rows.deep_view() =~= all.map_values(|line: Text| line_cells(line)));
        Ok(rows)
    }
}

impl Buffer {
    /// The rows that the source holds, given the text that was read from it.
    /// Each row has to have `columns_amount` cells, and the source has to be
    /// a local file: no other kind can be read yet.
    pub fn bulk_data(&self, content: &str, columns_amount: usize) -> (outcome: Result<
        Vec<Vec<Value>>,
        LoadingError,
    >)
        ensures
            match outcome {
                Ok(rows) => {
                    &&& self@ is FilePath
                    &&& text_rows(content@, columns_amount as nat) == Some(rows.deep_view())
                },
                Err(LoadingError::SourceNotImplemented) => self@ is HttpUri,
                Err(LoadingError::InvalidRecord(reason)) => {
                    &&& self@ is FilePath
                    &&& text_rows(content@, columns_amount as nat) is None
                    &&& reason@ == field_count_reason()
                },
                Err(_) => false,
            },
    {
        match &self.source {
            Source::FilePath(_) => Self::rows_from_text(content, columns_amount),
            Source::HttpUri(_) => Err(LoadingError::SourceNotImplemented),
        }
    }

    /// The text to put in the place of all that the source holds, so that it
    /// holds `data`. The source has to be a local file.
    pub fn dump_data(&self, data: Vec<Vec<Value>>) -> (text: String)
        requires
            self@ is FilePath,
        ensures
            text@ == rows_text(data.deep_view()),
    {
        Self::collection_to_string(data)
    }
}

impl Loadable<Record> for Buffer {
    open spec fn backing(&self) -> SourceView {
        self@
    }

    fn line_to_vec(line_string: &mut String, columns_amount: usize) -> (outcome: Result<
        Vec<Value>,
        LoadingError,
    >) {
        let stripped = strip_last(line_string.as_str(), FIELD_DELIMITER);
        *line_string = stripped;
        let fields = split_text(line_string.as_str(), FIELD_DELIMITER);
        let mut values: Vec<Value> = Vec::new();
        let mut i: usize = 0;
        while i < fields.len()
            invariant
                i <= fields.len(),
                values.len() == i,
                forall|k: int|
                    0 <= k < i ==> (#[trigger] values[k]).deep_view() == field_cell(
                        fields.deep_view()[k],
                    ),
            decreases fields.len() - i,
        {
            let value = if fields[i].as_str().is_empty() {
                None
            } else {
                Some(fields[i].clone())
            };
            values.push(value);
            i = i + 1;
        }
        assert(values.deep_view() =~= fields.deep_view().map_values(
            |field: Text| field_cell(field),
        ));
        if values.len() == columns_amount {
            Ok(values)
        } else {
            Err(
                LoadingError::InvalidRecord(
                    "Number of fields does not match the number of columns.".to_string(),
                ),
            )
        }
    }

    fn collection_to_string(collection: Vec<Vec<Value>>) -> (text: String) {
        let mut lines: Vec<String> = Vec::new();
        let mut i: usize = 0;
        while i < collection.len()
            invariant
                i <= collection.len(),
                lines.len() == i,
                forall|k: int|
                    0 <= k < i ==> (#[trigger] lines[k])@ == row_line(collection.deep_view()[k]),
            decreases collection.len() - i,
        {
            lines.push(Self::record_to_string(&collection[i]));
            i = i + 1;
        }
        assert(lines.deep_view() =~= collection.deep_view().map_values(
            |row: Row| row_line(row),
        ));
        join_texts(&lines, LINE_END)
    }

    fn load_from_source(source_path: &str, source_type: SourceType) -> (outcome: Result<
        Self,
        LoadingError,
    >) {
        match source_type {
            SourceType::LocalFile => Ok(Self { source: Source::FilePath(source_path.to_string()) }),
            SourceType::Http => Err(LoadingError::SourceNotImplemented),
        }
    }
}

} // verus!
