//! The vocabulary of a query and the interfaces that the engine's parts offer.

use vstd::prelude::*;
use crate::commands::{Command, CommandView};
use crate::errors::{LoadingError, QueryError, SerializeError, SerializeErrorView};
use crate::file_parsing::SourceView;
use crate::model::{
    all_found, column_index, fitting_rows, line_cells, lookup, picked, rewritten, rows_text,
    targets, without_trailing, ColumnsView, ConditionView, InsertElementView, TableModel,
    FIELD_DELIMITER,
};
use crate::utils::{Row, Text, Value};

verus! {

/// A filter on rows: a comparison of a column with a literal, or two filters
/// joined by "or" or by "and". The first text of a comparison is the column's
/// name, the second the literal.
#[derive(Debug, PartialEq, Eq)]
pub enum Condition {
    Equal(String, String),
    GreaterThan(String, String),
    LessThan(String, String),
    Or(Box<Condition>, Box<Condition>),
    And(Box<Condition>, Box<Condition>),
}

impl Condition {
    /// The filter as a mathematical value.
    pub open spec fn model(&self) -> ConditionView
        decreases self,
    {
        match self {
            Condition::Equal(column, literal) => ConditionView::Equal(column@, literal@),
            Condition::GreaterThan(column, literal) => ConditionView::GreaterThan(
                column@,
                literal@,
            ),
            Condition::LessThan(column, literal) => ConditionView::LessThan(column@, literal@),
            Condition::Or(left, right) => ConditionView::Or(
                Box::new(left.model()),
                Box::new(right.model()),
            ),
            Condition::And(left, right) => ConditionView::And(
                Box::new(left.model()),
                Box::new(right.model()),
            ),
        }
    }
}

impl View for Condition {
    type V = ConditionView;

    open spec fn view(&self) -> ConditionView {
        self.model()
    }
}

/// The optional filter of a query as a mathematical value.
pub open spec fn filter_view(condition: Option<Condition>) -> Option<ConditionView> {
    match condition {
        Some(c) => Some(c@),
        None => None,
    }
}

/// Which columns a query hands out.
#[derive(Debug, PartialEq, Eq)]
pub enum Columns {
    All,
    ColumnNames(Vec<String>),
}

impl View for Columns {
    type V = ColumnsView;

    open spec fn view(&self) -> ColumnsView {
        match self {
            Columns::All => ColumnsView::All,
            Columns::ColumnNames(names) => ColumnsView::ColumnNames(names.deep_view()),
        }
    }
}

/// What an insert brings. Under `MappedValues` a column that no pair names
/// gets null, and of two pairs that name one column the later one counts.
#[derive(Debug, PartialEq, Eq)]
pub enum InsertElement {
    PlainValues(Vec<Value>),
    MappedValues(Vec<(String, Value)>),
}

impl View for InsertElement {
    type V = InsertElementView;

    open spec fn view(&self) -> InsertElementView {
        match self {
            InsertElement::PlainValues(values) => InsertElementView::PlainValues(
                values.deep_view(),
            ),
            InsertElement::MappedValues(pairs) => InsertElementView::MappedValues(
                pairs.deep_view(),
            ),
        }
    }
}

/// The kinds of backing source that a buffer can be asked to stand for.
#[derive(Debug, PartialEq, Eq)]
pub enum SourceType {
    LocalFile,
    Http,
}

/// The outcome of lowering a filter, as a mathematical value.
pub open spec fn lowering_view(outcome: Result<Option<Condition>, SerializeError>) -> Result<
    Option<ConditionView>,
    SerializeErrorView,
> {
    match outcome {
        Ok(condition) => Ok(filter_view(condition)),
        Err(e) => Err(e@),
    }
}

/// Something that can be read as the optional filter of a query.
pub trait Filtering {
    /// The filter that this stands for, or why it stands for none.
    spec fn lowered(&self) -> Result<Option<ConditionView>, SerializeErrorView>;

    fn deserialize_conditions(&self) -> (outcome: Result<Option<Condition>, SerializeError>)
        ensures
            lowering_view(outcome) == self.lowered(),
    ;
}

/// The outcome of building a command, as a mathematical value.
pub open spec fn building_view(outcome: Result<Command, SerializeError>) -> Result<
    CommandView,
    SerializeErrorView,
> {
    match outcome {
        Ok(command) => Ok(command@),
        Err(e) => Err(e@),
    }
}

/// Something that can be read as one command for the engine.
pub trait Executable {
    /// The command that this stands for, or why it stands for none.
    spec fn command(&self) -> Result<CommandView, SerializeErrorView>;

    fn deserialize_as_command(&self) -> (outcome: Result<Command, SerializeError>)
        ensures
            building_view(outcome) == self.command(),
    ;
}

/// One row together with the names of its columns.
///
/// Nothing ties the number of cells to the number of columns: a column
/// beyond the last cell has no value, and to ask for it is an error.
pub trait Recordable: Sized {
    /// The names of the columns, in order.
    spec fn columns(&self) -> Seq<Text>;

    /// The cells, in the order of the columns.
    spec fn cells(&self) -> Row;

    fn get_record_as_collection(&self) -> (values: Vec<Value>)
        ensures
            values.deep_view() == self.cells(),
    ;

    fn get_attr_index_from_name(&self, attr_name: &String) -> (outcome: Result<usize, QueryError>)
        ensures
            match outcome {
                Ok(i) => column_index(self.columns(), attr_name@) == Some(i as int),
                Err(_) => column_index(self.columns(), attr_name@) is None,
            },
    ;

    fn get_attr_value(&self, attr_name: &String) -> (outcome: Result<Value, QueryError>)
        ensures
            match outcome {
                Ok(value) => lookup(self.columns(), self.cells(), attr_name@) == Some(
                    value.deep_view(),
                ),
                Err(_) => lookup(self.columns(), self.cells(), attr_name@) is None,
            },
    ;

    /// The cells under `attr_names`, in the order of `attr_names`.
    fn get_attr_values(&self, attr_names: &Vec<String>) -> (outcome: Result<
        Vec<Value>,
        QueryError,
    >)
        ensures
            match outcome {
                Ok(values) => {
                    &&& all_found(self.columns(), self.cells(), attr_names.deep_view())
                    &&& values.deep_view() == picked(
                        self.columns(),
                        self.cells(),
                        attr_names.deep_view(),
                    )
                },
                Err(_) => !all_found(self.columns(), self.cells(), attr_names.deep_view()),
            },
    ;

    /// Writes each value of `new_values` at the place of the column that its
    /// pair names, or changes nothing where one of the names has no cell.
    fn update_values(&mut self, new_values: &Vec<(String, Value)>) -> (outcome: Result<
        (),
        QueryError,
    >)
        ensures
            final(self).columns() == old(self).columns(),
            match outcome {
                Ok(_) => {
                    &&& all_found(
                        old(self).columns(),
                        old(self).cells(),
                        targets(new_values.deep_view()),
                    )
                    &&& final(self).cells() == rewritten(
                        old(self).columns(),
                        old(self).cells(),
                        new_values.deep_view(),
                    )
                },
                Err(_) => {
                    &&& !all_found(
                        old(self).columns(),
                        old(self).cells(),
                        targets(new_values.deep_view()),
                    )
                    &&& final(self).cells() == old(self).cells()
                },
            },
    ;

    fn satisfy_conditions(&self, cond: &Condition) -> (outcome: Result<bool, QueryError>)
        ensures
            match outcome {
                Ok(holds) => cond@.eval(self.columns(), self.cells()) == Some(holds),
                Err(_) => cond@.eval(self.columns(), self.cells()) is None,
            },
    ;
}

/// A table that answers the four kinds of query.
///
/// The first argument of each method is there for stores that hold several
/// tables; a single table does not read it.
pub trait Queryable<T: Recordable>: View<V = TableModel> {
    fn select(
        &self,
        _object_names: &Option<Vec<String>>,
        attributes_names: &Columns,
        conditions: &Option<Condition>,
    ) -> (outcome: Result<Vec<Vec<Value>>, QueryError>)
        ensures
            match outcome {
                Ok(rows) => self@.select(attributes_names@, filter_view(*conditions)) == Some(
                    rows.deep_view(),
                ),
                Err(_) => self@.select(attributes_names@, filter_view(*conditions)) is None,
            },
    ;

    fn delete(&mut self, _object_name: &Option<String>, conditions: &Option<Condition>) -> (outcome:
        Result<(), QueryError>)
        ensures
            final(self)@.wf(),
            match outcome {
                Ok(_) => old(self)@.delete(filter_view(*conditions)) == Some(final(self)@),
                Err(_) => old(self)@.delete(filter_view(*conditions)) is None && final(self)@
                    == old(self)@,
            },
    ;

    fn update(
        &mut self,
        _object_name: &Option<String>,
        new_values: Vec<(String, Value)>,
        conditions: &Option<Condition>,
    ) -> (outcome: Result<(), QueryError>)
        ensures
            final(self)@.wf(),
            match outcome {
                Ok(_) => old(self)@.update(new_values.deep_view(), filter_view(*conditions))
                    == Some(final(self)@),
                Err(_) => old(self)@.update(new_values.deep_view(), filter_view(*conditions))
                    is None && final(self)@ == old(self)@,
            },
    ;

    fn insert(&mut self, _object_name: &Option<String>, new_record: InsertElement) -> (outcome:
        Result<(), QueryError>)
        ensures
            final(self)@.wf(),
            match outcome {
                Ok(_) => old(self)@.insert(new_record@) == Some(final(self)@),
                Err(_) => old(self)@.insert(new_record@) is None && final(self)@ == old(self)@,
            },
    ;
}

/// A table whose rows can be taken over from, and handed to, a store.
pub trait Data: Sized + View<V = TableModel> {
    /// Appends the rows of `data` one after the other and stops, with
    /// `InvalidRecord` and an empty reason, at the first row that is not as
    /// wide as the table. The rows before that one stay appended.
    fn bulk_load_data(&mut self, data: &Vec<Vec<Value>>) -> (outcome: Result<(), LoadingError>)
        ensures
            final(self)@.wf(),
            final(self)@ == old(self)@.with_rows(
                old(self)@.rows + data.deep_view().take(
                    fitting_rows(old(self)@.columns.len(), data.deep_view()) as int,
                ),
            ),
            match outcome {
                Ok(_) => fitting_rows(old(self)@.columns.len(), data.deep_view()) == data.len(),
                Err(LoadingError::InvalidRecord(reason)) => {
                    &&& fitting_rows(old(self)@.columns.len(), data.deep_view()) < data.len()
                    &&& reason@.len() == 0
                },
                Err(_) => false,
            },
    ;

    fn get_records_as_collection(&self) -> (rows: Vec<Vec<Value>>)
        ensures
            rows.deep_view() == self@.rows,
    ;
}

/// The reason given for a line that has too few or too many fields.
pub open spec fn field_count_reason() -> Text {
    "Number of fields does not match the number of columns."@
}

/// Something that stands for a backing source of rows and knows how rows
/// are written down in it.
pub trait Loadable<T: Recordable>: Sized {
    /// The source that this stands for.
    spec fn backing(&self) -> SourceView;

    /// The values of one line, which has to hold `columns_amount` of them.
    /// The line loses the delimiter at its end, if it has one there.
    fn line_to_vec(line_string: &mut String, columns_amount: usize) -> (outcome: Result<
        Vec<Value>,
        LoadingError,
    >)
        ensures
            final(line_string)@ == without_trailing(old(line_string)@, FIELD_DELIMITER),
            match outcome {
                Ok(values) => {
                    &&& values.deep_view() == line_cells(old(line_string)@)
                    &&& values.len() == columns_amount
                },
                Err(LoadingError::InvalidRecord(reason)) => {
                    &&& line_cells(old(line_string)@).len() != columns_amount
                    &&& reason@ == field_count_reason()
                },
                Err(_) => false,
            },
    ;

    /// The text that holds `collection`, a line for each row.
    fn collection_to_string(collection: Vec<Vec<Value>>) -> (text: String)
        ensures
            text@ == rows_text(collection.deep_view()),
    ;

    /// What stands for the source at `source_path`: only a local file can
    /// be stood for yet.
    fn load_from_source(source_path: &str, source_type: SourceType) -> (outcome: Result<
        Self,
        LoadingError,
    >)
        ensures
            match outcome {
                Ok(loaded) => source_type is LocalFile && loaded.backing() == SourceView::FilePath(
                    source_path@,
                ),
                Err(LoadingError::SourceNotImplemented) => source_type is Http,
                Err(_) => false,
            },
    ;
}

} // verus!
