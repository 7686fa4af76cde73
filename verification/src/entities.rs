//! Records, the table that owns them, and the store that holds tables by name.

use vstd::prelude::*;
use std::rc::Rc;
use crate::errors::{LoadingError, QueryError, TableInitError};
use crate::model::{
    all_found, assigned, column_index, decimal, kept, lemma_column_index, lemma_column_index_absent,
    lemma_column_index_found, lemma_eval_defined, lemma_fitting_rows, lemma_kept_empty,
    lemma_kept_push, lemma_kept_unfiltered, lemma_rewritten_len, lemma_selected_empty,
    lemma_selected_push, lemma_updated_push, lookup, passes, picked, project, rewritten, selected,
    spread, targets, updated, TableModel,
};
use crate::traits::{filter_view, Columns, Condition, Data, InsertElement, Queryable, Recordable};
use crate::utils::{clone_value, clone_values, decimal_text, text_less, Row, Text, Value};

verus! {

/// The place of the column called `name` among `columns`.
pub fn find_column(columns: &Vec<String>, name: &String) -> (found: Option<usize>)
    ensures
        match found {
            Some(i) => column_index(columns.deep_view(), name@) == Some(i as int),
            None => column_index(columns.deep_view(), name@) is None,
        },
{
    let mut i: usize = 0;
    while i < columns.len()
        invariant
            i <= columns.len(),
            forall|j: int| 0 <= j < i ==> columns.deep_view()[j] != name@,
        decreases columns.len() - i,
    {
        if columns[i] == *name {
            proof {
                lemma_column_index_found(columns.deep_view(), name@, i as int);
            }
            return Some(i);
        }
        i = i + 1;
    }
    proof {
        lemma_column_index_absent(columns.deep_view(), name@);
    }
    None
}

/// One row of a table. The names of the columns are those of the table that
/// the record belongs to, shared with it and with its other records.
#[derive(Debug, Clone, PartialEq, Eq)]
pub struct Record {
    values: Vec<Option<String>>,
    headers: Rc<Vec<String>>,
}

impl Record {
    pub fn new(values: Vec<Option<String>>, headers: Rc<Vec<String>>) -> (record: Record)
        ensures
            record.cells() == values.deep_view(),
            record.columns() == headers.deep_view(),
    {
        Record { values, headers }
    }

    /// The cell under the column called `name`.
    fn cell(&self, name: &String) -> (outcome: Result<&Value, QueryError>)
        ensures
            match outcome {
                Ok(value) => lookup(self.columns(), self.cells(), name@) == Some(
                    value.deep_view(),
                ),
                Err(_) => lookup(self.columns(), self.cells(), name@) is None,
            },
    {
        match find_column(&self.headers, name) {
            Some(i) => if i < self.values.len() {
                Ok(&self.values[i])
            } else {
                Err(QueryError)
            },
            None => Err(QueryError),
        }
    }

    /// Writes each value of `new_values` at the place of the column that its
    /// pair names, one pair after the other.
    fn overwrite(&mut self, new_values: &Vec<(String, Value)>)
        requires
            all_found(old(self).columns(), old(self).cells(), targets(new_values.deep_view())),
        ensures
            final(self).columns() == old(self).columns(),
            final(self).cells() == rewritten(
                old(self).columns(),
                old(self).cells(),
                new_values.deep_view(),
            ),
    {
        let ghost names = targets(new_values.deep_view());
        let ghost before = self.cells();
        let mut k: usize = 0;
        while k < new_values.len()
            invariant
                k <= new_values.len(),
                names == targets(new_values.deep_view()),
                self.columns() == old(self).columns(),
                before == old(self).cells(),
                all_found(self.columns(), before, names),
                self.cells().len() == before.len(),
                self.cells() == rewritten(
                    self.columns(),
                    before,
                    new_values.deep_view().take(k as int),
                ),
            decreases new_values.len() - k,
        {
            assert(new_values.deep_view().take(k + 1).drop_last() =~= new_values.deep_view().take(
                k as int,
            ));
            assert(lookup(self.columns(), before, names[k as int]) is Some);
            if let Some(i) = find_column(&self.headers, &new_values[k].0) {
                let ghost so_far = self.cells();
                let value = clone_value(&new_values[k].1);
                self.values.set(i, value);
                assert(self.cells() =~= so_far.update(i as int, value.deep_view()));
            }
            k = k + 1;
        }
        assert(new_values.deep_view().take(k as int) =~= new_values.deep_view());
    }

    /// What `cond` says of this record. Both sides of "or" and of "and" are
    /// evaluated, so a side that cannot be evaluated fails the whole.
    fn evaluate(&self, cond: &Condition) -> (outcome: Result<bool, QueryError>)
        ensures
            match outcome {
                Ok(holds) => cond@.eval(self.columns(), self.cells()) == Some(holds),
                Err(_) => cond@.eval(self.columns(), self.cells()) is None,
            },
        decreases cond,
    {
        match cond {
            Condition::Equal(column, literal) => match self.cell(column) {
                Ok(Some(text)) => Ok(*text == *literal),
                Ok(None) => Ok(false),
                Err(e) => Err(e),
            },
            Condition::GreaterThan(column, literal) => match self.cell(column) {
                Ok(Some(text)) => Ok(text_less(literal.as_str(), text.as_str())),
                Ok(None) => Ok(false),
                Err(e) => Err(e),
            },
            Condition::LessThan(column, literal) => match self.cell(column) {
                Ok(Some(text)) => Ok(text_less(text.as_str(), literal.as_str())),
                Ok(None) => Ok(true),
                Err(e) => Err(e),
            },
            Condition::Or(left, right) => {
                let l = self.evaluate(left);
                let r = self.evaluate(right);
                match (l, r) {
                    (Ok(l), Ok(r)) => Ok(l || r),
                    _ => Err(QueryError),
                }
            },
            Condition::And(left, right) => {
                let l = self.evaluate(left);
                let r = self.evaluate(right);
                match (l, r) {
                    (Ok(l), Ok(r)) => Ok(l && r),
                    _ => Err(QueryError),
                }
            },
        }
    }
}

impl Recordable for Record {
    closed spec fn columns(&self) -> Seq<Text> {
        self.headers.deep_view()
    }

    closed spec fn cells(&self) -> Row {
        self.values.deep_view()
    }

    fn get_record_as_collection(&self) -> (values: Vec<Value>) {
        clone_values(&self.values)
    }

    fn get_attr_index_from_name(&self, attr_name: &String) -> (outcome: Result<usize, QueryError>) {
        match find_column(&self.headers, attr_name) {
            Some(i) => Ok(i),
            None => Err(QueryError),
        }
    }

    fn get_attr_value(&self, attr_name: &String) -> (outcome: Result<Value, QueryError>) {
        match self.cell(attr_name) {
            Ok(value) => Ok(clone_value(value)),
            Err(e) => Err(e),
        }
    }

    fn get_attr_values(&self, attr_names: &Vec<String>) -> (outcome: Result<
        Vec<Value>,
        QueryError,
    >) {
        let mut values: Vec<Value> = Vec::new();
        let mut k: usize = 0;
        while k < attr_names.len()
            invariant
                k <= attr_names.len(),
                values.len() == k,
                forall|j: int|
                    0 <= j < k ==> lookup(
                        self.columns(),
                        self.cells(),
                        #[trigger] attr_names.deep_view()[j],
                    ) == Some(values[j].deep_view()),
            decreases attr_names.len() - k,
        {
            match self.cell(&attr_names[k]) {
                Ok(value) => {
                    values.push(clone_value(value));
                },
                Err(e) => {
                    assert(lookup(self.columns(), self.cells(), attr_names.deep_view()[k as int])
                        is None);
                    return Err(e);
                },
            }
            k = k + 1;
        }
        assert(values.deep_view() =~= picked(
            self.columns(),
            self.cells(),
            attr_names.deep_view(),
        ));
        Ok(values)
    }

    fn update_values(&mut self, new_values: &Vec<(String, Value)>) -> (outcome: Result<
        (),
        QueryError,
    >) {
        let ghost names = targets(new_values.deep_view());
        let mut k: usize = 0;
        while k < new_values.len()
            invariant
                k <= new_values.len(),
                names == targets(new_values.deep_view()),
                forall|j: int|
                    0 <= j < k ==> lookup(self.columns(), self.cells(), #[trigger] names[j])
                        is Some,
            decreases new_values.len() - k,
        {
            if self.cell(&new_values[k].0).is_err() {
                assert(lookup(self.columns(), self.cells(), names[k as int]) is None);
                return Err(QueryError);
            }
            k = k + 1;
        }
        self.overwrite(new_values);
        Ok(())
    }

    fn satisfy_conditions(&self, cond: &Condition) -> (outcome: Result<bool, QueryError>) {
        self.evaluate(cond)
    }
}

/// Whether `columns` has every column that `cond` names.
pub fn names_known(cond: &Condition, columns: &Vec<String>) -> (known: bool)
    ensures
        known == cond@.known(columns.deep_view()),
    decreases cond,
{
    match cond {
        Condition::Equal(column, _) => find_column(columns, column).is_some(),
        Condition::GreaterThan(column, _) => find_column(columns, column).is_some(),
        Condition::LessThan(column, _) => find_column(columns, column).is_some(),
        Condition::Or(left, right) => {
            let l = names_known(left, columns);
            let r = names_known(right, columns);
            l && r
        },
        Condition::And(left, right) => {
            let l = names_known(left, columns);
            let r = names_known(right, columns);
            l && r
        },
    }
}

/// Whether `columns` has every column in `names`.
fn all_known(names: &Vec<String>, columns: &Vec<String>) -> (known: bool)
    ensures
        known == (forall|k: int|
            0 <= k < names.len() ==> column_index(
                columns.deep_view(),
                #[trigger] names.deep_view()[k],
            ) is Some),
{
    let mut k: usize = 0;
    while k < names.len()
        invariant
            k <= names.len(),
            forall|j: int|
                0 <= j < k ==> column_index(columns.deep_view(), #[trigger] names.deep_view()[j])
                    is Some,
        decreases names.len() - k,
    {
        if find_column(columns, &names[k]).is_none() {
            assert(column_index(columns.deep_view(), names.deep_view()[k as int]) is None);
            return false;
        }
        k = k + 1;
    }
    true
}

/// The reason given for a table without columns.
pub open spec fn no_column_reason() -> Text {
    "There should be at least one column name"@
}

/// The reason given for a table whose column at place `i` has the empty name.
pub open spec fn empty_column_reason(i: nat) -> Text {
    "The column n°"@ + decimal(i) + " is an empty string, which is illegal. "@
}

/// The first column with the empty name is the one at place `i`.
pub open spec fn first_empty_at(names: Seq<Text>, i: int) -> bool {
    &&& 0 <= i < names.len()
    &&& names[i].len() == 0
    &&& forall|j: int| 0 <= j < i ==> (#[trigger] names[j]).len() > 0
}

/// The cells of each record, in the order of the records.
pub open spec fn rows_of<T: Recordable>(records: Seq<T>) -> Seq<Row> {
    Seq::new(records.len(), |i: int| records[i].cells())
}

/// A named table: the names of its columns, fixed when it is made, and its
/// records in the order in which they came.
#[derive(Debug, PartialEq, Eq)]
pub struct Table<T> where T: Recordable {
    name: String,
    columns_names: Rc<Vec<String>>,
    records: Vec<T>,
}

impl<T: Recordable> Table<T> {
    /// There is a column, no column has the empty name, and every record has
    /// the table's columns and a cell for each.
    #[verifier::type_invariant]
    pub closed spec fn inv(&self) -> bool {
        &&& self.columns_names.len() > 0
        &&& forall|i: int|
            0 <= i < self.columns_names.len() ==> (#[trigger] self.columns_names[i])@.len() > 0
        &&& forall|i: int|
            0 <= i < self.records.len() ==> {
                &&& (#[trigger] self.records[i]).columns() == self.columns_names.deep_view()
                &&& self.records[i].cells().len() == self.columns_names.len()
            }
    }
}

impl<T: Recordable> View for Table<T> {
    type V = TableModel;

    closed spec fn view(&self) -> TableModel {
        TableModel {
            name: self.name@,
            columns: self.columns_names.deep_view(),
            rows: rows_of(self.records@),
        }
    }
}

impl Table<Record> {
    /// A table without rows. There has to be a column, and no column may
    /// have the empty name: the reason of the error names the first that has.
    pub fn new(name: &str, columns_names: &Vec<&str>) -> (outcome: Result<Self, TableInitError>)
        ensures
            match outcome {
                Ok(table) => {
                    &&& table@ == TableModel {
                        name: name@,
                        columns: columns_names.deep_view(),
                        rows: Seq::<Row>::empty(),
                    }
                    &&& table@.wf()
                },
                Err(e) => if columns_names.len() == 0 {
                    e@ == no_column_reason()
                } else {
                    exists|i: int|
                        first_empty_at(columns_names.deep_view(), i) && e@ == empty_column_reason(
                            i as nat,
                        )
                },
            },
    {
        if columns_names.len() == 0 {
            return Err(TableInitError::new("There should be at least one column name"));
        }
        let mut columns: Vec<String> = Vec::new();
        let mut i: usize = 0;
        while i < columns_names.len()
            invariant
                i <= columns_names.len(),
                columns.len() == i,
                forall|j: int|
                    0 <= j < i ==> (#[trigger] columns[j])@ == columns_names.deep_view()[j],
                forall|j: int| 0 <= j < i ==> (#[trigger] columns[j])@.len() > 0,
                forall|j: int| 0 <= j < i ==> (#[trigger] columns_names.deep_view()[j]).len() > 0,
            decreases columns_names.len() - i,
        {
            if columns_names[i].is_empty() {
                let mut reason = "The column n°".to_string();
                reason.append(decimal_text(i).as_str());
                reason.append(" is an empty string, which is illegal. ");
                assert(first_empty_at(columns_names.deep_view(), i as int));
                return Err(TableInitError::new(reason.as_str()));
            }
            columns.push(columns_names[i].to_string());
            i = i + 1;
        }
        assert(columns.deep_view() =~= columns_names.deep_view());
        let table = Self {
            name: name.to_string(),
            columns_names: Rc::new(columns),
            records: Vec::new(),
        };
        assert(table@.rows =~= Seq::<Row>::empty());
        Ok(table)
    }
}

/// The value that `pairs` gives to `name`: that of the last pair which names it.
fn assigned_value(pairs: &Vec<(String, Value)>, name: &String) -> (found: Option<Value>)
    ensures
        found.deep_view() == assigned(pairs.deep_view(), name@),
{
    let mut k: usize = pairs.len();
    assert(pairs.deep_view().take(k as int) =~= pairs.deep_view());
    while k > 0
        invariant
            k <= pairs.len(),
            assigned(pairs.deep_view(), name@) == assigned(
                pairs.deep_view().take(k as int),
                name@,
            ),
        decreases k,
    {
        assert(pairs.deep_view().take(k as int).drop_last() =~= pairs.deep_view().take(k - 1));
        if pairs[k - 1].0 == *name {
            return Some(clone_value(&pairs[k - 1].1));
        }
        k = k - 1;
    }
    None
}

/// Whether `record`, which has a cell for each of its columns, passes the
/// filter, which names none but its columns.
fn record_passes(record: &Record, conditions: &Option<Condition>) -> (outcome: Result<
    bool,
    QueryError,
>)
    requires
        record.cells().len() == record.columns().len(),
        conditions matches Some(c) ==> c@.known(record.columns()),
    ensures
        outcome == Ok::<bool, QueryError>(
            passes(record.columns(), filter_view(*conditions), record.cells()),
        ),
{
    match conditions {
        Some(c) => {
            proof {
                lemma_eval_defined(c@, record.columns(), record.cells());
            }
            record.satisfy_conditions(c)
        },
        None => Ok(true),
    }
}

/// Whether `columns` has the column of every pair.
fn targets_known(pairs: &Vec<(String, Value)>, columns: &Vec<String>) -> (known: bool)
    ensures
        known == (forall|k: int|
            0 <= k < pairs.len() ==> column_index(
                columns.deep_view(),
                (#[trigger] pairs.deep_view()[k]).0,
            ) is Some),
{
    let mut k: usize = 0;
    while k < pairs.len()
        invariant
            k <= pairs.len(),
            forall|j: int|
                0 <= j < k ==> column_index(
                    columns.deep_view(),
                    (#[trigger] pairs.deep_view()[j]).0,
                ) is Some,
        decreases pairs.len() - k,
    {
        if find_column(columns, &pairs[k].0).is_none() {
            assert(column_index(columns.deep_view(), pairs.deep_view()[k as int].0) is None);
            return false;
        }
        k = k + 1;
    }
    true
}

impl Table<Record> {
    /// The row that `new_record` brings, as wide as the table, if it brings one.
    fn new_row(&self, new_record: InsertElement) -> (row: Option<Vec<Value>>)
        ensures
            match row {
                Some(values) => {
                    &&& self@.insert(new_record@) == Some(
                        self@.with_rows(self@.rows.push(values.deep_view())),
                    )
                    &&& values.len() == self@.columns.len()
                },
                None => self@.insert(new_record@) is None,
            },
    {
        match new_record {
            InsertElement::PlainValues(values) => if values.len() == self.columns_names.len() {
                Some(values)
            } else {
                None
            },
            InsertElement::MappedValues(pairs) => {
                let mut values: Vec<Value> = Vec::new();
                let mut i: usize = 0;
                while i < self.columns_names.len()
                    invariant
                        i <= self.columns_names.len(),
                        values.len() == i,
                        forall|j: int|
                            0 <= j < i ==> (#[trigger] values[j]).deep_view() == spread(
                                self@.columns,
                                pairs.deep_view(),
                            )[j],
                    decreases self.columns_names.len() - i,
                {
                    let value = match assigned_value(&pairs, &self.columns_names[i]) {
                        Some(value) => value,
                        None => None,
                    };
                    values.push(value);
                    i = i + 1;
                }
                assert(values.deep_view() =~= spread(self@.columns, pairs.deep_view()));
                Some(values)
            },
        }
    }
}

impl Queryable<Record> for Table<Record> {
    fn select(
        &self,
        _object_names: &Option<Vec<String>>,
        attributes_names: &Columns,
        conditions: &Option<Condition>,
    ) -> (outcome: Result<Vec<Vec<Value>>, QueryError>) {
        proof {
            use_type_invariant(self);
        }
        if let Some(c) = conditions {
            if !names_known(c, &self.columns_names) {
                return Err(QueryError);
            }
        }
        if let Columns::ColumnNames(names) = attributes_names {
            if !all_known(names, &self.columns_names) {
                return Err(QueryError);
            }
        }
        let ghost columns = self@.columns;
        let ghost projection = attributes_names@;
        let ghost condition = filter_view(*conditions);
        let mut rows: Vec<Vec<Value>> = Vec::new();
        let mut i: usize = 0;
        proof {
            lemma_selected_empty(columns, projection, condition);
            assert(self@.rows.take(0) =~= Seq::<Row>::empty());
        }
        while i < self.records.len()
            invariant
                i <= self.records.len(),
                self.inv(),
                columns == self@.columns,
                projection == attributes_names@,
                condition == filter_view(*conditions),
                self@.admits(condition),
                self@.offers(projection),
                rows.deep_view() == selected(
                    columns,
                    self@.rows.take(i as int),
                    projection,
                    condition,
                ),
            decreases self.records.len() - i,
        {
            let ghost row = self@.rows[i as int];
            proof {
                assert(self@.rows.take(i + 1) =~= self@.rows.take(i as int).push(row));
                lemma_selected_push(columns, self@.rows.take(i as int), row, projection, condition);
            }
            let record = &self.records[i];
            if record_passes(record, conditions)? {
                let values = match attributes_names {
                    Columns::All => record.get_record_as_collection(),
                    Columns::ColumnNames(names) => {
                        proof {
                            assert forall|k: int| 0 <= k < names.len() implies lookup(
                                columns,
                                row,
                                #[trigger] names.deep_view()[k],
                            ) is Some by {
                                lemma_column_index(columns, names.deep_view()[k]);
                            }
                            assert(all_found(columns, row, names.deep_view()));
                        }
                        record.get_attr_values(names)?
                    },
                };
                let ghost before = rows.deep_view();
                rows.push(values);
                assert(rows.deep_view() =~= before.push(project(columns, projection, row)));
            }
            i = i + 1;
        }
        assert(self@.rows.take(i as int) =~= self@.rows);
        Ok(rows)
    }

    fn delete(&mut self, _object_name: &Option<String>, conditions: &Option<Condition>) -> (outcome:
        Result<(), QueryError>) {
        proof {
            use_type_invariant(&*self);
        }
        if let Some(c) = conditions {
            if !names_known(c, &self.columns_names) {
                return Err(QueryError);
            }
        }
        let ghost columns = self@.columns;
        let ghost condition = filter_view(*conditions);
        let ghost before = self@;
        let mut left: Vec<Record> = Vec::new();
        if conditions.is_some() {
            let mut i: usize = 0;
            proof {
                lemma_kept_empty(columns, condition);
                assert(before.rows.take(0) =~= Seq::<Row>::empty());
            }
            while i < self.records.len()
                invariant
                    i <= self.records.len(),
                    self.inv(),
                    self@ == before,
                    columns == before.columns,
                    condition == filter_view(*conditions),
                    before.admits(condition),
                    rows_of(left@) == kept(columns, before.rows.take(i as int), condition),
                    forall|k: int|
                        0 <= k < left.len() ==> {
                            &&& (#[trigger] left[k]).columns() == columns
                            &&& left[k].cells().len() == columns.len()
                        },
                decreases self.records.len() - i,
            {
                let ghost row = before.rows[i as int];
                proof {
                    assert(before.rows.take(i + 1) =~= before.rows.take(i as int).push(row));
                    lemma_kept_push(columns, before.rows.take(i as int), row, condition);
                }
                let record = &self.records[i];
                if !record_passes(record, conditions)? {
                    let ghost so_far = rows_of(left@);
                    left.push(
                        Record::new(
                            record.get_record_as_collection(),
                            Rc::clone(&self.columns_names),
                        ),
                    );
                    assert(rows_of(left@) =~= so_far.push(row));
                }
                i = i + 1;
            }
            assert(before.rows.take(i as int) =~= before.rows);
        } else {
            proof {
                lemma_kept_unfiltered(columns, before.rows);
                assert(rows_of(left@) =~= Seq::<Row>::empty());
            }
        }
        self.records = left;
        Ok(())
    }

    fn update(
        &mut self,
        _object_name: &Option<String>,
        new_values: Vec<(String, Value)>,
        conditions: &Option<Condition>,
    ) -> (outcome: Result<(), QueryError>) {
        proof {
            use_type_invariant(&*self);
        }
        if let Some(c) = conditions {
            if !names_known(c, &self.columns_names) {
                return Err(QueryError);
            }
        }
        if !targets_known(&new_values, &self.columns_names) {
            return Err(QueryError);
        }
        let ghost columns = self@.columns;
        let ghost condition = filter_view(*conditions);
        let ghost pairs = new_values.deep_view();
        let ghost before = self@;
        let mut records: Vec<Record> = Vec::new();
        std::mem::swap(&mut records, &mut self.records);
        let mut i: usize = 0;
        assert(before.rows.take(0) + before.rows.skip(0) =~= before.rows);
        assert(updated(columns, before.rows.take(0), pairs, condition) =~= before.rows.take(0));
        while i < records.len()
            invariant
                i <= records.len(),
                records.len() == before.rows.len(),
                self.columns_names.deep_view() == columns,
                self.columns_names.len() > 0,
                forall|k: int|
                    0 <= k < self.columns_names.len() ==> (#[trigger] self.columns_names[k])@.len()
                        > 0,
                self.name@ == before.name,
                self.records.len() == 0,
                columns == before.columns,
                condition == filter_view(*conditions),
                pairs == new_values.deep_view(),
                before.wf(),
                before.admits(condition),
                before.assigns(pairs),
                rows_of(records@) == updated(columns, before.rows.take(i as int), pairs, condition)
                    + before.rows.skip(i as int),
                forall|k: int|
                    0 <= k < records.len() ==> {
                        &&& (#[trigger] records[k]).columns() == columns
                        &&& records[k].cells().len() == columns.len()
                    },
            decreases records.len() - i,
        {
            let ghost row = before.rows[i as int];
            let ghost so_far = rows_of(records@);
            let ghost earlier = records@;
            assert(so_far[i as int] == row);
            assert(records[i as int].cells() == row);
            let pass = match record_passes(&records[i], conditions) {
                Ok(pass) => pass,
                Err(e) => {
                    self.records = records;
                    return Err(e);
                },
            };
            if pass {
                proof {
                    assert forall|k: int| 0 <= k < targets(pairs).len() implies lookup(
                        columns,
                        row,
                        #[trigger] targets(pairs)[k],
                    ) is Some by {
                        assert(column_index(columns, pairs[k].0) is Some);
                        lemma_column_index(columns, pairs[k].0);
                    }
                    lemma_rewritten_len(columns, row, pairs);
                }
                records[i].overwrite(&new_values);
            }
            proof {
                let next = if passes(columns, condition, row) {
                    rewritten(columns, row, pairs)
                } else {
                    row
                };
                assert(before.rows.take(i + 1) =~= before.rows.take(i as int).push(row));
                lemma_updated_push(columns, before.rows.take(i as int), row, pairs, condition);
                assert(records@.len() == earlier.len());
                assert(forall|k: int|
                    0 <= k < records.len() && k != i ==> records@[k] == earlier[k]);
                assert(records[i as int].cells() == next);
                assert(updated(columns, before.rows.take(i as int), pairs, condition).len() == i);
                assert forall|k: int| 0 <= k < records.len() implies rows_of(records@)[k] == (
                updated(columns, before.rows.take(i + 1), pairs, condition) + before.rows.skip(
                    i + 1,
                ))[k] by {
                    if k < i {
                        assert(rows_of(records@)[k] == so_far[k]);
                    } else if k > i {
                        assert(rows_of(records@)[k] == so_far[k]);
                        assert(so_far[k] == before.rows.skip(i as int)[k - i]);
                    }
                }
                assert(rows_of(records@) =~= updated(
                    columns,
                    before.rows.take(i + 1),
                    pairs,
                    condition,
                ) + before.rows.skip(i + 1));
            }
            i = i + 1;
        }
        assert(before.rows.take(i as int) =~= before.rows);
        assert(rows_of(records@) =~= updated(columns, before.rows, pairs, condition));
        self.records = records;
        Ok(())
    }

    fn insert(&mut self, _object_name: &Option<String>, new_record: InsertElement) -> (outcome:
        Result<(), QueryError>) {
        proof {
            use_type_invariant(&*self);
        }
        let ghost before = self@;
        match self.new_row(new_record) {
            Some(values) => {
                let record = Record::new(values, Rc::clone(&self.columns_names));
                let mut records: Vec<Record> = Vec::new();
                std::mem::swap(&mut records, &mut self.records);
                records.push(record);
                self.records = records;
                assert(self@.rows =~= before.rows.push(values.deep_view()));
                Ok(())
            },
            None => Err(QueryError),
        }
    }
}

/// A walk over the records of a table, from the first to the last.
pub struct TableIter<'a> {
    records: &'a Vec<Record>,
    current_record_index: usize,
}

impl<'a> TableIter<'a> {
    #[verifier::type_invariant]
    closed spec fn inv(&self) -> bool {
        self.current_record_index <= self.records.len()
    }

    /// The rows that the walk has not handed out yet.
    pub closed spec fn remaining(&self) -> Seq<Row> {
        rows_of(self.records@).skip(self.current_record_index as int)
    }

    /// The next record, or `None` once every record has been handed out.
    pub fn next(&mut self) -> (next: Option<&'a Record>)
        ensures
            match next {
                Some(record) => {
                    &&& old(self).remaining().len() > 0
                    &&& record.cells() == old(self).remaining()[0]
                    &&& final(self).remaining() == old(self).remaining().drop_first()
                },
                None => {
                    &&& old(self).remaining().len() == 0
                    &&& final(self).remaining() == old(self).remaining()
                },
            },
    {
        proof {
            use_type_invariant(&*self);
        }
        if self.current_record_index < self.records.len() {
            let record = &self.records[self.current_record_index];
            self.current_record_index = self.current_record_index + 1;
            assert(self.remaining() =~= old(self).remaining().drop_first());
            Some(record)
        } else {
            None
        }
    }
}

impl Table<Record> {
    /// A walk over the records, starting at the first.
    pub fn iter(&self) -> (walk: TableIter<'_>)
        ensures
            walk.remaining() == self@.rows,
    {
        let walk = TableIter { records: &self.records, current_record_index: 0 };
        assert(walk.remaining() =~= self@.rows);
        walk
    }
}

impl Data for Table<Record> {
    fn bulk_load_data(&mut self, data: &Vec<Vec<Value>>) -> (outcome: Result<(), LoadingError>) {
        proof {
            use_type_invariant(&*self);
        }
        let ghost before = self@;
        let ghost width = before.columns.len();
        let mut records: Vec<Record> = Vec::new();
        std::mem::swap(&mut records, &mut self.records);
        let mut i: usize = 0;
        let mut fits = true;
        assert(before.rows + data.deep_view().take(0) =~= before.rows);
        while fits && i < data.len()
            invariant
                i <= data.len(),
                self.columns_names.deep_view() == before.columns,
                self.name@ == before.name,
                self.records.len() == 0,
                before.wf(),
                width == before.columns.len(),
                forall|j: int| 0 <= j < i ==> (#[trigger] data.deep_view()[j]).len() == width,
                !fits ==> i < data.len() && data.deep_view()[i as int].len() != width,
                rows_of(records@) == before.rows + data.deep_view().take(i as int),
                forall|k: int|
                    0 <= k < records.len() ==> {
                        &&& (#[trigger] records[k]).columns() == before.columns
                        &&& records[k].cells().len() == width
                    },
            decreases data.len() - i + if fits { 1nat } else { 0nat },
        {
            if data[i].len() == self.columns_names.len() {
                let ghost so_far = rows_of(records@);
                records.push(Record::new(clone_values(&data[i]), Rc::clone(&self.columns_names)));
                assert(rows_of(records@) =~= so_far.push(data.deep_view()[i as int]));
                assert(data.deep_view().take(i + 1) =~= data.deep_view().take(i as int).push(
                    data.deep_view()[i as int],
                ));
                assert(before.rows + data.deep_view().take(i + 1) =~= (before.rows
                    + data.deep_view().take(i as int)).push(data.deep_view()[i as int]));
                i = i + 1;
            } else {
                fits = false;
            }
        }
        proof {
            lemma_fitting_rows(width, data.deep_view(), i as int);
        }
        self.records = records;
        if fits {
            Ok(())
        } else {
            Err(LoadingError::InvalidRecord(String::new()))
        }
    }

    fn get_records_as_collection(&self) -> (rows: Vec<Vec<Value>>) {
        let mut rows: Vec<Vec<Value>> = Vec::new();
        let mut i: usize = 0;
        while i < self.records.len()
            invariant
                i <= self.records.len(),
                rows.len() == i,
                forall|k: int| 0 <= k < i ==> (#[trigger] rows[k]).deep_view() == self@.rows[k],
            decreases self.records.len() - i,
        {
            rows.push(self.records[i].get_record_as_collection());
            i = i + 1;
        }
        assert(rows.deep_view() =~= self@.rows);
        rows
    }
}

/// The tables of `tables` by their names: of two tables with one name the
/// later one.
pub open spec fn by_name(tables: Seq<TableModel>) -> Map<Text, TableModel>
    decreases tables.len(),
{
    if tables.len() == 0 {
        Map::empty()
    } else {
        by_name(tables.drop_last()).insert(tables.last().name, tables.last())
    }
}

/// The tables of `tables` as mathematical values, in order.
pub open spec fn models_of(tables: Seq<Table<Record>>) -> Seq<TableModel> {
    Seq::new(tables.len(), |i: int| tables[i]@)
}

/// Tables by name. No two tables of a store have the same name.
pub struct DataStore {
    tables: Vec<Table<Record>>,
}

impl DataStore {
    #[verifier::type_invariant]
    closed spec fn inv(&self) -> bool {
        forall|i: int, j: int|
            0 <= i < j < self.tables.len() ==> (#[trigger] self.tables[i])@.name != (
            #[trigger] self.tables[j])@.name
    }

    /// The place of the table called `name`.
    fn place(tables: &Vec<Table<Record>>, name: &String) -> (found: Option<usize>)
        ensures
            match found {
                Some(i) => i < tables.len() && tables[i as int]@.name == name@,
                None => forall|k: int| 0 <= k < tables.len() ==> (#[trigger] tables[k])@.name
                    != name@,
            },
    {
        let mut i: usize = 0;
        while i < tables.len()
            invariant
                i <= tables.len(),
                forall|k: int| 0 <= k < i ==> (#[trigger] tables[k])@.name != name@,
            decreases tables.len() - i,
        {
            if tables[i].name == *name {
                return Some(i);
            }
            i = i + 1;
        }
        None
    }

    /// A store of `tables`. Where several of them have one name, the store
    /// holds the last of these.
    pub fn new(tables: Vec<Table<Record>>) -> (store: Self)
        ensures
            store@ == by_name(models_of(tables@)),
    {
        let mut held: Vec<Table<Record>> = Vec::new();
        let ghost all = tables@;
        proof {
            assert(models_of(all.take(0)) =~= models_of(held@));
        }
        for table in walk: tables
            invariant
                walk.seq() == all,
                by_name(models_of(held@)) == by_name(models_of(all.take(walk.index()))),
                forall|i: int, j: int|
                    0 <= i < j < held.len() ==> (#[trigger] held[i])@.name != (
                    #[trigger] held[j])@.name,
        {
            let ghost earlier = models_of(held@);
            proof {
                assert(all.take(walk.index() + 1) =~= all.take(walk.index()).push(table));
                assert(models_of(all.take(walk.index() + 1)) =~= models_of(
                    all.take(walk.index()),
                ).push(table@));
                assert(models_of(all.take(walk.index() + 1)).drop_last() =~= models_of(
                    all.take(walk.index()),
                ));
            }
            match Self::place(&held, &table.name) {
                Some(i) => {
                    proof {
                        lemma_by_name_replace(earlier, i as int, table@);
                    }
                    held.set(i, table);
                    assert(models_of(held@) =~= earlier.update(i as int, table@));
                },
                None => {
                    held.push(table);
                    assert(models_of(held@) =~= earlier.push(table@));
                    assert(models_of(held@).drop_last() =~= earlier);
                },
            }
        }
        proof {
            assert(all.take(all.len() as int) =~= all);
        }
        Self { tables: held }
    }

    /// The table called `name`, if the store holds one.
    pub fn get(&self, name: &String) -> (found: Option<&Table<Record>>)
        ensures
            match found {
                Some(table) => self@.contains_key(name@) && self@[name@] == table@,
                None => !self@.contains_key(name@),
            },
    {
        proof {
            use_type_invariant(self);
        }
        match Self::place(&self.tables, name) {
            Some(i) => {
                proof {
                    lemma_by_name(models_of(self.tables@), i as int);
                }
                Some(&self.tables[i])
            },
            None => {
                proof {
                    lemma_by_name_absent(models_of(self.tables@), name@);
                }
                None
            },
        }
    }
}

impl View for DataStore {
    type V = Map<Text, TableModel>;

    closed spec fn view(&self) -> Map<Text, TableModel> {
        by_name(models_of(self.tables@))
    }
}

/// A table that no later table shares its name with is the one held under
/// that name.
proof fn lemma_by_name(tables: Seq<TableModel>, i: int)
    requires
        0 <= i < tables.len(),
        forall|j: int| i < j < tables.len() ==> (#[trigger] tables[j]).name != tables[i].name,
    ensures
        by_name(tables).contains_key(tables[i].name),
        by_name(tables)[tables[i].name] == tables[i],
    decreases tables.len(),
{
    if i < tables.len() - 1 {
        lemma_by_name(tables.drop_last(), i);
    }
}

/// A name that no table has is not held.
proof fn lemma_by_name_absent(tables: Seq<TableModel>, name: Text)
    requires
        forall|j: int| 0 <= j < tables.len() ==> (#[trigger] tables[j]).name != name,
    ensures
        !by_name(tables).contains_key(name),
    decreases tables.len(),
{
    if tables.len() > 0 {
        lemma_by_name_absent(tables.drop_last(), name);
    }
}

/// Among tables with different names, to put a table in the place of the
/// one with its name is to hold it under that name.
proof fn lemma_by_name_replace(tables: Seq<TableModel>, i: int, table: TableModel)
    requires
        0 <= i < tables.len(),
        tables[i].name == table.name,
        forall|a: int, b: int|
            0 <= a < b < tables.len() ==> (#[trigger] tables[a]).name != (
            #[trigger] tables[b]).name,
    ensures
        by_name(tables.update(i, table)) == by_name(tables).insert(table.name, table),
    decreases tables.len(),
{
    let before = tables.drop_last();
    if i == tables.len() - 1 {
        assert(tables.update(i, table).drop_last() =~= before);
        assert(by_name(tables.update(i, table)) =~= by_name(tables).insert(table.name, table));
    } else {
        assert(tables.update(i, table).drop_last() =~= before.update(i, table));
        lemma_by_name_replace(before, i, table);
        assert(tables.last().name != table.name);
        assert(by_name(tables.update(i, table)) =~= by_name(tables).insert(table.name, table));
    }
}

} // verus!
