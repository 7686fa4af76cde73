//! The mathematical values that the contracts of this library speak of:
//! text and its order, conditions and what they evaluate to, and a table with
//! the four operations on it.

use vstd::prelude::*;
use crate::utils::{Cell, Row, Text};

verus! {

/// Text order: character by character, a proper prefix first.
pub open spec fn text_lt(a: Text, b: Text) -> bool
    decreases a.len(),
{
    if b.len() == 0 {
        false
    } else if a.len() == 0 {
        true
    } else if a[0] == b[0] {
        text_lt(a.drop_first(), b.drop_first())
    } else {
        a[0] < b[0]
    }
}

/// The character that stands for the digit `d`.
pub open spec fn digit(d: nat) -> char {
    if d == 0 {
        '0'
    } else if d == 1 {
        '1'
    } else if d == 2 {
        '2'
    } else if d == 3 {
        '3'
    } else if d == 4 {
        '4'
    } else if d == 5 {
        '5'
    } else if d == 6 {
        '6'
    } else if d == 7 {
        '7'
    } else if d == 8 {
        '8'
    } else {
        '9'
    }
}

/// A number in decimal digits, without leading zeros.
pub open spec fn decimal(n: nat) -> Text
    decreases n,
{
    if n < 10 {
        seq![digit(n)]
    } else {
        decimal(n / 10).push(digit(n % 10))
    }
}

/// Cell order: null is below every text, and texts are in text order.
pub open spec fn cell_lt(a: Cell, b: Cell) -> bool {
    match (a, b) {
        (None, Some(_)) => true,
        (Some(x), Some(y)) => text_lt(x, y),
        _ => false,
    }
}

/// `i` is the first place at which `name` stands in `columns`.
pub open spec fn first_at(columns: Seq<Text>, name: Text, i: int) -> bool {
    &&& 0 <= i < columns.len()
    &&& columns[i] == name
    &&& forall|j: int| 0 <= j < i ==> columns[j] != name
}

/// The position of the column called `name`: the first one, where several
/// columns share the name.
pub open spec fn column_index(columns: Seq<Text>, name: Text) -> Option<int> {
    if exists|i: int| first_at(columns, name, i) {
        Some(choose|i: int| first_at(columns, name, i))
    } else {
        None
    }
}

/// The cell that `row` holds under the column called `name`, if the column
/// exists and the row reaches that far.
pub open spec fn lookup(columns: Seq<Text>, row: Row, name: Text) -> Option<Cell> {
    match column_index(columns, name) {
        Some(i) => if i < row.len() {
            Some(row[i])
        } else {
            None
        },
        None => None,
    }
}

/// Whoever finds `name` at `i` and nowhere before has found its column.
pub proof fn lemma_column_index_found(columns: Seq<Text>, name: Text, i: int)
    requires
        first_at(columns, name, i),
    ensures
        column_index(columns, name) == Some(i),
{
    let k = choose|k: int| first_at(columns, name, k);
    assert(first_at(columns, name, k));
    if k < i {
        assert(columns[k] != name);
    } else if i < k {
        assert(columns[i] != name);
    }
}

/// A name that stands nowhere in `columns` has no column.
pub proof fn lemma_column_index_absent(columns: Seq<Text>, name: Text)
    requires
        forall|j: int| 0 <= j < columns.len() ==> columns[j] != name,
    ensures
        column_index(columns, name) is None,
{
}

/// What `column_index` returns, said without `choose`.
pub proof fn lemma_column_index(columns: Seq<Text>, name: Text)
    ensures
        match column_index(columns, name) {
            Some(i) => first_at(columns, name, i),
            None => forall|j: int| 0 <= j < columns.len() ==> columns[j] != name,
        },
{
    if column_index(columns, name) is None {
        assert forall|j: int| 0 <= j < columns.len() implies columns[j] != name by {
            if columns[j] == name {
                lemma_first_occurrence(columns, name, j);
            }
        }
    }
}

/// If `name` stands at `j`, it stands somewhere first.
proof fn lemma_first_occurrence(columns: Seq<Text>, name: Text, j: int)
    requires
        0 <= j < columns.len(),
        columns[j] == name,
    ensures
        exists|i: int| first_at(columns, name, i),
    decreases j,
{
    if exists|k: int| 0 <= k < j && columns[k] == name {
        let k = choose|k: int| 0 <= k < j && columns[k] == name;
        lemma_first_occurrence(columns, name, k);
    } else {
        assert(first_at(columns, name, j));
    }
}

/// A condition as a mathematical value: a comparison of a column with a
/// literal text, or two conditions joined by "or" or by "and".
pub enum ConditionView {
    Equal(Text, Text),
    GreaterThan(Text, Text),
    LessThan(Text, Text),
    Or(Box<ConditionView>, Box<ConditionView>),
    And(Box<ConditionView>, Box<ConditionView>),
}

impl ConditionView {
    /// Every column that the condition names is one of `columns`.
    pub open spec fn known(self, columns: Seq<Text>) -> bool
        decreases self,
    {
        match self {
            ConditionView::Equal(column, _) => column_index(columns, column) is Some,
            ConditionView::GreaterThan(column, _) => column_index(columns, column) is Some,
            ConditionView::LessThan(column, _) => column_index(columns, column) is Some,
            ConditionView::Or(left, right) => left.known(columns) && right.known(columns),
            ConditionView::And(left, right) => left.known(columns) && right.known(columns),
        }
    }

    /// What the condition says of `row`, or `None` where it names a column
    /// under which the row has no cell. Both sides of "or" and "and" are
    /// always evaluated. A comparison holds the cell against the literal as a
    /// present text, so a null cell equals no literal and is below each.
    pub open spec fn eval(self, columns: Seq<Text>, row: Row) -> Option<bool>
        decreases self,
    {
        match self {
            ConditionView::Equal(column, literal) => match lookup(columns, row, column) {
                Some(cell) => Some(cell == Some(literal)),
                None => None,
            },
            ConditionView::GreaterThan(column, literal) => match lookup(columns, row, column) {
                Some(cell) => Some(cell_lt(Some(literal), cell)),
                None => None,
            },
            ConditionView::LessThan(column, literal) => match lookup(columns, row, column) {
                Some(cell) => Some(cell_lt(cell, Some(literal))),
                None => None,
            },
            ConditionView::Or(left, right) => match (
                left.eval(columns, row),
                right.eval(columns, row),
            ) {
                (Some(l), Some(r)) => Some(l || r),
                _ => None,
            },
            ConditionView::And(left, right) => match (
                left.eval(columns, row),
                right.eval(columns, row),
            ) {
                (Some(l), Some(r)) => Some(l && r),
                _ => None,
            },
        }
    }
}

/// On a row as wide as the schema, a condition evaluates exactly when the
/// schema has every column that it names.
pub proof fn lemma_eval_defined(condition: ConditionView, columns: Seq<Text>, row: Row)
    requires
        row.len() == columns.len(),
    ensures
        condition.eval(columns, row) is Some <==> condition.known(columns),
    decreases condition,
{
    match condition {
        ConditionView::Equal(column, _) => lemma_column_index(columns, column),
        ConditionView::GreaterThan(column, _) => lemma_column_index(columns, column),
        ConditionView::LessThan(column, _) => lemma_column_index(columns, column),
        ConditionView::Or(left, right) => {
            lemma_eval_defined(*left, columns, row);
            lemma_eval_defined(*right, columns, row);
        },
        ConditionView::And(left, right) => {
            lemma_eval_defined(*left, columns, row);
            lemma_eval_defined(*right, columns, row);
        },
    }
}

/// Which columns a query hands out: all of them, or the named ones in the
/// order in which they are named.
pub enum ColumnsView {
    All,
    ColumnNames(Seq<Text>),
}

/// What an insert brings: a cell for each column in schema order, or cells
/// under column names.
pub enum InsertElementView {
    PlainValues(Row),
    MappedValues(Seq<(Text, Cell)>),
}

/// The cell that `pairs` gives to `name`: that of the last pair which names
/// it, as when the pairs are put into a map one after the other.
pub open spec fn assigned(pairs: Seq<(Text, Cell)>, name: Text) -> Option<Cell>
    decreases pairs.len(),
{
    if pairs.len() == 0 {
        None
    } else if pairs.last().0 == name {
        Some(pairs.last().1)
    } else {
        assigned(pairs.drop_last(), name)
    }
}

/// `row` after the cells of `pairs` have been written into it one after the
/// other, each at the place of the column that its pair names. A pair whose
/// name has no place in the row writes nothing.
pub open spec fn rewritten(columns: Seq<Text>, row: Row, pairs: Seq<(Text, Cell)>) -> Row
    decreases pairs.len(),
{
    if pairs.len() == 0 {
        row
    } else {
        let before = rewritten(columns, row, pairs.drop_last());
        match column_index(columns, pairs.last().0) {
            Some(i) => if i < before.len() {
                before.update(i, pairs.last().1)
            } else {
                before
            },
            None => before,
        }
    }
}

/// Every name in `names` has a cell in `row`.
pub open spec fn all_found(columns: Seq<Text>, row: Row, names: Seq<Text>) -> bool {
    forall|k: int| 0 <= k < names.len() ==> lookup(columns, row, #[trigger] names[k]) is Some
}

/// The cells that `row` holds under `names`, in the order of `names`.
pub open spec fn picked(columns: Seq<Text>, row: Row, names: Seq<Text>) -> Row {
    Seq::new(names.len(), |k: int| row[column_index(columns, names[k]).unwrap()])
}

/// The names that `pairs` assign to, in order.
pub open spec fn targets(pairs: Seq<(Text, Cell)>) -> Seq<Text> {
    Seq::new(pairs.len(), |k: int| pairs[k].0)
}

/// `row` is one that the filter lets through; without a filter, every row is.
pub open spec fn passes(columns: Seq<Text>, condition: Option<ConditionView>, row: Row) -> bool {
    match condition {
        Some(c) => c.eval(columns, row) == Some(true),
        None => true,
    }
}

/// What a projection hands out of `row`.
pub open spec fn project(columns: Seq<Text>, projection: ColumnsView, row: Row) -> Row {
    match projection {
        ColumnsView::All => row,
        ColumnsView::ColumnNames(names) => picked(columns, row, names),
    }
}

/// The rows that pass the filter, in their order, each cut down to the
/// projection.
pub open spec fn selected(
    columns: Seq<Text>,
    rows: Seq<Row>,
    projection: ColumnsView,
    condition: Option<ConditionView>,
) -> Seq<Row> {
    rows.filter(|row: Row| passes(columns, condition, row)).map_values(
        |row: Row| project(columns, projection, row),
    )
}

/// The rows in their order, each one that passes the filter with the new
/// values written into it.
pub open spec fn updated(
    columns: Seq<Text>,
    rows: Seq<Row>,
    new_values: Seq<(Text, Cell)>,
    condition: Option<ConditionView>,
) -> Seq<Row> {
    rows.map_values(
        |row: Row|
            if passes(columns, condition, row) {
                rewritten(columns, row, new_values)
            } else {
                row
            },
    )
}

/// The rows that do not pass the filter, in their order.
pub open spec fn kept(columns: Seq<Text>, rows: Seq<Row>, condition: Option<ConditionView>) -> Seq<
    Row,
> {
    rows.filter(|row: Row| !passes(columns, condition, row))
}

/// The row that cells under column names make: for each column the cell
/// assigned to its name, null where none is.
pub open spec fn spread(columns: Seq<Text>, pairs: Seq<(Text, Cell)>) -> Row {
    Seq::new(
        columns.len(),
        |i: int|
            match assigned(pairs, columns[i]) {
                Some(cell) => cell,
                None => None,
            },
    )
}

/// A table as a mathematical value: its name, the names of its columns in
/// order, and its rows in order.
pub struct TableModel {
    pub name: Text,
    pub columns: Seq<Text>,
    pub rows: Seq<Row>,
}

impl TableModel {
    /// There is a column, no column has the empty name, and every row has a
    /// cell for each column.
    pub open spec fn wf(self) -> bool {
        &&& self.columns.len() > 0
        &&& forall|i: int| 0 <= i < self.columns.len() ==> (#[trigger] self.columns[i]).len() > 0
        &&& forall|i: int|
            0 <= i < self.rows.len() ==> (#[trigger] self.rows[i]).len() == self.columns.len()
    }

    /// The same table with other rows.
    pub open spec fn with_rows(self, rows: Seq<Row>) -> TableModel {
        TableModel { name: self.name, columns: self.columns, rows }
    }

    /// The filter names no column that the table lacks.
    pub open spec fn admits(self, condition: Option<ConditionView>) -> bool {
        match condition {
            Some(c) => c.known(self.columns),
            None => true,
        }
    }

    /// The projection names no column that the table lacks.
    pub open spec fn offers(self, projection: ColumnsView) -> bool {
        match projection {
            ColumnsView::All => true,
            ColumnsView::ColumnNames(names) => forall|k: int|
                0 <= k < names.len() ==> column_index(self.columns, #[trigger] names[k]) is Some,
        }
    }

    /// Every pair names a column of the table.
    pub open spec fn assigns(self, new_values: Seq<(Text, Cell)>) -> bool {
        forall|k: int|
            0 <= k < new_values.len() ==> column_index(
                self.columns,
                (#[trigger] new_values[k]).0,
            ) is Some
    }

    /// The rows that pass the filter, in their order, each cut down to the
    /// projection. `None` where the filter or the projection names a column
    /// that the table lacks.
    pub open spec fn select(
        self,
        projection: ColumnsView,
        condition: Option<ConditionView>,
    ) -> Option<Seq<Row>> {
        if self.admits(condition) && self.offers(projection) {
            Some(selected(self.columns, self.rows, projection, condition))
        } else {
            None
        }
    }

    /// The table with one more row at the end. `None` where cells given in
    /// schema order are not as many as the columns.
    pub open spec fn insert(self, element: InsertElementView) -> Option<TableModel> {
        match element {
            InsertElementView::PlainValues(cells) => if cells.len() == self.columns.len() {
                Some(self.with_rows(self.rows.push(cells)))
            } else {
                None
            },
            InsertElementView::MappedValues(pairs) => Some(
                self.with_rows(self.rows.push(spread(self.columns, pairs))),
            ),
        }
    }

    /// The table in which every row that passes the filter has the new
    /// values written into it. `None` where the filter or a pair names a
    /// column that the table lacks.
    pub open spec fn update(
        self,
        new_values: Seq<(Text, Cell)>,
        condition: Option<ConditionView>,
    ) -> Option<TableModel> {
        if self.admits(condition) && self.assigns(new_values) {
            Some(self.with_rows(updated(self.columns, self.rows, new_values, condition)))
        } else {
            None
        }
    }

    /// The table without the rows that pass the filter, the others in their
    /// order. `None` where the filter names a column that the table lacks.
    pub open spec fn delete(self, condition: Option<ConditionView>) -> Option<TableModel> {
        if self.admits(condition) {
            Some(self.with_rows(kept(self.columns, self.rows, condition)))
        } else {
            None
        }
    }
}

/// Selecting from one more row: the row's projection joins the result if the
/// row passes the filter.
pub proof fn lemma_selected_push(
    columns: Seq<Text>,
    rows: Seq<Row>,
    row: Row,
    projection: ColumnsView,
    condition: Option<ConditionView>,
)
    ensures
        selected(columns, rows.push(row), projection, condition) == if passes(
            columns,
            condition,
            row,
        ) {
            selected(columns, rows, projection, condition).push(project(columns, projection, row))
        } else {
            selected(columns, rows, projection, condition)
        },
{
    let pass = |row: Row| passes(columns, condition, row);
    let cut = |row: Row| project(columns, projection, row);
    rows.lemma_filter_push(row, pass);
    if pass(row) {
        assert(rows.filter(pass).push(row).map_values(cut) =~= rows.filter(pass).map_values(
            cut,
        ).push(cut(row)));
    }
}

/// Nothing is selected from no rows.
pub proof fn lemma_selected_empty(
    columns: Seq<Text>,
    projection: ColumnsView,
    condition: Option<ConditionView>,
)
    ensures
        selected(columns, Seq::empty(), projection, condition) == Seq::<Row>::empty(),
{
    reveal(Seq::filter);
    let pass = |row: Row| passes(columns, condition, row);
    let cut = |row: Row| project(columns, projection, row);
    assert(Seq::<Row>::empty().filter(pass).map_values(cut) =~= Seq::<Row>::empty());
}

/// Keeping from one more row: the row stays if it does not pass the filter.
pub proof fn lemma_kept_push(
    columns: Seq<Text>,
    rows: Seq<Row>,
    row: Row,
    condition: Option<ConditionView>,
)
    ensures
        kept(columns, rows.push(row), condition) == if passes(columns, condition, row) {
            kept(columns, rows, condition)
        } else {
            kept(columns, rows, condition).push(row)
        },
{
    rows.lemma_filter_push(row, |row: Row| !passes(columns, condition, row));
}

/// Nothing is kept of no rows.
pub proof fn lemma_kept_empty(columns: Seq<Text>, condition: Option<ConditionView>)
    ensures
        kept(columns, Seq::empty(), condition) == Seq::<Row>::empty(),
{
    reveal(Seq::filter);
}

/// Each kept row is a row that does not pass, and is as wide as the rows are.
pub proof fn lemma_kept_rows(
    columns: Seq<Text>,
    rows: Seq<Row>,
    condition: Option<ConditionView>,
    width: nat,
)
    requires
        forall|i: int| 0 <= i < rows.len() ==> (#[trigger] rows[i]).len() == width,
    ensures
        forall|i: int|
            0 <= i < kept(columns, rows, condition).len() ==> {
                &&& (#[trigger] kept(columns, rows, condition)[i]).len() == width
                &&& !passes(columns, condition, kept(columns, rows, condition)[i])
            },
    decreases rows.len(),
{
    if rows.len() > 0 {
        let before = rows.drop_last();
        assert(before.push(rows.last()) =~= rows);
        lemma_kept_rows(columns, before, condition, width);
        lemma_kept_push(columns, before, rows.last(), condition);
    } else {
        assert(rows =~= Seq::empty());
        lemma_kept_empty(columns, condition);
    }
}

/// Writing values into a row leaves it as wide as it was.
pub proof fn lemma_rewritten_len(columns: Seq<Text>, row: Row, pairs: Seq<(Text, Cell)>)
    ensures
        rewritten(columns, row, pairs).len() == row.len(),
    decreases pairs.len(),
{
    if pairs.len() > 0 {
        lemma_rewritten_len(columns, row, pairs.drop_last());
        lemma_column_index(columns, pairs.last().0);
    }
}

/// Without a filter every row passes, so none is kept.
pub proof fn lemma_kept_unfiltered(columns: Seq<Text>, rows: Seq<Row>)
    ensures
        kept(columns, rows, None) == Seq::<Row>::empty(),
    decreases rows.len(),
{
    if rows.len() > 0 {
        assert(rows.drop_last().push(rows.last()) =~= rows);
        lemma_kept_unfiltered(columns, rows.drop_last());
        lemma_kept_push(columns, rows.drop_last(), rows.last(), None);
    } else {
        assert(rows =~= Seq::empty());
        lemma_kept_empty(columns, None);
    }
}

/// Updating one more row: the row joins the result, rewritten if it passes
/// the filter.
pub proof fn lemma_updated_push(
    columns: Seq<Text>,
    rows: Seq<Row>,
    row: Row,
    new_values: Seq<(Text, Cell)>,
    condition: Option<ConditionView>,
)
    ensures
        updated(columns, rows.push(row), new_values, condition) == updated(
            columns,
            rows,
            new_values,
            condition,
        ).push(
            if passes(columns, condition, row) {
                rewritten(columns, row, new_values)
            } else {
                row
            },
        ),
{
    assert(updated(columns, rows.push(row), new_values, condition) =~= updated(
        columns,
        rows,
        new_values,
        condition,
    ).push(
        if passes(columns, condition, row) {
            rewritten(columns, row, new_values)
        } else {
            row
        },
    ));
}

/// How many rows at the start of `data` are `width` cells wide.
pub open spec fn fitting_rows(width: nat, data: Seq<Row>) -> nat
    decreases data.len(),
{
    if data.len() == 0 {
        0
    } else {
        let before = fitting_rows(width, data.drop_last());
        if before == data.len() - 1 && data.last().len() == width {
            before + 1
        } else {
            before
        }
    }
}

/// `n` rows at the start of `data` are `width` cells wide and the next one,
/// if there is one, is not: then `n` is how many fit.
pub proof fn lemma_fitting_rows(width: nat, data: Seq<Row>, n: int)
    requires
        0 <= n <= data.len(),
        forall|j: int| 0 <= j < n ==> (#[trigger] data[j]).len() == width,
        n < data.len() ==> data[n].len() != width,
    ensures
        fitting_rows(width, data) == n,
    decreases data.len(),
{
    if data.len() > 0 {
        if n == data.len() {
            lemma_fitting_rows(width, data.drop_last(), n - 1);
        } else {
            lemma_fitting_rows(width, data.drop_last(), n);
        }
    }
}

/// The pieces of `text` between the occurrences of `delimiter`: one more
/// piece than there are delimiters, so the empty text has one empty piece.
pub open spec fn split_on(text: Text, delimiter: char) -> Seq<Text>
    decreases text.len(),
{
    if text.len() == 0 {
        seq![Seq::empty()]
    } else {
        let before = split_on(text.drop_last(), delimiter);
        if text.last() == delimiter {
            before.push(Seq::empty())
        } else {
            before.update(before.len() - 1, before.last().push(text.last()))
        }
    }
}

/// The parts one after the other with `delimiter` between each two.
pub open spec fn join_with(parts: Seq<Text>, delimiter: char) -> Text
    decreases parts.len(),
{
    if parts.len() == 0 {
        Seq::empty()
    } else if parts.len() == 1 {
        parts[0]
    } else {
        join_with(parts.drop_last(), delimiter).push(delimiter) + parts.last()
    }
}

/// `text` without its last character, if that is `c`.
pub open spec fn without_trailing(text: Text, c: char) -> Text {
    if text.len() > 0 && text.last() == c {
        text.drop_last()
    } else {
        text
    }
}

/// What separates the fields of a line.
pub const FIELD_DELIMITER: char = ';';

/// What ends a line.
pub const LINE_END: char = '\n';

/// What may stand before the end of a line without belonging to the line.
pub const CARRIAGE_RETURN: char = '\r';

/// The cell that a field stands for: the empty field is null.
pub open spec fn field_cell(field: Text) -> Cell {
    if field.len() == 0 {
        None
    } else {
        Some(field)
    }
}

/// The field that stands for a cell: the empty field for null.
pub open spec fn cell_field(cell: Cell) -> Text {
    match cell {
        Some(text) => text,
        None => Seq::empty(),
    }
}

/// The cells of a line: one delimiter at its end does not count, and the
/// fields are what the other delimiters separate.
pub open spec fn line_cells(line: Text) -> Row {
    split_on(without_trailing(line, FIELD_DELIMITER), FIELD_DELIMITER).map_values(
        |field: Text| field_cell(field),
    )
}

/// The line of a row: its fields with a delimiter between each two.
pub open spec fn row_line(row: Row) -> Text {
    join_with(row.map_values(|cell: Cell| cell_field(cell)), FIELD_DELIMITER)
}

/// The text of rows: their lines with a line end between each two.
pub open spec fn rows_text(rows: Seq<Row>) -> Text {
    join_with(rows.map_values(|row: Row| row_line(row)), LINE_END)
}

/// The lines of a text. A line reaches up to a line end or, the last one,
/// to the end of the text; a carriage return just before a line end does
/// not belong to the line; after the last line end, an empty rest is no line.
pub open spec fn text_lines(text: Text) -> Seq<Text> {
    let pieces = split_on(text, LINE_END);
    let ended = Seq::new(
        (pieces.len() - 1) as nat,
        |i: int| without_trailing(pieces[i], CARRIAGE_RETURN),
    );
    if pieces.last().len() == 0 {
        ended
    } else {
        ended.push(pieces.last())
    }
}

/// The rows of a text whose every line has `width` cells, `None` for any
/// other text.
pub open spec fn text_rows(text: Text, width: nat) -> Option<Seq<Row>> {
    let lines = text_lines(text);
    if forall|i: int| 0 <= i < lines.len() ==> line_cells(#[trigger] lines[i]).len() == width {
        Some(lines.map_values(|line: Text| line_cells(line)))
    } else {
        None
    }
}

/// A text always has a piece.
pub proof fn lemma_split_on_len(text: Text, delimiter: char)
    ensures
        split_on(text, delimiter).len() >= 1,
    decreases text.len(),
{
    if text.len() > 0 {
        lemma_split_on_len(text.drop_last(), delimiter);
    }
}

} // verus!
