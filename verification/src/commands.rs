//! From a parsed statement to the command that the engine runs.

use vstd::prelude::*;
use crate::errors::{SerializeError, SerializeErrorView};
use crate::model::{ColumnsView, ConditionView, InsertElementView};
use crate::statement::{
    Assignment, BinaryOperator, Expr, Literal, Select, SelectItem, SetExpr, Statement, TableFactor,
};
use crate::traits::{lowering_view, Columns, Condition, Executable, Filtering, InsertElement};
use crate::utils::{Cell, Row, Text, Value};

verus! {

/// One statement, resolved into what the engine needs to run it.
///
/// A filter that could not be lowered does not stop the command from being
/// built: `conditions` then holds the failure, for whoever runs the command.
#[derive(Debug, PartialEq, Eq)]
pub enum Command {
    Select {
        tables: Vec<String>,
        columns: Columns,
        conditions: Result<Option<Condition>, SerializeError>,
    },
    Update {
        table: String,
        updates: Vec<(String, Value)>,
        conditions: Result<Option<Condition>, SerializeError>,
    },
    Insert { table: String, elements: InsertElement },
    Delete { table: String, conditions: Result<Option<Condition>, SerializeError> },
}

/// A [`Command`] as a mathematical value.
pub enum CommandView {
    Select {
        tables: Seq<Text>,
        columns: ColumnsView,
        conditions: Result<Option<ConditionView>, SerializeErrorView>,
    },
    Update {
        table: Text,
        updates: Seq<(Text, Cell)>,
        conditions: Result<Option<ConditionView>, SerializeErrorView>,
    },
    Insert { table: Text, elements: InsertElementView },
    Delete { table: Text, conditions: Result<Option<ConditionView>, SerializeErrorView> },
}

impl View for Command {
    type V = CommandView;

    open spec fn view(&self) -> CommandView {
        match self {
            Command::Select { tables, columns, conditions } => CommandView::Select {
                tables: tables.deep_view(),
                columns: columns@,
                conditions: lowering_view(*conditions),
            },
            Command::Update { table, updates, conditions } => CommandView::Update {
                table: table@,
                updates: updates.deep_view(),
                conditions: lowering_view(*conditions),
            },
            Command::Insert { table, elements } => CommandView::Insert {
                table: table@,
                elements: elements@,
            },
            Command::Delete { table, conditions } => CommandView::Delete {
                table: table@,
                conditions: lowering_view(*conditions),
            },
        }
    }
}

/// The reason given for a literal of an unsupported kind, before its rendering.
pub open spec fn unsupported_literal_reason() -> Text {
    "Type not implemented for the value : "@
}

/// The reason given where the two sides of a comparison are not a column and
/// a literal text.
pub open spec fn comparison_reason(op: BinaryOperator) -> Text {
    match op {
        BinaryOperator::Eq => "Types not compatible for comparison with operator '='"@,
        BinaryOperator::Gt => "Types not compatible for comparison with operator '>'"@,
        _ => "Types not compatible for comparison with operator '<'"@,
    }
}

/// The reason given for an operator that is neither a comparison nor a connective.
pub open spec fn operator_reason() -> Text {
    "Operator not compatible with a combination of comparisons"@
}

/// The reason given for a filter that is not a binary expression.
pub open spec fn shape_reason() -> Text {
    "Types not compatible for comparison"@
}

/// The cell that a literal stands for: booleans as `true` and `false`,
/// numbers as their text in the statement, strings as their content, `NULL`
/// as null. `None` for a literal of an unsupported kind.
pub open spec fn literal_cell(literal: Literal) -> Option<Cell> {
    match literal {
        Literal::Number(text) => Some(Some(text@)),
        Literal::SingleQuotedString(text) => Some(Some(text@)),
        Literal::DoubleQuotedString(text) => Some(Some(text@)),
        Literal::Boolean(b) => Some(
            Some(
                if b {
                    "true"@
                } else {
                    "false"@
                },
            ),
        ),
        Literal::Null => Some(None),
        Literal::Unsupported(_) => None,
    }
}

/// Why a literal of an unsupported kind is refused.
pub open spec fn literal_refusal(literal: Literal) -> SerializeErrorView {
    match literal {
        Literal::Unsupported(rendering) => SerializeErrorView::NotImplemented(
            unsupported_literal_reason() + rendering@,
        ),
        _ => SerializeErrorView::NotImplementable,
    }
}

/// The column and the literal text that a comparison holds against each
/// other, whichever side each is on: `None` unless one side is a bare column
/// name and the other a literal with a text.
pub open spec fn comparison_sides(left: Expr, right: Expr) -> Option<(Text, Text)> {
    match (left, right) {
        (Expr::Identifier(column), Expr::Value(literal)) => match literal_cell(literal) {
            Some(Some(text)) => Some((column@, text)),
            _ => None,
        },
        (Expr::Value(literal), Expr::Identifier(column)) => match literal_cell(literal) {
            Some(Some(text)) => Some((column@, text)),
            _ => None,
        },
        _ => None,
    }
}

/// The leaf that a comparison operator makes of a column and a literal text.
pub open spec fn comparison(op: BinaryOperator, column: Text, literal: Text) -> ConditionView {
    match op {
        BinaryOperator::Eq => ConditionView::Equal(column, literal),
        BinaryOperator::Gt => ConditionView::GreaterThan(column, literal),
        _ => ConditionView::LessThan(column, literal),
    }
}

/// Two lowered sides joined by a connective: both where both are there, the
/// one that is there where the other is missing.
pub open spec fn connect(
    op: BinaryOperator,
    left: Option<ConditionView>,
    right: Option<ConditionView>,
) -> Option<ConditionView> {
    match (left, right) {
        (Some(l), Some(r)) => Some(
            match op {
                BinaryOperator::And => ConditionView::And(Box::new(l), Box::new(r)),
                _ => ConditionView::Or(Box::new(l), Box::new(r)),
            },
        ),
        (None, Some(r)) => Some(r),
        (Some(l), None) => Some(l),
        (None, None) => None,
    }
}

/// The filter that an expression lowers to.
///
/// A comparison of a column with a literal text, in either order, gives a
/// leaf with the column first. `AND` and `OR` lower both sides, the left one
/// first, and fail as the first failing side does. Every other expression is
/// refused as not implemented.
pub open spec fn lower(expr: Expr) -> Result<Option<ConditionView>, SerializeErrorView>
    decreases expr,
{
    match expr {
        Expr::BinaryOp { left, op, right } => match op {
            BinaryOperator::Eq | BinaryOperator::Gt | BinaryOperator::Lt => match comparison_sides(
                *left,
                *right,
            ) {
                Some((column, literal)) => Ok(Some(comparison(op, column, literal))),
                None => Err(SerializeErrorView::NotImplemented(comparison_reason(op))),
            },
            BinaryOperator::And | BinaryOperator::Or => match lower(*left) {
                Err(e) => Err(e),
                Ok(l) => match lower(*right) {
                    Err(e) => Err(e),
                    Ok(r) => Ok(connect(op, l, r)),
                },
            },
            BinaryOperator::Unsupported => Err(
                SerializeErrorView::NotImplemented(operator_reason()),
            ),
        },
        _ => Err(SerializeErrorView::NotImplemented(shape_reason())),
    }
}

/// The value that a literal stands for.
pub fn literal_value(literal: &Literal) -> (outcome: Result<Value, SerializeError>)
    ensures
        match outcome {
            Ok(value) => literal_cell(*literal) == Some(value.deep_view()),
            Err(e) => literal_cell(*literal) is None && e@ == literal_refusal(*literal),
        },
{
    match literal {
        Literal::Number(text) => Ok(Some(text.clone())),
        Literal::SingleQuotedString(text) => Ok(Some(text.clone())),
        Literal::DoubleQuotedString(text) => Ok(Some(text.clone())),
        Literal::Boolean(b) => if *b {
            Ok(Some("true".to_string()))
        } else {
            Ok(Some("false".to_string()))
        },
        Literal::Null => Ok(None),
        Literal::Unsupported(rendering) => {
            let mut reason = "Type not implemented for the value : ".to_string();
            reason.append(rendering.as_str());
            Err(SerializeError::NotImplemented(reason))
        },
    }
}

/// The column and the literal text of a comparison's two sides.
fn sides(left: &Expr, right: &Expr) -> (found: Option<(String, String)>)
    ensures
        match found {
            Some((column, literal)) => comparison_sides(*left, *right) == Some(
                (column@, literal@),
            ),
            None => comparison_sides(*left, *right) is None,
        },
{
    match (left, right) {
        (Expr::Identifier(column), Expr::Value(literal)) => match literal_value(literal) {
            Ok(Some(text)) => Some((column.clone(), text)),
            _ => None,
        },
        (Expr::Value(literal), Expr::Identifier(column)) => match literal_value(literal) {
            Ok(Some(text)) => Some((column.clone(), text)),
            _ => None,
        },
        _ => None,
    }
}

/// The filter that `expr` lowers to.
pub fn lower_expr(expr: &Expr) -> (outcome: Result<Option<Condition>, SerializeError>)
    ensures
        lowering_view(outcome) == lower(*expr),
    decreases expr,
{
    match expr {
        Expr::BinaryOp { left, op, right } => match op {
            BinaryOperator::Eq => match sides(left, right) {
                Some((column, literal)) => Ok(Some(Condition::Equal(column, literal))),
                None => Err(
                    SerializeError::NotImplemented(
                        "Types not compatible for comparison with operator '='".to_string(),
                    ),
                ),
            },
            BinaryOperator::Gt => match sides(left, right) {
                Some((column, literal)) => Ok(Some(Condition::GreaterThan(column, literal))),
                None => Err(
                    SerializeError::NotImplemented(
                        "Types not compatible for comparison with operator '>'".to_string(),
                    ),
                ),
            },
            BinaryOperator::Lt => match sides(left, right) {
                Some((column, literal)) => Ok(Some(Condition::LessThan(column, literal))),
                None => Err(
                    SerializeError::NotImplemented(
                        "Types not compatible for comparison with operator '<'".to_string(),
                    ),
                ),
            },
            BinaryOperator::And => {
                let l = lower_expr(left)?;
                let r = lower_expr(right)?;
                match (l, r) {
                    (Some(l), Some(r)) => Ok(Some(Condition::And(Box::new(l), Box::new(r)))),
                    (None, Some(r)) => Ok(Some(r)),
                    (Some(l), None) => Ok(Some(l)),
                    (None, None) => Ok(None),
                }
            },
            BinaryOperator::Or => {
                let l = lower_expr(left)?;
                let r = lower_expr(right)?;
                match (l, r) {
                    (Some(l), Some(r)) => Ok(Some(Condition::Or(Box::new(l), Box::new(r)))),
                    (None, Some(r)) => Ok(Some(r)),
                    (Some(l), None) => Ok(Some(l)),
                    (None, None) => Ok(None),
                }
            },
            BinaryOperator::Unsupported => Err(
                SerializeError::NotImplemented(
                    "Operator not compatible with a combination of comparisons".to_string(),
                ),
            ),
        },
        _ => Err(SerializeError::NotImplemented("Types not compatible for comparison".to_string())),
    }
}

impl Filtering for Option<Expr> {
    open spec fn lowered(&self) -> Result<Option<ConditionView>, SerializeErrorView> {
        match self {
            Some(expr) => lower(*expr),
            None => Ok(None),
        }
    }

    fn deserialize_conditions(&self) -> (outcome: Result<Option<Condition>, SerializeError>) {
        match self {
            Some(expr) => lower_expr(expr),
            None => Ok(None),
        }
    }
}

/// The reason given for a projection item that is neither a bare column name
/// nor `*`.
pub open spec fn projection_reason() -> Text {
    "Only identifiers and aliases are implemented"@
}

/// A projection item that the engine can hand out: a bare column name or `*`.
pub open spec fn item_supported(item: SelectItem) -> bool {
    match item {
        SelectItem::Wildcard => true,
        SelectItem::UnnamedExpr(Expr::Identifier(_)) => true,
        _ => false,
    }
}

/// The bare column names among `items`, in their order.
pub open spec fn named_columns(items: Seq<SelectItem>) -> Seq<Text>
    decreases items.len(),
{
    if items.len() == 0 {
        Seq::empty()
    } else {
        let before = named_columns(items.drop_last());
        match items.last() {
            SelectItem::UnnamedExpr(Expr::Identifier(name)) => before.push(name@),
            _ => before,
        }
    }
}

/// The projection that a list of items asks for: refused if any item is
/// unsupported, all columns if any item is `*`, the named columns otherwise.
pub open spec fn projection(items: Seq<SelectItem>) -> Result<ColumnsView, SerializeErrorView> {
    if exists|i: int| 0 <= i < items.len() && !item_supported(#[trigger] items[i]) {
        Err(SerializeErrorView::NotImplemented(projection_reason()))
    } else if exists|i: int| 0 <= i < items.len() && #[trigger] items[i] is Wildcard {
        Ok(ColumnsView::All)
    } else {
        Ok(ColumnsView::ColumnNames(named_columns(items)))
    }
}

/// Every name segment of every table in `from`, in order. What is no plain
/// table adds nothing.
pub open spec fn table_names(from: Seq<TableFactor>) -> Seq<Text>
    decreases from.len(),
{
    if from.len() == 0 {
        Seq::empty()
    } else {
        table_names(from.drop_last()) + match from.last() {
            TableFactor::Table { name } => name.deep_view(),
            TableFactor::Unsupported => Seq::empty(),
        }
    }
}

/// The cell that an expression in a row of values or in an assignment
/// stands for: it has to be a literal of a supported kind.
pub open spec fn expr_cell(expr: Expr) -> Result<Cell, SerializeErrorView> {
    match expr {
        Expr::Value(literal) => match literal_cell(literal) {
            Some(cell) => Ok(cell),
            None => Err(literal_refusal(literal)),
        },
        _ => Err(SerializeErrorView::NotImplementable),
    }
}

/// The cells of a row of values, failing as its first failing expression does.
pub open spec fn row_cells(exprs: Seq<Expr>) -> Result<Row, SerializeErrorView>
    decreases exprs.len(),
{
    if exprs.len() == 0 {
        Ok(Seq::empty())
    } else {
        match row_cells(exprs.drop_last()) {
            Err(e) => Err(e),
            Ok(cells) => match expr_cell(exprs.last()) {
                Ok(cell) => Ok(cells.push(cell)),
                Err(e) => Err(e),
            },
        }
    }
}

/// The cells of a row of values, each paired with the column at its place.
/// A value beyond the last column cannot be placed; a column beyond the last
/// value gets no pair.
pub open spec fn paired_cells(columns: Seq<Text>, exprs: Seq<Expr>) -> Result<
    Seq<(Text, Cell)>,
    SerializeErrorView,
>
    decreases exprs.len(),
{
    if exprs.len() == 0 {
        Ok(Seq::empty())
    } else {
        match paired_cells(columns, exprs.drop_last()) {
            Err(e) => Err(e),
            Ok(pairs) => if exprs.len() > columns.len() {
                Err(SerializeErrorView::NotImplementable)
            } else {
                match expr_cell(exprs.last()) {
                    Ok(cell) => Ok(pairs.push((columns[exprs.len() - 1], cell))),
                    Err(e) => Err(e),
                }
            },
        }
    }
}

/// The column and cell of each assignment in order, the column by the first
/// segment of its name.
pub open spec fn assigned_cells(assignments: Seq<Assignment>) -> Result<
    Seq<(Text, Cell)>,
    SerializeErrorView,
>
    decreases assignments.len(),
{
    if assignments.len() == 0 {
        Ok(Seq::empty())
    } else {
        match assigned_cells(assignments.drop_last()) {
            Err(e) => Err(e),
            Ok(pairs) => {
                let last = assignments.last();
                if last.id.len() == 0 {
                    Err(SerializeErrorView::NotImplementable)
                } else {
                    match expr_cell(last.value) {
                        Ok(cell) => Ok(pairs.push((last.id[0]@, cell))),
                        Err(e) => Err(e),
                    }
                }
            },
        }
    }
}

/// What an `INSERT` brings. Only the first row of `VALUES` counts: as it
/// stands where no column list is given, under the listed columns otherwise.
pub open spec fn insert_elements(columns: Seq<Text>, source: SetExpr) -> Result<
    InsertElementView,
    SerializeErrorView,
> {
    match source {
        SetExpr::Values(rows) => if rows.len() == 0 {
            Err(SerializeErrorView::NotImplementable)
        } else if columns.len() == 0 {
            match row_cells(rows[0]@) {
                Ok(cells) => Ok(InsertElementView::PlainValues(cells)),
                Err(e) => Err(e),
            }
        } else {
            match paired_cells(columns, rows[0]@) {
                Ok(pairs) => Ok(InsertElementView::MappedValues(pairs)),
                Err(e) => Err(e),
            }
        },
        _ => Err(SerializeErrorView::NotImplementable),
    }
}

/// The command that a statement stands for.
///
/// - A query has to be a single-level `SELECT`, or it is useless to
///   implement. Its tables are all name segments of all plain tables after
///   `FROM`.
/// - An `INSERT` goes to the table named by the first segment of its target.
/// - An `UPDATE` goes to the table named by the first segment of its target,
///   which has to be a plain table.
/// - A `DELETE` goes to the first target after `FROM`: to the table named by
///   the first segment of its name, or to the table with the empty name
///   where the target is no plain table.
/// - A target without a name segment, a missing `FROM` target and a source
///   that is no `VALUES` list with a row are not implementable.
/// - Every other kind of statement is useless to implement.
pub open spec fn command(statement: Statement) -> Result<CommandView, SerializeErrorView> {
    match statement {
        Statement::Query(body) => match body {
            SetExpr::Select(select) => match projection(select.projection@) {
                Err(e) => Err(e),
                Ok(columns) => Ok(
                    CommandView::Select {
                        tables: table_names(select.from@),
                        columns,
                        conditions: select.selection.lowered(),
                    },
                ),
            },
            _ => Err(SerializeErrorView::UselessToImplement),
        },
        Statement::Insert { table_name, columns, source } => if table_name.len() == 0 {
            Err(SerializeErrorView::NotImplementable)
        } else {
            match insert_elements(columns.deep_view(), source) {
                Ok(elements) => Ok(CommandView::Insert { table: table_name[0]@, elements }),
                Err(e) => Err(e),
            }
        },
        Statement::Update { table, assignments, selection } => match table {
            TableFactor::Table { name } => if name.len() == 0 {
                Err(SerializeErrorView::NotImplementable)
            } else {
                match assigned_cells(assignments@) {
                    Ok(updates) => Ok(
                        CommandView::Update {
                            table: name[0]@,
                            updates,
                            conditions: selection.lowered(),
                        },
                    ),
                    Err(e) => Err(e),
                }
            },
            TableFactor::Unsupported => Err(SerializeErrorView::NotImplementable),
        },
        Statement::Delete { from, selection } => if from.len() == 0 {
            Err(SerializeErrorView::NotImplementable)
        } else {
            match from[0] {
                TableFactor::Table { name } => if name.len() == 0 {
                    Err(SerializeErrorView::NotImplementable)
                } else {
                    Ok(CommandView::Delete { table: name[0]@, conditions: selection.lowered() })
                },
                TableFactor::Unsupported => Ok(
                    CommandView::Delete {
                        table: Seq::empty(),
                        conditions: selection.lowered(),
                    },
                ),
            }
        },
        Statement::Unsupported => Err(SerializeErrorView::UselessToImplement),
    }
}

/// The value that an expression in a row of values or in an assignment
/// stands for.
fn expr_value(expr: &Expr) -> (outcome: Result<Value, SerializeError>)
    ensures
        match outcome {
            Ok(value) => expr_cell(*expr) == Ok::<Cell, SerializeErrorView>(value.deep_view()),
            Err(e) => expr_cell(*expr) == Err::<Cell, SerializeErrorView>(e@),
        },
{
    match expr {
        Expr::Value(literal) => literal_value(literal),
        _ => Err(SerializeError::NotImplementable),
    }
}

/// The projection that `items` asks for.
fn select_columns(items: &Vec<SelectItem>) -> (outcome: Result<Columns, SerializeError>)
    ensures
        match outcome {
            Ok(columns) => projection(items@) == Ok::<ColumnsView, SerializeErrorView>(columns@),
            Err(e) => projection(items@) == Err::<ColumnsView, SerializeErrorView>(e@),
        },
{
    let mut names: Vec<String> = Vec::new();
    let mut all_selected = false;
    let mut i: usize = 0;
    while i < items.len()
        invariant
            i <= items.len(),
            forall|k: int| 0 <= k < i ==> item_supported(#[trigger] items@[k]),
            all_selected <==> exists|k: int| 0 <= k < i && #[trigger] items@[k] is Wildcard,
            names.deep_view() == named_columns(items@.take(i as int)),
        decreases items.len() - i,
    {
        assert(items@.take(i + 1).drop_last() =~= items@.take(i as int));
        match &items[i] {
            SelectItem::UnnamedExpr(Expr::Identifier(name)) => {
                let ghost before = names.deep_view();
                names.push(name.clone());
                assert(names.deep_view() =~= before.push(name@));
            },
            SelectItem::Wildcard => {
                all_selected = true;
            },
            _ => {
                assert(!item_supported(items@[i as int]));
                return Err(
                    SerializeError::NotImplemented(
                        "Only identifiers and aliases are implemented".to_string(),
                    ),
                );
            },
        }
        i = i + 1;
    }
    assert(items@.take(i as int) =~= items@);
    if all_selected {
        Ok(Columns::All)
    } else {
        Ok(Columns::ColumnNames(names))
    }
}

/// Every name segment of every plain table in `from`, in order.
fn collect_tables(from: &Vec<TableFactor>) -> (tables: Vec<String>)
    ensures
        tables.deep_view() == table_names(from@),
{
    let mut tables: Vec<String> = Vec::new();
    let mut i: usize = 0;
    while i < from.len()
        invariant
            i <= from.len(),
            tables.deep_view() == table_names(from@.take(i as int)),
        decreases from.len() - i,
    {
        assert(from@.take(i + 1).drop_last() =~= from@.take(i as int));
        if let TableFactor::Table { name } = &from[i] {
            let ghost before = tables.deep_view();
            let mut j: usize = 0;
            while j < name.len()
                invariant
                    j <= name.len(),
                    tables.deep_view() == before + name.deep_view().take(j as int),
                decreases name.len() - j,
            {
                let ghost so_far = tables.deep_view();
                tables.push(name[j].clone());
                assert(tables.deep_view() =~= so_far.push(name[j as int]@));
                assert(name.deep_view().take(j + 1) =~= name.deep_view().take(j as int).push(
                    name[j as int]@,
                ));
                j = j + 1;
            }
            assert(name.deep_view().take(j as int) =~= name.deep_view());
        } else {
            assert(tables.deep_view() + Seq::<Text>::empty() =~= tables.deep_view());
        }
        i = i + 1;
    }
    assert(from@.take(i as int) =~= from@);
    tables
}

/// The values of a row, in its order.
fn plain_values(exprs: &Vec<Expr>) -> (outcome: Result<Vec<Value>, SerializeError>)
    ensures
        match outcome {
            Ok(values) => row_cells(exprs@) == Ok::<Row, SerializeErrorView>(values.deep_view()),
            Err(e) => row_cells(exprs@) == Err::<Row, SerializeErrorView>(e@),
        },
{
    let mut values: Vec<Value> = Vec::new();
    let mut i: usize = 0;
    assert(values.deep_view() =~= Seq::<Cell>::empty());
    while i < exprs.len()
        invariant
            i <= exprs.len(),
            row_cells(exprs@.take(i as int)) == Ok::<Row, SerializeErrorView>(values.deep_view()),
        decreases exprs.len() - i,
    {
        assert(exprs@.take(i + 1).drop_last() =~= exprs@.take(i as int));
        match expr_value(&exprs[i]) {
            Ok(value) => {
                let ghost before = values.deep_view();
                values.push(value);
                assert(values.deep_view() =~= before.push(value.deep_view()));
            },
            Err(e) => {
                proof {
                    lemma_row_cells_fails(exprs@, i + 1);
                }
                return Err(e);
            },
        }
        i = i + 1;
    }
    assert(exprs@.take(i as int) =~= exprs@);
    Ok(values)
}

/// A row that fails on a prefix fails in the same way as a whole.
proof fn lemma_row_cells_fails(exprs: Seq<Expr>, n: int)
    requires
        0 <= n <= exprs.len(),
        row_cells(exprs.take(n)) is Err,
    ensures
        row_cells(exprs) == row_cells(exprs.take(n)),
    decreases exprs.len(),
{
    if n < exprs.len() {
        assert(exprs.drop_last().take(n) =~= exprs.take(n));
        lemma_row_cells_fails(exprs.drop_last(), n);
    } else {
        assert(exprs.take(n) =~= exprs);
    }
}

/// The values of a row, each under the column at its place in `columns`.
fn mapped_values(columns: &Vec<String>, exprs: &Vec<Expr>) -> (outcome: Result<
    Vec<(String, Value)>,
    SerializeError,
>)
    ensures
        match outcome {
            Ok(pairs) => paired_cells(columns.deep_view(), exprs@) == Ok::<
                Seq<(Text, Cell)>,
                SerializeErrorView,
            >(pairs.deep_view()),
            Err(e) => paired_cells(columns.deep_view(), exprs@) == Err::<
                Seq<(Text, Cell)>,
                SerializeErrorView,
            >(e@),
        },
{
    let mut pairs: Vec<(String, Value)> = Vec::new();
    let mut i: usize = 0;
    assert(pairs.deep_view() =~= Seq::<(Text, Cell)>::empty());
    while i < exprs.len()
        invariant
            i <= exprs.len(),
            paired_cells(columns.deep_view(), exprs@.take(i as int)) == Ok::<
                Seq<(Text, Cell)>,
                SerializeErrorView,
            >(pairs.deep_view()),
        decreases exprs.len() - i,
    {
        assert(exprs@.take(i + 1).drop_last() =~= exprs@.take(i as int));
        if i >= columns.len() {
            proof {
                lemma_paired_cells_fails(columns.deep_view(), exprs@, i + 1);
            }
            return Err(SerializeError::NotImplementable);
        }
        match expr_value(&exprs[i]) {
            Ok(value) => {
                let ghost before = pairs.deep_view();
                pairs.push((columns[i].clone(), value));
                assert(pairs.deep_view() =~= before.push((columns[i as int]@, value.deep_view())));
            },
            Err(e) => {
                proof {
                    lemma_paired_cells_fails(columns.deep_view(), exprs@, i + 1);
                }
                return Err(e);
            },
        }
        i = i + 1;
    }
    assert(exprs@.take(i as int) =~= exprs@);
    Ok(pairs)
}

/// A row that fails under its columns on a prefix fails in the same way as a
/// whole.
proof fn lemma_paired_cells_fails(columns: Seq<Text>, exprs: Seq<Expr>, n: int)
    requires
        0 <= n <= exprs.len(),
        paired_cells(columns, exprs.take(n)) is Err,
    ensures
        paired_cells(columns, exprs) == paired_cells(columns, exprs.take(n)),
    decreases exprs.len(),
{
    if n < exprs.len() {
        assert(exprs.drop_last().take(n) =~= exprs.take(n));
        lemma_paired_cells_fails(columns, exprs.drop_last(), n);
    } else {
        assert(exprs.take(n) =~= exprs);
    }
}

/// The column and value of each assignment, in order.
fn assignment_values(assignments: &Vec<Assignment>) -> (outcome: Result<
    Vec<(String, Value)>,
    SerializeError,
>)
    ensures
        match outcome {
            Ok(pairs) => assigned_cells(assignments@) == Ok::<
                Seq<(Text, Cell)>,
                SerializeErrorView,
            >(pairs.deep_view()),
            Err(e) => assigned_cells(assignments@) == Err::<
                Seq<(Text, Cell)>,
                SerializeErrorView,
            >(e@),
        },
{
    let mut pairs: Vec<(String, Value)> = Vec::new();
    let mut i: usize = 0;
    assert(pairs.deep_view() =~= Seq::<(Text, Cell)>::empty());
    while i < assignments.len()
        invariant
            i <= assignments.len(),
            assigned_cells(assignments@.take(i as int)) == Ok::<
                Seq<(Text, Cell)>,
                SerializeErrorView,
            >(pairs.deep_view()),
        decreases assignments.len() - i,
    {
        assert(assignments@.take(i + 1).drop_last() =~= assignments@.take(i as int));
        let assignment = &assignments[i];
        if assignment.id.len() == 0 {
            proof {
                lemma_assigned_cells_fails(assignments@, i + 1);
            }
            return Err(SerializeError::NotImplementable);
        }
        match expr_value(&assignment.value) {
            Ok(value) => {
                let ghost before = pairs.deep_view();
                pairs.push((assignment.id[0].clone(), value));
                assert(pairs.deep_view() =~= before.push(
                    (assignment.id[0]@, value.deep_view()),
                ));
            },
            Err(e) => {
                proof {
                    lemma_assigned_cells_fails(assignments@, i + 1);
                }
                return Err(e);
            },
        }
        i = i + 1;
    }
    assert(assignments@.take(i as int) =~= assignments@);
    Ok(pairs)
}

/// Assignments that fail on a prefix fail in the same way as a whole.
proof fn lemma_assigned_cells_fails(assignments: Seq<Assignment>, n: int)
    requires
        0 <= n <= assignments.len(),
        assigned_cells(assignments.take(n)) is Err,
    ensures
        assigned_cells(assignments) == assigned_cells(assignments.take(n)),
    decreases assignments.len(),
{
    if n < assignments.len() {
        assert(assignments.drop_last().take(n) =~= assignments.take(n));
        lemma_assigned_cells_fails(assignments.drop_last(), n);
    } else {
        assert(assignments.take(n) =~= assignments);
    }
}

/// What an `INSERT` with the column list `columns` and the source `source`
/// brings.
fn elements_of(columns: &Vec<String>, source: &SetExpr) -> (outcome: Result<
    InsertElement,
    SerializeError,
>)
    ensures
        match outcome {
            Ok(elements) => insert_elements(columns.deep_view(), *source) == Ok::<
                InsertElementView,
                SerializeErrorView,
            >(elements@),
            Err(e) => insert_elements(columns.deep_view(), *source) == Err::<
                InsertElementView,
                SerializeErrorView,
            >(e@),
        },
{
    match source {
        SetExpr::Values(rows) => {
            if rows.len() == 0 {
                return Err(SerializeError::NotImplementable);
            }
            if columns.len() == 0 {
                match plain_values(&rows[0]) {
                    Ok(values) => Ok(InsertElement::PlainValues(values)),
                    Err(e) => Err(e),
                }
            } else {
                match mapped_values(columns, &rows[0]) {
                    Ok(pairs) => Ok(InsertElement::MappedValues(pairs)),
                    Err(e) => Err(e),
                }
            }
        },
        _ => Err(SerializeError::NotImplementable),
    }
}

impl Executable for Statement {
    open spec fn command(&self) -> Result<CommandView, SerializeErrorView> {
        command(*self)
    }

    fn deserialize_as_command(&self) -> (outcome: Result<Command, SerializeError>) {
        match self {
            Statement::Query(body) => match body {
                SetExpr::Select(select) => {
                    let conditions = select.selection.deserialize_conditions();
                    match select_columns(&select.projection) {
                        Ok(columns) => Ok(
                            Command::Select {
                                tables: collect_tables(&select.from),
                                columns,
                                conditions,
                            },
                        ),
                        Err(e) => Err(e),
                    }
                },
                _ => Err(SerializeError::UselessToImplement),
            },
            Statement::Insert { table_name, columns, source } => {
                if table_name.len() == 0 {
                    return Err(SerializeError::NotImplementable);
                }
                match elements_of(columns, source) {
                    Ok(elements) => Ok(Command::Insert { table: table_name[0].clone(), elements }),
                    Err(e) => Err(e),
                }
            },
            Statement::Update { table, assignments, selection } => match table {
                TableFactor::Table { name } => {
                    if name.len() == 0 {
                        return Err(SerializeError::NotImplementable);
                    }
                    let conditions = selection.deserialize_conditions();
                    match assignment_values(assignments) {
                        Ok(updates) => Ok(
                            Command::Update { table: name[0].clone(), updates, conditions },
                        ),
                        Err(e) => Err(e),
                    }
                },
                TableFactor::Unsupported => Err(SerializeError::NotImplementable),
            },
            Statement::Delete { from, selection } => {
                if from.len() == 0 {
                    return Err(SerializeError::NotImplementable);
                }
                let table = match &from[0] {
                    TableFactor::Table { name } => {
                        if name.len() == 0 {
                            return Err(SerializeError::NotImplementable);
                        }
                        name[0].clone()
                    },
                    TableFactor::Unsupported => String::new(),
                };
                Ok(Command::Delete { table, conditions: selection.deserialize_conditions() })
            },
            Statement::Unsupported => Err(SerializeError::UselessToImplement),
        }
    }
}

/// An expression that lowers at all lowers to a filter: only a missing
/// `WHERE` clause stands for no filter.
pub proof fn lemma_lower_gives_a_filter(expr: Expr)
    ensures
        lower(expr) matches Ok(condition) ==> condition is Some,
    decreases expr,
{
    match expr {
        Expr::BinaryOp { left, op, right } => {
            lemma_lower_gives_a_filter(*left);
            lemma_lower_gives_a_filter(*right);
        },
        _ => {},
    }
}

} // verus!
