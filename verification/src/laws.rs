//! What holds of the table's operations taken together.

use vstd::prelude::*;
use crate::model::{
    assigned, cell_field, column_index, field_cell, join_with, kept, lemma_column_index,
    lemma_kept_empty, lemma_kept_push, lemma_kept_rows, lemma_kept_unfiltered,
    lemma_rewritten_len, lemma_selected_empty, lemma_selected_push, lemma_split_on_len,
    line_cells, lookup, passes, rewritten, row_line, rows_text, selected, split_on, text_lines,
    text_rows, without_trailing, ColumnsView, ConditionView, InsertElementView, TableModel,
    CARRIAGE_RETURN, FIELD_DELIMITER, LINE_END,
};
use crate::utils::{Cell, Row, Text};

verus! {

/// Without a filter and with all columns, what is selected is the rows.
pub proof fn lemma_select_everything(table: TableModel)
    ensures
        table.select(ColumnsView::All, None) == Some(table.rows),
    decreases table.rows.len(),
{
    let rows = table.rows;
    if rows.len() == 0 {
        assert(rows =~= Seq::empty());
        lemma_selected_empty(table.columns, ColumnsView::All, None);
    } else {
        let before = table.with_rows(rows.drop_last());
        lemma_select_everything(before);
        assert(rows.drop_last().push(rows.last()) =~= rows);
        lemma_selected_push(table.columns, rows.drop_last(), rows.last(), ColumnsView::All, None);
    }
}

/// A table with at least one column takes a row that has a cell for each
/// column, and then hands out, without a filter and with all columns, what
/// it handed out before and that row after it.
pub proof fn lemma_insert_then_select(table: TableModel, values: Row)
    requires
        table.wf(),
        values.len() == table.columns.len(),
    ensures
        table.insert(InsertElementView::PlainValues(values)) is Some,
        table.insert(InsertElementView::PlainValues(values)).unwrap().wf(),
        table.select(ColumnsView::All, None) is Some,
        table.insert(InsertElementView::PlainValues(values)).unwrap().select(
            ColumnsView::All,
            None,
        ) == Some(table.select(ColumnsView::All, None).unwrap().push(values)),
{
    lemma_select_everything(table);
    lemma_select_everything(table.with_rows(table.rows.push(values)));
}

/// Without a filter, a selection by column names hands out one row for
/// each row of the table, and in it, at the place of each name, the cell that
/// the table's row holds under that name, wherever the column stands in the
/// table.
pub proof fn lemma_select_columns(table: TableModel, names: Seq<Text>)
    requires
        table.wf(),
        table.offers(ColumnsView::ColumnNames(names)),
    ensures
        table.select(ColumnsView::ColumnNames(names), None) is Some,
        table.select(ColumnsView::ColumnNames(names), None).unwrap().len() == table.rows.len(),
        forall|i: int, k: int|
            #![trigger table.select(ColumnsView::ColumnNames(names), None).unwrap()[i][k]]
            0 <= i < table.rows.len() && 0 <= k < names.len() ==> {
                &&& table.select(ColumnsView::ColumnNames(names), None).unwrap()[i].len()
                    == names.len()
                &&& lookup(table.columns, table.rows[i], names[k]) == Some(
                    table.select(ColumnsView::ColumnNames(names), None).unwrap()[i][k],
                )
            },
    decreases table.rows.len(),
{
    let rows = table.rows;
    let projection = ColumnsView::ColumnNames(names);
    if rows.len() == 0 {
        assert(rows =~= Seq::empty());
        lemma_selected_empty(table.columns, projection, None);
    } else {
        let before = table.with_rows(rows.drop_last());
        lemma_select_columns(before, names);
        assert(rows.drop_last().push(rows.last()) =~= rows);
        lemma_selected_push(table.columns, rows.drop_last(), rows.last(), projection, None);
        let out = table.select(projection, None).unwrap();
        assert forall|i: int, k: int|
            #![trigger out[i][k]]
            0 <= i < rows.len() && 0 <= k < names.len() implies out[i].len() == names.len()
            && lookup(table.columns, rows[i], names[k]) == Some(out[i][k]) by {
            lemma_column_index(table.columns, names[k]);
            if i < rows.len() - 1 {
                assert(out[i] == before.select(projection, None).unwrap()[i]);
                assert(lookup(before.columns, before.rows[i], names[k]) == Some(
                    before.select(projection, None).unwrap()[i][k],
                ));
            }
        }
    }
}

/// A selection of two columns by name hands out, for each row, the cell
/// under the first name and then the cell under the second, whatever the
/// order of the two columns in the table.
pub proof fn lemma_select_two_columns(table: TableModel, first: Text, second: Text)
    requires
        table.wf(),
        column_index(table.columns, first) is Some,
        column_index(table.columns, second) is Some,
    ensures
        table.select(ColumnsView::ColumnNames(seq![first, second]), None) == Some(
            table.rows.map_values(
                |row: Row|
                    seq![
                        row[column_index(table.columns, first).unwrap()],
                        row[column_index(table.columns, second).unwrap()],
                    ],
            ),
        ),
{
    let names = seq![first, second];
    assert(table.offers(ColumnsView::ColumnNames(names))) by {
        assert forall|k: int| 0 <= k < names.len() implies column_index(
            table.columns,
            #[trigger] names[k],
        ) is Some by {
            if k == 0 {
            } else {
                assert(names[k] == second);
            }
        }
    }
    lemma_select_columns(table, names);
    let out = table.select(ColumnsView::ColumnNames(names), None).unwrap();
    let expected = table.rows.map_values(
        |row: Row|
            seq![
                row[column_index(table.columns, first).unwrap()],
                row[column_index(table.columns, second).unwrap()],
            ],
    );
    assert forall|i: int| 0 <= i < out.len() implies out[i] == expected[i] by {
        lemma_column_index(table.columns, first);
        lemma_column_index(table.columns, second);
        assert(lookup(table.columns, table.rows[i], names[0]) == Some(out[i][0]));
        assert(lookup(table.columns, table.rows[i], names[1]) == Some(out[i][1]));
        assert(out[i] =~= expected[i]);
    }
    assert(out =~= expected);
}

/// To delete without a filter is to empty the table.
pub proof fn lemma_delete_everything(table: TableModel)
    ensures
        table.delete(None) == Some(table.with_rows(Seq::empty())),
{
    lemma_kept_unfiltered(table.columns, table.rows);
}

/// The places, in rising order, of the rows that do not pass the filter.
pub open spec fn kept_places(
    columns: Seq<Text>,
    rows: Seq<Row>,
    condition: Option<ConditionView>,
) -> Seq<int>
    decreases rows.len(),
{
    if rows.len() == 0 {
        Seq::empty()
    } else {
        let before = kept_places(columns, rows.drop_last(), condition);
        if passes(columns, condition, rows.last()) {
            before
        } else {
            before.push(rows.len() - 1)
        }
    }
}

/// To delete under a filter is to remove the rows that pass it and no
/// others: what is left are the rows at the places of those that do not
/// pass, each once and in the order in which they stood.
pub proof fn lemma_delete_filtered(table: TableModel, condition: ConditionView)
    requires
        table.wf(),
        condition.known(table.columns),
    ensures
        table.delete(Some(condition)) is Some,
        table.delete(Some(condition)).unwrap().wf(),
        table.delete(Some(condition)).unwrap().name == table.name,
        table.delete(Some(condition)).unwrap().columns == table.columns,
        ({
            let left = table.delete(Some(condition)).unwrap().rows;
            let places = kept_places(table.columns, table.rows, Some(condition));
            &&& left.len() == places.len()
            &&& forall|k: int|
                0 <= k < places.len() ==> 0 <= #[trigger] places[k] < table.rows.len() && left[k]
                    == table.rows[places[k]]
            &&& forall|a: int, b: int|
                0 <= a < b < places.len() ==> #[trigger] places[a] < #[trigger] places[b]
            &&& forall|i: int|
                0 <= i < table.rows.len() ==> (places.contains(i) <==> !passes(
                    table.columns,
                    Some(condition),
                    #[trigger] table.rows[i],
                ))
        }),
{
    lemma_kept_places(table.columns, table.rows, Some(condition));
    lemma_kept_rows(table.columns, table.rows, Some(condition), table.columns.len());
}

/// The rows that are kept are those at the kept places.
pub proof fn lemma_kept_places(
    columns: Seq<Text>,
    rows: Seq<Row>,
    condition: Option<ConditionView>,
)
    ensures
        ({
            let left = kept(columns, rows, condition);
            let places = kept_places(columns, rows, condition);
            &&& left.len() == places.len()
            &&& forall|k: int|
                0 <= k < places.len() ==> 0 <= #[trigger] places[k] < rows.len() && left[k]
                    == rows[places[k]]
            &&& forall|a: int, b: int|
                0 <= a < b < places.len() ==> #[trigger] places[a] < #[trigger] places[b]
            &&& forall|i: int|
                0 <= i < rows.len() ==> (places.contains(i) <==> !passes(
                    columns,
                    condition,
                    #[trigger] rows[i],
                ))
        }),
    decreases rows.len(),
{
    let left = kept(columns, rows, condition);
    let places = kept_places(columns, rows, condition);
    if rows.len() == 0 {
        assert(rows =~= Seq::empty());
        lemma_kept_empty(columns, condition);
    } else {
        let before = rows.drop_last();
        let places_before = kept_places(columns, before, condition);
        lemma_kept_places(columns, before, condition);
        assert(before.push(rows.last()) =~= rows);
        lemma_kept_push(columns, before, rows.last(), condition);
        assert forall|i: int| 0 <= i < rows.len() implies (places.contains(i) <==> !passes(
            columns,
            condition,
            #[trigger] rows[i],
        )) by {
            if i < rows.len() - 1 {
                assert(rows[i] == before[i]);
                if places_before.contains(i) {
                    let k = choose|k: int| 0 <= k < places_before.len() && places_before[k] == i;
                    assert(places[k] == i);
                }
                if places.contains(i) {
                    let k = choose|k: int| 0 <= k < places.len() && places[k] == i;
                    assert(places_before[k] == i);
                }
            } else {
                if !passes(columns, condition, rows.last()) {
                    assert(places[places.len() - 1] == i);
                } else if places.contains(i) {
                    let k = choose|k: int| 0 <= k < places.len() && places[k] == i;
                    assert(places_before[k] < before.len());
                }
            }
        }
    }
}

/// The cell that `pairs` write at place `j` of a row, if they write there:
/// that of the last pair whose name has its column at `j`.
pub open spec fn written(columns: Seq<Text>, pairs: Seq<(Text, Cell)>, j: int) -> Option<Cell>
    decreases pairs.len(),
{
    if pairs.len() == 0 {
        None
    } else if column_index(columns, pairs.last().0) == Some(j) {
        Some(pairs.last().1)
    } else {
        written(columns, pairs.drop_last(), j)
    }
}

/// A rewritten row is as wide as it was, and holds at each place what was
/// written there, or what it held where nothing was written.
pub proof fn lemma_rewritten_cell(columns: Seq<Text>, row: Row, pairs: Seq<(Text, Cell)>, j: int)
    requires
        0 <= j < row.len(),
    ensures
        rewritten(columns, row, pairs).len() == row.len(),
        rewritten(columns, row, pairs)[j] == match written(columns, pairs, j) {
            Some(cell) => cell,
            None => row[j],
        },
    decreases pairs.len(),
{
    lemma_rewritten_len(columns, row, pairs);
    if pairs.len() > 0 {
        lemma_rewritten_len(columns, row, pairs.drop_last());
        lemma_rewritten_cell(columns, row, pairs.drop_last(), j);
        lemma_column_index(columns, pairs.last().0);
    }
}

/// Something is written at place `j` exactly if a pair names the column at `j`.
pub proof fn lemma_written_named(columns: Seq<Text>, pairs: Seq<(Text, Cell)>, j: int)
    ensures
        written(columns, pairs, j) is Some <==> exists|k: int|
            0 <= k < pairs.len() && column_index(columns, (#[trigger] pairs[k]).0) == Some(j),
    decreases pairs.len(),
{
    if pairs.len() > 0 {
        let before = pairs.drop_last();
        lemma_written_named(columns, before, j);
        if column_index(columns, pairs.last().0) == Some(j) {
            assert(column_index(columns, pairs[pairs.len() - 1].0) == Some(j));
        } else {
            if written(columns, before, j) is Some {
                let k = choose|k: int|
                    0 <= k < before.len() && column_index(columns, (#[trigger] before[k]).0)
                        == Some(j);
                assert(pairs[k] == before[k]);
            }
            if exists|k: int|
                0 <= k < pairs.len() && column_index(columns, (#[trigger] pairs[k]).0) == Some(j) {
                let k = choose|k: int|
                    0 <= k < pairs.len() && column_index(columns, (#[trigger] pairs[k]).0)
                        == Some(j);
                assert(before[k] == pairs[k]);
            }
        }
    }
}

/// At the first column of a name, what is written is what the pairs assign
/// to that name.
pub proof fn lemma_written_is_assigned(columns: Seq<Text>, pairs: Seq<(Text, Cell)>, j: int)
    requires
        0 <= j < columns.len(),
        column_index(columns, columns[j]) == Some(j),
    ensures
        written(columns, pairs, j) == assigned(pairs, columns[j]),
    decreases pairs.len(),
{
    if pairs.len() > 0 {
        lemma_written_is_assigned(columns, pairs.drop_last(), j);
        lemma_column_index(columns, pairs.last().0);
    }
}

/// An update changes the rows that pass the filter and no others, and of
/// these the cells at the columns that the new values name and no others:
/// every other cell is what it was. Name, columns and the number and order
/// of the rows stay.
pub proof fn lemma_update_touches(
    table: TableModel,
    new_values: Seq<(Text, Cell)>,
    condition: Option<ConditionView>,
)
    requires
        table.wf(),
        table.admits(condition),
        table.assigns(new_values),
    ensures
        table.update(new_values, condition) is Some,
        table.update(new_values, condition).unwrap().wf(),
        table.update(new_values, condition).unwrap().name == table.name,
        table.update(new_values, condition).unwrap().columns == table.columns,
        table.update(new_values, condition).unwrap().rows.len() == table.rows.len(),
        forall|i: int|
            0 <= i < table.rows.len() && !passes(table.columns, condition, table.rows[i])
                ==> #[trigger] table.update(new_values, condition).unwrap().rows[i]
                == table.rows[i],
        forall|i: int, j: int|
            0 <= i < table.rows.len() && 0 <= j < table.columns.len() && passes(
                table.columns,
                condition,
                table.rows[i],
            ) ==> #[trigger] table.update(new_values, condition).unwrap().rows[i][j]
                == match written(table.columns, new_values, j) {
                Some(cell) => cell,
                None => table.rows[i][j],
            },
{
    let after = table.update(new_values, condition).unwrap();
    assert forall|i: int| 0 <= i < after.rows.len() implies (#[trigger] after.rows[i]).len()
        == after.columns.len() by {
        lemma_rewritten_len(table.columns, table.rows[i], new_values);
    }
    assert forall|i: int, j: int|
        0 <= i < table.rows.len() && 0 <= j < table.columns.len() && passes(
            table.columns,
            condition,
            table.rows[i],
        ) implies #[trigger] after.rows[i][j] == match written(table.columns, new_values, j) {
        Some(cell) => cell,
        None => table.rows[i][j],
    } by {
        lemma_rewritten_cell(table.columns, table.rows[i], new_values, j);
    }
}

/// `c` does not occur in `text`.
pub open spec fn free_of(text: Text, c: char) -> bool {
    forall|i: int| 0 <= i < text.len() ==> text[i] != c
}

/// A text without the delimiter is its own single piece.
pub proof fn lemma_split_free(text: Text, delimiter: char)
    requires
        free_of(text, delimiter),
    ensures
        split_on(text, delimiter) == seq![text],
    decreases text.len(),
{
    if text.len() > 0 {
        let shorter = text.drop_last();
        assert forall|i: int| 0 <= i < shorter.len() implies shorter[i] != delimiter by {
            assert(shorter[i] == text[i]);
        }
        lemma_split_free(shorter, delimiter);
        assert(text[text.len() - 1] != delimiter);
        assert(shorter.push(text.last()) =~= text);
        assert(seq![shorter].update(0, shorter.push(text.last())) =~= seq![text]);
        assert(split_on(text, delimiter) =~= seq![text]);
    } else {
        assert(text =~= Seq::<char>::empty());
    }
}

/// To append a text without the delimiter is to lengthen the last piece.
pub proof fn lemma_split_append(text: Text, more: Text, delimiter: char)
    requires
        free_of(more, delimiter),
    ensures
        split_on(text + more, delimiter) == split_on(text, delimiter).update(
            split_on(text, delimiter).len() - 1,
            split_on(text, delimiter).last() + more,
        ),
    decreases more.len(),
{
    let pieces = split_on(text, delimiter);
    lemma_split_on_len(text, delimiter);
    if more.len() == 0 {
        assert(text + more =~= text);
        assert(pieces.last() + more =~= pieces.last());
        assert(pieces.update(pieces.len() - 1, pieces.last() + more) =~= pieces);
    } else {
        let shorter = more.drop_last();
        lemma_split_append(text, shorter, delimiter);
        assert((text + more).drop_last() =~= text + shorter);
        assert((text + more).last() == more.last());
        assert(pieces.last() + more =~= (pieces.last() + shorter).push(more.last()));
        assert(split_on(text + more, delimiter) =~= pieces.update(
            pieces.len() - 1,
            pieces.last() + more,
        ));
    }
}

/// To split what was joined gives the parts back, if there is a part and no
/// part holds the delimiter.
pub proof fn lemma_split_join(parts: Seq<Text>, delimiter: char)
    requires
        parts.len() >= 1,
        forall|i: int| 0 <= i < parts.len() ==> free_of(#[trigger] parts[i], delimiter),
    ensures
        split_on(join_with(parts, delimiter), delimiter) == parts,
    decreases parts.len(),
{
    if parts.len() == 1 {
        lemma_split_free(parts[0], delimiter);
        assert(seq![parts[0]] =~= parts);
    } else {
        let before = parts.drop_last();
        lemma_split_join(before, delimiter);
        let head = join_with(before, delimiter).push(delimiter);
        assert(head.drop_last() =~= join_with(before, delimiter));
        assert(split_on(head, delimiter) == before.push(Seq::<char>::empty()));
        lemma_split_append(head, parts.last(), delimiter);
        assert(Seq::<char>::empty() + parts.last() =~= parts.last());
        assert(before.push(Seq::<char>::empty()).update(before.len() as int, parts.last())
            =~= parts);
    }
}

/// What is joined from parts without `c`, by a delimiter other than `c`, is
/// without `c`.
pub proof fn lemma_join_free(parts: Seq<Text>, delimiter: char, c: char)
    requires
        c != delimiter,
        forall|i: int| 0 <= i < parts.len() ==> free_of(#[trigger] parts[i], c),
    ensures
        free_of(join_with(parts, delimiter), c),
    decreases parts.len(),
{
    if parts.len() > 1 {
        lemma_join_free(parts.drop_last(), delimiter, c);
        assert(free_of(parts.last(), c));
    } else if parts.len() == 1 {
        assert(free_of(parts[0], c));
    }
}

/// What is joined ends as its last part ends, if that part is not empty.
pub proof fn lemma_join_last(parts: Seq<Text>, delimiter: char)
    requires
        parts.len() >= 1,
        parts.last().len() > 0,
    ensures
        join_with(parts, delimiter).len() > 0,
        join_with(parts, delimiter).last() == parts.last().last(),
{
}

/// A cell that comes back from its field as it went in: null, or a text
/// that is not empty and holds neither the field delimiter nor a line end.
pub open spec fn clean_cell(cell: Cell) -> bool {
    match cell {
        Some(text) => text.len() > 0 && free_of(text, FIELD_DELIMITER) && free_of(text, LINE_END),
        None => true,
    }
}

/// A row that comes back from its line as it went in: its cells are clean,
/// and its last cell is not null unless it is its only one.
pub open spec fn clean_row(row: Row) -> bool {
    &&& row.len() >= 1
    &&& forall|j: int| 0 <= j < row.len() ==> clean_cell(#[trigger] row[j])
    &&& (row.last() is Some || row.len() == 1)
}

/// The line of a clean row holds no line end, and reads back as the row.
pub proof fn lemma_line_round_trip(row: Row)
    requires
        clean_row(row),
    ensures
        free_of(row_line(row), LINE_END),
        line_cells(row_line(row)) == row,
        row.last() matches Some(text) ==> row_line(row).len() > 0 && row_line(row).last()
            == text.last(),
        row.last() is None ==> row_line(row).len() == 0,
{
    let fields = row.map_values(|cell: Cell| cell_field(cell));
    let line = row_line(row);
    assert forall|j: int| 0 <= j < fields.len() implies free_of(
        #[trigger] fields[j],
        FIELD_DELIMITER,
    ) && free_of(fields[j], LINE_END) by {
        assert(clean_cell(row[j]));
    }
    lemma_join_free(fields, FIELD_DELIMITER, LINE_END);
    lemma_split_join(fields, FIELD_DELIMITER);
    match row.last() {
        Some(text) => {
            assert(clean_cell(row[row.len() - 1]));
            assert(fields.last() == text);
            lemma_join_last(fields, FIELD_DELIMITER);
            assert(text[text.len() - 1] != FIELD_DELIMITER);
            assert(without_trailing(line, FIELD_DELIMITER) == line);
        },
        None => {
            assert(fields =~= seq![Seq::<char>::empty()]);
            assert(line.len() == 0);
        },
    }
    assert forall|j: int| 0 <= j < row.len() implies field_cell(fields[j]) == row[j] by {
        assert(clean_cell(row[j]));
    }
    assert(line_cells(line) =~= row);
}

/// Rows that come back from their text as they went in. There may be none.
/// Otherwise each has `width` cells, at least one, and all of them clean;
/// a null last cell stands only in a row of one cell that is not the last
/// row; and the last cell of a row before the last does not end in a
/// carriage return.
pub open spec fn storable(rows: Seq<Row>, width: nat) -> bool {
    rows.len() == 0 || {
        &&& width >= 1
        &&& forall|i: int| 0 <= i < rows.len() ==> (#[trigger] rows[i]).len() == width
        &&& forall|i: int, j: int|
            0 <= i < rows.len() && 0 <= j < width ==> clean_cell(#[trigger] rows[i][j])
        &&& forall|i: int|
            0 <= i < rows.len() ==> ((#[trigger] rows[i]).last() is Some || (width == 1 && i
                < rows.len() - 1))
        &&& forall|i: int|
            0 <= i < rows.len() - 1 ==> ((#[trigger] rows[i]).last() matches Some(text)
                ==> text.last() != CARRIAGE_RETURN)
    }
}

/// To write storable rows down and to read the text again, with the number
/// of columns that the rows have, gives the rows back, cell for cell.
pub proof fn lemma_round_trip(rows: Seq<Row>, width: nat)
    requires
        storable(rows, width),
    ensures
        text_rows(rows_text(rows), width) == Some(rows),
{
    let lines = rows.map_values(|row: Row| row_line(row));
    let text = rows_text(rows);
    if rows.len() == 0 {
        assert(text.len() == 0);
        assert(text_lines(text) =~= Seq::<Text>::empty());
        assert(text_lines(text).map_values(|line: Text| line_cells(line)) =~= rows);
    } else {
        assert forall|i: int| 0 <= i < rows.len() implies clean_row(#[trigger] rows[i]) by {
            assert forall|j: int| 0 <= j < rows[i].len() implies clean_cell(
                #[trigger] rows[i][j],
            ) by {}
        }
        assert forall|i: int| 0 <= i < lines.len() implies free_of(
            #[trigger] lines[i],
            LINE_END,
        ) by {
            lemma_line_round_trip(rows[i]);
        }
        lemma_split_join(lines, LINE_END);
        let pieces = split_on(text, LINE_END);
        assert(pieces == lines);
        lemma_line_round_trip(rows.last());
        assert(pieces.last().len() > 0);
        assert forall|i: int| 0 <= i < lines.len() - 1 implies without_trailing(
            #[trigger] lines[i],
            CARRIAGE_RETURN,
        ) == lines[i] by {
            lemma_line_round_trip(rows[i]);
        }
        assert(text_lines(text) =~= lines);
        assert forall|i: int| 0 <= i < lines.len() implies line_cells(#[trigger] lines[i])
            == rows[i] by {
            lemma_line_round_trip(rows[i]);
        }
        assert(lines.map_values(|line: Text| line_cells(line)) =~= rows);
    }
}

/// To join the pieces of a text gives the text back.
pub proof fn lemma_join_split(text: Text, delimiter: char)
    ensures
        join_with(split_on(text, delimiter), delimiter) == text,
    decreases text.len(),
{
    if text.len() == 0 {
        assert(text =~= Seq::<char>::empty());
    } else {
        let shorter = text.drop_last();
        let before = split_on(shorter, delimiter);
        let pieces = split_on(text, delimiter);
        lemma_join_split(shorter, delimiter);
        lemma_split_on_len(shorter, delimiter);
        if text.last() == delimiter {
            assert(pieces.drop_last() =~= before);
            assert(join_with(pieces, delimiter) =~= shorter.push(delimiter));
        } else if before.len() == 1 {
            assert(join_with(pieces, delimiter) =~= shorter.push(text.last()));
        } else {
            assert(pieces.drop_last() =~= before.drop_last());
            assert(join_with(pieces, delimiter) =~= join_with(before, delimiter).push(
                text.last(),
            ));
        }
        assert(shorter.push(text.last()) =~= text);
    }
}

/// To read a line and to write its cells down again gives the line without
/// the delimiter at its end, if it had one there, and changes nothing else.
pub proof fn lemma_line_normal_form(line: Text)
    ensures
        row_line(line_cells(line)) == without_trailing(line, FIELD_DELIMITER),
{
    let kernel = without_trailing(line, FIELD_DELIMITER);
    let fields = split_on(kernel, FIELD_DELIMITER);
    lemma_join_split(kernel, FIELD_DELIMITER);
    assert forall|i: int| 0 <= i < fields.len() implies cell_field(
        field_cell(#[trigger] fields[i]),
    ) == fields[i] by {
        assert(cell_field(field_cell(fields[i])) =~= fields[i]);
    }
    assert(line_cells(line).map_values(|cell: Cell| cell_field(cell)) =~= fields);
}

/// To read a text and to write its rows down again gives its lines, each
/// without the delimiter at its end, with a line end between each two.
pub proof fn lemma_text_normal_form(text: Text, width: nat)
    requires
        text_rows(text, width) is Some,
    ensures
        rows_text(text_rows(text, width).unwrap()) == join_with(
            text_lines(text).map_values(|line: Text| without_trailing(line, FIELD_DELIMITER)),
            LINE_END,
        ),
{
    let lines = text_lines(text);
    let rows = text_rows(text, width).unwrap();
    assert forall|i: int| 0 <= i < lines.len() implies row_line(#[trigger] rows[i])
        == without_trailing(lines[i], FIELD_DELIMITER) by {
        lemma_line_normal_form(lines[i]);
    }
    assert(rows.map_values(|row: Row| row_line(row)) =~= lines.map_values(
        |line: Text| without_trailing(line, FIELD_DELIMITER),
    ));
}

/// No piece holds the delimiter, and no piece holds a character that the
/// text does not hold.
pub proof fn lemma_split_pieces(text: Text, delimiter: char, c: char)
    ensures
        forall|j: int|
            0 <= j < split_on(text, delimiter).len() ==> {
                &&& free_of(#[trigger] split_on(text, delimiter)[j], delimiter)
                &&& free_of(text, c) ==> free_of(split_on(text, delimiter)[j], c)
            },
    decreases text.len(),
{
    if text.len() > 0 {
        let shorter = text.drop_last();
        let before = split_on(shorter, delimiter);
        lemma_split_pieces(shorter, delimiter, c);
        lemma_split_on_len(shorter, delimiter);
        if free_of(text, c) {
            assert forall|i: int| 0 <= i < shorter.len() implies shorter[i] != c by {
                assert(shorter[i] == text[i]);
            }
            assert(text[text.len() - 1] != c);
        }
        assert forall|j: int| 0 <= j < split_on(text, delimiter).len() implies {
            &&& free_of(#[trigger] split_on(text, delimiter)[j], delimiter)
            &&& free_of(text, c) ==> free_of(split_on(text, delimiter)[j], c)
        } by {
            if j < before.len() - 1 {
                assert(split_on(text, delimiter)[j] == before[j]);
            } else if text.last() == delimiter {
                if j == before.len() - 1 {
                    assert(split_on(text, delimiter)[j] == before[j]);
                }
            } else {
                assert(free_of(before[before.len() - 1], delimiter));
            }
        }
    }
}

/// A text without its last character holds no character that it did not hold.
pub proof fn lemma_without_trailing_free(text: Text, last: char, c: char)
    requires
        free_of(text, c),
    ensures
        free_of(without_trailing(text, last), c),
{
    let kernel = without_trailing(text, last);
    assert forall|i: int| 0 <= i < kernel.len() implies kernel[i] != c by {
        assert(kernel[i] == text[i]);
    }
}

/// Whatever comes out of a line is a clean cell, if the line holds no line end.
pub proof fn lemma_line_cells_clean(line: Text)
    requires
        free_of(line, LINE_END),
    ensures
        line_cells(line).len() >= 1,
        forall|j: int|
            0 <= j < line_cells(line).len() ==> clean_cell(#[trigger] line_cells(line)[j]),
{
    let kernel = without_trailing(line, FIELD_DELIMITER);
    lemma_without_trailing_free(line, FIELD_DELIMITER, LINE_END);
    lemma_split_pieces(kernel, FIELD_DELIMITER, LINE_END);
    lemma_split_on_len(kernel, FIELD_DELIMITER);
    assert forall|j: int| 0 <= j < line_cells(line).len() implies clean_cell(
        #[trigger] line_cells(line)[j],
    ) by {
        assert(free_of(split_on(kernel, FIELD_DELIMITER)[j], FIELD_DELIMITER));
    }
}

/// No line of a text holds a line end.
pub proof fn lemma_text_lines_free(text: Text)
    ensures
        forall|i: int|
            0 <= i < text_lines(text).len() ==> free_of(#[trigger] text_lines(text)[i], LINE_END),
{
    let pieces = split_on(text, LINE_END);
    lemma_split_pieces(text, LINE_END, LINE_END);
    lemma_split_on_len(text, LINE_END);
    assert forall|i: int| 0 <= i < text_lines(text).len() implies free_of(
        #[trigger] text_lines(text)[i],
        LINE_END,
    ) by {
        assert(free_of(pieces[i], LINE_END));
        if i < pieces.len() - 1 {
            lemma_without_trailing_free(pieces[i], CARRIAGE_RETURN, LINE_END);
        }
    }
}

/// What is joined from several parts, the last of them empty, ends in the
/// delimiter.
pub proof fn lemma_join_ends_in_delimiter(parts: Seq<Text>, delimiter: char)
    requires
        parts.len() >= 2,
        parts.last().len() == 0,
    ensures
        join_with(parts, delimiter).len() > 0,
        join_with(parts, delimiter).last() == delimiter,
{
    assert(join_with(parts, delimiter) =~= join_with(parts.drop_last(), delimiter).push(delimiter));
}

/// Only storable rows come back from their text as they went in.
pub proof fn lemma_round_trip_only(rows: Seq<Row>, width: nat)
    requires
        text_rows(rows_text(rows), width) == Some(rows),
    ensures
        storable(rows, width),
{
    if rows.len() > 0 {
        let text = rows_text(rows);
        let written = rows.map_values(|row: Row| row_line(row));
        let lines = text_lines(text);
        let n = rows.len() as int;
        assert(rows == lines.map_values(|line: Text| line_cells(line)));
        assert(lines.len() == n);
        lemma_text_lines_free(text);
        assert forall|i: int| 0 <= i < n implies {
            &&& (#[trigger] rows[i]).len() == width
            &&& rows[i] == line_cells(lines[i])
            &&& rows[i].len() >= 1
            &&& forall|j: int| 0 <= j < rows[i].len() ==> clean_cell(#[trigger] rows[i][j])
            &&& written[i] == without_trailing(lines[i], FIELD_DELIMITER)
            &&& free_of(written[i], LINE_END)
        } by {
            assert(rows[i] == lines.map_values(|line: Text| line_cells(line))[i]);
            assert(line_cells(lines[i]).len() == width);
            lemma_line_cells_clean(lines[i]);
            lemma_line_normal_form(lines[i]);
            lemma_without_trailing_free(lines[i], FIELD_DELIMITER, LINE_END);
        }
        assert(rows[0].len() == width);
        lemma_split_join(written, LINE_END);
        let pieces = split_on(text, LINE_END);
        assert(pieces == written);
        assert(pieces.last().len() > 0);
        assert forall|i: int| 0 <= i < n implies (#[trigger] rows[i]).last() is Some || (width == 1
            && i < n - 1) by {
            let fields = rows[i].map_values(|cell: Cell| cell_field(cell));
            if rows[i].last() is None {
                if width >= 2 {
                    lemma_join_ends_in_delimiter(fields, FIELD_DELIMITER);
                    if i < n - 1 {
                        assert(lines[i] == without_trailing(pieces[i], CARRIAGE_RETURN));
                    } else {
                        assert(lines[i] == pieces[i]);
                    }
                    assert(false);
                } else {
                    assert(fields =~= seq![Seq::<char>::empty()]);
                    assert(written[i].len() == 0);
                }
            }
        }
        assert forall|i: int| 0 <= i < n - 1 implies ((#[trigger] rows[i]).last() matches Some(
            text,
        ) ==> text.last() != CARRIAGE_RETURN) by {
            let fields = rows[i].map_values(|cell: Cell| cell_field(cell));
            match rows[i].last() {
                Some(last) => {
                    assert(clean_cell(rows[i][rows[i].len() - 1]));
                    assert(fields.last() == last);
                    lemma_join_last(fields, FIELD_DELIMITER);
                    assert(lines[i] == without_trailing(pieces[i], CARRIAGE_RETURN));
                },
                None => {},
            }
        }
        assert forall|i: int, j: int| 0 <= i < n && 0 <= j < width implies clean_cell(
            #[trigger] rows[i][j],
        ) by {
            assert(rows[i].len() == width);
        }
    }
}

} // verus!
