//! The select engine's work on rows: which values a query asks for, in
//! which order, how a value is shown as text, and how `COUNT` folds the
//! rows into one.

use vstd::prelude::*;
use vstd::string::StringExecFns;
use crate::page::records_view;
use crate::record::{Record, RecordView};
use crate::statement::{AggregatorFunction, CreateTableStatement, CreateTableView};
use crate::text::{
    bytes_text, decimal_chars, decimal_digits, join_with_spaces, joined_with_spaces,
    signed_decimal, signed_decimal_chars, string_of, strings_view, text_from_bytes,
};

verus! {

/// One row of a query's answer: its key and the text of each selected
/// column.
#[derive(Debug)]
pub struct TableRow {
    pub row_id: i64,
    pub column_values: Vec<String>,
}

/// What a row of an answer is, as plain values.
pub struct TableRowView {
    pub row_id: int,
    pub column_values: Seq<Seq<char>>,
}

impl View for TableRow {
    type V = TableRowView;

    open spec fn view(&self) -> TableRowView {
        TableRowView { row_id: self.row_id as int, column_values: strings_view(self.column_values@) }
    }
}

/// The contents of a list of rows.
pub open spec fn table_rows_view(rows: Seq<TableRow>) -> Seq<TableRowView> {
    rows.map_values(|row: TableRow| row@)
}

/// The text `NULL`.
pub open spec fn null_text() -> Seq<char> {
    seq!['N', 'U', 'L', 'L']
}

/// The text that shows a stored value: `NULL` for an empty buffer, and
/// otherwise the bytes read as UTF-8.
pub open spec fn value_text(bytes: Seq<u8>) -> Seq<char> {
    if bytes.len() == 0 {
        null_text()
    } else {
        bytes_text(bytes)
    }
}

/// What the column at `position` of the table contributes to a row of the
/// answer: the row id where the column stands for it, else the stored value
/// where the record has one at that position, else nothing.
pub open spec fn picked_at(record: RecordView, table: CreateTableView, position: int) -> Seq<
    Seq<char>,
> {
    if table.integer_primary_key_column == Some(position as nat) {
        seq![signed_decimal(record.row_id)]
    } else if 0 <= position < record.column_values.len() {
        seq![value_text(record.column_values[position])]
    } else {
        Seq::empty()
    }
}

/// What the requested column `name` contributes to a row of the answer:
/// the value at the first position at which the table declares a column of
/// that name, and nothing where it declares none.
pub open spec fn picked(record: RecordView, table: CreateTableView, name: Seq<char>) -> Seq<
    Seq<char>,
> {
    match table.columns.index_of_first(name) {
        Some(position) => picked_at(record, table, position),
        None => Seq::empty(),
    }
}

/// The values of the requested columns, in request order.
pub open spec fn picked_names(
    record: RecordView,
    table: CreateTableView,
    names: Seq<Seq<char>>,
) -> Seq<Seq<char>> {
    names.map_values(|name: Seq<char>| picked(record, table, name)).flatten_alt()
}

/// The values of all declared columns, in declared order.
pub open spec fn picked_all(record: RecordView, table: CreateTableView) -> Seq<Seq<char>> {
    Seq::new(table.columns.len(), |position: int| picked_at(record, table, position)).flatten_alt()
}

/// The row of the answer that `record` gives: the requested columns in
/// request order, or all declared columns where none are named.
pub open spec fn selected_row(
    record: RecordView,
    table: CreateTableView,
    columns: Option<Seq<Seq<char>>>,
) -> TableRowView {
    TableRowView {
        row_id: record.row_id,
        column_values: match columns {
            Some(names) => picked_names(record, table, names),
            None => picked_all(record, table),
        },
    }
}

/// The rows of the answer that `records` give, in the same order.
pub open spec fn selected_rows(
    records: Seq<RecordView>,
    table: CreateTableView,
    columns: Option<Seq<Seq<char>>>,
) -> Seq<TableRowView> {
    records.map_values(|record: RecordView| selected_row(record, table, columns))
}

/// Requesting one list of columns after another gives the values of the
/// first followed by the values of the second: each requested name
/// contributes the same value wherever it stands in the request, and the
/// values come in request order.
pub proof fn lemma_picked_names_concat(
    record: RecordView,
    table: CreateTableView,
    first: Seq<Seq<char>>,
    second: Seq<Seq<char>>,
)
    ensures
        picked_names(record, table, first + second) == picked_names(record, table, first)
            + picked_names(record, table, second),
    decreases second.len(),
{
    let pick = |name: Seq<char>| picked(record, table, name);
    if second.len() == 0 {
        assert(first + second =~= first);
        assert(second.map_values(pick) =~= Seq::<Seq<Seq<char>>>::empty());
        assert(picked_names(record, table, first) + Seq::<Seq<char>>::empty() =~= picked_names(
            record,
            table,
            first,
        ));
    } else {
        lemma_picked_names_concat(record, table, first, second.drop_last());
        let all = first + second;
        assert(all.map_values(pick).drop_last() =~= (first + second.drop_last()).map_values(pick));
        assert(second.map_values(pick).drop_last() =~= second.drop_last().map_values(pick));
        assert(all.map_values(pick).last() == second.map_values(pick).last());
        assert(picked_names(record, table, first + second) =~= picked_names(record, table, first)
            + picked_names(record, table, second));
    }
}

/// Where every requested name is a declared column with a value in the
/// record, the answer holds one value for each name, at the place at which
/// the name stands in the request.
pub proof fn lemma_picked_names_in_request_order(
    record: RecordView,
    table: CreateTableView,
    names: Seq<Seq<char>>,
)
    requires
        forall|i: int| 0 <= i < names.len() ==> picked(record, table, #[trigger] names[i]).len() == 1,
    ensures
        picked_names(record, table, names).len() == names.len(),
        forall|i: int|
            0 <= i < names.len() ==> #[trigger] picked_names(record, table, names)[i] == picked(
                record,
                table,
                names[i],
            )[0],
    decreases names.len(),
{
    let pick = |name: Seq<char>| picked(record, table, name);
    if names.len() > 0 {
        let front = names.drop_last();
        assert forall|i: int| 0 <= i < front.len() implies picked(
            record,
            table,
            #[trigger] front[i],
        ).len() == 1 by {
            assert(front[i] == names[i]);
        }
        lemma_picked_names_in_request_order(record, table, front);
        assert(names.map_values(pick).drop_last() =~= front.map_values(pick));
        assert(names.map_values(pick).last() == picked(record, table, names.last()));
        assert(picked_names(record, table, names) =~= picked_names(record, table, front) + picked(
            record,
            table,
            names[names.len() - 1],
        ));
        assert forall|i: int| 0 <= i < names.len() implies #[trigger] picked_names(
            record,
            table,
            names,
        )[i] == picked(record, table, names[i])[0] by {
            if i < front.len() {
                assert(front[i] == names[i]);
                assert(picked_names(record, table, names)[i] == picked_names(record, table, front)[i]);
            }
        }
    } else {
        assert(names.map_values(pick) =~= Seq::<Seq<Seq<char>>>::empty());
    }
}

proof fn lemma_flatten_single_values(parts: Seq<Seq<Seq<char>>>)
    requires
        forall|i: int| 0 <= i < parts.len() ==> (#[trigger] parts[i]).len() == 1,
    ensures
        parts.flatten_alt().len() == parts.len(),
        forall|i: int| 0 <= i < parts.len() ==> #[trigger] parts.flatten_alt()[i] == parts[i][0],
    decreases parts.len(),
{
    if parts.len() > 0 {
        let front = parts.drop_last();
        assert forall|i: int| 0 <= i < front.len() implies (#[trigger] front[i]).len() == 1 by {
            assert(front[i] == parts[i]);
        }
        lemma_flatten_single_values(front);
        assert(parts.flatten_alt() =~= front.flatten_alt() + parts.last());
        assert forall|i: int| 0 <= i < parts.len() implies #[trigger] parts.flatten_alt()[i]
            == parts[i][0] by {
            if i < front.len() {
                assert(front[i] == parts[i]);
                assert(parts.flatten_alt()[i] == front.flatten_alt()[i]);
            }
        }
    }
}

/// Whether `record` holds a value for every column that `table` declares:
/// the column stands for the row id, or the record has a value at its
/// position.
pub open spec fn holds_all_columns(record: RecordView, table: CreateTableView) -> bool {
    forall|position: int|
        0 <= position < table.columns.len() ==> (#[trigger] picked_at(
            record,
            table,
            position,
        )).len() == 1
}

/// Whether `positions` gives, for each of `names`, the first position at
/// which `table` declares a column of that name.
pub open spec fn first_positions(
    table: CreateTableView,
    names: Seq<Seq<char>>,
    positions: Seq<int>,
) -> bool {
    &&& positions.len() == names.len()
    &&& forall|k: int|
        0 <= k < names.len() ==> {
            &&& 0 <= #[trigger] positions[k] < table.columns.len()
            &&& table.columns[positions[k]] == names[k]
            &&& forall|j: int| 0 <= j < positions[k] ==> table.columns[j] != names[k]
        }
}

proof fn lemma_selected_row_agrees(
    record: RecordView,
    table: CreateTableView,
    names: Seq<Seq<char>>,
    positions: Seq<int>,
)
    requires
        holds_all_columns(record, table),
        first_positions(table, names, positions),
    ensures
        picked_all(record, table).len() == table.columns.len(),
        picked_names(record, table, names).len() == names.len(),
        forall|k: int|
            0 <= k < names.len() ==> #[trigger] picked_names(record, table, names)[k] == picked_all(
                record,
                table,
            )[positions[k]],
{
    let all = Seq::new(table.columns.len(), |position: int| picked_at(record, table, position));
    lemma_flatten_single_values(all);
    assert forall|k: int| 0 <= k < names.len() implies picked(record, table, #[trigger] names[k])
        == picked_at(record, table, positions[k]) by {
        table.columns.index_of_first_ensures(names[k]);
        assert(table.columns[positions[k]] == names[k]);
        assert(table.columns.contains(names[k]));
    }
    assert forall|k: int| 0 <= k < names.len() implies picked(
        record,
        table,
        #[trigger] names[k],
    ).len() == 1 by {
        assert(all[positions[k]].len() == 1);
    }
    lemma_picked_names_in_request_order(record, table, names);
    assert forall|k: int| 0 <= k < names.len() implies #[trigger] picked_names(
        record,
        table,
        names,
    )[k] == picked_all(record, table)[positions[k]] by {
        assert(all[positions[k]] == picked_at(record, table, positions[k]));
    }
}

/// Selecting named columns gives, for each row, the values that the row
/// selected without names holds at the positions of those columns, in the
/// order of the request and under the same row id, as long as every record
/// holds a value for every declared column.
pub proof fn lemma_selected_columns_of_full_rows(
    records: Seq<RecordView>,
    table: CreateTableView,
    names: Seq<Seq<char>>,
    positions: Seq<int>,
)
    requires
        forall|r: int| 0 <= r < records.len() ==> holds_all_columns(#[trigger] records[r], table),
        first_positions(table, names, positions),
    ensures
        selected_rows(records, table, Some(names)).len() == selected_rows(
            records,
            table,
            None,
        ).len(),
        forall|r: int|
            0 <= r < records.len() ==> {
                let row = #[trigger] selected_rows(records, table, Some(names))[r];
                let full = selected_rows(records, table, None)[r];
                &&& row.row_id == full.row_id
                &&& row.column_values.len() == names.len()
                &&& full.column_values.len() == table.columns.len()
                &&& forall|k: int|
                    0 <= k < names.len() ==> #[trigger] row.column_values[k]
                        == full.column_values[positions[k]]
            },
{
    assert forall|r: int| 0 <= r < records.len() implies {
        let row = #[trigger] selected_rows(records, table, Some(names))[r];
        let full = selected_rows(records, table, None)[r];
        &&& row.row_id == full.row_id
        &&& row.column_values.len() == names.len()
        &&& full.column_values.len() == table.columns.len()
        &&& forall|k: int|
            0 <= k < names.len() ==> #[trigger] row.column_values[k]
                == full.column_values[positions[k]]
    } by {
        lemma_selected_row_agrees(records[r], table, names, positions);
    }
}

/// The request `names` put in another order: at each place `k` the name
/// that stood at place `order[k]`.
pub open spec fn reordered(names: Seq<Seq<char>>, order: Seq<int>) -> Seq<Seq<char>> {
    Seq::new(order.len(), |k: int| names[order[k]])
}

/// Reordering the request reorders the columns of every row in the same
/// way and changes nothing else, as long as every requested name gives a
/// value in every record.
pub proof fn lemma_selected_rows_of_reordered_request(
    records: Seq<RecordView>,
    table: CreateTableView,
    names: Seq<Seq<char>>,
    order: Seq<int>,
)
    requires
        order.len() == names.len(),
        forall|k: int| 0 <= k < order.len() ==> 0 <= #[trigger] order[k] < names.len(),
        forall|r: int, i: int|
            0 <= r < records.len() && 0 <= i < names.len() ==> picked(
                #[trigger] records[r],
                table,
                #[trigger] names[i],
            ).len() == 1,
    ensures
        selected_rows(records, table, Some(reordered(names, order))).len() == selected_rows(
            records,
            table,
            Some(names),
        ).len(),
        forall|r: int|
            0 <= r < records.len() ==> {
                let moved = #[trigger] selected_rows(
                    records,
                    table,
                    Some(reordered(names, order)),
                )[r];
                let row = selected_rows(records, table, Some(names))[r];
                &&& moved.row_id == row.row_id
                &&& moved.column_values.len() == row.column_values.len()
                &&& forall|k: int|
                    0 <= k < order.len() ==> #[trigger] moved.column_values[k]
                        == row.column_values[order[k]]
            },
{
    let other = reordered(names, order);
    assert forall|r: int| 0 <= r < records.len() implies {
        let moved = #[trigger] selected_rows(records, table, Some(other))[r];
        let row = selected_rows(records, table, Some(names))[r];
        &&& moved.row_id == row.row_id
        &&& moved.column_values.len() == row.column_values.len()
        &&& forall|k: int|
            0 <= k < order.len() ==> #[trigger] moved.column_values[k]
                == row.column_values[order[k]]
    } by {
        let record = records[r];
        assert forall|i: int| 0 <= i < names.len() implies picked(
            record,
            table,
            #[trigger] names[i],
        ).len() == 1 by {}
        assert forall|k: int| 0 <= k < other.len() implies picked(
            record,
            table,
            #[trigger] other[k],
        ).len() == 1 by {
            assert(other[k] == names[order[k]]);
        }
        lemma_picked_names_in_request_order(record, table, names);
        lemma_picked_names_in_request_order(record, table, other);
        assert forall|k: int| 0 <= k < order.len() implies #[trigger] picked_names(
            record,
            table,
            other,
        )[k] == picked_names(record, table, names)[order[k]] by {
            assert(other[k] == names[order[k]]);
        }
    }
}

fn position_of(columns: &Vec<String>, name: &String) -> (r: Option<usize>)
    ensures
        match r {
            Some(position) => strings_view(columns@).index_of_first(name@) == Some(position as int),
            None => strings_view(columns@).index_of_first(name@) is None,
        },
{
    let ghost declared = strings_view(columns@);
    let mut index: usize = 0;
    while index < columns.len()
        invariant
            index <= columns@.len(),
            declared == strings_view(columns@),
            forall|j: int| 0 <= j < index ==> declared[j] != name@,
        decreases columns@.len() - index,
    {
        assert(declared[index as int] == columns@[index as int]@);
        if columns[index] == *name {
            proof {
                declared.index_of_first_ensures(name@);
                assert(declared[index as int] == name@);
            }
            return Some(index);
        }
        index = index + 1;
    }
    proof {
        declared.index_of_first_ensures(name@);
    }
    None
}

fn text_of_value(bytes: &Vec<u8>) -> (r: String)
    ensures
        r@ == value_text(bytes@),
{
    if bytes.len() == 0 {
        let null: Vec<char> = vec!['N', 'U', 'L', 'L'];
        assert(null@ =~= null_text());
        string_of(null.as_slice())
    } else {
        text_from_bytes(bytes.as_slice())
    }
}

fn push_picked_at(
    record: &Record,
    table: &CreateTableStatement,
    position: usize,
    values: &mut Vec<String>,
)
    ensures
        strings_view(final(values)@) == strings_view(old(values)@) + picked_at(
            record@,
            table@,
            position as int,
        ),
{
    let ghost before = values@;
    let is_key = match table.integer_primary_key_column {
        Some(key) => key == position,
        None => false,
    };
    if is_key {
        let digits = signed_decimal_chars(record.row_id);
        let text = string_of(digits.as_slice());
        values.push(text);
        assert(strings_view(values@) =~= strings_view(before).push(text@));
    } else if position < record.column_values.len() {
        let text = text_of_value(&record.column_values[position]);
        values.push(text);
        assert(record@.column_values[position as int] == record.column_values@[position as int]@);
        assert(strings_view(values@) =~= strings_view(before).push(text@));
    }
    assert(strings_view(values@) =~= strings_view(before) + picked_at(
        record@,
        table@,
        position as int,
    ));
}

/// The row of the answer that `record` gives: the requested columns in
/// request order, each name looked up among the table's declared columns
/// and passed over where it is not found; or all declared columns where
/// `columns` is `None`. The column declared `INTEGER PRIMARY KEY` shows the
/// row id.
pub fn select_row(record: &Record, table: &CreateTableStatement, columns: &Option<Vec<String>>) -> (r:
    TableRow)
    ensures
        r@ == selected_row(
            record@,
            table@,
            match columns {
                Some(names) => Some(strings_view(names@)),
                None => None,
            },
        ),
{
    let mut values: Vec<String> = Vec::new();
    match columns {
        Some(names) => {
            let ghost requested = strings_view(names@);
            let ghost pick = |name: Seq<char>| picked(record@, table@, name);
            let mut index: usize = 0;
            assert(requested.take(0).map_values(pick) =~= Seq::<Seq<Seq<char>>>::empty());
            assert(strings_view(values@) =~= picked_names(record@, table@, requested.take(0)));
            while index < names.len()
                invariant
                    index <= names@.len(),
                    requested == strings_view(names@),
                    pick == |name: Seq<char>| picked(record@, table@, name),
                    strings_view(values@) == picked_names(
                        record@,
                        table@,
                        requested.take(index as int),
                    ),
                decreases names@.len() - index,
            {
                let ghost before = strings_view(values@);
                assert(requested[index as int] == names@[index as int]@);
                match position_of(&table.columns, &names[index]) {
                    Some(position) => {
                        push_picked_at(record, table, position, &mut values);
                    },
                    None => {
                        assert(before + Seq::<Seq<char>>::empty() =~= before);
                    },
                }
                proof {
                    let taken = requested.take(index + 1);
                    assert(taken.map_values(pick).drop_last() =~= requested.take(
                        index as int,
                    ).map_values(pick));
                    assert(taken.map_values(pick).last() == picked(
                        record@,
                        table@,
                        requested[index as int],
                    ));
                }
                index = index + 1;
            }
            assert(requested.take(index as int) =~= requested);
        },
        None => {
            let ghost all = Seq::new(
                table@.columns.len(),
                |position: int| picked_at(record@, table@, position),
            );
            let mut position: usize = 0;
            assert(all.take(0) =~= Seq::<Seq<Seq<char>>>::empty());
            assert(strings_view(values@) =~= all.take(0).flatten_alt());
            while position < table.columns.len()
                invariant
                    position <= table.columns@.len(),
                    all == Seq::new(
                        table@.columns.len(),
                        |position: int| picked_at(record@, table@, position),
                    ),
                    strings_view(values@) == all.take(position as int).flatten_alt(),
                decreases table.columns@.len() - position,
            {
                push_picked_at(record, table, position, &mut values);
                proof {
                    let taken = all.take(position + 1);
                    assert(taken.drop_last() =~= all.take(position as int));
                    assert(taken.last() == picked_at(record@, table@, position as int));
                }
                position = position + 1;
            }
            assert(all.take(position as int) =~= all);
        },
    }
    TableRow { row_id: record.row_id, column_values: values }
}

/// The rows of the answer that `records` give, in the same order.
pub fn select_rows(
    records: &Vec<Record>,
    table: &CreateTableStatement,
    columns: &Option<Vec<String>>,
) -> (r: Vec<TableRow>)
    ensures
        table_rows_view(r@) == selected_rows(
            records_view(records@),
            table@,
            match columns {
                Some(names) => Some(strings_view(names@)),
                None => None,
            },
        ),
{
    let ghost requested = match columns {
        Some(names) => Some(strings_view(names@)),
        None => None,
    };
    let ghost expected = selected_rows(records_view(records@), table@, requested);
    let mut rows: Vec<TableRow> = Vec::new();
    let mut index: usize = 0;
    assert(table_rows_view(rows@) =~= expected.take(0));
    while index < records.len()
        invariant
            index <= records@.len(),
            requested == match columns {
                Some(names) => Some(strings_view(names@)),
                None => None,
            },
            expected == selected_rows(records_view(records@), table@, requested),
            table_rows_view(rows@) == expected.take(index as int),
        decreases records@.len() - index,
    {
        let ghost before = rows@;
        let row = select_row(&records[index], table, columns);
        rows.push(row);
        assert(records_view(records@)[index as int] == records@[index as int]@);
        assert(table_rows_view(rows@) =~= table_rows_view(before).push(row@));
        assert(table_rows_view(rows@) =~= expected.take(index + 1));
        index = index + 1;
    }
    assert(expected.take(index as int) =~= expected);
    rows
}

/// The one row that `COUNT` makes of `count` rows: row id 1 and a single
/// column with the decimal digits of `count`.
pub open spec fn count_row(count: nat) -> TableRowView {
    TableRowView { row_id: 1, column_values: seq![decimal_digits(count)] }
}

/// Folds the rows of an answer into one. `COUNT` gives the number of rows;
/// no other aggregator can be executed.
pub fn aggregate_table_rows(table_rows: Vec<TableRow>, aggregator_function: AggregatorFunction) -> (r:
    Vec<TableRow>)
    requires
        aggregator_function == AggregatorFunction::COUNT,
    ensures
        table_rows_view(r@) == seq![count_row(table_rows@.len())],
{
    let digits = decimal_chars(table_rows.len() as u64);
    let text = string_of(digits.as_slice());
    let column_values: Vec<String> = vec![text];
    assert(strings_view(column_values@) =~= seq![decimal_digits(table_rows@.len())]);
    let row = TableRow { row_id: 1, column_values };
    let rows: Vec<TableRow> = vec![row];
    assert(table_rows_view(rows@) =~= seq![count_row(table_rows@.len())]);
    rows
}

/// The row that shows every value of `record` as text.
pub open spec fn shown_row(record: RecordView) -> TableRowView {
    TableRowView {
        row_id: record.row_id,
        column_values: record.column_values.map_values(|bytes: Seq<u8>| value_text(bytes)),
    }
}

/// Shows every value of `record` as text: `NULL` for an empty buffer, and
/// otherwise the bytes read as UTF-8.
pub fn show_record(record: &Record) -> (r: TableRow)
    ensures
        r@ == shown_row(record@),
{
    let mut column_values: Vec<String> = Vec::new();
    let mut index: usize = 0;
    assert(strings_view(column_values@) =~= shown_row(record@).column_values.take(0));
    while index < record.column_values.len()
        invariant
            index <= record.column_values@.len(),
            strings_view(column_values@) == shown_row(record@).column_values.take(index as int),
        decreases record.column_values@.len() - index,
    {
        let ghost before = column_values@;
        let text = text_of_value(&record.column_values[index]);
        column_values.push(text);
        assert(record@.column_values[index as int] == record.column_values@[index as int]@);
        assert(strings_view(column_values@) =~= strings_view(before).push(text@));
        assert(strings_view(column_values@) =~= shown_row(record@).column_values.take(index + 1));
        index = index + 1;
    }
    assert(shown_row(record@).column_values.take(index as int) =~= shown_row(
        record@,
    ).column_values);
    TableRow { row_id: record.row_id, column_values }
}

impl From<Record> for TableRow {
    /// Shows every value of `record` as text.
    fn from(record: Record) -> (r: TableRow)
        ensures
            r@ == shown_row(record@),
    {
        show_record(&record)
    }
}

/// What `from` returns is stated by its own contract, over the row's view;
/// as a function on values the conversion is left open.
impl vstd::std_specs::convert::FromSpecImpl<Record> for TableRow {
    open spec fn obeys_from_spec() -> bool {
        false
    }

    open spec fn from_spec(record: Record) -> TableRow {
        arbitrary()
    }
}

impl core::ops::Index<usize> for TableRow {
    type Output = String;

    /// The text of the column at `index`.
    fn index(&self, index: usize) -> (r: &String)
        ensures
            *r == self.column_values@[index as int],
    {
        &self.column_values[index]
    }
}

impl vstd::std_specs::core::IndexSpecImpl<usize> for TableRow {
    open spec fn index_req(&self, index: &usize) -> bool {
        *index < self.column_values@.len()
    }
}

impl TableRow {
    /// The row as one line of text: its values with one space between
    /// neighbours.
    pub fn to_text(&self) -> (r: String)
        ensures
            r@ == joined_with_spaces(self@.column_values),
    {
        join_with_spaces(&self.column_values)
    }
}

/// The rows of an answer.
#[derive(Debug)]
pub struct TableRows(pub Vec<TableRow>);

/// The text of `rows`: each row's line, closed by a line feed.
pub open spec fn lines_text(rows: Seq<TableRowView>) -> Seq<char>
    decreases rows.len(),
{
    if rows.len() == 0 {
        Seq::empty()
    } else {
        lines_text(rows.drop_last()) + joined_with_spaces(rows.last().column_values) + seq!['\n']
    }
}

impl TableRows {
    /// The answer as text: one line for each row.
    pub fn to_text(&self) -> (r: String)
        ensures
            r@ == lines_text(table_rows_view(self.0@)),
    {
        let ghost rows = table_rows_view(self.0@);
        let mut text = String::new();
        let mut index: usize = 0;
        while index < self.0.len()
            invariant
                index <= self.0@.len(),
                rows == table_rows_view(self.0@),
                text@ == lines_text(rows.take(index as int)),
            decreases self.0@.len() - index,
        {
            let ghost before = text@;
            let line = self.0[index].to_text();
            text.append(line.as_str());
            text.push('\n');
            proof {
                let taken = rows.take(index + 1);
                assert(taken.drop_last() =~= rows.take(index as int));
                assert(taken.last() == self.0@[index as int]@);
                assert(text@ =~= before + line@ + seq!['\n']);
            }
            index = index + 1;
        }
        assert(rows.take(index as int) =~= rows);
        text
    }
}

impl core::ops::Deref for TableRows {
    type Target = [TableRow];

    /// The rows as a slice.
    fn deref(&self) -> (r: &[TableRow])
        ensures
            r@ == self.0@,
    {
        self.0.as_slice()
    }
}

impl From<Vec<TableRow>> for TableRows {
    fn from(rows: Vec<TableRow>) -> (r: TableRows) {
        TableRows(rows)
    }
}

impl vstd::std_specs::convert::FromSpecImpl<Vec<TableRow>> for TableRows {
    open spec fn obeys_from_spec() -> bool {
        true
    }

    open spec fn from_spec(rows: Vec<TableRow>) -> TableRows {
        TableRows(rows)
    }
}

/// The rows that show every value of `records` as text.
pub open spec fn shown_rows(records: Seq<RecordView>) -> Seq<TableRowView> {
    records.map_values(|record: RecordView| shown_row(record))
}

impl From<Vec<Record>> for TableRows {
    /// Shows every value of every record as text.
    fn from(records: Vec<Record>) -> (r: TableRows)
        ensures
            table_rows_view(r.0@) == shown_rows(records_view(records@)),
    {
        let ghost expected = shown_rows(records_view(records@));
        let mut rows: Vec<TableRow> = Vec::new();
        let mut index: usize = 0;
        assert(table_rows_view(rows@) =~= expected.take(0));
        while index < records.len()
            invariant
                index <= records@.len(),
                expected == shown_rows(records_view(records@)),
                table_rows_view(rows@) == expected.take(index as int),
            decreases records@.len() - index,
        {
            let ghost before = rows@;
            let row = show_record(&records[index]);
            rows.push(row);
            assert(records_view(records@)[index as int] == records@[index as int]@);
            assert(table_rows_view(rows@) =~= table_rows_view(before).push(row@));
            assert(table_rows_view(rows@) =~= expected.take(index + 1));
            index = index + 1;
        }
        assert(expected.take(index as int) =~= expected);
        TableRows(rows)
    }
}

/// What `from` returns is stated by its own contract, over the rows' views;
/// as a function on values the conversion is left open.
impl vstd::std_specs::convert::FromSpecImpl<Vec<Record>> for TableRows {
    open spec fn obeys_from_spec() -> bool {
        false
    }

    open spec fn from_spec(records: Vec<Record>) -> TableRows {
        arbitrary()
    }
}

/// The rows of a table as the walk gives them.
#[derive(Debug)]
pub struct Records(pub Vec<Record>);

impl core::ops::Deref for Records {
    type Target = [Record];

    /// The rows as a slice.
    fn deref(&self) -> (r: &[Record])
        ensures
            r@ == self.0@,
    {
        self.0.as_slice()
    }
}

impl From<Vec<Record>> for Records {
    fn from(records: Vec<Record>) -> (r: Records) {
        Records(records)
    }
}

impl vstd::std_specs::convert::FromSpecImpl<Vec<Record>> for Records {
    open spec fn obeys_from_spec() -> bool {
        true
    }

    open spec fn from_spec(records: Vec<Record>) -> Records {
        Records(records)
    }
}

} // verus!
