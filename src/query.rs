use vstd::prelude::*;

use crate::column::Column;
use crate::error::EngineError;
use crate::request_types::{Condition, UpdateColumnRequest};
use crate::row::{cell, null_padded, Row};
use crate::table::{column_keys, find_column, lemma_position_of, position_of, Table, TableView};
use crate::value::Value;

verus! {

/// The texts of a list of strings.
pub open spec fn names_view(names: Seq<String>) -> Seq<Seq<char>> {
    names.map_values(|s: String| s@)
}

/// Positions as mathematical integers.
pub open spec fn indices_view(at: Seq<usize>) -> Seq<int> {
    at.map_values(|i: usize| i as int)
}

/// The values of a list of rows.
pub open spec fn rows_view(rows: Seq<Row>) -> Seq<Seq<Value>> {
    rows.map_values(|r: Row| r@)
}

/// Resolves each name to the position of its column, in order; the first
/// name that names no column is the error.
pub open spec fn resolve_names(keys: Seq<Seq<char>>, names: Seq<Seq<char>>) -> Result<Seq<int>, Seq<char>>
    decreases names.len(),
{
    if names.len() == 0 {
        Ok(Seq::empty())
    } else {
        match resolve_names(keys, names.drop_last()) {
            Err(e) => Err(e),
            Ok(at) => match position_of(keys, names.last()) {
                Some(i) => Ok(at.push(i)),
                None => Err(names.last()),
            },
        }
    }
}

/// Resolved positions are positions of columns, and name those columns.
pub proof fn lemma_resolve_names(keys: Seq<Seq<char>>, names: Seq<Seq<char>>)
    ensures
        resolve_names(keys, names) matches Ok(at) ==> at.len() == names.len() && forall|k: int|
            0 <= k < at.len() ==> 0 <= #[trigger] at[k] < keys.len() && keys[at[k]] == names[k],
    decreases names.len(),
{
    if names.len() > 0 {
        lemma_resolve_names(keys, names.drop_last());
        lemma_position_of(keys, names.last());
    }
}

/// Once a prefix of the names fails to resolve, the whole list fails with
/// the same name.
pub proof fn lemma_resolve_prefix_err(keys: Seq<Seq<char>>, names: Seq<Seq<char>>, j: int)
    requires
        0 <= j <= names.len(),
        resolve_names(keys, names.take(j)) is Err,
    ensures
        resolve_names(keys, names) == resolve_names(keys, names.take(j)),
    decreases names.len(),
{
    if j == names.len() {
        assert(names.take(j) =~= names);
    } else {
        assert(names.drop_last().take(j) =~= names.take(j));
        lemma_resolve_prefix_err(keys, names.drop_last(), j);
    }
}

/// A condition whose column has been resolved: its position and the text
/// the value there must have.
pub open spec fn resolve_condition(keys: Seq<Seq<char>>, condition: Option<Condition>) -> Result<
    Option<(int, Seq<char>)>,
    Seq<char>,
> {
    match condition {
        None => Ok(None),
        Some(c) => match position_of(keys, c.column@) {
            Some(i) => Ok(Some((i, c.value@))),
            None => Err(c.column@),
        },
    }
}

/// A row meets a resolved condition when the string projection of its value
/// at the condition's position is exactly the condition's text; no condition
/// is met by every row.
pub open spec fn condition_holds(row: Seq<Value>, rc: Option<(int, Seq<char>)>) -> bool {
    match rc {
        None => true,
        Some((at, text)) => cell(row, at).projection() == text,
    }
}

/// The values of a row at the given positions, in the order given.
pub open spec fn project(row: Seq<Value>, at: Seq<int>) -> Seq<Value> {
    at.map_values(|i: int| cell(row, i))
}

pub open spec fn condition_of(condition: Option<&Condition>) -> Option<Condition> {
    match condition {
        Some(c) => Some(*c),
        None => None,
    }
}

pub open spec fn meets(rc: Option<(int, Seq<char>)>) -> spec_fn(Seq<Value>) -> bool {
    |r: Seq<Value>| condition_holds(r, rc)
}

/// The rows that meet a resolved condition, in storage order.
pub open spec fn kept_rows(rows: Seq<Seq<Value>>, rc: Option<(int, Seq<char>)>) -> Seq<Seq<Value>> {
    rows.filter(meets(rc))
}

pub open spec fn names_of(columns: Option<Vec<String>>) -> Option<Seq<Seq<char>>> {
    match columns {
        Some(v) => Some(names_view(v@)),
        None => None,
    }
}

/// The resolved condition given by a position found for the condition's
/// column.
pub open spec fn resolved(at: Option<usize>, condition: Option<&Condition>) -> Option<(int, Seq<char>)> {
    match (at, condition) {
        (Some(i), Some(c)) => Some((i as int, c.value@)),
        _ => None,
    }
}

/// What a selection returns: the rows that meet the condition, in storage
/// order, each projected onto the requested columns (all of them, in table
/// order, when `columns` is `None`). The error is the name of a column that
/// does not exist: the condition's column is always resolved; the requested
/// columns are resolved when some row is kept.
pub open spec fn select_spec(
    t: TableView,
    columns: Option<Seq<Seq<char>>>,
    condition: Option<Condition>,
) -> Result<Seq<Seq<Value>>, Seq<char>> {
    let keys = column_keys(t.columns);
    match resolve_condition(keys, condition) {
        Err(e) => Err(e),
        Ok(rc) => {
            let kept = kept_rows(t.rows, rc);
            match columns {
                None => Ok(kept),
                Some(names) => match resolve_names(keys, names) {
                    Ok(at) => Ok(kept.map_values(|r: Seq<Value>| project(r, at))),
                    Err(e) => if kept.len() == 0 {
                        Ok(kept)
                    } else {
                        Err(e)
                    },
                },
            }
        },
    }
}

/// A row after the updates: padded to the schema, then each update's value
/// written, as a string, at its column, in order.
pub open spec fn apply_updates(row: Seq<Value>, at: Seq<int>, values: Seq<String>) -> Seq<Value>
    decreases at.len(),
{
    if at.len() == 0 {
        row
    } else {
        apply_updates(row, at.drop_last(), values.drop_last()).update(
            at.last(),
            Value::Str(values.last()),
        )
    }
}

pub open spec fn update_names(updates: Seq<UpdateColumnRequest>) -> Seq<Seq<char>> {
    updates.map_values(|u: UpdateColumnRequest| u.column@)
}

pub open spec fn update_values(updates: Seq<UpdateColumnRequest>) -> Seq<String> {
    updates.map_values(|u: UpdateColumnRequest| u.value)
}

/// The rows of a table after an update: every row that meets the condition
/// is padded to the schema and overwritten at the updated columns; the
/// others are left as they are. The error is the name of a column that does
/// not exist: update columns are resolved first, then the condition.
pub open spec fn update_spec(
    t: TableView,
    condition: Option<Condition>,
    updates: Seq<UpdateColumnRequest>,
) -> Result<Seq<Seq<Value>>, Seq<char>> {
    let keys = column_keys(t.columns);
    match resolve_names(keys, update_names(updates)) {
        Err(e) => Err(e),
        Ok(at) => match resolve_condition(keys, condition) {
            Err(e) => Err(e),
            Ok(rc) => Ok(
                t.rows.map_values(
                    |r: Seq<Value>|
                        if condition_holds(r, rc) {
                            apply_updates(null_padded(r, t.columns.len() as int), at, update_values(updates))
                        } else {
                            r
                        },
                ),
            ),
        },
    }
}

/// Resolves each name to the position of its column.
pub fn resolve_columns(columns: &Vec<Column>, names: &Vec<String>) -> (r: Result<Vec<usize>, String>)
    ensures
        match resolve_names(column_keys(columns@), names_view(names@)) {
            Ok(at) => r matches Ok(v) && indices_view(v@) == at,
            Err(name) => r matches Err(s) && s@ == name,
        },
{
    let ghost keys = column_keys(columns@);
    let ghost all = names_view(names@);
    let mut out: Vec<usize> = Vec::new();
    let mut i: usize = 0;
    proof {
        assert(all.take(0) =~= Seq::<Seq<char>>::empty());
        assert(indices_view(out@) =~= Seq::<int>::empty());
    }
    while i < names.len()
        invariant
            i <= names@.len(),
            keys == column_keys(columns@),
            all == names_view(names@),
            resolve_names(keys, all.take(i as int)) == Ok::<Seq<int>, Seq<char>>(indices_view(out@)),
        decreases names@.len() - i,
    {
        proof {
            assert(all.take(i as int + 1).drop_last() =~= all.take(i as int));
        }
        match find_column(columns, &names[i]) {
            Some(k) => {
                let ghost before = out@;
                out.push(k);
                proof {
                    assert(indices_view(out@) =~= indices_view(before).push(k as int));
                }
            },
            None => {
                proof {
                    let p = all.take(i as int + 1);
                    assert(resolve_names(keys, p) == Err::<Seq<int>, Seq<char>>(names@[i as int]@));
                    lemma_resolve_prefix_err(keys, all, i as int + 1);
                }
                return Err(names[i].clone());
            },
        }
        i = i + 1;
    }
    proof {
        assert(all.take(i as int) =~= all);
    }
    Ok(out)
}

/// The value at position `i` of a row; `Null` past the row's end.
pub fn cell_value(row: &Row, i: usize) -> (r: Value)
    ensures
        r == cell(row@, i as int),
{
    if i < row.values.len() {
        row.values[i].clone()
    } else {
        Value::Null
    }
}

/// Finds the position of the condition's column, if there is a condition.
pub fn find_condition(columns: &Vec<Column>, condition: Option<&Condition>) -> (r: Result<Option<usize>, String>)
    ensures
        r matches Ok(at) ==> (at is Some <==> condition is Some) && resolve_condition(
            column_keys(columns@),
            condition_of(condition),
        ) == Ok::<Option<(int, Seq<char>)>, Seq<char>>(resolved(at, condition)),
        r matches Err(s) ==> resolve_condition(column_keys(columns@), condition_of(condition))
            == Err::<Option<(int, Seq<char>)>, Seq<char>>(s@),
{
    match condition {
        None => Ok(None),
        Some(c) => match find_column(columns, &c.column) {
            Some(i) => Ok(Some(i)),
            None => Err(c.column.clone()),
        },
    }
}

/// Whether a row meets the condition, its column found at `at`.
pub fn row_meets(row: &Row, at: Option<usize>, condition: Option<&Condition>) -> (r: bool)
    requires
        at is Some <==> condition is Some,
    ensures
        r == condition_holds(row@, resolved(at, condition)),
{
    match (at, condition) {
        (Some(i), Some(c)) => cell_value(row, i).projection_string() == c.value,
        _ => true,
    }
}

/// The values of a row at the given positions, in the order given.
pub fn project_row(row: &Row, at: &Vec<usize>) -> (r: Row)
    ensures
        r@ == project(row@, indices_view(at@)),
{
    let mut values: Vec<Value> = Vec::new();
    let mut k: usize = 0;
    while k < at.len()
        invariant
            k <= at@.len(),
            values@ == project(row@, indices_view(at@).take(k as int)),
        decreases at@.len() - k,
    {
        values.push(cell_value(row, at[k]));
        k = k + 1;
        assert(values@ =~= project(row@, indices_view(at@).take(k as int)));
    }
    assert(indices_view(at@).take(k as int) =~= indices_view(at@));
    Row::new(values)
}

/// Selects the rows of a table that meet the condition, in storage order,
/// projected onto the requested columns in the requested order (`None`: all
/// columns, in table order).
pub fn select_rows(table: &Table, columns: Option<Vec<String>>, condition: Option<&Condition>) -> (r:
    Result<Vec<Row>, EngineError>)
    ensures
        match select_spec(table@, names_of(columns), condition_of(condition)) {
            Ok(rows) => r matches Ok(v) && rows_view(v@) == rows,
            Err(name) => r matches Err(EngineError::ColumnNotFound(s)) && s@ == name,
        },
{
    let at = match find_condition(&table.columns, condition) {
        Ok(at) => at,
        Err(name) => return Err(EngineError::ColumnNotFound(name)),
    };
    let ghost rc = resolved(at, condition);
    let ghost pred = meets(rc);
    let ghost rows = table@.rows;
    let projection: Option<Result<Vec<usize>, String>> = match &columns {
        None => None,
        Some(names) => Some(resolve_columns(&table.columns, names)),
    };
    let mut out: Vec<Row> = Vec::new();
    let mut i: usize = 0;
    proof {
        reveal(Seq::filter);
        assert(rows.take(0) =~= Seq::<Seq<Value>>::empty());
        assert(rows_view(out@) =~= Seq::<Seq<Value>>::empty());
    }
    while i < table.rows.len()
        invariant
            i <= rows.len(),
            rows == table@.rows,
            pred == meets(rc),
            rc == resolved(at, condition),
            at is Some <==> condition is Some,
            resolve_condition(column_keys(table@.columns), condition_of(condition)) == Ok::<
                Option<(int, Seq<char>)>,
                Seq<char>,
            >(rc),
            projection is None <==> columns is None,
            projection matches Some(Ok(p)) ==> resolve_names(
                column_keys(table@.columns),
                names_of(columns)->0,
            ) == Ok::<Seq<int>, Seq<char>>(indices_view(p@)),
            projection matches Some(Err(n)) ==> resolve_names(
                column_keys(table@.columns),
                names_of(columns)->0,
            ) == Err::<Seq<int>, Seq<char>>(n@),
            projection is None ==> rows_view(out@) == rows.take(i as int).filter(pred),
            projection matches Some(Ok(p)) ==> rows_view(out@) == rows.take(i as int).filter(
                pred,
            ).map_values(|r: Seq<Value>| project(r, indices_view(p@))),
            projection matches Some(Err(_)) ==> rows.take(i as int).filter(pred).len() == 0
                && out@.len() == 0,
        decreases rows.len() - i,
    {
        let row = &table.rows[i];
        let ghost before = out@;
        proof {
            reveal(Seq::filter);
            assert(rows.take(i as int + 1).drop_last() =~= rows.take(i as int));
            assert(rows[i as int] == row@);
        }
        if row_meets(row, at, condition) {
            match &projection {
                None => {
                    out.push(row.clone());
                    assert(rows_view(out@) =~= rows_view(before).push(row@));
                },
                Some(Ok(p)) => {
                    out.push(project_row(row, p));
                    assert(rows_view(out@) =~= rows_view(before).push(
                        project(row@, indices_view(p@)),
                    ));
                },
                Some(Err(name)) => {
                    proof {
                        let a = rows.take(i as int + 1);
                        let b = rows.skip(i as int + 1);
                        assert(pred(row@));
                        assert(a.last() == row@);
                        assert(a.filter(pred).len() > 0);
                        assert(rows =~= a + b);
                        Seq::filter_distributes_over_add(a, b, pred);
                        assert(rows.filter(pred).len() > 0);
                    }
                    return Err(EngineError::ColumnNotFound(name.clone()));
                },
            }
        }
        i = i + 1;
    }
    proof {
        assert(rows.take(i as int) =~= rows);
    }
    Ok(out)
}

/// The number of rows an update touches: those that meet its condition.
pub open spec fn update_count(t: TableView, condition: Option<Condition>) -> nat {
    match resolve_condition(column_keys(t.columns), condition) {
        Ok(rc) => kept_rows(t.rows, rc).len(),
        Err(_) => 0,
    }
}

/// A row padded to `n` values, then overwritten with each update's value,
/// as a string, at its resolved position.
pub fn updated_row(row: &Row, n: usize, at: &Vec<usize>, updates: &Vec<UpdateColumnRequest>) -> (r: Row)
    requires
        row@.len() <= n,
        at@.len() == updates@.len(),
        forall|k: int| 0 <= k < at@.len() ==> #[trigger] at@[k] < n,
    ensures
        r@ == apply_updates(null_padded(row@, n as int), indices_view(at@), update_values(updates@)),
        r@.len() == n,
{
    let mut values: Vec<Value> = Vec::new();
    let mut j: usize = 0;
    while j < n
        invariant
            j <= n,
            row@.len() <= n,
            values@ == null_padded(row@, n as int).take(j as int),
        decreases n - j,
    {
        values.push(cell_value(row, j));
        j = j + 1;
        assert(values@ =~= null_padded(row@, n as int).take(j as int));
    }
    let ghost padded = null_padded(row@, n as int);
    assert(padded.take(n as int) =~= padded);
    let ghost ats = indices_view(at@);
    let ghost vals = update_values(updates@);
    let mut k: usize = 0;
    assert(ats.take(0) =~= Seq::<int>::empty());
    while k < at.len()
        invariant
            k <= at@.len(),
            at@.len() == updates@.len(),
            forall|q: int| 0 <= q < at@.len() ==> #[trigger] at@[q] < n,
            ats == indices_view(at@),
            vals == update_values(updates@),
            values@.len() == n,
            values@ == apply_updates(padded, ats.take(k as int), vals.take(k as int)),
        decreases at@.len() - k,
    {
        proof {
            assert(ats.take(k as int + 1).drop_last() =~= ats.take(k as int));
            assert(vals.take(k as int + 1).drop_last() =~= vals.take(k as int));
        }
        values.set(at[k], Value::Str(updates[k].value.clone()));
        k = k + 1;
    }
    proof {
        assert(ats.take(k as int) =~= ats);
        assert(vals.take(k as int) =~= vals);
    }
    Row::new(values)
}

/// The names of the columns that an update list writes.
fn update_columns(updates: &Vec<UpdateColumnRequest>) -> (r: Vec<String>)
    ensures
        names_view(r@) == update_names(updates@),
{
    let mut names: Vec<String> = Vec::new();
    let mut k: usize = 0;
    while k < updates.len()
        invariant
            k <= updates@.len(),
            names_view(names@) == update_names(updates@).take(k as int),
        decreases updates@.len() - k,
    {
        let ghost before = names@;
        names.push(updates[k].column.clone());
        assert(names_view(names@) =~= names_view(before).push(updates@[k as int].column@));
        k = k + 1;
        assert(names_view(names@) =~= update_names(updates@).take(k as int));
    }
    assert(update_names(updates@).take(k as int) =~= update_names(updates@));
    names
}

/// Overwrites, in every row that meets the condition, the updated columns
/// with the updates' values (always as strings); a row shorter than the
/// schema is first padded with `Null`. The rows are rebuilt and replaced as
/// a whole. Returns how many rows were updated.
pub fn update_rows(table: &mut Table, condition: Option<&Condition>, updates: &Vec<UpdateColumnRequest>) -> (r:
    Result<usize, EngineError>)
    requires
        old(table)@.wf(),
    ensures
        match update_spec(old(table)@, condition_of(condition), updates@) {
            Ok(rows) => r == Ok::<usize, EngineError>(update_count(old(table)@, condition_of(condition)) as usize)
                && final(table)@ == (TableView { rows, ..old(table)@ }),
            Err(name) => r matches Err(EngineError::ColumnNotFound(s)) && s@ == name && *final(table)
                == *old(table),
        },
        final(table)@.wf(),
{
    let names = update_columns(updates);
    let at_vec = match resolve_columns(&table.columns, &names) {
        Ok(v) => v,
        Err(name) => return Err(EngineError::ColumnNotFound(name)),
    };
    let at = match find_condition(&table.columns, condition) {
        Ok(at) => at,
        Err(name) => return Err(EngineError::ColumnNotFound(name)),
    };
    let ghost keys = column_keys(table@.columns);
    let ghost rc = resolved(at, condition);
    let ghost pred = meets(rc);
    let ghost rows = table@.rows;
    let ghost ats = indices_view(at_vec@);
    let ghost vals = update_values(updates@);
    let n = table.columns.len();
    let ghost f = |r: Seq<Value>|
        if condition_holds(r, rc) {
            apply_updates(null_padded(r, n as int), ats, vals)
        } else {
            r
        };
    proof {
        lemma_resolve_names(keys, update_names(updates@));
        assert forall|q: int| 0 <= q < at_vec@.len() implies #[trigger] at_vec@[q] < n by {
            assert(ats[q] == at_vec@[q] as int);
        }
    }
    let mut new_rows: Vec<Row> = Vec::new();
    let mut count: usize = 0;
    let mut i: usize = 0;
    proof {
        reveal(Seq::filter);
        assert(rows.take(0) =~= Seq::<Seq<Value>>::empty());
        assert(rows_view(new_rows@) =~= Seq::<Seq<Value>>::empty());
    }
    while i < table.rows.len()
        invariant
            i <= rows.len(),
            rows == table@.rows,
            *table == *old(table),
            old(table)@.wf(),
            n == table@.columns.len(),
            pred == meets(rc),
            at is Some <==> condition is Some,
            rc == resolved(at, condition),
            at_vec@.len() == updates@.len(),
            forall|q: int| 0 <= q < at_vec@.len() ==> #[trigger] at_vec@[q] < n,
            ats == indices_view(at_vec@),
            vals == update_values(updates@),
            f == (|r: Seq<Value>|
                if condition_holds(r, rc) {
                    apply_updates(null_padded(r, n as int), ats, vals)
                } else {
                    r
                }),
            rows_view(new_rows@) == rows.take(i as int).map_values(f),
            count == rows.take(i as int).filter(pred).len(),
            forall|q: int| 0 <= q < new_rows@.len() ==> (#[trigger] new_rows@[q])@.len() <= n,
        decreases rows.len() - i,
    {
        let row = &table.rows[i];
        let ghost before = new_rows@;
        proof {
            reveal(Seq::filter);
            assert(rows.take(i as int + 1).drop_last() =~= rows.take(i as int));
            assert(rows[i as int] == row@);
            assert(row@.len() <= n);
            rows.take(i as int).lemma_filter_len(pred);
        }
        if row_meets(row, at, condition) {
            new_rows.push(updated_row(row, n, &at_vec, updates));
            count = count + 1;
        } else {
            new_rows.push(row.clone());
        }
        assert(rows_view(new_rows@) =~= rows_view(before).push(f(row@)));
        assert(rows.take(i as int + 1).map_values(f) =~= rows.take(i as int).map_values(f).push(f(row@)));
        i = i + 1;
    }
    proof {
        assert(rows.take(i as int) =~= rows);
    }
    table.rows = new_rows;
    proof {
        assert(table@.rows =~= rows.map_values(f));
    }
    Ok(count)
}

} // verus!
