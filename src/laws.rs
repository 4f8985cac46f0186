//! General properties of the engine, stated over the models that the
//! operations' contracts use.
use vstd::prelude::*;

use crate::request_types::{Condition, UpdateColumnRequest};
use crate::query::{
    apply_updates, condition_holds, kept_rows, meets, project, resolve_condition, resolve_names,
    select_spec, update_names, update_spec, update_values,
};
use crate::row::{cell, null_padded};
use crate::table::{column_keys, TableView};
use crate::value::Value;

verus! {

/// A row padded with `Null` to `n` values has exactly `n` values: its own
/// first, then `Null` in each of the remaining positions.
pub proof fn lemma_null_padded(row: Seq<Value>, n: int)
    requires
        row.len() <= n,
    ensures
        null_padded(row, n).len() == n,
        forall|i: int| 0 <= i < row.len() ==> #[trigger] null_padded(row, n)[i] == row[i],
        forall|i: int| row.len() <= i < n ==> #[trigger] null_padded(row, n)[i] == Value::Null,
{
}

proof fn lemma_filter_all(rows: Seq<Seq<Value>>)
    ensures
        rows.filter(meets(None)) == rows,
    decreases rows.len(),
{
    reveal(Seq::filter);
    if rows.len() > 0 {
        lemma_filter_all(rows.drop_last());
        assert(rows.drop_last().push(rows.last()) =~= rows);
    }
}

/// Selecting every column with no condition returns every row, in storage
/// order, with its values in table-column order.
pub proof fn lemma_select_all(t: TableView)
    ensures
        select_spec(t, None, None) == Ok::<Seq<Seq<Value>>, Seq<char>>(t.rows),
{
    lemma_filter_all(t.rows);
}

/// Selecting the columns `[c2, c1]` returns, for each row, its value at `c2`
/// and then its value at `c1`: the requested order, not the table's.
pub proof fn lemma_select_projection_order(t: TableView, c1: Seq<char>, c2: Seq<char>)
    requires
        t.column_index(c1) is Some,
        t.column_index(c2) is Some,
    ensures
        select_spec(t, Some(seq![c2, c1]), None) == Ok::<Seq<Seq<Value>>, Seq<char>>(
            t.rows.map_values(
                |r: Seq<Value>|
                    seq![cell(r, t.column_index(c2)->0), cell(r, t.column_index(c1)->0)],
            ),
        ),
{
    let keys = column_keys(t.columns);
    let i1 = t.column_index(c1)->0;
    let i2 = t.column_index(c2)->0;
    let names = seq![c2, c1];
    assert(names.drop_last() =~= seq![c2]);
    assert(seq![c2].drop_last() =~= Seq::<Seq<char>>::empty());
    assert(resolve_names(keys, seq![c2]) == Ok::<Seq<int>, Seq<char>>(seq![i2])) by {
        assert(resolve_names(keys, Seq::<Seq<char>>::empty()) == Ok::<Seq<int>, Seq<char>>(Seq::<int>::empty()));
        assert(seq![c2].last() == c2);
        assert(Seq::<int>::empty().push(i2) =~= seq![i2]);
    }
    assert(resolve_names(keys, names) == Ok::<Seq<int>, Seq<char>>(seq![i2, i1])) by {
        assert(seq![i2].push(i1) =~= seq![i2, i1]);
    }
    lemma_filter_all(t.rows);
    let at = seq![i2, i1];
    assert forall|r: Seq<Value>| project(r, at) == seq![cell(r, i2), cell(r, i1)] by {
        assert(project(r, at) =~= seq![cell(r, i2), cell(r, i1)]);
    }
    assert(t.rows.map_values(|r: Seq<Value>| project(r, at)) =~= t.rows.map_values(
        |r: Seq<Value>| seq![cell(r, i2), cell(r, i1)],
    ));
}

/// A condition on an existing column keeps exactly the rows whose value
/// there has the condition's text as its string projection; a `Null` value
/// never meets a condition with a non-empty text.
pub proof fn lemma_condition_matching(t: TableView, condition: Condition)
    requires
        t.column_index(condition.column@) is Some,
    ensures
        ({
            let at = t.column_index(condition.column@)->0;
            let text = condition.value@;
            select_spec(t, None, Some(condition)) matches Ok(rows) && (forall|q: int|
                0 <= q < rows.len() ==> cell(#[trigger] rows[q], at).projection() == text) && (forall|
                j: int,
            |
                0 <= j < t.rows.len() && cell(#[trigger] t.rows[j], at).projection() == text
                    ==> rows.contains(t.rows[j])) && (text.len() > 0 ==> forall|q: int|
                0 <= q < rows.len() ==> cell(#[trigger] rows[q], at) != Value::Null)
        }),
{
    let at = t.column_index(condition.column@)->0;
    let rc = Some((at, condition.value@));
    let pred = meets(rc);
    let rows = kept_rows(t.rows, rc);
    assert forall|q: int| 0 <= q < rows.len() implies cell(#[trigger] rows[q], at).projection()
        == condition.value@ by {
        t.rows.lemma_filter_pred(pred, q);
    }
    assert forall|j: int|
        0 <= j < t.rows.len() && cell(#[trigger] t.rows[j], at).projection()
            == condition.value@ implies rows.contains(t.rows[j]) by {
        assert(pred(t.rows[j]));
        t.rows.lemma_filter_contains(pred, j);
    }
}

/// The position of the last update that writes position `p`, if any.
pub open spec fn last_write(at: Seq<int>, p: int) -> Option<int>
    decreases at.len(),
{
    if at.len() == 0 {
        None
    } else if at.last() == p {
        Some(at.len() - 1)
    } else {
        last_write(at.drop_last(), p)
    }
}

/// After the updates, each position holds the value of the last update that
/// writes it, and positions that none writes are unchanged.
pub proof fn lemma_apply_updates(row: Seq<Value>, at: Seq<int>, values: Seq<String>)
    requires
        at.len() == values.len(),
        forall|k: int| 0 <= k < at.len() ==> 0 <= #[trigger] at[k] < row.len(),
    ensures
        apply_updates(row, at, values).len() == row.len(),
        forall|p: int|
            0 <= p < row.len() ==> #[trigger] apply_updates(row, at, values)[p] == match last_write(at, p) {
                Some(k) => Value::Str(values[k]),
                None => row[p],
            },
    decreases at.len(),
{
    if at.len() > 0 {
        lemma_apply_updates(row, at.drop_last(), values.drop_last());
        assert forall|p: int| 0 <= p < row.len() implies #[trigger] apply_updates(row, at, values)[p]
            == match last_write(at, p) {
            Some(k) => Value::Str(values[k]),
            None => row[p],
        } by {
            if at.last() != p {
                match last_write(at.drop_last(), p) {
                    Some(k) => {
                        lemma_last_write_bounds(at.drop_last(), p);
                        assert(values.drop_last()[k] == values[k]);
                    },
                    None => {},
                }
            }
        }
    }
}

/// An update leaves every row that does not meet its condition as it was,
/// and in every row that does (every row, when there is no condition) sets
/// each position to the value of the last update that writes it, keeping
/// the row's other values (`Null` past the end it had).
pub proof fn lemma_update_scoping(
    t: TableView,
    condition: Option<Condition>,
    updates: Seq<UpdateColumnRequest>,
)
    requires
        t.wf(),
        update_spec(t, condition, updates) is Ok,
    ensures
        ({
            let keys = column_keys(t.columns);
            let rows = update_spec(t, condition, updates)->Ok_0;
            let at = resolve_names(keys, update_names(updates))->Ok_0;
            let rc = resolve_condition(keys, condition)->Ok_0;
            &&& rows.len() == t.rows.len()
            &&& forall|j: int|
                0 <= j < t.rows.len() && !condition_holds(t.rows[j], rc) ==> #[trigger] rows[j]
                    == t.rows[j]
            &&& forall|j: int, p: int|
                0 <= j < t.rows.len() && 0 <= p < t.columns.len() && (condition is None
                    || condition_holds(t.rows[j], rc)) ==> #[trigger] rows[j][p] == match last_write(at, p) {
                    Some(k) => Value::Str(updates[k].value),
                    None => cell(t.rows[j], p),
                }
        }),
{
    let keys = column_keys(t.columns);
    let at = resolve_names(keys, update_names(updates))->Ok_0;
    let rc = resolve_condition(keys, condition)->Ok_0;
    let rows = update_spec(t, condition, updates)->Ok_0;
    let n = t.columns.len() as int;
    let values = update_values(updates);
    crate::query::lemma_resolve_names(keys, update_names(updates));
    assert forall|j: int, p: int|
        0 <= j < t.rows.len() && 0 <= p < n && (condition is None || condition_holds(
            t.rows[j],
            rc,
        )) implies #[trigger] rows[j][p] == match last_write(at, p) {
        Some(k) => Value::Str(updates[k].value),
        None => cell(t.rows[j], p),
    } by {
        let r = t.rows[j];
        lemma_apply_updates(null_padded(r, n), at, values);
        match last_write(at, p) {
            Some(k) => {
                lemma_last_write_bounds(at, p);
            },
            None => {},
        }
    }
}

proof fn lemma_last_write_bounds(at: Seq<int>, p: int)
    ensures
        last_write(at, p) matches Some(k) ==> 0 <= k < at.len() && at[k] == p,
    decreases at.len(),
{
    if at.len() > 0 && at.last() != p {
        lemma_last_write_bounds(at.drop_last(), p);
    }
}

} // verus!
