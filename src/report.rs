//! The human-readable HTML listing of every table.
use vstd::prelude::*;

use crate::column::Column;
use crate::state::tables_view;
use crate::table::{Table, TableView};
use crate::value::Value;

verus! {

pub const PAGE_START: &'static str = "
        <!DOCTYPE html>
        <html>
        <head>
            <title>Database Tables</title>
            <style>
                body { font-family: Arial, sans-serif; }
                table { width: 100%; border-collapse: collapse; }
                th, td { padding: 8px; text-align: left; border-bottom: 1px solid #ddd; }
                th { background-color: #f2f2f2; }
             .label { font-size: 10px; color: #666; }
            </style>
        </head>
        <body>
            <h1>Database Tables</h1>
    ";

pub const PAGE_END: &'static str = "
            </body>
        </html>
    ";

pub const TABLE_START: &'static str = "
            <h2>";

pub const TABLE_HEADER: &'static str = "</h2>
            <table>
                <tr>
        ";

pub const COLUMN_START: &'static str = "
                    <th style=\"border-right: 1px solid #ddd;\"><span style=\"float: left;\">";

pub const COLUMN_LABELS: &'static str = "</span><span class=\"label\" style=\"float: right;\">";

pub const COLUMN_END: &'static str = "</span></th>
            ";

pub const HEADER_END: &'static str = "
                </tr>
        ";

pub const ROW_START: &'static str = "
                <tr>
            ";

pub const CELL_START: &'static str = "
                    <td style=\"border-right: 1px solid #ddd;\">";

pub const CELL_END: &'static str = "</td>
                ";

pub const ROW_END: &'static str = "
                </tr>
            ";

pub const TABLE_END: &'static str = "
            </table>
        ";

pub const PRIMARY: &'static str = "Primary";

pub const UNIQUE: &'static str = "Unique";

pub const NON_NULL: &'static str = "Non-Null";

pub const SEPARATOR: &'static str = ", ";

/// The constraint labels of a column, in the order primary, unique,
/// non-null, separated by `", "`.
pub open spec fn labels_of(c: Column) -> Seq<char> {
    let first = if c.primary_key {
        PRIMARY@
    } else {
        Seq::empty()
    };
    let second = if c.unique {
        if first.len() > 0 {
            first + SEPARATOR@ + UNIQUE@
        } else {
            UNIQUE@
        }
    } else {
        first
    };
    if c.non_null {
        if second.len() > 0 {
            second + SEPARATOR@ + NON_NULL@
        } else {
            NON_NULL@
        }
    } else {
        second
    }
}

pub open spec fn column_html(c: Column) -> Seq<char> {
    COLUMN_START@ + c.key@ + COLUMN_LABELS@ + labels_of(c) + COLUMN_END@
}

pub open spec fn columns_html(columns: Seq<Column>) -> Seq<char>
    decreases columns.len(),
{
    if columns.len() == 0 {
        Seq::empty()
    } else {
        columns_html(columns.drop_last()) + column_html(columns.last())
    }
}

pub open spec fn cells_html(values: Seq<Value>) -> Seq<char>
    decreases values.len(),
{
    if values.len() == 0 {
        Seq::empty()
    } else {
        cells_html(values.drop_last()) + CELL_START@ + values.last().projection() + CELL_END@
    }
}

pub open spec fn rows_html(rows: Seq<Seq<Value>>) -> Seq<char>
    decreases rows.len(),
{
    if rows.len() == 0 {
        Seq::empty()
    } else {
        rows_html(rows.drop_last()) + ROW_START@ + cells_html(rows.last()) + ROW_END@
    }
}

pub open spec fn table_html(t: TableView) -> Seq<char> {
    TABLE_START@ + t.name + TABLE_HEADER@ + columns_html(t.columns) + HEADER_END@ + rows_html(t.rows) + TABLE_END@
}

pub open spec fn tables_html(tables: Seq<TableView>) -> Seq<char>
    decreases tables.len(),
{
    if tables.len() == 0 {
        Seq::empty()
    } else {
        tables_html(tables.drop_last()) + table_html(tables.last())
    }
}

/// The whole page: every table with its columns (and their constraint
/// labels) and the string projection of every value.
pub open spec fn page_html(tables: Seq<TableView>) -> Seq<char> {
    PAGE_START@ + tables_html(tables) + PAGE_END@
}

fn column_labels(c: &Column) -> (r: String)
    ensures
        r@ == labels_of(*c),
{
    let mut out = String::new();
    if c.primary_key {
        out.append(PRIMARY);
    }
    if c.unique {
        if out.as_str().is_empty() {
            out.append(UNIQUE);
        } else {
            out.append(SEPARATOR);
            out.append(UNIQUE);
        }
    }
    if c.non_null {
        if out.as_str().is_empty() {
            out.append(NON_NULL);
        } else {
            out.append(SEPARATOR);
            out.append(NON_NULL);
        }
    }
    assert(out@ =~= labels_of(*c));
    out
}

fn append_table(out: &mut String, t: &Table)
    ensures
        final(out)@ == old(out)@ + table_html(t@),
{
    let ghost start = out@;
    out.append(TABLE_START);
    out.append(t.name.as_str());
    out.append(TABLE_HEADER);
    let ghost head = out@;
    let mut i: usize = 0;
    while i < t.columns.len()
        invariant
            i <= t@.columns.len(),
            out@ == head + columns_html(t@.columns.take(i as int)),
        decreases t@.columns.len() - i,
    {
        let c = &t.columns[i];
        out.append(COLUMN_START);
        out.append(c.key.as_str());
        out.append(COLUMN_LABELS);
        out.append(column_labels(c).as_str());
        out.append(COLUMN_END);
        proof {
            assert(t@.columns.take(i as int + 1).drop_last() =~= t@.columns.take(i as int));
        }
        i = i + 1;
        assert(out@ =~= head + columns_html(t@.columns.take(i as int)));
    }
    assert(t@.columns.take(i as int) =~= t@.columns);
    out.append(HEADER_END);
    let ghost body = out@;
    let mut k: usize = 0;
    while k < t.rows.len()
        invariant
            k <= t@.rows.len(),
            out@ == body + rows_html(t@.rows.take(k as int)),
        decreases t@.rows.len() - k,
    {
        let row = &t.rows[k];
        let ghost row_start = out@;
        out.append(ROW_START);
        let ghost cells_start = out@;
        let mut j: usize = 0;
        while j < row.values.len()
            invariant
                j <= row@.len(),
                out@ == cells_start + cells_html(row@.take(j as int)),
            decreases row@.len() - j,
        {
            out.append(CELL_START);
            out.append(row.values[j].projection_string().as_str());
            out.append(CELL_END);
            proof {
                assert(row@.take(j as int + 1).drop_last() =~= row@.take(j as int));
            }
            j = j + 1;
            assert(out@ =~= cells_start + cells_html(row@.take(j as int)));
        }
        out.append(ROW_END);
        proof {
            assert(row@.take(j as int) =~= row@);
            assert(t@.rows[k as int] == row@);
            assert(t@.rows.take(k as int + 1).drop_last() =~= t@.rows.take(k as int));
        }
        k = k + 1;
        assert(out@ =~= body + rows_html(t@.rows.take(k as int)));
    }
    assert(t@.rows.take(k as int) =~= t@.rows);
    out.append(TABLE_END);
    assert(out@ =~= start + table_html(t@));
}

/// Renders every table as an HTML page.
pub fn format_tables_html(tables: &Vec<Table>) -> (r: String)
    ensures
        r@ == page_html(tables_view(tables@)),
{
    let ghost tv = tables_view(tables@);
    let mut out = String::new();
    out.append(PAGE_START);
    let ghost head = out@;
    let mut i: usize = 0;
    while i < tables.len()
        invariant
            i <= tables@.len(),
            tv == tables_view(tables@),
            out@ == head + tables_html(tv.take(i as int)),
        decreases tables@.len() - i,
    {
        append_table(&mut out, &tables[i]);
        proof {
            assert(tv.take(i as int + 1).drop_last() =~= tv.take(i as int));
            assert(tv[i as int] == tables@[i as int]@);
        }
        i = i + 1;
        assert(out@ =~= head + tables_html(tv.take(i as int)));
    }
    assert(tv.take(i as int) =~= tv);
    out.append(PAGE_END);
    assert(out@ =~= page_html(tv));
    out
}

} // verus!
