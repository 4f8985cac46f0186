use vstd::prelude::*;

use crate::column::Column;
use crate::error::EngineError;
use crate::row::{null_padded, Row};
use crate::value::Value;

verus! {

/// A named table: an ordered list of columns (the schema) and a list of rows.
#[derive(Debug)]
pub struct Table {
    pub name: String,
    pub columns: Vec<Column>,
    pub rows: Vec<Row>,
}

/// The mathematical model of a table: its name, its columns and the values
/// of its rows.
pub struct TableView {
    pub name: Seq<char>,
    pub columns: Seq<Column>,
    pub rows: Seq<Seq<Value>>,
}

impl View for Table {
    type V = TableView;

    open spec fn view(&self) -> TableView {
        TableView {
            name: self.name@,
            columns: self.columns@,
            rows: self.rows@.map_values(|r: Row| r@),
        }
    }
}

/// The keys of a list of columns, in order.
pub open spec fn column_keys(columns: Seq<Column>) -> Seq<Seq<char>> {
    columns.map_values(|c: Column| c.key@)
}

/// The position of the first occurrence of `k` in `keys`, if any.
pub open spec fn position_of(keys: Seq<Seq<char>>, k: Seq<char>) -> Option<int>
    decreases keys.len(),
{
    if keys.len() == 0 {
        None
    } else {
        match position_of(keys.drop_last(), k) {
            Some(i) => Some(i),
            None => if keys.last() == k {
                Some(keys.len() - 1)
            } else {
                None
            },
        }
    }
}

/// `position_of` finds the first occurrence, and finds none only where
/// there is none.
pub proof fn lemma_position_of(keys: Seq<Seq<char>>, k: Seq<char>)
    ensures
        position_of(keys, k) matches Some(i) ==> 0 <= i < keys.len() && keys[i] == k
            && forall|j: int| 0 <= j < i ==> keys[j] != k,
        position_of(keys, k) is None ==> forall|j: int| 0 <= j < keys.len() ==> keys[j] != k,
    decreases keys.len(),
{
    if keys.len() > 0 {
        lemma_position_of(keys.drop_last(), k);
        assert(forall|j: int| 0 <= j < keys.len() - 1 ==> keys.drop_last()[j] == keys[j]);
    }
}

/// Every key appears once.
pub open spec fn distinct_keys(keys: Seq<Seq<char>>) -> bool {
    forall|i: int, j: int| 0 <= i < keys.len() && 0 <= j < keys.len() && i != j ==> keys[i] != keys[j]
}

/// Some column at position `from` or later is non-null.
pub open spec fn non_null_from(columns: Seq<Column>, from: int) -> bool {
    exists|j: int| from <= j < columns.len() && #[trigger] columns[j].non_null
}

impl TableView {
    /// Column keys are unique, and no row is longer than the schema.
    pub open spec fn wf(self) -> bool {
        &&& distinct_keys(column_keys(self.columns))
        &&& forall|i: int| 0 <= i < self.rows.len() ==> #[trigger] self.rows[i].len() <= self.columns.len()
    }

    pub open spec fn column_index(self, key: Seq<char>) -> Option<int> {
        position_of(column_keys(self.columns), key)
    }
}

/// Finds the position of the first column whose key is `key`.
pub fn find_column(columns: &Vec<Column>, key: &String) -> (r: Option<usize>)
    ensures
        r matches Some(i) ==> position_of(column_keys(columns@), key@) == Some(i as int)
            && i < columns@.len(),
        r is None ==> position_of(column_keys(columns@), key@) is None,
{
    let ghost keys = column_keys(columns@);
    let mut i: usize = 0;
    while i < columns.len()
        invariant
            i <= columns@.len(),
            keys == column_keys(columns@),
            forall|j: int| 0 <= j < i ==> keys[j] != key@,
        decreases columns@.len() - i,
    {
        if columns[i].key == *key {
            proof {
                assert(keys[i as int] == key@);
                lemma_position_of(keys, key@);
            }
            return Some(i);
        }
        i = i + 1;
    }
    proof {
        lemma_position_of(keys, key@);
    }
    None
}

/// Keys are distinct exactly when each key's first position is its own.
pub proof fn lemma_distinct_by_first_position(keys: Seq<Seq<char>>)
    ensures
        distinct_keys(keys) <==> forall|i: int|
            0 <= i < keys.len() ==> position_of(keys, #[trigger] keys[i]) == Some(i),
{
    assert forall|i: int| 0 <= i < keys.len() implies {
        let p = position_of(keys, #[trigger] keys[i]);
        p matches Some(q) && 0 <= q <= i && keys[q] == keys[i]
    } by {
        lemma_position_of(keys, keys[i]);
    }
    if distinct_keys(keys) {
        assert forall|i: int| 0 <= i < keys.len() implies position_of(keys, #[trigger] keys[i]) == Some(i) by {
            lemma_position_of(keys, keys[i]);
        }
    }
    if forall|i: int| 0 <= i < keys.len() ==> position_of(keys, #[trigger] keys[i]) == Some(i) {
        assert forall|i: int, j: int|
            0 <= i < keys.len() && 0 <= j < keys.len() && i != j implies keys[i] != keys[j] by {
            lemma_position_of(keys, keys[i]);
            lemma_position_of(keys, keys[j]);
        }
    }
}

impl Table {
    pub fn new(name: String) -> (r: Table)
        ensures
            r@.name == name@,
            r@.columns.len() == 0,
            r@.rows.len() == 0,
            r@.wf(),
    {
        Table { name, columns: Vec::new(), rows: Vec::new() }
    }

    /// Whether column keys are unique and no row is longer than the schema.
    pub fn is_well_formed(&self) -> (r: bool)
        ensures
            r == self@.wf(),
    {
        let ghost keys = column_keys(self@.columns);
        proof {
            lemma_distinct_by_first_position(keys);
        }
        let mut i: usize = 0;
        while i < self.columns.len()
            invariant
                i <= self@.columns.len(),
                keys == column_keys(self@.columns),
                forall|j: int| 0 <= j < i ==> position_of(keys, #[trigger] keys[j]) == Some(j),
            decreases self@.columns.len() - i,
        {
            proof {
                assert(keys[i as int] == self.columns@[i as int].key@);
                lemma_distinct_by_first_position(keys);
            }
            match find_column(&self.columns, &self.columns[i].key) {
                Some(p) => {
                    if p != i {
                        assert(position_of(keys, keys[i as int]) != Some(i as int));
                        return false;
                    }
                },
                None => {
                    assert(position_of(keys, keys[i as int]) != Some(i as int));
                    return false;
                },
            }
            i = i + 1;
        }
        proof {
            lemma_distinct_by_first_position(keys);
        }
        let n = self.columns.len();
        let mut k: usize = 0;
        while k < self.rows.len()
            invariant
                k <= self@.rows.len(),
                n == self@.columns.len(),
                distinct_keys(keys),
                keys == column_keys(self@.columns),
                forall|j: int| 0 <= j < k ==> #[trigger] self@.rows[j].len() <= n,
            decreases self@.rows.len() - k,
        {
            if self.rows[k].values.len() > n {
                assert(self@.rows[k as int] == self.rows@[k as int]@);
                return false;
            }
            k = k + 1;
        }
        true
    }

    /// Appends a column, refusing one whose key is already in use.
    pub fn add_column(&mut self, column: Column) -> (r: Result<(), EngineError>)
        ensures
            old(self)@.column_index(column.key@) is Some <==> r is Err,
            r is Err ==> r == Err::<(), EngineError>(EngineError::DuplicateColumn) && *final(self) == *old(self),
            r is Ok ==> final(self)@ == (TableView {
                columns: old(self)@.columns.push(column),
                ..old(self)@
            }),
            old(self)@.wf() ==> final(self)@.wf(),
    {
        if find_column(&self.columns, &column.key).is_some() {
            return Err(EngineError::DuplicateColumn);
        }
        let ghost key = column.key@;
        self.columns.push(column);
        proof {
            let old_keys = column_keys(old(self)@.columns);
            let keys = column_keys(self@.columns);
            lemma_position_of(old_keys, key);
            assert(keys =~= old_keys.push(key));
        }
        Ok(())
    }

    /// Appends a row. A row shorter than the schema is right-padded with
    /// `Null`, unless one of the columns it leaves out is non-null.
    pub fn add_row(&mut self, row: Row) -> (r: Result<(), EngineError>)
        ensures
            row@.len() > old(self)@.columns.len() <==> r == Err::<(), EngineError>(
                EngineError::RowArityExceeded,
            ),
            row@.len() <= old(self)@.columns.len() && non_null_from(old(self)@.columns, row@.len() as int)
                <==> r == Err::<(), EngineError>(EngineError::NonNullViolation),
            r is Ok <==> row@.len() <= old(self)@.columns.len() && !non_null_from(
                old(self)@.columns,
                row@.len() as int,
            ),
            r is Err ==> *final(self) == *old(self),
            r is Ok ==> final(self)@ == (TableView {
                rows: old(self)@.rows.push(null_padded(row@, old(self)@.columns.len() as int)),
                ..old(self)@
            }),
            old(self)@.wf() ==> final(self)@.wf(),
    {
        let n = self.columns.len();
        let m = row.values.len();
        if m > n {
            return Err(EngineError::RowArityExceeded);
        }
        let mut j: usize = m;
        while j < n
            invariant
                m <= j <= n,
                m == row@.len(),
                n == self.columns@.len(),
                *self == *old(self),
                forall|k: int| m <= k < j ==> !(#[trigger] self.columns@[k]).non_null,
            decreases n - j,
        {
            if self.columns[j].non_null {
                assert(self.columns@[j as int].non_null);
                return Err(EngineError::NonNullViolation);
            }
            j = j + 1;
        }
        let mut padded = row;
        let mut k: usize = m;
        while k < n
            invariant
                m <= k <= n,
                m == row@.len(),
                padded@ == row@ + Seq::new((k - m) as nat, |_i: int| Value::Null),
            decreases n - k,
        {
            padded.add_value(Value::Null);
            k = k + 1;
            assert(padded@ =~= row@ + Seq::new((k - m) as nat, |_i: int| Value::Null));
        }
        let ghost new_row = padded@;
        self.rows.push(padded);
        proof {
            assert(new_row =~= null_padded(row@, n as int));
            assert(self@.rows =~= old(self)@.rows.push(new_row));
        }
        Ok(())
    }
}

} // verus!
