use vstd::prelude::*;

use crate::value::Value;

verus! {

/// A row: values aligned by position with the owning table's columns.
#[derive(Debug)]
pub struct Row {
    pub values: Vec<Value>,
}

impl View for Row {
    type V = Seq<Value>;

    open spec fn view(&self) -> Seq<Value> {
        self.values@
    }
}

/// The value at position `i` of a row; a position past the row's end reads
/// as `Null`.
pub open spec fn cell(row: Seq<Value>, i: int) -> Value {
    if 0 <= i < row.len() {
        row[i]
    } else {
        Value::Null
    }
}

/// A row right-padded with `Null` up to `n` values.
pub open spec fn null_padded(row: Seq<Value>, n: int) -> Seq<Value> {
    row + Seq::new((n - row.len()) as nat, |_i: int| Value::Null)
}

impl Row {
    pub fn new(values: Vec<Value>) -> (r: Row)
        ensures
            r@ == values@,
    {
        Row { values }
    }

    /// Appends a value at the end of the row.
    pub fn add_value(&mut self, value: Value)
        ensures
            final(self)@ == old(self)@.push(value),
    {
        self.values.push(value);
    }

    /// The string projection of every value, in order (`""` for `Null`).
    pub fn string_values(&self) -> (r: Vec<String>)
        ensures
            r@.len() == self@.len(),
            forall|i: int| 0 <= i < r@.len() ==> #[trigger] r@[i]@ == self@[i].projection(),
    {
        let mut out: Vec<String> = Vec::new();
        let mut i: usize = 0;
        while i < self.values.len()
            invariant
                i <= self@.len(),
                out@.len() == i,
                forall|j: int| 0 <= j < i ==> #[trigger] out@[j]@ == self@[j].projection(),
            decreases self@.len() - i,
        {
            out.push(self.values[i].projection_string());
            i = i + 1;
        }
        out
    }
}

impl Clone for Row {
    fn clone(&self) -> (r: Self)
        ensures
            r@ == self@,
    {
        let mut values: Vec<Value> = Vec::new();
        let mut i: usize = 0;
        while i < self.values.len()
            invariant
                i <= self@.len(),
                values@ == self@.subrange(0, i as int),
            decreases self@.len() - i,
        {
            values.push(self.values[i].clone());
            i = i + 1;
            assert(values@ =~= self@.subrange(0, i as int));
        }
        assert(values@ =~= self@);
        Row { values }
    }
}

} // verus!
