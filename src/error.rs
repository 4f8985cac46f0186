use vstd::prelude::*;

verus! {

/// Every way an engine operation can be refused.
#[derive(Debug, PartialEq, Eq)]
pub enum EngineError {
    /// A table with the requested name is already present.
    TableAlreadyExists,
    /// No table carries the requested name.
    TableNotFound,
    /// A column name used by a query or update resolves to no column.
    ColumnNotFound(String),
    /// A column with the same key already exists in the table.
    DuplicateColumn,
    /// A primary-key column must also be non-null and unique.
    ConstraintViolation,
    /// A row holds more values than the table has columns.
    RowArityExceeded,
    /// A row leaves out a value for a non-null column.
    NonNullViolation,
}

} // verus!
