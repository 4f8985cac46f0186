use vstd::prelude::*;

use crate::error::EngineError;

verus! {

/// A column of a table: its key and its constraint flags, plus an optional
/// owned list of columns that describe a referenced (foreign) key.
#[derive(Debug)]
pub struct Column {
    pub key: String,
    pub primary_key: bool,
    pub non_null: bool,
    pub unique: bool,
    pub foreign_key: Option<Vec<Box<Column>>>,
}

/// A primary key must also be non-null and unique.
pub open spec fn constraints_hold(primary_key: bool, non_null: bool, unique: bool) -> bool {
    primary_key ==> (non_null && unique)
}

impl Column {
    pub open spec fn valid(self) -> bool {
        constraints_hold(self.primary_key, self.non_null, self.unique)
    }

    /// Creates a column, refusing a primary key that is not both non-null and
    /// unique.
    pub fn new(
        key: String,
        primary_key: bool,
        non_null: bool,
        unique: bool,
        foreign_key: Option<Vec<Box<Column>>>,
    ) -> (r: Result<Column, EngineError>)
        ensures
            constraints_hold(primary_key, non_null, unique) <==> r is Ok,
            r matches Ok(c) ==> c == (Column { key, primary_key, non_null, unique, foreign_key }),
            r matches Err(e) ==> e == EngineError::ConstraintViolation,
    {
        if primary_key && !(non_null && unique) {
            Err(EngineError::ConstraintViolation)
        } else {
            Ok(Column { key, primary_key, non_null, unique, foreign_key })
        }
    }
}

} // verus!
