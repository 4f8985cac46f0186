use vstd::prelude::*;

use crate::error::EngineError;

verus! {

/// A keyed value carrying the same constraint flags as a column.
#[derive(Debug)]
pub struct Entry {
    pub key: String,
    pub value: String,
    pub primary_key: bool,
    pub non_null: bool,
    pub unique: bool,
    pub foreign_key: Option<Vec<Box<Entry>>>,
}

/// A primary-key entry must be non-null, have a non-empty value, and be
/// unique.
pub open spec fn entry_constraints_hold(value: Seq<char>, primary_key: bool, non_null: bool, unique: bool) -> bool {
    primary_key ==> (non_null && value.len() > 0 && unique)
}

impl Entry {
    /// Creates an entry, refusing a primary key that is null, empty or not
    /// unique.
    pub fn new(
        key: String,
        value: String,
        primary_key: bool,
        non_null: bool,
        unique: bool,
        foreign_key: Option<Vec<Box<Entry>>>,
    ) -> (r: Result<Entry, EngineError>)
        ensures
            entry_constraints_hold(value@, primary_key, non_null, unique) <==> r is Ok,
            r matches Ok(e) ==> e == (Entry { key, value, primary_key, non_null, unique, foreign_key }),
            r matches Err(e) ==> e == EngineError::ConstraintViolation,
    {
        if primary_key && (!non_null || value.as_str().is_empty()) {
            return Err(EngineError::ConstraintViolation);
        }
        if primary_key && !unique {
            return Err(EngineError::ConstraintViolation);
        }
        Ok(Entry { key, value, primary_key, non_null, unique, foreign_key })
    }
}

} // verus!
