use vstd::prelude::*;

use crate::column::Column;
use crate::row::Row;

verus! {

/// A request to create an empty table.
#[derive(Debug)]
pub struct CreateRequests {
    pub name: String,
}

/// A request to create a table together with its columns.
#[derive(Debug)]
pub struct CreateTableRequests {
    pub name: String,
    pub insert_column_requests: Vec<InsertColumnRequest>,
}

impl CreateTableRequests {
    /// A request for a table with the given name and no columns.
    pub fn new(name: String) -> (r: CreateTableRequests)
        ensures
            r.name == name,
            r.insert_column_requests@.len() == 0,
    {
        CreateTableRequests { name, insert_column_requests: Vec::new() }
    }
}

/// A request to drop a table.
#[derive(Debug)]
pub struct DropTableRequest {
    pub name: String,
}

/// A request to rename a table.
#[derive(Debug)]
pub struct RenameTableRequest {
    pub current_name: String,
    pub new_name: String,
}

/// A request to add a column to a table.
#[derive(Debug)]
pub struct InsertColumnRequest {
    pub table_name: String,
    pub key: String,
    pub primary_key: bool,
    pub non_null: bool,
    pub unique: bool,
    pub foreign_key: Option<Vec<Column>>,
}

/// A request to add a row to a table.
#[derive(Debug)]
pub struct InsertRowRequest {
    pub table_name: String,
    pub row: Row,
}

/// A request to select rows; `columns == None` selects every column.
#[derive(Debug)]
pub struct SelectRequest {
    pub columns: Option<Vec<String>>,
    pub table_name: String,
    pub condition: Option<Condition>,
}

/// An equality condition: the row's value at `column`, as a string, must
/// equal `value`.
#[derive(Debug)]
pub struct Condition {
    pub column: String,
    pub value: String,
}

/// A request to update the rows of a table that meet a condition.
#[derive(Debug)]
pub struct UpdateRequest {
    pub table_name: String,
    pub condition: Option<Condition>,
    pub updates: Vec<UpdateColumnRequest>,
}

/// One column to overwrite, with its new (textual) value.
#[derive(Debug)]
pub struct UpdateColumnRequest {
    pub column: String,
    pub value: String,
}

} // verus!
