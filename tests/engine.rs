use tabledb::column::Column;
use tabledb::entry::Entry;
use tabledb::error::EngineError;
use tabledb::query::{resolve_columns, select_rows, update_rows};
use tabledb::request_types::{
    Condition, CreateTableRequests, InsertColumnRequest, InsertRowRequest, RenameTableRequest,
    SelectRequest, UpdateColumnRequest, UpdateRequest,
};
use tabledb::row::Row;
use tabledb::state::AppState;
use tabledb::table::Table;
use tabledb::value::Value;

fn s(text: &str) -> String {
    text.to_string()
}

fn column(key: &str, primary_key: bool, non_null: bool, unique: bool) -> Column {
    Column::new(s(key), primary_key, non_null, unique, None).unwrap()
}

fn column_request(table: &str, key: &str, primary_key: bool, non_null: bool, unique: bool) -> InsertColumnRequest {
    InsertColumnRequest {
        table_name: s(table),
        key: s(key),
        primary_key,
        non_null,
        unique,
        foreign_key: None,
    }
}

fn condition(column: &str, value: &str) -> Option<Condition> {
    Some(Condition { column: s(column), value: s(value) })
}

fn update(column: &str, value: &str) -> UpdateColumnRequest {
    UpdateColumnRequest { column: s(column), value: s(value) }
}

/// A table with columns c1, c2, c3 (all nullable) and three rows.
fn sample_table() -> Table {
    let mut t = Table::new(s("sample"));
    t.add_column(column("c1", false, false, false)).unwrap();
    t.add_column(column("c2", false, false, false)).unwrap();
    t.add_column(column("c3", false, false, false)).unwrap();
    t.add_row(Row::new(vec![Value::Bool(true), Value::Int(1), Value::Str(s("x"))])).unwrap();
    t.add_row(Row::new(vec![Value::Bool(false), Value::Int(2), Value::Null])).unwrap();
    t.add_row(Row::new(vec![Value::Str(s("true")), Value::Int(3)])).unwrap();
    t
}

fn values_of(rows: &[Row]) -> Vec<Vec<Value>> {
    rows.iter().map(|r| r.values.clone()).collect()
}

#[test]
fn as_string_of_each_kind() {
    assert_eq!(Value::Str(s("abc")).as_string(), Some(s("abc")));
    assert_eq!(Value::Bool(true).as_string(), Some(s("true")));
    assert_eq!(Value::Bool(false).as_string(), Some(s("false")));
    assert_eq!(Value::Int(0).as_string(), Some(s("0")));
    assert_eq!(Value::Int(1234).as_string(), Some(s("1234")));
    assert_eq!(Value::Int(-42).as_string(), Some(s("-42")));
    assert_eq!(Value::Int(i64::MIN).as_string(), Some(s("-9223372036854775808")));
    assert_eq!(Value::Float(27.55f64.to_string()).as_string(), Some(s("27.55")));
    assert_eq!(Value::Null.as_string(), None);
}

#[test]
fn projection_of_null_is_empty() {
    assert_eq!(Value::Null.projection_string(), s(""));
    assert_eq!(Value::Int(7).projection_string(), s("7"));
}

#[test]
fn value_constructors() {
    assert_eq!(Value::from(s("a")), Value::Str(s("a")));
    assert_eq!(Value::from(true), Value::Bool(true));
    assert_eq!(Value::from(13i64), Value::Int(13));
    assert_eq!(Value::from_optional(Some("q")), Value::Str(s("q")));
    assert_eq!(Value::from_optional(None), Value::Null);
}

#[test]
fn row_add_value_and_strings() {
    let mut row = Row::new(vec![Value::Int(5)]);
    row.add_value(Value::Null);
    row.add_value(Value::Bool(true));
    assert_eq!(row.values, vec![Value::Int(5), Value::Null, Value::Bool(true)]);
    assert_eq!(row.string_values(), vec![s("5"), s(""), s("true")]);
    let copy = row.clone();
    assert_eq!(copy.values, row.values);
}

#[test]
fn column_primary_key_needs_non_null() {
    let r = Column::new(s("id"), true, false, true, None);
    assert_eq!(r.unwrap_err(), EngineError::ConstraintViolation);
}

#[test]
fn column_primary_key_needs_unique() {
    let r = Column::new(s("id"), true, true, false, None);
    assert_eq!(r.unwrap_err(), EngineError::ConstraintViolation);
}

#[test]
fn column_valid_combinations() {
    let c = Column::new(s("id"), true, true, true, None).unwrap();
    assert_eq!(c.key, s("id"));
    assert!(c.primary_key && c.non_null && c.unique);
    assert!(Column::new(s("n"), false, false, false, None).is_ok());
    assert!(Column::new(s("n"), false, true, false, None).is_ok());
    let fk = Column::new(s("ref"), false, false, true, Some(vec![Box::new(column("other", false, false, false))]))
        .unwrap();
    assert_eq!(fk.foreign_key.unwrap()[0].key, s("other"));
}

#[test]
fn entry_constraints() {
    assert_eq!(Entry::new(s("k"), s("v"), true, false, true, None).unwrap_err(), EngineError::ConstraintViolation);
    assert_eq!(Entry::new(s("k"), s(""), true, true, true, None).unwrap_err(), EngineError::ConstraintViolation);
    assert_eq!(Entry::new(s("k"), s("v"), true, true, false, None).unwrap_err(), EngineError::ConstraintViolation);
    let e = Entry::new(s("k"), s(""), false, false, false, None).unwrap();
    assert_eq!(e.value, s(""));
    assert!(Entry::new(s("k"), s("v"), true, true, true, None).is_ok());
}

#[test]
fn create_table_request_new_is_empty() {
    let r = CreateTableRequests::new(s("t"));
    assert_eq!(r.name, s("t"));
    assert!(r.insert_column_requests.is_empty());
}

#[test]
fn add_column_refuses_duplicate_key() {
    let mut t = Table::new(s("t"));
    assert!(t.add_column(column("a", false, false, false)).is_ok());
    assert_eq!(t.add_column(column("a", false, true, false)), Err(EngineError::DuplicateColumn));
    assert_eq!(t.columns.len(), 1);
    assert!(!t.columns[0].non_null);
}

#[test]
fn add_row_pads_trailing_nullable_columns() {
    let mut t = Table::new(s("t"));
    t.add_column(column("a", true, true, true)).unwrap();
    t.add_column(column("b", false, false, false)).unwrap();
    t.add_column(column("c", false, false, false)).unwrap();
    assert!(t.add_row(Row::new(vec![Value::Int(1)])).is_ok());
    assert_eq!(t.rows[0].values, vec![Value::Int(1), Value::Null, Value::Null]);
    assert!(t.add_row(Row::new(vec![])).is_err());
}

#[test]
fn add_row_refuses_missing_non_null() {
    let mut t = Table::new(s("t"));
    t.add_column(column("a", false, false, false)).unwrap();
    t.add_column(column("b", false, true, false)).unwrap();
    t.add_column(column("c", false, false, false)).unwrap();
    assert_eq!(t.add_row(Row::new(vec![Value::Int(1)])), Err(EngineError::NonNullViolation));
    assert!(t.rows.is_empty());
    // Only the trailing, missing columns are examined.
    assert!(t.add_row(Row::new(vec![Value::Int(1), Value::Int(2)])).is_ok());
    assert_eq!(t.rows[0].values, vec![Value::Int(1), Value::Int(2), Value::Null]);
}

#[test]
fn add_row_refuses_too_many_values() {
    let mut t = Table::new(s("t"));
    t.add_column(column("a", false, false, false)).unwrap();
    assert_eq!(
        t.add_row(Row::new(vec![Value::Int(1), Value::Int(2)])),
        Err(EngineError::RowArityExceeded)
    );
    assert!(t.rows.is_empty());
}

#[test]
fn add_row_full_length_is_kept_as_is() {
    let mut t = Table::new(s("t"));
    t.add_column(column("a", false, true, false)).unwrap();
    assert!(t.add_row(Row::new(vec![Value::Str(s("v"))])).is_ok());
    assert_eq!(t.rows[0].values, vec![Value::Str(s("v"))]);
}

#[test]
fn well_formedness_check() {
    let t = sample_table();
    assert!(t.is_well_formed());
    let mut bad = Table::new(s("bad"));
    bad.rows.push(Row::new(vec![Value::Null]));
    assert!(!bad.is_well_formed());
    let mut dup = Table::new(s("dup"));
    dup.columns.push(column("a", false, false, false));
    dup.columns.push(column("a", false, false, false));
    assert!(!dup.is_well_formed());
}

#[test]
fn select_all_returns_rows_in_order() {
    let t = sample_table();
    let rows = select_rows(&t, None, None).unwrap();
    assert_eq!(values_of(&rows), values_of(&t.rows));
}

#[test]
fn select_projection_follows_requested_order() {
    let t = sample_table();
    let rows = select_rows(&t, Some(vec![s("c2"), s("c1")]), None).unwrap();
    assert_eq!(
        values_of(&rows),
        vec![
            vec![Value::Int(1), Value::Bool(true)],
            vec![Value::Int(2), Value::Bool(false)],
            vec![Value::Int(3), Value::Str(s("true"))],
        ]
    );
}

#[test]
fn select_condition_matches_string_projection() {
    let t = sample_table();
    let c = condition("c1", "true");
    let rows = select_rows(&t, None, c.as_ref()).unwrap();
    assert_eq!(values_of(&rows), vec![values_of(&t.rows)[0].clone(), values_of(&t.rows)[2].clone()]);
}

#[test]
fn select_null_never_matches_non_empty_text() {
    let t = sample_table();
    let c = condition("c3", "x");
    let rows = select_rows(&t, Some(vec![s("c2")]), c.as_ref()).unwrap();
    assert_eq!(values_of(&rows), vec![vec![Value::Int(1)]]);
    // A missing value reads as Null, whose projection is the empty string.
    let empty = condition("c3", "");
    let rows = select_rows(&t, Some(vec![s("c2")]), empty.as_ref()).unwrap();
    assert_eq!(values_of(&rows), vec![vec![Value::Int(2)], vec![Value::Int(3)]]);
}

#[test]
fn select_unknown_condition_column() {
    let t = sample_table();
    let c = condition("nope", "1");
    let r = select_rows(&t, None, c.as_ref());
    assert_eq!(r.unwrap_err(), EngineError::ColumnNotFound(s("nope")));
}

#[test]
fn select_unknown_projection_column() {
    let t = sample_table();
    let r = select_rows(&t, Some(vec![s("c1"), s("zz")]), None);
    assert_eq!(r.unwrap_err(), EngineError::ColumnNotFound(s("zz")));
    // With no row kept, the projection is never resolved.
    let c = condition("c2", "99");
    let r = select_rows(&t, Some(vec![s("zz")]), c.as_ref()).unwrap();
    assert!(r.is_empty());
}

#[test]
fn resolve_columns_reports_first_missing() {
    let t = sample_table();
    assert_eq!(resolve_columns(&t.columns, &vec![s("c3"), s("c1")]), Ok(vec![2, 0]));
    assert_eq!(resolve_columns(&t.columns, &vec![s("c3"), s("q"), s("r")]), Err(s("q")));
}

#[test]
fn update_without_condition_touches_every_row() {
    let mut t = sample_table();
    let n = update_rows(&mut t, None, &vec![update("c3", "new")]).unwrap();
    assert_eq!(n, 3);
    for row in &t.rows {
        assert_eq!(row.values[2], Value::Str(s("new")));
    }
    // The short third row was padded before being written.
    assert_eq!(t.rows[2].values, vec![Value::Str(s("true")), Value::Int(3), Value::Str(s("new"))]);
}

#[test]
fn update_with_condition_touches_matching_rows_only() {
    let mut t = sample_table();
    let before = values_of(&t.rows);
    let c = condition("c2", "2");
    let n = update_rows(&mut t, c.as_ref(), &vec![update("c1", "9"), update("c3", "z")]).unwrap();
    assert_eq!(n, 1);
    assert_eq!(t.rows[0].values, before[0]);
    assert_eq!(t.rows[1].values, vec![Value::Str(s("9")), Value::Int(2), Value::Str(s("z"))]);
    assert_eq!(t.rows[2].values, before[2]);
}

#[test]
fn update_last_write_wins() {
    let mut t = sample_table();
    let c = condition("c2", "1");
    update_rows(&mut t, c.as_ref(), &vec![update("c1", "first"), update("c1", "second")]).unwrap();
    assert_eq!(t.rows[0].values[0], Value::Str(s("second")));
}

#[test]
fn update_unknown_column_changes_nothing() {
    let mut t = sample_table();
    let before = values_of(&t.rows);
    let r = update_rows(&mut t, None, &vec![update("c1", "v"), update("missing", "w")]);
    assert_eq!(r, Err(EngineError::ColumnNotFound(s("missing"))));
    assert_eq!(values_of(&t.rows), before);
    let c = condition("gone", "1");
    let r = update_rows(&mut t, c.as_ref(), &vec![update("c1", "v")]);
    assert_eq!(r, Err(EngineError::ColumnNotFound(s("gone"))));
    assert_eq!(values_of(&t.rows), before);
}

#[test]
fn state_create_get_drop() {
    let mut state = AppState::new();
    assert!(state.create(Table::new(s("a"))).is_ok());
    assert!(state.create(Table::new(s("b"))).is_ok());
    assert_eq!(state.create(Table::new(s("a"))), Err(EngineError::TableAlreadyExists));
    assert_eq!(state.get_all().len(), 2);
    assert_eq!(state.get("b").unwrap().name, s("b"));
    assert!(state.get("c").is_none());
    assert!(state.drop_table("a"));
    assert!(!state.drop_table("a"));
    let names: Vec<String> = state.get_all().iter().map(|t| t.name.clone()).collect();
    assert_eq!(names, vec![s("b")]);
}

#[test]
fn state_rename() {
    let mut state = AppState::new();
    state.create(Table::new(s("a"))).unwrap();
    state.create(Table::new(s("b"))).unwrap();
    let rename = |from: &str, to: &str| RenameTableRequest { current_name: s(from), new_name: s(to) };
    assert_eq!(state.rename_table(rename("x", "y")), Err(EngineError::TableNotFound));
    assert_eq!(state.rename_table(rename("a", "b")), Err(EngineError::TableAlreadyExists));
    assert!(state.rename_table(rename("a", "a")).is_ok());
    assert!(state.rename_table(rename("a", "c")).is_ok());
    let names: Vec<String> = state.get_all().iter().map(|t| t.name.clone()).collect();
    assert_eq!(names, vec![s("c"), s("b")]);
}

#[test]
fn state_insert_column_errors() {
    let mut state = AppState::new();
    assert_eq!(state.insert_column(column_request("t", "a", false, false, false)), Err(EngineError::TableNotFound));
    state.create(Table::new(s("t"))).unwrap();
    assert_eq!(
        state.insert_column(column_request("t", "a", true, false, true)),
        Err(EngineError::ConstraintViolation)
    );
    assert!(state.insert_column(column_request("t", "a", true, true, true)).is_ok());
    assert_eq!(state.insert_column(column_request("t", "a", false, false, false)), Err(EngineError::DuplicateColumn));
    assert_eq!(state.get("t").unwrap().columns.len(), 1);
}

#[test]
fn state_insert_column_keeps_foreign_key() {
    let mut state = AppState::new();
    state.create(Table::new(s("t"))).unwrap();
    let mut request = column_request("t", "ref", false, false, false);
    request.foreign_key = Some(vec![column("x", false, false, false), column("y", false, false, false)]);
    state.insert_column(request).unwrap();
    let fk = state.get("t").unwrap().columns[0].foreign_key.as_ref().unwrap();
    let keys: Vec<String> = fk.iter().map(|c| c.key.clone()).collect();
    assert_eq!(keys, vec![s("x"), s("y")]);
}

#[test]
fn state_create_table_is_all_or_nothing() {
    let mut state = AppState::new();
    let mut request = CreateTableRequests::new(s("t"));
    request.insert_column_requests.push(column_request("ignored", "a", true, true, true));
    request.insert_column_requests.push(column_request("ignored", "b", true, false, true));
    assert_eq!(state.create_table(request), Err(EngineError::ConstraintViolation));
    assert!(state.get("t").is_none());

    let mut request = CreateTableRequests::new(s("t"));
    request.insert_column_requests.push(column_request("ignored", "a", false, false, false));
    request.insert_column_requests.push(column_request("ignored", "a", false, false, false));
    assert_eq!(state.create_table(request), Err(EngineError::DuplicateColumn));
    assert!(state.get("t").is_none());

    let mut request = CreateTableRequests::new(s("t"));
    request.insert_column_requests.push(column_request("ignored", "a", true, true, true));
    request.insert_column_requests.push(column_request("ignored", "b", false, false, false));
    assert!(state.create_table(request).is_ok());
    let keys: Vec<String> = state.get("t").unwrap().columns.iter().map(|c| c.key.clone()).collect();
    assert_eq!(keys, vec![s("a"), s("b")]);
    assert_eq!(state.create_table(CreateTableRequests::new(s("t"))), Err(EngineError::TableAlreadyExists));
}

#[test]
fn state_select_and_update_unknown_table() {
    let mut state = AppState::new();
    let select = SelectRequest { columns: None, table_name: s("t"), condition: None };
    assert_eq!(state.select(select).unwrap_err(), EngineError::TableNotFound);
    let upd = UpdateRequest { table_name: s("t"), condition: None, updates: vec![] };
    assert_eq!(state.update_table(upd), Err(EngineError::TableNotFound));
    let ins = InsertRowRequest { table_name: s("t"), row: Row::new(vec![]) };
    assert_eq!(state.insert_row(ins), Err(EngineError::TableNotFound));
}

#[test]
fn state_from_tables_checks_names_and_rows() {
    let ok = AppState::from_tables(vec![sample_table(), Table::new(s("other"))]);
    assert_eq!(ok.unwrap().get_all().len(), 2);
    assert!(AppState::from_tables(vec![Table::new(s("a")), Table::new(s("a"))]).is_none());
    let mut bad = Table::new(s("bad"));
    bad.rows.push(Row::new(vec![Value::Null]));
    assert!(AppState::from_tables(vec![bad]).is_none());
    assert_eq!(AppState::from_tables(vec![]).unwrap().get_all().len(), 0);
}

#[test]
fn end_to_end_scenario() {
    let mut state = AppState::new();
    assert!(state.create_table(CreateTableRequests::new(s("t"))).is_ok());
    assert!(state.insert_column(column_request("t", "a", true, true, true)).is_ok());
    assert!(state.insert_column(column_request("t", "b", false, false, false)).is_ok());

    let stored = state.insert_row(InsertRowRequest { table_name: s("t"), row: Row::new(vec![Value::Int(1)]) });
    assert_eq!(stored, Ok(vec![s("1"), s("")]));
    assert_eq!(state.get("t").unwrap().rows[0].values, vec![Value::Int(1), Value::Null]);

    let too_long = Row::new(vec![Value::Int(1), Value::Int(2), Value::Int(3)]);
    assert_eq!(
        state.insert_row(InsertRowRequest { table_name: s("t"), row: too_long }),
        Err(EngineError::RowArityExceeded)
    );
    assert_eq!(state.get("t").unwrap().rows.len(), 1);

    let selected = state
        .select(SelectRequest { columns: None, table_name: s("t"), condition: condition("a", "1") })
        .unwrap();
    assert_eq!(values_of(&selected), vec![vec![Value::Int(1), Value::Null]]);

    let updated = state.update_table(UpdateRequest {
        table_name: s("t"),
        condition: condition("a", "1"),
        updates: vec![update("b", "9")],
    });
    assert_eq!(updated, Ok(1));
    assert_eq!(state.get("t").unwrap().rows[0].values, vec![Value::Int(1), Value::Str(s("9"))]);
}
