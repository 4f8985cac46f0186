use tabledb::command::{literal, parse_command, Command, CommandError};
use tabledb::request_types::Condition;
use tabledb::value::Value;

fn s(text: &str) -> String {
    text.to_string()
}

fn condition_of(c: &Option<Condition>) -> Option<(String, String)> {
    c.as_ref().map(|c| (c.column.clone(), c.value.clone()))
}

#[test]
fn empty_and_unknown_commands() {
    assert_eq!(parse_command("   ").unwrap_err(), CommandError::InvalidCommand);
    assert_eq!(parse_command("FETCH x").unwrap_err(), CommandError::UnknownCommand);
    assert!(matches!(parse_command("exit"), Ok(Command::Exit)));
}

#[test]
fn create_table_command_reads_columns() {
    match parse_command("create TABLE users (id INT, name string, email STRING)").unwrap() {
        Command::CreateTable(r) => {
            assert_eq!(r.name, s("users"));
            let keys: Vec<String> = r.insert_column_requests.iter().map(|q| q.key.clone()).collect();
            assert_eq!(keys, vec![s("id"), s("name"), s("email")]);
            for q in &r.insert_column_requests {
                assert_eq!(q.table_name, s("users"));
                assert!(!q.primary_key && !q.non_null && !q.unique && q.foreign_key.is_none());
            }
        }
        other => panic!("unexpected {:?}", other),
    }
}

#[test]
fn create_table_command_errors() {
    assert_eq!(parse_command("CREATE users (id INT)").unwrap_err(), CommandError::CreateTableSyntax);
    assert_eq!(parse_command("CREATE TABLE users").unwrap_err(), CommandError::CreateTableSyntax);
    assert_eq!(parse_command("CREATE TABLE users (id)").unwrap_err(), CommandError::ColumnDefinitionSyntax);
    assert_eq!(parse_command("CREATE TABLE users (id DATE)").unwrap_err(), CommandError::UnsupportedColumnType);
}

#[test]
fn insert_command_reads_values() {
    match parse_command("INSERT INTO users (id, name, email) VALUES (1, 'Alice', \"alice@example.com\")").unwrap() {
        Command::InsertRow { table_name, values } => {
            assert_eq!(table_name, s("users"));
            assert_eq!(values, vec![s("1"), s("'Alice'"), s("\"alice@example.com\"")]);
        }
        other => panic!("unexpected {:?}", other),
    }
}

#[test]
fn insert_command_errors() {
    assert_eq!(parse_command("INSERT users (a) VALUES (1)").unwrap_err(), CommandError::InsertSyntax);
    assert_eq!(parse_command("INSERT INTO users (a) (1)").unwrap_err(), CommandError::InsertSyntax);
    assert_eq!(
        parse_command("INSERT INTO users a VALUES 1").unwrap_err(),
        CommandError::MissingOpeningParenthesis
    );
    assert_eq!(
        parse_command("INSERT INTO users (a VALUES 1").unwrap_err(),
        CommandError::MissingClosingParenthesis
    );
    assert_eq!(
        parse_command("INSERT INTO users (a) VALUES 1").unwrap_err(),
        CommandError::MissingValuesOpeningParenthesis
    );
    assert_eq!(
        parse_command("INSERT INTO users (a, b) VALUES (1)").unwrap_err(),
        CommandError::ColumnCountMismatch
    );
}

#[test]
fn literal_kinds() {
    assert_eq!(literal(&s("NULL"), None), Value::Null);
    assert_eq!(literal(&s("42"), Some(s("42"))), Value::Int(42));
    assert_eq!(literal(&s("-7"), Some(s("-7"))), Value::Int(-7));
    assert_eq!(literal(&s("+5"), Some(s("5"))), Value::Int(5));
    assert_eq!(literal(&s("2.50"), Some(s("2.5"))), Value::Float(s("2.5")));
    assert_eq!(literal(&s("true"), None), Value::Bool(true));
    assert_eq!(literal(&s("false"), None), Value::Bool(false));
    assert_eq!(literal(&s("'Alice'"), None), Value::Str(s("Alice")));
    assert_eq!(literal(&s("\"a'b\""), None), Value::Str(s("a'b")));
    assert_eq!(literal(&s("99999999999999999999"), None), Value::Str(s("99999999999999999999")));
}

#[test]
fn select_command_reads_columns_and_condition() {
    match parse_command("SELECT id, name from users WHERE email = 'alice@example.com'").unwrap() {
        Command::Select(r) => {
            assert_eq!(r.table_name, s("users"));
            assert_eq!(r.columns, Some(vec![s("id"), s("name")]));
            assert_eq!(condition_of(&r.condition), Some((s("email"), s("alice@example.com"))));
        }
        other => panic!("unexpected {:?}", other),
    }
    match parse_command("SELECT * FROM t").unwrap() {
        Command::Select(r) => {
            assert_eq!(r.columns, Some(vec![s("*")]));
            assert!(r.condition.is_none());
        }
        other => panic!("unexpected {:?}", other),
    }
}

#[test]
fn select_command_errors() {
    assert_eq!(parse_command("SELECT").unwrap_err(), CommandError::MissingColumns);
    assert_eq!(parse_command("SELECT a b").unwrap_err(), CommandError::MissingFromKeyword);
    assert_eq!(parse_command("SELECT a FROM").unwrap_err(), CommandError::MissingTableName);
    assert_eq!(parse_command("SELECT a FROM t WHERE x =").unwrap_err(), CommandError::IncompleteWhereClause);
}

#[test]
fn update_command_reads_assignments() {
    match parse_command("UPDATE users SET name = 'Alice Smith', age=3 WHERE id = \"1\"").unwrap() {
        Command::Update(r) => {
            assert_eq!(r.table_name, s("users"));
            let ups: Vec<(String, String)> = r.updates.iter().map(|u| (u.column.clone(), u.value.clone())).collect();
            assert_eq!(ups, vec![(s("name"), s("Alice Smith")), (s("age"), s("3"))]);
            assert_eq!(condition_of(&r.condition), Some((s("id"), s("1"))));
        }
        other => panic!("unexpected {:?}", other),
    }
    match parse_command("update t set a = 'x'").unwrap() {
        Command::Update(r) => {
            assert_eq!(r.updates[0].value, s("x"));
            assert!(r.condition.is_none());
        }
        other => panic!("unexpected {:?}", other),
    }
}

#[test]
fn update_where_keeps_single_quotes() {
    match parse_command("UPDATE t SET a = 1 WHERE b = 'q'").unwrap() {
        Command::Update(r) => assert_eq!(condition_of(&r.condition), Some((s("b"), s("'q'")))),
        other => panic!("unexpected {:?}", other),
    }
}

#[test]
fn update_command_errors() {
    assert_eq!(parse_command("UPDATE").unwrap_err(), CommandError::UpdateSyntax);
    assert_eq!(parse_command("UPDATE t a = 1").unwrap_err(), CommandError::UpdateSyntax);
    assert_eq!(parse_command("UPDATE t WHERE a = 1 SET b = 2").unwrap_err(), CommandError::UpdateClauseSyntax);
    assert_eq!(parse_command("UPDATE t SET a WHERE b = 1").unwrap_err(), CommandError::UpdateClauseSyntax);
    assert_eq!(parse_command("UPDATE t SET a WHERE b").unwrap_err(), CommandError::IncompleteWhereClause);
}

#[test]
fn rename_and_drop_commands() {
    match parse_command("RENAME TABLE users TO customers").unwrap() {
        Command::Rename(r) => {
            assert_eq!(r.current_name, s("users"));
            assert_eq!(r.new_name, s("customers"));
        }
        other => panic!("unexpected {:?}", other),
    }
    assert_eq!(parse_command("RENAME TABLE users").unwrap_err(), CommandError::RenameSyntax);
    match parse_command("drop TABLE customers").unwrap() {
        Command::Drop(r) => assert_eq!(r.name, s("customers")),
        other => panic!("unexpected {:?}", other),
    }
    assert_eq!(parse_command("DROP table customers").unwrap_err(), CommandError::DropSyntax);
    assert_eq!(parse_command("DROP TABLE").unwrap_err(), CommandError::DropSyntax);
}
