use tabledb::column::Column;
use tabledb::report::{format_tables_html, PAGE_END, PAGE_START};
use tabledb::row::Row;
use tabledb::table::Table;
use tabledb::value::Value;

#[test]
fn empty_page() {
    let html = format_tables_html(&vec![]);
    assert_eq!(html, format!("{}{}", PAGE_START, PAGE_END));
}

#[test]
fn page_lists_columns_labels_and_values() {
    let mut t = Table::new("people".to_string());
    t.add_column(Column::new("id".to_string(), true, true, true, None).unwrap()).unwrap();
    t.add_column(Column::new("nick".to_string(), false, false, true, None).unwrap()).unwrap();
    t.add_column(Column::new("note".to_string(), false, false, false, None).unwrap()).unwrap();
    t.add_row(Row::new(vec![Value::Int(7), Value::Null, Value::Bool(false)])).unwrap();
    let html = format_tables_html(&vec![t]);
    assert!(html.starts_with(PAGE_START));
    assert!(html.ends_with(PAGE_END));
    assert!(html.contains("<h2>people</h2>"));
    assert!(html.contains("\">id</span><span class=\"label\" style=\"float: right;\">Primary, Unique, Non-Null</span>"));
    assert!(html.contains("\">nick</span><span class=\"label\" style=\"float: right;\">Unique</span>"));
    assert!(html.contains("\">note</span><span class=\"label\" style=\"float: right;\"></span>"));
    assert!(html.contains("<td style=\"border-right: 1px solid #ddd;\">7</td>"));
    assert!(html.contains("<td style=\"border-right: 1px solid #ddd;\"></td>"));
    assert!(html.contains("<td style=\"border-right: 1px solid #ddd;\">false</td>"));
}
