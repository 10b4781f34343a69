use sql_prepare::dialect::{MysqlQueryBuilder, PostgresQueryBuilder, QueryBuilder};
use sql_prepare::value::Value;
use sql_prepare::writer::{SqlStringWriter, SqlWriter, SqlWriterObj};

#[test]
fn string_writer_inlines_values() {
    let mut w = SqlStringWriter::new();
    w.write_str("SELECT * FROM t WHERE a = ");
    w.push_param(Value::String("x".to_owned()), &MysqlQueryBuilder);
    assert_eq!(w.result(), "SELECT * FROM t WHERE a = 'x'");
}

#[test]
fn string_writer_keeps_no_values() {
    let mut w = SqlStringWriter::new();
    w.push_param(Value::Int(7), &MysqlQueryBuilder);
    assert_eq!(w.result(), "7");
}

#[test]
fn writer_obj_collects_values_with_bare_marker() {
    let mut w = SqlWriterObj::new("?", false);
    w.write_str("a = ");
    w.push_param(Value::String("x".to_owned()), &MysqlQueryBuilder);
    w.write_str(" AND b = ");
    w.push_param(Value::Int(3), &MysqlQueryBuilder);
    let (sql, values) = w.into_parts();
    assert_eq!(sql, "a = ? AND b = ?");
    assert_eq!(
        values.0,
        vec![Value::String("x".to_owned()), Value::Int(3)]
    );
}

#[test]
fn writer_obj_numbers_placeholders_from_one() {
    let mut w = SqlWriterObj::new("$", true);
    w.write_str("a = ");
    w.push_param(Value::String("x".to_owned()), &PostgresQueryBuilder);
    w.write_str(" AND b = ");
    w.push_param(Value::String("y".to_owned()), &PostgresQueryBuilder);
    let (sql, values) = w.into_parts();
    assert_eq!(sql, "a = $1 AND b = $2");
    assert_eq!(
        values.0,
        vec![Value::String("x".to_owned()), Value::String("y".to_owned())]
    );
}

#[test]
fn writer_obj_result_yields_text_only() {
    let mut w = SqlWriterObj::new("$", true);
    w.write_str("a = ");
    w.push_param(Value::Bool(true), &PostgresQueryBuilder);
    assert_eq!(w.result(), "a = $1");
}

#[test]
fn placeholder_syntax_per_dialect() {
    assert_eq!(MysqlQueryBuilder.placeholder(), ("?", false));
    assert_eq!(PostgresQueryBuilder.placeholder(), ("$", true));
}
