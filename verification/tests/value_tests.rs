use sql_prepare::dialect::{MysqlQueryBuilder, PostgresQueryBuilder, QueryBuilder};
use sql_prepare::value::Value;

#[test]
fn null_encodes_as_null_keyword() {
    assert_eq!(MysqlQueryBuilder.value_to_string(&Value::Null), "NULL");
    assert_eq!(PostgresQueryBuilder.value_to_string(&Value::Null), "NULL");
}

#[test]
fn booleans_encode_as_keywords() {
    assert_eq!(MysqlQueryBuilder.value_to_string(&Value::Bool(true)), "TRUE");
    assert_eq!(MysqlQueryBuilder.value_to_string(&Value::Bool(false)), "FALSE");
}

#[test]
fn integers_encode_in_decimal() {
    assert_eq!(MysqlQueryBuilder.value_to_string(&Value::TinyInt(-5)), "-5");
    assert_eq!(MysqlQueryBuilder.value_to_string(&Value::SmallInt(300)), "300");
    assert_eq!(MysqlQueryBuilder.value_to_string(&Value::Int(0)), "0");
    assert_eq!(
        MysqlQueryBuilder.value_to_string(&Value::BigInt(i64::MIN)),
        "-9223372036854775808"
    );
    assert_eq!(MysqlQueryBuilder.value_to_string(&Value::TinyUnsigned(255)), "255");
    assert_eq!(MysqlQueryBuilder.value_to_string(&Value::SmallUnsigned(65535)), "65535");
    assert_eq!(MysqlQueryBuilder.value_to_string(&Value::Unsigned(4294967295)), "4294967295");
    assert_eq!(
        MysqlQueryBuilder.value_to_string(&Value::BigUnsigned(u64::MAX)),
        "18446744073709551615"
    );
}

#[test]
fn plain_string_is_single_quoted() {
    assert_eq!(
        MysqlQueryBuilder.value_to_string(&Value::String("B".to_owned())),
        "'B'"
    );
    assert_eq!(
        PostgresQueryBuilder.value_to_string(&Value::String("B".to_owned())),
        "'B'"
    );
}

#[test]
fn embedded_quote_is_escaped() {
    assert_eq!(
        MysqlQueryBuilder.value_to_string(&Value::String("B'C".to_owned())),
        "'B\\'C'"
    );
    assert_eq!(
        PostgresQueryBuilder.value_to_string(&Value::String("B'C".to_owned())),
        "E'B\\'C'"
    );
}

#[test]
fn embedded_backslash_is_escaped() {
    assert_eq!(
        MysqlQueryBuilder.value_to_string(&Value::String("a\\b".to_owned())),
        "'a\\\\b'"
    );
    assert_eq!(
        PostgresQueryBuilder.value_to_string(&Value::String("a\\b".to_owned())),
        "E'a\\\\b'"
    );
}

#[test]
fn bytes_encode_as_hex_literal() {
    assert_eq!(
        MysqlQueryBuilder.value_to_string(&Value::Bytes(vec![0xAB, 0xCD, 0xEF])),
        "x'ABCDEF'"
    );
    assert_eq!(
        PostgresQueryBuilder.value_to_string(&Value::Bytes(vec![0xAB, 0xCD, 0xEF])),
        "'\\xABCDEF'"
    );
}

#[test]
fn empty_bytes_encode_as_empty_hex_literal() {
    assert_eq!(
        MysqlQueryBuilder.value_to_string(&Value::Bytes(vec![])),
        "x''"
    );
}

#[test]
fn conversions_build_the_expected_variants() {
    assert_eq!(Value::from("B"), Value::String("B".to_owned()));
    assert_eq!(Value::from("B".to_owned()), Value::String("B".to_owned()));
    assert_eq!(Value::from(vec![1u8, 2]), Value::Bytes(vec![1, 2]));
}
