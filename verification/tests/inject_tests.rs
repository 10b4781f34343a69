use sql_prepare::dialect::{MysqlQueryBuilder, PostgresQueryBuilder};
use sql_prepare::inject::{inject_parameters, try_inject_parameters};

#[test]
fn inject_parameters_1() {
    assert_eq!(
        inject_parameters("WHERE A = ?", vec!["B".into()], &MysqlQueryBuilder),
        "WHERE A = 'B'"
    );
}

#[test]
fn inject_parameters_2() {
    assert_eq!(
        inject_parameters(
            "WHERE A = '?' AND B = ?",
            vec!["C".into()],
            &MysqlQueryBuilder
        ),
        "WHERE A = '?' AND B = 'C'"
    );
}

#[test]
fn inject_parameters_3() {
    assert_eq!(
        inject_parameters(
            "WHERE A = ? AND C = ?",
            vec!["B".into(), "D".into()],
            &MysqlQueryBuilder
        ),
        "WHERE A = 'B' AND C = 'D'"
    );
}

#[test]
fn inject_parameters_4() {
    assert_eq!(
        inject_parameters(
            "WHERE A = $1 AND C = $2",
            vec!["B".into(), "D".into()],
            &PostgresQueryBuilder
        ),
        "WHERE A = 'B' AND C = 'D'"
    );
}

#[test]
fn inject_parameters_5() {
    assert_eq!(
        inject_parameters(
            "WHERE A = $2 AND C = $1",
            vec!["B".into(), "D".into()],
            &PostgresQueryBuilder
        ),
        "WHERE A = 'D' AND C = 'B'"
    );
}

#[test]
fn inject_parameters_6() {
    assert_eq!(
        inject_parameters("WHERE A = $1", vec!["B'C".into()], &PostgresQueryBuilder),
        "WHERE A = E'B\\'C'"
    );
}

#[test]
fn inject_parameters_7() {
    assert_eq!(
        inject_parameters(
            "?",
            vec![vec![0xABu8, 0xCD, 0xEF].into()],
            &MysqlQueryBuilder
        ),
        "x'ABCDEF'"
    );
}

#[test]
fn marker_inside_double_quotes_untouched() {
    assert_eq!(
        inject_parameters("WHERE A = \"?\" AND B = ?", vec!["C".into()], &MysqlQueryBuilder),
        "WHERE A = \"?\" AND B = 'C'"
    );
}

#[test]
fn marker_inside_backticks_untouched() {
    assert_eq!(
        inject_parameters("`?` = ?", vec!["C".into()], &MysqlQueryBuilder),
        "`?` = 'C'"
    );
}

#[test]
fn same_number_binds_same_value_twice() {
    assert_eq!(
        inject_parameters("$1 = $1", vec!["B".into()], &PostgresQueryBuilder),
        "'B' = 'B'"
    );
}

#[test]
fn zero_numbered_reference_is_plain_text() {
    assert_eq!(
        inject_parameters("WHERE A = $0", vec!["B".into()], &PostgresQueryBuilder),
        "WHERE A = $0"
    );
}

#[test]
fn oversized_numbered_reference_is_plain_text() {
    assert_eq!(
        inject_parameters(
            "WHERE A = $99999999999999999999999",
            vec![],
            &PostgresQueryBuilder
        ),
        "WHERE A = $99999999999999999999999"
    );
}

#[test]
fn marker_without_number_is_plain_text_for_numbered_dialect() {
    assert_eq!(
        inject_parameters("WHERE A = $ AND B", vec![], &PostgresQueryBuilder),
        "WHERE A = $ AND B"
    );
}

#[test]
fn marker_joined_to_other_punctuation_is_plain_text() {
    assert_eq!(
        inject_parameters("WHERE A =?", vec![], &MysqlQueryBuilder),
        "WHERE A =?"
    );
}

#[test]
fn inlining_is_idempotent() {
    let once = inject_parameters("WHERE A = ?", vec!["B'C".into()], &MysqlQueryBuilder);
    let twice = inject_parameters(&once, vec![], &MysqlQueryBuilder);
    assert_eq!(once, twice);
}

#[test]
fn missing_value_for_unnumbered_marker_yields_none() {
    assert_eq!(try_inject_parameters("?", vec![], &MysqlQueryBuilder), None);
}

#[test]
fn missing_value_for_numbered_reference_yields_none() {
    assert_eq!(
        try_inject_parameters("$2", vec!["B".into()], &PostgresQueryBuilder),
        None
    );
}

#[test]
fn try_inject_agrees_with_inject_on_success() {
    let r = try_inject_parameters("WHERE A = ?", vec!["B".into()], &MysqlQueryBuilder);
    assert_eq!(r, Some("WHERE A = 'B'".to_owned()));
}
