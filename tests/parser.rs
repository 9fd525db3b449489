use bootstrap_estimator::parser::parse_select_statement;
use bootstrap_estimator::EstimateError;

#[test]
fn parses_count_query_into_its_parts() {
    let st = parse_select_statement(
        "SELECT COUNT(*) FROM lineitem l WHERE l_quantity > 10 AND l_quantity < 20",
    )
    .unwrap();
    assert_eq!(st.function(), "COUNT(*)");
    assert_eq!(st.table(), "lineitem");
    assert_eq!(st.alias(), "l");
    assert_eq!(st.where_cond_column(), "l_quantity");
    assert_eq!(st.where_cond_comparator(), ">");
    assert_eq!(st.where_cond_value(), "10");
    assert_eq!(st.and_cond_column(), "l_quantity");
    assert_eq!(st.and_cond_comparator(), "<");
    assert_eq!(st.and_cond_value(), "20");
}

#[test]
fn keywords_ignore_case_and_blanks_are_free() {
    let st = parse_select_statement(
        "  select count(*)from t a where x=.5 and y >10.25\n",
    )
    .unwrap();
    assert_eq!(st.function(), "count(*)");
    assert_eq!(st.table(), "t");
    assert_eq!(st.alias(), "a");
    assert_eq!(st.where_cond_column(), "x");
    assert_eq!(st.where_cond_comparator(), "=");
    assert_eq!(st.where_cond_value(), ".5");
    assert_eq!(st.and_cond_column(), "y");
    assert_eq!(st.and_cond_value(), "10.25");
}

#[test]
fn function_is_optional() {
    let st = parse_select_statement("SELECT FROM t a WHERE x > 1 AND x < 2").unwrap();
    assert_eq!(st.function(), "");
    assert_eq!(st.table(), "t");
}

#[test]
fn trailing_condition_is_refused() {
    let r = parse_select_statement("SELECT COUNT(*) FROM t a WHERE x > 1 AND x < 2 AND x > 0");
    assert_eq!(r, Err(EstimateError::SyntaxError));
}

#[test]
fn missing_and_is_refused() {
    let r = parse_select_statement("SELECT COUNT(*) FROM t a WHERE x > 1");
    assert_eq!(r, Err(EstimateError::SyntaxError));
}

#[test]
fn missing_where_is_refused() {
    let r = parse_select_statement("SELECT COUNT(*) FROM t a");
    assert_eq!(r, Err(EstimateError::SyntaxError));
}

#[test]
fn or_clause_is_refused() {
    let r = parse_select_statement("SELECT COUNT(*) FROM t a WHERE x > 1 OR x < 2");
    assert_eq!(r, Err(EstimateError::SyntaxError));
}

#[test]
fn missing_alias_is_refused() {
    let r = parse_select_statement("SELECT COUNT(*) FROM t WHERE x > 1 AND x < 2");
    assert_eq!(r, Err(EstimateError::SyntaxError));
}

#[test]
fn unknown_comparator_is_refused() {
    let r = parse_select_statement("SELECT COUNT(*) FROM t a WHERE x ! 1 AND x < 2");
    assert_eq!(r, Err(EstimateError::SyntaxError));
}

#[test]
fn non_ascii_text_is_refused() {
    let r = parse_select_statement("SELECT COUNT(*) FROM tä a WHERE x > 1 AND x < 2");
    assert_eq!(r, Err(EstimateError::SyntaxError));
}

#[test]
fn empty_text_is_refused() {
    assert_eq!(parse_select_statement(""), Err(EstimateError::SyntaxError));
}
