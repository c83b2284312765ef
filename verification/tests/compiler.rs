use orm_core::compiler::{compile_count, compile_select};
use orm_core::condition::Condition;
use orm_core::dialect::Dialect;

fn s(x: &str) -> String {
    x.to_string()
}

#[test]
fn select_without_conditions_has_no_where_clause() {
    let st = compile_select(Dialect::Postgres, &s("users"), &vec![], &None, None, None).unwrap();
    assert_eq!(st.sql, "SELECT * FROM \"users\"");
    assert!(st.params.is_empty());
}

#[test]
fn leaf_only_tree_binds_literals_in_insertion_order() {
    let conds = vec![
        Condition::Equals(s("a"), s("one")),
        Condition::GreaterThan(s("b"), s("two")),
        Condition::Between(s("c"), s("three"), s("four")),
        Condition::In(s("d"), vec![s("five"), s("six")]),
    ];
    let st = compile_select(Dialect::Postgres, &s("t"), &conds, &None, None, None).unwrap();
    assert_eq!(
        st.sql,
        "SELECT * FROM \"t\" WHERE \"a\" = $1 AND \"b\" > $2 AND \"c\" BETWEEN $3 AND $4 AND \"d\" IN ($5, $6)"
    );
    assert_eq!(st.params, vec![s("one"), s("two"), s("three"), s("four"), s("five"), s("six")]);
}

#[test]
fn mysql_uses_backticks_and_anonymous_placeholders() {
    let conds = vec![Condition::Equals(s("a"), s("one"))];
    let st = compile_select(Dialect::MySql, &s("t"), &conds, &None, None, None).unwrap();
    assert_eq!(st.sql, "SELECT * FROM `t` WHERE `a` = ?");
    assert_eq!(st.params, vec![s("one")]);
}

#[test]
fn empty_in_list_compiles_to_tautological_false() {
    let conds = vec![Condition::In(s("a"), vec![])];
    let st = compile_select(Dialect::Postgres, &s("t"), &conds, &None, None, None).unwrap();
    assert_eq!(st.sql, "SELECT * FROM \"t\" WHERE 1 = 0");
    assert!(st.params.is_empty());
}

#[test]
fn empty_not_in_list_compiles_to_tautological_true() {
    let conds = vec![Condition::NotIn(s("a"), vec![])];
    let st = compile_select(Dialect::Postgres, &s("t"), &conds, &None, None, None).unwrap();
    assert_eq!(st.sql, "SELECT * FROM \"t\" WHERE 1 = 1");
    assert!(st.params.is_empty());
}

#[test]
fn compiling_twice_is_byte_identical() {
    let conds = vec![
        Condition::Or(vec![
            Condition::Equals(s("a"), s("x")),
            Condition::NotBetween(s("b"), s("l"), s("h")),
        ]),
        Condition::IsNull(s("c")),
    ];
    let order = Some((s("a"), true));
    let st1 = compile_select(Dialect::MySql, &s("t"), &conds, &order, Some(5), Some(2)).unwrap();
    let st2 = compile_select(Dialect::MySql, &s("t"), &conds, &order, Some(5), Some(2)).unwrap();
    assert_eq!(st1.sql, st2.sql);
    assert_eq!(st1.params, st2.params);
}

#[test]
fn nested_composition_is_parenthesized() {
    let conds = vec![Condition::Or(vec![
        Condition::And(vec![
            Condition::Equals(s("a"), s("1")),
            Condition::NotEquals(s("b"), s("2")),
        ]),
        Condition::Not(Box::new(Condition::Like(s("c"), s("x%")))),
    ])];
    let st = compile_select(Dialect::Postgres, &s("t"), &conds, &None, None, None).unwrap();
    assert_eq!(
        st.sql,
        "SELECT * FROM \"t\" WHERE ((\"a\" = $1 AND \"b\" <> $2) OR NOT (\"c\" LIKE $3))"
    );
    assert_eq!(st.params, vec![s("1"), s("2"), s("x%")]);
}

#[test]
fn order_limit_offset_render_per_dialect() {
    let st = compile_select(
        Dialect::Postgres,
        &s("t"),
        &vec![],
        &Some((s("name"), false)),
        Some(2),
        Some(7),
    )
    .unwrap();
    assert_eq!(st.sql, "SELECT * FROM \"t\" ORDER BY \"name\" ASC LIMIT 2 OFFSET 7");

    let desc = compile_select(Dialect::Postgres, &s("t"), &vec![], &Some((s("name"), true)), None, None)
        .unwrap();
    assert_eq!(desc.sql, "SELECT * FROM \"t\" ORDER BY \"name\" DESC");
}

#[test]
fn offset_without_limit_is_table_driven_per_dialect() {
    let pg = compile_select(Dialect::Postgres, &s("t"), &vec![], &None, None, Some(3)).unwrap();
    assert_eq!(pg.sql, "SELECT * FROM \"t\" OFFSET 3");
    let my = compile_select(Dialect::MySql, &s("t"), &vec![], &None, None, Some(3)).unwrap();
    assert_eq!(my.sql, "SELECT * FROM `t` LIMIT 18446744073709551615 OFFSET 3");
}

#[test]
fn malformed_identifiers_are_rejected_before_any_io() {
    let bad_table = compile_select(Dialect::Postgres, &s("t;drop"), &vec![], &None, None, None);
    assert!(matches!(bad_table, Err(e) if e.is_validation_error()));

    let bad_col = compile_select(
        Dialect::Postgres,
        &s("t"),
        &vec![Condition::Equals(s("a\" OR 1=1 --"), s("v"))],
        &None,
        None,
        None,
    );
    assert!(matches!(bad_col, Err(e) if e.is_validation_error()));

    let bad_order = compile_select(
        Dialect::Postgres,
        &s("t"),
        &vec![],
        &Some((s("na me"), false)),
        None,
        None,
    );
    assert!(matches!(bad_order, Err(e) if e.is_validation_error()));

    let empty_ident = compile_select(Dialect::Postgres, &s(""), &vec![], &None, None, None);
    assert!(matches!(empty_ident, Err(e) if e.is_validation_error()));
}

#[test]
fn injection_attempt_stays_in_parameters() {
    let conds = vec![Condition::Equals(s("name"), s("'; DROP TABLE users; --"))];
    let st = compile_select(Dialect::Postgres, &s("users"), &conds, &None, None, None).unwrap();
    assert_eq!(st.sql, "SELECT * FROM \"users\" WHERE \"name\" = $1");
    assert_eq!(st.params, vec![s("'; DROP TABLE users; --")]);
}

#[test]
fn count_compiles_a_row_count_projection() {
    let conds = vec![Condition::LessThanOrEqual(s("age"), s("30"))];
    let st = compile_count(Dialect::Postgres, &s("users"), &conds).unwrap();
    assert_eq!(st.sql, "SELECT COUNT(*) FROM \"users\" WHERE \"age\" <= $1");
    assert_eq!(st.params, vec![s("30")]);
}
