use orm_core::compiler::{compile_delete_by_id, compile_insert, compile_update_by_id};
use orm_core::dialect::Dialect;
use orm_core::model::{delete_statement, insert_statement, update_statement};
use orm_core::user::User;

fn s(x: &str) -> String {
    x.to_string()
}

fn user(id: &str, name: &str, age: &str) -> User {
    User { id: s(id), name: s(name), age: s(age) }
}

#[test]
fn insert_is_one_multi_row_statement() {
    let cols = vec![s("id"), s("name"), s("age")];
    let rows = vec![
        vec![Some(s("1")), Some(s("Ann")), None],
        vec![Some(s("2")), Some(s("Ben")), Some(s("21"))],
    ];
    let st = compile_insert(Dialect::Postgres, &s("users"), &cols, &rows).unwrap();
    assert_eq!(
        st.sql,
        "INSERT INTO \"users\" (\"id\", \"name\", \"age\") VALUES ($1, $2, NULL), ($3, $4, $5)"
    );
    assert_eq!(st.params, vec![s("1"), s("Ann"), s("2"), s("Ben"), s("21")]);

    let my = compile_insert(Dialect::MySql, &s("users"), &cols, &rows).unwrap();
    assert_eq!(
        my.sql,
        "INSERT INTO `users` (`id`, `name`, `age`) VALUES (?, ?, NULL), (?, ?, ?)"
    );
}

#[test]
fn insert_rejects_bad_shapes_before_any_io() {
    let cols = vec![s("id")];
    let no_rows = compile_insert(Dialect::Postgres, &s("t"), &cols, &vec![]);
    assert!(matches!(no_rows, Err(e) if e.is_validation_error()));

    let wrong_arity = compile_insert(
        Dialect::Postgres,
        &s("t"),
        &cols,
        &vec![vec![Some(s("1")), Some(s("x"))]],
    );
    assert!(matches!(wrong_arity, Err(e) if e.is_validation_error()));

    let bad_col = compile_insert(
        Dialect::Postgres,
        &s("t"),
        &vec![s("id; --")],
        &vec![vec![Some(s("1"))]],
    );
    assert!(matches!(bad_col, Err(e) if e.is_validation_error()));
}

#[test]
fn update_by_id_sets_every_column_and_keys_on_the_last_parameter() {
    let cols = vec![s("id"), s("name"), s("age")];
    let row = vec![Some(s("2")), Some(s("Amy")), None];
    let st = compile_update_by_id(Dialect::Postgres, &s("users"), &cols, &row, &s("id"), &s("2"))
        .unwrap();
    assert_eq!(
        st.sql,
        "UPDATE \"users\" SET \"id\" = $1, \"name\" = $2, \"age\" = NULL WHERE \"id\" = $3"
    );
    assert_eq!(st.params, vec![s("2"), s("Amy"), s("2")]);
}

#[test]
fn delete_by_id_binds_the_key_value() {
    let st = compile_delete_by_id(Dialect::MySql, &s("users"), &s("id"), &s("7")).unwrap();
    assert_eq!(st.sql, "DELETE FROM `users` WHERE `id` = ?");
    assert_eq!(st.params, vec![s("7")]);
}

#[test]
fn model_statements_carry_the_types_metadata() {
    let st = insert_statement(Dialect::Postgres, &vec![user("1", "Ann", "20")]).unwrap();
    assert_eq!(
        st.sql,
        "INSERT INTO \"users\" (\"id\", \"name\", \"age\") VALUES ($1, $2, $3)"
    );
    assert_eq!(st.params, vec![s("1"), s("Ann"), s("20")]);

    let up = update_statement(Dialect::Postgres, &user("1", "Ann", "21"), &s("1")).unwrap();
    assert_eq!(
        up.sql,
        "UPDATE \"users\" SET \"id\" = $1, \"name\" = $2, \"age\" = $3 WHERE \"id\" = $4"
    );
    assert_eq!(up.params, vec![s("1"), s("Ann"), s("21"), s("1")]);

    let del = delete_statement::<User>(Dialect::Postgres, &s("1")).unwrap();
    assert_eq!(del.sql, "DELETE FROM \"users\" WHERE \"id\" = $1");
    assert_eq!(del.params, vec![s("1")]);
}

#[test]
fn batch_with_an_invalid_instance_compiles_nothing() {
    let r = insert_statement(
        Dialect::Postgres,
        &vec![user("1", "Ann", "20"), user("2", "", "21")],
    );
    assert!(matches!(r, Err(e) if e.is_validation_error()));
}
