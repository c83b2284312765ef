use orm_core::builder::{query, CompareOp, QueryBuilder};
use orm_core::condition::Condition;
use orm_core::dialect::Dialect;
use orm_core::errors::OrmError;
use orm_core::model::{create, create_many, delete_by_id, find_by, find_one_by, update, update_by_id};
use orm_core::table::Table;
use orm_core::user::User;

fn s(x: &str) -> String {
    x.to_string()
}

fn user(id: &str, name: &str, age: &str) -> User {
    User { id: s(id), name: s(name), age: s(age) }
}

fn users_table() -> Table {
    Table::new(s("users"), vec![s("id"), s("name"), s("age")]).unwrap()
}

fn seeded_table() -> Table {
    let mut t = users_table();
    create(user("1", "Bob", "30"), &mut t).unwrap();
    create(user("2", "Amy", "30"), &mut t).unwrap();
    create(user("3", "Cid", "40"), &mut t).unwrap();
    t
}

#[test]
fn scenario_filter_order_limit() {
    let t = seeded_table();
    let b: QueryBuilder<User> = query();
    let b = b.where_eq("age", "30").order_by("name", false).limit(2);

    let st = b.to_statement(Dialect::Postgres).unwrap();
    assert_eq!(
        st.sql,
        "SELECT * FROM \"users\" WHERE \"age\" = $1 ORDER BY \"name\" ASC LIMIT 2"
    );
    assert_eq!(st.params, vec![s("30")]);

    let ms = b.execute(&t).unwrap();
    let names: Vec<String> = ms.iter().map(|m| m.name.clone()).collect();
    assert_eq!(names, vec![s("Amy"), s("Bob")]);
}

#[test]
fn first_on_zero_matching_rows_is_empty_not_an_error() {
    let t = seeded_table();
    let b: QueryBuilder<User> = query();
    let r = b.where_eq("age", "99").first(&t).unwrap();
    assert!(r.is_none());
}

#[test]
fn find_one_by_with_two_matches_returns_exactly_one() {
    let t = seeded_table();
    let conds = vec![Condition::Equals(s("age"), s("30"))];
    let m = find_one_by::<User>(&t, &conds).unwrap().unwrap();
    assert_eq!(m.name, s("Bob"));
}

#[test]
fn find_by_returns_empty_sequence_when_nothing_matches() {
    let t = seeded_table();
    let conds = vec![Condition::Equals(s("name"), s("Zed"))];
    let ms = find_by::<User>(&t, &conds).unwrap();
    assert!(ms.is_empty());
}

#[test]
fn update_by_id_on_missing_id_is_not_found_and_leaves_table_unchanged() {
    let mut t = seeded_table();
    let before = t.rows.clone();
    let m = user("9", "Zed", "50");
    let r = update_by_id(&m, &s("9"), &mut t);
    assert!(matches!(r, Err(e) if e.is_not_found()));
    assert_eq!(t.rows.len(), before.len());
    assert_eq!(t.rows, before);
}

#[test]
fn update_by_id_replaces_the_matching_row() {
    let mut t = seeded_table();
    let m = user("2", "Amy", "31");
    update_by_id(&m, &s("2"), &mut t).unwrap();
    let ms = find_by::<User>(&t, &vec![Condition::Equals(s("id"), s("2"))]).unwrap();
    assert_eq!(ms.len(), 1);
    assert_eq!(ms[0].age, s("31"));
}

#[test]
fn update_uses_the_instances_own_key() {
    let mut t = seeded_table();
    let m = user("3", "Cid", "41");
    update(&m, &mut t).unwrap();
    let got = find_one_by::<User>(&t, &vec![Condition::Equals(s("id"), s("3"))]).unwrap().unwrap();
    assert_eq!(got.age, s("41"));
}

#[test]
fn delete_by_id_removes_the_row_and_missing_id_is_not_found() {
    let mut t = seeded_table();
    delete_by_id::<User>(&s("2"), &mut t).unwrap();
    assert_eq!(t.rows.len(), 2);
    let r = delete_by_id::<User>(&s("2"), &mut t);
    assert!(matches!(r, Err(e) if e.is_not_found()));
    assert_eq!(t.rows.len(), 2);
}

#[test]
fn create_rejects_an_invalid_instance_before_any_io() {
    let mut t = users_table();
    let r = create(user("7", "", "20"), &mut t);
    assert!(matches!(r, Err(e) if e.is_validation_error()));
    assert_eq!(t.rows.len(), 0);
}

#[test]
fn create_many_is_all_or_nothing() {
    let mut t = users_table();
    let models = vec![user("1", "Ann", "20"), user("2", "", "21"), user("3", "Cal", "22")];
    let r = create_many(models, &mut t);
    assert!(matches!(r, Err(e) if e.is_validation_error()));
    assert_eq!(t.rows.len(), 0);

    let ok = create_many(
        vec![user("1", "Ann", "20"), user("2", "Ben", "21")],
        &mut t,
    )
    .unwrap();
    assert_eq!(ok.len(), 2);
    assert_eq!(t.rows.len(), 2);
}

#[test]
fn empty_not_in_matches_every_row_and_empty_in_none() {
    let t = seeded_table();
    let all = find_by::<User>(&t, &vec![Condition::NotIn(s("name"), vec![])]).unwrap();
    assert_eq!(all.len(), 3);
    let none = find_by::<User>(&t, &vec![Condition::In(s("name"), vec![])]).unwrap();
    assert!(none.is_empty());
}

#[test]
fn unknown_column_is_a_query_error() {
    let t = seeded_table();
    let r = find_by::<User>(&t, &vec![Condition::Equals(s("color"), s("red"))]);
    assert!(matches!(r, Err(OrmError::QueryError(_))));
}

#[test]
fn conditions_narrow_and_ranges_compare_lexicographically() {
    let t = seeded_table();
    let b: QueryBuilder<User> = query();
    let ms = b
        .where_compare("age", CompareOp::Gt, "30")
        .execute(&t)
        .unwrap();
    assert_eq!(ms.len(), 1);
    assert_eq!(ms[0].name, s("Cid"));

    let b2: QueryBuilder<User> = query();
    let ms2 = b2
        .where_compare("name", CompareOp::Like, "%i%")
        .execute(&t)
        .unwrap();
    assert_eq!(ms2.len(), 1);
    assert_eq!(ms2[0].name, s("Cid"));

    let b3: QueryBuilder<User> = query();
    let ms3 = b3
        .where_cond(Condition::Between(s("name"), s("Amy"), s("Bob")))
        .execute(&t)
        .unwrap();
    assert_eq!(ms3.len(), 2);
}

#[test]
fn where_null_distinguishes_null_cells() {
    let mut t = users_table();
    t.insert_row(vec![Some(s("1")), Some(s("Ann")), None]).unwrap();
    t.insert_row(vec![Some(s("2")), Some(s("Ben")), Some(s("20"))]).unwrap();
    let b: QueryBuilder<User> = query();
    let st = b.where_null("age", true).to_statement(Dialect::Postgres).unwrap();
    assert_eq!(st.sql, "SELECT * FROM \"users\" WHERE \"age\" IS NULL");

    let rows = orm_core::table::select_rows(
        &t,
        &vec![Condition::IsNotNull(s("age"))],
        &None,
        None,
        None,
    )
    .unwrap();
    assert_eq!(rows.len(), 1);
    assert_eq!(rows[0][1], Some(s("Ben")));
}

#[test]
fn count_counts_matching_rows_without_paging() {
    let t = seeded_table();
    let b: QueryBuilder<User> = query();
    let n = b.where_eq("age", "30").limit(1).count(&t).unwrap();
    assert_eq!(n, 2);
}

#[test]
fn last_write_wins_for_order_limit_offset() {
    let b: QueryBuilder<User> = query();
    let b = b.limit(5).limit(1).offset(4).offset(0).order_by("id", true).order_by("name", false);
    assert_eq!(b.limit, Some(1));
    assert_eq!(b.offset, Some(0));
    let st = b.to_statement(Dialect::Postgres).unwrap();
    assert_eq!(st.sql, "SELECT * FROM \"users\" ORDER BY \"name\" ASC LIMIT 1 OFFSET 0");
}

#[test]
fn null_cells_order_before_values_in_a_sort() {
    let mut t = users_table();
    t.insert_row(vec![Some(s("1")), Some(s("Ann")), Some(s("30"))]).unwrap();
    t.insert_row(vec![Some(s("2")), Some(s("Ben")), None]).unwrap();
    let rows = orm_core::table::select_rows(&t, &vec![], &Some((s("age"), false)), None, None)
        .unwrap();
    assert_eq!(rows[0][0], Some(s("2")));
    assert_eq!(rows[1][0], Some(s("1")));
}

#[test]
fn or_and_not_compose_in_evaluation() {
    let t = seeded_table();
    let cond = Condition::Or(vec![
        Condition::Equals(s("name"), s("Amy")),
        Condition::Not(Box::new(Condition::In(s("age"), vec![s("30")]))),
    ]);
    let ms = find_by::<User>(&t, &vec![cond]).unwrap();
    let names: Vec<String> = ms.iter().map(|m| m.name.clone()).collect();
    assert_eq!(names, vec![s("Amy"), s("Cid")]);
}

#[test]
fn a_decoded_instance_maps_back_to_its_row() {
    let t = seeded_table();
    let m = find_one_by::<User>(&t, &vec![Condition::Equals(s("id"), s("3"))]).unwrap().unwrap();
    assert_eq!(m.id, s("3"));
    assert_eq!(m.name, s("Cid"));
    assert_eq!(m.age, s("40"));
    let row = t.rows[2].clone();
    assert_eq!(row, vec![Some(s("3")), Some(s("Cid")), Some(s("40"))]);
}

#[test]
fn offset_skips_ordered_rows() {
    let t = seeded_table();
    let b: QueryBuilder<User> = query();
    let ms = b.order_by("name", false).offset(1).limit(1).execute(&t).unwrap();
    assert_eq!(ms.len(), 1);
    assert_eq!(ms[0].name, s("Bob"));
}

#[test]
fn empty_membership_reads_no_column() {
    let t = seeded_table();
    let all = find_by::<User>(&t, &vec![Condition::NotIn(s("color"), vec![])]).unwrap();
    assert_eq!(all.len(), 3);
    let none = find_by::<User>(&t, &vec![Condition::In(s("color"), vec![])]).unwrap();
    assert!(none.is_empty());
}

#[test]
fn a_matching_row_that_does_not_decode_is_a_query_error() {
    let mut t = users_table();
    t.insert_row(vec![Some(s("1")), Some(s("Ann")), None]).unwrap();
    let r = find_by::<User>(&t, &vec![Condition::Equals(s("id"), s("1"))]);
    assert!(matches!(r, Err(OrmError::QueryError(_))));
}

#[test]
fn require_affected_maps_zero_rows_to_not_found() {
    assert!(orm_core::model::require_affected(1, &s("7")).is_ok());
    let r = orm_core::model::require_affected(0, &s("7"));
    assert!(matches!(r, Err(e) if e.is_not_found()));
}
