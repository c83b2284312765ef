use orm_core::dialect::Dialect;
use orm_core::errors::OrmError;
use orm_core::model::create;
use orm_core::table::Table;
use orm_core::transaction::{begin_transaction, TransactionState};
use orm_core::user::User;

fn s(x: &str) -> String {
    x.to_string()
}

fn user(id: &str, name: &str, age: &str) -> User {
    User { id: s(id), name: s(name), age: s(age) }
}

fn seeded_table() -> Table {
    let mut t = Table::new(s("users"), vec![s("id"), s("name"), s("age")]).unwrap();
    create(user("1", "Bob", "30"), &mut t).unwrap();
    t
}

#[test]
fn rollback_restores_the_state_at_begin() {
    let mut t = seeded_table();
    let before = t.rows.clone();
    let mut tx = begin_transaction(Dialect::Postgres, &t).unwrap();
    assert_eq!(tx.state, TransactionState::Open);

    create(user("2", "Amy", "30"), &mut t).unwrap();
    create(user("3", "Cid", "40"), &mut t).unwrap();
    assert_eq!(t.rows.len(), 3);

    tx.rollback(&mut t).unwrap();
    assert_eq!(tx.state, TransactionState::RolledBack);
    assert_eq!(t.rows, before);
}

#[test]
fn commit_keeps_the_work() {
    let mut t = seeded_table();
    let mut tx = begin_transaction(Dialect::Postgres, &t).unwrap();
    create(user("2", "Amy", "30"), &mut t).unwrap();
    tx.commit().unwrap();
    assert_eq!(tx.state, TransactionState::Committed);
    assert_eq!(t.rows.len(), 2);
}

#[test]
fn transactions_need_backend_support() {
    let t = seeded_table();
    let r = begin_transaction(Dialect::MySql, &t);
    assert!(matches!(r, Err(OrmError::ConnectionError(_))));
}

#[test]
fn commit_or_rollback_twice_is_a_connection_error() {
    let mut t = seeded_table();
    let mut tx = begin_transaction(Dialect::Postgres, &t).unwrap();
    tx.commit().unwrap();
    assert!(matches!(tx.commit(), Err(OrmError::ConnectionError(_))));
    assert!(matches!(tx.rollback(&mut t), Err(OrmError::ConnectionError(_))));
    assert_eq!(tx.state, TransactionState::Committed);
}

#[test]
fn an_abandoned_open_scope_rolls_back() {
    let mut t = seeded_table();
    let before = t.rows.clone();
    let mut tx = begin_transaction(Dialect::Postgres, &t).unwrap();
    create(user("2", "Amy", "30"), &mut t).unwrap();
    tx.abandon(&mut t);
    assert_eq!(tx.state, TransactionState::Abandoned);
    assert_eq!(t.rows, before);
}
