//! The transaction scope: a state machine over a snapshot of one table's
//! rows. `begin_transaction` checks the dialect's declared capability and
//! snapshots the rows; `commit` keeps the table as it stands; `rollback`
//! and `abandon` restore the snapshot. Every terminal state releases the
//! scope: a second commit or rollback fails with a `ConnectionError`, it
//! never crashes.

use vstd::prelude::*;
use vstd::string::StringExecFns;
use crate::dialect::{spec_supports_transactions, Dialect};
use crate::errors::OrmError;
use crate::table::{clone_row, RowView, Table};

verus! {

/// The lifecycle states: `Open` holds the snapshot; `Committed`,
/// `RolledBack` and `Abandoned` are terminal.
#[derive(Debug, Clone, Copy, PartialEq, Eq, Structural)]
pub enum TransactionState {
    Open,
    Committed,
    RolledBack,
    Abandoned,
}

/// A unit of work over one table. While `Open` it owns a snapshot of the
/// rows as they stood at `begin_transaction`; rolling back or abandoning
/// the scope restores that snapshot.
#[derive(Debug)]
pub struct TransactionScope {
    pub snapshot: Vec<Vec<Option<String>>>,
    pub state: TransactionState,
}

/// Copies all rows of a table.
fn clone_rows(rows: &Vec<Vec<Option<String>>>) -> (r: Vec<Vec<Option<String>>>)
    ensures
        r.deep_view() == rows.deep_view(),
        r@.len() == rows@.len(),
        forall|i: int| 0 <= i < r@.len() ==> (#[trigger] r@[i])@.len() == (rows@[i])@.len(),
{
    let n = rows.len();
    let mut r: Vec<Vec<Option<String>>> = Vec::new();
    let mut i: usize = 0;
    while i < n
        invariant
            n == rows@.len(),
            0 <= i <= n,
            r@.len() == i,
            forall|j: int| 0 <= j < i ==> #[trigger] r.deep_view()[j] == rows.deep_view()[j],
            forall|j: int| 0 <= j < i ==> (#[trigger] r@[j])@.len() == (rows@[j])@.len(),
        decreases n - i,
    {
        let c = clone_row(&rows[i]);
        let ghost pre_v = r@;
        let ghost pre_d = r.deep_view();
        r.push(c);
        proof {
            assert forall|j: int| 0 <= j <= i as int implies #[trigger] r.deep_view()[j]
                == rows.deep_view()[j] by {
                assert(r.deep_view()[j] == r@[j].deep_view());
                if j < i as int {
                    assert(r@[j] == pre_v[j]);
                    assert(pre_d[j] == pre_v[j].deep_view());
                }
            }
        }
        i = i + 1;
    }
    proof {
        assert(r.deep_view() =~= rows.deep_view());
    }
    r
}

/// Opens a transaction over the table. Fails with a `ConnectionError`
/// exactly when the dialect does not declare transaction support (a
/// capability check, never a crash). On success the scope is `Open` and its
/// snapshot holds the rows as they stand now.
pub fn begin_transaction(d: Dialect, t: &Table) -> (r: Result<TransactionScope, OrmError>)
    ensures
        r is Ok <==> spec_supports_transactions(d),
        r matches Ok(s) ==> s.state is Open && s.snapshot.deep_view() == t.rows_view() && (
        forall|i: int|
            0 <= i < s.snapshot@.len() ==> (#[trigger] s.snapshot@[i])@.len() == (
            t.rows@[i])@.len()) && s.snapshot@.len() == t.rows@.len(),
        r matches Err(e) ==> e is ConnectionError,
{
    if !d.supports_transactions() {
        return Err(
            OrmError::ConnectionError(
                String::from_str("transactions are not supported by this backend"),
            ),
        );
    }
    Ok(TransactionScope { snapshot: clone_rows(&t.rows), state: TransactionState::Open })
}

impl TransactionScope {
    /// Commits: valid only from `Open`; the table keeps whatever was done
    /// inside the scope. A commit from any terminal state fails with a
    /// `ConnectionError` and changes nothing.
    pub fn commit(&mut self) -> (r: Result<(), OrmError>)
        ensures
            old(self).state is Open ==> r is Ok && final(self).state is Committed,
            !(old(self).state is Open) ==> (r matches Err(e) && e is ConnectionError) && final(self).state == old(self).state,
            final(self).snapshot.deep_view() == old(self).snapshot.deep_view(),
    {
        match self.state {
            TransactionState::Open => {
                self.state = TransactionState::Committed;
                Ok(())
            },
            _ => Err(
                OrmError::ConnectionError(String::from_str("transaction is no longer open")),
            ),
        }
    }

    /// Rolls back: valid only from `Open`; restores the table's rows to the
    /// snapshot taken at `begin_transaction`, leaving the state identical to
    /// before the transaction began. From any terminal state it fails with
    /// a `ConnectionError` and changes nothing.
    pub fn rollback(&mut self, t: &mut Table) -> (r: Result<(), OrmError>)
        requires
            old(t).wf(),
            old(self).snapshot@.len() == old(self).snapshot.deep_view().len(),
            forall|i: int|
                0 <= i < old(self).snapshot@.len() ==> (#[trigger] old(self).snapshot@[i])@.len()
                    == old(t).columns@.len(),
        ensures
            final(t).wf(),
            final(t).name@ == old(t).name@,
            final(t).columns.deep_view() == old(t).columns.deep_view(),
            old(self).state is Open ==> r is Ok && final(self).state is RolledBack && final(t).rows_view() == old(self).snapshot.deep_view(),
            !(old(self).state is Open) ==> (r matches Err(e) && e is ConnectionError) && final(self).state == old(self).state && final(t).rows_view() == old(t).rows_view(),
            final(self).snapshot.deep_view() == old(self).snapshot.deep_view(),
    {
        match self.state {
            TransactionState::Open => {
                t.rows = clone_rows(&self.snapshot);
                self.state = TransactionState::RolledBack;
                Ok(())
            },
            _ => Err(
                OrmError::ConnectionError(String::from_str("transaction is no longer open")),
            ),
        }
    }

    /// Abandons the scope, as when it is dropped without an explicit
    /// outcome: an `Open` transaction is rolled back (the snapshot is
    /// restored), never silently committed; a terminal scope is left as it
    /// is.
    pub fn abandon(&mut self, t: &mut Table)
        requires
            old(t).wf(),
            forall|i: int|
                0 <= i < old(self).snapshot@.len() ==> (#[trigger] old(self).snapshot@[i])@.len()
                    == old(t).columns@.len(),
        ensures
            final(t).wf(),
            final(t).name@ == old(t).name@,
            final(t).columns.deep_view() == old(t).columns.deep_view(),
            old(self).state is Open ==> final(self).state is Abandoned && final(t).rows_view()
                == old(self).snapshot.deep_view(),
            !(old(self).state is Open) ==> final(self).state == old(self).state && final(t).rows_view() == old(t).rows_view(),
            final(self).snapshot.deep_view() == old(self).snapshot.deep_view(),
    {
        match self.state {
            TransactionState::Open => {
                t.rows = clone_rows(&self.snapshot);
                self.state = TransactionState::Abandoned;
            },
            _ => {},
        }
    }
}

/// Work done inside an `Open` scope that is then rolled back leaves the
/// table's state identical to before the transaction began: the snapshot
/// taken at `begin_transaction` equals the rows at that moment, and
/// `rollback` restores exactly the snapshot, whatever happened in between.
pub proof fn lemma_rollback_restores_initial_state(
    rows_at_begin: Seq<RowView>,
    snapshot: Seq<RowView>,
    rows_after_rollback: Seq<RowView>,
)
    requires
        snapshot == rows_at_begin,
        rows_after_rollback == snapshot,
    ensures
        rows_after_rollback == rows_at_begin,
{
}

} // verus!
