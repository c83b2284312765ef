//! The entity contract: the capability set every persisted type supplies
//! (table and key metadata, a validation predicate, and the row codec), and
//! the CRUD operations every such type gets over the in-memory engine.
//! Validation always runs before anything touches the table, and the bulk
//! insert is all-or-nothing.

use vstd::prelude::*;
use vstd::string::StringExecFns;
use crate::compiler::{
    compile_delete_by_id, compile_insert, compile_update_by_id, spec_cols_idents_ok,
    spec_delete_sql, spec_insert_sql, spec_row_params, spec_rows_params, spec_update_sql,
    Statement,
};
use crate::condition::{spec_col_index, Condition};
use crate::text::spec_valid_identifier;
use crate::errors::OrmError;
use crate::table::{
    select_rows, spec_delete_rows, spec_filter_rows, spec_key_matches, spec_page, spec_update_rows,
    update_rows_by_key, delete_rows_by_key, RowView, Table,
};

verus! {

/// The capability set of a persisted type: constant table metadata, a pure
/// validation predicate, and the mapping between instances and rows. Any
/// type providing these is usable with every operation below; there is no
/// shared base type.
pub trait Model: Sized {
    /// The table name, as the specifications see it.
    spec fn spec_table_name() -> Seq<char>;

    /// The primary-key column name.
    spec fn spec_primary_key() -> Seq<char>;

    /// The column names, in row order.
    spec fn spec_columns() -> Seq<Seq<char>>;

    /// The validation predicate: which instances may be stored.
    spec fn valid(&self) -> bool;

    /// The row an instance maps to, one cell per column.
    spec fn row_of(&self) -> RowView;

    /// Which raw rows the type's codec accepts: `from_row` succeeds on
    /// exactly these.
    spec fn spec_decodable(row: RowView) -> bool;

    /// The table name; constant per type.
    fn table_name() -> (r: String)
        ensures
            r@ == Self::spec_table_name(),
    ;

    /// The primary-key column name; constant per type.
    fn primary_key() -> (r: String)
        ensures
            r@ == Self::spec_primary_key(),
    ;

    /// The column names, in row order; constant per type.
    fn columns() -> (r: Vec<String>)
        ensures
            r.deep_view() == Self::spec_columns(),
    ;

    /// Checks the instance's own invariant; pure, no I/O. Returns the
    /// violation as a `ValidationError` exactly when `valid` does not hold.
    fn validate(&self) -> (r: Result<(), OrmError>)
        ensures
            r is Ok <==> self.valid(),
            r matches Err(e) ==> e is ValidationError,
    ;

    /// Encodes the instance as a row, one cell per column.
    fn to_row(&self) -> (r: Vec<Option<String>>)
        ensures
            r.deep_view() == self.row_of(),
            self.row_of().len() == Self::spec_columns().len(),
    ;

    /// Decodes a raw row: succeeds exactly on the rows that
    /// [`Model::spec_decodable`] accepts, and fails with a `QueryError`
    /// otherwise. A decoded instance maps back to the row it came from.
    fn from_row(row: &Vec<Option<String>>) -> (r: Result<Self, OrmError>)
        ensures
            r is Ok <==> Self::spec_decodable(row.deep_view()),
            r matches Ok(m) ==> m.row_of() == row.deep_view(),
            r matches Err(e) ==> e is QueryError,
    ;
}

/// The rows a sequence of instances maps to, in order.
pub open spec fn spec_rows_of<M: Model>(ms: Seq<M>) -> Seq<RowView> {
    Seq::new(ms.len(), |i: int| ms[i].row_of())
}

/// Inserts one instance. Validation runs first: an invalid instance gives
/// the `ValidationError` and the table is untouched. A valid one is
/// appended and handed back as stored.
pub fn create<M: Model>(m: M, t: &mut Table) -> (r: Result<M, OrmError>)
    requires
        old(t).wf(),
        old(t).columns.deep_view() == M::spec_columns(),
    ensures
        final(t).wf(),
        final(t).name@ == old(t).name@,
        final(t).columns.deep_view() == old(t).columns.deep_view(),
        r is Ok <==> m.valid(),
        m.valid() ==> final(t).rows_view() == old(t).rows_view().push(m.row_of()) && (r matches Ok(
            m2,
        ) ==> m2 == m),
        !m.valid() ==> final(t).rows_view() == old(t).rows_view() && (r matches Err(e) ==> e
            is ValidationError),
{
    match m.validate() {
        Err(e) => Err(e),
        Ok(()) => {
            let row = m.to_row();
            match t.insert_row(row) {
                Err(_) => {
                    proof {
                        assert(false);
                    }
                    unreached()
                },
                Ok(()) => Ok(m),
            }
        },
    }
}

/// Inserts many instances, all or nothing: every instance is validated
/// before any row is stored, and one failure leaves the table untouched
/// with the `ValidationError` of the offending instance.
pub fn create_many<M: Model>(models: Vec<M>, t: &mut Table) -> (r: Result<Vec<M>, OrmError>)
    requires
        old(t).wf(),
        old(t).columns.deep_view() == M::spec_columns(),
    ensures
        final(t).wf(),
        final(t).name@ == old(t).name@,
        final(t).columns.deep_view() == old(t).columns.deep_view(),
        r is Ok <==> (forall|i: int| 0 <= i < models@.len() ==> (#[trigger] models@[i]).valid()),
        r is Ok ==> final(t).rows_view() == old(t).rows_view() + spec_rows_of(models@) && (
        r matches Ok(ms) ==> ms == models),
        !(forall|i: int| 0 <= i < models@.len() ==> (#[trigger] models@[i]).valid()) ==> final(t).rows_view() == old(t).rows_view() && (r matches Err(e) ==> e is ValidationError),
{
    let n = models.len();
    let mut i: usize = 0;
    while i < n
        invariant
            n == models@.len(),
            0 <= i <= n,
            *t == *old(t),
            old(t).wf(),
            forall|k: int| 0 <= k < i ==> (#[trigger] models@[k]).valid(),
        decreases n - i,
    {
        match models[i].validate() {
            Err(e) => {
                return Err(e);
            },
            Ok(()) => {},
        }
        i = i + 1;
    }
    let mut j: usize = 0;
    proof {
        assert(models@.take(0) =~= Seq::<M>::empty());
        assert(spec_rows_of(models@.take(0)) =~= Seq::<RowView>::empty());
        assert(t.rows_view() =~= old(t).rows_view() + spec_rows_of(models@.take(0)));
    }
    while j < n
        invariant
            n == models@.len(),
            old(t).columns.deep_view() == M::spec_columns(),
            0 <= j <= n,
            t.wf(),
            t.name@ == old(t).name@,
            t.columns.deep_view() == old(t).columns.deep_view(),
            t.rows_view() == old(t).rows_view() + spec_rows_of(models@.take(j as int)),
        decreases n - j,
    {
        let row = models[j].to_row();
        match t.insert_row(row) {
            Err(_) => {
                proof {
                    assert(false);
                }
                unreached()
            },
            Ok(()) => {},
        }
        proof {
            let t1 = models@.take(j as int + 1);
            assert(spec_rows_of(t1) =~= spec_rows_of(models@.take(j as int)).push(
                models@[j as int].row_of(),
            ));
            assert(t.rows_view() =~= old(t).rows_view() + spec_rows_of(t1));
        }
        j = j + 1;
    }
    proof {
        assert(models@.take(n as int) =~= models@);
    }
    Ok(models)
}

/// Updates every row whose primary-key cell equals `id` with the
/// instance's current field values. `QueryError` when the type's key
/// column is not in the table; `NotFound`, with the table untouched (row
/// count before equals row count after), when no row has that key.
pub fn update_by_id<M: Model>(m: &M, id: &String, t: &mut Table) -> (r: Result<(), OrmError>)
    requires
        old(t).wf(),
        old(t).columns.deep_view() == M::spec_columns(),
    ensures
        final(t).wf(),
        final(t).name@ == old(t).name@,
        final(t).columns.deep_view() == old(t).columns.deep_view(),
        final(t).rows@.len() == old(t).rows@.len(),
        r is Ok <==> spec_col_index(M::spec_columns(), M::spec_primary_key()) >= 0
            && spec_key_matches(
            old(t).rows_view(),
            spec_col_index(M::spec_columns(), M::spec_primary_key()),
            id@,
        ),
        r is Ok ==> final(t).rows_view() == spec_update_rows(
            old(t).rows_view(),
            spec_col_index(M::spec_columns(), M::spec_primary_key()),
            id@,
            m.row_of(),
        ),
        r is Err ==> final(t).rows_view() == old(t).rows_view(),
        spec_col_index(M::spec_columns(), M::spec_primary_key()) < 0 ==> (r matches Err(e) && e
            is QueryError),
        spec_col_index(M::spec_columns(), M::spec_primary_key()) >= 0 && !spec_key_matches(
            old(t).rows_view(),
            spec_col_index(M::spec_columns(), M::spec_primary_key()),
            id@,
        ) ==> (r matches Err(e) && e is NotFound),
{
    let pk = M::primary_key();
    let row = m.to_row();
    update_rows_by_key(t, &pk, id, row)
}

/// Updates the row the instance's own primary-key cell names: `NotFound`
/// when the cell is NULL or no row carries that key.
pub fn update<M: Model>(m: &M, t: &mut Table) -> (r: Result<(), OrmError>)
    requires
        old(t).wf(),
        old(t).columns.deep_view() == M::spec_columns(),
    ensures
        final(t).wf(),
        final(t).name@ == old(t).name@,
        final(t).columns.deep_view() == old(t).columns.deep_view(),
        final(t).rows@.len() == old(t).rows@.len(),
        spec_col_index(M::spec_columns(), M::spec_primary_key()) < 0 ==> (r matches Err(e) && e
            is QueryError) && final(t).rows_view() == old(t).rows_view(),
        spec_col_index(M::spec_columns(), M::spec_primary_key()) >= 0 ==> {
            let ci = spec_col_index(M::spec_columns(), M::spec_primary_key());
            match m.row_of()[ci] {
                Option::None => (r matches Err(e) && e is NotFound) && final(t).rows_view() == old(t).rows_view(),
                Option::Some(idv) => {
                    &&& (r is Ok <==> spec_key_matches(old(t).rows_view(), ci, idv))
                    &&& (r is Ok ==> final(t).rows_view() == spec_update_rows(
                        old(t).rows_view(),
                        ci,
                        idv,
                        m.row_of(),
                    ))
                    &&& (r is Err ==> final(t).rows_view() == old(t).rows_view() && (r matches Err(
                        e,
                    ) ==> e is NotFound))
                },
            }
        },
{
    let pk = M::primary_key();
    let row = m.to_row();
    let ci = match crate::condition::col_index(&t.columns, &pk) {
        Option::None => {
            return Err(
                OrmError::QueryError(
                    String::from_str("unknown primary key column"),
                ),
            );
        },
        Option::Some(ci) => ci,
    };
    proof {
        assert(row.deep_view()[ci as int] == row@[ci as int].deep_view());
    }
    let id: String = match &row[ci] {
        Option::None => {
            return Err(
                OrmError::NotFound(
                    String::from_str("primary key cell is null"),
                ),
            );
        },
        Option::Some(idv) => idv.clone(),
    };
    update_rows_by_key(t, &pk, &id, row)
}

/// Deletes every row whose primary-key cell equals `id`: `QueryError` when
/// the key column is not in the table, `NotFound`, with the table
/// untouched, when no row has that key.
pub fn delete_by_id<M: Model>(id: &String, t: &mut Table) -> (r: Result<(), OrmError>)
    requires
        old(t).wf(),
        old(t).columns.deep_view() == M::spec_columns(),
    ensures
        final(t).wf(),
        final(t).name@ == old(t).name@,
        final(t).columns.deep_view() == old(t).columns.deep_view(),
        r is Ok <==> spec_col_index(M::spec_columns(), M::spec_primary_key()) >= 0
            && spec_key_matches(
            old(t).rows_view(),
            spec_col_index(M::spec_columns(), M::spec_primary_key()),
            id@,
        ),
        r is Ok ==> final(t).rows_view() == spec_delete_rows(
            old(t).rows_view(),
            spec_col_index(M::spec_columns(), M::spec_primary_key()),
            id@,
        ),
        r is Err ==> final(t).rows_view() == old(t).rows_view(),
        spec_col_index(M::spec_columns(), M::spec_primary_key()) < 0 ==> (r matches Err(e) && e
            is QueryError),
        spec_col_index(M::spec_columns(), M::spec_primary_key()) >= 0 && !spec_key_matches(
            old(t).rows_view(),
            spec_col_index(M::spec_columns(), M::spec_primary_key()),
            id@,
        ) ==> (r matches Err(e) && e is NotFound),
{
    let pk = M::primary_key();
    delete_rows_by_key(t, &pk, id)
}

/// Deletes the row the instance's own primary-key cell names.
pub fn delete<M: Model>(m: &M, t: &mut Table) -> (r: Result<(), OrmError>)
    requires
        old(t).wf(),
        old(t).columns.deep_view() == M::spec_columns(),
    ensures
        final(t).wf(),
        final(t).name@ == old(t).name@,
        final(t).columns.deep_view() == old(t).columns.deep_view(),
        spec_col_index(M::spec_columns(), M::spec_primary_key()) < 0 ==> (r matches Err(e) && e
            is QueryError) && final(t).rows_view() == old(t).rows_view(),
        spec_col_index(M::spec_columns(), M::spec_primary_key()) >= 0 ==> {
            let ci = spec_col_index(M::spec_columns(), M::spec_primary_key());
            match m.row_of()[ci] {
                Option::None => (r matches Err(e) && e is NotFound) && final(t).rows_view() == old(t).rows_view(),
                Option::Some(idv) => {
                    &&& (r is Ok <==> spec_key_matches(old(t).rows_view(), ci, idv))
                    &&& (r is Ok ==> final(t).rows_view() == spec_delete_rows(
                        old(t).rows_view(),
                        ci,
                        idv,
                    ))
                    &&& (r is Err ==> final(t).rows_view() == old(t).rows_view() && (r matches Err(
                        e,
                    ) ==> e is NotFound))
                },
            }
        },
{
    let pk = M::primary_key();
    let row = m.to_row();
    let ci = match crate::condition::col_index(&t.columns, &pk) {
        Option::None => {
            return Err(
                OrmError::QueryError(
                    String::from_str("unknown primary key column"),
                ),
            );
        },
        Option::Some(ci) => ci,
    };
    proof {
        assert(row.deep_view()[ci as int] == row@[ci as int].deep_view());
    }
    let id: String = match &row[ci] {
        Option::None => {
            return Err(
                OrmError::NotFound(
                    String::from_str("primary key cell is null"),
                ),
            );
        },
        Option::Some(idv) => idv.clone(),
    };
    delete_rows_by_key(t, &pk, &id)
}

/// All instances whose rows match the conjunction, in stored order.
/// Succeeds exactly when every column the conditions read exists and every
/// matching row decodes; in particular zero matching rows give an empty
/// sequence, not an error. Fails with a `QueryError` otherwise.
pub fn find_by<M: Model>(t: &Table, conds: &Vec<Condition>) -> (r: Result<Vec<M>, OrmError>)
    requires
        t.wf(),
        t.columns.deep_view() == M::spec_columns(),
    ensures
        r is Ok <==> ({
            let f = spec_filter_rows(conds@, t.columns.deep_view(), t.rows_view());
            crate::table::spec_conds_cols_ok(conds@, t.columns.deep_view()) && (forall|i: int|
                0 <= i < f.len() ==> M::spec_decodable(#[trigger] f[i]))
        }),
        r matches Ok(ms) ==> {
            let f = spec_filter_rows(conds@, t.columns.deep_view(), t.rows_view());
            ms@.len() == f.len() && (forall|i: int|
                0 <= i < ms@.len() ==> (#[trigger] ms@[i]).row_of() == f[i])
        },
        r matches Err(e) ==> e is QueryError,
{
    let rows = select_rows(t, conds, &Option::None, Option::None, Option::None)?;
    let ghost f = spec_filter_rows(conds@, t.columns.deep_view(), t.rows_view());
    proof {
        assert(spec_page(f, Option::None, Option::None) =~= f);
        assert(rows.deep_view() == f);
    }
    let n = rows.len();
    let mut ms: Vec<M> = Vec::new();
    let mut i: usize = 0;
    while i < n
        invariant
            n == rows@.len(),
            f == spec_filter_rows(conds@, t.columns.deep_view(), t.rows_view()),
            rows.deep_view() == f,
            0 <= i <= n,
            ms@.len() == i,
            forall|k: int| 0 <= k < i ==> (#[trigger] ms@[k]).row_of() == f[k],
            forall|k: int| 0 <= k < i ==> M::spec_decodable(#[trigger] f[k]),
        decreases n - i,
    {
        proof {
            assert(rows.deep_view()[i as int] == rows@[i as int].deep_view());
        }
        match M::from_row(&rows[i]) {
            Err(e) => {
                proof {
                    assert(!M::spec_decodable(
                        spec_filter_rows(conds@, t.columns.deep_view(), t.rows_view())[i as int],
                    ));
                }
                return Err(e);
            },
            Ok(m) => {
                ms.push(m);
            },
        }
        i = i + 1;
    }
    Ok(ms)
}

/// At most one matching instance: an empty optional, not an error, when
/// nothing matches, and the first stored match (decoded) otherwise.
/// Succeeds exactly when every column the conditions read exists and, if
/// any row matches, the first match decodes; it never fails because of how
/// many rows match. Fails with a `QueryError` otherwise.
pub fn find_one_by<M: Model>(t: &Table, conds: &Vec<Condition>) -> (r: Result<Option<M>, OrmError>)
    requires
        t.wf(),
        t.columns.deep_view() == M::spec_columns(),
    ensures
        r is Ok <==> ({
            let f = spec_filter_rows(conds@, t.columns.deep_view(), t.rows_view());
            crate::table::spec_conds_cols_ok(conds@, t.columns.deep_view()) && (f.len() == 0
                || M::spec_decodable(f[0]))
        }),
        r matches Ok(o) ==> {
            let f = spec_filter_rows(conds@, t.columns.deep_view(), t.rows_view());
            match o {
                Option::None => f.len() == 0,
                Option::Some(m) => f.len() > 0 && m.row_of() == f[0],
            }
        },
        r matches Err(e) ==> e is QueryError,
{
    let rows = select_rows(t, conds, &Option::None, Option::Some(1u64), Option::None)?;
    let ghost f = spec_filter_rows(conds@, t.columns.deep_view(), t.rows_view());
    proof {
        if f.len() == 0 {
            assert(spec_page(f, Option::Some(1u64), Option::None) =~= f);
        } else {
            assert(spec_page(f, Option::Some(1u64), Option::None) =~= f.subrange(0, 1));
        }
    }
    if rows.len() == 0 {
        Ok(Option::None)
    } else {
        proof {
            assert(rows.deep_view()[0] == rows@[0].deep_view());
            assert(rows.deep_view()[0] == f[0]);
        }
        match M::from_row(&rows[0]) {
            Err(e) => Err(e),
            Ok(m) => Ok(Option::Some(m)),
        }
    }
}


/// Compiles the single multi-row INSERT for a batch of instances, for an
/// external backend. Every instance is validated first, before any I/O
/// could happen: one invalid instance gives its `ValidationError` and no
/// statement, so no row can be inserted (all-or-nothing).
pub fn insert_statement<M: Model>(d: crate::dialect::Dialect, models: &Vec<M>) -> (r: Result<
    Statement,
    OrmError,
>)
    ensures
        r is Ok <==> (forall|i: int| 0 <= i < models@.len() ==> (#[trigger] models@[i]).valid())
            && spec_valid_identifier(M::spec_table_name()) && spec_cols_idents_ok(
            M::spec_columns(),
        ) && M::spec_columns().len() >= 1 && models@.len() >= 1,
        !(forall|i: int| 0 <= i < models@.len() ==> (#[trigger] models@[i]).valid()) ==> (
        r matches Err(e) && e is ValidationError),
        r matches Ok(st) ==> st.sql@ == spec_insert_sql(
            d,
            M::spec_table_name(),
            M::spec_columns(),
            spec_rows_of(models@),
        ) && st.params.deep_view() == spec_rows_params(spec_rows_of(models@)),
        r matches Err(e) ==> e is ValidationError,
{
    let n = models.len();
    let mut i: usize = 0;
    while i < n
        invariant
            n == models@.len(),
            0 <= i <= n,
            forall|k: int| 0 <= k < i ==> (#[trigger] models@[k]).valid(),
        decreases n - i,
    {
        match models[i].validate() {
            Err(e) => {
                return Err(e);
            },
            Ok(()) => {},
        }
        i = i + 1;
    }
    let mut rows: Vec<Vec<Option<String>>> = Vec::new();
    let mut j: usize = 0;
    proof {
        assert(models@.take(0) =~= Seq::<M>::empty());
        assert(rows.deep_view() =~= spec_rows_of(models@.take(0)));
    }
    while j < n
        invariant
            n == models@.len(),
            0 <= j <= n,
            rows@.len() == j,
            rows.deep_view() == spec_rows_of(models@.take(j as int)),
            forall|k: int| 0 <= k < rows@.len() ==> (#[trigger] rows@[k])@.len()
                == M::spec_columns().len(),
        decreases n - j,
    {
        let row = models[j].to_row();
        let ghost pre_v = rows@;
        let ghost pre_d = rows.deep_view();
        rows.push(row);
        proof {
            assert forall|k: int| 0 <= k <= j as int implies rows.deep_view()[k] == spec_rows_of(
                models@.take(j as int + 1),
            )[k] by {
                assert(rows.deep_view()[k] == rows@[k].deep_view());
                if k < j as int {
                    assert(rows@[k] == pre_v[k]);
                    assert(pre_d[k] == pre_v[k].deep_view());
                }
            }
            assert(rows.deep_view() =~= spec_rows_of(models@.take(j as int + 1)));
        }
        j = j + 1;
    }
    proof {
        assert(models@.take(n as int) =~= models@);
    }
    let table = M::table_name();
    let cols = M::columns();
    compile_insert(d, &table, &cols, &rows)
}

/// Compiles the keyed UPDATE for one instance's current field values, for
/// an external backend: the key value is the last parameter.
pub fn update_statement<M: Model>(d: crate::dialect::Dialect, m: &M, id: &String) -> (r: Result<
    Statement,
    OrmError,
>)
    ensures
        r is Ok <==> spec_valid_identifier(M::spec_table_name()) && spec_cols_idents_ok(
            M::spec_columns(),
        ) && spec_valid_identifier(M::spec_primary_key()) && M::spec_columns().len() >= 1,
        r matches Ok(st) ==> st.sql@ == spec_update_sql(
            d,
            M::spec_table_name(),
            M::spec_columns(),
            m.row_of(),
            M::spec_primary_key(),
        ) && st.params.deep_view() == spec_row_params(m.row_of()).push(id@),
        r matches Err(e) ==> e is ValidationError,
{
    let table = M::table_name();
    let cols = M::columns();
    let row = m.to_row();
    let key = M::primary_key();
    compile_update_by_id(d, &table, &cols, &row, &key, id)
}

/// Compiles the keyed DELETE, for an external backend: one parameter, the
/// key value.
pub fn delete_statement<M: Model>(d: crate::dialect::Dialect, id: &String) -> (r: Result<
    Statement,
    OrmError,
>)
    ensures
        r is Ok <==> spec_valid_identifier(M::spec_table_name()) && spec_valid_identifier(
            M::spec_primary_key(),
        ),
        r matches Ok(st) ==> st.sql@ == spec_delete_sql(
            d,
            M::spec_table_name(),
            M::spec_primary_key(),
        ) && st.params.deep_view() == seq![id@],
        r matches Err(e) ==> e is ValidationError,
{
    let table = M::table_name();
    let key = M::primary_key();
    compile_delete_by_id(d, &table, &key, id)
}


/// Folds the affected-row count a backend reports for a keyed mutation
/// into the contract's result: zero affected rows is the `NotFound` the
/// keyed operations owe, anything else is success.
pub fn require_affected(affected: u64, id: &String) -> (r: Result<(), OrmError>)
    ensures
        r is Ok <==> affected > 0,
        r matches Err(e) ==> e is NotFound,
{
    if affected == 0 {
        Err(OrmError::NotFound(String::from_str("no row matches: ").concat(id.as_str())))
    } else {
        Ok(())
    }
}

} // verus!
