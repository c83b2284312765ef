//! The fluent query builder: immutable accumulation of filter, ordering
//! and pagination state. Every `where_*` call narrows the result set (the
//! conditions AND-combine); `order_by`, `limit` and `offset` replace any
//! prior value (last write wins). No builder call performs I/O: `execute`,
//! `first` and `count` run against an in-memory table, and `to_statement` /
//! `to_count_statement` compile the equivalent SQL for an external backend.

use vstd::prelude::*;
use vstd::string::StringExecFns;
use core::marker::PhantomData;
use crate::compiler::{
    compile_count, compile_select, spec_conds_idents_ok, spec_count_sql, spec_order_ok,
    spec_order_view, spec_select_sql, Statement,
};
use crate::condition::{spec_literals_list, Condition};
use crate::errors::OrmError;
use crate::model::Model;
use crate::table::{
    spec_filter_rows, spec_order_col_ok, spec_select_rows, spec_conds_cols_ok, Table,
};

verus! {

/// One leaf comparison shape, for [`QueryBuilder::where_compare`].
#[derive(Debug, Clone, Copy, PartialEq, Eq, Structural)]
pub enum CompareOp {
    Eq,
    Neq,
    Gt,
    Gte,
    Lt,
    Lte,
    Like,
    NotLike,
}

/// Whether `c` is the leaf comparison that `op` stands for, on `col` and
/// `v`.
pub open spec fn spec_is_compare(op: CompareOp, c: Condition, col: Seq<char>, v: Seq<char>) -> bool {
    match op {
        CompareOp::Eq => c matches Condition::Equals(c0, v0) && c0@ == col && v0@ == v,
        CompareOp::Neq => c matches Condition::NotEquals(c0, v0) && c0@ == col && v0@ == v,
        CompareOp::Gt => c matches Condition::GreaterThan(c0, v0) && c0@ == col && v0@ == v,
        CompareOp::Gte => c matches Condition::GreaterThanOrEqual(c0, v0) && c0@ == col && v0@ == v,
        CompareOp::Lt => c matches Condition::LessThan(c0, v0) && c0@ == col && v0@ == v,
        CompareOp::Lte => c matches Condition::LessThanOrEqual(c0, v0) && c0@ == col && v0@ == v,
        CompareOp::Like => c matches Condition::Like(c0, v0) && c0@ == col && v0@ == v,
        CompareOp::NotLike => c matches Condition::NotLike(c0, v0) && c0@ == col && v0@ == v,
    }
}

/// Accumulated query state for the entity type `M`: the conjunction of
/// filters, at most one ordering key, and optional pagination. Built by
/// the [`query`] factory, finalized exactly once by `execute`, `first` or
/// `count`.
#[derive(Debug)]
pub struct QueryBuilder<M: Model> {
    pub conditions: Vec<Condition>,
    pub limit: Option<u64>,
    pub offset: Option<u64>,
    pub order_by: Option<(String, bool)>,
    pub marker: PhantomData<M>,
}

impl<M: Model> QueryBuilder<M> {
    /// An empty query: no filter (every row matches), no ordering, no
    /// pagination.
    pub fn new() -> (r: QueryBuilder<M>)
        ensures
            r.conditions@.len() == 0,
            r.limit is None,
            r.offset is None,
            r.order_by is None,
    {
        QueryBuilder {
            conditions: Vec::new(),
            limit: Option::None,
            offset: Option::None,
            order_by: Option::None,
            marker: PhantomData,
        }
    }

    /// Adds one condition to the conjunction: later calls narrow the
    /// result set.
    pub fn where_cond(self, c: Condition) -> (r: QueryBuilder<M>)
        ensures
            r.conditions@ == self.conditions@.push(c),
            r.limit == self.limit,
            r.offset == self.offset,
            r.order_by == self.order_by,
    {
        let mut conditions = self.conditions;
        conditions.push(c);
        QueryBuilder { conditions, limit: self.limit, offset: self.offset, order_by: self.order_by, marker: PhantomData }
    }

    /// Narrows to rows whose `column` equals `value`.
    pub fn where_eq(self, column: &str, value: &str) -> (r: QueryBuilder<M>)
        ensures
            r.conditions@.len() == self.conditions@.len() + 1,
            r.conditions@.drop_last() == self.conditions@,
            r.conditions@.last() matches Condition::Equals(c0, v0) && c0@ == column@ && v0@
                == value@,
            r.limit == self.limit,
            r.offset == self.offset,
            r.order_by == self.order_by,
    {
        let r = self.where_cond(
            Condition::Equals(String::from_str(column), String::from_str(value)),
        );
        proof {
            assert(r.conditions@.drop_last() =~= r.conditions@.drop_last());
        }
        r
    }

    /// Narrows by one leaf comparison of the given shape.
    pub fn where_compare(self, column: &str, op: CompareOp, value: &str) -> (r: QueryBuilder<M>)
        ensures
            r.conditions@.len() == self.conditions@.len() + 1,
            r.conditions@.drop_last() == self.conditions@,
            spec_is_compare(op, r.conditions@.last(), column@, value@),
            r.limit == self.limit,
            r.offset == self.offset,
            r.order_by == self.order_by,
    {
        let col = String::from_str(column);
        let v = String::from_str(value);
        let c = match op {
            CompareOp::Eq => Condition::Equals(col, v),
            CompareOp::Neq => Condition::NotEquals(col, v),
            CompareOp::Gt => Condition::GreaterThan(col, v),
            CompareOp::Gte => Condition::GreaterThanOrEqual(col, v),
            CompareOp::Lt => Condition::LessThan(col, v),
            CompareOp::Lte => Condition::LessThanOrEqual(col, v),
            CompareOp::Like => Condition::Like(col, v),
            CompareOp::NotLike => Condition::NotLike(col, v),
        };
        self.where_cond(c)
    }

    /// Narrows to rows whose `column` is one of `values` (no row when
    /// `values` is empty).
    pub fn where_in(self, column: &str, values: Vec<String>) -> (r: QueryBuilder<M>)
        ensures
            r.conditions@.len() == self.conditions@.len() + 1,
            r.conditions@.drop_last() == self.conditions@,
            r.conditions@.last() matches Condition::In(c0, vs) && c0@ == column@ && vs.deep_view()
                == values.deep_view(),
            r.limit == self.limit,
            r.offset == self.offset,
            r.order_by == self.order_by,
    {
        self.where_cond(Condition::In(String::from_str(column), values))
    }

    /// Narrows to rows whose `column` is NULL (`is_null` true) or not NULL
    /// (`is_null` false).
    pub fn where_null(self, column: &str, is_null: bool) -> (r: QueryBuilder<M>)
        ensures
            r.conditions@.len() == self.conditions@.len() + 1,
            r.conditions@.drop_last() == self.conditions@,
            is_null ==> (r.conditions@.last() matches Condition::IsNull(c0) && c0@ == column@),
            !is_null ==> (r.conditions@.last() matches Condition::IsNotNull(c0) && c0@ == column@),
            r.limit == self.limit,
            r.offset == self.offset,
            r.order_by == self.order_by,
    {
        if is_null {
            self.where_cond(Condition::IsNull(String::from_str(column)))
        } else {
            self.where_cond(Condition::IsNotNull(String::from_str(column)))
        }
    }

    /// Caps the number of returned rows; a second call replaces the first
    /// (last write wins).
    pub fn limit(self, limit: u64) -> (r: QueryBuilder<M>)
        ensures
            r.conditions@ == self.conditions@,
            r.limit == Option::Some(limit),
            r.offset == self.offset,
            r.order_by == self.order_by,
    {
        QueryBuilder {
            conditions: self.conditions,
            limit: Option::Some(limit),
            offset: self.offset,
            order_by: self.order_by,
            marker: PhantomData,
        }
    }

    /// Skips the first rows; a second call replaces the first (last write
    /// wins).
    pub fn offset(self, offset: u64) -> (r: QueryBuilder<M>)
        ensures
            r.conditions@ == self.conditions@,
            r.limit == self.limit,
            r.offset == Option::Some(offset),
            r.order_by == self.order_by,
    {
        QueryBuilder {
            conditions: self.conditions,
            limit: self.limit,
            offset: Option::Some(offset),
            order_by: self.order_by,
            marker: PhantomData,
        }
    }

    /// Orders by one column, descending when `descending` holds; a second
    /// call replaces the first (last write wins). Without any ordering key
    /// the result order is the backend's and must be treated as
    /// unspecified.
    pub fn order_by(self, column: &str, descending: bool) -> (r: QueryBuilder<M>)
        ensures
            r.conditions@ == self.conditions@,
            r.limit == self.limit,
            r.offset == self.offset,
            r.order_by matches Some((c0, d)) && c0@ == column@ && d == descending,
    {
        QueryBuilder {
            conditions: self.conditions,
            limit: self.limit,
            offset: self.offset,
            order_by: Option::Some((String::from_str(column), descending)),
            marker: PhantomData,
        }
    }

    /// Compiles this query to SQL for the dialect: the text of
    /// [`spec_select_sql`] over `M`'s table, with the conditions' literals
    /// as the parameters, in order. `ValidationError` exactly when some
    /// identifier fails the allow-list; nothing is submitted anywhere.
    pub fn to_statement(&self, d: crate::dialect::Dialect) -> (r: Result<Statement, OrmError>)
        ensures
            r is Ok <==> crate::text::spec_valid_identifier(M::spec_table_name())
                && spec_conds_idents_ok(self.conditions@) && spec_order_ok(
                spec_order_view(self.order_by),
            ),
            r matches Ok(st) ==> st.sql@ == spec_select_sql(
                d,
                M::spec_table_name(),
                self.conditions@,
                spec_order_view(self.order_by),
                self.limit,
                self.offset,
            ) && st.params.deep_view() == spec_literals_list(self.conditions@),
            r matches Err(e) ==> e is ValidationError,
    {
        let table = M::table_name();
        compile_select(d, &table, &self.conditions, &self.order_by, self.limit, self.offset)
    }

    /// Compiles the row-count projection over the same filter.
    pub fn to_count_statement(&self, d: crate::dialect::Dialect) -> (r: Result<Statement, OrmError>)
        ensures
            r is Ok <==> crate::text::spec_valid_identifier(M::spec_table_name())
                && spec_conds_idents_ok(self.conditions@),
            r matches Ok(st) ==> st.sql@ == spec_count_sql(
                d,
                M::spec_table_name(),
                self.conditions@,
            ) && st.params.deep_view() == spec_literals_list(self.conditions@),
            r matches Err(e) ==> e is ValidationError,
    {
        let table = M::table_name();
        compile_count(d, &table, &self.conditions)
    }

    /// Runs the query against the table: filter, sort, paginate, decode.
    /// Succeeds exactly when every column the query reads exists and every
    /// selected row decodes; in particular zero matching rows give an
    /// empty sequence, not an error. Fails with a `QueryError` otherwise.
    pub fn execute(self, t: &Table) -> (r: Result<Vec<M>, OrmError>)
        requires
            t.wf(),
            t.columns.deep_view() == M::spec_columns(),
        ensures
            r is Ok <==> ({
                let sel = spec_select_rows(
                    *t,
                    self.conditions@,
                    spec_order_view(self.order_by),
                    self.limit,
                    self.offset,
                );
                &&& spec_conds_cols_ok(self.conditions@, t.columns.deep_view())
                &&& spec_order_col_ok(t.columns.deep_view(), spec_order_view(self.order_by))
                &&& (forall|i: int| 0 <= i < sel.len() ==> M::spec_decodable(#[trigger] sel[i]))
            }),
            r matches Ok(ms) ==> {
                let sel = spec_select_rows(
                    *t,
                    self.conditions@,
                    spec_order_view(self.order_by),
                    self.limit,
                    self.offset,
                );
                ms@.len() == sel.len() && (forall|i: int|
                    0 <= i < ms@.len() ==> (#[trigger] ms@[i]).row_of() == sel[i])
            },
            r matches Err(e) ==> e is QueryError,
    {
        let rows = crate::table::select_rows(
            t,
            &self.conditions,
            &self.order_by,
            self.limit,
            self.offset,
        )?;
        let ghost sel = spec_select_rows(
            *t,
            self.conditions@,
            spec_order_view(self.order_by),
            self.limit,
            self.offset,
        );
        let n = rows.len();
        let mut ms: Vec<M> = Vec::new();
        let mut i: usize = 0;
        while i < n
            invariant
                n == rows@.len(),
                sel == spec_select_rows(
                    *t,
                    self.conditions@,
                    spec_order_view(self.order_by),
                    self.limit,
                    self.offset,
                ),
                rows.deep_view() == sel,
                0 <= i <= n,
                ms@.len() == i,
                forall|k: int| 0 <= k < i ==> (#[trigger] ms@[k]).row_of() == sel[k],
                forall|k: int| 0 <= k < i ==> M::spec_decodable(#[trigger] sel[k]),
            decreases n - i,
        {
            proof {
                assert(rows.deep_view()[i as int] == rows@[i as int].deep_view());
            }
            match M::from_row(&rows[i]) {
                Err(e) => {
                    proof {
                        assert(!M::spec_decodable(
                            spec_select_rows(
                                *t,
                                self.conditions@,
                                spec_order_view(self.order_by),
                                self.limit,
                                self.offset,
                            )[i as int],
                        ));
                    }
                    return Err(e);
                },
                Ok(m) => {
                    ms.push(m);
                },
            }
            i = i + 1;
        }
        Ok(ms)
    }

    /// Sugar for `limit(1)` plus `execute`: the first row of the ordered
    /// selection as an optional. Succeeds exactly when every column the
    /// query reads exists and the selected row, if one matches, decodes;
    /// in particular zero matching rows give an empty optional, not an
    /// error.
    pub fn first(self, t: &Table) -> (r: Result<Option<M>, OrmError>)
        requires
            t.wf(),
            t.columns.deep_view() == M::spec_columns(),
        ensures
            r is Ok <==> ({
                let sel = spec_select_rows(
                    *t,
                    self.conditions@,
                    spec_order_view(self.order_by),
                    Option::Some(1u64),
                    self.offset,
                );
                &&& spec_conds_cols_ok(self.conditions@, t.columns.deep_view())
                &&& spec_order_col_ok(t.columns.deep_view(), spec_order_view(self.order_by))
                &&& (forall|i: int| 0 <= i < sel.len() ==> M::spec_decodable(#[trigger] sel[i]))
            }),
            r matches Ok(o) ==> {
                let sel = spec_select_rows(
                    *t,
                    self.conditions@,
                    spec_order_view(self.order_by),
                    Option::Some(1u64),
                    self.offset,
                );
                match o {
                    Option::None => sel.len() == 0,
                    Option::Some(m) => sel.len() == 1 && m.row_of() == sel[0],
                }
            },
            r matches Err(e) ==> e is QueryError,
    {
        let limited = QueryBuilder {
            conditions: self.conditions,
            limit: Option::Some(1u64),
            offset: self.offset,
            order_by: self.order_by,
            marker: PhantomData,
        };
        let mut ms = limited.execute(t)?;
        if ms.len() == 0 {
            Ok(Option::None)
        } else {
            let m = match ms.pop() {
                Option::Some(m) => m,
                Option::None => unreached(),
            };
            proof {
                assert(ms@.len() == 0);
            }
            Ok(Option::Some(m))
        }
    }

    /// The number of rows the filter matches; ordering and pagination do
    /// not apply to a count and are ignored, and no row data is moved.
    pub fn count(self, t: &Table) -> (r: Result<usize, OrmError>)
        requires
            t.wf(),
            t.columns.deep_view() == M::spec_columns(),
        ensures
            r is Ok <==> spec_conds_cols_ok(self.conditions@, t.columns.deep_view()),
            r matches Ok(c) ==> c == spec_filter_rows(
                self.conditions@,
                t.columns.deep_view(),
                t.rows_view(),
            ).len(),
            r matches Err(e) ==> e is QueryError,
    {
        crate::table::count_rows(t, &self.conditions)
    }
}

/// The query factory of the entity contract: a fresh, empty builder for
/// `M`'s table.
pub fn query<M: Model>() -> (r: QueryBuilder<M>)
    ensures
        r.conditions@.len() == 0,
        r.limit is None,
        r.offset is None,
        r.order_by is None,
{
    QueryBuilder::new()
}

} // verus!
