//! The in-memory table engine: rows of optional string cells laid out by a
//! column list, with filtering (the condition semantics of
//! [`crate::condition`]), stable sorting on one key, pagination, and keyed
//! mutation. This is the backend the library's CRUD contract is verified
//! against; the compiler of [`crate::compiler`] produces the equivalent SQL
//! for an external backend.

use vstd::prelude::*;
use vstd::string::StringExecFns;
use crate::condition::{
    eval_condition, spec_col_index, spec_cond_cols_ok, spec_eval, Condition,
};
use crate::errors::OrmError;
use crate::text::{lemma_lex_lt_asymmetric, lemma_lex_lt_connected, lex_lt, spec_lex_lt};

verus! {

/// A row as the specifications see it: one optional character sequence per
/// column, `None` standing for NULL.
pub type RowView = Seq<Option<Seq<char>>>;

/// One table: a name, a column layout, and the stored rows. Every row holds
/// exactly one cell per column.
#[derive(Debug)]
pub struct Table {
    pub name: String,
    pub columns: Vec<String>,
    pub rows: Vec<Vec<Option<String>>>,
}

impl Table {
    /// Well-formedness: the name and the columns pass the identifier
    /// allow-list and every row has exactly one cell per column.
    pub open spec fn wf(self) -> bool {
        &&& crate::text::spec_valid_identifier(self.name@)
        &&& forall|i: int|
            0 <= i < self.columns@.len() ==> crate::text::spec_valid_identifier(
                #[trigger] self.columns.deep_view()[i],
            )
        &&& forall|i: int| 0 <= i < self.rows@.len() ==> (#[trigger] self.rows@[i])@.len()
            == self.columns@.len()
    }

    /// The rows as the specifications see them.
    pub open spec fn rows_view(self) -> Seq<RowView> {
        self.rows.deep_view()
    }

    /// Creates an empty table, rejecting a name or a column that fails the
    /// identifier allow-list with a `ValidationError`.
    pub fn new(name: String, columns: Vec<String>) -> (r: Result<Table, OrmError>)
        ensures
            r is Ok <==> crate::text::spec_valid_identifier(name@) && (forall|i: int|
                0 <= i < columns@.len() ==> crate::text::spec_valid_identifier(
                    #[trigger] columns.deep_view()[i],
                )),
            r matches Ok(t) ==> t.wf() && t.name@ == name@ && t.columns.deep_view()
                == columns.deep_view() && t.rows@.len() == 0,
            r matches Err(e) ==> e is ValidationError,
    {
        if !crate::text::valid_identifier(name.as_str()) {
            return Err(
                OrmError::ValidationError(
                    String::from_str("invalid identifier: ").concat(name.as_str()),
                ),
            );
        }
        let n = columns.len();
        let mut i: usize = 0;
        while i < n
            invariant
                n == columns@.len(),
                0 <= i <= n,
                forall|j: int|
                    0 <= j < i ==> crate::text::spec_valid_identifier(
                        #[trigger] columns.deep_view()[j],
                    ),
            decreases n - i,
        {
            proof {
                assert(columns.deep_view()[i as int] == columns@[i as int]@);
            }
            if !crate::text::valid_identifier(columns[i].as_str()) {
                return Err(
                    OrmError::ValidationError(
                        String::from_str("invalid identifier: ").concat(columns[i].as_str()),
                    ),
                );
            }
            i = i + 1;
        }
        Ok(Table { name, columns, rows: Vec::new() })
    }

    /// Appends one row. Fails with a `QueryError`, leaving the table
    /// unchanged, when the row does not have one cell per column.
    pub fn insert_row(&mut self, row: Vec<Option<String>>) -> (r: Result<(), OrmError>)
        requires
            old(self).wf(),
        ensures
            final(self).wf(),
            final(self).name@ == old(self).name@,
            final(self).columns.deep_view() == old(self).columns.deep_view(),
            r is Ok <==> row@.len() == old(self).columns@.len(),
            r is Ok ==> final(self).rows_view() == old(self).rows_view().push(row.deep_view()),
            r is Err ==> final(self).rows_view() == old(self).rows_view() && (r matches Err(e)
                ==> e is QueryError),
    {
        if row.len() != self.columns.len() {
            return Err(
                OrmError::QueryError(String::from_str("row does not match the column layout")),
            );
        }
        let ghost pre = self.rows.deep_view();
        self.rows.push(row);
        proof {
            assert forall|j: int| 0 <= j < self.rows.deep_view().len() implies self.rows.deep_view()[j]
                == pre.push(row.deep_view())[j] by {
                if j < pre.len() {
                    assert(self.rows.deep_view()[j] == self.rows@[j].deep_view());
                    assert(pre[j] == old(self).rows@[j].deep_view());
                }
            }
            assert(self.rows.deep_view() =~= pre.push(row.deep_view()));
        }
        Ok(())
    }
}

/// Whether every column that any condition of the list names exists.
pub open spec fn spec_conds_cols_ok(conds: Seq<Condition>, cols: Seq<Seq<char>>) -> bool {
    forall|i: int| 0 <= i < conds.len() ==> spec_cond_cols_ok(#[trigger] conds[i], cols)
}

/// A row matches a list of conditions when it matches each of them (the
/// builder AND-combines its filters).
pub open spec fn spec_conds_eval(conds: Seq<Condition>, cols: Seq<Seq<char>>, row: RowView) -> bool {
    forall|i: int| 0 <= i < conds.len() ==> spec_eval(#[trigger] conds[i], cols, row)
}

/// Evaluates a conjunction of conditions on one row; fails with a
/// `QueryError` exactly when some condition names an unknown column.
pub fn conds_eval(conds: &Vec<Condition>, cols: &Vec<String>, row: &Vec<Option<String>>) -> (r:
    Result<bool, OrmError>)
    requires
        row@.len() == cols@.len(),
    ensures
        r is Ok <==> spec_conds_cols_ok(conds@, cols.deep_view()),
        r matches Ok(b) ==> b == spec_conds_eval(conds@, cols.deep_view(), row.deep_view()),
        r matches Err(e) ==> e is QueryError,
{
    let n = conds.len();
    let mut acc = true;
    let mut i: usize = 0;
    while i < n
        invariant
            n == conds@.len(),
            row@.len() == cols@.len(),
            0 <= i <= n,
            forall|k: int| 0 <= k < i ==> spec_cond_cols_ok(#[trigger] conds@[k], cols.deep_view()),
            acc == (forall|k: int|
                0 <= k < i ==> spec_eval(#[trigger] conds@[k], cols.deep_view(), row.deep_view())),
        decreases n - i,
    {
        match eval_condition(&conds[i], cols, row) {
            Err(e) => {
                proof {
                    assert(!spec_cond_cols_ok(conds@[i as int], cols.deep_view()));
                }
                return Err(e);
            },
            Ok(b) => {
                acc = acc && b;
            },
        }
        i = i + 1;
    }
    Ok(acc)
}

/// Copies one row.
pub fn clone_row(r: &Vec<Option<String>>) -> (res: Vec<Option<String>>)
    ensures
        res.deep_view() == r.deep_view(),
        res@.len() == r@.len(),
{
    let n = r.len();
    let mut res: Vec<Option<String>> = Vec::new();
    let mut i: usize = 0;
    while i < n
        invariant
            n == r@.len(),
            0 <= i <= n,
            res@.len() == i,
            forall|j: int| 0 <= j < i ==> #[trigger] res.deep_view()[j] == r.deep_view()[j],
        decreases n - i,
    {
        let cell: Option<String>;
        match &r[i] {
            Option::None => {
                cell = Option::None;
            },
            Option::Some(s) => {
                cell = Option::Some(s.clone());
            },
        }
        proof {
            assert(cell.deep_view() == r.deep_view()[i as int]);
        }
        let ghost pre_v = res@;
        let ghost pre_d = res.deep_view();
        res.push(cell);
        proof {
            assert forall|j: int| 0 <= j <= i as int implies res.deep_view()[j] == r.deep_view()[j]
                by {
                assert(res.deep_view()[j] == res@[j].deep_view());
                if j < i as int {
                    assert(res@[j] == pre_v[j]);
                    assert(pre_d[j] == pre_v[j].deep_view());
                }
            }
        }
        i = i + 1;
    }
    proof {
        assert(res.deep_view() =~= r.deep_view());
    }
    res
}

/// The rows of `rows` that match the conjunction, in their stored order.
pub open spec fn spec_filter_rows(
    conds: Seq<Condition>,
    cols: Seq<Seq<char>>,
    rows: Seq<RowView>,
) -> Seq<RowView>
    decreases rows.len(),
{
    if rows.len() == 0 {
        Seq::empty()
    } else {
        spec_filter_rows(conds, cols, rows.drop_last()) + (if spec_conds_eval(
            conds,
            cols,
            rows.last(),
        ) {
            seq![rows.last()]
        } else {
            Seq::empty()
        })
    }
}

/// Keeps the matching rows. Fails with a `QueryError` exactly when some
/// condition names an unknown column, whether or not any row is stored.
pub fn filter_rows(
    conds: &Vec<Condition>,
    cols: &Vec<String>,
    rows: &Vec<Vec<Option<String>>>,
) -> (r: Result<Vec<Vec<Option<String>>>, OrmError>)
    requires
        forall|i: int| 0 <= i < rows@.len() ==> (#[trigger] rows@[i])@.len() == cols@.len(),
    ensures
        r is Ok <==> spec_conds_cols_ok(conds@, cols.deep_view()),
        r matches Ok(out) ==> out.deep_view() == spec_filter_rows(
            conds@,
            cols.deep_view(),
            rows.deep_view(),
        ) && (forall|i: int| 0 <= i < out@.len() ==> (#[trigger] out@[i])@.len() == cols@.len()),
        r matches Err(e) ==> e is QueryError,
{
    let mut dummy: Vec<Option<String>> = Vec::new();
    let nc = cols.len();
    let mut ci: usize = 0;
    while ci < nc
        invariant
            0 <= ci <= nc,
            dummy@.len() == ci,
        decreases nc - ci,
    {
        dummy.push(Option::None);
        ci = ci + 1;
    }
    match conds_eval(conds, cols, &dummy) {
        Err(e) => {
            return Err(e);
        },
        Ok(_) => {},
    }
    let n = rows.len();
    let mut out: Vec<Vec<Option<String>>> = Vec::new();
    let mut i: usize = 0;
    proof {
        assert(rows.deep_view().take(0) =~= Seq::<RowView>::empty());
        assert(out.deep_view() =~= spec_filter_rows(conds@, cols.deep_view(), rows.deep_view().take(0)));
    }
    while i < n
        invariant
            n == rows@.len(),
            forall|j: int| 0 <= j < rows@.len() ==> (#[trigger] rows@[j])@.len() == cols@.len(),
            spec_conds_cols_ok(conds@, cols.deep_view()),
            0 <= i <= n,
            out.deep_view() == spec_filter_rows(conds@, cols.deep_view(), rows.deep_view().take(i as int)),
            forall|j: int| 0 <= j < out@.len() ==> (#[trigger] out@[j])@.len() == cols@.len(),
        decreases n - i,
    {
        let keep = match conds_eval(conds, cols, &rows[i]) {
            Err(_) => {
                proof {
                    assert(false);
                }
                unreached()
            },
            Ok(b) => b,
        };
        let ghost pre = out.deep_view();
        if keep {
            let c = clone_row(&rows[i]);
            out.push(c);
            proof {
                assert forall|j: int| 0 <= j < out.deep_view().len() implies out.deep_view()[j]
                    == pre.push(rows.deep_view()[i as int])[j] by {
                    if j < pre.len() {
                        assert(out.deep_view()[j] == out@[j].deep_view());
                    }
                }
                assert(out.deep_view() =~= pre.push(rows.deep_view()[i as int]));
            }
        }
        proof {
            let t1 = rows.deep_view().take(i as int + 1);
            assert(t1.drop_last() =~= rows.deep_view().take(i as int));
            assert(t1.last() == rows.deep_view()[i as int]);
            assert(rows.deep_view()[i as int] == rows@[i as int].deep_view());
            if keep {
                assert(out.deep_view() =~= spec_filter_rows(conds@, cols.deep_view(), t1));
            } else {
                assert(out.deep_view() =~= spec_filter_rows(conds@, cols.deep_view(), t1));
            }
        }
        i = i + 1;
    }
    proof {
        assert(rows.deep_view().take(n as int) =~= rows.deep_view());
    }
    Ok(out)
}


/// Order between two sort keys: NULL cells order before every value, values
/// by the lexicographic order of [`spec_lex_lt`].
pub open spec fn spec_key_le(a: Option<Seq<char>>, b: Option<Seq<char>>) -> bool {
    match (a, b) {
        (Option::None, _) => true,
        (Option::Some(_), Option::None) => false,
        (Option::Some(x), Option::Some(y)) => !spec_lex_lt(y, x),
    }
}

/// Order between two rows on the key column `ci`; `desc` flips it.
pub open spec fn spec_row_le(desc: bool, ci: int, a: RowView, b: RowView) -> bool {
    if desc {
        spec_key_le(b[ci], a[ci])
    } else {
        spec_key_le(a[ci], b[ci])
    }
}

/// Executable form of [`spec_row_le`].
pub fn row_le(desc: bool, ci: usize, a: &Vec<Option<String>>, b: &Vec<Option<String>>) -> (r: bool)
    requires
        ci < a@.len(),
        ci < b@.len(),
    ensures
        r == spec_row_le(desc, ci as int, a.deep_view(), b.deep_view()),
{
    let (x, y) = if desc {
        (&b[ci], &a[ci])
    } else {
        (&a[ci], &b[ci])
    };
    proof {
        assert(a.deep_view()[ci as int] == a@[ci as int].deep_view());
        assert(b.deep_view()[ci as int] == b@[ci as int].deep_view());
    }
    match (x, y) {
        (Option::None, _) => true,
        (Option::Some(_), Option::None) => false,
        (Option::Some(xv), Option::Some(yv)) => !lex_lt(yv.as_str(), xv.as_str()),
    }
}

/// Stable insertion of a row into a sorted sequence: the row goes after
/// every stored row that orders at or below it, so rows with equal keys
/// keep their stored order.
pub open spec fn spec_insert_row(desc: bool, ci: int, sorted: Seq<RowView>, r: RowView) -> Seq<
    RowView,
>
    decreases sorted.len(),
{
    if sorted.len() == 0 {
        seq![r]
    } else if spec_row_le(desc, ci, sorted.last(), r) {
        sorted.push(r)
    } else {
        spec_insert_row(desc, ci, sorted.drop_last(), r).push(sorted.last())
    }
}

/// Stable insertion sort of the rows on the key column.
pub open spec fn spec_sort_rows(desc: bool, ci: int, rows: Seq<RowView>) -> Seq<RowView>
    decreases rows.len(),
{
    if rows.len() == 0 {
        Seq::empty()
    } else {
        spec_insert_row(desc, ci, spec_sort_rows(desc, ci, rows.drop_last()), rows.last())
    }
}

/// Where [`spec_insert_row`] puts the new row: at the index `j` after the
/// rows that order at or below it.
proof fn lemma_insert_row_at(desc: bool, ci: int, s: Seq<RowView>, r: RowView, j: int)
    requires
        0 <= j <= s.len(),
        j > 0 ==> spec_row_le(desc, ci, s[j - 1], r),
        forall|m: int| j <= m < s.len() ==> !spec_row_le(desc, ci, #[trigger] s[m], r),
    ensures
        spec_insert_row(desc, ci, s, r) == s.insert(j, r),
    decreases s.len(),
{
    if s.len() == 0 {
        assert(spec_insert_row(desc, ci, s, r) =~= s.insert(0, r));
    } else if spec_row_le(desc, ci, s.last(), r) {
        assert(j == s.len());
        assert(spec_insert_row(desc, ci, s, r) =~= s.insert(j, r));
    } else {
        assert(j < s.len());
        let dl = s.drop_last();
        assert(j > 0 ==> dl[j - 1] == s[j - 1]);
        assert(forall|m: int| j <= m < dl.len() ==> #[trigger] dl[m] == s[m]);
        lemma_insert_row_at(desc, ci, dl, r, j);
        assert(spec_insert_row(desc, ci, s, r) == dl.insert(j, r).push(s.last()));
        assert(dl.insert(j, r).push(s.last()) =~= s.insert(j, r));
    }
}

fn insert_sorted(desc: bool, ci: usize, sorted: &mut Vec<Vec<Option<String>>>, r: Vec<Option<String>>)
    requires
        forall|j: int| 0 <= j < old(sorted)@.len() ==> ci < (#[trigger] old(sorted)@[j])@.len(),
        ci < r@.len(),
    ensures
        final(sorted).deep_view() == spec_insert_row(
            desc,
            ci as int,
            old(sorted).deep_view(),
            r.deep_view(),
        ),
        forall|j: int| 0 <= j < final(sorted)@.len() ==> ci < (#[trigger] final(sorted)@[j])@.len(),
        final(sorted)@.len() == old(sorted)@.len() + 1,
{
    let n = sorted.len();
    let mut j: usize = n;
    while j > 0 && !row_le(desc, ci, &sorted[j - 1], &r)
        invariant
            n == sorted@.len(),
            sorted@ == old(sorted)@,
            forall|m: int| 0 <= m < sorted@.len() ==> ci < (#[trigger] sorted@[m])@.len(),
            ci < r@.len(),
            0 <= j <= n,
            forall|m: int|
                j <= m < n ==> !spec_row_le(
                    desc,
                    ci as int,
                    #[trigger] sorted.deep_view()[m],
                    r.deep_view(),
                ),
        decreases j,
    {
        j = j - 1;
    }
    let ghost pre_v = sorted@;
    let ghost pre_d = sorted.deep_view();
    let ghost rd = r.deep_view();
    proof {
        if j > 0 {
            assert(spec_row_le(desc, ci as int, pre_d[j - 1], rd));
        }
    }
    sorted.insert(j, r);
    proof {
        assert forall|m: int| 0 <= m < sorted.deep_view().len() implies sorted.deep_view()[m]
            == pre_d.insert(j as int, rd)[m] by {
            assert(sorted.deep_view()[m] == sorted@[m].deep_view());
            assert(sorted@ == pre_v.insert(j as int, r));
            if m < j as int {
                assert(sorted@[m] == pre_v[m]);
                assert(pre_d[m] == pre_v[m].deep_view());
            } else if m == j as int {
            } else {
                assert(sorted@[m] == pre_v[m - 1]);
                assert(pre_d[m - 1] == pre_v[m - 1].deep_view());
            }
        }
        assert(sorted.deep_view() =~= pre_d.insert(j as int, rd));
        lemma_insert_row_at(desc, ci as int, pre_d, rd, j as int);
        assert forall|m: int| 0 <= m < sorted@.len() implies ci < (#[trigger] sorted@[m])@.len() by {
            assert(sorted@ == pre_v.insert(j as int, r));
            if m < j as int {
                assert(sorted@[m] == pre_v[m]);
            } else if m > j as int {
                assert(sorted@[m] == pre_v[m - 1]);
            }
        }
    }
}

/// Sorts rows on the key column with a stable insertion sort.
pub fn sort_rows(desc: bool, ci: usize, rows: &Vec<Vec<Option<String>>>) -> (r: Vec<Vec<Option<String>>>)
    requires
        forall|j: int| 0 <= j < rows@.len() ==> ci < (#[trigger] rows@[j])@.len(),
    ensures
        r.deep_view() == spec_sort_rows(desc, ci as int, rows.deep_view()),
        forall|j: int| 0 <= j < r@.len() ==> ci < (#[trigger] r@[j])@.len(),
{
    let n = rows.len();
    let mut acc: Vec<Vec<Option<String>>> = Vec::new();
    let mut i: usize = 0;
    proof {
        assert(rows.deep_view().take(0) =~= Seq::<RowView>::empty());
        assert(acc.deep_view() =~= spec_sort_rows(desc, ci as int, rows.deep_view().take(0)));
    }
    while i < n
        invariant
            n == rows@.len(),
            forall|j: int| 0 <= j < rows@.len() ==> ci < (#[trigger] rows@[j])@.len(),
            0 <= i <= n,
            acc.deep_view() == spec_sort_rows(desc, ci as int, rows.deep_view().take(i as int)),
            forall|j: int| 0 <= j < acc@.len() ==> ci < (#[trigger] acc@[j])@.len(),
        decreases n - i,
    {
        let c = clone_row(&rows[i]);
        proof {
            assert(c.deep_view() == rows.deep_view()[i as int]);
            assert(c@.len() == rows@[i as int]@.len());
        }
        insert_sorted(desc, ci, &mut acc, c);
        proof {
            let t1 = rows.deep_view().take(i as int + 1);
            assert(t1.drop_last() =~= rows.deep_view().take(i as int));
            assert(t1.last() == rows.deep_view()[i as int]);
            assert(acc.deep_view() =~= spec_sort_rows(desc, ci as int, t1));
        }
        i = i + 1;
    }
    proof {
        assert(rows.deep_view().take(n as int) =~= rows.deep_view());
    }
    acc
}

/// The page of `rows` selected by `offset` (rows skipped) and `limit`
/// (rows kept at most), clipped to what is there.
pub open spec fn spec_page(rows: Seq<RowView>, limit: Option<u64>, offset: Option<u64>) -> Seq<
    RowView,
> {
    let start: int = match offset {
        Option::Some(o) => if o as int <= rows.len() {
            o as int
        } else {
            rows.len() as int
        },
        Option::None => 0,
    };
    let end: int = match limit {
        Option::Some(l) => if start + l as int <= rows.len() {
            start + l as int
        } else {
            rows.len() as int
        },
        Option::None => rows.len() as int,
    };
    rows.subrange(start, end)
}

/// Applies pagination to rows already filtered and sorted.
pub fn page_rows(rows: &Vec<Vec<Option<String>>>, limit: Option<u64>, offset: Option<u64>) -> (r:
    Vec<Vec<Option<String>>>)
    ensures
        r.deep_view() == spec_page(rows.deep_view(), limit, offset),
{
    let n = rows.len();
    let start: usize = match offset {
        Option::Some(o) => if o <= n as u64 {
            o as usize
        } else {
            n
        },
        Option::None => 0,
    };
    let end: usize = match limit {
        Option::Some(l) => if l <= (n - start) as u64 {
            start + l as usize
        } else {
            n
        },
        Option::None => n,
    };
    let mut out: Vec<Vec<Option<String>>> = Vec::new();
    let mut i: usize = start;
    proof {
        assert(out.deep_view() =~= rows.deep_view().subrange(start as int, start as int));
    }
    while i < end
        invariant
            n == rows@.len(),
            0 <= start <= i <= end <= n,
            out.deep_view() == rows.deep_view().subrange(start as int, i as int),
            out@.len() == i - start,
        decreases end - i,
    {
        let c = clone_row(&rows[i]);
        let ghost pre_d = out.deep_view();
        let ghost pre_v = out@;
        out.push(c);
        proof {
            assert forall|j: int| 0 <= j < out.deep_view().len() implies out.deep_view()[j]
                == pre_d.push(rows.deep_view()[i as int])[j] by {
                assert(out.deep_view()[j] == out@[j].deep_view());
                if j < pre_v.len() {
                    assert(out@[j] == pre_v[j]);
                    assert(pre_d[j] == pre_v[j].deep_view());
                }
            }
            assert(out.deep_view() =~= pre_d.push(rows.deep_view()[i as int]));
            assert(rows.deep_view().subrange(start as int, i as int + 1) =~= rows.deep_view()
                .subrange(start as int, i as int).push(rows.deep_view()[i as int]));
        }
        i = i + 1;
    }
    proof {
        assert(rows.deep_view().len() == rows@.len());
        assert(spec_page(rows.deep_view(), limit, offset) == rows.deep_view().subrange(
            start as int,
            end as int,
        ));
    }
    out
}

/// Whether the ordering key, if present, names a column of the table.
pub open spec fn spec_order_col_ok(cols: Seq<Seq<char>>, order: Option<(Seq<char>, bool)>) -> bool {
    match order {
        Option::None => true,
        Option::Some((col, _)) => spec_col_index(cols, col) >= 0,
    }
}

/// The rows a query returns: the stored rows filtered by the conjunction,
/// sorted on the ordering key if one is given (else left in stored order,
/// which callers must treat as unspecified), then paginated.
pub open spec fn spec_select_rows(
    t: Table,
    conds: Seq<Condition>,
    order: Option<(Seq<char>, bool)>,
    limit: Option<u64>,
    offset: Option<u64>,
) -> Seq<RowView> {
    let filtered = spec_filter_rows(conds, t.columns.deep_view(), t.rows_view());
    let sorted = match order {
        Option::None => filtered,
        Option::Some((col, desc)) => spec_sort_rows(
            desc,
            spec_col_index(t.columns.deep_view(), col),
            filtered,
        ),
    };
    spec_page(sorted, limit, offset)
}

fn unknown_column(col: &String) -> (r: OrmError)
    ensures
        r is QueryError,
{
    OrmError::QueryError(String::from_str("unknown column: ").concat(col.as_str()))
}

/// Runs a query against the table: filter, then sort, then paginate.
/// Succeeds exactly when every column the conditions and the ordering key
/// name exists; the error is a `QueryError`, as from a backend. On success
/// the result is exactly [`spec_select_rows`]; zero matching rows give an
/// empty result, not an error.
pub fn select_rows(
    t: &Table,
    conds: &Vec<Condition>,
    order: &Option<(String, bool)>,
    limit: Option<u64>,
    offset: Option<u64>,
) -> (r: Result<Vec<Vec<Option<String>>>, OrmError>)
    requires
        t.wf(),
    ensures
        r is Ok <==> spec_conds_cols_ok(conds@, t.columns.deep_view()) && spec_order_col_ok(
            t.columns.deep_view(),
            crate::compiler::spec_order_view(*order),
        ),
        r matches Ok(out) ==> out.deep_view() == spec_select_rows(
            *t,
            conds@,
            crate::compiler::spec_order_view(*order),
            limit,
            offset,
        ),
        r matches Err(e) ==> e is QueryError,
{
    let filtered = filter_rows(conds, &t.columns, &t.rows)?;
    let sorted: Vec<Vec<Option<String>>> = match order {
        Option::None => filtered,
        Option::Some((col, desc)) => {
            match crate::condition::col_index(&t.columns, col) {
                Option::None => {
                    return Err(unknown_column(col));
                },
                Option::Some(ci) => {
                    proof {
                        assert(forall|j: int|
                            0 <= j < filtered@.len() ==> ci < (#[trigger] filtered@[j])@.len());
                    }
                    sort_rows(*desc, ci, &filtered)
                },
            }
        },
    };
    let out = page_rows(&sorted, limit, offset);
    Ok(out)
}

/// Counts the rows the conjunction matches, ignoring ordering and
/// pagination (a row count is not paged).
pub fn count_rows(t: &Table, conds: &Vec<Condition>) -> (r: Result<usize, OrmError>)
    requires
        t.wf(),
    ensures
        r is Ok <==> spec_conds_cols_ok(conds@, t.columns.deep_view()),
        r matches Ok(c) ==> c == spec_filter_rows(conds@, t.columns.deep_view(), t.rows_view()).len(),
        r matches Err(e) ==> e is QueryError,
{
    let filtered = filter_rows(conds, &t.columns, &t.rows)?;
    Ok(filtered.len())
}

/// The stored rows with every row whose key cell equals the value replaced
/// by the new row.
pub open spec fn spec_update_rows(rows: Seq<RowView>, ci: int, idv: Seq<char>, new_row: RowView) -> Seq<
    RowView,
> {
    Seq::new(rows.len(), |i: int| if rows[i][ci] == Option::Some(idv) {
        new_row
    } else {
        rows[i]
    })
}

/// Whether some stored row has the value under the key column.
pub open spec fn spec_key_matches(rows: Seq<RowView>, ci: int, idv: Seq<char>) -> bool {
    exists|i: int| 0 <= i < rows.len() && #[trigger] rows[i][ci] == Option::Some(idv)
}

/// Replaces every row whose `key_col` cell equals `id` with `new_row`.
/// Fails with a `QueryError` when the key column does not exist, and with
/// `NotFound` when no row matches; in both cases the table is unchanged
/// (the row count before equals the row count after).
pub fn update_rows_by_key(
    t: &mut Table,
    key_col: &String,
    id: &String,
    new_row: Vec<Option<String>>,
) -> (r: Result<(), OrmError>)
    requires
        old(t).wf(),
        new_row@.len() == old(t).columns@.len(),
    ensures
        final(t).wf(),
        final(t).name@ == old(t).name@,
        final(t).columns.deep_view() == old(t).columns.deep_view(),
        final(t).rows@.len() == old(t).rows@.len(),
        r is Ok <==> spec_col_index(old(t).columns.deep_view(), key_col@) >= 0 && spec_key_matches(
            old(t).rows_view(),
            spec_col_index(old(t).columns.deep_view(), key_col@),
            id@,
        ),
        r is Ok ==> final(t).rows_view() == spec_update_rows(
            old(t).rows_view(),
            spec_col_index(old(t).columns.deep_view(), key_col@),
            id@,
            new_row.deep_view(),
        ),
        r is Err ==> final(t).rows_view() == old(t).rows_view(),
        spec_col_index(old(t).columns.deep_view(), key_col@) < 0 ==> (r matches Err(e) && e
            is QueryError),
        spec_col_index(old(t).columns.deep_view(), key_col@) >= 0 && !spec_key_matches(
            old(t).rows_view(),
            spec_col_index(old(t).columns.deep_view(), key_col@),
            id@,
        ) ==> (r matches Err(e) && e is NotFound),
{
    let ci = match crate::condition::col_index(&t.columns, key_col) {
        Option::None => {
            return Err(unknown_column(key_col));
        },
        Option::Some(ci) => ci,
    };
    let ghost gci = ci as int;
    let ghost pre = t.rows.deep_view();
    let n = t.rows.len();
    let mut matched = false;
    let mut i: usize = 0;
    while i < n
        invariant
            old(t).wf(),
            new_row@.len() == old(t).columns@.len(),
            n == t.rows@.len(),
            n == old(t).rows@.len(),
            t.name == old(t).name,
            t.columns == old(t).columns,
            gci == ci as int,
            0 <= gci < old(t).columns@.len(),
            pre == old(t).rows_view(),
            0 <= i <= n,
            matched == (exists|m: int| 0 <= m < i && #[trigger] pre[m][gci] == Option::Some(id@)),
            forall|m: int| 0 <= m < t.rows@.len() ==> (#[trigger] t.rows@[m])@.len()
                == old(t).columns@.len(),
            forall|m: int|
                0 <= m < i ==> #[trigger] t.rows.deep_view()[m] == (if pre[m][gci]
                    == Option::Some(id@) {
                    new_row.deep_view()
                } else {
                    pre[m]
                }),
            forall|m: int| i <= m < n ==> #[trigger] t.rows.deep_view()[m] == pre[m],
            forall|m: int| i <= m < n ==> #[trigger] t.rows@[m] == old(t).rows@[m],
        decreases n - i,
    {
        proof {
            assert(t.rows.deep_view()[i as int] == t.rows@[i as int].deep_view());
            assert(t.rows@[i as int].deep_view()[gci] == t.rows@[i as int]@[gci].deep_view());
        }
        let hit = match &t.rows[i][ci] {
            Option::Some(x) => x.eq(id),
            Option::None => false,
        };
        proof {
            assert(hit == (pre[i as int][gci] == Option::Some(id@)));
        }
        if hit {
            matched = true;
            let c = clone_row(&new_row);
            let ghost pre_rows_v = t.rows@;
            let ghost pre_rows_d = t.rows.deep_view();
            t.rows[i] = c;
            proof {
                assert(t.rows@ == pre_rows_v.update(i as int, c));
                assert forall|m: int| 0 <= m < n implies #[trigger] t.rows.deep_view()[m] == (if m
                    == i as int {
                    new_row.deep_view()
                } else {
                    pre_rows_d[m]
                }) by {
                    assert(t.rows.deep_view()[m] == t.rows@[m].deep_view());
                    if m != i as int {
                        assert(t.rows@[m] == pre_rows_v[m]);
                        assert(pre_rows_d[m] == pre_rows_v[m].deep_view());
                    }
                }
            }
        }
        i = i + 1;
    }
    if !matched {
        proof {
            assert forall|m: int| 0 <= m < n implies #[trigger] t.rows.deep_view()[m] == pre[m] by {}
            assert(t.rows.deep_view() =~= pre);
        }
        return Err(OrmError::NotFound(String::from_str("no row matches: ").concat(id.as_str())));
    }
    proof {
        assert(t.rows.deep_view() =~= spec_update_rows(pre, gci, id@, new_row.deep_view()));
    }
    Ok(())
}

/// The stored rows without those whose key cell equals the value, in their
/// stored order.
pub open spec fn spec_delete_rows(rows: Seq<RowView>, ci: int, idv: Seq<char>) -> Seq<RowView>
    decreases rows.len(),
{
    if rows.len() == 0 {
        Seq::empty()
    } else {
        spec_delete_rows(rows.drop_last(), ci, idv) + (if rows.last()[ci] == Option::Some(idv) {
            Seq::empty()
        } else {
            seq![rows.last()]
        })
    }
}

/// Removes every row whose `key_col` cell equals `id`. Fails with a
/// `QueryError` when the key column does not exist, and with `NotFound`
/// when no row matches; in both cases the table is unchanged.
pub fn delete_rows_by_key(t: &mut Table, key_col: &String, id: &String) -> (r: Result<(), OrmError>)
    requires
        old(t).wf(),
    ensures
        final(t).wf(),
        final(t).name@ == old(t).name@,
        final(t).columns.deep_view() == old(t).columns.deep_view(),
        r is Ok <==> spec_col_index(old(t).columns.deep_view(), key_col@) >= 0 && spec_key_matches(
            old(t).rows_view(),
            spec_col_index(old(t).columns.deep_view(), key_col@),
            id@,
        ),
        r is Ok ==> final(t).rows_view() == spec_delete_rows(
            old(t).rows_view(),
            spec_col_index(old(t).columns.deep_view(), key_col@),
            id@,
        ),
        r is Err ==> final(t).rows_view() == old(t).rows_view(),
        spec_col_index(old(t).columns.deep_view(), key_col@) < 0 ==> (r matches Err(e) && e
            is QueryError),
        spec_col_index(old(t).columns.deep_view(), key_col@) >= 0 && !spec_key_matches(
            old(t).rows_view(),
            spec_col_index(old(t).columns.deep_view(), key_col@),
            id@,
        ) ==> (r matches Err(e) && e is NotFound),
{
    let ci = match crate::condition::col_index(&t.columns, key_col) {
        Option::None => {
            return Err(unknown_column(key_col));
        },
        Option::Some(ci) => ci,
    };
    let ghost gci = ci as int;
    let ghost pre = t.rows.deep_view();
    let n = t.rows.len();
    let mut kept: Vec<Vec<Option<String>>> = Vec::new();
    let mut matched = false;
    let mut i: usize = 0;
    proof {
        assert(pre.take(0) =~= Seq::<RowView>::empty());
        assert(kept.deep_view() =~= spec_delete_rows(pre.take(0), gci, id@));
    }
    while i < n
        invariant
            old(t).wf(),
            n == t.rows@.len(),
            t.rows@ == old(t).rows@,
            t.name == old(t).name,
            t.columns == old(t).columns,
            gci == ci as int,
            0 <= gci < old(t).columns@.len(),
            pre == old(t).rows_view(),
            0 <= i <= n,
            matched == (exists|m: int| 0 <= m < i && #[trigger] pre[m][gci] == Option::Some(id@)),
            kept.deep_view() == spec_delete_rows(pre.take(i as int), gci, id@),
            forall|m: int| 0 <= m < kept@.len() ==> (#[trigger] kept@[m])@.len()
                == old(t).columns@.len(),
        decreases n - i,
    {
        proof {
            assert(t.rows.deep_view()[i as int] == t.rows@[i as int].deep_view());
            assert(t.rows@[i as int].deep_view()[gci] == t.rows@[i as int]@[gci].deep_view());
            assert(pre[i as int] == t.rows@[i as int].deep_view());
        }
        let hit = match &t.rows[i][ci] {
            Option::Some(x) => x.eq(id),
            Option::None => false,
        };
        proof {
            assert(hit == (pre[i as int][gci] == Option::Some(id@)));
        }
        if hit {
            matched = true;
        } else {
            let c = clone_row(&t.rows[i]);
            let ghost pre_d = kept.deep_view();
            let ghost pre_v = kept@;
            kept.push(c);
            proof {
                assert forall|j: int| 0 <= j < kept.deep_view().len() implies kept.deep_view()[j]
                    == pre_d.push(pre[i as int])[j] by {
                    assert(kept.deep_view()[j] == kept@[j].deep_view());
                    if j < pre_v.len() {
                        assert(kept@[j] == pre_v[j]);
                        assert(pre_d[j] == pre_v[j].deep_view());
                    }
                }
                assert(kept.deep_view() =~= pre_d.push(pre[i as int]));
            }
        }
        proof {
            let t1 = pre.take(i as int + 1);
            assert(t1.drop_last() =~= pre.take(i as int));
            assert(t1.last() == pre[i as int]);
            assert(kept.deep_view() =~= spec_delete_rows(t1, gci, id@));
        }
        i = i + 1;
    }
    proof {
        assert(pre.take(n as int) =~= pre);
    }
    if !matched {
        return Err(OrmError::NotFound(String::from_str("no row matches: ").concat(id.as_str())));
    }
    t.rows = kept;
    Ok(())
}


/// Whether the rows stand in order on the key column: every earlier row
/// orders at or below every later one.
pub open spec fn spec_rows_sorted(desc: bool, ci: int, s: Seq<RowView>) -> bool {
    forall|i: int, j: int|
        0 <= i < j < s.len() ==> spec_row_le(desc, ci, #[trigger] s[i], #[trigger] s[j])
}

/// The key order is total: of any two rows, one orders at or below the
/// other.
pub proof fn lemma_row_le_total(desc: bool, ci: int, a: RowView, b: RowView)
    ensures
        spec_row_le(desc, ci, a, b) || spec_row_le(desc, ci, b, a),
{
    match (a[ci], b[ci]) {
        (Option::Some(x), Option::Some(y)) => {
            lemma_lex_lt_asymmetric(x, y);
        },
        _ => {},
    }
}

/// The key order is transitive.
pub proof fn lemma_row_le_trans(desc: bool, ci: int, a: RowView, b: RowView, c: RowView)
    requires
        spec_row_le(desc, ci, a, b),
        spec_row_le(desc, ci, b, c),
    ensures
        spec_row_le(desc, ci, a, c),
{
    let (x, y, z) = if desc {
        (c[ci], b[ci], a[ci])
    } else {
        (a[ci], b[ci], c[ci])
    };
    match (x, y, z) {
        (Option::Some(xv), Option::Some(yv), Option::Some(zv)) => {
            if spec_lex_lt(zv, xv) {
                lemma_lex_lt_connected(xv, yv, zv);
            }
        },
        _ => {},
    }
}

proof fn lemma_insert_row_elems(desc: bool, ci: int, s: Seq<RowView>, r: RowView)
    ensures
        spec_insert_row(desc, ci, s, r).len() == s.len() + 1,
        forall|k: int|
            0 <= k < spec_insert_row(desc, ci, s, r).len() ==> ((exists|m: int|
                0 <= m < s.len() && #[trigger] spec_insert_row(desc, ci, s, r)[k] == s[m])
                || spec_insert_row(desc, ci, s, r)[k] == r),
    decreases s.len(),
{
    let ins = spec_insert_row(desc, ci, s, r);
    if s.len() == 0 {
    } else if spec_row_le(desc, ci, s.last(), r) {
        assert forall|k: int| 0 <= k < ins.len() implies ((exists|m: int|
            0 <= m < s.len() && #[trigger] ins[k] == s[m]) || ins[k] == r) by {
            if k < s.len() {
                assert(ins[k] == s[k]);
            }
        }
    } else {
        let dl = s.drop_last();
        lemma_insert_row_elems(desc, ci, dl, r);
        let inner = spec_insert_row(desc, ci, dl, r);
        assert forall|k: int| 0 <= k < ins.len() implies ((exists|m: int|
            0 <= m < s.len() && #[trigger] ins[k] == s[m]) || ins[k] == r) by {
            if k < inner.len() {
                assert(ins[k] == inner[k]);
                if exists|m: int| 0 <= m < dl.len() && inner[k] == dl[m] {
                    let m = choose|m: int| 0 <= m < dl.len() && inner[k] == dl[m];
                    assert(s[m] == dl[m]);
                }
            } else {
                assert(ins[k] == s.last());
                assert(s[s.len() - 1] == s.last());
            }
        }
    }
}

proof fn lemma_insert_row_sorted(desc: bool, ci: int, s: Seq<RowView>, r: RowView)
    requires
        spec_rows_sorted(desc, ci, s),
    ensures
        spec_rows_sorted(desc, ci, spec_insert_row(desc, ci, s, r)),
    decreases s.len(),
{
    let ins = spec_insert_row(desc, ci, s, r);
    if s.len() == 0 {
    } else if spec_row_le(desc, ci, s.last(), r) {
        assert forall|i: int, j: int| 0 <= i < j < ins.len() implies spec_row_le(
            desc,
            ci,
            #[trigger] ins[i],
            #[trigger] ins[j],
        ) by {
            if j < s.len() {
                assert(ins[i] == s[i] && ins[j] == s[j]);
            } else {
                assert(ins[j] == r);
                assert(ins[i] == s[i]);
                if i < s.len() - 1 {
                    assert(spec_row_le(desc, ci, s[i], s[s.len() - 1]));
                    lemma_row_le_trans(desc, ci, s[i], s.last(), r);
                } else {
                    assert(s[i] == s.last());
                }
            }
        }
    } else {
        let dl = s.drop_last();
        assert(spec_rows_sorted(desc, ci, dl)) by {
            assert forall|i: int, j: int| 0 <= i < j < dl.len() implies spec_row_le(
                desc,
                ci,
                #[trigger] dl[i],
                #[trigger] dl[j],
            ) by {
                assert(dl[i] == s[i] && dl[j] == s[j]);
            }
        }
        lemma_insert_row_sorted(desc, ci, dl, r);
        lemma_insert_row_elems(desc, ci, dl, r);
        let inner = spec_insert_row(desc, ci, dl, r);
        lemma_row_le_total(desc, ci, s.last(), r);
        assert(spec_row_le(desc, ci, r, s.last()));
        assert forall|i: int, j: int| 0 <= i < j < ins.len() implies spec_row_le(
            desc,
            ci,
            #[trigger] ins[i],
            #[trigger] ins[j],
        ) by {
            if j < inner.len() {
                assert(ins[i] == inner[i] && ins[j] == inner[j]);
            } else {
                assert(ins[j] == s.last());
                assert(ins[i] == inner[i]);
                if exists|m: int| 0 <= m < dl.len() && inner[i] == dl[m] {
                    let m = choose|m: int| 0 <= m < dl.len() && inner[i] == dl[m];
                    assert(s[m] == dl[m]);
                    assert(spec_row_le(desc, ci, s[m], s[s.len() - 1]));
                } else {
                    assert(inner[i] == r);
                }
            }
        }
    }
}

proof fn lemma_insert_row_multiset(desc: bool, ci: int, s: Seq<RowView>, r: RowView)
    ensures
        spec_insert_row(desc, ci, s, r).to_multiset() == s.to_multiset().insert(r),
    decreases s.len(),
{
    broadcast use vstd::seq_lib::group_to_multiset_ensures;

    let ins = spec_insert_row(desc, ci, s, r);
    if s.len() == 0 {
        assert(ins =~= Seq::<RowView>::empty().push(r));
        assert(ins.to_multiset() =~= s.to_multiset().insert(r));
    } else if spec_row_le(desc, ci, s.last(), r) {
        assert(ins.to_multiset() =~= s.to_multiset().insert(r));
    } else {
        let dl = s.drop_last();
        lemma_insert_row_multiset(desc, ci, dl, r);
        assert(s =~= dl.push(s.last()));
        assert(s.to_multiset() =~= dl.to_multiset().insert(s.last()));
        assert(ins == spec_insert_row(desc, ci, dl, r).push(s.last()));
        assert(ins.to_multiset() =~= spec_insert_row(desc, ci, dl, r).to_multiset().insert(
            s.last(),
        ));
        assert(ins.to_multiset() =~= s.to_multiset().insert(r));
    }
}

/// The sort really sorts: its result stands in order on the key column.
pub proof fn lemma_sort_rows_sorted(desc: bool, ci: int, rows: Seq<RowView>)
    ensures
        spec_rows_sorted(desc, ci, spec_sort_rows(desc, ci, rows)),
    decreases rows.len(),
{
    if rows.len() > 0 {
        lemma_sort_rows_sorted(desc, ci, rows.drop_last());
        lemma_insert_row_sorted(
            desc,
            ci,
            spec_sort_rows(desc, ci, rows.drop_last()),
            rows.last(),
        );
    }
}

/// The sort moves rows and never invents, drops or duplicates one: its
/// result holds exactly the stored rows, as a multiset.
pub proof fn lemma_sort_rows_permutes(desc: bool, ci: int, rows: Seq<RowView>)
    ensures
        spec_sort_rows(desc, ci, rows).to_multiset() == rows.to_multiset(),
    decreases rows.len(),
{
    broadcast use vstd::seq_lib::group_to_multiset_ensures;

    if rows.len() > 0 {
        let dl = rows.drop_last();
        lemma_sort_rows_permutes(desc, ci, dl);
        lemma_insert_row_multiset(desc, ci, spec_sort_rows(desc, ci, dl), rows.last());
        assert(rows =~= dl.push(rows.last()));
        assert(rows.to_multiset() =~= dl.to_multiset().insert(rows.last()));
    }
}

} // verus!
