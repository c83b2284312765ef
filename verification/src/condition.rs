//! The backend-neutral predicate representation: a recursive tree of leaf
//! comparisons composed with AND / OR / NOT, together with its evaluation
//! semantics over a row and its in-order literal collection.
//!
//! The engine's semantics are two-valued: a comparison against a NULL cell
//! does not match, and each negative form (`NotEquals`, `NotLike`, `NotIn`,
//! `NotBetween`, `Not`) is the plain negation of the matching positive form,
//! so NULL cells do match the negative forms. In particular `NotIn` with an
//! empty value list matches every row, and `In` with an empty list matches
//! none.

use vstd::prelude::*;
use vstd::string::StringExecFns;
use crate::errors::OrmError;
use crate::text::{lex_lt, like_match, spec_lex_lt, spec_like_match};

verus! {

/// A predicate over one table row. Leaves name a column and carry literal
/// values; `And`, `Or` and `Not` compose sub-predicates. The tree is
/// immutable once built and carries no external resources.
#[derive(Debug)]
pub enum Condition {
    Equals(String, String),
    NotEquals(String, String),
    GreaterThan(String, String),
    GreaterThanOrEqual(String, String),
    LessThan(String, String),
    LessThanOrEqual(String, String),
    Like(String, String),
    NotLike(String, String),
    In(String, Vec<String>),
    NotIn(String, Vec<String>),
    IsNull(String),
    IsNotNull(String),
    Between(String, String, String),
    NotBetween(String, String, String),
    And(Vec<Condition>),
    Or(Vec<Condition>),
    Not(Box<Condition>),
}

/// The index of the first column of `cols` equal to `name`, or -1 when no
/// column matches.
pub open spec fn spec_col_index(cols: Seq<Seq<char>>, name: Seq<char>) -> int
    decreases cols.len(),
{
    if cols.len() == 0 {
        -1
    } else if cols[0] == name {
        0
    } else {
        let rest = spec_col_index(cols.drop_first(), name);
        if rest < 0 {
            -1
        } else {
            rest + 1
        }
    }
}

/// What [`spec_col_index`] returns: either -1 and no column matches, or the
/// first matching index.
pub proof fn lemma_col_index_spec(cols: Seq<Seq<char>>, name: Seq<char>)
    ensures
        spec_col_index(cols, name) == -1 ==> forall|k: int|
            0 <= k < cols.len() ==> #[trigger] cols[k] != name,
        spec_col_index(cols, name) != -1 ==> {
            let i = spec_col_index(cols, name);
            &&& 0 <= i < cols.len()
            &&& cols[i] == name
            &&& forall|k: int| 0 <= k < i ==> #[trigger] cols[k] != name
        },
    decreases cols.len(),
{
    if cols.len() == 0 {
    } else if cols[0] == name {
    } else {
        lemma_col_index_spec(cols.drop_first(), name);
        assert(forall|k: int|
            1 <= k < cols.len() ==> #[trigger] cols[k] == cols.drop_first()[k - 1]);
    }
}

/// The value stored under column `name`, or `None` when the column is
/// missing or the cell is NULL.
pub open spec fn spec_cell(
    cols: Seq<Seq<char>>,
    row: Seq<Option<Seq<char>>>,
    name: Seq<char>,
) -> Option<Seq<char>> {
    let i = spec_col_index(cols, name);
    if 0 <= i < row.len() {
        row[i]
    } else {
        None
    }
}

/// Membership of a value in an ordered list of literals.
pub open spec fn spec_value_in(x: Seq<char>, vals: Seq<Seq<char>>) -> bool {
    exists|i: int| 0 <= i < vals.len() && vals[i] == x
}

/// Whether every column the tree uses exists in `cols`. Compilation does
/// not check this (it only validates identifier shape); the engine rejects a
/// condition reading an unknown column with a `QueryError`, as a backend
/// would. A membership test over an empty value list reads no column at
/// all — its compiled form is a bare tautology — so it passes whatever the
/// layout.
pub open spec fn spec_cond_cols_ok(c: Condition, cols: Seq<Seq<char>>) -> bool
    decreases c,
{
    match c {
        Condition::Equals(col, _) => spec_col_index(cols, col@) >= 0,
        Condition::NotEquals(col, _) => spec_col_index(cols, col@) >= 0,
        Condition::GreaterThan(col, _) => spec_col_index(cols, col@) >= 0,
        Condition::GreaterThanOrEqual(col, _) => spec_col_index(cols, col@) >= 0,
        Condition::LessThan(col, _) => spec_col_index(cols, col@) >= 0,
        Condition::LessThanOrEqual(col, _) => spec_col_index(cols, col@) >= 0,
        Condition::Like(col, _) => spec_col_index(cols, col@) >= 0,
        Condition::NotLike(col, _) => spec_col_index(cols, col@) >= 0,
        Condition::In(col, vs) => vs.len() == 0 || spec_col_index(cols, col@) >= 0,
        Condition::NotIn(col, vs) => vs.len() == 0 || spec_col_index(cols, col@) >= 0,
        Condition::IsNull(col) => spec_col_index(cols, col@) >= 0,
        Condition::IsNotNull(col) => spec_col_index(cols, col@) >= 0,
        Condition::Between(col, _, _) => spec_col_index(cols, col@) >= 0,
        Condition::NotBetween(col, _, _) => spec_col_index(cols, col@) >= 0,
        Condition::And(cs) => forall|i: int|
            0 <= i < cs.len() ==> spec_cond_cols_ok(#[trigger] cs[i], cols),
        Condition::Or(cs) => forall|i: int|
            0 <= i < cs.len() ==> spec_cond_cols_ok(#[trigger] cs[i], cols),
        Condition::Not(inner) => spec_cond_cols_ok(*inner, cols),
    }
}

/// The meaning of a condition on one row: does the row match?
pub open spec fn spec_eval(
    c: Condition,
    cols: Seq<Seq<char>>,
    row: Seq<Option<Seq<char>>>,
) -> bool
    decreases c,
{
    match c {
        Condition::Equals(col, v) => spec_cell(cols, row, col@) == Some(v@),
        Condition::NotEquals(col, v) => spec_cell(cols, row, col@) != Some(v@),
        Condition::GreaterThan(col, v) => spec_cell(cols, row, col@) matches Some(x)
            && spec_lex_lt(v@, x),
        Condition::GreaterThanOrEqual(col, v) => spec_cell(cols, row, col@) matches Some(x)
            && !spec_lex_lt(x, v@),
        Condition::LessThan(col, v) => spec_cell(cols, row, col@) matches Some(x)
            && spec_lex_lt(x, v@),
        Condition::LessThanOrEqual(col, v) => spec_cell(cols, row, col@) matches Some(x)
            && !spec_lex_lt(v@, x),
        Condition::Like(col, p) => spec_cell(cols, row, col@) matches Some(x)
            && spec_like_match(p@, x),
        Condition::NotLike(col, p) => !(spec_cell(cols, row, col@) matches Some(x)
            && spec_like_match(p@, x)),
        Condition::In(col, vs) => spec_cell(cols, row, col@) matches Some(x)
            && spec_value_in(x, vs.deep_view()),
        Condition::NotIn(col, vs) => !(spec_cell(cols, row, col@) matches Some(x)
            && spec_value_in(x, vs.deep_view())),
        Condition::IsNull(col) => spec_cell(cols, row, col@) is None,
        Condition::IsNotNull(col) => spec_cell(cols, row, col@) is Some,
        Condition::Between(col, lo, hi) => spec_cell(cols, row, col@) matches Some(x)
            && !spec_lex_lt(x, lo@) && !spec_lex_lt(hi@, x),
        Condition::NotBetween(col, lo, hi) => !(spec_cell(cols, row, col@) matches Some(x)
            && !spec_lex_lt(x, lo@) && !spec_lex_lt(hi@, x)),
        Condition::And(cs) => forall|i: int|
            0 <= i < cs.len() ==> spec_eval(#[trigger] cs[i], cols, row),
        Condition::Or(cs) => exists|i: int|
            0 <= i < cs.len() && spec_eval(#[trigger] cs[i], cols, row),
        Condition::Not(inner) => !spec_eval(*inner, cols, row),
    }
}

/// The literal values of the tree, in the left-to-right order in which the
/// compiler binds them as parameters.
pub open spec fn spec_literals(c: Condition) -> Seq<Seq<char>>
    decreases c,
{
    match c {
        Condition::Equals(_, v) => seq![v@],
        Condition::NotEquals(_, v) => seq![v@],
        Condition::GreaterThan(_, v) => seq![v@],
        Condition::GreaterThanOrEqual(_, v) => seq![v@],
        Condition::LessThan(_, v) => seq![v@],
        Condition::LessThanOrEqual(_, v) => seq![v@],
        Condition::Like(_, p) => seq![p@],
        Condition::NotLike(_, p) => seq![p@],
        Condition::In(_, vs) => vs.deep_view(),
        Condition::NotIn(_, vs) => vs.deep_view(),
        Condition::IsNull(_) => Seq::empty(),
        Condition::IsNotNull(_) => Seq::empty(),
        Condition::Between(_, lo, hi) => seq![lo@, hi@],
        Condition::NotBetween(_, lo, hi) => seq![lo@, hi@],
        Condition::And(cs) => spec_literals_list(cs@),
        Condition::Or(cs) => spec_literals_list(cs@),
        Condition::Not(inner) => spec_literals(*inner),
    }
}

/// The literals of a list of trees, concatenated in order.
pub open spec fn spec_literals_list(cs: Seq<Condition>) -> Seq<Seq<char>>
    decreases cs,
{
    if cs.len() == 0 {
        Seq::empty()
    } else {
        spec_literals(cs[0]) + spec_literals_list(cs.drop_first())
    }
}

/// Finds the index of the first column equal to `name`, or `None` when no
/// column matches.
pub fn col_index(cols: &Vec<String>, name: &String) -> (r: Option<usize>)
    ensures
        r matches Some(i) ==> spec_col_index(cols.deep_view(), name@) == i as int && i
            < cols@.len(),
        r is None ==> spec_col_index(cols.deep_view(), name@) == -1,
{
    let ghost gcols = cols.deep_view();
    let n = cols.len();
    let mut i: usize = 0;
    while i < n
        invariant
            n == cols@.len(),
            gcols == cols.deep_view(),
            0 <= i <= n,
            forall|k: int| 0 <= k < i ==> #[trigger] gcols[k] != name@,
        decreases n - i,
    {
        proof {
            assert(gcols[i as int] == cols@[i as int]@);
        }
        if cols[i].eq(name) {
            proof {
                lemma_col_index_spec(gcols, name@);
                let idx = spec_col_index(gcols, name@);
                if idx == -1 {
                    assert(gcols[i as int] != name@);
                } else if idx < i as int {
                    assert(gcols[idx] != name@);
                } else if idx > i as int {
                    assert(gcols[i as int] != name@);
                }
                assert(idx == i as int);
            }
            return Some(i);
        }
        i = i + 1;
    }
    proof {
        lemma_col_index_spec(gcols, name@);
    }
    None
}

fn unknown_column_error(col: &String) -> (r: OrmError)
    ensures
        r is QueryError,
{
    OrmError::QueryError(String::from_str("unknown column: ").concat(col.as_str()))
}

fn lookup_cell<'a>(cols: &Vec<String>, row: &'a Vec<Option<String>>, name: &String) -> (r: Result<
    &'a Option<String>,
    OrmError,
>)
    requires
        row@.len() == cols@.len(),
    ensures
        r is Ok <==> spec_col_index(cols.deep_view(), name@) >= 0,
        r matches Ok(cell) ==> cell.deep_view() == spec_cell(
            cols.deep_view(),
            row.deep_view(),
            name@,
        ),
        r matches Err(e) ==> e is QueryError,
{
    let ghost gcols = cols.deep_view();
    let n = cols.len();
    let mut i: usize = 0;
    proof {
        lemma_col_index_spec(gcols, name@);
        assert(gcols.len() == cols@.len());
        assert(row.deep_view().len() == row@.len());
    }
    while i < n
        invariant
            n == cols@.len(),
            row@.len() == cols@.len(),
            gcols == cols.deep_view(),
            0 <= i <= n,
            forall|k: int| 0 <= k < i ==> #[trigger] gcols[k] != name@,
        decreases n - i,
    {
        proof {
            assert(gcols[i as int] == cols@[i as int]@);
        }
        if cols[i].eq(name) {
            proof {
                lemma_col_index_spec(gcols, name@);
                let idx = spec_col_index(gcols, name@);
                if idx == -1 {
                    assert(gcols[i as int] != name@);
                } else if idx < i as int {
                    assert(gcols[idx] != name@);
                } else if idx > i as int {
                    assert(gcols[i as int] != name@);
                }
                assert(idx == i as int);
                assert(row.deep_view()[i as int] == row@[i as int].deep_view());
            }
            return Ok(&row[i]);
        }
        i = i + 1;
    }
    proof {
        lemma_col_index_spec(gcols, name@);
        assert(spec_col_index(gcols, name@) == -1);
    }
    Err(unknown_column_error(name))
}

fn value_in_list(x: &String, vals: &Vec<String>) -> (r: bool)
    ensures
        r == spec_value_in(x@, vals.deep_view()),
{
    let n = vals.len();
    let mut i: usize = 0;
    while i < n
        invariant
            n == vals@.len(),
            0 <= i <= n,
            forall|k: int| 0 <= k < i ==> #[trigger] vals.deep_view()[k] != x@,
        decreases n - i,
    {
        proof {
            assert(vals.deep_view()[i as int] == vals@[i as int]@);
        }
        if vals[i].eq(x) {
            proof {
                assert(vals.deep_view()[i as int] == x@);
            }
            return true;
        }
        i = i + 1;
    }
    false
}

/// Evaluates a condition on one row, laid out by `cols`. Fails with a
/// `QueryError` exactly when the tree names a column that `cols` does not
/// hold; otherwise returns whether the row matches.
pub fn eval_condition(c: &Condition, cols: &Vec<String>, row: &Vec<Option<String>>) -> (r: Result<
    bool,
    OrmError,
>)
    requires
        row@.len() == cols@.len(),
    ensures
        r is Ok <==> spec_cond_cols_ok(*c, cols.deep_view()),
        r matches Ok(b) ==> b == spec_eval(*c, cols.deep_view(), row.deep_view()),
        r matches Err(e) ==> e is QueryError,
    decreases *c,
{
    match c {
        Condition::Equals(col, v) => {
            match lookup_cell(cols, row, col)? {
                Some(x) => Ok(x.eq(v)),
                None => Ok(false),
            }
        },
        Condition::NotEquals(col, v) => {
            match lookup_cell(cols, row, col)? {
                Some(x) => Ok(!x.eq(v)),
                None => Ok(true),
            }
        },
        Condition::GreaterThan(col, v) => {
            match lookup_cell(cols, row, col)? {
                Some(x) => Ok(lex_lt(v.as_str(), x.as_str())),
                None => Ok(false),
            }
        },
        Condition::GreaterThanOrEqual(col, v) => {
            match lookup_cell(cols, row, col)? {
                Some(x) => Ok(!lex_lt(x.as_str(), v.as_str())),
                None => Ok(false),
            }
        },
        Condition::LessThan(col, v) => {
            match lookup_cell(cols, row, col)? {
                Some(x) => Ok(lex_lt(x.as_str(), v.as_str())),
                None => Ok(false),
            }
        },
        Condition::LessThanOrEqual(col, v) => {
            match lookup_cell(cols, row, col)? {
                Some(x) => Ok(!lex_lt(v.as_str(), x.as_str())),
                None => Ok(false),
            }
        },
        Condition::Like(col, p) => {
            match lookup_cell(cols, row, col)? {
                Some(x) => Ok(like_match(p.as_str(), x.as_str())),
                None => Ok(false),
            }
        },
        Condition::NotLike(col, p) => {
            match lookup_cell(cols, row, col)? {
                Some(x) => Ok(!like_match(p.as_str(), x.as_str())),
                None => Ok(true),
            }
        },
        Condition::In(col, vs) => {
            if vs.len() == 0 {
                return Ok(false);
            }
            match lookup_cell(cols, row, col)? {
                Some(x) => Ok(value_in_list(x, vs)),
                None => Ok(false),
            }
        },
        Condition::NotIn(col, vs) => {
            if vs.len() == 0 {
                return Ok(true);
            }
            match lookup_cell(cols, row, col)? {
                Some(x) => Ok(!value_in_list(x, vs)),
                None => Ok(true),
            }
        },
        Condition::IsNull(col) => {
            match lookup_cell(cols, row, col)? {
                Some(_) => Ok(false),
                None => Ok(true),
            }
        },
        Condition::IsNotNull(col) => {
            match lookup_cell(cols, row, col)? {
                Some(_) => Ok(true),
                None => Ok(false),
            }
        },
        Condition::Between(col, lo, hi) => {
            match lookup_cell(cols, row, col)? {
                Some(x) => Ok(
                    !lex_lt(x.as_str(), lo.as_str()) && !lex_lt(hi.as_str(), x.as_str()),
                ),
                None => Ok(false),
            }
        },
        Condition::NotBetween(col, lo, hi) => {
            match lookup_cell(cols, row, col)? {
                Some(x) => Ok(
                    !(!lex_lt(x.as_str(), lo.as_str()) && !lex_lt(hi.as_str(), x.as_str())),
                ),
                None => Ok(true),
            }
        },
        Condition::And(cs) => {
            let n = cs.len();
            let mut acc = true;
            let mut i: usize = 0;
            while i < n
                invariant
                    *c matches Condition::And(cs2) && cs2@ == cs@,
                    n == cs@.len(),
                    row@.len() == cols@.len(),
                    0 <= i <= n,
                    forall|k: int|
                        0 <= k < i ==> spec_cond_cols_ok(#[trigger] cs@[k], cols.deep_view()),
                    acc == (forall|k: int|
                        0 <= k < i ==> spec_eval(#[trigger] cs@[k], cols.deep_view(),
                        row.deep_view())),
                decreases n - i,
            {
                proof {
                    assert(decreases_to!(*c => c->And_0));
                    assert(decreases_to!(c->And_0 => c->And_0@));
                    assert(decreases_to!(c->And_0@ => c->And_0@[i as int]));
                    assert(c->And_0@ == cs@);
                }
                match eval_condition(&cs[i], cols, row) {
                    Err(e) => {
                        proof {
                            assert(!spec_cond_cols_ok(cs@[i as int], cols.deep_view()));
                            assert(!spec_cond_cols_ok(*c, cols.deep_view()));
                        }
                        return Err(e);
                    },
                    Ok(b) => {
                        acc = acc && b;
                    },
                }
                i = i + 1;
            }
            proof {
                assert(spec_cond_cols_ok(*c, cols.deep_view()));
                assert(acc == spec_eval(*c, cols.deep_view(), row.deep_view()));
            }
            Ok(acc)
        },
        Condition::Or(cs) => {
            let n = cs.len();
            let mut acc = false;
            let mut i: usize = 0;
            while i < n
                invariant
                    *c matches Condition::Or(cs2) && cs2@ == cs@,
                    n == cs@.len(),
                    row@.len() == cols@.len(),
                    0 <= i <= n,
                    forall|k: int|
                        0 <= k < i ==> spec_cond_cols_ok(#[trigger] cs@[k], cols.deep_view()),
                    acc == (exists|k: int|
                        0 <= k < i && spec_eval(#[trigger] cs@[k], cols.deep_view(),
                        row.deep_view())),
                decreases n - i,
            {
                proof {
                    assert(decreases_to!(*c => c->Or_0));
                    assert(decreases_to!(c->Or_0 => c->Or_0@));
                    assert(decreases_to!(c->Or_0@ => c->Or_0@[i as int]));
                    assert(c->Or_0@ == cs@);
                }
                match eval_condition(&cs[i], cols, row) {
                    Err(e) => {
                        proof {
                            assert(!spec_cond_cols_ok(cs@[i as int], cols.deep_view()));
                            assert(!spec_cond_cols_ok(*c, cols.deep_view()));
                        }
                        return Err(e);
                    },
                    Ok(b) => {
                        acc = acc || b;
                    },
                }
                i = i + 1;
            }
            proof {
                assert(spec_cond_cols_ok(*c, cols.deep_view()));
                assert(acc == spec_eval(*c, cols.deep_view(), row.deep_view()));
            }
            Ok(acc)
        },
        Condition::Not(inner) => {
            let b = eval_condition(&**inner, cols, row)?;
            Ok(!b)
        },
    }
}


/// Set membership over an empty value list: with negation it matches every
/// row, and without it matches none, whatever the row holds (a NULL cell
/// included) and whatever columns the table has — like its compiled form,
/// the empty-list case never fails on the named column.
pub proof fn lemma_set_membership_empty(
    col: String,
    vs: Vec<String>,
    cols: Seq<Seq<char>>,
    row: Seq<Option<Seq<char>>>,
)
    requires
        vs@.len() == 0,
    ensures
        !spec_eval(Condition::In(col, vs), cols, row),
        spec_eval(Condition::NotIn(col, vs), cols, row),
        spec_cond_cols_ok(Condition::In(col, vs), cols),
        spec_cond_cols_ok(Condition::NotIn(col, vs), cols),
{
    assert(vs.deep_view().len() == 0);
}

} // verus!
