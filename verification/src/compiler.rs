//! The query compiler: a pure, deterministic function from (dialect, table,
//! condition tree, ordering, pagination) to SQL text plus an ordered
//! parameter list. Every literal value of the tree becomes a bound
//! parameter, never interpolated into the text; identifiers are validated
//! against the allow-list of [`crate::text::spec_valid_identifier`] before
//! quoting and rejected with a `ValidationError` otherwise. AND/OR nesting
//! is parenthesized explicitly. An empty `IN` list compiles to a
//! tautological false condition and an empty `NOT IN` list to a
//! tautological true one, never to invalid SQL.

use vstd::prelude::*;
use vstd::string::StringExecFns;
use crate::condition::{spec_literals, spec_literals_list, Condition};
use crate::dialect::{
    spec_numbered_placeholders, spec_offset_requires_limit, spec_quote_mark, Dialect,
};
use crate::errors::OrmError;
use crate::text::{append_u64, spec_dec_str, spec_valid_identifier, valid_identifier};

verus! {

/// A compiled statement: SQL text plus its ordered parameter list, ready to
/// be handed to a driver. The text never embeds a literal value from the
/// condition tree.
#[derive(Debug)]
pub struct Statement {
    pub sql: String,
    pub params: Vec<String>,
}

/// An identifier wrapped in the dialect's quote marks.
pub open spec fn spec_quoted(d: Dialect, name: Seq<char>) -> Seq<char> {
    seq![spec_quote_mark(d)] + name + seq![spec_quote_mark(d)]
}

/// The placeholder for the `k`-th parameter (1-based): `$k` for a dialect
/// with numbered placeholders, `?` otherwise.
pub open spec fn spec_placeholder(d: Dialect, k: nat) -> Seq<char> {
    if spec_numbered_placeholders(d) {
        "$"@ + spec_dec_str(k)
    } else {
        "?"@
    }
}

/// Placeholders `k`, `k+1`, ..., `k+n-1`, separated by commas.
pub open spec fn spec_placeholder_list(d: Dialect, k: nat, n: nat) -> Seq<char>
    decreases n,
{
    if n == 0 {
        Seq::empty()
    } else if n == 1 {
        spec_placeholder(d, k)
    } else {
        spec_placeholder_list(d, k, (n - 1) as nat) + ", "@ + spec_placeholder(d, (k + n - 1) as nat)
    }
}

/// Whether every identifier the tree names passes the allow-list.
pub open spec fn spec_cond_idents_ok(c: Condition) -> bool
    decreases c,
{
    match c {
        Condition::Equals(col, _) => spec_valid_identifier(col@),
        Condition::NotEquals(col, _) => spec_valid_identifier(col@),
        Condition::GreaterThan(col, _) => spec_valid_identifier(col@),
        Condition::GreaterThanOrEqual(col, _) => spec_valid_identifier(col@),
        Condition::LessThan(col, _) => spec_valid_identifier(col@),
        Condition::LessThanOrEqual(col, _) => spec_valid_identifier(col@),
        Condition::Like(col, _) => spec_valid_identifier(col@),
        Condition::NotLike(col, _) => spec_valid_identifier(col@),
        Condition::In(col, _) => spec_valid_identifier(col@),
        Condition::NotIn(col, _) => spec_valid_identifier(col@),
        Condition::IsNull(col) => spec_valid_identifier(col@),
        Condition::IsNotNull(col) => spec_valid_identifier(col@),
        Condition::Between(col, _, _) => spec_valid_identifier(col@),
        Condition::NotBetween(col, _, _) => spec_valid_identifier(col@),
        Condition::And(cs) => forall|i: int|
            0 <= i < cs.len() ==> spec_cond_idents_ok(#[trigger] cs[i]),
        Condition::Or(cs) => forall|i: int|
            0 <= i < cs.len() ==> spec_cond_idents_ok(#[trigger] cs[i]),
        Condition::Not(inner) => spec_cond_idents_ok(*inner),
    }
}

/// The SQL fragment for one condition, binding its literals as parameters
/// `k`, `k+1`, ... in the order of [`spec_literals`].
pub open spec fn spec_cond_sql(d: Dialect, c: Condition, k: nat) -> Seq<char>
    decreases c,
{
    match c {
        Condition::Equals(col, _) => spec_quoted(d, col@) + " = "@ + spec_placeholder(d, k),
        Condition::NotEquals(col, _) => spec_quoted(d, col@) + " <> "@ + spec_placeholder(d, k),
        Condition::GreaterThan(col, _) => spec_quoted(d, col@) + " > "@ + spec_placeholder(d, k),
        Condition::GreaterThanOrEqual(col, _) => spec_quoted(d, col@) + " >= "@
            + spec_placeholder(d, k),
        Condition::LessThan(col, _) => spec_quoted(d, col@) + " < "@ + spec_placeholder(d, k),
        Condition::LessThanOrEqual(col, _) => spec_quoted(d, col@) + " <= "@ + spec_placeholder(
            d,
            k,
        ),
        Condition::Like(col, _) => spec_quoted(d, col@) + " LIKE "@ + spec_placeholder(d, k),
        Condition::NotLike(col, _) => spec_quoted(d, col@) + " NOT LIKE "@ + spec_placeholder(
            d,
            k,
        ),
        Condition::In(col, vs) => if vs.len() == 0 {
            "1 = 0"@
        } else {
            spec_quoted(d, col@) + " IN ("@ + spec_placeholder_list(d, k, vs.len() as nat) + ")"@
        },
        Condition::NotIn(col, vs) => if vs.len() == 0 {
            "1 = 1"@
        } else {
            spec_quoted(d, col@) + " NOT IN ("@ + spec_placeholder_list(d, k, vs.len() as nat)
                + ")"@
        },
        Condition::IsNull(col) => spec_quoted(d, col@) + " IS NULL"@,
        Condition::IsNotNull(col) => spec_quoted(d, col@) + " IS NOT NULL"@,
        Condition::Between(col, _, _) => spec_quoted(d, col@) + " BETWEEN "@ + spec_placeholder(
            d,
            k,
        ) + " AND "@ + spec_placeholder(d, k + 1),
        Condition::NotBetween(col, _, _) => spec_quoted(d, col@) + " NOT BETWEEN "@
            + spec_placeholder(d, k) + " AND "@ + spec_placeholder(d, k + 1),
        Condition::And(cs) => if cs.len() == 0 {
            "1 = 1"@
        } else {
            "("@ + spec_cond_list_sql(d, cs@, k, " AND "@) + ")"@
        },
        Condition::Or(cs) => if cs.len() == 0 {
            "1 = 0"@
        } else {
            "("@ + spec_cond_list_sql(d, cs@, k, " OR "@) + ")"@
        },
        Condition::Not(inner) => "NOT ("@ + spec_cond_sql(d, *inner, k) + ")"@,
    }
}

/// The fragments of a list of conditions joined by `sep`, with parameter
/// numbering threaded left to right.
pub open spec fn spec_cond_list_sql(d: Dialect, cs: Seq<Condition>, k: nat, sep: Seq<char>) -> Seq<
    char,
>
    decreases cs,
{
    if cs.len() == 0 {
        Seq::empty()
    } else if cs.len() == 1 {
        spec_cond_sql(d, cs[0], k)
    } else {
        spec_cond_list_sql(d, cs.drop_last(), k, sep) + sep + spec_cond_sql(
            d,
            cs.last(),
            k + spec_literals_list(cs.drop_last()).len(),
        )
    }
}

/// The literals of a list split at its last element: the order of binding
/// is left to right.
pub proof fn lemma_literals_list_snoc(cs: Seq<Condition>)
    requires
        cs.len() > 0,
    ensures
        spec_literals_list(cs) == spec_literals_list(cs.drop_last()) + spec_literals(cs.last()),
    decreases cs.len(),
{
    if cs.len() == 1 {
        assert(cs.drop_last() =~= Seq::empty());
        assert(cs.drop_first() =~= Seq::empty());
        assert(spec_literals_list(cs) =~= spec_literals_list(cs.drop_last()) + spec_literals(
            cs.last(),
        ));
    } else {
        lemma_literals_list_snoc(cs.drop_first());
        assert(cs.drop_first().drop_last() =~= cs.drop_last().drop_first());
        assert(cs.drop_first().last() == cs.last());
        assert(cs.drop_last()[0] == cs[0]);
        assert(spec_literals_list(cs) == spec_literals(cs[0]) + spec_literals_list(cs.drop_first()));
        assert(spec_literals_list(cs.drop_last()) == spec_literals(cs[0]) + spec_literals_list(
            cs.drop_last().drop_first(),
        ));
        assert(spec_literals_list(cs) =~= spec_literals_list(cs.drop_last()) + spec_literals(
            cs.last(),
        ));
    }
}

/// The WHERE clause for a conjunction of conditions: absent when the list is
/// empty (every row matches), else the fragments joined by AND with
/// parameters numbered from 1.
pub open spec fn spec_where_sql(d: Dialect, conds: Seq<Condition>) -> Seq<char> {
    if conds.len() == 0 {
        Seq::empty()
    } else {
        " WHERE "@ + spec_cond_list_sql(d, conds, 1, " AND "@)
    }
}

/// The ORDER BY clause: absent without an ordering key; `true` means
/// descending.
pub open spec fn spec_order_sql(d: Dialect, order: Option<(Seq<char>, bool)>) -> Seq<char> {
    match order {
        Option::None => Seq::empty(),
        Option::Some((col, desc)) => " ORDER BY "@ + spec_quoted(d, col) + (if desc {
            " DESC"@
        } else {
            " ASC"@
        }),
    }
}

/// The pagination clause, table-driven per dialect: a dialect that refuses a
/// stand-alone OFFSET gets the maximum row count as its LIMIT.
pub open spec fn spec_page_sql(d: Dialect, limit: Option<u64>, offset: Option<u64>) -> Seq<char> {
    match (limit, offset) {
        (Option::Some(l), Option::Some(o)) => " LIMIT "@ + spec_dec_str(l as nat) + " OFFSET "@
            + spec_dec_str(o as nat),
        (Option::Some(l), Option::None) => " LIMIT "@ + spec_dec_str(l as nat),
        (Option::None, Option::Some(o)) => if spec_offset_requires_limit(d) {
            " LIMIT 18446744073709551615 OFFSET "@ + spec_dec_str(o as nat)
        } else {
            " OFFSET "@ + spec_dec_str(o as nat)
        },
        (Option::None, Option::None) => Seq::empty(),
    }
}

/// The ordering key as character sequences.
pub open spec fn spec_order_view(order: Option<(String, bool)>) -> Option<(Seq<char>, bool)> {
    match order {
        Option::None => Option::None,
        Option::Some((col, desc)) => Option::Some((col@, desc)),
    }
}

/// Whether the ordering key, if any, passes the identifier allow-list.
pub open spec fn spec_order_ok(order: Option<(Seq<char>, bool)>) -> bool {
    match order {
        Option::None => true,
        Option::Some((col, _)) => spec_valid_identifier(col),
    }
}

/// Whether every identifier in a list of conditions passes the allow-list.
pub open spec fn spec_conds_idents_ok(conds: Seq<Condition>) -> bool {
    forall|i: int| 0 <= i < conds.len() ==> spec_cond_idents_ok(#[trigger] conds[i])
}

/// The full text of a filtered, ordered, paginated single-table SELECT.
pub open spec fn spec_select_sql(
    d: Dialect,
    table: Seq<char>,
    conds: Seq<Condition>,
    order: Option<(Seq<char>, bool)>,
    limit: Option<u64>,
    offset: Option<u64>,
) -> Seq<char> {
    "SELECT * FROM "@ + spec_quoted(d, table) + spec_where_sql(d, conds) + spec_order_sql(d, order)
        + spec_page_sql(d, limit, offset)
}

/// The full text of the row-count projection over the same filter.
pub open spec fn spec_count_sql(d: Dialect, table: Seq<char>, conds: Seq<Condition>) -> Seq<char> {
    "SELECT COUNT(*) FROM "@ + spec_quoted(d, table) + spec_where_sql(d, conds)
}

fn invalid_identifier_error(name: &String) -> (r: OrmError)
    ensures
        r is ValidationError,
{
    OrmError::ValidationError(String::from_str("invalid identifier: ").concat(name.as_str()))
}

fn append_quoted(d: Dialect, name: &String, out: &mut String)
    ensures
        final(out)@ == old(out)@ + spec_quoted(d, name@),
{
    proof {
        reveal_strlit("\"");
        reveal_strlit("`");
    }
    match d {
        Dialect::Postgres => {
            out.append("\"");
            out.append(name.as_str());
            out.append("\"");
        },
        Dialect::MySql => {
            out.append("`");
            out.append(name.as_str());
            out.append("`");
        },
    }
    proof {
        assert(out@ =~= old(out)@ + spec_quoted(d, name@));
    }
}

fn append_placeholder(d: Dialect, k: usize, out: &mut String)
    ensures
        final(out)@ == old(out)@ + spec_placeholder(d, k as nat),
{
    if d.numbered_placeholders() {
        out.append("$");
        append_u64(out, k as u64);
        proof {
            assert(out@ =~= old(out)@ + spec_placeholder(d, k as nat));
        }
    } else {
        out.append("?");
    }
}

fn push_param(params: &mut Vec<String>, v: &String)
    ensures
        final(params)@.len() == old(params)@.len() + 1,
        final(params).deep_view() == old(params).deep_view().push(v@),
{
    let ghost pre = params.deep_view();
    params.push(v.clone());
    proof {
        assert forall|j: int| 0 <= j < params.deep_view().len() implies params.deep_view()[j]
            == pre.push(v@)[j] by {
            if j < pre.len() {
                assert(params.deep_view()[j] == params@[j].deep_view());
                assert(pre[j] == old(params)@[j].deep_view());
            }
        }
        assert(params.deep_view() =~= pre.push(v@));
    }
}

fn append_compare(d: Dialect, col: &String, tok: &str, v: &String, out: &mut String, params: &mut Vec<
    String,
>) -> (r: Result<(), OrmError>)
    ensures
        r is Ok <==> spec_valid_identifier(col@),
        r is Ok ==> final(out)@ == old(out)@ + spec_quoted(d, col@) + tok@ + spec_placeholder(
            d,
            (old(params)@.len() + 1) as nat,
        ) && final(params).deep_view() == old(params).deep_view().push(v@),
        r matches Err(e) ==> e is ValidationError,
{
    if !valid_identifier(col.as_str()) {
        return Err(invalid_identifier_error(col));
    }
    append_quoted(d, col, out);
    out.append(tok);
    push_param(params, v);
    append_placeholder(d, params.len(), out);
    proof {
        assert(out@ =~= old(out)@ + spec_quoted(d, col@) + tok@ + spec_placeholder(
            d,
            (old(params)@.len() + 1) as nat,
        ));
    }
    Ok(())
}

fn append_null_check(d: Dialect, col: &String, tok: &str, out: &mut String) -> (r: Result<
    (),
    OrmError,
>)
    ensures
        r is Ok <==> spec_valid_identifier(col@),
        r is Ok ==> final(out)@ == old(out)@ + spec_quoted(d, col@) + tok@,
        r matches Err(e) ==> e is ValidationError,
{
    if !valid_identifier(col.as_str()) {
        return Err(invalid_identifier_error(col));
    }
    append_quoted(d, col, out);
    out.append(tok);
    proof {
        assert(out@ =~= old(out)@ + spec_quoted(d, col@) + tok@);
    }
    Ok(())
}

fn append_between(
    d: Dialect,
    col: &String,
    tok: &str,
    lo: &String,
    hi: &String,
    out: &mut String,
    params: &mut Vec<String>,
) -> (r: Result<(), OrmError>)
    ensures
        r is Ok <==> spec_valid_identifier(col@),
        r is Ok ==> final(out)@ == old(out)@ + spec_quoted(d, col@) + tok@ + spec_placeholder(
            d,
            (old(params)@.len() + 1) as nat,
        ) + " AND "@ + spec_placeholder(d, (old(params)@.len() + 2) as nat)
            && final(params).deep_view() == old(params).deep_view().push(lo@).push(hi@),
        r matches Err(e) ==> e is ValidationError,
{
    if !valid_identifier(col.as_str()) {
        return Err(invalid_identifier_error(col));
    }
    append_quoted(d, col, out);
    out.append(tok);
    push_param(params, lo);
    append_placeholder(d, params.len(), out);
    out.append(" AND ");
    push_param(params, hi);
    append_placeholder(d, params.len(), out);
    proof {
        assert(out@ =~= old(out)@ + spec_quoted(d, col@) + tok@ + spec_placeholder(
            d,
            (old(params)@.len() + 1) as nat,
        ) + " AND "@ + spec_placeholder(d, (old(params)@.len() + 2) as nat));
    }
    Ok(())
}

fn append_in_list(d: Dialect, vs: &Vec<String>, out: &mut String, params: &mut Vec<String>)
    requires
        vs@.len() >= 1,
    ensures
        final(out)@ == old(out)@ + spec_placeholder_list(
            d,
            (old(params)@.len() + 1) as nat,
            vs@.len() as nat,
        ),
        final(params).deep_view() == old(params).deep_view() + vs.deep_view(),
{
    let ghost k: nat = (old(params)@.len() + 1) as nat;
    let n = vs.len();
    let mut i: usize = 0;
    proof {
        assert(vs.deep_view().take(0) =~= Seq::<Seq<char>>::empty());
        assert(out@ =~= old(out)@ + spec_placeholder_list(d, k, 0));
        assert(params.deep_view() =~= old(params).deep_view() + vs.deep_view().take(0));
    }
    while i < n
        invariant
            n == vs@.len(),
            n >= 1,
            0 <= i <= n,
            k == (old(params)@.len() + 1) as nat,
            params@.len() == old(params)@.len() + i,
            out@ == old(out)@ + spec_placeholder_list(d, k, i as nat),
            params.deep_view() == old(params).deep_view() + vs.deep_view().take(i as int),
        decreases n - i,
    {
        if i > 0 {
            out.append(", ");
        }
        push_param(params, &vs[i]);
        append_placeholder(d, params.len(), out);
        proof {
            assert(vs.deep_view()[i as int] == vs@[i as int]@);
            assert(vs.deep_view().take(i as int + 1) =~= vs.deep_view().take(i as int).push(
                vs.deep_view()[i as int],
            ));
            assert(params.deep_view() =~= old(params).deep_view() + vs.deep_view().take(
                i as int + 1,
            ));
            if i == 0 {
                assert(spec_placeholder_list(d, k, 1) == spec_placeholder(d, k));
            } else {
                assert(spec_placeholder_list(d, k, (i + 1) as nat) == spec_placeholder_list(
                    d,
                    k,
                    i as nat,
                ) + ", "@ + spec_placeholder(d, (k + i) as nat));
            }
            assert(out@ =~= old(out)@ + spec_placeholder_list(d, k, (i + 1) as nat));
        }
        i = i + 1;
    }
    proof {
        assert(vs.deep_view().take(n as int) =~= vs.deep_view());
    }
}

fn append_in_cond(
    d: Dialect,
    col: &String,
    vs: &Vec<String>,
    empty_tok: &str,
    open_tok: &str,
    out: &mut String,
    params: &mut Vec<String>,
) -> (r: Result<(), OrmError>)
    ensures
        r is Ok <==> spec_valid_identifier(col@),
        r is Ok ==> final(out)@ == old(out)@ + (if vs@.len() == 0 {
            empty_tok@
        } else {
            spec_quoted(d, col@) + open_tok@ + spec_placeholder_list(
                d,
                (old(params)@.len() + 1) as nat,
                vs@.len() as nat,
            ) + ")"@
        }) && final(params).deep_view() == old(params).deep_view() + vs.deep_view(),
        r matches Err(e) ==> e is ValidationError,
{
    if !valid_identifier(col.as_str()) {
        return Err(invalid_identifier_error(col));
    }
    if vs.len() == 0 {
        out.append(empty_tok);
        proof {
            assert(vs.deep_view() =~= Seq::<Seq<char>>::empty());
            assert(params.deep_view() =~= old(params).deep_view() + vs.deep_view());
        }
        return Ok(());
    }
    append_quoted(d, col, out);
    out.append(open_tok);
    append_in_list(d, vs, out, params);
    out.append(")");
    proof {
        assert(out@ =~= old(out)@ + spec_quoted(d, col@) + open_tok@ + spec_placeholder_list(
            d,
            (old(params)@.len() + 1) as nat,
            vs@.len() as nat,
        ) + ")"@);
    }
    Ok(())
}

#[verifier::rlimit(100)]
#[verifier::spinoff_prover]
fn append_leaf_cond_sql(d: Dialect, c: &Condition, out: &mut String, params: &mut Vec<String>) -> (
    r: Result<(), OrmError>)
    requires
        !(*c is And),
        !(*c is Or),
        !(*c is Not),
    ensures
        r is Ok <==> spec_cond_idents_ok(*c),
        r is Ok ==> final(out)@ == old(out)@ + spec_cond_sql(
            d,
            *c,
            (old(params)@.len() + 1) as nat,
        ) && final(params).deep_view() == old(params).deep_view() + spec_literals(*c),
        r matches Err(e) ==> e is ValidationError,
{
    let ghost k: nat = (old(params)@.len() + 1) as nat;
    match c {
        Condition::Equals(col, v) => {
            append_compare(d, col, " = ", v, out, params)?;
            proof {
                assert(params.deep_view() =~= old(params).deep_view() + spec_literals(*c));
            }
            Ok(())
        },
        Condition::NotEquals(col, v) => {
            append_compare(d, col, " <> ", v, out, params)?;
            proof {
                assert(params.deep_view() =~= old(params).deep_view() + spec_literals(*c));
            }
            Ok(())
        },
        Condition::GreaterThan(col, v) => {
            append_compare(d, col, " > ", v, out, params)?;
            proof {
                assert(params.deep_view() =~= old(params).deep_view() + spec_literals(*c));
            }
            Ok(())
        },
        Condition::GreaterThanOrEqual(col, v) => {
            append_compare(d, col, " >= ", v, out, params)?;
            proof {
                assert(params.deep_view() =~= old(params).deep_view() + spec_literals(*c));
            }
            Ok(())
        },
        Condition::LessThan(col, v) => {
            append_compare(d, col, " < ", v, out, params)?;
            proof {
                assert(params.deep_view() =~= old(params).deep_view() + spec_literals(*c));
            }
            Ok(())
        },
        Condition::LessThanOrEqual(col, v) => {
            append_compare(d, col, " <= ", v, out, params)?;
            proof {
                assert(params.deep_view() =~= old(params).deep_view() + spec_literals(*c));
            }
            Ok(())
        },
        Condition::Like(col, p) => {
            append_compare(d, col, " LIKE ", p, out, params)?;
            proof {
                assert(params.deep_view() =~= old(params).deep_view() + spec_literals(*c));
            }
            Ok(())
        },
        Condition::NotLike(col, p) => {
            append_compare(d, col, " NOT LIKE ", p, out, params)?;
            proof {
                assert(params.deep_view() =~= old(params).deep_view() + spec_literals(*c));
            }
            Ok(())
        },
        _ => append_leaf2_cond_sql(d, c, out, params),
    }
}

#[verifier::rlimit(100)]
#[verifier::spinoff_prover]
fn append_leaf2_cond_sql(d: Dialect, c: &Condition, out: &mut String, params: &mut Vec<String>) -> (
    r: Result<(), OrmError>)
    requires
        *c is In || *c is NotIn || *c is IsNull || *c is IsNotNull || *c is Between || *c
            is NotBetween,
    ensures
        r is Ok <==> spec_cond_idents_ok(*c),
        r is Ok ==> final(out)@ == old(out)@ + spec_cond_sql(
            d,
            *c,
            (old(params)@.len() + 1) as nat,
        ) && final(params).deep_view() == old(params).deep_view() + spec_literals(*c),
        r matches Err(e) ==> e is ValidationError,
{
    let ghost k: nat = (old(params)@.len() + 1) as nat;
    match c {
        Condition::In(col, vs) => {
            append_in_cond(d, col, vs, "1 = 0", " IN (", out, params)?;
            Ok(())
        },
        Condition::NotIn(col, vs) => {
            append_in_cond(d, col, vs, "1 = 1", " NOT IN (", out, params)?;
            Ok(())
        },
        Condition::IsNull(col) => {
            append_null_check(d, col, " IS NULL", out)?;
            proof {
                assert(params.deep_view() =~= old(params).deep_view() + spec_literals(*c));
            }
            Ok(())
        },
        Condition::IsNotNull(col) => {
            append_null_check(d, col, " IS NOT NULL", out)?;
            proof {
                assert(params.deep_view() =~= old(params).deep_view() + spec_literals(*c));
            }
            Ok(())
        },
        Condition::Between(col, lo, hi) => {
            append_between(d, col, " BETWEEN ", lo, hi, out, params)?;
            proof {
                assert(params.deep_view() =~= old(params).deep_view() + spec_literals(*c));
            }
            Ok(())
        },
        Condition::NotBetween(col, lo, hi) => {
            append_between(d, col, " NOT BETWEEN ", lo, hi, out, params)?;
            proof {
                assert(params.deep_view() =~= old(params).deep_view() + spec_literals(*c));
            }
            Ok(())
        },
        _ => unreached(),
    }
}

#[verifier::rlimit(100)]
#[verifier::spinoff_prover]
fn append_cond_sql(d: Dialect, c: &Condition, out: &mut String, params: &mut Vec<String>) -> (r:
    Result<(), OrmError>)
    ensures
        r is Ok <==> spec_cond_idents_ok(*c),
        r is Ok ==> final(out)@ == old(out)@ + spec_cond_sql(
            d,
            *c,
            (old(params)@.len() + 1) as nat,
        ) && final(params).deep_view() == old(params).deep_view() + spec_literals(*c),
        r matches Err(e) ==> e is ValidationError,
    decreases *c,
{
    let ghost k: nat = (old(params)@.len() + 1) as nat;
    match c {
        Condition::And(cs) => {
            if cs.len() == 0 {
                out.append("1 = 1");
                proof {
                    assert(spec_literals_list(cs@) =~= Seq::<Seq<char>>::empty());
                    assert(params.deep_view() =~= old(params).deep_view() + spec_literals(*c));
                }
                return Ok(());
            }
            out.append("(");
            proof {
                assert(decreases_to!(*c => c->And_0));
                assert(decreases_to!(c->And_0 => c->And_0@));
                assert(c->And_0@ == cs@);
            }
            match append_cond_list(d, cs, " AND ", out, params) {
                Err(e) => {
                    proof {
                        assert(!spec_cond_idents_ok(*c));
                    }
                    Err(e)
                },
                Ok(()) => {
                    out.append(")");
                    proof {
                        assert(spec_cond_idents_ok(*c));
                        assert(out@ =~= old(out)@ + spec_cond_sql(d, *c, k));
                    }
                    Ok(())
                },
            }
        },
        Condition::Or(cs) => {
            if cs.len() == 0 {
                out.append("1 = 0");
                proof {
                    assert(spec_literals_list(cs@) =~= Seq::<Seq<char>>::empty());
                    assert(params.deep_view() =~= old(params).deep_view() + spec_literals(*c));
                }
                return Ok(());
            }
            out.append("(");
            proof {
                assert(decreases_to!(*c => c->Or_0));
                assert(decreases_to!(c->Or_0 => c->Or_0@));
                assert(c->Or_0@ == cs@);
            }
            match append_cond_list(d, cs, " OR ", out, params) {
                Err(e) => {
                    proof {
                        assert(!spec_cond_idents_ok(*c));
                    }
                    Err(e)
                },
                Ok(()) => {
                    out.append(")");
                    proof {
                        assert(spec_cond_idents_ok(*c));
                        assert(out@ =~= old(out)@ + spec_cond_sql(d, *c, k));
                    }
                    Ok(())
                },
            }
        },
        Condition::Not(inner) => {
            out.append("NOT (");
            match append_cond_sql(d, &**inner, out, params) {
                Err(e) => Err(e),
                Ok(()) => {
                    out.append(")");
                    proof {
                        assert(out@ =~= old(out)@ + spec_cond_sql(d, *c, k));
                    }
                    Ok(())
                },
            }
        },
        _ => append_leaf_cond_sql(d, c, out, params),
    }
}

#[verifier::rlimit(60)]
fn append_cond_list(d: Dialect, cs: &Vec<Condition>, sep: &str, out: &mut String, params: &mut Vec<
    String,
>) -> (r: Result<(), OrmError>)
    requires
        cs@.len() >= 1,
    ensures
        r is Ok <==> forall|i: int| 0 <= i < cs@.len() ==> spec_cond_idents_ok(#[trigger] cs@[i]),
        r is Ok ==> final(out)@ == old(out)@ + spec_cond_list_sql(
            d,
            cs@,
            (old(params)@.len() + 1) as nat,
            sep@,
        ) && final(params).deep_view() == old(params).deep_view() + spec_literals_list(cs@),
        r matches Err(e) ==> e is ValidationError,
    decreases cs@,
{
    let ghost k: nat = (old(params)@.len() + 1) as nat;
    let n = cs.len();
    let mut i: usize = 0;
    proof {
        assert(cs@.take(0) =~= Seq::<Condition>::empty());
        assert(out@ =~= old(out)@ + spec_cond_list_sql(d, cs@.take(0), k, sep@));
        assert(params.deep_view() =~= old(params).deep_view() + spec_literals_list(cs@.take(0)));
    }
    while i < n
        invariant
            n == cs@.len(),
            n >= 1,
            0 <= i <= n,
            k == (old(params)@.len() + 1) as nat,
            forall|j: int| 0 <= j < i ==> spec_cond_idents_ok(#[trigger] cs@[j]),
            out@ == old(out)@ + spec_cond_list_sql(d, cs@.take(i as int), k, sep@),
            params.deep_view() == old(params).deep_view() + spec_literals_list(cs@.take(i as int)),
            params.deep_view().len() == params@.len(),
        decreases n - i,
    {
        proof {
            assert(decreases_to!(cs@ => cs@[i as int]));
            assert(params@.len() == old(params)@.len() + spec_literals_list(
                cs@.take(i as int),
            ).len());
        }
        if i > 0 {
            out.append(sep);
        }
        match append_cond_sql(d, &cs[i], out, params) {
            Err(e) => {
                proof {
                    assert(!spec_cond_idents_ok(cs@[i as int]));
                }
                return Err(e);
            },
            Ok(()) => {},
        }
        proof {
            let t1 = cs@.take(i as int + 1);
            assert(t1.drop_last() =~= cs@.take(i as int));
            assert(t1.last() == cs@[i as int]);
            lemma_literals_list_snoc(t1);
            if i == 0 {
                assert(t1.len() == 1);
                assert(spec_cond_list_sql(d, t1, k, sep@) == spec_cond_sql(d, t1[0], k));
                assert(t1[0] == cs@[0]);
                assert(spec_literals_list(cs@.take(0)).len() == 0);
            } else {
                assert(t1.len() > 1);
                assert(spec_cond_list_sql(d, t1, k, sep@) == spec_cond_list_sql(
                    d,
                    cs@.take(i as int),
                    k,
                    sep@,
                ) + sep@ + spec_cond_sql(
                    d,
                    cs@[i as int],
                    k + spec_literals_list(cs@.take(i as int)).len(),
                ));
            }
            assert(out@ =~= old(out)@ + spec_cond_list_sql(d, t1, k, sep@));
            assert(params.deep_view() =~= old(params).deep_view() + spec_literals_list(t1));
        }
        i = i + 1;
    }
    proof {
        assert(cs@.take(n as int) =~= cs@);
    }
    Ok(())
}

fn append_where(d: Dialect, conds: &Vec<Condition>, out: &mut String, params: &mut Vec<String>) -> (
    r: Result<(), OrmError>)
    requires
        old(params)@.len() == 0,
    ensures
        r is Ok <==> spec_conds_idents_ok(conds@),
        r is Ok ==> final(out)@ == old(out)@ + spec_where_sql(d, conds@)
            && final(params).deep_view() == spec_literals_list(conds@),
        r matches Err(e) ==> e is ValidationError,
{
    if conds.len() == 0 {
        proof {
            assert(out@ =~= old(out)@ + spec_where_sql(d, conds@));
            assert(params.deep_view() =~= spec_literals_list(conds@));
        }
        return Ok(());
    }
    out.append(" WHERE ");
    match append_cond_list(d, conds, " AND ", out, params) {
        Err(e) => Err(e),
        Ok(()) => {
            proof {
                assert(old(params).deep_view() =~= Seq::<Seq<char>>::empty());
                assert(params.deep_view() =~= spec_literals_list(conds@));
                assert(out@ =~= old(out)@ + spec_where_sql(d, conds@));
            }
            Ok(())
        },
    }
}

fn append_order(d: Dialect, order: &Option<(String, bool)>, out: &mut String) -> (r: Result<
    (),
    OrmError,
>)
    ensures
        r is Ok <==> spec_order_ok(spec_order_view(*order)),
        r is Ok ==> final(out)@ == old(out)@ + spec_order_sql(d, spec_order_view(*order)),
        r matches Err(e) ==> e is ValidationError,
{
    match order {
        Option::None => Ok(()),
        Option::Some((col, desc)) => {
            if !valid_identifier(col.as_str()) {
                return Err(invalid_identifier_error(col));
            }
            out.append(" ORDER BY ");
            append_quoted(d, col, out);
            if *desc {
                out.append(" DESC");
            } else {
                out.append(" ASC");
            }
            proof {
                assert(out@ =~= old(out)@ + spec_order_sql(d, spec_order_view(*order)));
            }
            Ok(())
        },
    }
}

fn append_page(d: Dialect, limit: Option<u64>, offset: Option<u64>, out: &mut String)
    ensures
        final(out)@ == old(out)@ + spec_page_sql(d, limit, offset),
{
    match (limit, offset) {
        (Option::Some(l), Option::Some(o)) => {
            out.append(" LIMIT ");
            append_u64(out, l);
            out.append(" OFFSET ");
            append_u64(out, o);
            proof {
                assert(out@ =~= old(out)@ + spec_page_sql(d, limit, offset));
            }
        },
        (Option::Some(l), Option::None) => {
            out.append(" LIMIT ");
            append_u64(out, l);
            proof {
                assert(out@ =~= old(out)@ + spec_page_sql(d, limit, offset));
            }
        },
        (Option::None, Option::Some(o)) => {
            if d.offset_requires_limit() {
                out.append(" LIMIT 18446744073709551615 OFFSET ");
            } else {
                out.append(" OFFSET ");
            }
            append_u64(out, o);
            proof {
                assert(out@ =~= old(out)@ + spec_page_sql(d, limit, offset));
            }
        },
        (Option::None, Option::None) => {},
    }
}

/// Compiles a single-table SELECT from the builder's state. Deterministic:
/// the text and parameter list are a function of the arguments alone.
/// Returns `Ok` exactly when the table name, every column the tree names,
/// and the ordering key all pass the identifier allow-list; the error is a
/// `ValidationError` and is raised before any I/O could happen. The
/// parameter list is exactly the literals of the tree in left-to-right
/// order; no literal is ever interpolated into the text.
pub fn compile_select(
    d: Dialect,
    table: &String,
    conds: &Vec<Condition>,
    order: &Option<(String, bool)>,
    limit: Option<u64>,
    offset: Option<u64>,
) -> (r: Result<Statement, OrmError>)
    ensures
        r is Ok <==> spec_valid_identifier(table@) && spec_conds_idents_ok(conds@) && spec_order_ok(
            spec_order_view(*order),
        ),
        r matches Ok(st) ==> st.sql@ == spec_select_sql(
            d,
            table@,
            conds@,
            spec_order_view(*order),
            limit,
            offset,
        ) && st.params.deep_view() == spec_literals_list(conds@),
        r matches Err(e) ==> e is ValidationError,
{
    if !valid_identifier(table.as_str()) {
        return Err(invalid_identifier_error(table));
    }
    let mut sql = String::new();
    let mut params: Vec<String> = Vec::new();
    sql.append("SELECT * FROM ");
    append_quoted(d, table, &mut sql);
    append_where(d, conds, &mut sql, &mut params)?;
    append_order(d, order, &mut sql)?;
    append_page(d, limit, offset, &mut sql);
    proof {
        assert(sql@ =~= spec_select_sql(d, table@, conds@, spec_order_view(*order), limit, offset));
    }
    Ok(Statement { sql, params })
}

/// Compiles the row-count projection over the same filter: `COUNT(*)`
/// instead of the rows themselves, with the same `Ok`/`ValidationError`
/// split and the same parameter list. Ordering and pagination do not apply
/// to a row count and are not part of the text.
pub fn compile_count(d: Dialect, table: &String, conds: &Vec<Condition>) -> (r: Result<
    Statement,
    OrmError,
>)
    ensures
        r is Ok <==> spec_valid_identifier(table@) && spec_conds_idents_ok(conds@),
        r matches Ok(st) ==> st.sql@ == spec_count_sql(d, table@, conds@) && st.params.deep_view()
            == spec_literals_list(conds@),
        r matches Err(e) ==> e is ValidationError,
{
    if !valid_identifier(table.as_str()) {
        return Err(invalid_identifier_error(table));
    }
    let mut sql = String::new();
    let mut params: Vec<String> = Vec::new();
    sql.append("SELECT COUNT(*) FROM ");
    append_quoted(d, table, &mut sql);
    append_where(d, conds, &mut sql, &mut params)?;
    proof {
        assert(sql@ =~= spec_count_sql(d, table@, conds@));
    }
    Ok(Statement { sql, params })
}


/// An empty `IN` list compiles to the tautological false condition, an
/// empty `NOT IN` list to the tautological true one, and neither binds any
/// parameter: the empty-membership edge never yields invalid SQL.
pub proof fn lemma_empty_membership_compiles_to_tautology(
    d: Dialect,
    col: String,
    ncol: String,
    vs: Vec<String>,
    nvs: Vec<String>,
    k: nat,
)
    requires
        vs@.len() == 0,
        nvs@.len() == 0,
    ensures
        spec_cond_sql(d, Condition::In(col, vs), k) == "1 = 0"@,
        spec_cond_sql(d, Condition::NotIn(ncol, nvs), k) == "1 = 1"@,
        spec_literals(Condition::In(col, vs)) == Seq::<Seq<char>>::empty(),
        spec_literals(Condition::NotIn(ncol, nvs)) == Seq::<Seq<char>>::empty(),
{
    assert(vs.deep_view() =~= Seq::<Seq<char>>::empty());
    assert(nvs.deep_view() =~= Seq::<Seq<char>>::empty());
}

/// Compilation is deterministic: the text and the parameter list that
/// [`compile_select`] promises are functions of (dialect, table, tree,
/// ordering, pagination) alone, so compiling the same inputs twice yields
/// byte-identical text and an identical parameter list.
pub proof fn lemma_compile_idempotent(
    d: Dialect,
    table: Seq<char>,
    conds: Seq<Condition>,
    order: Option<(Seq<char>, bool)>,
    limit: Option<u64>,
    offset: Option<u64>,
    sql1: Seq<char>,
    params1: Seq<Seq<char>>,
    sql2: Seq<char>,
    params2: Seq<Seq<char>>,
)
    requires
        sql1 == spec_select_sql(d, table, conds, order, limit, offset),
        params1 == spec_literals_list(conds),
        sql2 == spec_select_sql(d, table, conds, order, limit, offset),
        params2 == spec_literals_list(conds),
    ensures
        sql1 == sql2,
        params1 == params2,
{
}


/// The identifiers of a column list, quoted and joined by commas.
pub open spec fn spec_col_list_sql(d: Dialect, cols: Seq<Seq<char>>) -> Seq<char>
    decreases cols.len(),
{
    if cols.len() == 0 {
        Seq::empty()
    } else if cols.len() == 1 {
        spec_quoted(d, cols[0])
    } else {
        spec_col_list_sql(d, cols.drop_last()) + ", "@ + spec_quoted(d, cols.last())
    }
}

/// The parameters one row contributes: its stored cell values in order,
/// NULL cells contributing none (they are rendered as the NULL keyword,
/// which is not a value).
pub open spec fn spec_row_params(row: Seq<Option<Seq<char>>>) -> Seq<Seq<char>>
    decreases row.len(),
{
    if row.len() == 0 {
        Seq::empty()
    } else {
        spec_row_params(row.drop_last()) + (match row.last() {
            Option::Some(v) => seq![v],
            Option::None => Seq::empty(),
        })
    }
}

/// One rendered cell: the `k`-th placeholder for a stored value, the NULL
/// keyword for a NULL cell.
pub open spec fn spec_cell_sql(d: Dialect, cell: Option<Seq<char>>, k: nat) -> Seq<char> {
    match cell {
        Option::Some(_) => spec_placeholder(d, k),
        Option::None => "NULL"@,
    }
}

/// The cells of one row, joined by commas, with parameter numbering
/// threaded left to right from `k`.
pub open spec fn spec_cells_sql(d: Dialect, row: Seq<Option<Seq<char>>>, k: nat) -> Seq<char>
    decreases row.len(),
{
    if row.len() == 0 {
        Seq::empty()
    } else if row.len() == 1 {
        spec_cell_sql(d, row[0], k)
    } else {
        spec_cells_sql(d, row.drop_last(), k) + ", "@ + spec_cell_sql(
            d,
            row.last(),
            k + spec_row_params(row.drop_last()).len(),
        )
    }
}

/// The full text of a keyed single-row DELETE.
pub open spec fn spec_delete_sql(d: Dialect, table: Seq<char>, key: Seq<char>) -> Seq<char> {
    "DELETE FROM "@ + spec_quoted(d, table) + " WHERE "@ + spec_quoted(d, key) + " = "@
        + spec_placeholder(d, 1)
}

/// Compiles the keyed DELETE: one bound parameter, the key value.
/// `ValidationError` exactly when the table or the key column fails the
/// identifier allow-list.
pub fn compile_delete_by_id(d: Dialect, table: &String, key: &String, id: &String) -> (r: Result<
    Statement,
    OrmError,
>)
    ensures
        r is Ok <==> spec_valid_identifier(table@) && spec_valid_identifier(key@),
        r matches Ok(st) ==> st.sql@ == spec_delete_sql(d, table@, key@) && st.params.deep_view()
            == seq![id@],
        r matches Err(e) ==> e is ValidationError,
{
    if !valid_identifier(table.as_str()) {
        return Err(invalid_identifier_error(table));
    }
    if !valid_identifier(key.as_str()) {
        return Err(invalid_identifier_error(key));
    }
    let mut sql = String::new();
    let mut params: Vec<String> = Vec::new();
    sql.append("DELETE FROM ");
    append_quoted(d, table, &mut sql);
    sql.append(" WHERE ");
    append_quoted(d, key, &mut sql);
    sql.append(" = ");
    push_param(&mut params, id);
    append_placeholder(d, params.len(), &mut sql);
    proof {
        assert(sql@ =~= spec_delete_sql(d, table@, key@));
        assert(params.deep_view() =~= seq![id@]);
    }
    Ok(Statement { sql, params })
}

/// The SET list of an UPDATE: each column set to its cell, parameter
/// numbering threaded left to right from `k`.
pub open spec fn spec_set_sql(
    d: Dialect,
    cols: Seq<Seq<char>>,
    row: Seq<Option<Seq<char>>>,
    k: nat,
) -> Seq<char>
    decreases cols.len(),
{
    if cols.len() == 0 {
        Seq::empty()
    } else if cols.len() == 1 {
        spec_quoted(d, cols[0]) + " = "@ + spec_cell_sql(d, row[0], k)
    } else {
        spec_set_sql(d, cols.drop_last(), row.drop_last(), k) + ", "@ + spec_quoted(d, cols.last())
            + " = "@ + spec_cell_sql(d, row.last(), k + spec_row_params(row.drop_last()).len())
    }
}

/// The full text of a keyed UPDATE carrying one row of new values.
pub open spec fn spec_update_sql(
    d: Dialect,
    table: Seq<char>,
    cols: Seq<Seq<char>>,
    row: Seq<Option<Seq<char>>>,
    key: Seq<char>,
) -> Seq<char> {
    "UPDATE "@ + spec_quoted(d, table) + " SET "@ + spec_set_sql(d, cols, row, 1) + " WHERE "@
        + spec_quoted(d, key) + " = "@ + spec_placeholder(d, (1 + spec_row_params(row).len()) as nat)
}

/// Whether every identifier of a column list passes the allow-list.
pub open spec fn spec_cols_idents_ok(cols: Seq<Seq<char>>) -> bool {
    forall|i: int| 0 <= i < cols.len() ==> spec_valid_identifier(#[trigger] cols[i])
}

fn check_cols(cols: &Vec<String>) -> (r: Result<(), OrmError>)
    ensures
        r is Ok <==> spec_cols_idents_ok(cols.deep_view()),
        r matches Err(e) ==> e is ValidationError,
{
    let n = cols.len();
    let mut i: usize = 0;
    while i < n
        invariant
            n == cols@.len(),
            0 <= i <= n,
            forall|j: int| 0 <= j < i ==> spec_valid_identifier(#[trigger] cols.deep_view()[j]),
        decreases n - i,
    {
        proof {
            assert(cols.deep_view()[i as int] == cols@[i as int]@);
        }
        if !valid_identifier(cols[i].as_str()) {
            return Err(invalid_identifier_error(&cols[i]));
        }
        i = i + 1;
    }
    Ok(())
}

fn append_cell(d: Dialect, cell: &Option<String>, out: &mut String, params: &mut Vec<String>)
    ensures
        final(out)@ == old(out)@ + spec_cell_sql(
            d,
            cell.deep_view(),
            (old(params)@.len() + 1) as nat,
        ),
        final(params).deep_view() == old(params).deep_view() + (match cell.deep_view() {
            Option::Some(v) => seq![v],
            Option::None => Seq::<Seq<char>>::empty(),
        }),
{
    match cell {
        Option::Some(v) => {
            push_param(params, v);
            append_placeholder(d, params.len(), out);
            proof {
                assert(params.deep_view() =~= old(params).deep_view() + seq![v@]);
            }
        },
        Option::None => {
            out.append("NULL");
            proof {
                assert(params.deep_view() =~= old(params).deep_view()
                    + Seq::<Seq<char>>::empty());
            }
        },
    }
}

/// [`spec_row_params`] split at the last cell.
proof fn lemma_row_params_snoc(row: Seq<Option<Seq<char>>>)
    requires
        row.len() > 0,
    ensures
        spec_row_params(row) == spec_row_params(row.drop_last()) + (match row.last() {
            Option::Some(v) => seq![v],
            Option::None => Seq::<Seq<char>>::empty(),
        }),
{
}

fn append_set_list(
    d: Dialect,
    cols: &Vec<String>,
    row: &Vec<Option<String>>,
    out: &mut String,
    params: &mut Vec<String>,
)
    requires
        cols@.len() >= 1,
        row@.len() == cols@.len(),
        old(params)@.len() == 0,
    ensures
        final(out)@ == old(out)@ + spec_set_sql(d, cols.deep_view(), row.deep_view(), 1),
        final(params).deep_view() == spec_row_params(row.deep_view()),
{
    let n = cols.len();
    let mut i: usize = 0;
    proof {
        assert(cols.deep_view().take(0) =~= Seq::<Seq<char>>::empty());
        assert(row.deep_view().take(0) =~= Seq::<Option<Seq<char>>>::empty());
        assert(out@ =~= old(out)@ + spec_set_sql(
            d,
            cols.deep_view().take(0),
            row.deep_view().take(0),
            1,
        ));
        assert(params.deep_view() =~= spec_row_params(row.deep_view().take(0)));
    }
    while i < n
        invariant
            n == cols@.len(),
            n >= 1,
            row@.len() == cols@.len(),
            0 <= i <= n,
            out@ == old(out)@ + spec_set_sql(
                d,
                cols.deep_view().take(i as int),
                row.deep_view().take(i as int),
                1,
            ),
            params.deep_view() == spec_row_params(row.deep_view().take(i as int)),
            params.deep_view().len() == params@.len(),
        decreases n - i,
    {
        if i > 0 {
            out.append(", ");
        }
        proof {
            assert(cols.deep_view()[i as int] == cols@[i as int]@);
        }
        append_quoted(d, &cols[i], out);
        out.append(" = ");
        append_cell(d, &row[i], out, params);
        proof {
            let tc = cols.deep_view().take(i as int + 1);
            let tr = row.deep_view().take(i as int + 1);
            assert(tc.drop_last() =~= cols.deep_view().take(i as int));
            assert(tr.drop_last() =~= row.deep_view().take(i as int));
            assert(tc.last() == cols.deep_view()[i as int]);
            assert(tr.last() == row.deep_view()[i as int]);
            assert(row.deep_view()[i as int] == row@[i as int].deep_view());
            lemma_row_params_snoc(tr);
            if i == 0 {
                assert(tc.len() == 1);
                assert(spec_set_sql(d, tc, tr, 1) == spec_quoted(d, tc[0]) + " = "@
                    + spec_cell_sql(d, tr[0], 1));
                assert(tc[0] == cols.deep_view()[0]);
                assert(tr[0] == row.deep_view()[0]);
                assert(spec_row_params(row.deep_view().take(0)).len() == 0);
            } else {
                assert(spec_set_sql(d, tc, tr, 1) == spec_set_sql(
                    d,
                    cols.deep_view().take(i as int),
                    row.deep_view().take(i as int),
                    1,
                ) + ", "@ + spec_quoted(d, tc.last()) + " = "@ + spec_cell_sql(
                    d,
                    tr.last(),
                    1 + spec_row_params(row.deep_view().take(i as int)).len(),
                ));
            }
            assert(out@ =~= old(out)@ + spec_set_sql(d, tc, tr, 1));
            assert(params.deep_view() =~= spec_row_params(tr));
        }
        i = i + 1;
    }
    proof {
        assert(cols.deep_view().take(n as int) =~= cols.deep_view());
        assert(row.deep_view().take(n as int) =~= row.deep_view());
    }
}

/// Compiles the keyed UPDATE: every column set to the row's cell (stored
/// values as parameters, NULL cells as the NULL keyword), keyed by the
/// given column, whose value is the last parameter. `ValidationError`
/// exactly when an identifier fails the allow-list or the row does not
/// have one cell per column (checked before any I/O could happen).
pub fn compile_update_by_id(
    d: Dialect,
    table: &String,
    cols: &Vec<String>,
    row: &Vec<Option<String>>,
    key: &String,
    id: &String,
) -> (r: Result<Statement, OrmError>)
    ensures
        r is Ok <==> spec_valid_identifier(table@) && spec_cols_idents_ok(cols.deep_view())
            && spec_valid_identifier(key@) && cols@.len() >= 1 && row@.len() == cols@.len(),
        r matches Ok(st) ==> st.sql@ == spec_update_sql(
            d,
            table@,
            cols.deep_view(),
            row.deep_view(),
            key@,
        ) && st.params.deep_view() == spec_row_params(row.deep_view()).push(id@),
        r matches Err(e) ==> e is ValidationError,
{
    if !valid_identifier(table.as_str()) {
        return Err(invalid_identifier_error(table));
    }
    check_cols(cols)?;
    if !valid_identifier(key.as_str()) {
        return Err(invalid_identifier_error(key));
    }
    if cols.len() == 0 || row.len() != cols.len() {
        return Err(
            OrmError::ValidationError(
                String::from_str("row does not match the column layout"),
            ),
        );
    }
    let mut sql = String::new();
    let mut params: Vec<String> = Vec::new();
    sql.append("UPDATE ");
    append_quoted(d, table, &mut sql);
    sql.append(" SET ");
    append_set_list(d, cols, row, &mut sql, &mut params);
    sql.append(" WHERE ");
    append_quoted(d, key, &mut sql);
    sql.append(" = ");
    push_param(&mut params, id);
    append_placeholder(d, params.len(), &mut sql);
    proof {
        assert(sql@ =~= spec_update_sql(d, table@, cols.deep_view(), row.deep_view(), key@));
        assert(params.deep_view() =~= spec_row_params(row.deep_view()).push(id@));
    }
    Ok(Statement { sql, params })
}


/// The parameters a sequence of rows contributes, row by row.
pub open spec fn spec_rows_params(rows: Seq<Seq<Option<Seq<char>>>>) -> Seq<Seq<char>>
    decreases rows.len(),
{
    if rows.len() == 0 {
        Seq::empty()
    } else {
        spec_rows_params(rows.drop_last()) + spec_row_params(rows.last())
    }
}

/// The VALUES lists of a multi-row INSERT: one parenthesized cell list per
/// row, joined by commas, parameter numbering threaded across rows.
pub open spec fn spec_values_sql(d: Dialect, rows: Seq<Seq<Option<Seq<char>>>>, k: nat) -> Seq<char>
    decreases rows.len(),
{
    if rows.len() == 0 {
        Seq::empty()
    } else if rows.len() == 1 {
        "("@ + spec_cells_sql(d, rows[0], k) + ")"@
    } else {
        spec_values_sql(d, rows.drop_last(), k) + ", "@ + "("@ + spec_cells_sql(
            d,
            rows.last(),
            k + spec_rows_params(rows.drop_last()).len(),
        ) + ")"@
    }
}

/// The full text of a single multi-row INSERT.
pub open spec fn spec_insert_sql(
    d: Dialect,
    table: Seq<char>,
    cols: Seq<Seq<char>>,
    rows: Seq<Seq<Option<Seq<char>>>>,
) -> Seq<char> {
    "INSERT INTO "@ + spec_quoted(d, table) + " ("@ + spec_col_list_sql(d, cols) + ") VALUES "@
        + spec_values_sql(d, rows, 1)
}

fn append_col_list(d: Dialect, cols: &Vec<String>, out: &mut String)
    requires
        cols@.len() >= 1,
    ensures
        final(out)@ == old(out)@ + spec_col_list_sql(d, cols.deep_view()),
{
    let n = cols.len();
    let mut i: usize = 0;
    proof {
        assert(cols.deep_view().take(0) =~= Seq::<Seq<char>>::empty());
        assert(out@ =~= old(out)@ + spec_col_list_sql(d, cols.deep_view().take(0)));
    }
    while i < n
        invariant
            n == cols@.len(),
            n >= 1,
            0 <= i <= n,
            out@ == old(out)@ + spec_col_list_sql(d, cols.deep_view().take(i as int)),
        decreases n - i,
    {
        if i > 0 {
            out.append(", ");
        }
        append_quoted(d, &cols[i], out);
        proof {
            let t1 = cols.deep_view().take(i as int + 1);
            assert(t1.drop_last() =~= cols.deep_view().take(i as int));
            assert(t1.last() == cols.deep_view()[i as int]);
            assert(cols.deep_view()[i as int] == cols@[i as int]@);
            if i == 0 {
                assert(t1.len() == 1);
                assert(spec_col_list_sql(d, t1) == spec_quoted(d, t1[0]));
                assert(t1[0] == cols.deep_view()[0]);
            } else {
                assert(spec_col_list_sql(d, t1) == spec_col_list_sql(
                    d,
                    cols.deep_view().take(i as int),
                ) + ", "@ + spec_quoted(d, t1.last()));
            }
            assert(out@ =~= old(out)@ + spec_col_list_sql(d, t1));
        }
        i = i + 1;
    }
    proof {
        assert(cols.deep_view().take(n as int) =~= cols.deep_view());
    }
}

fn append_cells(d: Dialect, row: &Vec<Option<String>>, out: &mut String, params: &mut Vec<String>)
    requires
        row@.len() >= 1,
    ensures
        final(out)@ == old(out)@ + spec_cells_sql(
            d,
            row.deep_view(),
            (old(params)@.len() + 1) as nat,
        ),
        final(params).deep_view() == old(params).deep_view() + spec_row_params(row.deep_view()),
{
    let ghost k: nat = (old(params)@.len() + 1) as nat;
    let n = row.len();
    let mut i: usize = 0;
    proof {
        assert(row.deep_view().take(0) =~= Seq::<Option<Seq<char>>>::empty());
        assert(out@ =~= old(out)@ + spec_cells_sql(d, row.deep_view().take(0), k));
        assert(params.deep_view() =~= old(params).deep_view() + spec_row_params(
            row.deep_view().take(0),
        ));
    }
    while i < n
        invariant
            n == row@.len(),
            n >= 1,
            0 <= i <= n,
            k == (old(params)@.len() + 1) as nat,
            out@ == old(out)@ + spec_cells_sql(d, row.deep_view().take(i as int), k),
            params.deep_view() == old(params).deep_view() + spec_row_params(
                row.deep_view().take(i as int),
            ),
            params.deep_view().len() == params@.len(),
        decreases n - i,
    {
        if i > 0 {
            out.append(", ");
        }
        append_cell(d, &row[i], out, params);
        proof {
            let tr = row.deep_view().take(i as int + 1);
            assert(tr.drop_last() =~= row.deep_view().take(i as int));
            assert(tr.last() == row.deep_view()[i as int]);
            assert(row.deep_view()[i as int] == row@[i as int].deep_view());
            lemma_row_params_snoc(tr);
            if i == 0 {
                assert(tr.len() == 1);
                assert(spec_cells_sql(d, tr, k) == spec_cell_sql(d, tr[0], k));
                assert(tr[0] == row.deep_view()[0]);
                assert(spec_row_params(row.deep_view().take(0)).len() == 0);
            } else {
                assert(spec_cells_sql(d, tr, k) == spec_cells_sql(
                    d,
                    row.deep_view().take(i as int),
                    k,
                ) + ", "@ + spec_cell_sql(
                    d,
                    tr.last(),
                    k + spec_row_params(row.deep_view().take(i as int)).len(),
                ));
            }
            assert(out@ =~= old(out)@ + spec_cells_sql(d, tr, k));
            assert(params.deep_view() =~= old(params).deep_view() + spec_row_params(tr));
        }
        i = i + 1;
    }
    proof {
        assert(row.deep_view().take(n as int) =~= row.deep_view());
    }
}

/// Compiles the single multi-row INSERT that the bulk create uses: one
/// statement, one parenthesized value list per row, stored values bound as
/// parameters in row order and NULL cells rendered as the NULL keyword.
/// `ValidationError` exactly when an identifier fails the allow-list,
/// there is no column or no row, or some row does not have one cell per
/// column — all checked before any I/O could happen.
pub fn compile_insert(
    d: Dialect,
    table: &String,
    cols: &Vec<String>,
    rows: &Vec<Vec<Option<String>>>,
) -> (r: Result<Statement, OrmError>)
    ensures
        r is Ok <==> spec_valid_identifier(table@) && spec_cols_idents_ok(cols.deep_view())
            && cols@.len() >= 1 && rows@.len() >= 1 && (forall|i: int|
            0 <= i < rows@.len() ==> (#[trigger] rows@[i])@.len() == cols@.len()),
        r matches Ok(st) ==> st.sql@ == spec_insert_sql(
            d,
            table@,
            cols.deep_view(),
            rows.deep_view(),
        ) && st.params.deep_view() == spec_rows_params(rows.deep_view()),
        r matches Err(e) ==> e is ValidationError,
{
    if !valid_identifier(table.as_str()) {
        return Err(invalid_identifier_error(table));
    }
    check_cols(cols)?;
    if cols.len() == 0 || rows.len() == 0 {
        return Err(
            OrmError::ValidationError(String::from_str("nothing to insert")),
        );
    }
    let nr = rows.len();
    let mut i: usize = 0;
    while i < nr
        invariant
            nr == rows@.len(),
            0 <= i <= nr,
            forall|j: int| 0 <= j < i ==> (#[trigger] rows@[j])@.len() == cols@.len(),
        decreases nr - i,
    {
        if rows[i].len() != cols.len() {
            return Err(
                OrmError::ValidationError(
                    String::from_str("row does not match the column layout"),
                ),
            );
        }
        i = i + 1;
    }
    let mut sql = String::new();
    let mut params: Vec<String> = Vec::new();
    sql.append("INSERT INTO ");
    append_quoted(d, table, &mut sql);
    sql.append(" (");
    append_col_list(d, cols, &mut sql);
    sql.append(") VALUES ");
    let ghost mid = sql@;
    let mut j: usize = 0;
    proof {
        assert(rows.deep_view().take(0) =~= Seq::<Seq<Option<Seq<char>>>>::empty());
        assert(sql@ =~= mid + spec_values_sql(d, rows.deep_view().take(0), 1));
        assert(params.deep_view() =~= spec_rows_params(rows.deep_view().take(0)));
    }
    while j < nr
        invariant
            nr == rows@.len(),
            nr >= 1,
            0 <= j <= nr,
            forall|m: int| 0 <= m < rows@.len() ==> (#[trigger] rows@[m])@.len() == cols@.len(),
            cols@.len() >= 1,
            sql@ == mid + spec_values_sql(d, rows.deep_view().take(j as int), 1),
            params.deep_view() == spec_rows_params(rows.deep_view().take(j as int)),
            params.deep_view().len() == params@.len(),
        decreases nr - j,
    {
        if j > 0 {
            sql.append(", ");
        }
        sql.append("(");
        proof {
            assert(rows.deep_view()[j as int] == rows@[j as int].deep_view());
            assert(rows@[j as int]@.len() >= 1);
            assert(rows.deep_view()[j as int].len() == rows@[j as int]@.len());
        }
        append_cells(d, &rows[j], &mut sql, &mut params);
        sql.append(")");
        proof {
            let tr = rows.deep_view().take(j as int + 1);
            assert(tr.drop_last() =~= rows.deep_view().take(j as int));
            assert(tr.last() == rows.deep_view()[j as int]);
            if j == 0 {
                assert(tr.len() == 1);
                assert(spec_values_sql(d, tr, 1) == "("@ + spec_cells_sql(d, tr[0], 1) + ")"@);
                assert(tr[0] == rows.deep_view()[0]);
                assert(spec_rows_params(rows.deep_view().take(0)).len() == 0);
            } else {
                assert(spec_values_sql(d, tr, 1) == spec_values_sql(
                    d,
                    rows.deep_view().take(j as int),
                    1,
                ) + ", "@ + "("@ + spec_cells_sql(
                    d,
                    tr.last(),
                    1 + spec_rows_params(rows.deep_view().take(j as int)).len(),
                ) + ")"@);
            }
            assert(spec_rows_params(tr) == spec_rows_params(rows.deep_view().take(j as int))
                + spec_row_params(tr.last()));
            assert(sql@ =~= mid + spec_values_sql(d, tr, 1));
            assert(params.deep_view() =~= spec_rows_params(tr));
        }
        j = j + 1;
    }
    proof {
        assert(rows.deep_view().take(nr as int) =~= rows.deep_view());
        assert(sql@ =~= spec_insert_sql(d, table@, cols.deep_view(), rows.deep_view()));
    }
    Ok(Statement { sql, params })
}

} // verus!
