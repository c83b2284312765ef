//! Character-sequence utilities shared by the compiler and the in-memory
//! engine: identifier validation, lexicographic ordering of values, SQL
//! `LIKE` pattern matching, and decimal rendering of integers.

use vstd::prelude::*;
use vstd::string::StrSliceExecFns;
use vstd::string::StringExecFns;

verus! {

/// An identifier character: ASCII letter, digit, or underscore.
pub open spec fn spec_ident_char(c: char) -> bool {
    ||| ('a' as u32) <= (c as u32) <= ('z' as u32)
    ||| ('A' as u32) <= (c as u32) <= ('Z' as u32)
    ||| ('0' as u32) <= (c as u32) <= ('9' as u32)
    ||| c == '_'
}

/// A valid identifier is non-empty and made of identifier characters only.
/// Table and column names must pass this allow-list before they are quoted
/// into SQL text.
pub open spec fn spec_valid_identifier(s: Seq<char>) -> bool {
    s.len() > 0 && forall|i: int| 0 <= i < s.len() ==> spec_ident_char(#[trigger] s[i])
}

/// Executable form of [`spec_valid_identifier`].
pub fn valid_identifier(s: &str) -> (r: bool)
    ensures
        r == spec_valid_identifier(s@),
{
    let n = s.unicode_len();
    if n == 0 {
        return false;
    }
    let mut i: usize = 0;
    while i < n
        invariant
            n == s@.len(),
            0 <= i <= n,
            forall|j: int| 0 <= j < i ==> spec_ident_char(#[trigger] s@[j]),
        decreases n - i,
    {
        let c = s.get_char(i);
        let u = c as u32;
        let ok = (97u32 <= u && u <= 122u32) || (65u32 <= u && u <= 90u32) || (48u32 <= u && u
            <= 57u32) || c == '_';
        if !ok {
            return false;
        }
        i = i + 1;
    }
    true
}

/// Strict lexicographic order on character sequences, by code point. This is
/// the order the in-memory engine uses for range conditions and `ORDER BY`.
pub open spec fn spec_lex_lt(a: Seq<char>, b: Seq<char>) -> bool
    decreases a.len(),
{
    if b.len() == 0 {
        false
    } else if a.len() == 0 {
        true
    } else if (a[0] as u32) < (b[0] as u32) {
        true
    } else if (b[0] as u32) < (a[0] as u32) {
        false
    } else {
        spec_lex_lt(a.drop_first(), b.drop_first())
    }
}

/// Executable form of [`spec_lex_lt`].
pub fn lex_lt(a: &str, b: &str) -> (r: bool)
    ensures
        r == spec_lex_lt(a@, b@),
{
    let na = a.unicode_len();
    let nb = b.unicode_len();
    let mut i: usize = 0;
    proof {
        assert(a@.skip(0) =~= a@);
        assert(b@.skip(0) =~= b@);
    }
    loop
        invariant
            na == a@.len(),
            nb == b@.len(),
            0 <= i <= na,
            0 <= i <= nb,
            spec_lex_lt(a@, b@) == spec_lex_lt(a@.skip(i as int), b@.skip(i as int)),
        decreases na - i,
    {
        if i >= nb {
            return false;
        }
        if i >= na {
            return true;
        }
        let ca = a.get_char(i) as u32;
        let cb = b.get_char(i) as u32;
        if ca < cb {
            return true;
        }
        if cb < ca {
            return false;
        }
        proof {
            assert(a@.skip(i as int).drop_first() =~= a@.skip(i as int + 1));
            assert(b@.skip(i as int).drop_first() =~= b@.skip(i as int + 1));
        }
        i = i + 1;
    }
}

/// SQL `LIKE` matching: `%` matches any (possibly empty) substring, `_`
/// matches exactly one character, anything else matches itself.
pub open spec fn spec_like_match(p: Seq<char>, s: Seq<char>) -> bool
    decreases p.len() + s.len(),
{
    if p.len() == 0 {
        s.len() == 0
    } else if p[0] == '%' {
        spec_like_match(p.drop_first(), s) || (s.len() > 0 && spec_like_match(p, s.drop_first()))
    } else if p[0] == '_' {
        s.len() > 0 && spec_like_match(p.drop_first(), s.drop_first())
    } else {
        s.len() > 0 && s[0] == p[0] && spec_like_match(p.drop_first(), s.drop_first())
    }
}

fn like_match_at(p: &Vec<char>, s: &Vec<char>, pi: usize, si: usize) -> (r: bool)
    requires
        pi <= p@.len(),
        si <= s@.len(),
    ensures
        r == spec_like_match(p@.skip(pi as int), s@.skip(si as int)),
    decreases (p@.len() - pi) + (s@.len() - si),
{
    proof {
        if pi < p@.len() {
            assert(p@.skip(pi as int).drop_first() =~= p@.skip(pi as int + 1));
        }
        if si < s@.len() {
            assert(s@.skip(si as int).drop_first() =~= s@.skip(si as int + 1));
        }
    }
    if pi >= p.len() {
        si >= s.len()
    } else {
        let pc = p[pi];
        if pc == '%' {
            if like_match_at(p, s, pi + 1, si) {
                true
            } else if si < s.len() {
                like_match_at(p, s, pi, si + 1)
            } else {
                false
            }
        } else if si >= s.len() {
            false
        } else if pc == '_' {
            like_match_at(p, s, pi + 1, si + 1)
        } else {
            s[si] == pc && like_match_at(p, s, pi + 1, si + 1)
        }
    }
}

/// The characters of a string as a vector, in order.
pub fn chars_of(s: &str) -> (r: Vec<char>)
    ensures
        r@ == s@,
{
    let n = s.unicode_len();
    let mut r: Vec<char> = Vec::new();
    let mut i: usize = 0;
    while i < n
        invariant
            n == s@.len(),
            0 <= i <= n,
            r@ == s@.take(i as int),
        decreases n - i,
    {
        let c = s.get_char(i);
        r.push(c);
        proof {
            assert(s@.take(i as int).push(s@[i as int]) =~= s@.take(i as int + 1));
        }
        i = i + 1;
    }
    proof {
        assert(s@.take(n as int) =~= s@);
    }
    r
}

/// Executable form of [`spec_like_match`] on whole strings: does `s` match
/// the pattern `p`?
pub fn like_match(p: &str, s: &str) -> (r: bool)
    ensures
        r == spec_like_match(p@, s@),
{
    let pv = chars_of(p);
    let sv = chars_of(s);
    let r = like_match_at(&pv, &sv, 0, 0);
    proof {
        assert(pv@.skip(0) =~= p@);
        assert(sv@.skip(0) =~= s@);
    }
    r
}

/// The decimal digit character for a value below ten.
pub open spec fn spec_digit_char(d: nat) -> char {
    if d == 0 {
        '0'
    } else if d == 1 {
        '1'
    } else if d == 2 {
        '2'
    } else if d == 3 {
        '3'
    } else if d == 4 {
        '4'
    } else if d == 5 {
        '5'
    } else if d == 6 {
        '6'
    } else if d == 7 {
        '7'
    } else if d == 8 {
        '8'
    } else {
        '9'
    }
}

/// The usual decimal rendering of a natural number, most significant digit
/// first, with no leading zeros (and `0` itself rendered as "0").
pub open spec fn spec_dec_str(n: nat) -> Seq<char>
    decreases n,
{
    if n < 10 {
        seq![spec_digit_char(n)]
    } else {
        spec_dec_str(n / 10).push(spec_digit_char(n % 10))
    }
}

fn append_digit(out: &mut String, d: u64)
    requires
        d < 10,
    ensures
        final(out)@ == old(out)@ + seq![spec_digit_char(d as nat)],
{
    proof {
        reveal_strlit("0");
        reveal_strlit("1");
        reveal_strlit("2");
        reveal_strlit("3");
        reveal_strlit("4");
        reveal_strlit("5");
        reveal_strlit("6");
        reveal_strlit("7");
        reveal_strlit("8");
        reveal_strlit("9");
    }
    if d == 0 {
        out.append("0");
    } else if d == 1 {
        out.append("1");
    } else if d == 2 {
        out.append("2");
    } else if d == 3 {
        out.append("3");
    } else if d == 4 {
        out.append("4");
    } else if d == 5 {
        out.append("5");
    } else if d == 6 {
        out.append("6");
    } else if d == 7 {
        out.append("7");
    } else if d == 8 {
        out.append("8");
    } else {
        out.append("9");
    }
    proof {
        assert(out@ =~= old(out)@ + seq![spec_digit_char(d as nat)]);
    }
}

/// Appends the decimal rendering of `n` to `out`.
pub fn append_u64(out: &mut String, n: u64)
    ensures
        final(out)@ == old(out)@ + spec_dec_str(n as nat),
    decreases n,
{
    if n >= 10 {
        append_u64(out, n / 10);
        append_digit(out, n % 10);
        proof {
            assert(out@ =~= old(out)@ + spec_dec_str(n as nat));
        }
    } else {
        append_digit(out, n);
    }
}


/// The lexicographic order is asymmetric: two sequences are never each
/// strictly below the other.
pub proof fn lemma_lex_lt_asymmetric(a: Seq<char>, b: Seq<char>)
    ensures
        !(spec_lex_lt(a, b) && spec_lex_lt(b, a)),
    decreases a.len(),
{
    if a.len() > 0 && b.len() > 0 {
        if (a[0] as u32) == (b[0] as u32) {
            lemma_lex_lt_asymmetric(a.drop_first(), b.drop_first());
        }
    }
}

/// A step of connectedness: whatever lies strictly below `a` lies strictly
/// below `b`, or `b` itself lies strictly below `a`.
pub proof fn lemma_lex_lt_connected(a: Seq<char>, b: Seq<char>, c: Seq<char>)
    requires
        spec_lex_lt(c, a),
    ensures
        spec_lex_lt(c, b) || spec_lex_lt(b, a),
    decreases a.len() + b.len() + c.len(),
{
    if b.len() == 0 {
        assert(a.len() > 0);
        assert(spec_lex_lt(b, a));
    } else if c.len() == 0 {
        assert(spec_lex_lt(c, b));
    } else {
        let ca = c[0] as u32;
        let aa = a[0] as u32;
        let bb = b[0] as u32;
        if ca < aa {
            if ca < bb {
                assert(spec_lex_lt(c, b));
            } else if bb < aa {
                assert(spec_lex_lt(b, a));
            } else {
                assert(bb == ca && ca < aa);
                assert(spec_lex_lt(b, a));
            }
        } else {
            assert(ca == aa);
            if bb < ca {
                assert(spec_lex_lt(b, a));
            } else if ca < bb {
                assert(spec_lex_lt(c, b));
            } else {
                lemma_lex_lt_connected(a.drop_first(), b.drop_first(), c.drop_first());
            }
        }
    }
}

} // verus!
