//! The table substitution of `ma_strings` read as one left-to-right pass:
//! when no escaped entry contains `Ma(`, replacing the lookups entry by entry
//! gives the same text as replacing every lookup `Ma(i)` (with `i` below the
//! table's length) where it stands in the script, and leaving the rest.
use vstd::prelude::*;
use crate::chars::replace_all;
use crate::ma_strings::{apply_table, decoded, escape_entry, placeholder, quoted, string_table};
use crate::text::{decimal_digits, digit_char};

verus! {

/// `p` occurs in `s` starting at `pos`.
pub open spec fn starts_with_at(s: Seq<char>, pos: int, p: Seq<char>) -> bool {
    0 <= pos && pos + p.len() <= s.len() && s.subrange(pos, pos + p.len()) == p
}

/// The start of a lookup: `Ma(`.
pub open spec fn lookup_open() -> Seq<char> {
    seq!['M', 'a', '(']
}

/// `Ma(` occurs somewhere in `s`.
pub open spec fn has_lookup_start(s: Seq<char>) -> bool {
    exists|k: int| #[trigger] starts_with_at(s, k, lookup_open())
}

/// The index below `n` whose lookup `Ma(i)` starts at `pos` of `s`.
pub open spec fn placeholder_at(s: Seq<char>, pos: int, n: nat) -> Option<nat>
    decreases n,
{
    if n == 0 {
        None
    } else if starts_with_at(s, pos, placeholder((n - 1) as nat)) {
        Some((n - 1) as nat)
    } else {
        placeholder_at(s, pos, (n - 1) as nat)
    }
}

/// The replacement of the lookup of entry `i`.
pub open spec fn replacement(table: Seq<Seq<char>>, i: int) -> Seq<char> {
    quoted(escape_entry(table[i]))
}

/// One pass over `s`: each lookup `Ma(i)` with `i` below the table's length
/// becomes the quoted, escaped entry; every other character stays.
pub open spec fn substitute(s: Seq<char>, table: Seq<Seq<char>>) -> Seq<char>
    decreases s.len(),
{
    if s.len() == 0 {
        s
    } else {
        match placeholder_at(s, 0, table.len()) {
            Some(i) => {
                proof {
                    lemma_placeholder_at(s, 0, table.len());
                    lemma_placeholder_shape(i);
                }
                replacement(table, i as int) + substitute(
                    s.subrange(placeholder(i).len() as int, s.len() as int),
                    table,
                )
            },
            None => seq![s[0]] + substitute(s.subrange(1, s.len() as int), table),
        }
    }
}

pub open spec fn is_digit(c: char) -> bool {
    '0' <= c <= '9'
}

proof fn lemma_digits(n: nat)
    ensures
        decimal_digits(n).len() >= 1,
        forall|k: int| 0 <= k < decimal_digits(n).len() ==> is_digit(#[trigger] decimal_digits(n)[k]),
    decreases n,
{
    if n >= 10 {
        lemma_digits(n / 10);
        let a = decimal_digits(n / 10);
        let b = seq![digit_char(n % 10)];
        assert forall|k: int| 0 <= k < decimal_digits(n).len() implies is_digit(
            #[trigger] decimal_digits(n)[k],
        ) by {
            if k < a.len() {
                assert(decimal_digits(n)[k] == a[k]);
            } else {
                assert(decimal_digits(n)[k] == b[0]);
            }
        }
    }
}

proof fn lemma_digit_char_injective(a: nat, b: nat)
    requires
        a < 10,
        b < 10,
        digit_char(a) == digit_char(b),
    ensures
        a == b,
{
}

proof fn lemma_digits_injective(a: nat, b: nat)
    requires
        decimal_digits(a) == decimal_digits(b),
    ensures
        a == b,
    decreases a,
{
    lemma_digits(a / 10);
    lemma_digits(b / 10);
    let da = decimal_digits(a);
    if a < 10 && b < 10 {
        assert(da[0] == decimal_digits(b)[0]);
        lemma_digit_char_injective(a, b);
    } else if a < 10 {
        assert(decimal_digits(b).len() >= 2);
    } else if b < 10 {
        assert(da.len() >= 2);
    } else {
        let pa = decimal_digits(a / 10);
        let pb = decimal_digits(b / 10);
        assert(da.len() == pa.len() + 1);
        assert(decimal_digits(b).len() == pb.len() + 1);
        assert(pa =~= da.subrange(0, da.len() - 1));
        assert(pb =~= decimal_digits(b).subrange(0, da.len() - 1));
        lemma_digits_injective(a / 10, b / 10);
        assert(da[da.len() - 1] == digit_char(a % 10));
        assert(decimal_digits(b)[da.len() - 1] == digit_char(b % 10));
        lemma_digit_char_injective(a % 10, b % 10);
    }
}

/// `Ma(` then digits then `)`.
pub proof fn lemma_placeholder_shape(i: nat)
    ensures
        placeholder(i) == seq!['M', 'a', '('] + decimal_digits(i) + seq![')'],
        placeholder(i).len() == decimal_digits(i).len() + 4,
        placeholder(i).len() >= 5,
        placeholder(i)[0] == 'M',
        forall|k: int| 1 <= k < placeholder(i).len() ==> #[trigger] placeholder(i)[k] != 'M'
            && placeholder(i)[k] != '"',
{
    reveal_strlit("Ma(");
    reveal_strlit(")");
    lemma_digits(i);
    let p = placeholder(i);
    assert(p =~= seq!['M', 'a', '('] + decimal_digits(i) + seq![')']);
    assert forall|k: int| 1 <= k < p.len() implies #[trigger] p[k] != 'M' && p[k] != '"' by {
        if 3 <= k < 3 + decimal_digits(i).len() {
            assert(p[k] == decimal_digits(i)[k - 3]);
        }
    }
}

/// At most one lookup starts at a position.
proof fn lemma_placeholder_unique(s: Seq<char>, pos: int, i: nat, j: nat)
    requires
        starts_with_at(s, pos, placeholder(i)),
        starts_with_at(s, pos, placeholder(j)),
    ensures
        i == j,
{
    lemma_placeholder_shape(i);
    lemma_placeholder_shape(j);
    lemma_digits(i);
    lemma_digits(j);
    let di = decimal_digits(i);
    let dj = decimal_digits(j);
    let pi = placeholder(i);
    let pj = placeholder(j);
    let li = di.len() as int;
    let lj = dj.len() as int;
    if li < lj {
        assert(pi[3 + li] == ')');
        assert(s.subrange(pos, pos + pi.len())[3 + li] == s[pos + 3 + li]);
        assert(s.subrange(pos, pos + pj.len())[3 + li] == s[pos + 3 + li]);
        assert(pj[3 + li] == dj[li]);
        assert(is_digit(dj[li]));
    } else if lj < li {
        assert(pj[3 + lj] == ')');
        assert(s.subrange(pos, pos + pi.len())[3 + lj] == s[pos + 3 + lj]);
        assert(s.subrange(pos, pos + pj.len())[3 + lj] == s[pos + 3 + lj]);
        assert(pi[3 + lj] == di[lj]);
        assert(is_digit(di[lj]));
    } else {
        assert forall|k: int| 0 <= k < di.len() implies di[k] == dj[k] by {
            assert(pi[3 + k] == di[k]);
            assert(pj[3 + k] == dj[k]);
            assert(s.subrange(pos, pos + pi.len())[3 + k] == s[pos + 3 + k]);
            assert(s.subrange(pos, pos + pj.len())[3 + k] == s[pos + 3 + k]);
        }
        assert(di =~= dj);
        lemma_digits_injective(i, j);
    }
}

/// `placeholder_at` finds exactly the lookup below `n` that starts there.
pub proof fn lemma_placeholder_at(s: Seq<char>, pos: int, n: nat)
    ensures
        placeholder_at(s, pos, n) matches Some(i) ==> i < n && starts_with_at(s, pos, placeholder(i)),
        placeholder_at(s, pos, n) is None ==> forall|i: nat| i < n ==> !#[trigger] starts_with_at(
            s,
            pos,
            placeholder(i),
        ),
    decreases n,
{
    if n > 0 {
        lemma_placeholder_at(s, pos, (n - 1) as nat);
    }
}

proof fn lemma_starts_concat(x: Seq<char>, y: Seq<char>, k: int, p: Seq<char>)
    requires
        k >= x.len(),
        starts_with_at(x + y, k, p),
    ensures
        starts_with_at(y, k - x.len(), p),
{
    assert((x + y).subrange(k, k + p.len()) =~= y.subrange(k - x.len(), k - x.len() + p.len()));
}

proof fn lemma_starts_tail(s: Seq<char>, k: int, p: Seq<char>)
    requires
        s.len() > 0,
        0 <= k,
    ensures
        starts_with_at(s.subrange(1, s.len() as int), k, p) == starts_with_at(s, k + 1, p),
{
    if k + 1 + p.len() <= s.len() {
        assert(s.subrange(1, s.len() as int).subrange(k, k + p.len()) =~= s.subrange(k + 1, k + 1 + p.len()));
    }
}

proof fn lemma_placeholder_at_tail(s: Seq<char>, k: int, n: nat)
    requires
        s.len() > 0,
        0 <= k,
    ensures
        placeholder_at(s.subrange(1, s.len() as int), k, n) == placeholder_at(s, k + 1, n),
    decreases n,
{
    if n > 0 {
        lemma_starts_tail(s, k, placeholder((n - 1) as nat));
        lemma_placeholder_at_tail(s, k, (n - 1) as nat);
    }
}

/// Replacing in `pat + b` replaces the leading `pat`.
proof fn lemma_replace_leading(pat: Seq<char>, b: Seq<char>, rep: Seq<char>)
    requires
        pat.len() > 0,
    ensures
        replace_all(pat + b, pat, rep) == rep + replace_all(b, pat, rep),
{
    let s = pat + b;
    assert(s.subrange(0, pat.len() as int) =~= pat);
    assert(s.subrange(pat.len() as int, s.len() as int) =~= b);
}

/// Replacing in `a + b` keeps `a` when no occurrence starts inside `a`.
proof fn lemma_replace_prefix(a: Seq<char>, b: Seq<char>, pat: Seq<char>, rep: Seq<char>)
    requires
        pat.len() > 0,
        forall|k: int| 0 <= k < a.len() ==> !#[trigger] starts_with_at(a + b, k, pat),
    ensures
        replace_all(a + b, pat, rep) == a + replace_all(b, pat, rep),
    decreases a.len(),
{
    let s = a + b;
    if a.len() == 0 {
        assert(s =~= b);
    } else if s.len() < pat.len() {
        assert(b.len() < pat.len());
    } else {
        assert(!starts_with_at(s, 0, pat));
        let a1 = a.subrange(1, a.len() as int);
        assert(s.subrange(1, s.len() as int) =~= a1 + b);
        assert forall|k: int| 0 <= k < a1.len() implies !#[trigger] starts_with_at(a1 + b, k, pat) by {
            lemma_starts_tail(s, k, pat);
            assert(!starts_with_at(s, k + 1, pat));
        }
        lemma_replace_prefix(a1, b, pat, rep);
        assert(seq![a[0]] + (a1 + replace_all(b, pat, rep)) =~= a + replace_all(b, pat, rep));
    }
}

/// The first character of a replacement result is the text's own or the
/// replacement's first.
proof fn lemma_replace_first(t: Seq<char>, pat: Seq<char>, rep: Seq<char>)
    requires
        t.len() > 0,
        pat.len() > 0,
        rep.len() > 0,
    ensures
        replace_all(t, pat, rep).len() > 0,
        replace_all(t, pat, rep)[0] == t[0] || replace_all(t, pat, rep)[0] == rep[0],
        replace_all(t, pat, rep)[0] != rep[0] && t.len() >= 2 ==> replace_all(t, pat, rep).len() >= 2
            && (replace_all(t, pat, rep)[1] == t[1] || replace_all(t, pat, rep)[1] == rep[0]),
        replace_all(t, pat, rep)[0] != rep[0] && replace_all(t, pat, rep).len() >= 2 ==> t.len() >= 2,
    decreases t.len(),
{
    if t.len() == 1 && t.len() >= pat.len() && t.subrange(0, pat.len() as int) != pat {
        let t1 = t.subrange(1, t.len() as int);
        assert(t1.len() == 0);
        assert(replace_all(t1, pat, rep) == t1);
    }
    if t.len() >= pat.len() && t.subrange(0, pat.len() as int) != pat && t.len() >= 2 {
        let t1 = t.subrange(1, t.len() as int);
        lemma_replace_first(t1, pat, rep);
    }
}

/// Replacing with text free of `M`, `a` and `(` makes no `Ma(`.
proof fn lemma_replace_no_lookup(s: Seq<char>, pat: Seq<char>, rep: Seq<char>)
    requires
        !has_lookup_start(s),
        pat.len() > 0,
        rep.len() > 0,
        forall|k: int| 0 <= k < rep.len() ==> #[trigger] rep[k] != 'M' && rep[k] != 'a' && rep[k] != '(',
    ensures
        !has_lookup_start(replace_all(s, pat, rep)),
    decreases s.len(),
{
    let r = replace_all(s, pat, rep);
    if s.len() < pat.len() {
    } else {
        let matched = s.subrange(0, pat.len() as int) == pat;
        let rest = if matched {
            s.subrange(pat.len() as int, s.len() as int)
        } else {
            s.subrange(1, s.len() as int)
        };
        assert(!has_lookup_start(rest)) by {
            if has_lookup_start(rest) {
                let k = choose|k: int| #[trigger] starts_with_at(rest, k, lookup_open());
                let off = if matched { pat.len() as int } else { 1 };
                assert(rest.subrange(k, k + 3) =~= s.subrange(k + off, k + off + 3));
                assert(starts_with_at(s, k + off, lookup_open()));
            }
        }
        lemma_replace_no_lookup(rest, pat, rep);
        let y = replace_all(rest, pat, rep);
        let x = if matched { rep } else { seq![s[0]] };
        assert(r == x + y);
        if has_lookup_start(r) {
            let k = choose|k: int| #[trigger] starts_with_at(r, k, lookup_open());
            if k >= x.len() {
                lemma_starts_concat(x, y, k, lookup_open());
            } else {
                assert(r.subrange(k, k + 3)[0] == r[k]);
                if matched {
                    assert(r[k] == rep[k]);
                } else {
                    assert(k == 0);
                    assert(s[0] == 'M');
                    assert(r[1] == y[0]);
                    assert(r[2] == y[1]);
                    assert(r.subrange(0, 3)[1] == r[1]);
                    assert(r.subrange(0, 3)[2] == r[2]);
                    lemma_replace_first(rest, pat, rep);
                    assert(y[0] == rest[0]);
                    assert(y[1] == rest[1]);
                    assert(s.subrange(0, 3) =~= lookup_open());
                    assert(starts_with_at(s, 0, lookup_open()));
                }
            }
        }
    }
}

/// Escaping an entry without `Ma(` makes none.
pub proof fn lemma_escape_no_lookup(s: Seq<char>)
    requires
        !has_lookup_start(s),
    ensures
        !has_lookup_start(escape_entry(s)),
{
    reveal_strlit("\\");
    reveal_strlit("\\\\");
    reveal_strlit("\"");
    reveal_strlit("\\\"");
    let rep1 = "\\\\"@;
    let rep2 = "\\\""@;
    assert forall|k: int| 0 <= k < rep1.len() implies #[trigger] rep1[k] != 'M' && rep1[k] != 'a'
        && rep1[k] != '(' by {}
    assert forall|k: int| 0 <= k < rep2.len() implies #[trigger] rep2[k] != 'M' && rep2[k] != 'a'
        && rep2[k] != '(' by {}
    lemma_replace_no_lookup(s, "\\"@, rep1);
    lemma_replace_no_lookup(replace_all(s, "\\"@, rep1), "\""@, rep2);
}

proof fn lemma_substitute_empty_table(s: Seq<char>, table: Seq<Seq<char>>)
    requires
        table.len() == 0,
    ensures
        substitute(s, table) == s,
    decreases s.len(),
{
    if s.len() > 0 {
        lemma_substitute_empty_table(s.subrange(1, s.len() as int), table);
        assert(seq![s[0]] + s.subrange(1, s.len() as int) =~= s);
    }
}

proof fn lemma_replacement_quotes(table: Seq<Seq<char>>, i: int)
    ensures
        replacement(table, i) == seq!['"'] + escape_entry(table[i]) + seq!['"'],
        replacement(table, i).len() == escape_entry(table[i]).len() + 2,
        replacement(table, i)[0] == '"',
        replacement(table, i)[replacement(table, i).len() - 1] == '"',
{
    reveal_strlit("\"");
    assert(replacement(table, i) =~= seq!['"'] + escape_entry(table[i]) + seq!['"']);
}

/// A prefix without lookups passes through the pass unchanged.
proof fn lemma_substitute_prefix(s: Seq<char>, table: Seq<Seq<char>>, m: int)
    requires
        0 <= m <= s.len(),
        forall|k: int| 0 <= k < m ==> #[trigger] placeholder_at(s, k, table.len()) is None,
    ensures
        substitute(s, table) == s.subrange(0, m) + substitute(s.subrange(m, s.len() as int), table),
    decreases m,
{
    if m == 0 {
        assert(s.subrange(0, 0) + s.subrange(0, s.len() as int) =~= s);
        assert(s.subrange(0, s.len() as int) =~= s);
    } else {
        let s1 = s.subrange(1, s.len() as int);
        assert forall|k: int| 0 <= k < m - 1 implies #[trigger] placeholder_at(s1, k, table.len()) is None by {
            lemma_placeholder_at_tail(s, k, table.len());
            assert(placeholder_at(s, k + 1, table.len()) is None);
        }
        assert(placeholder_at(s, 0, table.len()) is None);
        lemma_substitute_prefix(s1, table, m - 1);
        assert(s1.subrange(m - 1, s1.len() as int) =~= s.subrange(m, s.len() as int));
        assert(seq![s[0]] + s1.subrange(0, m - 1) =~= s.subrange(0, m));
    }
}

/// A prefix of the pass's output without `"` is a prefix of its input.
proof fn lemma_substitute_plain_prefix(s: Seq<char>, table: Seq<Seq<char>>, q: Seq<char>)
    requires
        q.len() <= substitute(s, table).len(),
        substitute(s, table).subrange(0, q.len() as int) == q,
        forall|k: int| 0 <= k < q.len() ==> #[trigger] q[k] != '"',
    ensures
        q.len() <= s.len(),
        s.subrange(0, q.len() as int) == q,
    decreases s.len(),
{
    if q.len() > 0 {
        assert(s.len() > 0);
        let out = substitute(s, table);
        assert(out.subrange(0, q.len() as int)[0] == out[0]);
        match placeholder_at(s, 0, table.len()) {
            Some(i) => {
                lemma_placeholder_at(s, 0, table.len());
                lemma_placeholder_shape(i);
                lemma_replacement_quotes(table, i as int);
                assert(out[0] == '"');
            },
            None => {
                let s1 = s.subrange(1, s.len() as int);
                let q1 = q.subrange(1, q.len() as int);
                let out1 = substitute(s1, table);
                assert(out == seq![s[0]] + out1);
                assert(out1.subrange(0, q1.len() as int) =~= out.subrange(1, q.len() as int));
                assert(out.subrange(1, q.len() as int) =~= q1);
                lemma_substitute_plain_prefix(s1, table, q1);
                assert(s.subrange(0, q.len() as int) =~= seq![s[0]] + s1.subrange(0, q1.len() as int));
                assert(q =~= seq![q[0]] + q1);
            },
        }
    }
}

/// No lookup starts inside a replacement whose escaped entry has no `Ma(`.
proof fn lemma_no_lookup_in_replacement(table: Seq<Seq<char>>, i: int, y: Seq<char>, p: Seq<char>)
    requires
        !has_lookup_start(escape_entry(table[i])),
        p.len() >= 3,
        p.subrange(0, 3) == lookup_open(),
    ensures
        forall|k: int|
            0 <= k < replacement(table, i).len() ==> !#[trigger] starts_with_at(
                replacement(table, i) + y,
                k,
                p,
            ),
{
    let r = replacement(table, i);
    let e = escape_entry(table[i]);
    lemma_replacement_quotes(table, i);
    assert forall|k: int| 0 <= k < r.len() implies !#[trigger] starts_with_at(r + y, k, p) by {
        if starts_with_at(r + y, k, p) {
            let w = r + y;
            assert(w.subrange(k, k + p.len())[0] == w[k]);
            assert(w.subrange(k, k + p.len())[1] == w[k + 1]);
            assert(w.subrange(k, k + p.len())[2] == w[k + 2]);
            assert(p[0] == 'M' && p[1] == 'a' && p[2] == '(') by {
                assert(p.subrange(0, 3)[0] == p[0]);
                assert(p.subrange(0, 3)[1] == p[1]);
                assert(p.subrange(0, 3)[2] == p[2]);
            }
            assert(w[k] == r[k]);
            if k + 2 <= e.len() {
                assert(w[k + 1] == r[k + 1]);
                assert(w[k + 2] == r[k + 2]);
                assert(r[k] == e[k - 1]);
                assert(r[k + 1] == e[k]);
                assert(r[k + 2] == e[k + 1]);
                assert(e.subrange(k - 1, k + 2) =~= lookup_open());
                assert(starts_with_at(e, k - 1, lookup_open()));
            } else if k + 1 == e.len() + 1 {
                assert(w[k + 1] == r[k + 1]);
            } else {
                assert(k == e.len() + 1);
            }
        }
    }
}

/// One more entry: replacing its lookups in the pass over the shorter table
/// gives the pass over the longer one.
proof fn lemma_substitute_step(code: Seq<char>, t: Seq<Seq<char>>, x: Seq<char>)
    requires
        forall|i: int| 0 <= i < t.len() + 1 ==> !has_lookup_start(#[trigger] escape_entry(t.push(x)[i])),
    ensures
        replace_all(substitute(code, t), placeholder(t.len()), replacement(t.push(x), t.len() as int))
            == substitute(code, t.push(x)),
    decreases code.len(),
{
    let n = t.len();
    let t2 = t.push(x);
    let p = placeholder(n);
    let r = replacement(t2, n as int);
    lemma_placeholder_shape(n);
    assert(p.subrange(0, 3) =~= lookup_open());
    if code.len() == 0 {
    } else {
        lemma_placeholder_at(code, 0, n);
        lemma_placeholder_at(code, 0, n + 1);
        match placeholder_at(code, 0, n) {
            Some(i) => {
                if starts_with_at(code, 0, p) {
                    lemma_placeholder_unique(code, 0, i, n);
                }
                assert(placeholder_at(code, 0, n + 1) == Some(i));
                lemma_placeholder_shape(i);
                let rest = code.subrange(placeholder(i).len() as int, code.len() as int);
                assert(t2[i as int] == t[i as int]);
                assert(replacement(t, i as int) == replacement(t2, i as int));
                assert(!has_lookup_start(escape_entry(t2[i as int])));
                lemma_no_lookup_in_replacement(t2, i as int, substitute(rest, t), p);
                lemma_replace_prefix(replacement(t2, i as int), substitute(rest, t), p, r);
                lemma_substitute_step(rest, t, x);
            },
            None => {
                if starts_with_at(code, 0, p) {
                    assert(placeholder_at(code, 0, n + 1) == Some(n));
                    assert forall|k: int| 0 <= k < p.len() implies #[trigger] placeholder_at(code, k, n) is None by {
                        if k > 0 {
                            lemma_placeholder_at(code, k, n);
                            if let Some(j) = placeholder_at(code, k, n) {
                                lemma_placeholder_shape(j);
                                assert(code.subrange(k, k + placeholder(j).len())[0] == code[k]);
                                assert(code.subrange(0, p.len() as int)[k] == code[k]);
                            }
                        }
                    }
                    lemma_substitute_prefix(code, t, p.len() as int);
                    let rest = code.subrange(p.len() as int, code.len() as int);
                    lemma_replace_leading(p, substitute(rest, t), r);
                    lemma_substitute_step(rest, t, x);
                } else {
                    assert(placeholder_at(code, 0, n + 1) is None);
                    let c1 = code.subrange(1, code.len() as int);
                    let y = substitute(c1, t);
                    assert(substitute(code, t) == seq![code[0]] + y);
                    assert(!starts_with_at(seq![code[0]] + y, 0, p)) by {
                        if starts_with_at(seq![code[0]] + y, 0, p) {
                            let w = seq![code[0]] + y;
                            let q = p.subrange(1, p.len() as int);
                            assert(w.subrange(0, p.len() as int)[0] == w[0]);
                            assert(y.subrange(0, q.len() as int) =~= w.subrange(1, p.len() as int));
                            assert(w.subrange(1, p.len() as int) =~= q);
                            assert forall|k: int| 0 <= k < q.len() implies #[trigger] q[k] != '"' by {
                                assert(q[k] == p[k + 1]);
                            }
                            lemma_substitute_plain_prefix(c1, t, q);
                            assert(code.subrange(0, p.len() as int) =~= seq![code[0]] + c1.subrange(0, q.len() as int));
                            assert(p =~= seq![p[0]] + q);
                        }
                    }
                    assert forall|k: int| 0 <= k < 1 implies !#[trigger] starts_with_at(seq![code[0]] + y, k, p) by {}
                    lemma_replace_prefix(seq![code[0]], y, p, r);
                    lemma_substitute_step(c1, t, x);
                }
            },
        }
    }
}

/// Replacing the lookups entry by entry is one left-to-right pass, when no
/// entry contains `Ma(`: every `Ma(i)` with `i` below the table's length is
/// replaced where it stands in the script, and all other text stays.
pub proof fn lemma_apply_table_one_pass(code: Seq<char>, table: Seq<Seq<char>>)
    requires
        forall|i: int| 0 <= i < table.len() ==> !has_lookup_start(#[trigger] table[i]),
    ensures
        apply_table(code, table) == substitute(code, table),
    decreases table.len(),
{
    if table.len() == 0 {
        lemma_substitute_empty_table(code, table);
    } else {
        let t = table.drop_last();
        let x = table.last();
        assert(t.push(x) =~= table);
        lemma_apply_table_one_pass(code, t);
        assert forall|i: int| 0 <= i < t.len() + 1 implies !has_lookup_start(
            #[trigger] escape_entry(t.push(x)[i]),
        ) by {
            lemma_escape_no_lookup(table[i]);
        }
        lemma_substitute_step(code, t, x);
    }
}

/// What `MaStringDecoder::decode` returns is that one pass with the
/// script's own string table, when no entry contains `Ma(`.
pub proof fn lemma_decoded_one_pass(code: Seq<char>)
    requires
        string_table(code) is Some,
        forall|i: int|
            0 <= i < string_table(code)->0.len() ==> !has_lookup_start(
                #[trigger] string_table(code)->0[i],
            ),
    ensures
        decoded(code) == substitute(code, string_table(code)->0),
{
    let t = string_table(code)->0;
    if t.len() == 0 {
        lemma_substitute_empty_table(code, t);
    } else {
        lemma_apply_table_one_pass(code, t);
    }
}

} // verus!
