//! Character-sequence building blocks: reading a string's characters,
//! searching, replacing, splitting, and measuring UTF-8 length.
use vstd::prelude::*;
use vstd::std_specs::iter::IteratorSpec;
use vstd::utf8::encode_utf8;

verus! {

/// The number of bytes UTF-8 uses for a character.
pub open spec fn char_width(c: char) -> nat {
    if (c as u32) < 0x80 {
        1
    } else if (c as u32) < 0x800 {
        2
    } else if (c as u32) < 0x10000 {
        3
    } else {
        4
    }
}

/// The UTF-8 length of a character sequence: what `str::len` reports.
pub open spec fn utf8_len(s: Seq<char>) -> nat
    decreases s.len(),
{
    if s.len() == 0 {
        0
    } else {
        char_width(s[0]) + utf8_len(s.drop_first())
    }
}

/// `utf8_len` is the length of the UTF-8 encoding.
pub proof fn lemma_utf8_len(s: Seq<char>)
    ensures
        utf8_len(s) == encode_utf8(s).len(),
    decreases s.len(),
{
    if s.len() > 0 {
        lemma_utf8_len(s.drop_first());
        vstd::utf8::char_is_scalar(s[0]);
    }
}

pub proof fn lemma_utf8_len_concat(a: Seq<char>, b: Seq<char>)
    ensures
        utf8_len(a + b) == utf8_len(a) + utf8_len(b),
    decreases a.len(),
{
    if a.len() == 0 {
        assert(a + b =~= b);
    } else {
        lemma_utf8_len_concat(a.drop_first(), b);
        assert((a + b).drop_first() =~= a.drop_first() + b);
    }
}

/// The first position at or after `from` where `needle` occurs in `hay`.
pub open spec fn find_from(hay: Seq<char>, needle: Seq<char>, from: int) -> Option<int>
    decreases hay.len() + 1 - from,
{
    if from < 0 || from + needle.len() > hay.len() {
        None
    } else if hay.subrange(from, from + needle.len()) == needle {
        Some(from)
    } else {
        find_from(hay, needle, from + 1)
    }
}

pub proof fn lemma_find_from(hay: Seq<char>, needle: Seq<char>, from: int)
    ensures
        find_from(hay, needle, from) matches Some(k) ==> from <= k && k + needle.len() <= hay.len()
            && hay.subrange(k, k + needle.len()) == needle,
    decreases hay.len() + 1 - from,
{
    if !(from < 0 || from + needle.len() > hay.len()) && hay.subrange(from, from + needle.len())
        != needle {
        lemma_find_from(hay, needle, from + 1);
    }
}

/// An occurrence at or after `from` is found.
pub proof fn lemma_find_from_finds(hay: Seq<char>, needle: Seq<char>, from: int, k: int)
    requires
        0 <= from <= k,
        k + needle.len() <= hay.len(),
        hay.subrange(k, k + needle.len()) == needle,
    ensures
        find_from(hay, needle, from) is Some,
    decreases k - from,
{
    if from < k && hay.subrange(from, from + needle.len()) != needle {
        lemma_find_from_finds(hay, needle, from + 1, k);
    }
}

/// Searching a suffix is searching the whole from the suffix's start.
pub proof fn lemma_find_from_suffix(hay: Seq<char>, needle: Seq<char>, a: int, j: int)
    requires
        0 <= a <= hay.len(),
        0 <= j,
    ensures
        find_from(hay.subrange(a, hay.len() as int), needle, j) == match find_from(hay, needle, a + j) {
            Some(k) => Some(k - a),
            None => None,
        },
    decreases hay.len() + 1 - a - j,
{
    let suf = hay.subrange(a, hay.len() as int);
    if j + needle.len() > suf.len() {
    } else {
        assert(suf.subrange(j, j + needle.len()) =~= hay.subrange(a + j, a + j + needle.len()));
        if suf.subrange(j, j + needle.len()) != needle {
            lemma_find_from_suffix(hay, needle, a, j + 1);
        }
    }
}

/// Every occurrence of a non-empty `pat`, left to right and without overlap,
/// replaced by `rep` (what `str::replace` does).
pub open spec fn replace_all(s: Seq<char>, pat: Seq<char>, rep: Seq<char>) -> Seq<char>
    decreases s.len(),
{
    if pat.len() == 0 || s.len() < pat.len() {
        s
    } else if s.subrange(0, pat.len() as int) == pat {
        rep + replace_all(s.subrange(pat.len() as int, s.len() as int), pat, rep)
    } else {
        seq![s[0]] + replace_all(s.subrange(1, s.len() as int), pat, rep)
    }
}

/// The pieces of `s` between the occurrences of `sep`, left to right
/// (what `str::split` yields). An empty separator yields an empty piece, each
/// character on its own, and another empty piece.
pub open spec fn split_by(s: Seq<char>, sep: Seq<char>) -> Seq<Seq<char>>
    decreases s.len(),
{
    if sep.len() == 0 {
        seq![Seq::<char>::empty()] + s.map_values(|c: char| seq![c]) + seq![Seq::<char>::empty()]
    } else {
        match find_from(s, sep, 0) {
            Some(k) => {
                proof {
                    lemma_find_from(s, sep, 0);
                }
                seq![s.subrange(0, k)] + split_by(s.subrange(k + sep.len(), s.len() as int), sep)
            },
            None => seq![s],
        }
    }
}

/// The pieces joined again with `sep` between them.
pub open spec fn join_with(pieces: Seq<Seq<char>>, sep: Seq<char>) -> Seq<char>
    decreases pieces.len(),
{
    if pieces.len() == 0 {
        Seq::empty()
    } else if pieces.len() == 1 {
        pieces[0]
    } else {
        pieces[0] + sep + join_with(pieces.drop_first(), sep)
    }
}

/// The number of occurrences of a non-empty `sep` in `s`, counted left to
/// right without overlap (what `str::matches(..).count()` gives).
pub open spec fn occurrences(s: Seq<char>, sep: Seq<char>) -> nat
    decreases s.len(),
{
    if sep.len() == 0 {
        0
    } else {
        match find_from(s, sep, 0) {
            Some(k) => {
                proof {
                    lemma_find_from(s, sep, 0);
                }
                1 + occurrences(s.subrange(k + sep.len(), s.len() as int), sep)
            },
            None => 0,
        }
    }
}

/// Splitting at a non-empty separator and joining with it gives the text
/// back, in one more piece than there are occurrences of the separator.
pub proof fn lemma_split_join(s: Seq<char>, sep: Seq<char>)
    requires
        sep.len() > 0,
    ensures
        join_with(split_by(s, sep), sep) == s,
        split_by(s, sep).len() == occurrences(s, sep) + 1,
    decreases s.len(),
{
    match find_from(s, sep, 0) {
        Some(k) => {
            lemma_find_from(s, sep, 0);
            let rest = s.subrange(k + sep.len(), s.len() as int);
            lemma_split_join(rest, sep);
            let pieces = split_by(s, sep);
            assert(pieces.drop_first() =~= split_by(rest, sep));
            assert(s =~= s.subrange(0, k) + sep + rest);
        },
        None => {},
    }
}

/// The characters of a string slice.
pub fn chars_of(s: &str) -> (r: Vec<char>)
    ensures
        r@ == s@,
{
    let mut it = s.chars();
    let ghost all = s@;
    let mut out: Vec<char> = Vec::new();
    proof {
        vstd::string::axiom_spec_iter(s);
    }
    loop
        invariant
            all == s@,
            out@.len() <= all.len(),
            out@ == all.subrange(0, out@.len() as int),
            it.remaining() == all.subrange(out@.len() as int, all.len() as int),
        decreases all.len() - out@.len(),
    {
        match it.next() {
            None => {
                assert(out@ =~= all);
                return out;
            },
            Some(c) => {
                let ghost n: int = out@.len() as int;
                out.push(c);
                assert(out@ =~= all.subrange(0, n + 1));
                assert(all.subrange(n, all.len() as int).drop_first() =~= all.subrange(
                    n + 1,
                    all.len() as int,
                ));
            },
        }
    }
}

/// Collects characters into a `String` with `Iterator::collect`, which
/// keeps them as they are, in order.
#[verifier::external_body]
pub(crate) fn string_from_chars(v: &Vec<char>) -> (r: String)
    ensures
        r@ == v@,
{
    v.iter().collect()
}

/// Whether `pat` occurs in `s` at position `at`.
pub fn matches_at(s: &Vec<char>, pat: &Vec<char>, at: usize) -> (r: bool)
    ensures
        r == (at + pat@.len() <= s@.len() && s@.subrange(at as int, at + pat@.len()) == pat@),
{
    let n = s.len();
    if pat.len() > n || at > n - pat.len() {
        return false;
    }
    let mut j: usize = 0;
    while j < pat.len()
        invariant
            n == s@.len(),
            at + pat@.len() <= s@.len(),
            j <= pat@.len(),
            forall|t: int| 0 <= t < j ==> s@[at + t] == pat@[t],
        decreases pat@.len() - j,
    {
        if s[at + j] != pat[j] {
            assert(s@.subrange(at as int, at + pat@.len())[j as int] != pat@[j as int]);
            return false;
        }
        j = j + 1;
    }
    assert(s@.subrange(at as int, at + pat@.len()) =~= pat@);
    true
}

/// The first position at or after `from` where `needle` occurs in `hay`.
pub fn find_chars(hay: &Vec<char>, needle: &Vec<char>, from: usize) -> (r: Option<usize>)
    ensures
        r matches Some(k) ==> find_from(hay@, needle@, from as int) == Some(k as int),
        r is None ==> find_from(hay@, needle@, from as int) is None,
{
    let mut i = from;
    let n = hay.len();
    while i <= n && needle.len() <= n - i && !matches_at(hay, needle, i)
        invariant
            n == hay@.len(),
            from <= i,
            find_from(hay@, needle@, from as int) == find_from(hay@, needle@, i as int),
        decreases hay@.len() + 1 - i,
    {
        assert(needle@.len() > 0) by {
            if needle@.len() == 0 {
                assert(hay@.subrange(i as int, i as int) =~= needle@);
            }
        }
        i = i + 1;
    }
    proof {
        lemma_find_from(hay@, needle@, i as int);
    }
    if i <= n && needle.len() <= n - i {
        Some(i)
    } else {
        None
    }
}

/// The characters `s[from..to]`.
pub fn copy_range(s: &Vec<char>, from: usize, to: usize) -> (r: Vec<char>)
    requires
        from <= to <= s@.len(),
    ensures
        r@ == s@.subrange(from as int, to as int),
{
    let mut out: Vec<char> = Vec::new();
    let mut i = from;
    while i < to
        invariant
            from <= i <= to <= s@.len(),
            out@ == s@.subrange(from as int, i as int),
        decreases to - i,
    {
        out.push(s[i]);
        assert(out@ =~= s@.subrange(from as int, i + 1));
        i = i + 1;
    }
    out
}

/// Appends the characters of `t` to `out`.
pub fn push_all(out: &mut Vec<char>, t: &Vec<char>)
    ensures
        final(out)@ == old(out)@ + t@,
{
    let mut i: usize = 0;
    while i < t.len()
        invariant
            i <= t@.len(),
            out@ == old(out)@ + t@.subrange(0, i as int),
        decreases t@.len() - i,
    {
        out.push(t[i]);
        assert(out@ =~= old(out)@ + t@.subrange(0, i + 1));
        i = i + 1;
    }
    assert(t@.subrange(0, t@.len() as int) =~= t@);
}

/// `s` with every occurrence of the non-empty `pat` replaced by `rep`.
pub fn replace_chars(s: &Vec<char>, pat: &Vec<char>, rep: &Vec<char>) -> (r: Vec<char>)
    requires
        pat@.len() > 0,
    ensures
        r@ == replace_all(s@, pat@, rep@),
{
    let mut out: Vec<char> = Vec::new();
    let n = s.len();
    let mut i: usize = 0;
    assert(s@.subrange(0, n as int) =~= s@);
    assert(out@ + replace_all(s@, pat@, rep@) =~= replace_all(s@, pat@, rep@));
    while i < n
        invariant
            n == s@.len(),
            i <= n,
            pat@.len() > 0,
            out@ + replace_all(s@.subrange(i as int, n as int), pat@, rep@) == replace_all(
                s@,
                pat@,
                rep@,
            ),
        decreases n - i,
    {
        let ghost suf = s@.subrange(i as int, n as int);
        if matches_at(s, pat, i) {
            push_all(&mut out, rep);
            proof {
                assert(suf.subrange(0, pat@.len() as int) =~= s@.subrange(i as int, i + pat@.len()));
                assert(suf.subrange(pat@.len() as int, suf.len() as int) =~= s@.subrange(
                    i + pat@.len(),
                    n as int,
                ));
            }
            i = i + pat.len();
        } else {
            out.push(s[i]);
            proof {
                if suf.len() >= pat@.len() {
                    assert(suf.subrange(0, pat@.len() as int) =~= s@.subrange(
                        i as int,
                        i + pat@.len(),
                    ));
                }
                assert(suf.subrange(1, suf.len() as int) =~= s@.subrange(i + 1, n as int));
            }
            i = i + 1;
        }
    }
    assert(replace_all(s@.subrange(n as int, n as int), pat@, rep@) =~= Seq::<char>::empty());
    assert(out@ + Seq::<char>::empty() =~= out@);
    out
}

} // verus!
