//! Recovering the string table of the challenge script and putting its
//! entries back in place of the `Ma(<index>)` lookups.
//!
//! The table is a long single-quoted literal starting with `moVRS`, split at
//! run time by `.split(<separator>)`; entry `i` is what `Ma(i)` returns.
use vstd::prelude::*;
use crate::chars::{
    char_width, chars_of, copy_range, find_chars, find_from, join_with, lemma_find_from,
    lemma_split_join, occurrences,
    lemma_find_from_suffix, lemma_utf8_len_concat, push_all, replace_all, replace_chars,
    split_by, string_from_chars, utf8_len,
};
use crate::text::{decimal_digits, push_decimal};

verus! {

/// Decodes the `Ma(<index>)` string lookups of a challenge script.
pub struct MaStringDecoder;

/// Where the table literal starts: its opening quote and first characters.
pub open spec fn table_marker() -> Seq<char> {
    "'moVRS"@
}

pub open spec fn split_call() -> Seq<char> {
    ".split("@
}

/// The number of leading characters of `s` whose UTF-8 encoding takes
/// exactly `limit` bytes; none when a character would straddle the limit.
pub open spec fn chars_spanning(s: Seq<char>, limit: int) -> Option<int>
    decreases s.len(),
{
    if limit == 0 {
        Some(0)
    } else if limit < 0 || s.len() == 0 || char_width(s[0]) > limit {
        None
    } else {
        match chars_spanning(s.drop_first(), limit - char_width(s[0])) {
            Some(q) => Some(q + 1),
            None => None,
        }
    }
}

pub open spec fn min_int(a: int, b: int) -> int {
    if a <= b {
        a
    } else {
        b
    }
}

/// The separator named by the text after `.split` (`window` starts with
/// `.split(`): the characters between the quotes of a quoted argument, `~`
/// otherwise. None when the window is shorter than where the argument starts.
pub open spec fn separator_in(window: Seq<char>) -> Option<Seq<char>> {
    let sep_start = match find_from(window, seq!['('], 0) {
        Some(p) => p + 1,
        None => 6,
    };
    if sep_start > window.len() {
        None
    } else {
        let rest = window.subrange(sep_start, window.len() as int);
        if rest.len() > 0 && (rest[0] == '"' || rest[0] == '\'') {
            match find_from(rest.subrange(1, rest.len() as int), seq![rest[0]], 0) {
                Some(e) => Some(rest.subrange(1, e + 1)),
                None => Some(seq!['~']),
            }
        } else {
            Some(seq!['~'])
        }
    }
}

/// The string table of a script. Empty when there is no `'moVRS` literal
/// followed by `.split(`, or when the literal's text takes at most 5000 bytes.
/// Otherwise the literal's text (between the quote and the character before
/// `.split(`) split at the separator, where the separator is read from the
/// 20 bytes (or fewer, at the end) starting at `.split(`. None where the
/// script's text would have to be cut inside a character: the character
/// before `.split(` or the 20-byte window does not end on a character.
pub open spec fn string_table(code: Seq<char>) -> Option<Seq<Seq<char>>> {
    match find_from(code, table_marker(), 0) {
        None => Some(Seq::empty()),
        Some(m) => match find_from(code, split_call(), m) {
            None => Some(Seq::empty()),
            Some(p) => if (code[p - 1] as u32) >= 0x80 {
                None
            } else {
                let content = code.subrange(m + 1, p - 1);
                if utf8_len(content) <= 5000 {
                    Some(Seq::empty())
                } else {
                    let after = code.subrange(p, code.len() as int);
                    match chars_spanning(after, min_int(20, utf8_len(after) as int)) {
                        None => None,
                        Some(q) => match separator_in(after.subrange(0, q)) {
                            None => None,
                            Some(sep) => Some(split_by(content, sep)),
                        },
                    }
                }
            },
        },
    }
}

/// `Ma(<index>)`.
pub open spec fn placeholder(index: nat) -> Seq<char> {
    "Ma("@ + decimal_digits(index) + ")"@
}

/// An entry escaped for a double-quoted literal: backslashes doubled, then
/// double quotes preceded by a backslash.
pub open spec fn escape_entry(s: Seq<char>) -> Seq<char> {
    replace_all(replace_all(s, "\\"@, "\\\\"@), "\""@, "\\\""@)
}

pub open spec fn quoted(s: Seq<char>) -> Seq<char> {
    "\""@ + s + "\""@
}

/// The script after replacing, for each entry in table order, every
/// `Ma(<index>)` with the quoted, escaped entry.
pub open spec fn apply_table(code: Seq<char>, table: Seq<Seq<char>>) -> Seq<char>
    decreases table.len(),
{
    if table.len() == 0 {
        code
    } else {
        replace_all(
            apply_table(code, table.drop_last()),
            placeholder((table.len() - 1) as nat),
            quoted(escape_entry(table.last())),
        )
    }
}

/// The decoded script: unchanged when there is no table.
pub open spec fn decoded(code: Seq<char>) -> Seq<char> {
    let table = string_table(code)->0;
    if table.len() == 0 {
        code
    } else {
        apply_table(code, table)
    }
}

/// A non-empty string table is the text between the `'moVRS` quote and the
/// character before `.split(` cut at a separator: joining the entries with a
/// non-empty separator gives that text back, and there is one more entry
/// than occurrences of the separator.
pub proof fn lemma_string_table_is_split(code: Seq<char>)
    requires
        string_table(code) matches Some(t) && t.len() > 0,
    ensures
        ({
            let m = find_from(code, table_marker(), 0)->0;
            let p = find_from(code, split_call(), m)->0;
            let content = code.subrange(m + 1, p - 1);
            let t = string_table(code)->0;
            exists|sep: Seq<char>|
                #![trigger split_by(content, sep)]
                t == split_by(content, sep) && (sep.len() > 0 ==> join_with(t, sep) == content
                    && t.len() == occurrences(content, sep) + 1)
        }),
{
    let m = find_from(code, table_marker(), 0)->0;
    let p = find_from(code, split_call(), m)->0;
    let content = code.subrange(m + 1, p - 1);
    let after = code.subrange(p, code.len() as int);
    let q = chars_spanning(after, min_int(20, utf8_len(after) as int))->0;
    let sep = separator_in(after.subrange(0, q))->0;
    if sep.len() > 0 {
        lemma_split_join(content, sep);
    }
    assert(string_table(code)->0 == split_by(content, sep));
}

proof fn lemma_marker_then_split(code: Seq<char>, m: int, p: int)
    requires
        find_from(code, table_marker(), 0) == Some(m),
        find_from(code, split_call(), m) == Some(p),
    ensures
        0 <= m,
        m + 6 <= p,
        p + 7 <= code.len(),
        code.subrange(p, p + 7) == split_call(),
        code.subrange(m, m + 6) == table_marker(),
{
    reveal_strlit("'moVRS");
    reveal_strlit(".split(");
    lemma_find_from(code, table_marker(), 0);
    lemma_find_from(code, split_call(), m);
    if p < m + 6 {
        assert(code.subrange(p, p + 7)[0] == '.');
        assert(code[p] == '.');
        assert(code.subrange(m, m + 6)[p - m] == code[p]);
    }
}

/// min(cap, UTF-8 length of s[from..to]).
fn utf8_len_capped(s: &Vec<char>, from: usize, to: usize, cap: usize) -> (r: usize)
    requires
        from <= to <= s@.len(),
        cap <= 0x1000_0000,
    ensures
        r == min_int(cap as int, utf8_len(s@.subrange(from as int, to as int)) as int),
{
    let mut total: usize = 0;
    let mut i = from;
    while i < to
        invariant
            from <= i <= to <= s@.len(),
            cap <= 0x1000_0000,
            total <= cap,
            total == utf8_len(s@.subrange(from as int, i as int)),
        decreases to - i,
    {
        let c = s[i];
        let w: usize = if (c as u32) < 0x80 {
            1
        } else if (c as u32) < 0x800 {
            2
        } else if (c as u32) < 0x10000 {
            3
        } else {
            4
        };
        proof {
            lemma_utf8_len_concat(s@.subrange(from as int, i as int), seq![c]);
            assert(s@.subrange(from as int, i + 1) =~= s@.subrange(from as int, i as int) + seq![c]);
            assert(utf8_len(seq![c]) == char_width(c)) by {
                assert(seq![c].drop_first() =~= Seq::<char>::empty());
                assert(utf8_len(Seq::<char>::empty()) == 0);
                assert(seq![c][0] == c);
            }
        }
        if total + w > cap {
            proof {
                lemma_utf8_len_concat(s@.subrange(from as int, i + 1), s@.subrange(i + 1, to as int));
                assert(s@.subrange(from as int, to as int) =~= s@.subrange(from as int, i + 1)
                    + s@.subrange(i + 1, to as int));
            }
            return cap;
        }
        total = total + w;
        i = i + 1;
    }
    total
}

/// The number of characters from `from` on whose UTF-8 encoding takes
/// exactly `limit` bytes.
fn chars_spanning_from(s: &Vec<char>, from: usize, limit: usize) -> (r: Option<usize>)
    requires
        from <= s@.len(),
        limit <= 20,
    ensures
        match chars_spanning(s@.subrange(from as int, s@.len() as int), limit as int) {
            Some(q) => r == Some(q as usize),
            None => r is None,
        },
{
    let mut i = from;
    let mut left = limit;
    while left > 0
        invariant
            from <= i <= s@.len(),
            left <= limit <= 20,
            i - from <= limit - left,
            chars_spanning(s@.subrange(from as int, s@.len() as int), limit as int) == match chars_spanning(
                s@.subrange(i as int, s@.len() as int),
                left as int,
            ) {
                Some(q) => Some(q + (i - from)),
                None => None,
            },
        decreases left,
    {
        let ghost rest = s@.subrange(i as int, s@.len() as int);
        if i == s.len() {
            return None;
        }
        let c = s[i];
        let w: usize = if (c as u32) < 0x80 {
            1
        } else if (c as u32) < 0x800 {
            2
        } else if (c as u32) < 0x10000 {
            3
        } else {
            4
        };
        assert(rest[0] == c);
        if w > left {
            return None;
        }
        assert(rest.drop_first() =~= s@.subrange(i + 1, s@.len() as int));
        left = left - w;
        i = i + 1;
    }
    Some(i - from)
}

/// The separator named after `.split` (see `separator_in`), read from
/// `s[p..p + q]`.
fn separator_at(s: &Vec<char>, p: usize, q: usize) -> (r: Option<Vec<char>>)
    requires
        p + q <= s@.len(),
    ensures
        match separator_in(s@.subrange(p as int, p + q)) {
            Some(sep) => r matches Some(v) && v@ == sep,
            None => r is None,
        },
{
    let n = s.len();
    let window = copy_range(s, p, p + q);
    let open_paren = chars_of("(");
    proof {
        reveal_strlit("(");
        assert(open_paren@ =~= seq!['(']);
    }
    let sep_start = match find_chars(&window, &open_paren, 0) {
        Some(pos) => {
            proof {
                lemma_find_from(window@, open_paren@, 0);
            }
            pos + 1
        },
        None => 6,
    };
    if sep_start > window.len() {
        return None;
    }
    let rest = copy_range(&window, sep_start, window.len());
    if rest.len() > 0 && (rest[0] == '"' || rest[0] == '\'') {
        let quote = rest[0];
        let inner = copy_range(&rest, 1, rest.len());
        let mut closing: Vec<char> = Vec::new();
        closing.push(quote);
        assert(closing@ =~= seq![rest@[0]]);
        match find_chars(&inner, &closing, 0) {
            Some(e) => {
                proof {
                    lemma_find_from(inner@, closing@, 0);
                }
                Some(copy_range(&rest, 1, e + 1))
            },
            None => {
                let tilde = chars_of("~");
                proof {
                    reveal_strlit("~");
                    assert(tilde@ =~= seq!['~']);
                }
                Some(tilde)
            },
        }
    } else {
        let tilde = chars_of("~");
        proof {
            reveal_strlit("~");
            assert(tilde@ =~= seq!['~']);
        }
        Some(tilde)
    }
}

/// Splits `s` at every occurrence of `sep` (see `split_by`).
fn split_chars(s: &Vec<char>, sep: &Vec<char>) -> (r: Vec<Vec<char>>)
    ensures
        r@.map_values(|v: Vec<char>| v@) == split_by(s@, sep@),
{
    let mut pieces: Vec<Vec<char>> = Vec::new();
    let n = s.len();
    if sep.len() == 0 {
        pieces.push(Vec::new());
        let mut i: usize = 0;
        while i < n
            invariant
                n == s@.len(),
                i <= n,
                pieces@.map_values(|v: Vec<char>| v@) == seq![Seq::<char>::empty()]
                    + s@.subrange(0, i as int).map_values(|c: char| seq![c]),
            decreases n - i,
        {
            let mut one: Vec<char> = Vec::new();
            one.push(s[i]);
            let ghost before = pieces@.map_values(|v: Vec<char>| v@);
            pieces.push(one);
            proof {
                assert(one@ =~= seq![s@[i as int]]);
                assert(pieces@.map_values(|v: Vec<char>| v@) =~= before.push(one@));
                assert(s@.subrange(0, i + 1).map_values(|c: char| seq![c]) =~= s@.subrange(
                    0,
                    i as int,
                ).map_values(|c: char| seq![c]).push(seq![s@[i as int]]));
                assert(pieces@.map_values(|v: Vec<char>| v@) =~= seq![Seq::<char>::empty()]
                    + s@.subrange(0, i + 1).map_values(|c: char| seq![c]));
            }
            i = i + 1;
        }
        pieces.push(Vec::new());
        proof {
            assert(s@.subrange(0, n as int) =~= s@);
            assert(pieces@.map_values(|v: Vec<char>| v@) =~= seq![Seq::<char>::empty()]
                + s@.map_values(|c: char| seq![c]) + seq![Seq::<char>::empty()]);
        }
        return pieces;
    }
    let mut start: usize = 0;
    assert(s@.subrange(0, n as int) =~= s@);
    loop
        invariant
            n == s@.len(),
            sep@.len() > 0,
            start <= n,
            pieces@.map_values(|v: Vec<char>| v@) + split_by(
                s@.subrange(start as int, n as int),
                sep@,
            ) == split_by(s@, sep@),
        decreases n - start,
    {
        let ghost rest = s@.subrange(start as int, n as int);
        proof {
            lemma_find_from_suffix(s@, sep@, start as int, 0);
            lemma_find_from(s@, sep@, start as int);
        }
        match find_chars(s, sep, start) {
            Some(k) => {
                let piece = copy_range(s, start, k);
                let ghost before = pieces@.map_values(|v: Vec<char>| v@);
                pieces.push(piece);
                proof {
                    let kk = k - start;
                    assert(rest.subrange(0, kk) =~= s@.subrange(start as int, k as int));
                    assert(rest.subrange(kk + sep@.len(), rest.len() as int) =~= s@.subrange(
                        k + sep@.len(),
                        n as int,
                    ));
                    assert(pieces@.map_values(|v: Vec<char>| v@) =~= before.push(
                        s@.subrange(start as int, k as int),
                    ));
                    assert(split_by(rest, sep@) == seq![rest.subrange(0, kk)] + split_by(
                        s@.subrange(k + sep@.len(), n as int),
                        sep@,
                    ));
                    assert(before.push(s@.subrange(start as int, k as int)) + split_by(
                        s@.subrange(k + sep@.len(), n as int),
                        sep@,
                    ) =~= before + (seq![rest.subrange(0, kk)] + split_by(
                        s@.subrange(k + sep@.len(), n as int),
                        sep@,
                    )));
                }
                start = k + sep.len();
            },
            None => {
                let piece = copy_range(s, start, n);
                let ghost before = pieces@.map_values(|v: Vec<char>| v@);
                pieces.push(piece);
                proof {
                    assert(pieces@.map_values(|v: Vec<char>| v@) =~= before + seq![rest]);
                }
                return pieces;
            },
        }
    }
}

impl MaStringDecoder {
    /// Replaces each `Ma(<index>)` of the script with the table entry it
    /// looks up, as a double-quoted literal; the script is returned
    /// unchanged when there is no table.
    pub fn decode(code: &str) -> (r: String)
        requires
            string_table(code@) is Some,
        ensures
            r@ == decoded(code@),
    {
        let table = Self::extract_strings(code);
        let table = match table {
            Some(t) => t,
            None => {
                return String::from_str(code);
            },
        };
        if table.len() == 0 {
            return String::from_str(code);
        }
        let mut result = chars_of(code);
        let backslash = chars_of("\\");
        let two_backslashes = chars_of("\\\\");
        let dquote = chars_of("\"");
        let escaped_dquote = chars_of("\\\"");
        proof {
            reveal_strlit("\\");
            reveal_strlit("\\\\");
            reveal_strlit("\"");
            reveal_strlit("\\\"");
            reveal_strlit("Ma(");
            reveal_strlit(")");
        }
        let ghost tv = table@.map_values(|s: String| s@);
        let mut idx: usize = 0;
        while idx < table.len()
            invariant
                tv == table@.map_values(|s: String| s@),
                idx <= tv.len(),
                result@ == apply_table(code@, tv.subrange(0, idx as int)),
                backslash@ == "\\"@,
                two_backslashes@ == "\\\\"@,
                dquote@ == "\""@,
                escaped_dquote@ == "\\\""@,
            decreases tv.len() - idx,
        {
            proof {
                reveal_strlit("\\");
                reveal_strlit("\"");
                reveal_strlit("Ma(");
                reveal_strlit(")");
            }
            let mut label = String::new();
            label.append("Ma(");
            push_decimal(&mut label, idx as u64);
            label.append(")");
            let pattern = chars_of(label.as_str());
            let entry = chars_of(table[idx].as_str());
            let step1 = replace_chars(&entry, &backslash, &two_backslashes);
            let escaped = replace_chars(&step1, &dquote, &escaped_dquote);
            let mut replacement: Vec<char> = Vec::new();
            push_all(&mut replacement, &dquote);
            push_all(&mut replacement, &escaped);
            push_all(&mut replacement, &dquote);
            proof {
                assert(pattern@ =~= placeholder(idx as nat));
                assert(entry@ == tv[idx as int]);
                assert(replacement@ =~= quoted(escape_entry(tv[idx as int])));
                let next = tv.subrange(0, idx + 1);
                assert(next.drop_last() =~= tv.subrange(0, idx as int));
            }
            result = replace_chars(&result, &pattern, &replacement);
            idx = idx + 1;
        }
        proof {
            assert(tv.subrange(0, tv.len() as int) =~= tv);
        }
        string_from_chars(&result)
    }

    /// The string table of the script (see `string_table`); `None` where the
    /// script's text would have to be cut inside a character.
    pub fn extract_strings(code: &str) -> (r: Option<Vec<String>>)
        ensures
            match string_table(code@) {
                Some(t) => r matches Some(v) && v@.map_values(|s: String| s@) == t,
                None => r is None,
            },
    {
        let chars = chars_of(code);
        let marker = chars_of("'moVRS");
        let split_marker = chars_of(".split(");
        proof {
            reveal_strlit("'moVRS");
            reveal_strlit(".split(");
        }
        let mo_start = match find_chars(&chars, &marker, 0) {
            Some(m) => m,
            None => {
                return Some(Vec::new());
            },
        };
        let split_pos = match find_chars(&chars, &split_marker, mo_start) {
            Some(p) => p,
            None => {
                return Some(Vec::new());
            },
        };
        proof {
            lemma_marker_then_split(chars@, mo_start as int, split_pos as int);
        }
        if (chars[split_pos - 1] as u32) >= 0x80 {
            return None;
        }
        if utf8_len_capped(&chars, mo_start + 1, split_pos - 1, 5001) <= 5000 {
            return Some(Vec::new());
        }
        let limit = utf8_len_capped(&chars, split_pos, chars.len(), 20);
        let q = match chars_spanning_from(&chars, split_pos, limit) {
            Some(q) => q,
            None => {
                return None;
            },
        };
        proof {
            if let Some(qq) = chars_spanning(
                chars@.subrange(split_pos as int, chars@.len() as int),
                limit as int,
            ) {
                lemma_chars_spanning_bound(
                    chars@.subrange(split_pos as int, chars@.len() as int),
                    limit as int,
                );
            }
            assert(chars@.subrange(split_pos as int, chars@.len() as int).subrange(0, q as int)
                =~= chars@.subrange(split_pos as int, split_pos + q));
        }
        let sep = match separator_at(&chars, split_pos, q) {
            Some(sep) => sep,
            None => {
                return None;
            },
        };
        let content = copy_range(&chars, mo_start + 1, split_pos - 1);
        let pieces = split_chars(&content, &sep);
        let mut strings: Vec<String> = Vec::new();
        let mut i: usize = 0;
        while i < pieces.len()
            invariant
                i <= pieces@.len(),
                strings@.map_values(|s: String| s@) == pieces@.map_values(
                    |v: Vec<char>| v@,
                ).subrange(0, i as int),
            decreases pieces@.len() - i,
        {
            let s = string_from_chars(&pieces[i]);
            let ghost before = strings@.map_values(|s: String| s@);
            strings.push(s);
            assert(strings@.map_values(|s: String| s@) =~= before.push(pieces@[i as int]@));
            assert(strings@.map_values(|s: String| s@) =~= pieces@.map_values(
                |v: Vec<char>| v@,
            ).subrange(0, i + 1));
            i = i + 1;
        }
        assert(pieces@.map_values(|v: Vec<char>| v@).subrange(0, pieces@.len() as int)
            =~= pieces@.map_values(|v: Vec<char>| v@));
        Some(strings)
    }
}

proof fn lemma_chars_spanning_bound(s: Seq<char>, limit: int)
    ensures
        chars_spanning(s, limit) matches Some(q) ==> 0 <= q <= s.len(),
    decreases s.len(),
{
    if limit != 0 && !(limit < 0 || s.len() == 0 || char_width(s[0]) > limit) {
        lemma_chars_spanning_bound(s.drop_first(), limit - char_width(s[0]));
    }
}

} // verus!
