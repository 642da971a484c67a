//! Cutting the interpreter switch out of raw obfuscated JavaScript, without
//! parsing it: find `switch (..[..]..)` headers, follow the braces of each
//! body, and keep the blocks that look like a VM dispatch.
use vstd::prelude::*;
use vstd::string::StringSliceAdditionalSpecFns;
use vstd::std_specs::iter::IteratorSpec;
use vstd::utf8::{decode_utf8, encode_utf8, is_char_boundary, valid_utf8};
use crate::regex_search::{
    regex_all_matches, regex_find, regex_find_all, regex_first_match, valid_span,
};

verus! {

broadcast use vstd::utf8::encode_utf8_valid_utf8, vstd::utf8::encode_utf8_decode_utf8;

/// A `switch` whose discriminant indexes something: `switch (x[..])`.
pub open spec fn indexed_switch_pattern() -> Seq<char> {
    "switch\\s*\\([^)]+\\[[^)]+\\][^)]*\\)"@
}

/// Any `switch (..)` header.
pub open spec fn any_switch_pattern() -> Seq<char> {
    "switch\\s*\\([^)]+\\)"@
}

/// A numeric `case` label, quoted or not, in any letter case.
pub open spec fn case_label_pattern() -> Seq<char> {
    "(?i)case\\s*['\"]?\\d+['\"]?\\s*:"@
}

/// The position of the first byte `b` at or after `from`.
pub open spec fn first_byte_from(bytes: Seq<u8>, from: int, b: u8) -> Option<int>
    decreases bytes.len() - from,
{
    if from < 0 || from >= bytes.len() {
        None
    } else if bytes[from] == b {
        Some(from)
    } else {
        first_byte_from(bytes, from + 1, b)
    }
}

/// The brace scan over the characters of a switch body: strings quoted with
/// `"`, `'` or a backtick are skipped (a quote preceded by a backslash does not
/// close them); the result is the character index of the `}` that brings
/// the depth back to zero or below.
pub open spec fn brace_scan(
    chars: Seq<char>,
    i: int,
    depth: int,
    in_string: bool,
    string_char: char,
    prev_char: char,
) -> Option<int>
    decreases chars.len() - i,
{
    if i < 0 || i >= chars.len() {
        None
    } else {
        let c = chars[i];
        if !in_string {
            if c == '{' {
                brace_scan(chars, i + 1, depth + 1, false, string_char, c)
            } else if c == '}' {
                if depth - 1 <= 0 {
                    Some(i)
                } else {
                    brace_scan(chars, i + 1, depth - 1, false, string_char, c)
                }
            } else if c == '"' || c == '\'' || c == '`' {
                brace_scan(chars, i + 1, depth, true, c, c)
            } else {
                brace_scan(chars, i + 1, depth, false, string_char, c)
            }
        } else {
            let closes = c == string_char && prev_char != '\\';
            brace_scan(chars, i + 1, depth, !closes, string_char, c)
        }
    }
}

/// The text of `bytes` from `from` on, as characters.
pub open spec fn chars_from(bytes: Seq<u8>, from: int) -> Seq<char> {
    decode_utf8(bytes.subrange(from, bytes.len() as int))
}

/// Where the block of the switch at byte `start` ends: when a switch header
/// matches from `start` on, the first `{` from `start` on opens the body, and
/// the end is that position plus the character index of the closing brace
/// plus one.
pub open spec fn block_end(bytes: Seq<u8>, start: int) -> Option<int> {
    let rest = chars_from(bytes, start);
    if regex_first_match(indexed_switch_pattern(), rest) is None && regex_first_match(
        any_switch_pattern(),
        rest,
    ) is None {
        None
    } else {
        match first_byte_from(bytes, start, 123u8) {
            None => None,
            Some(body_start) => match brace_scan(chars_from(bytes, body_start), 0, 0, false, ' ', '\\') {
                Some(i) => Some(body_start + i + 1),
                None => None,
            },
        }
    }
}

proof fn lemma_encode_len(chars: Seq<char>)
    ensures
        chars.len() <= encode_utf8(chars).len(),
    decreases chars.len(),
{
    if chars.len() > 0 {
        lemma_encode_len(chars.drop_first());
    }
}

proof fn lemma_first_byte_from(bytes: Seq<u8>, from: int, b: u8)
    ensures
        first_byte_from(bytes, from, b) matches Some(k) ==> from <= k < bytes.len() && bytes[k]
            == b,
    decreases bytes.len() - from,
{
    if 0 <= from < bytes.len() && bytes[from] != b {
        lemma_first_byte_from(bytes, from + 1, b);
    }
}

proof fn lemma_brace_scan_result(
    chars: Seq<char>,
    i: int,
    depth: int,
    in_string: bool,
    string_char: char,
    prev_char: char,
)
    ensures
        brace_scan(chars, i, depth, in_string, string_char, prev_char) matches Some(k) ==> i <= k
            < chars.len() && chars[k] == '}',
    decreases chars.len() - i,
{
    if 0 <= i < chars.len() {
        let c = chars[i];
        if !in_string {
            if c == '{' {
                lemma_brace_scan_result(chars, i + 1, depth + 1, false, string_char, c);
            } else if c == '}' {
                if depth - 1 > 0 {
                    lemma_brace_scan_result(chars, i + 1, depth - 1, false, string_char, c);
                }
            } else if c == '"' || c == '\'' || c == '`' {
                lemma_brace_scan_result(chars, i + 1, depth, true, c, c);
            } else {
                lemma_brace_scan_result(chars, i + 1, depth, false, string_char, c);
            }
        } else {
            let closes = c == string_char && prev_char != '\\';
            lemma_brace_scan_result(chars, i + 1, depth, !closes, string_char, c);
        }
    }
}

/// On ASCII text, a block ends one past the `}` at which the brace depth,
/// counted from the first `{` at or after the header's start (braces inside
/// quoted strings skipped), first returns to zero: the byte before the end is
/// `}` and the scan from that `{` stops there.
pub proof fn lemma_block_end_ascii(text: Seq<char>, start: int)
    requires
        vstd::utf8::is_ascii_chars(text),
        0 <= start,
        block_end(encode_utf8(text), start) is Some,
    ensures
        ({
            let bytes = encode_utf8(text);
            let e = block_end(bytes, start)->0;
            let b = first_byte_from(bytes, start, 123u8)->0;
            &&& first_byte_from(bytes, start, 123u8) is Some
            &&& start <= b < e <= bytes.len()
            &&& bytes.len() == text.len()
            &&& bytes[b] == 123u8
            &&& bytes[e - 1] == 125u8
            &&& brace_scan(text.subrange(b, text.len() as int), 0, 0, false, ' ', '\\') == Some(e - 1 - b)
        }),
{
    let bytes = encode_utf8(text);
    vstd::utf8::is_ascii_chars_encode_utf8(text);
    lemma_first_byte_from(bytes, start, 123u8);
    let b = first_byte_from(bytes, start, 123u8)->0;
    let sub = text.subrange(b, text.len() as int);
    assert(vstd::utf8::is_ascii_chars(sub));
    vstd::utf8::is_ascii_chars_encode_utf8(sub);
    assert(bytes.subrange(b, bytes.len() as int) =~= encode_utf8(sub)) by {
        assert forall|j: int| 0 <= j < sub.len() implies bytes.subrange(b, bytes.len() as int)[j]
            == encode_utf8(sub)[j] by {
            assert(sub[j] == text[b + j]);
        }
    }
    assert(chars_from(bytes, b) == sub);
    lemma_brace_scan_result(sub, 0, 0, false, ' ', '\\');
    let i = brace_scan(sub, 0, 0, false, ' ', '\\')->0;
    assert(sub[i] == text[b + i]);
    assert(bytes[b + i] == text[b + i] as u8);
}

/// The position just past the closing brace of the switch whose header
/// starts at byte `switch_start` of `text` (see `block_end`).
pub fn find_block_end(text: &str, switch_start: usize) -> (r: Option<usize>)
    requires
        is_char_boundary(text.spec_bytes(), switch_start as int),
    ensures
        r matches Some(e) ==> block_end(text.spec_bytes(), switch_start as int) == Some(e as int),
        r is None ==> block_end(text.spec_bytes(), switch_start as int) is None,
        r matches Some(e) ==> switch_start < e <= text.spec_bytes().len(),
{
    let ghost bytes = text.spec_bytes();
    let (_, rest) = text.split_at(switch_start);
    proof {
        vstd::utf8::decode_utf8_encode_utf8(rest.spec_bytes());
        assert(rest@ == chars_from(bytes, switch_start as int));
    }
    let first = regex_find("switch\\s*\\([^)]+\\[[^)]+\\][^)]*\\)", rest);
    let second = regex_find("switch\\s*\\([^)]+\\)", rest);
    if first.is_none() && second.is_none() {
        return None;
    }
    let raw = text.as_bytes();
    let mut k: usize = switch_start;
    proof {
        vstd::utf8::is_char_boundary_start_end_of_seq(bytes);
    }
    while k < raw.len() && raw[k] != 123u8
        invariant
            raw@ == bytes,
            switch_start <= k <= raw@.len(),
            first_byte_from(bytes, switch_start as int, 123u8) == first_byte_from(bytes, k as int, 123u8),
        decreases raw@.len() - k,
    {
        k = k + 1;
    }
    if k == raw.len() {
        return None;
    }
    let body_start = k;
    proof {
        lemma_first_byte_from(bytes, switch_start as int, 123u8);
    }
    let raw_len = raw.len();
    proof {
        vstd::utf8::is_char_boundary_iff_not_is_continuation_byte(bytes, body_start as int);
    }
    let (_, body) = text.split_at(body_start);
    proof {
        vstd::utf8::decode_utf8_encode_utf8(body.spec_bytes());
        assert(body@ == chars_from(bytes, body_start as int));
        lemma_encode_len(body@);
    }
    let mut chars = body.chars();
    let ghost all = body@;
    let mut i: usize = 0;
    let mut depth: usize = 0;
    let mut in_string = false;
    let mut string_char = ' ';
    let mut prev_char = '\\';
    proof {
        vstd::string::axiom_spec_iter(body);
    }
    loop
        invariant
            all == body@,
            all == chars_from(bytes, body_start as int),
            all.len() <= raw@.len() - body_start,
            raw@ == bytes,
            bytes == text.spec_bytes(),
            switch_start <= body_start,
            raw_len == raw@.len(),
            body_start < raw@.len(),
            i <= all.len(),
            depth <= i,
            chars.remaining() == all.subrange(i as int, all.len() as int),
            brace_scan(all, 0, 0, false, ' ', '\\') == brace_scan(
                all,
                i as int,
                depth as int,
                in_string,
                string_char,
                prev_char,
            ),
            block_end(bytes, switch_start as int) == match brace_scan(all, 0, 0, false, ' ', '\\') {
                Some(j) => Some(body_start + j + 1),
                None => None::<int>,
            },
        decreases all.len() - i,
    {
        let next = chars.next();
        match next {
            None => {
                assert(i == all.len());
                assert(brace_scan(all, i as int, depth as int, in_string, string_char, prev_char)
                    is None);
                assert(brace_scan(all, 0, 0, false, ' ', '\\') is None);
                assert(block_end(bytes, switch_start as int) is None);
                return None;
            },
            Some(c) => {
                assert(i < all.len());
                assert(c == all[i as int]);
                if !in_string {
                    if c == '{' {
                        depth = depth + 1;
                    } else if c == '}' {
                        if depth <= 1 {
                            assert(brace_scan(all, i as int, depth as int, in_string, string_char, prev_char) == Some(i as int));
                            assert(block_end(bytes, switch_start as int) == Some(body_start + i + 1));
                            proof {
                                lemma_first_byte_from(bytes, switch_start as int, 123u8);
                            }
                            return Some(body_start + i + 1);
                        }
                        depth = depth - 1;
                    } else if c == '"' || c == '\'' || c == '`' {
                        in_string = true;
                        string_char = c;
                    }
                } else {
                    if c == string_char && prev_char != '\\' {
                        in_string = false;
                    }
                }
                prev_char = c;
                i = i + 1;
                assert(all.subrange(i - 1, all.len() as int).drop_first() =~= all.subrange(
                    i as int,
                    all.len() as int,
                ));
            },
        }
    }
}

/// The number of numeric `case` labels in a block of source text.
pub fn count_cases(block: &str) -> (r: usize)
    ensures
        r == regex_all_matches(case_label_pattern(), block@).len(),
        r == regex_all_matches("(?i)case\\s*['\"]?\\d+['\"]?\\s*:"@, block@).len(),
{
    let matches = regex_find_all("(?i)case\\s*['\"]?\\d+['\"]?\\s*:", block);
    matches.len()
}

/// A block that may hold the VM's dispatch switch.
#[derive(Debug, Clone)]
pub struct VmCandidate {
    /// Byte offset of the `switch` keyword.
    pub start: usize,
    /// Byte offset just past the block (see `block_end`).
    pub end: usize,
    pub block: String,
    pub case_count: usize,
}

/// A candidate as plain values: start, end, text, number of case labels.
pub type CandidateView = (usize, usize, Seq<char>, usize);

pub open spec fn candidate_view(c: VmCandidate) -> CandidateView {
    (c.start, c.end, c.block@, c.case_count)
}

pub open spec fn candidate_views(v: Seq<VmCandidate>) -> Seq<CandidateView> {
    v.map_values(|c: VmCandidate| candidate_view(c))
}

/// The candidates of the switch headers at the starts of `matches`, in
/// order: a header whose block ends yields a candidate when the block is
/// longer than 100 and shorter than 100000 bytes and holds more than two case
/// labels. `None` when a block ends inside a character, where the text cannot
/// be cut.
pub open spec fn candidates_from(
    bytes: Seq<u8>,
    matches: Seq<(usize, usize)>,
) -> Option<Seq<CandidateView>>
    decreases matches.len(),
{
    if matches.len() == 0 {
        Some(Seq::empty())
    } else {
        match candidates_from(bytes, matches.drop_last()) {
            None => None,
            Some(prev) => {
                let start = matches.last().0;
                match block_end(bytes, start as int) {
                    None => Some(prev),
                    Some(end) => if !is_char_boundary(bytes, end) {
                        None
                    } else {
                        let block = decode_utf8(bytes.subrange(start as int, end));
                        let cases = regex_all_matches(case_label_pattern(), block).len();
                        if end - start > 100 && end - start < 100000 && cases > 2 {
                            Some(prev.push((start, end as usize, block, cases as usize)))
                        } else {
                            Some(prev)
                        }
                    },
                }
            },
        }
    }
}

/// Where a candidate with `cases` case labels goes in a list ordered by
/// descending case count: after every entry with at least as many.
pub open spec fn insert_position(s: Seq<CandidateView>, cases: usize) -> int
    decreases s.len(),
{
    if s.len() == 0 {
        0
    } else if s[0].3 < cases {
        0
    } else {
        1 + insert_position(s.drop_first(), cases)
    }
}

/// The stable sort by descending case count.
pub open spec fn sort_by_cases_desc(s: Seq<CandidateView>) -> Seq<CandidateView>
    decreases s.len(),
{
    if s.len() == 0 {
        s
    } else {
        let t = sort_by_cases_desc(s.drop_last());
        t.insert(insert_position(t, s.last().3), s.last())
    }
}

pub open spec fn sorted_by_cases_desc(s: Seq<CandidateView>) -> bool {
    forall|i: int, j: int| 0 <= i < j < s.len() ==> s[i].3 >= s[j].3
}

proof fn lemma_insert_position(s: Seq<CandidateView>, cases: usize)
    ensures
        0 <= insert_position(s, cases) <= s.len(),
        forall|j: int| 0 <= j < insert_position(s, cases) ==> s[j].3 >= cases,
        insert_position(s, cases) < s.len() ==> s[insert_position(s, cases)].3 < cases,
    decreases s.len(),
{
    if s.len() > 0 && s[0].3 >= cases {
        lemma_insert_position(s.drop_first(), cases);
        assert forall|j: int| 0 <= j < insert_position(s, cases) implies s[j].3 >= cases by {
            if j > 0 {
                assert(s[j] == s.drop_first()[j - 1]);
            }
        }
    }
}

/// Sorting by descending case count leaves the candidates ordered.
pub proof fn lemma_sort_by_cases_desc_sorted(s: Seq<CandidateView>)
    ensures
        sorted_by_cases_desc(sort_by_cases_desc(s)),
        sort_by_cases_desc(s).len() == s.len(),
    decreases s.len(),
{
    if s.len() > 0 {
        let t = sort_by_cases_desc(s.drop_last());
        lemma_sort_by_cases_desc_sorted(s.drop_last());
        let x = s.last();
        let p = insert_position(t, x.3);
        lemma_insert_position(t, x.3);
        let u = t.insert(p, x);
        assert forall|i: int, j: int| 0 <= i < j < u.len() implies u[i].3 >= u[j].3 by {
            if j < p {
            } else if j == p {
            } else if i < p {
                assert(u[j] == t[j - 1]);
            } else if i == p {
                assert(u[j] == t[j - 1]);
                if p < t.len() {
                    assert(t[p].3 < x.3);
                    assert(t[p].3 >= t[j - 1].3 || p == j - 1);
                }
            } else {
                assert(u[i] == t[i - 1]);
                assert(u[j] == t[j - 1]);
            }
        }
    }
}

/// Sorting by descending case count keeps every candidate, as often as it
/// occurred.
pub proof fn lemma_sort_by_cases_desc_permutes(s: Seq<CandidateView>)
    ensures
        sort_by_cases_desc(s).to_multiset() == s.to_multiset(),
    decreases s.len(),
{
    broadcast use vstd::seq_lib::group_to_multiset_ensures;

    if s.len() > 0 {
        let t = sort_by_cases_desc(s.drop_last());
        lemma_sort_by_cases_desc_permutes(s.drop_last());
        let x = s.last();
        let p = insert_position(t, x.3);
        lemma_insert_position(t, x.3);
        let u = t.insert(p, x);
        assert(u.remove(p) =~= t);
        assert(u[p] == x);
        assert(u.to_multiset().count(x) > 0) by {
            assert(u.contains(x));
        }
        assert(u.to_multiset() =~= t.to_multiset().insert(x));
        assert(s =~= s.drop_last().push(x));
    }
}

/// Matches in the order `find_iter` yields them: each ends at or before the
/// next one starts, and none ends before it starts.
pub open spec fn matches_in_order(matches: Seq<(usize, usize)>) -> bool {
    &&& forall|i: int| 0 <= i < matches.len() ==> #[trigger] matches[i].0 <= matches[i].1
    &&& forall|i: int, j: int| 0 <= i < j < matches.len() ==> #[trigger] matches[i].1 <= #[trigger] matches[j].0
}

/// Candidates whose starts never decrease.
pub open spec fn starts_in_order(s: Seq<CandidateView>) -> bool {
    forall|i: int, j: int| 0 <= i < j < s.len() ==> #[trigger] s[i].0 <= #[trigger] s[j].0
}

proof fn lemma_candidates_in_match_order(bytes: Seq<u8>, matches: Seq<(usize, usize)>)
    requires
        matches_in_order(matches),
        candidates_from(bytes, matches) is Some,
    ensures
        starts_in_order(candidates_from(bytes, matches)->0),
        forall|k: int|
            0 <= k < candidates_from(bytes, matches)->0.len() ==> exists|m: int|
                0 <= m < matches.len() && #[trigger] candidates_from(bytes, matches)->0[k].0
                    == matches[m].0,
    decreases matches.len(),
{
    if matches.len() > 0 {
        let init = matches.drop_last();
        assert forall|i: int, j: int| 0 <= i < j < init.len() implies #[trigger] init[i].1
            <= #[trigger] init[j].0 by {
            assert(init[i] == matches[i] && init[j] == matches[j]);
        }
        assert forall|i: int| 0 <= i < init.len() implies #[trigger] init[i].0 <= init[i].1 by {
            assert(init[i] == matches[i]);
        }
        lemma_candidates_in_match_order(bytes, init);
        let prev = candidates_from(bytes, init)->0;
        let cs = candidates_from(bytes, matches)->0;
        let last = matches.last();
        assert forall|k: int| 0 <= k < prev.len() implies #[trigger] prev[k].0 <= last.0 by {
            let m = choose|m: int| 0 <= m < init.len() && prev[k].0 == init[m].0;
            assert(init[m] == matches[m]);
            assert(matches[m].0 <= matches[m].1);
            assert(matches[m].1 <= matches[matches.len() - 1].0);
        }
        assert forall|k: int| 0 <= k < cs.len() implies exists|m: int|
            0 <= m < matches.len() && #[trigger] cs[k].0 == matches[m].0 by {
            if k < prev.len() {
                assert(cs[k] == prev[k]);
                let m = choose|m: int| 0 <= m < init.len() && prev[k].0 == init[m].0;
                assert(init[m] == matches[m]);
            } else {
                assert(cs[k].0 == matches[matches.len() - 1].0);
            }
        }
        assert forall|i: int, j: int| 0 <= i < j < cs.len() implies #[trigger] cs[i].0
            <= #[trigger] cs[j].0 by {
            if j < prev.len() {
                assert(cs[i] == prev[i] && cs[j] == prev[j]);
            } else {
                assert(cs[i] == prev[i]);
            }
        }
    }
}

/// Sorting candidates whose starts never decrease keeps equal case counts in
/// the order of their starts.
pub proof fn lemma_sort_keeps_start_order(s: Seq<CandidateView>)
    requires
        starts_in_order(s),
    ensures
        forall|i: int, j: int|
            0 <= i < j < sort_by_cases_desc(s).len() && #[trigger] sort_by_cases_desc(s)[i].3
                == #[trigger] sort_by_cases_desc(s)[j].3 ==> sort_by_cases_desc(s)[i].0
                <= sort_by_cases_desc(s)[j].0,
    decreases s.len(),
{
    broadcast use vstd::seq_lib::group_to_multiset_ensures;

    if s.len() > 0 {
        let init = s.drop_last();
        assert forall|i: int, j: int| 0 <= i < j < init.len() implies #[trigger] init[i].0
            <= #[trigger] init[j].0 by {
            assert(init[i] == s[i] && init[j] == s[j]);
        }
        lemma_sort_keeps_start_order(init);
        lemma_sort_by_cases_desc_sorted(init);
        lemma_sort_by_cases_desc_permutes(init);
        let t = sort_by_cases_desc(init);
        let x = s.last();
        let p = insert_position(t, x.3);
        lemma_insert_position(t, x.3);
        let u = t.insert(p, x);
        assert forall|k: int| 0 <= k < t.len() implies #[trigger] t[k].0 <= x.0 by {
            assert(t.to_multiset().count(t[k]) > 0) by {
                assert(t.contains(t[k]));
            }
            assert(init.to_multiset().count(t[k]) > 0);
            let m = choose|m: int| 0 <= m < init.len() && init[m] == t[k];
            assert(init[m] == s[m]);
            assert(s[m].0 <= s[s.len() - 1].0);
        }
        assert forall|i: int, j: int| 0 <= i < j < u.len() && #[trigger] u[i].3 == #[trigger] u[j].3
            implies u[i].0 <= u[j].0 by {
            if j < p {
                assert(u[i] == t[i] && u[j] == t[j]);
            } else if j == p {
                assert(u[i] == t[i]);
            } else if i < p {
                assert(u[i] == t[i] && u[j] == t[j - 1]);
            } else if i == p {
                assert(u[j] == t[j - 1]);
                assert(t[p].3 < x.3);
                assert(t[p].3 >= t[j - 1].3 || p == j - 1);
            } else {
                assert(u[i] == t[i - 1] && u[j] == t[j - 1]);
            }
        }
    }
}

/// The candidates with exactly `c` case labels.
pub open spec fn with_cases(c: usize) -> spec_fn(CandidateView) -> bool {
    |v: CandidateView| v.3 == c
}

proof fn lemma_filter_none(s: Seq<CandidateView>, c: usize)
    requires
        forall|k: int| 0 <= k < s.len() ==> #[trigger] s[k].3 != c,
    ensures
        s.filter(with_cases(c)) == Seq::<CandidateView>::empty(),
    decreases s.len(),
{
    reveal(Seq::filter);
    if s.len() > 0 {
        lemma_filter_none(s.drop_last(), c);
    }
}

/// The sort is stable: the candidates with any one case count come out in
/// the order they went in (for the extraction, the order of their matches).
pub proof fn lemma_sort_by_cases_desc_stable(s: Seq<CandidateView>, c: usize)
    ensures
        sort_by_cases_desc(s).filter(with_cases(c)) == s.filter(with_cases(c)),
    decreases s.len(),
{
    reveal(Seq::filter);
    if s.len() > 0 {
        let t = sort_by_cases_desc(s.drop_last());
        lemma_sort_by_cases_desc_stable(s.drop_last(), c);
        lemma_sort_by_cases_desc_sorted(s.drop_last());
        let x = s.last();
        let p = insert_position(t, x.3);
        lemma_insert_position(t, x.3);
        let t0 = t.subrange(0, p);
        let t1 = t.subrange(p, t.len() as int);
        assert(t.insert(p, x) =~= t0 + seq![x] + t1);
        assert(t =~= t0 + t1);
        Seq::filter_distributes_over_add(t0 + seq![x], t1, with_cases(c));
        Seq::filter_distributes_over_add(t0, seq![x], with_cases(c));
        Seq::filter_distributes_over_add(t0, t1, with_cases(c));
        assert(seq![x].drop_last() =~= Seq::<CandidateView>::empty());
        if x.3 == c {
            assert forall|k: int| 0 <= k < t1.len() implies #[trigger] t1[k].3 != c by {
                assert(t1[k] == t[p + k]);
                assert(t[p].3 < x.3);
            }
            lemma_filter_none(t1, c);
            assert(seq![x].filter(with_cases(c)) =~= seq![x]);
        } else {
            assert(seq![x].last() == x);
            assert(!(with_cases(c))(x));
            assert(Seq::<CandidateView>::empty().filter(with_cases(c)) =~= Seq::<CandidateView>::empty());
            assert(seq![x].filter(with_cases(c)) =~= Seq::<CandidateView>::empty());
        }
    }
}

/// The case labels counted are `case`, in any letter case, then optional
/// white space, an optional quote, one or more decimal digits, an optional
/// quote, optional white space and a colon.
pub proof fn lemma_case_label_pattern()
    ensures
        case_label_pattern() == "(?i)case\\s*['\"]?\\d+['\"]?\\s*:"@,
{
}

/// The switch headers searched for are `switch`, optional white space and a
/// bracketed discriminant: any non-empty one, and one that holds an index
/// `[..]` before its closing bracket.
pub proof fn lemma_switch_patterns()
    ensures
        any_switch_pattern() == "switch\\s*\\([^)]+\\)"@,
        indexed_switch_pattern() == "switch\\s*\\([^)]+\\[[^)]+\\][^)]*\\)"@,
{
}

/// A candidate as the extraction keeps it: the text between its start and
/// end, of 101 to 99999 bytes, with more than two case labels.
pub open spec fn is_candidate_block(bytes: Seq<u8>, c: CandidateView) -> bool {
    &&& c.0 < c.1 <= bytes.len()
    &&& 100 < c.1 - c.0 < 100000
    &&& c.2 == decode_utf8(bytes.subrange(c.0 as int, c.1 as int))
    &&& c.3 == regex_all_matches(case_label_pattern(), c.2).len() as usize
    &&& regex_all_matches(case_label_pattern(), c.2).len() > 2
}

proof fn lemma_block_end_after_start(bytes: Seq<u8>, start: int)
    requires
        0 <= start,
        valid_utf8(bytes),
    ensures
        block_end(bytes, start) matches Some(e) ==> start < e <= bytes.len(),
{
    lemma_first_byte_from(bytes, start, 123u8);
    if let Some(body_start) = first_byte_from(bytes, start, 123u8) {
        let tail = bytes.subrange(body_start, bytes.len() as int);
        let body = chars_from(bytes, body_start);
        vstd::utf8::is_char_boundary_iff_not_is_continuation_byte(bytes, body_start);
        vstd::utf8::valid_utf8_split(bytes, body_start);
        vstd::utf8::decode_utf8_encode_utf8(tail);
        lemma_brace_scan_result(body, 0, 0, false, ' ', '\\');
        lemma_encode_len(body);
    }
}

/// Every candidate the extraction keeps, before and after ordering, is a
/// block of the text as `is_candidate_block` describes.
pub proof fn lemma_candidates_are_blocks(bytes: Seq<u8>, matches: Seq<(usize, usize)>)
    requires
        valid_utf8(bytes),
        bytes.len() <= usize::MAX,
        candidates_from(bytes, matches) is Some,
    ensures
        forall|i: int|
            0 <= i < candidates_from(bytes, matches)->0.len() ==> is_candidate_block(
                bytes,
                #[trigger] candidates_from(bytes, matches)->0[i],
            ),
        forall|i: int|
            0 <= i < sort_by_cases_desc(candidates_from(bytes, matches)->0).len()
                ==> is_candidate_block(
                bytes,
                #[trigger] sort_by_cases_desc(candidates_from(bytes, matches)->0)[i],
            ),
    decreases matches.len(),
{
    broadcast use vstd::seq_lib::group_to_multiset_ensures;

    let cs = candidates_from(bytes, matches)->0;
    if matches.len() > 0 {
        let prev = candidates_from(bytes, matches.drop_last())->0;
        lemma_candidates_are_blocks(bytes, matches.drop_last());
        let start = matches.last().0;
        lemma_block_end_after_start(bytes, start as int);
        assert forall|i: int| 0 <= i < cs.len() implies is_candidate_block(bytes, #[trigger] cs[i]) by {
            if i < prev.len() {
                assert(cs[i] == prev[i]);
            }
        }
    }
    let sorted = sort_by_cases_desc(cs);
    lemma_sort_by_cases_desc_permutes(cs);
    assert forall|i: int| 0 <= i < sorted.len() implies is_candidate_block(
        bytes,
        #[trigger] sorted[i],
    ) by {
        assert(sorted.to_multiset().count(sorted[i]) > 0) by {
            assert(sorted.contains(sorted[i]));
        }
        assert(cs.to_multiset().count(sorted[i]) > 0);
        let k = choose|k: int| 0 <= k < cs.len() && cs[k] == sorted[i];
        assert(is_candidate_block(bytes, cs[k]));
    }
}

fn sort_candidates(v: Vec<VmCandidate>) -> (r: Vec<VmCandidate>)
    ensures
        candidate_views(r@) == sort_by_cases_desc(candidate_views(v@)),
{
    let ghost orig = candidate_views(v@);
    let n = v.len();
    let mut rest = v;
    let mut sorted: Vec<VmCandidate> = Vec::new();
    let mut i: usize = 0;
    while i < n
        invariant
            n == orig.len(),
            i <= n,
            candidate_views(rest@) == orig.subrange(i as int, n as int),
            candidate_views(sorted@) == sort_by_cases_desc(orig.subrange(0, i as int)),
        decreases n - i,
    {
        assert(candidate_views(rest@).len() == n - i);
        let ghost old_rest = rest@;
        let c = rest.remove(0);
        proof {
            assert(candidate_views(old_rest)[0] == candidate_view(old_rest[0]));
            assert(orig.subrange(i as int, n as int)[0] == orig[i as int]);
            assert(candidate_view(c) == orig[i as int]);
            assert(rest@ =~= old_rest.subrange(1, old_rest.len() as int));
            assert forall|j: int| 0 <= j < rest@.len() implies candidate_views(rest@)[j]
                == orig.subrange(i + 1, n as int)[j] by {
                assert(candidate_views(rest@)[j] == candidate_view(rest@[j]));
                assert(rest@[j] == old_rest[j + 1]);
                assert(candidate_views(old_rest)[j + 1] == candidate_view(old_rest[j + 1]));
                assert(orig.subrange(i as int, n as int)[j + 1] == orig[i + 1 + j]);
            }
            assert(candidate_views(rest@) =~= orig.subrange(i + 1, n as int));
        }
        let mut p: usize = 0;
        assert(candidate_views(sorted@).subrange(0, sorted@.len() as int) =~= candidate_views(
            sorted@,
        ));
        while p < sorted.len() && sorted[p].case_count >= c.case_count
            invariant
                p <= sorted@.len(),
                insert_position(candidate_views(sorted@), c.case_count) == p + insert_position(
                    candidate_views(sorted@).subrange(p as int, sorted@.len() as int),
                    c.case_count,
                ),
            decreases sorted@.len() - p,
        {
            proof {
                let tail = candidate_views(sorted@).subrange(p as int, sorted@.len() as int);
                assert(tail.drop_first() =~= candidate_views(sorted@).subrange(
                    p + 1,
                    sorted@.len() as int,
                ));
            }
            p = p + 1;
        }
        proof {
            let sv = candidate_views(sorted@);
            assert(sv.subrange(0, sv.len() as int) =~= sv);
            let tail = sv.subrange(p as int, sv.len() as int);
            if p < sorted@.len() {
                assert(tail[0] == candidate_view(sorted@[p as int]));
            }
            assert(insert_position(tail, c.case_count) == 0);
        }
        let ghost before = candidate_views(sorted@);
        sorted.insert(p, c);
        proof {
            assert(candidate_views(sorted@) =~= before.insert(p as int, candidate_view(c)));
            let next = orig.subrange(0, i + 1);
            assert(next.drop_last() =~= orig.subrange(0, i as int));
            assert(next.last() == candidate_view(c));
        }
        i = i + 1;
    }
    assert(orig.subrange(0, n as int) =~= orig);
    sorted
}

pub proof fn lemma_boundary_in_suffix(bytes: Seq<u8>, start: int, end: int)
    requires
        valid_utf8(bytes),
        is_char_boundary(bytes, start),
        is_char_boundary(bytes, end),
        start <= end,
    ensures
        valid_utf8(bytes.subrange(start, bytes.len() as int)),
        is_char_boundary(bytes.subrange(start, bytes.len() as int), end - start),
{
    vstd::utf8::valid_utf8_split(bytes, start);
    let rest = bytes.subrange(start, bytes.len() as int);
    vstd::utf8::is_char_boundary_start_end_of_seq(rest);
    vstd::utf8::is_char_boundary_start_end_of_seq(bytes);
    if 0 < end - start < rest.len() {
        vstd::utf8::is_char_boundary_iff_not_is_continuation_byte(rest, end - start);
        vstd::utf8::is_char_boundary_iff_not_is_continuation_byte(bytes, end);
        assert(rest[end - start] == bytes[end]);
    } else if end - start > rest.len() {
        assert(false);
    }
}

proof fn lemma_candidates_none_extends(bytes: Seq<u8>, matches: Seq<(usize, usize)>, k: int)
    requires
        0 <= k <= matches.len(),
        candidates_from(bytes, matches.subrange(0, k)) is None,
    ensures
        candidates_from(bytes, matches) is None,
    decreases matches.len() - k,
{
    if k < matches.len() {
        let next = matches.subrange(0, k + 1);
        assert(next.drop_last() =~= matches.subrange(0, k));
        lemma_candidates_none_extends(bytes, matches, k + 1);
    } else {
        assert(matches.subrange(0, k) =~= matches);
    }
}

/// The candidates of the switch headers at the starts of `matches` (see
/// `candidates_from`), sorted by descending case count, ties in match order.
pub fn vm_candidates_from_matches(js_code: &str, matches: &Vec<(usize, usize)>) -> (r: Option<
    Vec<VmCandidate>,
>)
    requires
        forall|i: int| 0 <= i < matches@.len() ==> valid_span(js_code, #[trigger] matches@[i]),
    ensures
        match candidates_from(js_code.spec_bytes(), matches@) {
            None => r is None,
            Some(cs) => r matches Some(v) && candidate_views(v@) == sort_by_cases_desc(cs),
        },
{
    let ghost bytes = js_code.spec_bytes();
    let mut candidates: Vec<VmCandidate> = Vec::new();
    let n = matches.len();
    let mut i: usize = 0;
    while i < n
        invariant
            n == matches@.len(),
            i <= n,
            bytes == js_code.spec_bytes(),
            forall|j: int| 0 <= j < matches@.len() ==> valid_span(js_code, #[trigger] matches@[j]),
            candidates_from(bytes, matches@.subrange(0, i as int)) == Some(
                candidate_views(candidates@),
            ),
        decreases n - i,
    {
        let start = matches[i].0;
        proof {
            assert(valid_span(js_code, matches@[i as int]));
            let next = matches@.subrange(0, i + 1);
            assert(next.drop_last() =~= matches@.subrange(0, i as int));
            assert(next.last() == matches@[i as int]);
        }
        match find_block_end(js_code, start) {
            None => {},
            Some(end) => {
                if !js_code.is_char_boundary(end) {
                    proof {
                        lemma_candidates_none_extends(bytes, matches@, i + 1);
                    }
                    return None;
                }
                proof {
                    lemma_boundary_in_suffix(bytes, start as int, end as int);
                }
                let (_, rest) = js_code.split_at(start);
                let (piece, _) = rest.split_at(end - start);
                proof {
                    assert(piece.spec_bytes() =~= bytes.subrange(start as int, end as int));
                    vstd::utf8::decode_utf8_encode_utf8(piece.spec_bytes());
                    assert(piece@ == decode_utf8(bytes.subrange(start as int, end as int)));
                }
                let case_count = count_cases(piece);
                if end - start > 100 && end - start < 100000 && case_count > 2 {
                    let block = piece.to_owned();
                    let ghost before = candidate_views(candidates@);
                    candidates.push(VmCandidate { start, end, block, case_count });
                    proof {
                        assert(candidate_views(candidates@) =~= before.push(
                            (start, end, piece@, case_count),
                        ));
                    }
                }
            },
        }
        i = i + 1;
    }
    proof {
        assert(matches@.subrange(0, n as int) =~= matches@);
    }
    Some(sort_candidates(candidates))
}

/// Finds the blocks of `switch (x[..])` statements in raw source that look
/// like a VM dispatch, most case labels first. `None` when one of the
/// blocks ends inside a character, where the text cannot be cut.
pub fn extract_vm_candidates(js_code: &str) -> (r: Option<Vec<VmCandidate>>)
    ensures
        match candidates_from(
            js_code.spec_bytes(),
            regex_all_matches(indexed_switch_pattern(), js_code@),
        ) {
            None => r is None,
            Some(cs) => r matches Some(v) && candidate_views(v@) == sort_by_cases_desc(cs),
        },
        r matches Some(v) ==> forall|i: int, j: int|
            0 <= i < j < v@.len() && #[trigger] v@[i].case_count == #[trigger] v@[j].case_count
                ==> v@[i].start <= v@[j].start,
{
    let matches = regex_find_all("switch\\s*\\([^)]+\\[[^)]+\\][^)]*\\)", js_code);
    let r = vm_candidates_from_matches(js_code, &matches);
    proof {
        if let Some(v) = &r {
            let bytes = js_code.spec_bytes();
            let cs = candidates_from(bytes, matches@)->0;
            assert forall|i: int| 0 <= i < matches@.len() implies #[trigger] matches@[i].0
                <= matches@[i].1 by {
                assert(valid_span(js_code, matches@[i]));
            }
            lemma_candidates_in_match_order(bytes, matches@);
            lemma_sort_keeps_start_order(cs);
            let out = sort_by_cases_desc(cs);
            assert forall|i: int, j: int|
                0 <= i < j < v@.len() && #[trigger] v@[i].case_count == #[trigger] v@[j].case_count
                    implies v@[i].start <= v@[j].start by {
                assert(candidate_views(v@)[i] == candidate_view(v@[i]));
                assert(candidate_views(v@)[j] == candidate_view(v@[j]));
                assert(out[i].3 == out[j].3);
            }
        }
    }
    r
}

/// Wraps an extracted block in a function so that it parses as a script.
pub fn wrap_for_parser(vm_block: &str) -> (r: String)
    ensures
        r@ == "function VM() {\n"@ + vm_block@ + "\n}"@,
{
    let mut out = String::new();
    out.append("function VM() {\n");
    out.append(vm_block);
    out.append("\n}");
    proof {
        assert(out@ =~= "function VM() {\n"@ + vm_block@ + "\n}"@);
    }
    out
}

} // verus!
