//! Character-level string handling shared by the query, diagnostics and
//! parsing code: ASCII case folding, substring search, trimming, splitting,
//! decimal numbers and UTF-8 byte lengths, each with the specification of the
//! `str` operation it stands for.
use vstd::prelude::*;

verus! {

// ───────────────────────── characters of a string ─────────────────────────

/// The characters of `s`, in order.
pub fn chars_of(s: &str) -> (v: Vec<char>)
    ensures
        v@ == s@,
{
    let n = s.unicode_len();
    let mut v: Vec<char> = Vec::new();
    let mut i: usize = 0;
    while i < n
        invariant
            i <= n,
            n == s@.len(),
            v@ == s@.subrange(0, i as int),
        decreases n - i,
    {
        v.push(s.get_char(i));
        i += 1;
    }
    v
}

/// Appends one character to a string (`String::push`).
#[verifier::external_body]
pub(crate) fn push_char(s: &mut String, c: char)
    ensures
        final(s)@ == old(s)@.push(c),
{
    s.push(c);
}

/// A string holding exactly the characters of `cs@.subrange(from, to)`.
pub fn string_from_range(cs: &Vec<char>, from: usize, to: usize) -> (s: String)
    requires
        from <= to <= cs@.len(),
    ensures
        s@ == cs@.subrange(from as int, to as int),
{
    let mut s = String::new();
    let mut i = from;
    while i < to
        invariant
            from <= i <= to,
            to <= cs@.len(),
            s@ == cs@.subrange(from as int, i as int),
        decreases to - i,
    {
        push_char(&mut s, cs[i]);
        i += 1;
    }
    s
}

/// A fresh string equal to `s`.
pub fn own(s: &str) -> (r: String)
    ensures
        r@ == s@,
{
    String::from_str(s)
}

/// `a` followed by `b`.
pub fn concat2(a: &str, b: &str) -> (r: String)
    ensures
        r@ == a@ + b@,
{
    let mut r = String::from_str(a);
    r.append(b);
    r
}

/// `a`, `b` and `c` in sequence.
pub fn concat3(a: &str, b: &str, c: &str) -> (r: String)
    ensures
        r@ == a@ + b@ + c@,
{
    let mut r = String::from_str(a);
    r.append(b);
    r.append(c);
    r
}

/// A copy of an optional string.
pub fn clone_opt(o: &Option<String>) -> (r: Option<String>)
    ensures
        r == *o,
{
    match o {
        Some(s) => Some(s.clone()),
        None => None,
    }
}

/// Element-wise equality of two character vectors.
pub fn chars_equal(a: &Vec<char>, b: &Vec<char>) -> (r: bool)
    ensures
        r == (a@ == b@),
{
    if a.len() != b.len() {
        return false;
    }
    let mut i: usize = 0;
    while i < a.len()
        invariant
            a@.len() == b@.len(),
            i <= a@.len(),
            a@.subrange(0, i as int) == b@.subrange(0, i as int),
        decreases a@.len() - i,
    {
        if a[i] != b[i] {
            assert(a@[i as int] != b@[i as int]);
            return false;
        }
        assert(a@.subrange(0, i + 1) =~= a@.subrange(0, i as int).push(a@[i as int]));
        assert(b@.subrange(0, i + 1) =~= b@.subrange(0, i as int).push(b@[i as int]));
        i += 1;
    }
    assert(a@ =~= a@.subrange(0, i as int));
    assert(b@ =~= b@.subrange(0, i as int));
    true
}

/// String equality by characters.
pub fn str_eq(a: &str, b: &str) -> (r: bool)
    ensures
        r == (a@ == b@),
{
    chars_equal(&chars_of(a), &chars_of(b))
}

// ───────────────────────── ASCII case folding ─────────────────────────

pub open spec fn is_upper_ascii(c: char) -> bool {
    'A' <= c && c <= 'Z'
}

/// `char::to_ascii_lowercase`: only `A`..=`Z` change.
pub open spec fn ascii_lower_char(c: char) -> char {
    if is_upper_ascii(c) {
        ((c as u32) + 32) as char
    } else {
        c
    }
}

/// `str::to_ascii_lowercase`, character by character.
pub open spec fn ascii_lower(s: Seq<char>) -> Seq<char> {
    s.map_values(|c: char| ascii_lower_char(c))
}

pub fn to_ascii_lower_char(c: char) -> (r: char)
    ensures
        r == ascii_lower_char(c),
{
    if 'A' <= c && c <= 'Z' {
        let b: u8 = (c as u8) + 32;
        b as char
    } else {
        c
    }
}

/// The ASCII-lowercased characters of `cs`.
pub fn ascii_lower_chars(cs: &Vec<char>) -> (r: Vec<char>)
    ensures
        r@ == ascii_lower(cs@),
{
    let mut r: Vec<char> = Vec::new();
    let mut i: usize = 0;
    while i < cs.len()
        invariant
            i <= cs@.len(),
            r@ == ascii_lower(cs@.subrange(0, i as int)),
        decreases cs@.len() - i,
    {
        let c = to_ascii_lower_char(cs[i]);
        proof {
            assert(ascii_lower(cs@.subrange(0, i + 1)) =~= ascii_lower(cs@.subrange(0, i as int)).push(
                ascii_lower_char(cs@[i as int]),
            ));
        }
        r.push(c);
        i += 1;
    }
    assert(cs@.subrange(0, i as int) =~= cs@);
    r
}

/// `str::eq_ignore_ascii_case`.
pub fn eq_ignore_ascii_case(a: &str, b: &str) -> (r: bool)
    ensures
        r == (ascii_lower(a@) == ascii_lower(b@)),
{
    chars_equal(&ascii_lower_chars(&chars_of(a)), &ascii_lower_chars(&chars_of(b)))
}

// ───────────────────────── prefixes, suffixes, substrings ─────────────────────────

pub open spec fn starts_with(s: Seq<char>, p: Seq<char>) -> bool {
    p.len() <= s.len() && s.subrange(0, p.len() as int) == p
}

pub open spec fn ends_with(s: Seq<char>, p: Seq<char>) -> bool {
    p.len() <= s.len() && s.subrange(s.len() - p.len(), s.len() as int) == p
}

/// `needle` occurs in `s` starting at index `i`.
pub open spec fn occurs_at(s: Seq<char>, needle: Seq<char>, i: int) -> bool {
    0 <= i && i + needle.len() <= s.len() && s.subrange(i, i + needle.len()) == needle
}

/// `str::contains` with a string needle.
pub open spec fn contains_seq(s: Seq<char>, needle: Seq<char>) -> bool {
    exists|i: int| occurs_at(s, needle, i)
}

/// The first index `>= from` at which `needle` occurs in `s`, or -1.
pub open spec fn first_occurrence(s: Seq<char>, needle: Seq<char>, from: int) -> int
    decreases s.len() + 1 - from,
{
    if from < 0 || from + needle.len() > s.len() {
        -1
    } else if occurs_at(s, needle, from) {
        from
    } else {
        first_occurrence(s, needle, from + 1)
    }
}

pub proof fn lemma_first_occurrence(s: Seq<char>, needle: Seq<char>, from: int)
    requires
        0 <= from,
    ensures
        ({
            let r = first_occurrence(s, needle, from);
            &&& r == -1 || (from <= r && occurs_at(s, needle, r))
            &&& forall|j: int| from <= j && (r == -1 || j < r) ==> !occurs_at(s, needle, j)
        }),
    decreases s.len() + 1 - from,
{
    if from + needle.len() > s.len() {
    } else if occurs_at(s, needle, from) {
    } else {
        lemma_first_occurrence(s, needle, from + 1);
    }
}

pub proof fn lemma_contains_iff_first(s: Seq<char>, needle: Seq<char>)
    ensures
        contains_seq(s, needle) <==> first_occurrence(s, needle, 0) >= 0,
{
    lemma_first_occurrence(s, needle, 0);
}

/// Whether `needle` occurs in `s` at `i` (executable).
pub fn occurs_at_exec(s: &Vec<char>, needle: &Vec<char>, i: usize) -> (r: bool)
    ensures
        r == occurs_at(s@, needle@, i as int),
{
    if i > s.len() || needle.len() > s.len() - i {
        return false;
    }
    let mut k: usize = 0;
    while k < needle.len()
        invariant
            i + needle@.len() <= s.len(),
            k <= needle@.len(),
            forall|j: int| 0 <= j < k ==> s@[i + j] == needle@[j],
        decreases needle@.len() - k,
    {
        if s[i + k] != needle[k] {
            proof {
                if s@.subrange(i as int, i + needle@.len()) == needle@ {
                    assert(s@.subrange(i as int, i + needle@.len())[k as int] == s@[i + k]);
                }
            }
            return false;
        }
        k += 1;
    }
    assert(s@.subrange(i as int, i + needle@.len()) =~= needle@);
    true
}

/// The first occurrence of `needle` in `s` at or after `from`.
pub fn find_from(s: &Vec<char>, needle: &Vec<char>, from: usize) -> (r: Option<usize>)
    ensures
        match r {
            Some(i) => i as int == first_occurrence(s@, needle@, from as int),
            None => first_occurrence(s@, needle@, from as int) == -1,
        },
{
    if needle.len() > s.len() || from > s.len() - needle.len() {
        return None;
    }
    let last = s.len() - needle.len();
    let mut i = from;
    loop
        invariant
            from <= i <= last,
            last + needle@.len() == s@.len(),
            first_occurrence(s@, needle@, from as int) == first_occurrence(s@, needle@, i as int),
        decreases last - i,
    {
        if occurs_at_exec(s, needle, i) {
            return Some(i);
        }
        if i == last {
            assert(first_occurrence(s@, needle@, i + 1) == -1);
            return None;
        }
        i += 1;
    }
}

/// `str::contains` on character vectors.
pub fn contains_chars(s: &Vec<char>, needle: &Vec<char>) -> (r: bool)
    ensures
        r == contains_seq(s@, needle@),
{
    proof {
        lemma_contains_iff_first(s@, needle@);
    }
    find_from(s, needle, 0).is_some()
}

/// `str::contains` with a string needle.
pub fn str_contains(s: &str, needle: &str) -> (r: bool)
    ensures
        r == contains_seq(s@, needle@),
{
    contains_chars(&chars_of(s), &chars_of(needle))
}

/// `str::contains` with a single character.
pub fn has_char(s: &str, c: char) -> (r: bool)
    ensures
        r == s@.contains(c),
{
    let cs = chars_of(s);
    let mut i: usize = 0;
    while i < cs.len()
        invariant
            cs@ == s@,
            i <= cs@.len(),
            forall|j: int| 0 <= j < i ==> cs@[j] != c,
        decreases cs@.len() - i,
    {
        if cs[i] == c {
            return true;
        }
        i += 1;
    }
    false
}

/// `str::starts_with` with a string prefix.
pub fn starts_with_chars(s: &Vec<char>, p: &Vec<char>) -> (r: bool)
    ensures
        r == starts_with(s@, p@),
{
    occurs_at_exec(s, p, 0)
}

/// `str::ends_with` with a string suffix.
pub fn ends_with_chars(s: &Vec<char>, p: &Vec<char>) -> (r: bool)
    ensures
        r == ends_with(s@, p@),
{
    if p.len() > s.len() {
        return false;
    }
    occurs_at_exec(s, p, s.len() - p.len())
}

// ───────────────────────── trimming ─────────────────────────

/// The Unicode `White_Space` property, which `char::is_whitespace` tests.
pub open spec fn is_white_space(c: char) -> bool {
    ||| ('\u{9}' <= c && c <= '\u{d}')
    ||| c == ' '
    ||| c == '\u{85}'
    ||| c == '\u{a0}'
    ||| c == '\u{1680}'
    ||| ('\u{2000}' <= c && c <= '\u{200a}')
    ||| c == '\u{2028}'
    ||| c == '\u{2029}'
    ||| c == '\u{202f}'
    ||| c == '\u{205f}'
    ||| c == '\u{3000}'
}

pub fn is_white_space_exec(c: char) -> (r: bool)
    ensures
        r == is_white_space(c),
{
    ('\u{9}' <= c && c <= '\u{d}') || c == ' ' || c == '\u{85}' || c == '\u{a0}' || c == '\u{1680}'
        || ('\u{2000}' <= c && c <= '\u{200a}') || c == '\u{2028}' || c == '\u{2029}' || c
        == '\u{202f}' || c == '\u{205f}' || c == '\u{3000}'
}

/// Which characters a trim removes.
pub enum StripSet {
    WhiteSpace,
    Char(char),
}

/// Whether a trim with `set` removes `c`.
pub open spec fn strips(set: StripSet, c: char) -> bool {
    match set {
        StripSet::WhiteSpace => is_white_space(c),
        StripSet::Char(x) => c == x,
    }
}

/// The number of leading characters of `s` that `set` removes.
pub open spec fn leading_count(s: Seq<char>, set: StripSet) -> nat
    decreases s.len(),
{
    if s.len() > 0 && strips(set, s[0]) {
        1 + leading_count(s.drop_first(), set)
    } else {
        0
    }
}

/// The number of trailing characters of `s` that `set` removes.
pub open spec fn trailing_count(s: Seq<char>, set: StripSet) -> nat
    decreases s.len(),
{
    if s.len() > 0 && strips(set, s.last()) {
        1 + trailing_count(s.drop_last(), set)
    } else {
        0
    }
}

/// `s` without its leading and trailing characters that `set` removes.
pub open spec fn trim_by(s: Seq<char>, set: StripSet) -> Seq<char> {
    let t = s.skip(leading_count(s, set) as int);
    t.take(t.len() - trailing_count(t, set))
}

/// `str::trim`.
pub open spec fn trim(s: Seq<char>) -> Seq<char> {
    trim_by(s, StripSet::WhiteSpace)
}

/// `str::trim_matches` with a single character.
pub open spec fn trim_char(s: Seq<char>, c: char) -> Seq<char> {
    trim_by(s, StripSet::Char(c))
}

/// `str::trim_start_matches` with a single character.
pub open spec fn trim_start_char(s: Seq<char>, c: char) -> Seq<char> {
    s.skip(leading_count(s, StripSet::Char(c)) as int)
}

pub proof fn lemma_leading_count(s: Seq<char>, set: StripSet, i: int)
    requires
        0 <= i <= s.len(),
        forall|j: int| 0 <= j < i ==> strips(set, #[trigger] s[j]),
        i == s.len() || !strips(set, s[i]),
    ensures
        leading_count(s, set) == i,
    decreases i,
{
    if i > 0 {
        assert forall|j: int| 0 <= j < i - 1 implies strips(set, #[trigger] s.drop_first()[j]) by {
            assert(s.drop_first()[j] == s[j + 1]);
        }
        lemma_leading_count(s.drop_first(), set, i - 1);
    }
}

pub proof fn lemma_trailing_count(s: Seq<char>, set: StripSet, i: int)
    requires
        0 <= i <= s.len(),
        forall|j: int| s.len() - i <= j < s.len() ==> strips(set, #[trigger] s[j]),
        i == s.len() || !strips(set, s[s.len() - 1 - i]),
    ensures
        trailing_count(s, set) == i,
    decreases i,
{
    if i > 0 {
        let t = s.drop_last();
        assert forall|j: int| t.len() - (i - 1) <= j < t.len() implies strips(set, #[trigger] t[j]) by {
            assert(t[j] == s[j]);
        }
        if i - 1 < t.len() {
            assert(t[t.len() - 1 - (i - 1)] == s[s.len() - 1 - i]);
        }
        lemma_trailing_count(t, set, i - 1);
    }
}

/// Start and end of `cs` once leading and trailing characters selected by `strip` are cut.
pub fn trim_bounds_ws(cs: &Vec<char>) -> (r: (usize, usize))
    ensures
        r.0 <= r.1 <= cs@.len(),
        cs@.subrange(r.0 as int, r.1 as int) == trim(cs@),
{
    let ghost set = StripSet::WhiteSpace;
    let mut a: usize = 0;
    while a < cs.len() && is_white_space_exec(cs[a])
        invariant
            a <= cs@.len(),
            set == StripSet::WhiteSpace,
            forall|j: int| 0 <= j < a ==> strips(set, #[trigger] cs@[j]),
        decreases cs@.len() - a,
    {
        assert(strips(set, cs@[a as int]));
        a += 1;
    }
    proof {
        lemma_leading_count(cs@, set, a as int);
    }
    let mut b: usize = cs.len();
    while b > a && is_white_space_exec(cs[b - 1])
        invariant
            a <= b <= cs@.len(),
            set == StripSet::WhiteSpace,
            forall|j: int| b <= j < cs@.len() ==> strips(set, #[trigger] cs@[j]),
        decreases b,
    {
        assert(strips(set, cs@[b - 1]));
        b -= 1;
    }
    proof {
        let t = cs@.skip(a as int);
        assert forall|j: int| t.len() - (cs@.len() - b) <= j < t.len() implies strips(set, #[trigger] t[j]) by {
            assert(t[j] == cs@[j + a]);
        }
        if cs@.len() - b < t.len() {
            assert(t[t.len() - 1 - (cs@.len() - b)] == cs@[b - 1]);
        }
        lemma_trailing_count(t, set, cs@.len() - b);
        assert(cs@.subrange(a as int, b as int) =~= t.take(t.len() - (cs@.len() - b)));
    }
    (a, b)
}

/// `str::trim`, as a fresh string.
pub fn trim_str(s: &str) -> (r: String)
    ensures
        r@ == trim(s@),
{
    let cs = chars_of(s);
    let (a, b) = trim_bounds_ws(&cs);
    string_from_range(&cs, a, b)
}

/// Start and end of `cs` once leading and trailing `c` are cut.
pub fn trim_bounds_char(cs: &Vec<char>, c: char) -> (r: (usize, usize))
    ensures
        r.0 <= r.1 <= cs@.len(),
        cs@.subrange(r.0 as int, r.1 as int) == trim_char(cs@, c),
        cs@.subrange(r.0 as int, cs@.len() as int) == trim_start_char(cs@, c),
{
    let ghost set = StripSet::Char(c);
    let mut a: usize = 0;
    while a < cs.len() && cs[a] == c
        invariant
            a <= cs@.len(),
            set == StripSet::Char(c),
            forall|j: int| 0 <= j < a ==> strips(set, #[trigger] cs@[j]),
        decreases cs@.len() - a,
    {
        assert(strips(set, cs@[a as int]));
        a += 1;
    }
    proof {
        lemma_leading_count(cs@, set, a as int);
    }
    let mut b: usize = cs.len();
    while b > a && cs[b - 1] == c
        invariant
            a <= b <= cs@.len(),
            set == StripSet::Char(c),
            forall|j: int| b <= j < cs@.len() ==> strips(set, #[trigger] cs@[j]),
        decreases b,
    {
        assert(strips(set, cs@[b - 1]));
        b -= 1;
    }
    proof {
        let t = cs@.skip(a as int);
        assert forall|j: int| t.len() - (cs@.len() - b) <= j < t.len() implies strips(set, #[trigger] t[j]) by {
            assert(t[j] == cs@[j + a]);
        }
        if cs@.len() - b < t.len() {
            assert(t[t.len() - 1 - (cs@.len() - b)] == cs@[b - 1]);
        }
        lemma_trailing_count(t, set, cs@.len() - b);
        assert(cs@.subrange(a as int, b as int) =~= t.take(t.len() - (cs@.len() - b)));
        assert(cs@.subrange(a as int, cs@.len() as int) =~= t);
    }
    (a, b)
}

/// `str::trim_matches(c)`, as a fresh string.
pub fn trim_char_str(s: &str, c: char) -> (r: String)
    ensures
        r@ == trim_char(s@, c),
{
    let cs = chars_of(s);
    let (a, b) = trim_bounds_char(&cs, c);
    string_from_range(&cs, a, b)
}

// ───────────────────────── splitting ─────────────────────────

/// `str::split` with a non-empty string separator: the pieces between
/// successive leftmost occurrences of `sep`.
pub open spec fn split_nonempty(s: Seq<char>, sep: Seq<char>) -> Seq<Seq<char>>
    recommends
        sep.len() > 0,
    decreases s.len(),
{
    let i = first_occurrence(s, sep, 0);
    if sep.len() == 0 || i < 0 || i + sep.len() > s.len() {
        seq![s]
    } else {
        seq![s.take(i)] + split_nonempty(s.skip(i + sep.len()), sep)
    }
}

/// `str::split` with a string separator. An empty separator yields an empty
/// piece, then each character, then another empty piece.
pub open spec fn split_pieces(s: Seq<char>, sep: Seq<char>) -> Seq<Seq<char>> {
    if sep.len() == 0 {
        seq![Seq::<char>::empty()] + s.map_values(|c: char| seq![c]) + seq![Seq::<char>::empty()]
    } else {
        split_nonempty(s, sep)
    }
}

/// `str::split_once` with a single character.
pub open spec fn split_once_char(s: Seq<char>, c: char) -> Option<(Seq<char>, Seq<char>)> {
    let i = first_occurrence(s, seq![c], 0);
    if i < 0 {
        None
    } else {
        Some((s.take(i), s.skip(i + 1)))
    }
}

/// `str::lines`: split at `\n`, dropping one `\r` right before it, with no
/// piece after a final line ending.
pub open spec fn lines(s: Seq<char>) -> Seq<Seq<char>>
    decreases s.len(),
{
    let i = first_occurrence(s, seq!['\n'], 0);
    if s.len() == 0 {
        seq![]
    } else if i < 0 || i >= s.len() {
        seq![s]
    } else {
        seq![strip_cr(s.take(i))] + lines(s.skip(i + 1))
    }
}

/// `s` without one trailing `\r`.
pub open spec fn strip_cr(s: Seq<char>) -> Seq<char> {
    if s.len() > 0 && s.last() == '\r' {
        s.drop_last()
    } else {
        s
    }
}

/// The pieces of `cs[from..]` split at `sep` (non-empty), as strings.
pub fn split_nonempty_from(cs: &Vec<char>, sep: &Vec<char>) -> (r: Vec<String>)
    requires
        sep@.len() > 0,
    ensures
        r@.len() == split_nonempty(cs@, sep@).len(),
        forall|k: int| 0 <= k < r@.len() ==> #[trigger] r@[k]@ == split_nonempty(cs@, sep@)[k],
{
    let mut out: Vec<String> = Vec::new();
    let mut start: usize = 0;
    assert(cs@.skip(0) =~= cs@);
    loop
        invariant
            start <= cs@.len(),
            sep@.len() > 0,
            ({
                let rest = split_nonempty(cs@.skip(start as int), sep@);
                let all = split_nonempty(cs@, sep@);
                &&& all.len() == out@.len() + rest.len()
                &&& forall|k: int| 0 <= k < out@.len() ==> #[trigger] out@[k]@ == all[k]
                &&& forall|k: int| 0 <= k < rest.len() ==> #[trigger] rest[k] == all[out@.len() + k]
            }),
        decreases cs@.len() - start,
    {
        let ghost rest_s = cs@.skip(start as int);
        let found = find_from(cs, sep, start);
        proof {
            lemma_first_occurrence(cs@, sep@, start as int);
            lemma_first_occurrence(rest_s, sep@, 0);
            lemma_shifted_first(cs@, sep@, start as int);
        }
        match found {
            None => {
                let piece = string_from_range(cs, start, cs.len());
                let ghost n = out@.len();
                proof {
                    let all = split_nonempty(cs@, sep@);
                    let rest = split_nonempty(rest_s, sep@);
                    assert(rest == seq![rest_s]);
                    assert(rest.len() == 1);
                    assert(rest[0] == all[n as int]);
                    assert(piece@ =~= rest_s);
                }
                out.push(piece);
                proof {
                    let all = split_nonempty(cs@, sep@);
                    assert(out@[n as int]@ == all[n as int]);
                    assert forall|k: int| 0 <= k < out@.len() implies #[trigger] out@[k]@ == all[k] by {
                        if k < n {
                        }
                    }
                }
                return out;
            },
            Some(i) => {
                let piece = string_from_range(cs, start, i);
                proof {
                    let j = i - start;
                    assert(first_occurrence(rest_s, sep@, 0) == j);
                    assert(piece@ =~= rest_s.take(j));
                    assert(rest_s.skip(j + sep@.len()) =~= cs@.skip(i + sep@.len()));
                    let rest = split_nonempty(rest_s, sep@);
                    assert(rest == seq![rest_s.take(j)] + split_nonempty(
                        cs@.skip(i + sep@.len()),
                        sep@,
                    ));
                    assert(rest[0] == piece@);
                    let nrest = split_nonempty(cs@.skip(i + sep@.len()), sep@);
                    assert(rest.len() == nrest.len() + 1);
                    assert(occurs_at(cs@, sep@, i as int));
                    assert forall|k: int| 0 <= k < nrest.len() implies #[trigger] nrest[k] == rest[k + 1] by {}
                }
                assert(i + sep@.len() <= cs.len());
                out.push(piece);
                start = i + sep.len();
            },
        }
    }
}

/// The first occurrence in a suffix is the shifted first occurrence at or after its start.
pub proof fn lemma_shifted_first(s: Seq<char>, needle: Seq<char>, start: int)
    requires
        0 <= start <= s.len(),
    ensures
        ({
            let r = first_occurrence(s, needle, start);
            let q = first_occurrence(s.skip(start), needle, 0);
            (r == -1 <==> q == -1) && (r != -1 ==> q == r - start)
        }),
{
    let t = s.skip(start);
    lemma_first_occurrence(s, needle, start);
    lemma_first_occurrence(t, needle, 0);
    assert forall|j: int| 0 <= j implies occurs_at(t, needle, j) == occurs_at(s, needle, j + start) by {
        if 0 <= j && j + needle.len() <= t.len() {
            assert(t.subrange(j, j + needle.len()) =~= s.subrange(j + start, j + start + needle.len()));
        }
    }
    let r = first_occurrence(s, needle, start);
    let q = first_occurrence(t, needle, 0);
    if r != -1 {
        assert(occurs_at(t, needle, r - start));
        if q != -1 && q < r - start {
            assert(occurs_at(s, needle, q + start));
        }
    }
    if q != -1 {
        assert(occurs_at(s, needle, q + start));
    }
}

/// `str::split` with a string separator, as strings.
pub fn split_str(s: &str, sep: &str) -> (r: Vec<String>)
    ensures
        r@.len() == split_pieces(s@, sep@).len(),
        forall|k: int| 0 <= k < r@.len() ==> #[trigger] r@[k]@ == split_pieces(s@, sep@)[k],
{
    let cs = chars_of(s);
    let sp = chars_of(sep);
    if sp.len() == 0 {
        let mut out: Vec<String> = Vec::new();
        out.push(String::new());
        let mut i: usize = 0;
        while i < cs.len()
            invariant
                i <= cs@.len(),
                cs@ == s@,
                out@.len() == i + 1,
                out@[0]@ == Seq::<char>::empty(),
                forall|k: int| 1 <= k <= i ==> #[trigger] out@[k]@ == seq![cs@[k - 1]],
            decreases cs@.len() - i,
        {
            out.push(string_from_range(&cs, i, i + 1));
            proof {
                assert(cs@.subrange(i as int, i + 1) =~= seq![cs@[i as int]]);
            }
            i += 1;
        }
        out.push(String::new());
        proof {
            let spec_r = split_pieces(s@, sep@);
            assert(spec_r.len() == out@.len());
            assert forall|k: int| 0 <= k < out@.len() implies #[trigger] out@[k]@ == spec_r[k] by {
                if k == 0 {
                } else if k <= i {
                    assert(spec_r[k] == s@.map_values(|c: char| seq![c])[k - 1]);
                } else {
                }
            }
        }
        out
    } else {
        split_nonempty_from(&cs, &sp)
    }
}

/// `str::lines`, as strings.
pub fn lines_of(s: &str) -> (r: Vec<String>)
    ensures
        r@.len() == lines(s@).len(),
        forall|k: int| 0 <= k < r@.len() ==> #[trigger] r@[k]@ == lines(s@)[k],
{
    let cs = chars_of(s);
    let nl: Vec<char> = vec!['\n'];
    let mut out: Vec<String> = Vec::new();
    let mut start: usize = 0;
    assert(cs@.skip(0) =~= cs@);
    while start < cs.len()
        invariant
            start <= cs@.len(),
            cs@ == s@,
            nl@ == seq!['\n'],
            ({
                let rest = lines(cs@.skip(start as int));
                let all = lines(cs@);
                &&& all.len() == out@.len() + rest.len()
                &&& forall|k: int| 0 <= k < out@.len() ==> #[trigger] out@[k]@ == all[k]
                &&& forall|k: int| 0 <= k < rest.len() ==> #[trigger] rest[k] == all[out@.len() + k]
            }),
        decreases cs@.len() - start,
    {
        let ghost rest_s = cs@.skip(start as int);
        let found = find_from(&cs, &nl, start);
        proof {
            lemma_first_occurrence(cs@, nl@, start as int);
            lemma_shifted_first(cs@, nl@, start as int);
        }
        match found {
            None => {
                let piece = string_from_range(&cs, start, cs.len());
                let ghost n = out@.len();
                proof {
                    let rest = lines(rest_s);
                    assert(first_occurrence(rest_s, nl@, 0) == -1);
                    assert(rest == seq![rest_s]);
                    assert(rest[0] == lines(cs@)[n as int]);
                    assert(piece@ =~= rest_s);
                    assert(lines(cs@.skip(cs@.len() as int)) =~= Seq::<Seq<char>>::empty()) by {
                        assert(cs@.skip(cs@.len() as int).len() == 0);
                    }
                }
                out.push(piece);
                start = cs.len();
                proof {
                    assert(lines(cs@.skip(start as int)).len() == 0) by {
                        assert(cs@.skip(start as int).len() == 0);
                    }
                    let all = lines(cs@);
                    assert(out@[n as int]@ == all[n as int]);
                    assert forall|k: int| 0 <= k < out@.len() implies #[trigger] out@[k]@ == all[k] by {
                        if k < n {
                        }
                    }
                }
            },
            Some(i) => {
                let end = if i > start && cs[i - 1] == '\r' {
                    i - 1
                } else {
                    i
                };
                let piece = string_from_range(&cs, start, end);
                proof {
                    let j = i - start;
                    assert(first_occurrence(rest_s, nl@, 0) == j);
                    assert(rest_s.take(j) =~= cs@.subrange(start as int, i as int));
                    assert(piece@ =~= strip_cr(rest_s.take(j)));
                    assert(rest_s.skip(j + 1) =~= cs@.skip(i + 1));
                    let rest = lines(rest_s);
                    let nrest = lines(cs@.skip(i + 1));
                    assert(rest_s.len() > 0);
                    assert(rest == seq![strip_cr(rest_s.take(j))] + nrest);
                    assert(rest.len() == nrest.len() + 1);
                    assert(rest[0] == lines(cs@)[out@.len() as int]);
                    assert forall|k: int| 0 <= k < nrest.len() implies #[trigger] nrest[k] == rest[k + 1] by {}
                }
                let ghost n = out@.len();
                out.push(piece);
                start = i + 1;
                proof {
                    let all = lines(cs@);
                    assert(out@[n as int]@ == all[n as int]);
                    assert forall|k: int| 0 <= k < out@.len() implies #[trigger] out@[k]@ == all[k] by {
                        if k < n {
                        }
                    }
                    let nrest = lines(cs@.skip(start as int));
                    let rest = lines(rest_s);
                    assert forall|k: int| 0 <= k < nrest.len() implies #[trigger] nrest[k] == all[out@.len() + k] by {
                        assert(nrest[k] == rest[k + 1]);
                    }
                }
            },
        }
    }
    proof {
        assert(cs@.skip(start as int).len() == 0);
        assert(lines(cs@.skip(start as int)).len() == 0);
    }
    out
}

/// `str::split_once` with a single character.
pub fn split_once_str(s: &str, c: char) -> (r: Option<(String, String)>)
    ensures
        match r {
            Some((a, b)) => split_once_char(s@, c) == Some((a@, b@)),
            None => split_once_char(s@, c) is None,
        },
{
    let cs = chars_of(s);
    let needle: Vec<char> = vec![c];
    assert(needle@ =~= seq![c]);
    match find_from(&cs, &needle, 0) {
        None => None,
        Some(i) => {
            proof {
                lemma_first_occurrence(cs@, needle@, 0);
                assert(occurs_at(cs@, needle@, i as int));
                assert(i + 1 <= cs.len());
            }
            let a = string_from_range(&cs, 0, i);
            let b = string_from_range(&cs, i + 1, cs.len());
            proof {
                assert(needle@ == seq![c]);
                assert(a@ =~= s@.take(i as int));
                assert(b@ =~= s@.skip(i + 1));
            }
            Some((a, b))
        },
    }
}

// ───────────────────────── decimal numbers ─────────────────────────

pub open spec fn is_digit(c: char) -> bool {
    '0' <= c && c <= '9'
}

pub open spec fn digit_value(c: char) -> int {
    (c as int) - ('0' as int)
}

pub open spec fn all_digits(s: Seq<char>) -> bool {
    forall|i: int| 0 <= i < s.len() ==> is_digit(#[trigger] s[i])
}

/// The value of a run of decimal digits.
pub open spec fn digits_value(s: Seq<char>) -> nat
    decreases s.len(),
{
    if s.len() == 0 {
        0
    } else {
        (10 * digits_value(s.drop_last()) + digit_value(s.last())) as nat
    }
}

/// `<u32 as FromStr>::from_str`: an optional `+`, then one or more decimal
/// digits whose value fits in `u32`.
pub open spec fn parse_u32_spec(s: Seq<char>) -> Option<u32> {
    let body = if s.len() > 0 && s[0] == '+' {
        s.drop_first()
    } else {
        s
    };
    if body.len() > 0 && all_digits(body) && digits_value(body) <= u32::MAX {
        Some(digits_value(body) as u32)
    } else {
        None
    }
}

/// `<i32 as FromStr>::from_str`: an optional `+` or `-`, then one or more
/// decimal digits whose signed value fits in `i32`.
pub open spec fn parse_i32_spec(s: Seq<char>) -> Option<i32> {
    let negative = s.len() > 0 && s[0] == '-';
    let body = if s.len() > 0 && (s[0] == '+' || s[0] == '-') {
        s.drop_first()
    } else {
        s
    };
    if body.len() > 0 && all_digits(body) {
        if negative && digits_value(body) <= 0x8000_0000 {
            Some((0 - digits_value(body)) as i32)
        } else if !negative && digits_value(body) <= 0x7fff_ffff {
            Some(digits_value(body) as i32)
        } else {
            None
        }
    } else {
        None
    }
}

pub proof fn lemma_digits_value_prefix_le(s: Seq<char>, i: int)
    requires
        0 <= i <= s.len(),
        all_digits(s),
    ensures
        digits_value(s.take(i)) <= digits_value(s),
    decreases s.len() - i,
{
    if i < s.len() {
        lemma_digits_value_prefix_le(s, i + 1);
        assert(s.take(i + 1).drop_last() =~= s.take(i));
        assert(is_digit(s[i]));
    } else {
        assert(s.take(i) =~= s);
    }
}

/// The value of the decimal digits of `cs[from..]`, if it is non-empty, all
/// digits, and at most `bound`.
pub fn parse_digits(cs: &Vec<char>, from: usize, bound: u64) -> (r: Option<u64>)
    requires
        from <= cs@.len(),
        bound < 0x1_0000_0000_0000,
    ensures
        ({
            let body = cs@.skip(from as int);
            match r {
                Some(v) => body.len() > 0 && all_digits(body) && v == digits_value(body) && v <= bound,
                None => !(body.len() > 0 && all_digits(body) && digits_value(body) <= bound),
            }
        }),
{
    let ghost body = cs@.skip(from as int);
    if from == cs.len() {
        return None;
    }
    let mut acc: u64 = 0;
    let mut i = from;
    while i < cs.len()
        invariant
            from <= i <= cs@.len(),
            body == cs@.skip(from as int),
            bound < 0x1_0000_0000_0000,
            all_digits(cs@.subrange(from as int, i as int)),
            acc == digits_value(cs@.subrange(from as int, i as int)),
            acc <= bound,
        decreases cs@.len() - i,
    {
        let c = cs[i];
        if !('0' <= c && c <= '9') {
            proof {
                assert(body[i - from] == c);
            }
            return None;
        }
        let d = (c as u64) - ('0' as u64);
        let next = acc * 10 + d;
        proof {
            assert(cs@.subrange(from as int, i + 1).drop_last() =~= cs@.subrange(from as int, i as int));
            assert(all_digits(cs@.subrange(from as int, i + 1)));
        }
        if next > bound {
            proof {
                assert(all_digits(body) ==> digits_value(body) > bound) by {
                    if all_digits(body) {
                        assert(body.take(i + 1 - from) =~= cs@.subrange(from as int, i + 1));
                        lemma_digits_value_prefix_le(body, i + 1 - from);
                    }
                }
            }
            return None;
        }
        acc = next;
        i += 1;
    }
    proof {
        assert(cs@.subrange(from as int, i as int) =~= body);
    }
    Some(acc)
}

/// `s.parse::<u32>()`, as an `Option`.
pub fn parse_u32(s: &str) -> (r: Option<u32>)
    ensures
        r == parse_u32_spec(s@),
{
    let cs = chars_of(s);
    let from: usize = if cs.len() > 0 && cs[0] == '+' {
        1
    } else {
        0
    };
    proof {
        if from == 1 {
            assert(cs@.skip(1) =~= cs@.drop_first());
        } else {
            assert(cs@.skip(0) =~= cs@);
        }
    }
    match parse_digits(&cs, from, 0xffff_ffff) {
        Some(v) => Some(v as u32),
        None => None,
    }
}

/// `s.parse::<i32>()`, as an `Option`.
pub fn parse_i32(s: &str) -> (r: Option<i32>)
    ensures
        r == parse_i32_spec(s@),
{
    let cs = chars_of(s);
    let negative = cs.len() > 0 && cs[0] == '-';
    let from: usize = if cs.len() > 0 && (cs[0] == '+' || cs[0] == '-') {
        1
    } else {
        0
    };
    proof {
        if from == 1 {
            assert(cs@.skip(1) =~= cs@.drop_first());
        } else {
            assert(cs@.skip(0) =~= cs@);
        }
    }
    if negative {
        match parse_digits(&cs, from, 0x8000_0000) {
            Some(v) => {
                let m = v as i64;
                Some((0 - m) as i32)
            },
            None => {
                proof {
                    let body = cs@.skip(from as int);
                    assert(!(body.len() > 0 && all_digits(body) && digits_value(body) <= 0x8000_0000));
                }
                None
            },
        }
    } else {
        match parse_digits(&cs, from, 0x7fff_ffff) {
            Some(v) => Some(v as i32),
            None => None,
        }
    }
}

pub open spec fn digit_char(d: int) -> char {
    ((d + ('0' as int)) as u32) as char
}

/// The decimal representation of `n`, as `Display` writes it for an unsigned integer.
pub open spec fn decimal(n: nat) -> Seq<char>
    decreases n,
{
    if n < 10 {
        seq![digit_char(n as int)]
    } else {
        decimal(n / 10).push(digit_char((n % 10) as int))
    }
}

/// `n.to_string()` for an unsigned integer.
pub fn u64_to_decimal(n: u64) -> (r: String)
    ensures
        r@ == decimal(n as nat),
    decreases n,
{
    let d: u8 = (n % 10) as u8;
    let c: char = (48u8 + d) as char;
    if n < 10 {
        let mut s = String::new();
        push_char(&mut s, c);
        s
    } else {
        let mut s = u64_to_decimal(n / 10);
        push_char(&mut s, c);
        s
    }
}

/// The decimal representation of a signed integer, as `Display` writes it.
pub open spec fn signed_decimal(i: int) -> Seq<char> {
    if i < 0 {
        seq!['-'] + decimal((-i) as nat)
    } else {
        decimal(i as nat)
    }
}

/// `i.to_string()` for an `i32`.
pub fn i32_to_decimal(i: i32) -> (r: String)
    ensures
        r@ == signed_decimal(i as int),
{
    if i < 0 {
        let m: u64 = (0i64 - i as i64) as u64;
        let mut r = String::new();
        push_char(&mut r, '-');
        let d = u64_to_decimal(m);
        r.append(d.as_str());
        proof {
            assert(r@ =~= seq!['-'] + decimal((-(i as int)) as nat));
        }
        r
    } else {
        u64_to_decimal(i as u64)
    }
}

/// `n.to_string()` for a `usize`.
pub fn usize_to_decimal(n: usize) -> (r: String)
    ensures
        r@ == decimal(n as nat),
{
    u64_to_decimal(n as u64)
}

// ───────────────────────── UTF-8 byte lengths ─────────────────────────

/// The number of bytes UTF-8 spends on `c`.
pub open spec fn utf8_width(c: char) -> nat {
    if (c as u32) < 0x80 {
        1
    } else if (c as u32) < 0x800 {
        2
    } else if (c as u32) < 0x10000 {
        3
    } else {
        4
    }
}

/// The number of bytes in the UTF-8 encoding of `s` (`str::len`).
pub open spec fn utf8_len(s: Seq<char>) -> nat
    decreases s.len(),
{
    if s.len() == 0 {
        0
    } else {
        utf8_width(s[0]) + utf8_len(s.drop_first())
    }
}

/// `utf8_len` is the length of vstd's UTF-8 encoding of the characters.
pub proof fn lemma_utf8_len_is_encoding_len(s: Seq<char>)
    ensures
        vstd::utf8::encode_utf8(s).len() == utf8_len(s),
    decreases s.len(),
{
    if s.len() > 0 {
        vstd::utf8::char_is_scalar(s[0]);
        lemma_utf8_len_is_encoding_len(s.drop_first());
    }
}

/// Byte lengths add up over concatenation.
pub proof fn lemma_utf8_len_concat(a: Seq<char>, b: Seq<char>)
    ensures
        utf8_len(a + b) == utf8_len(a) + utf8_len(b),
    decreases a.len(),
{
    if a.len() > 0 {
        assert((a + b).drop_first() =~= a.drop_first() + b);
        lemma_utf8_len_concat(a.drop_first(), b);
    } else {
        assert(a + b =~= b);
    }
}

/// The byte length of one more character of a prefix.
pub proof fn lemma_utf8_len_take_step(s: Seq<char>, k: int)
    requires
        0 <= k < s.len(),
    ensures
        utf8_len(s.take(k + 1)) == utf8_len(s.take(k)) + utf8_width(s[k]),
{
    assert(s.take(k + 1) =~= s.take(k) + seq![s[k]]);
    lemma_utf8_len_concat(s.take(k), seq![s[k]]);
    assert(seq![s[k]].drop_first() =~= Seq::<char>::empty());
    assert(utf8_len(Seq::<char>::empty()) == 0);
    assert(utf8_len(seq![s[k]]) == utf8_width(s[k]) + utf8_len(seq![s[k]].drop_first()));
}

/// Longer prefixes never have fewer bytes.
pub proof fn lemma_utf8_len_take_mono(s: Seq<char>, j: int, k: int)
    requires
        0 <= j <= k <= s.len(),
    ensures
        utf8_len(s.take(j)) <= utf8_len(s.take(k)),
        j < k ==> utf8_len(s.take(j)) < utf8_len(s.take(k)),
    decreases k - j,
{
    if j < k {
        lemma_utf8_len_take_mono(s, j, k - 1);
        lemma_utf8_len_take_step(s, k - 1);
    }
}

/// The UTF-8 byte length of a string (`str::len`).
pub fn byte_len(s: &str) -> (r: usize)
    ensures
        r == utf8_len(s@),
{
    proof {
        lemma_utf8_len_is_encoding_len(s@);
    }
    let bytes = s.as_bytes();
    bytes.len()
}

pub fn utf8_width_exec(c: char) -> (r: usize)
    ensures
        r == utf8_width(c),
{
    let u = c as u32;
    if u < 0x80 {
        1
    } else if u < 0x800 {
        2
    } else if u < 0x10000 {
        3
    } else {
        4
    }
}

// ───────────────────────── ordering and sorted sets of strings ─────────────────────────

/// Lexicographic order on characters by code point — the order of `String`,
/// whose byte-wise comparison of UTF-8 agrees with code point order.
pub open spec fn seq_lt(a: Seq<char>, b: Seq<char>) -> bool
    decreases a.len(),
{
    if a.len() == 0 {
        b.len() > 0
    } else if b.len() == 0 {
        false
    } else if a[0] != b[0] {
        a[0] < b[0]
    } else {
        seq_lt(a.drop_first(), b.drop_first())
    }
}

pub proof fn lemma_seq_lt_trans(a: Seq<char>, b: Seq<char>, c: Seq<char>)
    requires
        seq_lt(a, b),
        seq_lt(b, c),
    ensures
        seq_lt(a, c),
    decreases a.len(),
{
    if a.len() > 0 && b.len() > 0 && c.len() > 0 && a[0] == b[0] && b[0] == c[0] {
        lemma_seq_lt_trans(a.drop_first(), b.drop_first(), c.drop_first());
    }
}

pub proof fn lemma_seq_lt_total(a: Seq<char>, b: Seq<char>)
    ensures
        a == b || seq_lt(a, b) || seq_lt(b, a),
    decreases a.len(),
{
    if a.len() > 0 && b.len() > 0 && a[0] == b[0] {
        lemma_seq_lt_total(a.drop_first(), b.drop_first());
        if a.drop_first() == b.drop_first() {
            assert(a =~= seq![a[0]] + a.drop_first());
            assert(b =~= seq![b[0]] + b.drop_first());
        }
    } else if a.len() == 0 && b.len() == 0 {
        assert(a =~= b);
    }
}

pub proof fn lemma_seq_lt_irrefl(a: Seq<char>)
    ensures
        !seq_lt(a, a),
    decreases a.len(),
{
    if a.len() > 0 {
        lemma_seq_lt_irrefl(a.drop_first());
    }
}

/// `a < b` for strings.
pub fn str_lt(a: &Vec<char>, b: &Vec<char>) -> (r: bool)
    ensures
        r == seq_lt(a@, b@),
{
    let mut i: usize = 0;
    assert(a@.skip(0) =~= a@);
    assert(b@.skip(0) =~= b@);
    while i < a.len() && i < b.len() && a[i] == b[i]
        invariant
            i <= a@.len(),
            i <= b@.len(),
            seq_lt(a@, b@) == seq_lt(a@.skip(i as int), b@.skip(i as int)),
        decreases a@.len() - i,
    {
        proof {
            assert(a@.skip(i as int)[0] == a@[i as int]);
            assert(b@.skip(i as int)[0] == b@[i as int]);
            assert(a@.skip(i as int).drop_first() =~= a@.skip(i + 1));
            assert(b@.skip(i as int).drop_first() =~= b@.skip(i + 1));
        }
        i += 1;
    }
    proof {
        if i < a@.len() {
            assert(a@.skip(i as int)[0] == a@[i as int]);
        }
        if i < b@.len() {
            assert(b@.skip(i as int)[0] == b@[i as int]);
        }
    }
    if i == a.len() {
        i < b.len()
    } else if i == b.len() {
        false
    } else {
        a[i] < b[i]
    }
}

/// The views of a vector of strings.
pub open spec fn views(v: Seq<String>) -> Seq<Seq<char>> {
    v.map_values(|s: String| s@)
}

/// Strictly increasing, hence free of repeats.
pub open spec fn strictly_sorted(v: Seq<Seq<char>>) -> bool {
    forall|i: int, j: int| 0 <= i < j < v.len() ==> seq_lt(v[i], v[j])
}

/// Inserts `s` into a strictly sorted vector unless an equal string is already there.
pub fn insert_sorted_unique(v: &mut Vec<String>, s: String)
    requires
        strictly_sorted(views(old(v)@)),
    ensures
        strictly_sorted(views(final(v)@)),
        views(final(v)@).to_set() == views(old(v)@).to_set().insert(s@),
{
    let sc = chars_of(s.as_str());
    let ghost old_views = views(v@);
    let mut i: usize = 0;
    loop
        invariant
            i <= v@.len(),
            sc@ == s@,
            v@ == old(v)@,
            old_views == views(v@),
            strictly_sorted(old_views),
            forall|k: int| 0 <= k < i ==> seq_lt(#[trigger] old_views[k], s@),
        ensures
            i <= v@.len(),
            v@ == old(v)@,
            i < v@.len() ==> seq_lt(s@, old_views[i as int]),
            forall|k: int| 0 <= k < i ==> seq_lt(#[trigger] old_views[k], s@),
        decreases v@.len() - i,
    {
        if i == v.len() {
            break;
        }
        let vi = chars_of(v[i].as_str());
        if chars_equal(&vi, &sc) {
            proof {
                assert(views(v@).to_set() =~= views(v@).to_set().insert(s@)) by {
                    assert(views(v@)[i as int] == s@);
                }
            }
            return;
        }
        if str_lt(&sc, &vi) {
            break;
        }
        proof {
            lemma_seq_lt_total(vi@, sc@);
        }
        i += 1;
    }
    proof {
        assert forall|k: int| i <= k < old_views.len() implies seq_lt(s@, #[trigger] old_views[k]) by {
            if k > i {
                assert(seq_lt(old_views[i as int], old_views[k]));
                lemma_seq_lt_trans(s@, old_views[i as int], old_views[k]);
            }
        }
    }
    v.insert(i, s);
    proof {
        let nv = views(v@);
        assert(nv =~= old_views.insert(i as int, s@));
        assert forall|a: int, b: int| 0 <= a < b < nv.len() implies seq_lt(nv[a], nv[b]) by {
            if a < i && b > i {
                lemma_seq_lt_trans(nv[a], s@, nv[b]);
            }
        }
        assert(nv.to_set() =~= old_views.to_set().insert(s@)) by {
            assert forall|x: Seq<char>| nv.to_set().contains(x) implies old_views.to_set().insert(s@).contains(x) by {
                let k = choose|k: int| 0 <= k < nv.len() && nv[k] == x;
                if k < i {
                    assert(old_views[k] == x);
                } else if k > i {
                    assert(old_views[k - 1] == x);
                }
            }
            assert forall|x: Seq<char>| old_views.to_set().insert(s@).contains(x) implies nv.to_set().contains(x) by {
                if x == s@ {
                    assert(nv[i as int] == x);
                } else {
                    let k = choose|k: int| 0 <= k < old_views.len() && old_views[k] == x;
                    if k < i {
                        assert(nv[k] == x);
                    } else {
                        assert(nv[k + 1] == x);
                    }
                }
            }
        }
    }
}

/// The strictly increasing sequence that holds exactly the strings of `s`:
/// what sorting and deduplicating any listing of them gives.
pub open spec fn sorted_of(s: Set<Seq<char>>) -> Seq<Seq<char>> {
    choose|v: Seq<Seq<char>>| strictly_sorted(v) && #[trigger] v.to_set() == s
}

/// Two strictly increasing sequences with the same elements are the same sequence.
pub proof fn lemma_sorted_unique(a: Seq<Seq<char>>, b: Seq<Seq<char>>)
    requires
        strictly_sorted(a),
        strictly_sorted(b),
        a.to_set() == b.to_set(),
    ensures
        a == b,
    decreases a.len(),
{
    if a.len() == 0 {
        if b.len() > 0 {
            assert(b.to_set().contains(b[0]));
        }
        assert(a =~= b);
    } else {
        assert(a.to_set().contains(a[0]));
        if b.len() == 0 {
            assert(false);
        }
        assert(b.to_set().contains(b[0]));
        let j = choose|j: int| 0 <= j < b.len() && b[j] == a[0];
        let i = choose|i: int| 0 <= i < a.len() && a[i] == b[0];
        if a[0] != b[0] {
            assert(j > 0 && i > 0);
            assert(seq_lt(b[0], b[j]));
            assert(seq_lt(a[0], a[i]));
            lemma_seq_lt_trans(a[0], b[0], a[0]);
            lemma_seq_lt_irrefl(a[0]);
        }
        let ra = a.drop_first();
        let rb = b.drop_first();
        assert forall|x: Seq<char>| ra.to_set().contains(x) implies rb.to_set().contains(x) by {
            let k = choose|k: int| 0 <= k < ra.len() && ra[k] == x;
            assert(a[k + 1] == x);
            assert(seq_lt(a[0], x));
            assert(b.to_set().contains(x));
            let m = choose|m: int| 0 <= m < b.len() && b[m] == x;
            if m == 0 {
                lemma_seq_lt_irrefl(a[0]);
            }
            assert(rb[m - 1] == x);
        }
        assert forall|x: Seq<char>| rb.to_set().contains(x) implies ra.to_set().contains(x) by {
            let k = choose|k: int| 0 <= k < rb.len() && rb[k] == x;
            assert(b[k + 1] == x);
            assert(seq_lt(b[0], x));
            assert(a.to_set().contains(x));
            let m = choose|m: int| 0 <= m < a.len() && a[m] == x;
            if m == 0 {
                lemma_seq_lt_irrefl(b[0]);
            }
            assert(ra[m - 1] == x);
        }
        assert(ra.to_set() =~= rb.to_set());
        lemma_sorted_unique(ra, rb);
        assert(a =~= b) by {
            assert forall|k: int| 0 <= k < a.len() implies a[k] == b[k] by {
                if k > 0 {
                    assert(a[k] == ra[k - 1]);
                    assert(b[k] == rb[k - 1]);
                }
            }
        }
    }
}

/// A finite non-empty set of strings has a greatest element.
pub proof fn lemma_set_has_max(s: Set<Seq<char>>)
    requires
        s.finite(),
        s.len() > 0,
    ensures
        exists|m: Seq<char>| s.contains(m) && forall|x: Seq<char>| #[trigger] s.contains(x) ==> x == m || seq_lt(x, m),
    decreases s.len(),
{
    let a = s.choose();
    let rest = s.remove(a);
    if rest.len() == 0 {
        assert forall|x: Seq<char>| #[trigger] s.contains(x) implies x == a || seq_lt(x, a) by {
            if x != a {
                assert(rest.contains(x));
            }
        }
    } else {
        lemma_set_has_max(rest);
        let m = choose|m: Seq<char>| rest.contains(m) && forall|x: Seq<char>| #[trigger] rest.contains(x) ==> x == m || seq_lt(x, m);
        lemma_seq_lt_total(a, m);
        if seq_lt(m, a) {
            assert forall|x: Seq<char>| #[trigger] s.contains(x) implies x == a || seq_lt(x, a) by {
                if x != a {
                    assert(rest.contains(x));
                    if x != m {
                        lemma_seq_lt_trans(x, m, a);
                    }
                }
            }
        } else {
            assert forall|x: Seq<char>| #[trigger] s.contains(x) implies x == m || seq_lt(x, m) by {
                if x != a {
                    assert(rest.contains(x));
                }
            }
            assert(s.contains(m));
        }
    }
}

/// Every finite set of strings has a sorted form: `sorted_of` lists it
/// strictly increasing.
pub proof fn lemma_sorted_of_finite(s: Set<Seq<char>>)
    requires
        s.finite(),
    ensures
        strictly_sorted(sorted_of(s)),
        sorted_of(s).to_set() == s,
    decreases s.len(),
{
    if s.len() == 0 {
        let e = Seq::<Seq<char>>::empty();
        assert(e.to_set() =~= s);
        assert(strictly_sorted(e) && e.to_set() == s);
    } else {
        lemma_set_has_max(s);
        let m = choose|m: Seq<char>| s.contains(m) && forall|x: Seq<char>| #[trigger] s.contains(x) ==> x == m || seq_lt(x, m);
        let rest = s.remove(m);
        lemma_sorted_of_finite(rest);
        let v = sorted_of(rest);
        let w = v.push(m);
        assert forall|i: int, j: int| 0 <= i < j < w.len() implies seq_lt(w[i], w[j]) by {
            if j == w.len() - 1 {
                assert(v.to_set().contains(v[i]));
                assert(rest.contains(w[i]));
            }
        }
        assert(w.to_set() =~= s) by {
            assert forall|x: Seq<char>| w.to_set().contains(x) implies s.contains(x) by {
                let k = choose|k: int| 0 <= k < w.len() && w[k] == x;
                if k < v.len() {
                    assert(v.to_set().contains(v[k]));
                }
            }
            assert forall|x: Seq<char>| s.contains(x) implies w.to_set().contains(x) by {
                if x == m {
                    assert(w[w.len() - 1] == x);
                } else {
                    assert(rest.contains(x));
                    assert(v.to_set().contains(x));
                    let k = choose|k: int| 0 <= k < v.len() && v[k] == x;
                    assert(w[k] == x);
                }
            }
        }
        assert(strictly_sorted(w) && w.to_set() == s);
    }
}

/// A strictly increasing sequence is the sorted form of its own elements.
pub proof fn lemma_sorted_of(v: Seq<Seq<char>>)
    requires
        strictly_sorted(v),
    ensures
        sorted_of(v.to_set()) == v,
{
    let w = sorted_of(v.to_set());
    assert(strictly_sorted(v) && v.to_set() == v.to_set());
    lemma_sorted_unique(w, v);
}

/// `n` spaces.
pub open spec fn spaces(n: nat) -> Seq<char> {
    Seq::new(n, |i: int| ' ')
}

/// `s` padded with spaces on the right to `w` characters (`{:<w}`).
pub open spec fn pad_end(s: Seq<char>, w: nat) -> Seq<char> {
    if s.len() >= w {
        s
    } else {
        s + spaces((w - s.len()) as nat)
    }
}

/// `s` padded with spaces on the left to `w` characters (`{:>w}`).
pub open spec fn pad_start(s: Seq<char>, w: nat) -> Seq<char> {
    if s.len() >= w {
        s
    } else {
        spaces((w - s.len()) as nat) + s
    }
}

fn spaces_exec(n: usize) -> (r: String)
    ensures
        r@ == spaces(n as nat),
{
    let mut r = String::new();
    let mut i: usize = 0;
    while i < n
        invariant
            i <= n,
            r@ =~= spaces(i as nat),
        decreases n - i,
    {
        push_char(&mut r, ' ');
        i += 1;
    }
    r
}

/// The number of characters of a string.
pub fn char_count(s: &str) -> (r: usize)
    ensures
        r == s@.len(),
{
    let cs = chars_of(s);
    cs.len()
}

/// `format!("{:<w}", s)`.
pub fn pad_end_str(s: &str, w: usize) -> (r: String)
    ensures
        r@ == pad_end(s@, w as nat),
{
    let n = char_count(s);
    let mut r = own(s);
    if n < w {
        let sp = spaces_exec(w - n);
        r.append(sp.as_str());
    }
    r
}

/// `format!("{:>w}", s)`.
pub fn pad_start_str(s: &str, w: usize) -> (r: String)
    ensures
        r@ == pad_start(s@, w as nat),
{
    let n = char_count(s);
    if n < w {
        let mut r = spaces_exec(w - n);
        r.append(s);
        r
    } else {
        own(s)
    }
}

/// Joins strings with a separator (`[String]::join`).
pub open spec fn join(parts: Seq<Seq<char>>, sep: Seq<char>) -> Seq<char>
    decreases parts.len(),
{
    if parts.len() == 0 {
        Seq::empty()
    } else if parts.len() == 1 {
        parts[0]
    } else {
        join(parts.drop_last(), sep) + sep + parts.last()
    }
}

/// `parts.join(sep)`.
pub fn join_strings(parts: &Vec<String>, sep: &str) -> (r: String)
    ensures
        r@ == join(views(parts@), sep@),
{
    let mut r = String::new();
    let mut i: usize = 0;
    while i < parts.len()
        invariant
            i <= parts@.len(),
            r@ == join(views(parts@).take(i as int), sep@),
        decreases parts@.len() - i,
    {
        proof {
            assert(views(parts@).take(i + 1).drop_last() =~= views(parts@).take(i as int));
        }
        if i > 0 {
            r.append(sep);
        } else {
            proof {
                assert(views(parts@).take(1) =~= seq![parts@[0]@]);
            }
        }
        r.append(parts[i].as_str());
        i += 1;
    }
    proof {
        assert(views(parts@).take(i as int) =~= views(parts@));
    }
    r
}

} // verus!

verus! {

// ───────────────────────── Unicode case and quoting ─────────────────────────

/// What `str::to_lowercase` returns for `s`: the Unicode lowercase mapping,
/// character by character, with the final-sigma rule.
pub uninterp spec fn unicode_lowercase(s: Seq<char>) -> Seq<char>;

/// Text made of ASCII characters only.
pub open spec fn ascii_text(s: Seq<char>) -> bool {
    forall|i: int| 0 <= i < s.len() ==> (#[trigger] s[i] as u32) < 128
}

/// Trimming keeps ASCII text ASCII.
pub proof fn lemma_trim_ascii(s: Seq<char>)
    requires
        ascii_text(s),
    ensures
        ascii_text(trim(s)),
{
    lemma_leading_count_bound(s, StripSet::WhiteSpace);
    let lc = leading_count(s, StripSet::WhiteSpace) as int;
    let t = s.skip(lc);
    lemma_trailing_count_bound(t, StripSet::WhiteSpace);
    assert forall|i: int| 0 <= i < trim(s).len() implies (#[trigger] trim(s)[i] as u32) < 128 by {
        assert(trim(s)[i] == s[i + lc]);
    }
}

/// `leading_count` never exceeds the length.
pub proof fn lemma_leading_count_bound(s: Seq<char>, set: StripSet)
    ensures
        leading_count(s, set) <= s.len(),
    decreases s.len(),
{
    if s.len() > 0 && strips(set, s[0]) {
        lemma_leading_count_bound(s.drop_first(), set);
    }
}

/// `trailing_count` never exceeds the length.
pub proof fn lemma_trailing_count_bound(s: Seq<char>, set: StripSet)
    ensures
        trailing_count(s, set) <= s.len(),
    decreases s.len(),
{
    if s.len() > 0 && strips(set, s.last()) {
        lemma_trailing_count_bound(s.drop_last(), set);
    }
}

/// Every piece of ASCII text split at a non-empty separator is ASCII.
pub proof fn lemma_split_pieces_ascii(s: Seq<char>, sep: Seq<char>)
    requires
        ascii_text(s),
        sep.len() > 0,
    ensures
        forall|j: int| 0 <= j < split_pieces(s, sep).len() ==> ascii_text(#[trigger] split_pieces(s, sep)[j]),
    decreases s.len(),
{
    let i = first_occurrence(s, sep, 0);
    if i < 0 || i + sep.len() > s.len() {
        assert(split_pieces(s, sep) =~= seq![s]);
    } else {
        let rest = s.skip(i + sep.len());
        assert(ascii_text(rest)) by {
            assert forall|k: int| 0 <= k < rest.len() implies (#[trigger] rest[k] as u32) < 128 by {
                assert(rest[k] == s[k + i + sep.len()]);
            }
        }
        lemma_split_pieces_ascii(rest, sep);
        let head = s.take(i);
        assert(ascii_text(head)) by {
            assert forall|k: int| 0 <= k < head.len() implies (#[trigger] head[k] as u32) < 128 by {
                assert(head[k] == s[k]);
            }
        }
        let all = split_pieces(s, sep);
        assert(all == seq![head] + split_pieces(rest, sep));
        assert forall|j: int| 0 <= j < all.len() implies ascii_text(#[trigger] all[j]) by {
            if j > 0 {
                assert(all[j] == split_pieces(rest, sep)[j - 1]);
            }
        }
    }
}

/// A character that `{:?}` writes as itself inside a quoted string: printable
/// ASCII other than a double quote and a backslash.
pub open spec fn quotes_as_itself(c: char) -> bool {
    ' ' <= c && c <= '~' && c != '"' && c != '\\'
}

/// `str::to_lowercase`. Besides naming the result, the contract claims what
/// std documents for ASCII text: each uppercase ASCII letter becomes its
/// lowercase letter and every other ASCII character stays, as
/// `to_ascii_lowercase` does.
#[verifier::external_body]
pub(crate) fn to_lowercase(s: &str) -> (r: String)
    ensures
        r@ == unicode_lowercase(s@),
        ascii_text(s@) ==> r@ == ascii_lower(s@),
{
    s.to_lowercase()
}

/// What `format!("{:?}", s)` writes for a string: the text in double quotes,
/// with `char::escape_debug` applied to each character.
pub uninterp spec fn debug_quoted(s: Seq<char>) -> Seq<char>;

/// `format!("{:?}", s)` for a string. Besides naming the result, the
/// contract claims the plain case of `char::escape_debug`: text made only of
/// printable ASCII other than a double quote and a backslash is written
/// unchanged between double quotes.
#[verifier::external_body]
pub(crate) fn debug_quote(s: &str) -> (r: String)
    ensures
        r@ == debug_quoted(s@),
        (forall|i: int| 0 <= i < s@.len() ==> quotes_as_itself(#[trigger] s@[i])) ==> r@ == seq!['"']
            + s@ + seq!['"'],
{
    format!("{:?}", s)
}

} // verus!
