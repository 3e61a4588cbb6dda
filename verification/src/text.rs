//! Verified character and string primitives: whitespace splitting, substring
//! search, trimming, case normalisation and decimal parsing/printing.
//!
//! All functions work on `Vec<char>` values whose views are `Seq<char>`, so
//! every contract is stated over mathematical sequences of characters.

use vstd::prelude::*;

verus! {

/// The Unicode `White_Space` characters, the set that `char::is_whitespace`
/// recognises.
pub open spec fn is_space_char(c: char) -> bool {
    let u = c as u32;
    u == 9 || u == 10 || u == 11 || u == 12 || u == 13 || u == 32 || u == 0x85 || u == 0xA0
        || u == 0x1680 || (0x2000 <= u && u <= 0x200A) || u == 0x2028 || u == 0x2029 || u == 0x202F
        || u == 0x205F || u == 0x3000
}

pub fn is_space(c: char) -> (r: bool)
    ensures
        r == is_space_char(c),
{
    let u = c as u32;
    u == 9 || u == 10 || u == 11 || u == 12 || u == 13 || u == 32 || u == 0x85 || u == 0xA0
        || u == 0x1680 || (0x2000 <= u && u <= 0x200A) || u == 0x2028 || u == 0x2029 || u == 0x202F
        || u == 0x205F || u == 0x3000
}

/// Lower-cases the letters that occur in the bulletins' Spanish keywords:
/// the ASCII alphabet and the accented vowels and enye.  Other characters are
/// left unchanged.
pub open spec fn lower_char(c: char) -> char {
    match c {
        'A' => 'a',
        'B' => 'b',
        'C' => 'c',
        'D' => 'd',
        'E' => 'e',
        'F' => 'f',
        'G' => 'g',
        'H' => 'h',
        'I' => 'i',
        'J' => 'j',
        'K' => 'k',
        'L' => 'l',
        'M' => 'm',
        'N' => 'n',
        'O' => 'o',
        'P' => 'p',
        'Q' => 'q',
        'R' => 'r',
        'S' => 's',
        'T' => 't',
        'U' => 'u',
        'V' => 'v',
        'W' => 'w',
        'X' => 'x',
        'Y' => 'y',
        'Z' => 'z',
        'Á' => 'á',
        'É' => 'é',
        'Í' => 'í',
        'Ó' => 'ó',
        'Ú' => 'ú',
        'Ü' => 'ü',
        'Ñ' => 'ñ',
        _ => c,
    }
}

/// The view of a string after lower-casing every character.
pub open spec fn lower_seq(s: Seq<char>) -> Seq<char> {
    s.map_values(|c: char| lower_char(c))
}

pub fn lower_char_exec(c: char) -> (r: char)
    ensures
        r == lower_char(c),
{
    match c {
        'A' => 'a',
        'B' => 'b',
        'C' => 'c',
        'D' => 'd',
        'E' => 'e',
        'F' => 'f',
        'G' => 'g',
        'H' => 'h',
        'I' => 'i',
        'J' => 'j',
        'K' => 'k',
        'L' => 'l',
        'M' => 'm',
        'N' => 'n',
        'O' => 'o',
        'P' => 'p',
        'Q' => 'q',
        'R' => 'r',
        'S' => 's',
        'T' => 't',
        'U' => 'u',
        'V' => 'v',
        'W' => 'w',
        'X' => 'x',
        'Y' => 'y',
        'Z' => 'z',
        'Á' => 'á',
        'É' => 'é',
        'Í' => 'í',
        'Ó' => 'ó',
        'Ú' => 'ú',
        'Ü' => 'ü',
        'Ñ' => 'ñ',
        _ => c,
    }
}

/// Lower-cases a character vector.
pub fn to_lower(s: &Vec<char>) -> (r: Vec<char>)
    ensures
        r@ == lower_seq(s@),
{
    let mut r: Vec<char> = Vec::new();
    let mut i: usize = 0;
    while i < s.len()
        invariant
            i <= s.len(),
            r@ == lower_seq(s@.subrange(0, i as int)),
        decreases s.len() - i,
    {
        r.push(lower_char_exec(s[i]));
        proof {
            assert(lower_seq(s@.subrange(0, i + 1 as int)) =~= lower_seq(
                s@.subrange(0, i as int),
            ).push(lower_char(s@[i as int])));
        }
        i += 1;
    }
    proof {
        assert(s@.subrange(0, s@.len() as int) =~= s@);
    }
    r
}

/// The characters of a string slice, as a vector.
pub fn chars_of(s: &str) -> (r: Vec<char>)
    ensures
        r@ == s@,
{
    let n = s.unicode_len();
    let mut r: Vec<char> = Vec::new();
    let mut i: usize = 0;
    while i < n
        invariant
            i <= n,
            n == s@.len(),
            r@ == s@.subrange(0, i as int),
        decreases n - i,
    {
        let c = s.get_char(i);
        r.push(c);
        proof {
            assert(s@.subrange(0, i + 1 as int) =~= s@.subrange(0, i as int).push(s@[i as int]));
        }
        i += 1;
    }
    proof {
        assert(s@.subrange(0, s@.len() as int) =~= s@);
    }
    r
}

/// Builds an owned string from a character vector.
///
/// Relies on `String`'s `FromIterator<char>` implementation from std, which
/// collects exactly the characters of the iterator in order.
#[verifier::external_body]
pub fn string_from_chars(v: &Vec<char>) -> (r: String)
    ensures
        r@ == v@,
{
    v.iter().collect()
}

/// Whether two character vectors hold the same characters.
pub fn chars_eq(a: &Vec<char>, b: &Vec<char>) -> (r: bool)
    ensures
        r == (a@ == b@),
{
    if a.len() != b.len() {
        return false;
    }
    let mut i: usize = 0;
    while i < a.len()
        invariant
            i <= a.len(),
            a.len() == b.len(),
            forall|j: int| 0 <= j < i ==> a@[j] == b@[j],
        decreases a.len() - i,
    {
        if a[i] != b[i] {
            return false;
        }
        i += 1;
    }
    proof {
        assert(a@ =~= b@);
    }
    true
}

/// Whether a character vector equals the characters of a string slice.
pub fn chars_eq_str(a: &Vec<char>, b: &str) -> (r: bool)
    ensures
        r == (a@ == b@),
{
    let bv = chars_of(b);
    chars_eq(a, &bv)
}

/// A copy of `s[from..to]`.
pub fn sub_vec(s: &Vec<char>, from: usize, to: usize) -> (r: Vec<char>)
    requires
        from <= to <= s@.len(),
    ensures
        r@ == s@.subrange(from as int, to as int),
{
    let mut r: Vec<char> = Vec::new();
    let mut i: usize = from;
    while i < to
        invariant
            from <= i <= to <= s@.len(),
            r@ == s@.subrange(from as int, i as int),
        decreases to - i,
    {
        r.push(s[i]);
        proof {
            assert(s@.subrange(from as int, i + 1 as int) =~= s@.subrange(
                from as int,
                i as int,
            ).push(s@[i as int]));
        }
        i += 1;
    }
    r
}

/// The pattern `pat` occurs in `s` starting at position `i`.
pub open spec fn match_at(s: Seq<char>, pat: Seq<char>, i: int) -> bool {
    0 <= i && i + pat.len() <= s.len() && s.subrange(i, i + pat.len() as int) == pat
}

/// The pattern `pat` occurs somewhere in `s`.
pub open spec fn has_sub(s: Seq<char>, pat: Seq<char>) -> bool {
    exists|i: int| match_at(s, pat, i)
}

/// The first position at or after `i` where `pat` occurs in `s`, if any.
pub open spec fn find_from(s: Seq<char>, pat: Seq<char>, i: int) -> Option<int>
    decreases s.len() - i,
    when 0 <= i
{
    if i + pat.len() > s.len() {
        None
    } else if match_at(s, pat, i) {
        Some(i)
    } else {
        proof {
            if pat.len() == 0 {
                assert(s.subrange(i, i) =~= pat);
            }
        }
        find_from(s, pat, i + 1)
    }
}

/// The first position where `pat` occurs in `s`, if any.
pub open spec fn find_sub(s: Seq<char>, pat: Seq<char>) -> Option<int> {
    find_from(s, pat, 0)
}

/// `find_from` returns exactly the first match position at or after `i`.
pub proof fn lemma_find_from_props(s: Seq<char>, pat: Seq<char>, i: int)
    requires
        0 <= i,
    ensures
        match find_from(s, pat, i) {
            Some(p) => i <= p && match_at(s, pat, p) && forall|j: int|
                i <= j < p ==> !match_at(s, pat, j),
            None => forall|j: int| j >= i ==> !match_at(s, pat, j),
        },
    decreases s.len() - i,
{
    if i + pat.len() > s.len() {
        assert forall|j: int| j >= i implies !match_at(s, pat, j) by {
            assert(j + pat.len() > s.len());
        }
    } else if match_at(s, pat, i) {
    } else {
        if pat.len() == 0 {
            assert(s.subrange(i, i) =~= pat);
        }
        lemma_find_from_props(s, pat, i + 1);
    }
}

/// `find_sub` succeeds exactly when the pattern occurs.
pub proof fn lemma_find_sub_has_sub(s: Seq<char>, pat: Seq<char>)
    ensures
        find_sub(s, pat) is Some <==> has_sub(s, pat),
{
    lemma_find_from_props(s, pat, 0);
    if find_sub(s, pat) is Some {
        let p = find_sub(s, pat)->0;
        assert(match_at(s, pat, p));
    }
    if has_sub(s, pat) {
        let w = choose|i: int| match_at(s, pat, i);
        assert(w >= 0);
    }
}

/// Whether `pat` occurs in `s` starting at `i`, decided by comparing characters.
fn matches_at(s: &Vec<char>, pat: &Vec<char>, i: usize) -> (r: bool)
    requires
        i + pat@.len() <= s@.len(),
    ensures
        r == match_at(s@, pat@, i as int),
{
    let n = s.len();
    let mut k: usize = 0;
    while k < pat.len()
        invariant
            k <= pat@.len(),
            n == s@.len(),
            i + pat@.len() <= n,
            forall|j: int| 0 <= j < k ==> s@[i + j] == pat@[j],
        decreases pat.len() - k,
    {
        if s[i + k] != pat[k] {
            proof {
                assert(s@.subrange(i as int, i + pat@.len() as int)[k as int] == s@[i + k]);
            }
            return false;
        }
        k += 1;
    }
    proof {
        assert(s@.subrange(i as int, i + pat@.len() as int) =~= pat@);
    }
    true
}

/// The first occurrence of `pat` in `s`, scanning left to right.
pub fn find_first(s: &Vec<char>, pat: &Vec<char>) -> (r: Option<usize>)
    ensures
        match r {
            Some(p) => find_sub(s@, pat@) == Some(p as int),
            None => find_sub(s@, pat@) is None,
        },
{
    if pat.len() > s.len() {
        return None;
    }
    if pat.len() == 0 {
        proof {
            assert(s@.subrange(0, 0) =~= pat@);
        }
        return Some(0);
    }
    let n = s.len();
    let end = s.len() - pat.len();
    let mut i: usize = 0;
    while i <= end
        invariant
            pat@.len() <= s@.len(),
            n == s@.len(),
            end == s@.len() - pat@.len(),
            end < n,
            i <= end + 1,
            find_from(s@, pat@, 0) == find_from(s@, pat@, i as int),
        decreases end + 1 - i,
    {
        if matches_at(s, pat, i) {
            return Some(i);
        }
        i += 1;
    }
    None
}

/// Whether `pat` occurs anywhere in `s`.
pub fn contains_sub(s: &Vec<char>, pat: &Vec<char>) -> (r: bool)
    ensures
        r == has_sub(s@, pat@),
{
    proof {
        lemma_find_sub_has_sub(s@, pat@);
    }
    match find_first(s, pat) {
        Some(_) => true,
        None => false,
    }
}

/// Whether `pat` (a string literal pattern) occurs anywhere in `s`.
pub fn contains_lit(s: &Vec<char>, pat: &str) -> (r: bool)
    ensures
        r == has_sub(s@, pat@),
{
    let p = chars_of(pat);
    contains_sub(s, &p)
}

/// `s` starts with `pat`.
pub open spec fn starts_with(s: Seq<char>, pat: Seq<char>) -> bool {
    match_at(s, pat, 0)
}

/// `s` ends with `pat`.
pub open spec fn ends_with(s: Seq<char>, pat: Seq<char>) -> bool {
    pat.len() <= s.len() && match_at(s, pat, s.len() - pat.len())
}

pub fn starts_with_lit(s: &Vec<char>, pat: &str) -> (r: bool)
    ensures
        r == starts_with(s@, pat@),
{
    let p = chars_of(pat);
    if p.len() > s.len() {
        return false;
    }
    matches_at(s, &p, 0)
}

pub fn ends_with_lit(s: &Vec<char>, pat: &str) -> (r: bool)
    ensures
        r == ends_with(s@, pat@),
{
    let p = chars_of(pat);
    if p.len() > s.len() {
        return false;
    }
    matches_at(s, &p, s.len() - p.len())
}

} // verus!

verus! {

/// Position of the first non-space character at or after `i`.
pub open spec fn skip_ws(s: Seq<char>, i: int) -> int
    decreases s.len() - i,
    when 0 <= i <= s.len()
{
    if i >= s.len() {
        i
    } else if is_space_char(s[i]) {
        skip_ws(s, i + 1)
    } else {
        i
    }
}

pub proof fn lemma_skip_ws(s: Seq<char>, i: int)
    requires
        0 <= i <= s.len(),
    ensures
        i <= skip_ws(s, i) <= s.len(),
        skip_ws(s, i) < s.len() ==> !is_space_char(s[skip_ws(s, i)]),
        forall|j: int| i <= j < skip_ws(s, i) ==> is_space_char(s[j]),
    decreases s.len() - i,
{
    if i < s.len() && is_space_char(s[i]) {
        lemma_skip_ws(s, i + 1);
    }
}

/// Position right after the token that starts at `i`: the first space at or
/// after `i`, or the end of the string.
pub open spec fn token_end(s: Seq<char>, i: int) -> int
    decreases s.len() - i,
    when 0 <= i <= s.len()
{
    if i >= s.len() {
        i
    } else if is_space_char(s[i]) {
        i
    } else {
        token_end(s, i + 1)
    }
}

pub proof fn lemma_token_end(s: Seq<char>, i: int)
    requires
        0 <= i <= s.len(),
    ensures
        i <= token_end(s, i) <= s.len(),
        token_end(s, i) < s.len() ==> is_space_char(s[token_end(s, i)]),
        forall|j: int| i <= j < token_end(s, i) ==> !is_space_char(s[j]),
        i < s.len() && !is_space_char(s[i]) ==> token_end(s, i) > i,
    decreases s.len() - i,
{
    if i < s.len() && !is_space_char(s[i]) {
        lemma_token_end(s, i + 1);
    }
}

/// The whitespace-separated tokens of `s`, from position `i` on.
pub open spec fn tokens_from(s: Seq<char>, i: int) -> Seq<Seq<char>>
    decreases s.len() - i,
    when 0 <= i <= s.len()
    via tokens_from_decreases
{
    let j = skip_ws(s, i);
    if j >= s.len() {
        Seq::empty()
    } else {
        seq![s.subrange(j, token_end(s, j))] + tokens_from(s, token_end(s, j))
    }
}

#[via_fn]
proof fn tokens_from_decreases(s: Seq<char>, i: int) {
    if 0 <= i <= s.len() {
        lemma_skip_ws(s, i);
        let j = skip_ws(s, i);
        if j < s.len() {
            lemma_token_end(s, j);
        }
    }
}

/// The whitespace-separated tokens of `s`, in order.
pub open spec fn tokens(s: Seq<char>) -> Seq<Seq<char>> {
    tokens_from(s, 0)
}

/// The views of the elements of a vector of character vectors.
pub open spec fn views_of(r: Seq<Vec<char>>) -> Seq<Seq<char>> {
    r.map_values(|v: Vec<char>| v@)
}

/// Splits `s` into its whitespace-separated tokens.
pub fn split_ws(s: &Vec<char>) -> (r: Vec<Vec<char>>)
    ensures
        views_of(r@) == tokens(s@),
{
    let n = s.len();
    let mut out: Vec<Vec<char>> = Vec::new();
    let mut i: usize = 0;
    while i < n
        invariant
            i <= n,
            n == s@.len(),
            tokens(s@) == views_of(out@) + tokens_from(s@, i as int),
        decreases n - i,
    {
        if is_space(s[i]) {
            i += 1;
        } else {
            let start = i;
            let mut j = i + 1;
            while j < n && !is_space(s[j])
                invariant
                    start < j <= n,
                    n == s@.len(),
                    token_end(s@, start as int) == token_end(s@, j as int),
                decreases n - j,
            {
                j += 1;
            }
            proof {
                assert(token_end(s@, j as int) == j);
            }
            let tok = sub_vec(s, start, j);
            out.push(tok);
            proof {
                assert(skip_ws(s@, start as int) == start);
                assert(tokens_from(s@, start as int) == seq![
                    s@.subrange(start as int, j as int),
                ] + tokens_from(s@, j as int));
                assert(tokens(s@) =~~= views_of(out@) + tokens_from(s@, j as int));
            }
            i = j;
        }
    }
    proof {
        assert(tokens_from(s@, n as int) =~= Seq::<Seq<char>>::empty());
        assert(tokens(s@) =~~= views_of(out@));
    }
    out
}

/// The view of `s` with leading and trailing whitespace removed.
pub open spec fn trim_seq(s: Seq<char>) -> Seq<char> {
    let a = skip_ws(s, 0);
    let b = trim_end_idx(s, s.len() as int);
    if a <= b {
        s.subrange(a, b)
    } else {
        Seq::empty()
    }
}

/// Position right after the last non-space character strictly before `j`.
pub open spec fn trim_end_idx(s: Seq<char>, j: int) -> int
    decreases j,
    when 0 <= j <= s.len()
{
    if j <= 0 {
        0
    } else if is_space_char(s[j - 1]) {
        trim_end_idx(s, j - 1)
    } else {
        j
    }
}

/// Removes leading and trailing whitespace.
pub fn trim_chars(s: &Vec<char>) -> (r: Vec<char>)
    ensures
        r@ == trim_seq(s@),
{
    let n = s.len();
    let mut a: usize = 0;
    while a < n && is_space(s[a])
        invariant
            a <= n,
            n == s@.len(),
            skip_ws(s@, 0) == skip_ws(s@, a as int),
        decreases n - a,
    {
        a += 1;
    }
    proof {
        assert(skip_ws(s@, a as int) == a);
    }
    if a == n {
        proof {
            lemma_trim_end_le(s@, n as int);
            if trim_end_idx(s@, n as int) > a {
                lemma_trim_end_nonspace(s@, n as int);
            }
            assert(trim_seq(s@) =~= Seq::<char>::empty());
        }
        return Vec::new();
    }
    let mut b: usize = n;
    while b > a && is_space(s[b - 1])
        invariant
            a < b <= n,
            n == s@.len(),
            a < n,
            !is_space_char(s@[a as int]),
            skip_ws(s@, 0) == a,
            trim_end_idx(s@, n as int) == trim_end_idx(s@, b as int),
        decreases b,
    {
        b -= 1;
    }
    proof {
        assert(b > a);
        assert(trim_end_idx(s@, b as int) == b);
    }
    sub_vec(s, a, b)
}

pub proof fn lemma_trim_end_le(s: Seq<char>, j: int)
    requires
        0 <= j <= s.len(),
    ensures
        0 <= trim_end_idx(s, j) <= j,
    decreases j,
{
    if j > 0 && is_space_char(s[j - 1]) {
        lemma_trim_end_le(s, j - 1);
    }
}

/// If `trim_end_idx` stops above 0, it stops just after a non-space character.
pub proof fn lemma_trim_end_nonspace(s: Seq<char>, j: int)
    requires
        0 <= j <= s.len(),
    ensures
        trim_end_idx(s, j) > 0 ==> !is_space_char(s[trim_end_idx(s, j) - 1]),
    decreases j,
{
    if j > 0 && is_space_char(s[j - 1]) {
        lemma_trim_end_nonspace(s, j - 1);
    }
}

} // verus!

verus! {

/// `c` is an ASCII decimal digit.
pub open spec fn is_digit(c: char) -> bool {
    48 <= c as u32 <= 57
}

/// Numeric value of a digit character.
pub open spec fn digit_val(c: char) -> int {
    c as u32 - 48
}

pub open spec fn all_digits(s: Seq<char>) -> bool {
    forall|i: int| 0 <= i < s.len() ==> is_digit(s[i])
}

/// The value of a digit string, read in base 10.
pub open spec fn digits_val(s: Seq<char>) -> int
    decreases s.len(),
{
    if s.len() == 0 {
        0
    } else {
        digits_val(s.drop_last()) * 10 + digit_val(s.last())
    }
}

pub proof fn lemma_digits_val_nonneg(s: Seq<char>)
    requires
        all_digits(s),
    ensures
        digits_val(s) >= 0,
    decreases s.len(),
{
    if s.len() > 0 {
        assert(all_digits(s.drop_last()));
        lemma_digits_val_nonneg(s.drop_last());
    }
}

/// Extending a digit string by one digit multiplies its value by ten and adds
/// the digit.
pub proof fn lemma_digits_step(s: Seq<char>, a: int, i: int)
    requires
        0 <= a <= i < s.len(),
    ensures
        digits_val(s.subrange(a, i + 1)) == digits_val(s.subrange(a, i)) * 10 + digit_val(s[i]),
{
    assert(s.subrange(a, i + 1).drop_last() =~= s.subrange(a, i));
    assert(s.subrange(a, i + 1).last() == s[i]);
}

/// The result of parsing `s` as an unsigned 32-bit integer: an optional plus
/// sign followed by at least one digit, with the value in range.
pub open spec fn parse_u32_spec(s: Seq<char>) -> Option<u32> {
    let d = if s.len() > 0 && s[0] == '+' {
        s.subrange(1, s.len() as int)
    } else {
        s
    };
    if d.len() > 0 && all_digits(d) && digits_val(d) <= u32::MAX {
        Some(digits_val(d) as u32)
    } else {
        None
    }
}

/// Parses a character vector as a `u32`, accepting exactly the strings that
/// `parse_u32_spec` accepts.
pub fn parse_u32(v: &Vec<char>) -> (r: Option<u32>)
    ensures
        r == parse_u32_spec(v@),
{
    let n = v.len();
    let start: usize = if n > 0 && v[0] == '+' {
        1
    } else {
        0
    };
    proof {
        if start == 1 {
            assert(v@.subrange(1, n as int) =~= v@.subrange(start as int, n as int));
        } else {
            assert(v@ =~= v@.subrange(start as int, n as int));
        }
    }
    if n == start {
        return None;
    }
    let ghost d = v@.subrange(start as int, n as int);
    let mut acc: u64 = 0;
    let mut big: bool = false;
    let mut i: usize = start;
    while i < n
        invariant
            start <= i <= n,
            n == v@.len(),
            d == v@.subrange(start as int, n as int),
            d == (if v@.len() > 0 && v@[0] == '+' {
                v@.subrange(1, v@.len() as int)
            } else {
                v@
            }),
            all_digits(v@.subrange(start as int, i as int)),
            !big ==> acc == digits_val(v@.subrange(start as int, i as int)) && acc <= u32::MAX,
            big ==> digits_val(v@.subrange(start as int, i as int)) > u32::MAX,
        decreases n - i,
    {
        let c = v[i];
        let u = c as u32;
        if !(48 <= u && u <= 57) {
            proof {
                assert(d[i - start] == v@[i as int]);
                assert(!is_digit(d[i - start]));
                assert(!all_digits(d));
            }
            return None;
        }
        proof {
            assert(v@.subrange(start as int, i + 1 as int) =~= v@.subrange(
                start as int,
                i as int,
            ).push(v@[i as int]));
            lemma_digits_step(v@, start as int, i as int);
        }
        if big {
            proof {
                lemma_digits_val_nonneg(v@.subrange(start as int, i as int));
            }
        } else {
            let dv = (u - 48) as u64;
            let tmp: u64 = acc * 10 + dv;
            if tmp > 0xFFFF_FFFF {
                big = true;
            } else {
                acc = tmp;
            }
        }
        i += 1;
    }
    proof {
        assert(v@.subrange(start as int, n as int) == d);
    }
    if big {
        None
    } else {
        Some(acc as u32)
    }
}

/// The result of parsing `s` as a signed number with an optional `+` or `-`
/// sign, within the 32-bit signed range.
pub open spec fn parse_i32_spec(s: Seq<char>) -> Option<i32> {
    let neg = s.len() > 0 && s[0] == '-';
    let d = if s.len() > 0 && (s[0] == '-' || s[0] == '+') {
        s.subrange(1, s.len() as int)
    } else {
        s
    };
    if d.len() > 0 && all_digits(d) && (if neg {
        digits_val(d) <= 0x8000_0000
    } else {
        digits_val(d) <= i32::MAX
    }) {
        Some((if neg {
            -digits_val(d)
        } else {
            digits_val(d)
        }) as i32)
    } else {
        None
    }
}

/// Parses a character vector as an `i32`.
pub fn parse_i32(v: &Vec<char>) -> (r: Option<i32>)
    ensures
        r == parse_i32_spec(v@),
{
    let n = v.len();
    let neg = n > 0 && v[0] == '-';
    let start: usize = if n > 0 && (v[0] == '-' || v[0] == '+') {
        1
    } else {
        0
    };
    proof {
        if start == 1 {
            assert(v@.subrange(1, n as int) =~= v@.subrange(start as int, n as int));
        } else {
            assert(v@ =~= v@.subrange(start as int, n as int));
        }
    }
    if n == start {
        return None;
    }
    let ghost d = v@.subrange(start as int, n as int);
    let mut acc: u64 = 0;
    let mut big: bool = false;
    let mut i: usize = start;
    while i < n
        invariant
            start <= i <= n,
            n == v@.len(),
            d == v@.subrange(start as int, n as int),
            d == (if v@.len() > 0 && (v@[0] == '-' || v@[0] == '+') {
                v@.subrange(1, v@.len() as int)
            } else {
                v@
            }),
            all_digits(v@.subrange(start as int, i as int)),
            !big ==> acc == digits_val(v@.subrange(start as int, i as int)) && acc
                <= 0x8000_0000u64,
            big ==> digits_val(v@.subrange(start as int, i as int)) > 0x8000_0000,
        decreases n - i,
    {
        let c = v[i];
        let u = c as u32;
        if !(48 <= u && u <= 57) {
            proof {
                assert(d[i - start] == v@[i as int]);
                assert(!is_digit(d[i - start]));
                assert(!all_digits(d));
            }
            return None;
        }
        proof {
            assert(v@.subrange(start as int, i + 1 as int) =~= v@.subrange(
                start as int,
                i as int,
            ).push(v@[i as int]));
            lemma_digits_step(v@, start as int, i as int);
        }
        if big {
            proof {
                lemma_digits_val_nonneg(v@.subrange(start as int, i as int));
            }
        } else {
            let dv = (u - 48) as u64;
            let tmp: u64 = acc * 10 + dv;
            if tmp > 0x8000_0000 {
                big = true;
            } else {
                acc = tmp;
            }
        }
        i += 1;
    }
    if big {
        return None;
    }
    if neg {
        if acc == 0x8000_0000 {
            Some(i32::MIN)
        } else {
            Some(-((acc as u32) as i32))
        }
    } else {
        if acc > 0x7FFF_FFFF {
            None
        } else {
            Some(acc as i32)
        }
    }
}

} // verus!

verus! {

/// The result of parsing `s` as an unsigned decimal fraction: digits with at
/// most one decimal point and at least one digit.  Returns the digits' value
/// with the point removed, and the number of fractional digits.
pub open spec fn parse_dec_parts(s: Seq<char>) -> Option<(u64, u32)> {
    match find_sub(s, seq!['.']) {
        None => if s.len() > 0 && all_digits(s) && digits_val(s) <= u64::MAX {
            Some((digits_val(s) as u64, 0u32))
        } else {
            None
        },
        Some(p) => {
            let ip = s.subrange(0, p);
            let fp = s.subrange(p + 1, s.len() as int);
            if ip.len() + fp.len() > 0 && all_digits(ip) && all_digits(fp) && digits_val(ip + fp)
                <= u64::MAX && fp.len() <= u32::MAX {
                Some((digits_val(ip + fp) as u64, fp.len() as u32))
            } else {
                None
            }
        },
    }
}

/// Parses a character vector as an unsigned decimal fraction.
pub fn parse_decimal(v: &Vec<char>) -> (r: Option<(u64, u32)>)
    ensures
        r == parse_dec_parts(v@),
{
    let n = v.len();
    let dotv: Vec<char> = vec!['.'];
    proof {
        assert(dotv@ =~= seq!['.']);
    }
    let dot = find_first(v, &dotv);
    let ghost g: Seq<char> = match find_sub(v@, seq!['.']) {
        None => v@,
        Some(p) => v@.subrange(0, p) + v@.subrange(p + 1, v@.len() as int),
    };
    let (digits, scale): (usize, u32) = match dot {
        None => {
            if n == 0 {
                return None;
            }
            proof {
                assert(g =~= v@);
            }
            (n, 0u32)
        },
        Some(p) => {
            proof {
                lemma_find_from_props(v@, seq!['.'], 0);
            }
            if n - 1 == 0 {
                proof {
                    assert(v@.subrange(0, p as int).len() + v@.subrange(
                        p + 1,
                        v@.len() as int,
                    ).len() == 0);
                }
                return None;
            }
            if n - 1 - p > 0xFFFF_FFFFusize {
                return None;
            }
            (n - 1, (n - 1 - p) as u32)
        },
    };
    let mut acc: u64 = 0;
    let mut big: bool = false;
    let mut k: usize = 0;
    while k < digits
        invariant
            0 <= k <= digits,
            digits <= n,
            n == v@.len(),
            g.len() == digits,
            g == (match find_sub(v@, seq!['.']) {
                None => v@,
                Some(p) => v@.subrange(0, p) + v@.subrange(p + 1, v@.len() as int),
            }),
            match dot {
                Some(p) => find_sub(v@, seq!['.']) == Some(p as int) && p < n && digits == n - 1
                    && scale == n - 1 - p,
                None => find_sub(v@, seq!['.']) is None && digits == n && scale == 0,
            },
            digits > 0,
            all_digits(g.subrange(0, k as int)),
            !big ==> acc == digits_val(g.subrange(0, k as int)),
            big ==> digits_val(g.subrange(0, k as int)) > u64::MAX,
        decreases digits - k,
    {
        let idx: usize = match dot {
            None => k,
            Some(p) => if k < p {
                k
            } else {
                k + 1
            },
        };
        proof {
            match dot {
                None => {
                    assert(g[k as int] == v@[idx as int]);
                },
                Some(p) => {
                    if k < p as int {
                        assert(g[k as int] == v@.subrange(0, p as int)[k as int]);
                    } else {
                        assert(g[k as int] == v@.subrange(p + 1, v@.len() as int)[k - p]);
                    }
                },
            }
            assert(g[k as int] == v@[idx as int]);
        }
        let c = v[idx];
        let u = c as u32;
        if !(48 <= u && u <= 57) {
            proof {
                assert(!is_digit(g[k as int]));
                assert(!all_digits(g));
            }
            return None;
        }
        proof {
            assert(g.subrange(0, k + 1 as int) =~= g.subrange(0, k as int).push(g[k as int]));
            lemma_digits_step(g, 0, k as int);
        }
        if big {
            proof {
                lemma_digits_val_nonneg(g.subrange(0, k as int));
            }
        } else {
            let dv = (u - 48) as u64;
            let limit: u64 = (0xFFFF_FFFF_FFFF_FFFFu64 - dv) / 10;
            if acc > limit {
                proof {
                    assert(acc as int * 10 + dv as int > u64::MAX) by {
                        assert(acc as int >= limit as int + 1);
                        assert(limit as int == (u64::MAX - dv as int) / 10);
                        assert((limit as int) * 10 + 10 > u64::MAX - dv as int);
                    };
                }
                big = true;
            } else {
                proof {
                    assert(acc as int * 10 + dv as int <= u64::MAX) by {
                        assert((limit as int) * 10 <= u64::MAX - dv as int);
                        assert(acc as int * 10 <= (limit as int) * 10);
                    };
                }
                acc = acc * 10 + dv;
            }
        }
        k += 1;
    }
    proof {
        assert(g.subrange(0, digits as int) =~= g);
        match find_sub(v@, seq!['.']) {
            None => {
                assert(acc == digits_val(v@) || big);
            },
            Some(p) => {
                let ip = v@.subrange(0, p);
                let fp = v@.subrange(p + 1, v@.len() as int);
                assert(g == ip + fp);
                assert forall|j: int| 0 <= j < ip.len() implies is_digit(ip[j]) by {
                    assert(ip[j] == g[j]);
                }
                assert forall|j: int| 0 <= j < fp.len() implies is_digit(fp[j]) by {
                    assert(fp[j] == g[ip.len() + j]);
                }
                assert(all_digits(ip));
                assert(all_digits(fp));
                assert(ip.len() + fp.len() == digits);
                assert(scale == fp.len());
            },
        }
    }
    if big {
        return None;
    }
    Some((acc, scale))
}

/// The digit character for a value between 0 and 9.
pub open spec fn digit_char(d: int) -> char {
    if d == 0 {
        '0'
    } else if d == 1 {
        '1'
    } else if d == 2 {
        '2'
    } else if d == 3 {
        '3'
    } else if d == 4 {
        '4'
    } else if d == 5 {
        '5'
    } else if d == 6 {
        '6'
    } else if d == 7 {
        '7'
    } else if d == 8 {
        '8'
    } else {
        '9'
    }
}

/// The decimal digit string of a non-negative number, without leading zeroes
/// (a single zero for 0).
pub open spec fn dec_digits(n: int) -> Seq<char>
    decreases n,
    when n >= 0
{
    if n < 10 {
        seq![digit_char(n)]
    } else {
        dec_digits(n / 10) + seq![digit_char(n % 10)]
    }
}

/// `n` printed with at least two digits, zero-padded.
pub open spec fn pad2_digits(n: int) -> Seq<char> {
    if 0 <= n < 10 {
        seq!['0'] + dec_digits(n)
    } else {
        dec_digits(n)
    }
}

/// `n` printed in decimal, with a leading minus sign when negative.
pub open spec fn dec_int(n: int) -> Seq<char> {
    if n < 0 {
        seq!['-'] + dec_digits(-n)
    } else {
        dec_digits(n)
    }
}

fn digit_char_exec(d: u64) -> (c: char)
    requires
        d <= 9,
    ensures
        c == digit_char(d as int),
{
    if d == 0 {
        '0'
    } else if d == 1 {
        '1'
    } else if d == 2 {
        '2'
    } else if d == 3 {
        '3'
    } else if d == 4 {
        '4'
    } else if d == 5 {
        '5'
    } else if d == 6 {
        '6'
    } else if d == 7 {
        '7'
    } else if d == 8 {
        '8'
    } else {
        '9'
    }
}

/// Appends the decimal digits of `n` to `out`.
pub fn push_u64_dec(n: u64, out: &mut Vec<char>)
    ensures
        final(out)@ == old(out)@ + dec_digits(n as int),
    decreases n,
{
    if n >= 10 {
        push_u64_dec(n / 10, out);
        let ghost mid = out@;
        out.push(digit_char_exec(n % 10));
        proof {
            assert(out@ =~= old(out)@ + (dec_digits(n as int / 10) + seq![
                digit_char(n as int % 10),
            ]));
        }
    } else {
        out.push(digit_char_exec(n % 10));
        proof {
            assert(out@ =~= old(out)@ + seq![digit_char(n as int)]);
        }
    }
}

/// Appends `n` zero-padded to at least two digits.
pub fn push_pad2(n: u32, out: &mut Vec<char>)
    ensures
        final(out)@ == old(out)@ + pad2_digits(n as int),
{
    if n < 10 {
        out.push('0');
        push_u64_dec(n as u64, out);
        proof {
            assert(out@ =~= old(out)@ + (seq!['0'] + dec_digits(n as int)));
        }
    } else {
        push_u64_dec(n as u64, out);
    }
}

/// Appends `n` in decimal, with a minus sign when negative.
pub fn push_i64_dec(n: i64, out: &mut Vec<char>)
    ensures
        final(out)@ == old(out)@ + dec_int(n as int),
{
    if n < 0 {
        out.push('-');
        let m: u64 = if n == i64::MIN {
            9223372036854775808u64
        } else {
            (-n) as u64
        };
        push_u64_dec(m, out);
        proof {
            assert(out@ =~= old(out)@ + (seq!['-'] + dec_digits(-(n as int))));
        }
    } else {
        push_u64_dec(n as u64, out);
    }
}

} // verus!

verus! {

/// Appends all characters of `s` to `out`.
pub fn push_chars(out: &mut Vec<char>, s: &Vec<char>)
    ensures
        final(out)@ == old(out)@ + s@,
{
    let mut i: usize = 0;
    while i < s.len()
        invariant
            i <= s.len(),
            out@ == old(out)@ + s@.subrange(0, i as int),
        decreases s.len() - i,
    {
        out.push(s[i]);
        proof {
            assert(old(out)@ + s@.subrange(0, i + 1 as int) =~= (old(out)@ + s@.subrange(
                0,
                i as int,
            )).push(s@[i as int]));
        }
        i += 1;
    }
    proof {
        assert(out@ =~= old(out)@ + s@);
    }
}

/// Appends the characters of a string literal to `out`.
pub fn push_lit(out: &mut Vec<char>, s: &str)
    ensures
        final(out)@ == old(out)@ + s@,
{
    let cs = chars_of(s);
    push_chars(out, &cs);
}

} // verus!

verus! {

/// The pieces of `s` between occurrences of `c`: empty pieces are kept, and a
/// string without `c` is one piece.
pub open spec fn split_char(s: Seq<char>, c: char) -> Seq<Seq<char>>
    decreases s.len(),
    via split_char_decreases
{
    match find_sub(s, seq![c]) {
        None => seq![s],
        Some(p) => seq![s.subrange(0, p)] + split_char(s.subrange(p + 1, s.len() as int), c),
    }
}

#[via_fn]
proof fn split_char_decreases(s: Seq<char>, c: char) {
    lemma_find_from_props(s, seq![c], 0);
}

/// Splits `s` on a separator character.
pub fn split_on_char(v: &Vec<char>, c: char) -> (r: Vec<Vec<char>>)
    ensures
        views_of(r@) == split_char(v@, c),
{
    let cv: Vec<char> = vec![c];
    proof {
        assert(cv@ =~= seq![c]);
    }
    let mut out: Vec<Vec<char>> = Vec::new();
    let mut rest: Vec<char> = sub_vec(v, 0, v.len());
    proof {
        assert(v@.subrange(0, v@.len() as int) =~= v@);
    }
    let mut fin = false;
    while !fin
        invariant
            cv@ == seq![c],
            !fin ==> split_char(v@, c) =~~= views_of(out@) + split_char(rest@, c),
            fin ==> views_of(out@) =~~= split_char(v@, c),
        decreases rest@.len() + (if fin {
            0int
        } else {
            1int
        }),
    {
        match find_first(&rest, &cv) {
            None => {
                let last = sub_vec(&rest, 0, rest.len());
                proof {
                    assert(rest@.subrange(0, rest@.len() as int) =~= rest@);
                    assert(views_of(out@.push(last)) =~~= views_of(out@) + seq![rest@]);
                }
                out.push(last);
                fin = true;
            },
            Some(p) => {
                let rl = rest.len();
                proof {
                    lemma_find_from_props(rest@, cv@, 0);
                    assert(p + 1 <= rl);
                }
                let piece = sub_vec(&rest, 0, p);
                let next = sub_vec(&rest, p + 1, rl);
                proof {
                    assert(views_of(out@.push(piece)) =~~= views_of(out@) + seq![
                        rest@.subrange(0, p as int),
                    ]);
                    assert(split_char(rest@, c) == seq![rest@.subrange(0, p as int)] + split_char(
                        rest@.subrange(p + 1, rest@.len() as int),
                        c,
                    ));
                }
                out.push(piece);
                rest = next;
            },
        }
    }
    out
}

/// A line with one trailing carriage return removed.
pub open spec fn strip_cr(l: Seq<char>) -> Seq<char> {
    if l.len() > 0 && l.last() == '\r' {
        l.drop_last()
    } else {
        l
    }
}

/// The lines of `s`: pieces between newlines, without a trailing empty line,
/// each with one trailing carriage return removed.
pub open spec fn lines_of(s: Seq<char>) -> Seq<Seq<char>> {
    let parts = split_char(s, '\n');
    let kept = if parts.len() > 0 && parts.last().len() == 0 {
        parts.drop_last()
    } else {
        parts
    };
    kept.map_values(|l: Seq<char>| strip_cr(l))
}

fn strip_cr_exec(l: Vec<char>) -> (r: Vec<char>)
    ensures
        r@ == strip_cr(l@),
{
    let mut l = l;
    if l.len() > 0 && l[l.len() - 1] == '\r' {
        l.pop();
    }
    l
}

/// Splits `s` into its lines.
pub fn split_lines(v: &Vec<char>) -> (r: Vec<Vec<char>>)
    ensures
        views_of(r@) == lines_of(v@),
{
    let mut parts = split_on_char(v, '\n');
    let ghost all = split_char(v@, '\n');
    if parts.len() > 0 && parts[parts.len() - 1].len() == 0 {
        proof {
            assert(views_of(parts@)[parts@.len() - 1] == all.last());
        }
        parts.pop();
        proof {
            assert(views_of(parts@) =~~= all.drop_last());
        }
    }
    let ghost kept = views_of(parts@);
    let n = parts.len();
    let mut out: Vec<Vec<char>> = Vec::new();
    let mut i: usize = 0;
    while i < n
        invariant
            i <= n,
            n == parts@.len(),
            kept == views_of(parts@),
            views_of(out@) =~~= kept.map_values(|l: Seq<char>| strip_cr(l)).subrange(0, i as int),
        decreases n - i,
    {
        let piece = sub_vec(&parts[i], 0, parts[i].len());
        proof {
            assert(parts@[i as int]@.subrange(0, parts@[i as int]@.len() as int) =~= parts@[
                i as int
            ]@);
        }
        let stripped = strip_cr_exec(piece);
        out.push(stripped);
        proof {
            let m = kept.map_values(|l: Seq<char>| strip_cr(l));
            assert(m[i as int] == strip_cr(kept[i as int]));
            assert(m.subrange(0, i + 1 as int) =~= m.subrange(0, i as int).push(m[i as int]));
            assert(views_of(out@) =~~= m.subrange(0, i + 1 as int));
        }
        i += 1;
    }
    proof {
        let m = kept.map_values(|l: Seq<char>| strip_cr(l));
        assert(m.subrange(0, n as int) =~= m);
    }
    out
}

} // verus!

verus! {

/// Lower-casing keeps whitespace-ness: the mapped letters are never spaces,
/// and other characters are unchanged.
pub proof fn lemma_lower_keeps_space(c: char)
    ensures
        is_space_char(lower_char(c)) == is_space_char(c),
{
}

/// `skip_ws` lands on `j` when everything from `i` up to `j` is whitespace
/// and `j` is the end or a non-space.
pub proof fn lemma_skip_ws_eq(s: Seq<char>, i: int, j: int)
    requires
        0 <= i <= j <= s.len(),
        forall|k: int| i <= k < j ==> is_space_char(s[k]),
        j == s.len() || !is_space_char(s[j]),
    ensures
        skip_ws(s, i) == j,
    decreases j - i,
{
    if i < j {
        lemma_skip_ws_eq(s, i + 1, j);
    }
}

/// `token_end` lands on `j` when everything from `i` up to `j` is non-space
/// and `j` is the end or a space.
pub proof fn lemma_token_end_eq(s: Seq<char>, i: int, j: int)
    requires
        0 <= i <= j <= s.len(),
        forall|k: int| i <= k < j ==> !is_space_char(s[k]),
        j == s.len() || is_space_char(s[j]),
    ensures
        token_end(s, i) == j,
    decreases j - i,
{
    if i < j {
        lemma_token_end_eq(s, i + 1, j);
    }
}

/// Every character that `dec_digits` prints is a digit.
pub proof fn lemma_dec_digits_are_digits(n: int)
    requires
        n >= 0,
    ensures
        all_digits(dec_digits(n)),
        dec_digits(n).len() >= 1,
    decreases n,
{
    if n < 10 {
    } else {
        lemma_dec_digits_are_digits(n / 10);
        let a = dec_digits(n / 10);
        let whole = a + seq![digit_char(n % 10)];
        assert forall|i: int| 0 <= i < whole.len() implies is_digit(whole[i]) by {
            if i < a.len() {
                assert(whole[i] == a[i]);
            } else {
                assert(whole[i] == digit_char(n % 10));
            }
        }
    }
}

/// Reading back the digits `dec_digits` prints gives the number itself.
pub proof fn lemma_dec_digits_value(n: int)
    requires
        n >= 0,
    ensures
        digits_val(dec_digits(n)) == n,
    decreases n,
{
    if n < 10 {
        let s = dec_digits(n);
        assert(s == seq![digit_char(n)]);
        assert(s.drop_last() =~= Seq::<char>::empty());
        assert(digits_val(s.drop_last()) == 0);
        assert(digit_val(digit_char(n)) == n);
    } else {
        lemma_dec_digits_value(n / 10);
        let a = dec_digits(n / 10);
        let whole = a + seq![digit_char(n % 10)];
        assert(dec_digits(n) == whole);
        assert(whole.len() == a.len() + 1);
        assert(whole.last() == digit_char(n % 10));
        assert(digits_val(whole) == digits_val(whole.drop_last()) * 10 + digit_val(whole.last()));
        assert(whole.drop_last() =~= a);
        assert(whole.last() == digit_char(n % 10));
        assert(digit_val(digit_char(n % 10)) == n % 10);
        assert(n == (n / 10) * 10 + n % 10) by {
            vstd::arithmetic::div_mod::lemma_fundamental_div_mod(n, 10);
        };
    }
}

} // verus!
