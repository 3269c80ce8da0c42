//! Verified text helpers: byte-to-text decoding, ASCII case folding,
//! substring search and integer parsing.

use vstd::prelude::*;

verus! {

/// How a raw byte is read as text: ASCII bytes stand for themselves, any
/// other byte becomes the replacement character.
pub open spec fn spec_char_of_byte(b: u8) -> char {
    if b < 128 {
        b as char
    } else {
        '\u{FFFD}'
    }
}

/// The text read from a byte buffer, byte by byte.
pub open spec fn spec_chars_of_bytes(s: Seq<u8>) -> Seq<char> {
    Seq::new(s.len(), |i: int| spec_char_of_byte(s[i]))
}

/// Whether every byte is ASCII.
pub open spec fn spec_all_ascii(s: Seq<u8>) -> bool {
    forall|i: int| 0 <= i < s.len() ==> (#[trigger] s[i]) < 128
}

/// Relies on `String::push`: appends exactly the given character.
#[verifier::external_body]
pub fn string_push(s: &mut String, c: char)
    ensures
        final(s)@ == old(s)@.push(c),
{
    s.push(c);
}

/// Decodes a byte buffer as text, byte by byte: ASCII bytes stand for
/// themselves, every other byte becomes the replacement character.
pub fn string_from_bytes_lossy(bytes: &[u8]) -> (r: String)
    ensures
        r@ == spec_chars_of_bytes(bytes@),
{
    let mut out = String::new();
    let n = bytes.len();
    let mut i: usize = 0;
    while i < n
        invariant
            n == bytes@.len(),
            0 <= i <= n,
            out@.len() == i,
            forall|k: int| 0 <= k < i ==> out@[k] == spec_char_of_byte(#[trigger] bytes@[k]),
        decreases n - i,
    {
        let b = bytes[i];
        let c: char = if b < 128 {
            b as char
        } else {
            '\u{FFFD}'
        };
        string_push(&mut out, c);
        i = i + 1;
    }
    proof {
        assert(out@ =~= spec_chars_of_bytes(bytes@));
    }
    out
}

/// The characters of a string, as a vector.
pub fn chars_of(s: &str) -> (r: Vec<char>)
    ensures
        r@ == s@,
{
    let mut out: Vec<char> = Vec::new();
    let n = s.unicode_len();
    let mut i: usize = 0;
    while i < n
        invariant
            n == s@.len(),
            0 <= i <= n,
            out@.len() == i,
            forall|k: int| 0 <= k < i ==> out@[k] == s@[k],
        decreases n - i,
    {
        out.push(s.get_char(i));
        i = i + 1;
    }
    proof {
        assert(out@ =~= s@);
    }
    out
}

/// A string holding exactly the given characters.
pub fn string_from_chars(chars: &Vec<char>) -> (r: String)
    ensures
        r@ == chars@,
{
    let mut out = String::new();
    let n = chars.len();
    let mut i: usize = 0;
    while i < n
        invariant
            n == chars@.len(),
            0 <= i <= n,
            out@.len() == i,
            forall|k: int| 0 <= k < i ==> out@[k] == chars@[k],
        decreases n - i,
    {
        string_push(&mut out, chars[i]);
        i = i + 1;
    }
    proof {
        assert(out@ =~= chars@);
    }
    out
}

/// ASCII case folding of one character: `A`..`Z` map to `a`..`z`, everything
/// else stays.
pub open spec fn spec_lower_char(c: char) -> char {
    if 65 <= c as u32 <= 90 {
        ((c as u32) + 32) as char
    } else {
        c
    }
}

/// ASCII case folding of a character sequence.
pub open spec fn spec_lower(s: Seq<char>) -> Seq<char> {
    Seq::new(s.len(), |i: int| spec_lower_char(s[i]))
}

/// ASCII case folding of one character.
pub fn to_lower_char(c: char) -> (r: char)
    ensures
        r == spec_lower_char(c),
{
    let u = c as u32;
    if 65 <= u && u <= 90 {
        ((u + 32) as u8) as char
    } else {
        c
    }
}

/// ASCII case folding of a string.
pub fn ascii_lowercase(s: &str) -> (r: String)
    ensures
        r@ == spec_lower(s@),
{
    let chars = chars_of(s);
    let mut out = String::new();
    let n = chars.len();
    let mut i: usize = 0;
    while i < n
        invariant
            chars@ == s@,
            n == chars@.len(),
            0 <= i <= n,
            out@.len() == i,
            forall|k: int| 0 <= k < i ==> out@[k] == spec_lower_char(#[trigger] chars@[k]),
        decreases n - i,
    {
        string_push(&mut out, to_lower_char(chars[i]));
        i = i + 1;
    }
    proof {
        assert(out@ =~= spec_lower(s@));
    }
    out
}

/// Whether `needle` occurs in `haystack` starting at position `i`.
pub open spec fn spec_matches_at(haystack: Seq<char>, needle: Seq<char>, i: int) -> bool {
    0 <= i && i + needle.len() <= haystack.len() && haystack.subrange(i, i + needle.len())
        == needle
}

/// Whether `needle` occurs anywhere in `haystack`.
pub open spec fn spec_str_contains(haystack: Seq<char>, needle: Seq<char>) -> bool {
    exists|i: int| spec_matches_at(haystack, needle, i)
}

/// Whether `needle` occurs in `haystack` starting at position `i`.
fn chars_match_at(h: &Vec<char>, n: &Vec<char>, i: usize) -> (r: bool)
    requires
        i + n@.len() <= h@.len(),
    ensures
        r == spec_matches_at(h@, n@, i as int),
{
    let n_len = n.len();
    let h_len = h.len();
    let mut j: usize = 0;
    while j < n_len
        invariant
            n_len == n@.len(),
            h_len == h@.len(),
            i + n_len <= h@.len(),
            0 <= j <= n_len,
            forall|k: int| 0 <= k < j ==> h@[i + k] == (#[trigger] n@[k]),
        decreases n_len - j,
    {
        if h[i + j] != n[j] {
            proof {
                if spec_matches_at(h@, n@, i as int) {
                    assert(h@.subrange(i as int, i + n@.len())[j as int] == n@[j as int]);
                }
            }
            return false;
        }
        j = j + 1;
    }
    proof {
        assert(h@.subrange(i as int, i + n@.len()) =~= n@);
    }
    true
}

/// Whether `needle` occurs anywhere in `haystack`.
pub fn str_contains(haystack: &str, needle: &str) -> (r: bool)
    ensures
        r == spec_str_contains(haystack@, needle@),
{
    let h = chars_of(haystack);
    let n = chars_of(needle);
    let h_len = h.len();
    let n_len = n.len();
    if n_len > h_len {
        proof {
            assert(!spec_str_contains(haystack@, needle@));
        }
        return false;
    }
    if n_len == 0 {
        proof {
            assert(haystack@.subrange(0, 0) =~= needle@);
            assert(spec_matches_at(haystack@, needle@, 0));
        }
        return true;
    }
    let mut i: usize = 0;
    while i <= h_len - n_len
        invariant
            h@ == haystack@,
            n@ == needle@,
            h_len == h@.len(),
            n_len == n@.len(),
            1 <= n_len <= h_len,
            0 <= i <= h_len - n_len + 1,
            forall|k: int| 0 <= k < i ==> !spec_matches_at(haystack@, needle@, k),
        decreases h_len - n_len + 1 - i,
    {
        if chars_match_at(&h, &n, i) {
            return true;
        }
        i = i + 1;
    }
    proof {
        assert forall|k: int| !spec_matches_at(haystack@, needle@, k) by {
            if 0 <= k && k + needle@.len() <= haystack@.len() {
                assert(k < i);
            }
        }
    }
    false
}

/// Whether `prefix` begins `s`.
pub open spec fn spec_starts_with(s: Seq<char>, prefix: Seq<char>) -> bool {
    spec_matches_at(s, prefix, 0)
}

/// Whether `prefix` begins `s`.
pub fn str_starts_with(s: &str, prefix: &str) -> (r: bool)
    ensures
        r == spec_starts_with(s@, prefix@),
{
    let sc = chars_of(s);
    let pc = chars_of(prefix);
    let s_len = sc.len();
    let p_len = pc.len();
    if p_len > s_len {
        return false;
    }
    let mut j: usize = 0;
    while j < p_len
        invariant
            sc@ == s@,
            pc@ == prefix@,
            s_len == sc@.len(),
            p_len == pc@.len(),
            p_len <= s_len,
            0 <= j <= p_len,
            forall|k: int| 0 <= k < j ==> s@[k] == prefix@[k],
        decreases p_len - j,
    {
        if sc[j] != pc[j] {
            proof {
                if spec_starts_with(s@, prefix@) {
                    assert(s@.subrange(0, p_len as int)[j as int] == prefix@[j as int]);
                }
            }
            return false;
        }
        j = j + 1;
    }
    proof {
        assert(s@.subrange(0, p_len as int) =~= prefix@);
    }
    true
}

/// Whether `c` is a decimal digit.
pub open spec fn spec_is_digit(c: char) -> bool {
    48 <= c as u32 <= 57
}

/// The numeric value of a digit sequence read in base ten.
pub open spec fn spec_digits_value(s: Seq<char>) -> int
    decreases s.len(),
{
    if s.len() == 0 {
        0
    } else {
        10 * spec_digits_value(s.drop_last()) + (s.last() as u32 - 48)
    }
}

/// Whether `s` is a well-formed optionally-signed decimal integer: an
/// optional `+` or `-` sign followed by at least one digit.
pub open spec fn spec_is_int_string(s: Seq<char>) -> bool {
    let digits = spec_int_string_digits(s);
    &&& digits.len() > 0
    &&& forall|i: int| 0 <= i < digits.len() ==> spec_is_digit(#[trigger] digits[i])
}

/// The digit part of an optionally-signed decimal integer string.
pub open spec fn spec_int_string_digits(s: Seq<char>) -> Seq<char> {
    if s.len() > 0 && (s[0] == '+' || s[0] == '-') {
        s.drop_first()
    } else {
        s
    }
}

/// The value of an optionally-signed decimal integer string.
pub open spec fn spec_int_string_value(s: Seq<char>) -> int {
    if s.len() > 0 && s[0] == '-' {
        -spec_digits_value(spec_int_string_digits(s))
    } else {
        spec_digits_value(spec_int_string_digits(s))
    }
}

/// Parses an optionally-signed decimal integer, as `str::parse::<i64>` does:
/// `Ok` exactly for a well-formed string whose value fits the type.
pub fn parse_i64_chars(chars: &Vec<char>) -> (r: Option<i64>)
    ensures
        r matches Some(v) ==> spec_is_int_string(chars@) && i64::MIN <= spec_int_string_value(
            chars@,
        ) <= i64::MAX && v == spec_int_string_value(chars@),
        r is None ==> !spec_is_int_string(chars@) || !(i64::MIN <= spec_int_string_value(chars@)
            <= i64::MAX),
{
    let n = chars.len();
    if n == 0 {
        return None;
    }
    let first = chars[0];
    let negative = first == '-';
    let start: usize = if first == '-' || first == '+' {
        1
    } else {
        0
    };
    if n == start {
        return None;
    }
    let ghost digits = spec_int_string_digits(chars@);
    proof {
        assert(digits.len() == n - start);
        assert(forall|k: int| 0 <= k < digits.len() ==> digits[k] == chars@[start + k]);
    }
    // Accumulate the negated magnitude, so that i64::MIN parses too.
    let mut acc: i64 = 0;
    let mut i: usize = start;
    while i < n
        invariant
            n == chars@.len(),
            start <= i <= n,
            start == if chars@[0] == '-' || chars@[0] == '+' { 1int } else { 0int },
            n > start,
            digits == spec_int_string_digits(chars@),
            digits.len() == n - start,
            forall|k: int| 0 <= k < digits.len() ==> digits[k] == chars@[start + k],
            forall|k: int| 0 <= k < i - start ==> spec_is_digit(#[trigger] digits[k]),
            acc == -spec_digits_value(digits.subrange(0, i - start)),
            i64::MIN <= acc <= 0,
        decreases n - i,
    {
        let c = chars[i];
        let u = c as u32;
        if !(48 <= u && u <= 57) {
            proof {
                assert(!spec_is_digit(digits[i - start]));
            }
            return None;
        }
        let d = (u - 48) as i64;
        proof {
            assert(digits.subrange(0, i + 1 - start).drop_last() =~= digits.subrange(
                0,
                i - start,
            ));
            assert(digits.subrange(0, i + 1 - start).last() == c);
        }
        let ghost value_next = spec_digits_value(digits.subrange(0, i + 1 - start));
        let stepped = match acc.checked_mul(10) {
            Some(a) => a.checked_sub(d),
            None => None,
        };
        acc = match stepped {
            Some(a) => a,
            None => {
                // The magnitude already exceeds the 64-bit range, and more
                // digits only grow it.
                proof {
                    assert(value_next > 0x8000000000000000int);
                    if spec_is_int_string(chars@) {
                        lemma_digits_prefix_bound(digits, (i + 1 - start) as int);
                        assert(spec_digits_value(digits) >= value_next);
                        assert(digits.subrange(0, digits.len() as int) =~= digits);
                    }
                }
                return None;
            },
        };
        i = i + 1;
    }
    proof {
        assert(digits.subrange(0, digits.len() as int) =~= digits);
    }
    if negative {
        Some(acc)
    } else {
        if acc == i64::MIN {
            return None;
        }
        Some(-acc)
    }
}

/// Appending digits never shrinks a digit string's value.
proof fn lemma_digits_prefix_bound(digits: Seq<char>, i: int)
    requires
        0 <= i <= digits.len(),
        forall|k: int| 0 <= k < digits.len() ==> spec_is_digit(#[trigger] digits[k]),
    ensures
        spec_digits_value(digits) >= spec_digits_value(digits.subrange(0, i)) >= 0,
    decreases digits.len() - i,
{
    lemma_digits_value_nonneg_sub(digits, i);
    if i < digits.len() {
        assert(digits.subrange(0, i + 1).drop_last() =~= digits.subrange(0, i));
        lemma_digits_value_nonneg_sub(digits, i + 1);
        lemma_digits_prefix_bound(digits, i + 1);
    } else {
        assert(digits.subrange(0, i) =~= digits);
    }
}

/// A digit string prefix's value is never negative.
proof fn lemma_digits_value_nonneg_sub(digits: Seq<char>, i: int)
    requires
        0 <= i <= digits.len(),
        forall|k: int| 0 <= k < digits.len() ==> spec_is_digit(#[trigger] digits[k]),
    ensures
        spec_digits_value(digits.subrange(0, i)) >= 0,
{
    lemma_digits_value_nonneg(digits.subrange(0, i));
}

/// A digit string's value is never negative.
proof fn lemma_digits_value_nonneg(s: Seq<char>)
    requires
        forall|k: int| 0 <= k < s.len() ==> spec_is_digit(#[trigger] s[k]),
    ensures
        spec_digits_value(s) >= 0,
    decreases s.len(),
{
    if s.len() > 0 {
        lemma_digits_value_nonneg(s.drop_last());
    }
}

/// Parses an optionally-signed decimal integer, as `str::parse::<i32>` does.
pub fn parse_i32_chars(chars: &Vec<char>) -> (r: Option<i32>)
    ensures
        r matches Some(v) ==> spec_is_int_string(chars@) && i32::MIN <= spec_int_string_value(
            chars@,
        ) <= i32::MAX && v == spec_int_string_value(chars@),
        r is None ==> !spec_is_int_string(chars@) || !(i32::MIN <= spec_int_string_value(chars@)
            <= i32::MAX),
{
    match parse_i64_chars(chars) {
        Some(v) => {
            if i32::MIN as i64 <= v && v <= i32::MAX as i64 {
                Some(v as i32)
            } else {
                None
            }
        },
        None => {
            proof {
                if spec_is_int_string(chars@) && i32::MIN <= spec_int_string_value(chars@)
                    <= i32::MAX {
                }
            }
            None
        },
    }
}

/// Parses an optionally-signed decimal integer from a string,
/// as `str::parse::<i32>` does.
pub fn parse_i32_str(s: &str) -> (r: Option<i32>)
    ensures
        r matches Some(v) ==> spec_is_int_string(s@) && i32::MIN <= spec_int_string_value(s@)
            <= i32::MAX && v == spec_int_string_value(s@),
        r is None ==> !spec_is_int_string(s@) || !(i32::MIN <= spec_int_string_value(s@)
            <= i32::MAX),
{
    let chars = chars_of(s);
    parse_i32_chars(&chars)
}


/// Whether `c` is one of the ASCII whitespace characters.
pub open spec fn spec_is_space(c: char) -> bool {
    c == ' ' || c == '\t' || c == '\n' || c == '\r'
}

/// Whether `c` is one of the ASCII whitespace characters.
pub fn is_space_char(c: char) -> (r: bool)
    ensures
        r == spec_is_space(c),
{
    c == ' ' || c == '\t' || c == '\n' || c == '\r'
}

/// The index of the first whitespace character, or the length if none.
pub open spec fn spec_first_space(s: Seq<char>) -> int
    decreases s.len(),
{
    if s.len() == 0 {
        0
    } else if spec_is_space(s[0]) {
        0
    } else {
        1 + spec_first_space(s.drop_first())
    }
}

/// The index of the first non-whitespace character, or the length if none.
pub open spec fn spec_first_non_space(s: Seq<char>) -> int
    decreases s.len(),
{
    if s.len() == 0 {
        0
    } else if !spec_is_space(s[0]) {
        0
    } else {
        1 + spec_first_non_space(s.drop_first())
    }
}

/// The index one past the last non-whitespace character, or 0 if all
/// whitespace.
pub open spec fn spec_last_non_space_end(s: Seq<char>) -> int
    decreases s.len(),
{
    if s.len() == 0 {
        0
    } else if !spec_is_space(s.last()) {
        s.len() as int
    } else {
        spec_last_non_space_end(s.drop_last())
    }
}

/// `s` with leading and trailing ASCII whitespace removed.
pub open spec fn spec_trim(s: Seq<char>) -> Seq<char> {
    let start = spec_first_non_space(s);
    let end = spec_last_non_space_end(s);
    if start <= end {
        s.subrange(start, end)
    } else {
        Seq::empty()
    }
}

/// When the first `i` characters are whitespace and character `i` is not,
/// the first-non-space index is `i`; with all characters whitespace it is
/// the length.
proof fn lemma_first_non_space_at(s: Seq<char>, i: int)
    requires
        0 <= i <= s.len(),
        forall|k: int| 0 <= k < i ==> spec_is_space(#[trigger] s[k]),
        i < s.len() ==> !spec_is_space(s[i]),
    ensures
        spec_first_non_space(s) == i,
    decreases i,
{
    if i > 0 {
        lemma_first_non_space_at(s.drop_first(), i - 1);
    }
}

/// The mirror fact for the trailing end.
proof fn lemma_last_non_space_end_at(s: Seq<char>, i: int)
    requires
        0 <= i <= s.len(),
        forall|k: int| i <= k < s.len() ==> spec_is_space(#[trigger] s[k]),
        i > 0 ==> !spec_is_space(s[i - 1]),
    ensures
        spec_last_non_space_end(s) == i,
    decreases s.len() - i,
{
    if i < s.len() {
        assert(s.drop_last() =~= s.subrange(0, s.len() - 1));
        assert(forall|k: int| i <= k < s.drop_last().len() ==> spec_is_space(
            #[trigger] s.drop_last()[k],
        ));
        lemma_last_non_space_end_at(s.drop_last(), i);
    }
}

/// The characters of `s` with leading and trailing ASCII whitespace
/// removed.
pub fn trim_chars(s: &Vec<char>) -> (r: Vec<char>)
    ensures
        r@ == spec_trim(s@),
{
    let n = s.len();
    let mut start: usize = 0;
    while start < n && is_space_char(s[start])
        invariant
            n == s@.len(),
            0 <= start <= n,
            forall|k: int| 0 <= k < start ==> spec_is_space(#[trigger] s@[k]),
        decreases n - start,
    {
        start = start + 1;
    }
    proof {
        lemma_first_non_space_at(s@, start as int);
    }
    let mut end: usize = n;
    while end > start && is_space_char(s[end - 1])
        invariant
            n == s@.len(),
            start <= end <= n,
            spec_first_non_space(s@) == start,
            forall|k: int| end <= k < n ==> spec_is_space(#[trigger] s@[k]),
        decreases end,
    {
        end = end - 1;
    }
    let mut out: Vec<char> = Vec::new();
    let mut i: usize = start;
    while i < end
        invariant
            n == s@.len(),
            start <= i <= end <= n,
            out@.len() == i - start,
            forall|k: int| 0 <= k < i - start ==> out@[k] == s@[start + k],
        decreases end - i,
    {
        out.push(s[i]);
        i = i + 1;
    }
    proof {
        if end == start {
            if start == n {
                lemma_last_non_space_end_at(s@, 0);
            } else {
                assert(!spec_is_space(s@[start as int]));
                assert(spec_is_space(s@[end as int]));
                assert(false);
            }
            assert(out@ =~= spec_trim(s@));
        } else {
            assert(!spec_is_space(s@[end - 1]));
            lemma_last_non_space_end_at(s@, end as int);
            assert(out@ =~= s@.subrange(start as int, end as int));
        }
    }
    out
}

/// The whitespace-separated tokens of `s`, in order, each non-empty.
pub open spec fn spec_tokens(s: Seq<char>) -> Seq<Seq<char>>
    decreases s.len(),
{
    if s.len() == 0 {
        Seq::empty()
    } else if spec_is_space(s[0]) {
        spec_tokens(s.drop_first())
    } else {
        let e = spec_first_space(s);
        if 1 <= e <= s.len() {
            seq![s.subrange(0, e)] + spec_tokens(s.subrange(e, s.len() as int))
        } else {
            seq![s]
        }
    }
}

/// Skipping one leading space drops nothing but that space.
proof fn lemma_tokens_skip_space(s: Seq<char>, i: int)
    requires
        0 <= i <= s.len(),
        forall|k: int| 0 <= k < i ==> spec_is_space(#[trigger] s[k]),
    ensures
        spec_tokens(s) == spec_tokens(s.subrange(i, s.len() as int)),
    decreases i,
{
    if i > 0 {
        assert(spec_tokens(s) == spec_tokens(s.drop_first()));
        assert(s.drop_first() =~= s.subrange(1, s.len() as int));
        assert(s.subrange(1, s.len() as int).subrange(i - 1, s.len() - 1) =~= s.subrange(
            i,
            s.len() as int,
        ));
        lemma_tokens_skip_space(s.subrange(1, s.len() as int), i - 1);
    } else {
        assert(s.subrange(0, s.len() as int) =~= s);
    }
}

/// When the first `e` characters are non-space and character `e` is a space
/// (or the end), the first-space index is `e`.
proof fn lemma_first_space_at(s: Seq<char>, e: int)
    requires
        0 <= e <= s.len(),
        forall|k: int| 0 <= k < e ==> !spec_is_space(#[trigger] s[k]),
        e < s.len() ==> spec_is_space(s[e]),
    ensures
        spec_first_space(s) == e,
    decreases e,
{
    if e > 0 {
        lemma_first_space_at(s.drop_first(), e - 1);
    }
}

/// The whitespace-separated tokens of `s`.
#[verifier::loop_isolation(false)]
pub fn tokenize(s: &Vec<char>) -> (r: Vec<Vec<char>>)
    ensures
        spec_token_views(r@) == spec_tokens(s@),
{
    let n = s.len();
    let mut out: Vec<Vec<char>> = Vec::new();
    let mut pos: usize = 0;
    proof {
        assert(s@.subrange(0, n as int) =~= s@);
        assert(spec_token_views(out@) =~= Seq::<Seq<char>>::empty());
    }
    while pos < n
        invariant
            0 <= pos <= n,
            spec_tokens(s@) == spec_token_views(out@) + spec_tokens(
                s@.subrange(pos as int, n as int),
            ),
        decreases n - pos,
    {
        let ghost suffix = s@.subrange(pos as int, n as int);
        if is_space_char(s[pos]) {
            proof {
                assert(suffix[0] == s@[pos as int]);
                assert(spec_tokens(suffix) == spec_tokens(suffix.drop_first()));
                assert(suffix.drop_first() =~= s@.subrange(pos + 1, n as int));
            }
            pos = pos + 1;
        } else {
            let token_start = pos;
            let mut token_end = pos;
            while token_end < n && !is_space_char(s[token_end])
                invariant
                    token_start <= token_end <= n,
                    forall|k: int|
                        token_start <= k < token_end ==> !spec_is_space(#[trigger] s@[k]),
                decreases n - token_end,
            {
                token_end = token_end + 1;
            }
            let mut token: Vec<char> = Vec::new();
            let mut i: usize = token_start;
            while i < token_end
                invariant
                    token_start <= i <= token_end <= n,
                    token@.len() == i - token_start,
                    forall|k: int| 0 <= k < i - token_start ==> token@[k] == s@[token_start + k],
                decreases token_end - i,
            {
                token.push(s[i]);
                i = i + 1;
            }
            proof {
                assert(forall|k: int|
                    0 <= k < token_end - token_start ==> !spec_is_space(#[trigger] suffix[k]));
                if token_end < n {
                    assert(spec_is_space(suffix[token_end - token_start]));
                }
                lemma_first_space_at(suffix, token_end - token_start);
                assert(token@ =~= suffix.subrange(0, token_end - token_start));
                assert(suffix.subrange(token_end - token_start, suffix.len() as int)
                    =~= s@.subrange(token_end as int, n as int));
                assert(spec_tokens(suffix) == seq![token@] + spec_tokens(
                    s@.subrange(token_end as int, n as int),
                ));
            }
            let ghost out_before = spec_token_views(out@);
            out.push(token);
            proof {
                assert(spec_token_views(out@) =~= out_before.push(out@.last()@));
                assert(spec_token_views(out@) + spec_tokens(
                    s@.subrange(token_end as int, n as int),
                ) =~= spec_tokens(s@));
            }
            pos = token_end;
        }
    }
    proof {
        assert(s@.subrange(n as int, n as int) =~= Seq::<char>::empty());
        assert(spec_token_views(out@) =~= spec_tokens(s@));
    }
    out
}

/// The texts held by a list of character vectors.
pub open spec fn spec_token_views(s: Seq<Vec<char>>) -> Seq<Seq<char>> {
    Seq::new(s.len(), |i: int| s[i]@)
}

/// The given texts joined with single spaces.
pub open spec fn spec_join_spaces(parts: Seq<Seq<char>>) -> Seq<char>
    decreases parts.len(),
{
    if parts.len() == 0 {
        Seq::empty()
    } else if parts.len() == 1 {
        parts[0]
    } else {
        spec_join_spaces(parts.drop_last()) + seq![' '] + parts.last()
    }
}

/// The given texts joined with single spaces.
#[verifier::loop_isolation(false)]
pub fn join_spaces(parts: &Vec<Vec<char>>) -> (r: Vec<char>)
    ensures
        r@ == spec_join_spaces(spec_token_views(parts@)),
{
    let mut out: Vec<char> = Vec::new();
    let n = parts.len();
    let mut i: usize = 0;
    proof {
        assert(spec_token_views(parts@).subrange(0, 0) =~= Seq::<Seq<char>>::empty());
    }
    while i < n
        invariant
            0 <= i <= n,
            out@ == spec_join_spaces(spec_token_views(parts@).subrange(0, i as int)),
        decreases n - i,
    {
        proof {
            assert(spec_token_views(parts@).subrange(0, i + 1).drop_last() =~= spec_token_views(
                parts@,
            ).subrange(0, i as int));
            assert(spec_token_views(parts@).subrange(0, i + 1).last() == parts@[i as int]@);
        }
        if i > 0 {
            string_push_char_vec(&mut out, ' ');
        }
        let part = &parts[i];
        let m = part.len();
        let mut j: usize = 0;
        let ghost out_before = out@;
        while j < m
            invariant
                m == part@.len(),
                0 <= j <= m,
                part@ == parts@[i as int]@,
                out@ == out_before + part@.subrange(0, j as int),
            decreases m - j,
        {
            out.push(part[j]);
            proof {
                assert(out@ =~= out_before + part@.subrange(0, j + 1));
            }
            j = j + 1;
        }
        proof {
            assert(part@.subrange(0, m as int) =~= part@);
            if i == 0 {
                assert(spec_token_views(parts@).subrange(0, 1).len() == 1);
                assert(out@ =~= parts@[0]@);
                assert(out@ =~= spec_join_spaces(spec_token_views(parts@).subrange(0, 1)));
            } else {
                assert(out@ =~= spec_join_spaces(
                    spec_token_views(parts@).subrange(0, i as int),
                ) + seq![' '] + parts@[i as int]@);
                assert(out@ =~= spec_join_spaces(spec_token_views(parts@).subrange(0, i + 1)));
            }
        }
        i = i + 1;
    }
    proof {
        assert(spec_token_views(parts@).subrange(0, n as int) =~= spec_token_views(parts@));
    }
    out
}

/// Appends one character to a character vector.
fn string_push_char_vec(s: &mut Vec<char>, c: char)
    ensures
        final(s)@ == old(s)@.push(c),
{
    s.push(c);
}

/// The characters of `s` that are not `removed`, in order.
pub open spec fn spec_remove_char(s: Seq<char>, removed: char) -> Seq<char>
    decreases s.len(),
{
    if s.len() == 0 {
        Seq::empty()
    } else {
        let rest = spec_remove_char(s.drop_last(), removed);
        if s.last() == removed {
            rest
        } else {
            rest.push(s.last())
        }
    }
}

/// The characters of `s` that are not `removed`, in order.
pub fn remove_char(s: &Vec<char>, removed: char) -> (r: Vec<char>)
    ensures
        r@ == spec_remove_char(s@, removed),
{
    let n = s.len();
    let mut out: Vec<char> = Vec::new();
    proof {
        assert(s@.subrange(0, 0) =~= Seq::<char>::empty());
    }
    let mut i: usize = 0;
    while i < n
        invariant
            n == s@.len(),
            0 <= i <= n,
            out@ == spec_remove_char(s@.subrange(0, i as int), removed),
        decreases n - i,
    {
        proof {
            assert(s@.subrange(0, i + 1).drop_last() =~= s@.subrange(0, i as int));
            assert(s@.subrange(0, i + 1).last() == s@[i as int]);
        }
        if s[i] != removed {
            out.push(s[i]);
        }
        i = i + 1;
    }
    proof {
        assert(s@.subrange(0, n as int) =~= s@);
    }
    out
}


/// Lexicographic order on texts, by character code point: whether `a` sorts
/// no later than `b`.
pub open spec fn spec_text_le(a: Seq<char>, b: Seq<char>) -> bool
    decreases a.len(),
{
    if a.len() == 0 {
        true
    } else if b.len() == 0 {
        false
    } else if a[0] != b[0] {
        (a[0] as u32) < (b[0] as u32)
    } else {
        spec_text_le(a.drop_first(), b.drop_first())
    }
}

/// Whether `a` sorts no later than `b`; see [`spec_text_le`].
pub fn text_le(a: &Vec<char>, b: &Vec<char>) -> (r: bool)
    ensures
        r == spec_text_le(a@, b@),
    decreases a@.len(),
{
    let a_len = a.len();
    let b_len = b.len();
    proof {
        assert(a@.subrange(0, a_len as int) =~= a@);
        assert(b@.subrange(0, b_len as int) =~= b@);
    }
    let mut i: usize = 0;
    while i < a_len && i < b_len && a[i] == b[i]
        invariant
            a_len == a@.len(),
            b_len == b@.len(),
            0 <= i <= a_len,
            i <= b_len,
            spec_text_le(a@, b@) == spec_text_le(
                a@.subrange(i as int, a_len as int),
                b@.subrange(i as int, b_len as int),
            ),
        decreases a_len - i,
    {
        proof {
            let sa = a@.subrange(i as int, a_len as int);
            let sb = b@.subrange(i as int, b_len as int);
            assert(sa[0] == a@[i as int] && sb[0] == b@[i as int]);
            assert(sa.drop_first() =~= a@.subrange(i + 1, a_len as int));
            assert(sb.drop_first() =~= b@.subrange(i + 1, b_len as int));
        }
        i = i + 1;
    }
    proof {
        let sa = a@.subrange(i as int, a_len as int);
        let sb = b@.subrange(i as int, b_len as int);
        if i < a_len && i < b_len {
            assert(sa[0] == a@[i as int] && sb[0] == b@[i as int]);
        } else if i == a_len {
            assert(sa.len() == 0);
        } else {
            assert(sb.len() == 0 && sa.len() > 0);
        }
    }
    if i == a_len {
        true
    } else if i == b_len {
        false
    } else {
        (a[i] as u32) < (b[i] as u32)
    }
}

} // verus!
