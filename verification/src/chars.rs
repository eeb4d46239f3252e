//! Text as sequences of characters: white space, trimming, splitting on
//! white space or on a pattern, and reading 32-bit integers.

use vstd::prelude::*;
use crate::scan::first_of;

verus! {

/// Whether a character has the Unicode White_Space property (what
/// `char::is_whitespace` answers).
pub open spec fn is_white_space(c: char) -> bool {
    let u = c as u32;
    ||| 9 <= u <= 13
    ||| u == 32
    ||| u == 0x85
    ||| u == 0xA0
    ||| u == 0x1680
    ||| 0x2000 <= u <= 0x200A
    ||| u == 0x2028
    ||| u == 0x2029
    ||| u == 0x202F
    ||| u == 0x205F
    ||| u == 0x3000
}

/// Whether a character has the Unicode White_Space property.
pub fn white_space(c: char) -> (b: bool)
    ensures
        b == is_white_space(c),
{
    let u = c as u32;
    (9 <= u && u <= 13) || u == 32 || u == 0x85 || u == 0xA0 || u == 0x1680 || (0x2000 <= u && u <= 0x200A)
        || u == 0x2028 || u == 0x2029 || u == 0x202F || u == 0x205F || u == 0x3000
}

/// The first index at or after `i` that is not white space, or `s.len()`.
pub open spec fn first_non_ws(s: Seq<char>, i: int) -> int
    decreases s.len() - i,
{
    if i >= s.len() {
        s.len() as int
    } else if !is_white_space(s[i]) {
        i
    } else {
        first_non_ws(s, i + 1)
    }
}

/// The first index at or after `i` that is white space, or `s.len()`.
pub open spec fn first_ws(s: Seq<char>, i: int) -> int
    decreases s.len() - i,
{
    if i >= s.len() {
        s.len() as int
    } else if is_white_space(s[i]) {
        i
    } else {
        first_ws(s, i + 1)
    }
}

/// The end of `s[..j]` once its trailing white space is dropped.
pub open spec fn trimmed_end(s: Seq<char>, j: int) -> int
    decreases j,
{
    if j <= 0 {
        0
    } else if is_white_space(s[j - 1]) {
        trimmed_end(s, j - 1)
    } else {
        j
    }
}

/// `s` without leading and trailing white space (what `str::trim` gives).
pub open spec fn trim(s: Seq<char>) -> Seq<char> {
    let a = first_non_ws(s, 0);
    if a >= s.len() {
        Seq::empty()
    } else {
        s.subrange(a, trimmed_end(s, s.len() as int))
    }
}

pub proof fn lemma_first_non_ws(s: Seq<char>, i: int)
    requires
        0 <= i <= s.len(),
    ensures
        i <= first_non_ws(s, i) <= s.len(),
        forall|t: int| i <= t < first_non_ws(s, i) ==> is_white_space(s[t]),
        first_non_ws(s, i) < s.len() ==> !is_white_space(s[first_non_ws(s, i)]),
    decreases s.len() - i,
{
    if i < s.len() && is_white_space(s[i]) {
        lemma_first_non_ws(s, i + 1);
    }
}

pub proof fn lemma_first_ws(s: Seq<char>, i: int)
    requires
        0 <= i <= s.len(),
    ensures
        i <= first_ws(s, i) <= s.len(),
        forall|t: int| i <= t < first_ws(s, i) ==> !is_white_space(s[t]),
        first_ws(s, i) < s.len() ==> is_white_space(s[first_ws(s, i)]),
    decreases s.len() - i,
{
    if i < s.len() && !is_white_space(s[i]) {
        lemma_first_ws(s, i + 1);
    }
}

pub proof fn lemma_trimmed_end(s: Seq<char>, j: int)
    requires
        0 <= j <= s.len(),
    ensures
        0 <= trimmed_end(s, j) <= j,
        forall|t: int| trimmed_end(s, j) <= t < j ==> is_white_space(s[t]),
        trimmed_end(s, j) > 0 ==> !is_white_space(s[trimmed_end(s, j) - 1]),
    decreases j,
{
    if j > 0 && is_white_space(s[j - 1]) {
        lemma_trimmed_end(s, j - 1);
    }
}

/// The pieces of `s[i..]` between runs of white space, empty pieces left
/// out (what `str::split_whitespace` yields).
pub open spec fn ws_tokens_from(s: Seq<char>, i: int) -> Seq<Seq<char>>
    decreases s.len() - i,
{
    if i < 0 || i >= s.len() {
        Seq::empty()
    } else {
        let a = first_non_ws(s, i);
        proof {
            lemma_first_non_ws(s, i);
        }
        if a >= s.len() {
            Seq::empty()
        } else {
            let b = first_ws(s, a);
            proof {
                lemma_first_ws(s, a);
            }
            seq![s.subrange(a, b)] + ws_tokens_from(s, b)
        }
    }
}

/// The white-space separated words of `s`.
pub open spec fn ws_tokens(s: Seq<char>) -> Seq<Seq<char>> {
    ws_tokens_from(s, 0)
}

/// The characters of a string.
pub fn chars_of(s: &str) -> (v: Vec<char>)
    ensures
        v@ == s@,
{
    let n = s.unicode_len();
    let mut v: Vec<char> = Vec::new();
    let mut i: usize = 0;
    while i < n
        invariant
            n == s@.len(),
            i <= n,
            v@ == s@.subrange(0, i as int),
        decreases n - i,
    {
        v.push(s.get_char(i));
        i = i + 1;
    }
    assert(v@ =~= s@);
    v
}

/// The index of the first `a` or `b` in `s` at or after `from`, or
/// `s.len()`.
pub fn find_char_of(s: &[char], from: usize, a: char, b: char) -> (j: usize)
    requires
        from <= s@.len(),
    ensures
        j == first_of(s@, from as int, a, b),
        from <= j <= s@.len(),
{
    let mut k = from;
    while k < s.len()
        invariant
            from <= k <= s@.len(),
            first_of(s@, from as int, a, b) == first_of(s@, k as int, a, b),
        decreases s@.len() - k,
    {
        if s[k] == a || s[k] == b {
            return k;
        }
        k = k + 1;
    }
    k
}

pub fn skip_white_space(s: &[char], from: usize) -> (j: usize)
    requires
        from <= s@.len(),
    ensures
        j == first_non_ws(s@, from as int),
{
    let mut k = from;
    while k < s.len()
        invariant
            from <= k <= s@.len(),
            first_non_ws(s@, from as int) == first_non_ws(s@, k as int),
        decreases s@.len() - k,
    {
        if !white_space(s[k]) {
            return k;
        }
        k = k + 1;
    }
    k
}

pub fn skip_word(s: &[char], from: usize) -> (j: usize)
    requires
        from <= s@.len(),
    ensures
        j == first_ws(s@, from as int),
{
    let mut k = from;
    while k < s.len()
        invariant
            from <= k <= s@.len(),
            first_ws(s@, from as int) == first_ws(s@, k as int),
        decreases s@.len() - k,
    {
        if white_space(s[k]) {
            return k;
        }
        k = k + 1;
    }
    k
}

/// The bounds of `s` once trimmed: `s[a..b]` is `trim(s)`.
pub fn trim_bounds(s: &[char]) -> (r: (usize, usize))
    ensures
        r.0 <= r.1 <= s@.len(),
        s@.subrange(r.0 as int, r.1 as int) == trim(s@),
{
    let a = skip_white_space(s, 0);
    proof { lemma_first_non_ws(s@, 0); }
    if a >= s.len() {
        return (a, a);
    }
    let mut j = s.len();
    while j > 0 && white_space(s[j - 1])
        invariant
            j <= s@.len(),
            trimmed_end(s@, s@.len() as int) == trimmed_end(s@, j as int),
        decreases j,
    {
        j = j - 1;
    }
    proof {
        lemma_trimmed_end(s@, s@.len() as int);
        assert(!is_white_space(s@[a as int]));
    }
    (a, j)
}

/// The string without leading and trailing white space.
pub fn trim_str(s: &str) -> (t: &str)
    ensures
        t@ == trim(s@),
{
    let v = chars_of(s);
    let (a, b) = trim_bounds(v.as_slice());
    s.substring_char(a, b)
}

/// The number that a string of decimal digits writes.
pub open spec fn digits_number(s: Seq<char>) -> int
    decreases s.len(),
{
    if s.len() == 0 {
        0
    } else {
        digits_number(s.drop_last()) * 10 + (s.last() as u32 - 48)
    }
}

pub open spec fn is_decimal_digit(c: char) -> bool {
    48 <= c as u32 <= 57
}

/// Whether every character is a decimal digit.
pub open spec fn all_decimal(d: Seq<char>) -> bool {
    forall|i: int| 0 <= i < d.len() ==> is_decimal_digit(#[trigger] d[i])
}

/// The characters after an optional leading sign.
pub open spec fn number_part(s: Seq<char>) -> Seq<char> {
    if s.len() > 0 && (s[0] == '-' || s[0] == '+') { s.drop_first() } else { s }
}

/// What `str::parse::<i32>` gives: an optional '+' or '-', then one or more
/// decimal digits, the number within the range of `i32`.
pub open spec fn parse_i32_spec(s: Seq<char>) -> Option<i32> {
    let digits = number_part(s);
    let neg = s.len() > 0 && s[0] == '-';
    if digits.len() == 0 || !all_decimal(digits) {
        None
    } else {
        let n = if neg { -digits_number(digits) } else { digits_number(digits) };
        if i32::MIN <= n <= i32::MAX { Some(n as i32) } else { None }
    }
}

proof fn lemma_digits_number_prefix(s: Seq<char>, i: int)
    requires
        0 <= i <= s.len(),
        forall|t: int| 0 <= t < s.len() ==> is_decimal_digit(#[trigger] s[t]),
    ensures
        0 <= digits_number(s.subrange(0, i)) <= digits_number(s),
    decreases s.len() - i,
{
    if i < s.len() {
        lemma_digits_number_prefix(s, i + 1);
        let t = s.subrange(0, i + 1);
        assert(t.drop_last() =~= s.subrange(0, i));
        assert(is_decimal_digit(s[i]));
        lemma_digits_number_nonneg(s.subrange(0, i));
    } else {
        assert(s.subrange(0, i) =~= s);
        lemma_digits_number_nonneg(s);
    }
}

proof fn lemma_digits_number_nonneg(s: Seq<char>)
    requires
        forall|t: int| 0 <= t < s.len() ==> is_decimal_digit(#[trigger] s[t]),
    ensures
        0 <= digits_number(s),
    decreases s.len(),
{
    if s.len() > 0 {
        assert(is_decimal_digit(s[s.len() - 1]));
        lemma_digits_number_nonneg(s.drop_last());
    }
}

/// Reads a 32-bit integer as `str::parse::<i32>` does.
pub fn parse_i32(s: &[char]) -> (r: Option<i32>)
    ensures
        r == parse_i32_spec(s@),
{
    let n = s.len();
    let signed = n > 0 && (s[0] == '-' || s[0] == '+');
    let neg = n > 0 && s[0] == '-';
    let start: usize = if signed { 1 } else { 0 };
    let ghost digits = number_part(s@);
    assert(digits =~= s@.subrange(start as int, n as int));
    if start >= n {
        return None;
    }
    let mut i: usize = start;
    while i < n
        invariant
            start <= i <= n,
            n == s@.len(),
            digits == s@.subrange(start as int, n as int),
            digits == number_part(s@),
            forall|t: int| start <= t < i ==> is_decimal_digit(#[trigger] s@[t]),
        decreases n - i,
    {
        let u = s[i] as u32;
        if !(48 <= u && u <= 57) {
            proof {
                assert(digits[i - start] == s@[i as int]);
                assert(!is_decimal_digit(digits[i - start]));
                assert(!all_decimal(digits));
            }
            return None;
        }
        i = i + 1;
    }
    assert(forall|t: int| 0 <= t < digits.len() ==> is_decimal_digit(#[trigger] digits[t])) by {
        assert forall|t: int| 0 <= t < digits.len() implies is_decimal_digit(#[trigger] digits[t]) by {
            assert(digits[t] == s@[t + start]);
        }
    }
    let mut acc: u64 = 0;
    let mut i: usize = start;
    while i < n
        invariant
            start <= i <= n,
            n == s@.len(),
            digits == s@.subrange(start as int, n as int),
            digits == number_part(s@),
            neg == (s@.len() > 0 && s@[0] == '-'),
            forall|t: int| 0 <= t < digits.len() ==> is_decimal_digit(#[trigger] digits[t]),
            acc == digits_number(digits.subrange(0, i - start)),
            acc <= 2147483648,
        decreases n - i,
    {
        proof {
            assert(digits[i - start] == s@[i as int]);
            assert(is_decimal_digit(digits[i - start]));
        }
        let d = (s[i] as u32 - 48) as u64;
        let ghost k = i - start;
        proof {
            let t = digits.subrange(0, k + 1);
            assert(t.drop_last() =~= digits.subrange(0, k));
            assert(t.last() == s@[i as int]);
            lemma_digits_number_prefix(digits, k + 1);
        }
        acc = acc * 10 + d;
        assert(acc == digits_number(digits.subrange(0, k + 1)));
        if acc > 2147483648 {
            proof {
                assert(digits_number(digits) > 2147483648);
            }
            return None;
        }
        i = i + 1;
    }
    assert(digits.subrange(0, n - start) =~= digits);
    if neg {
        Some((0 - acc as i64) as i32)
    } else if acc <= 2147483647 {
        Some(acc as i32)
    } else {
        None
    }
}

/// Whether two strings hold the same characters.
pub fn str_eq(a: &str, b: &str) -> (r: bool)
    ensures
        r == (a@ == b@),
{
    a.to_owned() == b.to_owned()
}

/// The bounds of the first `max` white-space separated words of `v`
/// (fewer when `v` has fewer).
pub fn first_words(v: &[char], max: usize) -> (r: Vec<(usize, usize)>)
    ensures
        r@.len() == if ws_tokens(v@).len() < max { ws_tokens(v@).len() } else { max as nat },
        forall|i: int| 0 <= i < r@.len() ==> {
            &&& (#[trigger] r@[i]).0 <= r@[i].1 <= v@.len()
            &&& v@.subrange(r@[i].0 as int, r@[i].1 as int) == ws_tokens(v@)[i]
        },
{
    let mut r: Vec<(usize, usize)> = Vec::new();
    let mut pos: usize = 0;
    let ghost mut found: Seq<Seq<char>> = Seq::empty();
    while r.len() < max
        invariant
            pos <= v@.len(),
            ws_tokens(v@) == found + ws_tokens_from(v@, pos as int),
            r@.len() == found.len(),
            r@.len() <= max,
            forall|i: int| 0 <= i < r@.len() ==> {
                &&& (#[trigger] r@[i]).0 <= r@[i].1 <= v@.len()
                &&& v@.subrange(r@[i].0 as int, r@[i].1 as int) == found[i]
            },
        decreases max - r@.len(),
    {
        let a = skip_white_space(v, pos);
        proof { lemma_first_non_ws(v@, pos as int); }
        if a >= v.len() {
            proof {
                assert(ws_tokens_from(v@, pos as int) == Seq::<Seq<char>>::empty());
                assert(ws_tokens(v@) =~= found);
            }
            return r;
        }
        let b = skip_word(v, a);
        proof {
            lemma_first_ws(v@, a as int);
            let w = v@.subrange(a as int, b as int);
            assert(ws_tokens_from(v@, pos as int) == seq![w] + ws_tokens_from(v@, b as int));
            assert(ws_tokens(v@) =~= found.push(w) + ws_tokens_from(v@, b as int));
            found = found.push(w);
        }
        r.push((a, b));
        pos = b;
    }
    proof {
        assert(ws_tokens(v@).len() >= found.len());
        assert forall|i: int| 0 <= i < r@.len() implies #[trigger] found[i] == ws_tokens(v@)[i] by {
            assert((found + ws_tokens_from(v@, pos as int))[i] == found[i]);
        }
    }
    r
}

/// `String::push_str` appends the characters of `string` to `s`.
pub assume_specification[ String::push_str ](s: &mut String, string: &str)
    ensures
        final(s)@ == old(s)@ + string@,
;

/// The characters of `a` followed by those of `b`.
pub fn concat(a: &str, b: &str) -> (r: String)
    ensures
        r@ == a@ + b@,
{
    let mut s = a.to_owned();
    s.push_str(b);
    s
}

} // verus!
