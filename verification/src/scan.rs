//! Searching and splitting sequences: the mathematical statements that the
//! parsers are held to, and the loops that compute them.

use vstd::prelude::*;

verus! {

/// The least index `i >= from` with `s[i] == a || s[i] == b`, or `s.len()`
/// when there is none.
pub open spec fn first_of<T>(s: Seq<T>, from: int, a: T, b: T) -> int
    decreases s.len() - from,
{
    if from >= s.len() {
        s.len() as int
    } else if s[from] == a || s[from] == b {
        from
    } else {
        first_of(s, from + 1, a, b)
    }
}

/// What `first_of` means, stated without recursion.
pub proof fn lemma_first_of<T>(s: Seq<T>, from: int, a: T, b: T)
    requires
        0 <= from <= s.len(),
    ensures
        from <= first_of(s, from, a, b) <= s.len(),
        forall|i: int| from <= i < first_of(s, from, a, b) ==> s[i] != a && s[i] != b,
        first_of(s, from, a, b) < s.len() ==> (s[first_of(s, from, a, b)] == a || s[first_of(s, from, a, b)] == b),
    decreases s.len() - from,
{
    if from < s.len() && !(s[from] == a || s[from] == b) {
        lemma_first_of(s, from + 1, a, b);
    }
}

/// The index of the first `a` or `b` in `s` at or after `from`, or
/// `s.len()` when there is none.
pub fn find_of(s: &[u8], from: usize, a: u8, b: u8) -> (j: usize)
    requires
        from <= s@.len(),
    ensures
        j == first_of(s@, from as int, a, b),
        from <= j <= s@.len(),
{
    let mut k = from;
    while k < s.len()
        invariant
            from <= k <= s@.len(),
            first_of(s@, from as int, a, b) == first_of(s@, k as int, a, b),
        decreases s@.len() - k,
    {
        if s[k] == a || s[k] == b {
            return k;
        }
        k = k + 1;
    }
    k
}

/// The pieces of `s[start..]` between the occurrences of `sep`, as
/// `slice::split` yields them: `n` separators give `n + 1` pieces, empty
/// ones included.
pub open spec fn split_from<T>(s: Seq<T>, start: int, sep: T) -> Seq<Seq<T>>
    decreases s.len() - start,
{
    if start < 0 || start > s.len() {
        seq![]
    } else {
        let i = first_of(s, start, sep, sep);
        proof {
            lemma_first_of(s, start, sep, sep);
        }
        if i >= s.len() {
            seq![s.subrange(start, s.len() as int)]
        } else {
            seq![s.subrange(start, i)] + split_from(s, i + 1, sep)
        }
    }
}

/// The pieces of `s` between the occurrences of `sep`.
pub open spec fn split<T>(s: Seq<T>, sep: T) -> Seq<Seq<T>> {
    split_from(s, 0, sep)
}

/// Splitting gives at least one piece.
pub proof fn lemma_split_nonempty<T>(s: Seq<T>, sep: T)
    ensures
        split(s, sep).len() >= 1,
{
    lemma_first_of(s, 0, sep, sep);
}

/// The copy of a slice into a new vector.
pub fn slice_to_vec(s: &[u8]) -> (v: Vec<u8>)
    ensures
        v@ == s@,
{
    let mut v: Vec<u8> = Vec::with_capacity(s.len());
    let mut i: usize = 0;
    while i < s.len()
        invariant
            i <= s@.len(),
            v@ == s@.subrange(0, i as int),
        decreases s@.len() - i,
    {
        v.push(s[i]);
        i = i + 1;
    }
    assert(v@ =~= s@);
    v
}

/// The decimal digits of `n`, as ASCII bytes, without leading zeros.
pub open spec fn decimal(n: nat) -> Seq<u8>
    decreases n,
{
    if n < 10 {
        seq![(48 + n) as u8]
    } else {
        decimal(n / 10).push((48 + n % 10) as u8)
    }
}

/// The decimal digits of `n` (what `format!("{}", n)` writes).
pub fn decimal_bytes(n: usize) -> (v: Vec<u8>)
    ensures
        v@ == decimal(n as nat),
        1 <= v@.len() <= 20,
    decreases n,
{
    if n < 10 {
        let mut v: Vec<u8> = Vec::new();
        v.push(48 + n as u8);
        v
    } else {
        let mut v = decimal_bytes(n / 10);
        assert(v@.len() <= 19) by {
            lemma_decimal_len(n as nat);
        }
        v.push(48 + (n % 10) as u8);
        v
    }
}

/// 10 to the `k`.
pub open spec fn pow10(k: nat) -> nat
    decreases k,
{
    if k == 0 { 1 } else { 10 * pow10((k - 1) as nat) }
}

/// A number below 10^k has at most k digits.
pub proof fn lemma_decimal_len_below(n: nat, k: nat)
    requires
        k >= 1,
        n < pow10(k),
    ensures
        1 <= decimal(n).len() <= k,
    decreases k,
{
    if n >= 10 {
        assert(k >= 2) by {
            if k == 1 { assert(pow10(1) == 10); }
        }
        let k1 = (k - 1) as nat;
        assert(n / 10 < pow10(k1)) by (nonlinear_arith)
            requires n < 10 * pow10(k1);
        lemma_decimal_len_below(n / 10, k1);
    }
}

/// The digit counts used by the formatting code.
pub proof fn lemma_decimal_len(n: nat)
    ensures
        n < 10 ==> decimal(n).len() == 1,
        n < 1000 ==> decimal(n).len() <= 3,
        n <= usize::MAX ==> decimal(n).len() <= 20,
        n < 10000000000000000000 ==> decimal(n).len() <= 19,
        decimal(n).len() >= 1,
{
    reveal_with_fuel(pow10, 21);
    assert(pow10(1) == 10);
    assert(pow10(3) == 1000);
    assert(pow10(19) == 10000000000000000000);
    assert(pow10(20) == 100000000000000000000);
    if n < 10 { lemma_decimal_len_below(n, 1); }
    if n < 1000 { lemma_decimal_len_below(n, 3); }
    if n <= usize::MAX { lemma_decimal_len_below(n, 20); }
    if n < 10000000000000000000 { lemma_decimal_len_below(n, 19); }
}

} // verus!
