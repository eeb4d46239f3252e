//! Splitting header values and query strings into their fields, over the
//! characters of a string.

use vstd::prelude::*;
use crate::scan::{lemma_first_of, split, split_from};
use crate::chars::{find_char_of, parse_i32, parse_i32_spec, trim, chars_of};

verus! {

/// The bounds of the pieces of `v` between the occurrences of `sep`.
pub fn split_ranges(v: &[char], sep: char) -> (r: Vec<(usize, usize)>)
    ensures
        r@.len() == split(v@, sep).len(),
        forall|i: int| 0 <= i < r@.len() ==> {
            &&& (#[trigger] r@[i]).0 <= r@[i].1 <= v@.len()
            &&& v@.subrange(r@[i].0 as int, r@[i].1 as int) == split(v@, sep)[i]
        },
{
    let mut r: Vec<(usize, usize)> = Vec::new();
    let mut start: usize = 0;
    let ghost mut done: Seq<Seq<char>> = Seq::empty();
    loop
        invariant
            start <= v@.len(),
            split(v@, sep) == done + split_from(v@, start as int, sep),
            r@.len() == done.len(),
            forall|i: int| 0 <= i < r@.len() ==> {
                &&& (#[trigger] r@[i]).0 <= r@[i].1 <= v@.len()
                &&& v@.subrange(r@[i].0 as int, r@[i].1 as int) == done[i]
            },
        ensures
            r@.len() == split(v@, sep).len(),
            forall|i: int| 0 <= i < r@.len() ==> {
                &&& (#[trigger] r@[i]).0 <= r@[i].1 <= v@.len()
                &&& v@.subrange(r@[i].0 as int, r@[i].1 as int) == split(v@, sep)[i]
            },
        decreases v@.len() - start,
    {
        let k = find_char_of(v, start, sep, sep);
        proof { lemma_first_of(v@, start as int, sep, sep); }
        r.push((start, k));
        let ghost piece = v@.subrange(start as int, k as int);
        if k >= v.len() {
            proof {
                assert(split_from(v@, start as int, sep) == seq![piece]);
                done = done.push(piece);
                assert(split(v@, sep) =~= done);
            }
            return r;
        }
        proof {
            assert(split_from(v@, start as int, sep) == seq![piece] + split_from(v@, k + 1, sep));
            assert(split(v@, sep) =~= done.push(piece) + split_from(v@, k + 1, sep));
            done = done.push(piece);
        }
        start = k + 1;
    }
}

/// The least index `j >= i` at which `p` occurs in `s`, or `s.len()`.
pub open spec fn find_pat(s: Seq<char>, i: int, p: Seq<char>) -> int
    decreases s.len() - i,
{
    if i < 0 || p.len() == 0 || i + p.len() > s.len() {
        s.len() as int
    } else if s.subrange(i, i + p.len()) == p {
        i
    } else {
        find_pat(s, i + 1, p)
    }
}

/// The pieces of `s[start..]` between the occurrences of `p` (a non-empty
/// pattern), as `str::split` with a string pattern yields them.
pub open spec fn split_pat_from(s: Seq<char>, start: int, p: Seq<char>) -> Seq<Seq<char>>
    decreases s.len() - start,
{
    if start < 0 || start > s.len() || p.len() == 0 {
        seq![]
    } else {
        let j = find_pat(s, start, p);
        proof { lemma_find_pat(s, start, p); }
        if j >= s.len() {
            seq![s.subrange(start, s.len() as int)]
        } else {
            seq![s.subrange(start, j)] + split_pat_from(s, j + p.len(), p)
        }
    }
}

pub open spec fn split_pat(s: Seq<char>, p: Seq<char>) -> Seq<Seq<char>> {
    split_pat_from(s, 0, p)
}

pub proof fn lemma_find_pat(s: Seq<char>, i: int, p: Seq<char>)
    requires
        0 <= i <= s.len(),
        p.len() > 0,
    ensures
        i <= find_pat(s, i, p) <= s.len(),
        find_pat(s, i, p) < s.len() ==> find_pat(s, i, p) + p.len() <= s.len()
            && s.subrange(find_pat(s, i, p), find_pat(s, i, p) + p.len()) == p,
    decreases s.len() - i,
{
    if i + p.len() <= s.len() && s.subrange(i, i + p.len()) != p {
        lemma_find_pat(s, i + 1, p);
    }
}

/// ";q="
pub open spec fn rank_pattern() -> Seq<char> {
    seq![';', 'q', '=']
}

/// Where ";q=" occurs in `v[lo..hi]` at or after `from`, relative to `lo`.
fn find_rank(v: &[char], lo: usize, hi: usize, from: usize) -> (j: usize)
    requires
        lo <= hi <= v@.len(),
        from <= hi - lo,
    ensures
        j == find_pat(v@.subrange(lo as int, hi as int), from as int, rank_pattern()),
{
    let ghost s = v@.subrange(lo as int, hi as int);
    let n = hi - lo;
    let mut i = from;
    while n >= 3 && i <= n - 3
        invariant
            from <= i <= n,
            n == s.len(),
            s == v@.subrange(lo as int, hi as int),
            lo <= hi <= v@.len(),
            find_pat(s, from as int, rank_pattern()) == find_pat(s, i as int, rank_pattern()),
        decreases n - i,
    {
        if v[lo + i] == ';' && v[lo + i + 1] == 'q' && v[lo + i + 2] == '=' {
            assert(s.subrange(i as int, i + 3) =~= rank_pattern());
            return i;
        }
        assert(s.subrange(i as int, i + 3) != rank_pattern()) by {
            if s.subrange(i as int, i + 3) == rank_pattern() {
                assert(s.subrange(i as int, i + 3)[0] == ';');
                assert(s.subrange(i as int, i + 3)[1] == 'q');
                assert(s.subrange(i as int, i + 3)[2] == '=');
            }
        }
        i = i + 1;
    }
    n
}

/// One entry of an Accept list: the media type and the text of its rank
/// (`None` for the default rank 1.0).
pub type RankedType = (String, Option<String>);

pub open spec fn ranked_view(r: RankedType) -> (Seq<char>, Option<Seq<char>>) {
    (r.0@, opt_str(r.1))
}

/// An optional string as an optional sequence of characters.
pub open spec fn opt_str(o: Option<String>) -> Option<Seq<char>> {
    match o {
        Some(q) => Some(q@),
        None => None,
    }
}

/// The entries of an Accept value read from its last comma-separated
/// piece to its first: a piece `type;q=rank` sets the rank that it and the
/// pieces after it carry, a piece without ";q=" carries the rank set last
/// (1.0 at first), and a piece with ";q=" twice is skipped.
pub open spec fn accept_entries(pieces: Seq<Seq<char>>, rank: Option<Seq<char>>) -> Seq<(Seq<char>, Option<Seq<char>>)>
    decreases pieces.len(),
{
    if pieces.len() == 0 {
        Seq::empty()
    } else {
        let parts = split_pat(pieces[0], rank_pattern());
        if parts.len() == 1 {
            seq![(parts[0], rank)] + accept_entries(pieces.drop_first(), rank)
        } else if parts.len() == 2 {
            seq![(parts[0], Some(parts[1]))] + accept_entries(pieces.drop_first(), Some(parts[1]))
        } else {
            accept_entries(pieces.drop_first(), rank)
        }
    }
}

/// The entries of an Accept header's value (its comma-separated pieces
/// taken from the last).
pub open spec fn accept_spec(value: Seq<char>) -> Seq<(Seq<char>, Option<Seq<char>>)> {
    accept_entries(split(value, ',').reverse(), None)
}

/// The entries of an Accept header's value, each media type with the text
/// of its rank (the float that the text writes is read by the caller).
pub fn split_accept(value: &str) -> (r: Vec<RankedType>)
    ensures
        r@.map_values(|e: RankedType| ranked_view(e)) == accept_spec(value@),
{
    let v = chars_of(value);
    let ranges = split_ranges(v.as_slice(), ',');
    let ghost pieces = split(v@, ',').reverse();
    let mut res: Vec<RankedType> = Vec::new();
    let mut rank: Option<String> = None;
    let mut idx = ranges.len();
    proof {
        assert(pieces.skip(0) =~= pieces);
        assert(res@.map_values(|e: RankedType| ranked_view(e)) =~= Seq::<(Seq<char>, Option<Seq<char>>)>::empty());
    }
    while idx > 0
        invariant
            idx <= ranges@.len(),
            v@ == value@,
            ranges@.len() == split(v@, ',').len(),
            pieces == split(v@, ',').reverse(),
            forall|i: int| 0 <= i < ranges@.len() ==> {
                &&& (#[trigger] ranges@[i]).0 <= ranges@[i].1 <= v@.len()
                &&& v@.subrange(ranges@[i].0 as int, ranges@[i].1 as int) == split(v@, ',')[i]
            },
            accept_spec(value@) == res@.map_values(|e: RankedType| ranked_view(e))
                + accept_entries(pieces.skip(ranges@.len() - idx), opt_str(rank)),
        decreases idx,
    {
        idx = idx - 1;
        let ghost t = ranges@.len() - 1 - idx;
        let ghost rank_v = opt_str(rank);
        let ghost old_res = res@.map_values(|e: RankedType| ranked_view(e));
        let (lo, hi) = ranges[idx];
        let ghost piece = v@.subrange(lo as int, hi as int);
        proof {
            assert(pieces[t] == split(v@, ',')[idx as int]);
            assert(pieces.skip(t)[0] == piece);
            assert(pieces.skip(t).drop_first() =~= pieces.skip(t + 1));
            lemma_find_pat(piece, 0, rank_pattern());
        }
        let n = hi - lo;
        let j = find_rank(v.as_slice(), lo, hi, 0);
        if j >= n {
            proof {
                assert(split_pat(piece, rank_pattern()) == seq![piece.subrange(0, piece.len() as int)]);
                assert(piece.subrange(0, piece.len() as int) =~= piece);
            }
            let ty = value.substring_char(lo, hi).to_owned();
            let r = match &rank {
                Some(q) => Some(q.clone()),
                None => None,
            };
            res.push((ty, r));
            proof {
                assert(res@.map_values(|e: RankedType| ranked_view(e)) =~= old_res.push((piece, rank_v)));
                assert(accept_spec(value@) =~= res@.map_values(|e: RankedType| ranked_view(e))
                    + accept_entries(pieces.skip(t + 1), rank_v));
            }
        } else {
            proof {
                lemma_find_pat(piece, j + 3, rank_pattern());
            }
            let j2 = find_rank(v.as_slice(), lo, hi, j + 3);
            if j2 >= n {
                proof {
                    let rest = piece.subrange(j + 3, piece.len() as int);
                    assert(split_pat_from(piece, j + 3, rank_pattern()) == seq![rest]);
                    assert(split_pat(piece, rank_pattern()) =~= seq![piece.subrange(0, j as int), rest]);
                }
                let ty = value.substring_char(lo, lo + j).to_owned();
                let q = value.substring_char(lo + j + 3, hi).to_owned();
                proof {
                    assert(ty@ =~= piece.subrange(0, j as int));
                    assert(q@ =~= piece.subrange(j + 3, piece.len() as int));
                }
                let q2 = q.clone();
                rank = Some(q);
                res.push((ty, Some(q2)));
                proof {
                    assert(res@.map_values(|e: RankedType| ranked_view(e)) =~= old_res.push((piece.subrange(0, j as int), Some(q2@))));
                    assert(accept_spec(value@) =~= res@.map_values(|e: RankedType| ranked_view(e))
                        + accept_entries(pieces.skip(t + 1), Some(q2@)));
                }
            } else {
                proof {
                    lemma_split_pat_len(piece, j2 + 3, rank_pattern());
                    assert(split_pat_from(piece, j + 3, rank_pattern()).len() >= 2);
                    assert(split_pat(piece, rank_pattern()).len() >= 3);
                }
            }
        }
    }
    proof {
        assert(pieces.skip(ranges@.len() as int) =~= Seq::<Seq<char>>::empty());
        assert(accept_spec(value@) =~= res@.map_values(|e: RankedType| ranked_view(e)));
    }
    res
}

/// Splitting always gives at least one piece.
proof fn lemma_split_pat_len(s: Seq<char>, start: int, p: Seq<char>)
    requires
        0 <= start <= s.len(),
        p.len() > 0,
    ensures
        split_pat_from(s, start, p).len() >= 1,
{
    lemma_find_pat(s, start, p);
}

/// A list of strings as sequences of characters.
pub open spec fn strs_view(v: Seq<String>) -> Seq<Seq<char>> {
    v.map_values(|s: String| s@)
}

/// The pieces of a string between the occurrences of `sep`.
pub fn split_str(value: &str, sep: char) -> (r: Vec<String>)
    ensures
        strs_view(r@) == split(value@, sep),
{
    let v = chars_of(value);
    let ranges = split_ranges(v.as_slice(), sep);
    let mut r: Vec<String> = Vec::new();
    let mut i: usize = 0;
    while i < ranges.len()
        invariant
            i <= ranges@.len(),
            v@ == value@,
            ranges@.len() == split(v@, sep).len(),
            forall|t: int| 0 <= t < ranges@.len() ==> {
                &&& (#[trigger] ranges@[t]).0 <= ranges@[t].1 <= v@.len()
                &&& v@.subrange(ranges@[t].0 as int, ranges@[t].1 as int) == split(v@, sep)[t]
            },
            strs_view(r@) == split(v@, sep).take(i as int),
        decreases ranges@.len() - i,
    {
        let ghost before = r@;
        let (lo, hi) = ranges[i];
        proof {
            assert(ranges@[i as int] == (lo, hi));
            assert(v@.subrange(lo as int, hi as int) == split(v@, sep)[i as int]);
        }
        let piece = value.substring_char(lo, hi).to_owned();
        assert(piece@ == split(v@, sep)[i as int]);
        r.push(piece);
        proof {
            assert(r@ == before.push(piece));
            assert(strs_view(before).len() == before.len());
            assert(split(v@, sep).take(i as int).len() == i);
            assert(before.len() == i);
            assert(r@.len() == i + 1);
            assert forall|k: int| 0 <= k < i + 1 implies #[trigger] strs_view(r@)[k] == split(v@, sep).take(i + 1)[k] by {
                if k < i {
                    assert(strs_view(before)[k] == split(v@, sep).take(i as int)[k]);
                }
            }
            assert(strs_view(r@) =~= split(v@, sep).take(i + 1));
        }
        i = i + 1;
    }
    proof {
        assert(split(v@, sep).take(i as int) =~= split(v@, sep));
    }
    r
}

/// The pieces of a string between the occurrences of `sep`, each trimmed.
pub fn split_trimmed(value: &str, sep: char) -> (r: Vec<String>)
    ensures
        strs_view(r@) == split(value@, sep).map_values(|p: Seq<char>| trim(p)),
{
    let pieces = split_str(value, sep);
    let mut r: Vec<String> = Vec::new();
    let mut i: usize = 0;
    while i < pieces.len()
        invariant
            i <= pieces@.len(),
            strs_view(pieces@) == split(value@, sep),
            strs_view(r@) == split(value@, sep).map_values(|p: Seq<char>| trim(p)).take(i as int),
        decreases pieces@.len() - i,
    {
        let ghost before = r@;
        let t = crate::chars::trim_str(pieces[i].as_str()).to_owned();
        proof {
            assert(pieces@[i as int]@ == split(value@, sep)[i as int]);
            assert(t@ == trim(split(value@, sep)[i as int]));
        }
        r.push(t);
        assert(r@ == before.push(t));
        proof {
            let target = split(value@, sep).map_values(|p: Seq<char>| trim(p));
            assert(strs_view(before).len() == before.len());
            assert(target.take(i as int).len() == i);
            assert(before.len() == i);
            assert(r@.len() == i + 1);
            assert forall|k: int| 0 <= k < i + 1 implies #[trigger] strs_view(r@)[k] == target.take(i + 1)[k] by {
                if k < i {
                    assert(strs_view(before)[k] == target.take(i as int)[k]);
                }
            }
        }
        proof {
            assert(strs_view(r@) =~= split(value@, sep).map_values(|p: Seq<char>| trim(p)).take(i + 1));
        }
        i = i + 1;
    }
    proof {
        assert(split(value@, sep).map_values(|p: Seq<char>| trim(p)).take(i as int)
            =~= split(value@, sep).map_values(|p: Seq<char>| trim(p)));
    }
    r
}

/// Whether a Host value can be read: a ':' and, after it, a port that
/// parses as an `i32`.
pub open spec fn host_readable(v: Seq<char>) -> bool {
    split(v, ':').len() >= 2 && parse_i32_spec(split(v, ':')[1]) is Some
}

/// The name and port of a Host value: the text before the first ':' and
/// the number between it and the next ':' (or the end).
pub fn split_host(value: &str) -> (r: Option<(String, i32)>)
    ensures
        match r {
            Some((name, port)) => host_readable(value@) && name@ == split(value@, ':')[0]
                && Some(port) == parse_i32_spec(split(value@, ':')[1]),
            None => !host_readable(value@),
        },
{
    let host = split_str(value, ':');
    if host.len() < 2 {
        return None;
    }
    proof {
        assert(host@[0]@ == split(value@, ':')[0]);
        assert(host@[1]@ == split(value@, ':')[1]);
    }
    let digits = chars_of(host[1].as_str());
    match parse_i32(digits.as_slice()) {
        Some(port) => Some((host[0].clone(), port)),
        None => None,
    }
}

/// Whether a Cache-Control value can be read: when it has exactly one '=',
/// what follows it must parse as an `i32`.
pub open spec fn cache_control_readable(v: Seq<char>) -> bool {
    split(v, '=').len() == 2 ==> parse_i32_spec(split(v, '=')[1]) is Some
}

/// The max-age of a Cache-Control value: the number after its one '=', or
/// 0 when it has no '=' or more than one.
pub open spec fn max_age_spec(v: Seq<char>) -> i32 {
    if split(v, '=').len() == 2 {
        parse_i32_spec(split(v, '=')[1])->Some_0
    } else {
        0
    }
}

/// The max-age of a Cache-Control value; `None` where the value cannot be
/// read.
pub fn cache_max_age(value: &str) -> (r: Option<i32>)
    ensures
        match r {
            Some(n) => cache_control_readable(value@) && n == max_age_spec(value@),
            None => !cache_control_readable(value@),
        },
{
    let cc = split_str(value, '=');
    if cc.len() == 2 {
        proof {
            assert(cc@[1]@ == split(value@, '=')[1]);
        }
        let digits = chars_of(cc[1].as_str());
        parse_i32(digits.as_slice())
    } else {
        Some(0)
    }
}

} // verus!
