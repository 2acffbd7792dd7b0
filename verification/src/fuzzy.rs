//! Case-insensitive subsequence matching with a score, used to rank stations
//! against a search query.

use vstd::prelude::*;
use crate::text::{alphanumeric, chars_of, is_alnum, lowercase, to_lower};

verus! {

/// The first position at or after `from` where `hay` holds `c`.
pub open spec fn find_from(hay: Seq<char>, c: char, from: int) -> Option<int>
    decreases hay.len() - from,
{
    if from < 0 || from >= hay.len() {
        None
    } else if hay[from] == c {
        Some(from)
    } else {
        find_from(hay, c, from + 1)
    }
}

/// The word-boundary bonus for a match at `found`: at the start, or after a
/// character that is not alphanumeric.
pub open spec fn boundary_bonus(hay: Seq<char>, found: int) -> int {
    if found == 0 || !alphanumeric(hay[found - 1]) { 15 } else { 0 }
}

/// The score for where a match at `found` falls, given the previous match: a
/// bonus for extending a contiguous run, a penalty for the gap since the
/// previous match (capped at 10) or, for the first match, for a late start
/// (the position taken as an `i32`, as the score is kept in one).
pub open spec fn placement(found: int, prev: Option<int>) -> int {
    match prev {
        Some(p) => if found == p + 1 { 10 } else if found - p - 1 < 10 { -(found - p - 1) } else { -10 },
        None => -((found as i32) as int),
    }
}

/// What matching a needle character at `found` adds to the score: the
/// boundary bonus, the placement, and one point for the match itself.
pub open spec fn match_gain(hay: Seq<char>, found: int, prev: Option<int>) -> int {
    boundary_bonus(hay, found) + placement(found, prev) + 1
}

/// Whether an `i32` holds `x`.
pub open spec fn in_i32(x: int) -> bool {
    i32::MIN <= x <= i32::MAX
}

/// Whether adding a match's gain to `score`, in its three steps (the
/// boundary bonus, the placement, the point for the match), keeps every
/// partial sum in an `i32`.
pub open spec fn gain_fits(score: int, hay: Seq<char>, found: int, prev: Option<int>) -> bool {
    let s1 = score + boundary_bonus(hay, found);
    let s2 = s1 + placement(found, prev);
    in_i32(s1) && in_i32(s2) && in_i32(s2 + 1)
}

/// Greedy left-to-right matching of `needle` into `hay`, starting at
/// position `hi`, after a previous match `prev` and with `score`
/// accumulated so far.
pub open spec fn fuzzy_from(hay: Seq<char>, needle: Seq<char>, hi: int, prev: Option<int>, score: int) -> Option<int>
    decreases needle.len(),
{
    if needle.len() == 0 {
        Some(score)
    } else {
        match find_from(hay, needle[0], hi) {
            None => None,
            Some(f) => fuzzy_from(hay, needle.drop_first(), f + 1, Some(f), score + match_gain(hay, f, prev)),
        }
    }
}

/// Whether the greedy matching from `hi` keeps its running score in an `i32`
/// at every step it takes.
pub open spec fn fits_from(hay: Seq<char>, needle: Seq<char>, hi: int, prev: Option<int>, score: int) -> bool
    decreases needle.len(),
{
    if needle.len() == 0 {
        true
    } else {
        match find_from(hay, needle[0], hi) {
            None => true,
            Some(f) => gain_fits(score, hay, f, prev) && fits_from(
                hay,
                needle.drop_first(),
                f + 1,
                Some(f),
                score + match_gain(hay, f, prev),
            ),
        }
    }
}

/// The score of `needle` against `hay` (both already lowercased), or `None`
/// when the needle does not occur in `hay` as a subsequence.
pub open spec fn fuzzy_spec(hay: Seq<char>, needle: Seq<char>) -> Option<int> {
    fuzzy_from(hay, needle, 0, None, 0)
}

/// Whether scoring `needle` against `hay` (both already lowercased) never
/// leaves an `i32`.
pub open spec fn fuzzy_fits(hay: Seq<char>, needle: Seq<char>) -> bool {
    fits_from(hay, needle, 0, None, 0)
}

/// A position held in a `usize`, as an integer.
pub open spec fn as_pos(p: Option<usize>) -> Option<int> {
    match p {
        Some(x) => Some(x as int),
        None => None,
    }
}

/// What `fuzzy_score` returns for the two strings: the score of the
/// lowercased needle against the lowercased haystack.
pub open spec fn fuzzy_score_spec(haystack: Seq<char>, needle: Seq<char>) -> Option<int> {
    fuzzy_spec(lowercase(haystack), lowercase(needle))
}

/// Whether `needle` occurs in `hay` as a subsequence using positions at or after `from`.
pub open spec fn subsequence_from(hay: Seq<char>, needle: Seq<char>, from: int) -> bool
    decreases needle.len(),
{
    if needle.len() == 0 {
        true
    } else {
        exists|i: int|
            #![trigger hay[i]]
            from <= i < hay.len() && hay[i] == needle[0] && subsequence_from(hay, needle.drop_first(), i + 1)
    }
}

proof fn lemma_find_from(hay: Seq<char>, c: char, from: int)
    requires
        0 <= from,
    ensures
        find_from(hay, c, from) matches Some(f) ==> from <= f < hay.len() && hay[f] == c
            && forall|k: int| from <= k < f ==> hay[k] != c,
        find_from(hay, c, from) is None ==> forall|k: int| from <= k < hay.len() ==> hay[k] != c,
    decreases hay.len() - from,
{
    if from < hay.len() && hay[from] != c {
        lemma_find_from(hay, c, from + 1);
    }
}

proof fn lemma_subsequence_earlier(hay: Seq<char>, needle: Seq<char>, a: int, b: int)
    requires
        a <= b,
        subsequence_from(hay, needle, b),
    ensures
        subsequence_from(hay, needle, a),
{
    if needle.len() > 0 {
        let i = choose|i: int|
            #![trigger hay[i]]
            b <= i < hay.len() && hay[i] == needle[0] && subsequence_from(hay, needle.drop_first(), i + 1);
        assert(hay[i] == needle[0]);
    }
}

proof fn lemma_match_iff_subsequence(hay: Seq<char>, needle: Seq<char>, hi: int, prev: Option<int>, score: int)
    requires
        0 <= hi,
    ensures
        fuzzy_from(hay, needle, hi, prev, score) is Some <==> subsequence_from(hay, needle, hi),
    decreases needle.len(),
{
    if needle.len() > 0 {
        let c = needle[0];
        let rest = needle.drop_first();
        lemma_find_from(hay, c, hi);
        match find_from(hay, c, hi) {
            None => {
                if subsequence_from(hay, needle, hi) {
                    let i = choose|i: int|
                        #![trigger hay[i]]
                        hi <= i < hay.len() && hay[i] == needle[0] && subsequence_from(hay, rest, i + 1);
                    assert(hay[i] != c);
                }
            },
            Some(f) => {
                lemma_match_iff_subsequence(hay, rest, f + 1, Some(f), score + match_gain(hay, f, prev));
                if subsequence_from(hay, needle, hi) {
                    let i = choose|i: int|
                        #![trigger hay[i]]
                        hi <= i < hay.len() && hay[i] == needle[0] && subsequence_from(hay, rest, i + 1);
                    assert(f <= i);
                    lemma_subsequence_earlier(hay, rest, f + 1, i + 1);
                }
                if subsequence_from(hay, rest, f + 1) {
                    assert(hay[f] == needle[0]);
                }
            },
        }
    }
}

/// A query matches a name exactly when the whole lowercased query, spaces
/// included, occurs in order in the lowercased name; an empty query matches
/// everything.
pub proof fn law_match_is_subsequence(haystack: Seq<char>, needle: Seq<char>)
    ensures
        fuzzy_score_spec(haystack, needle) is Some <==> subsequence_from(lowercase(haystack), lowercase(needle), 0),
{
    lemma_match_iff_subsequence(lowercase(haystack), lowercase(needle), 0, None, 0);
}

/// The score is case-insensitive: names and queries that lowercase alike
/// score alike, and whether the score fits an `i32` is alike too.
pub proof fn law_score_ignores_case(h1: Seq<char>, n1: Seq<char>, h2: Seq<char>, n2: Seq<char>)
    requires
        lowercase(h1) == lowercase(h2),
        lowercase(n1) == lowercase(n2),
    ensures
        fuzzy_score_spec(h1, n1) == fuzzy_score_spec(h2, n2),
        fuzzy_fits(lowercase(h1), lowercase(n1)) == fuzzy_fits(lowercase(h2), lowercase(n2)),
{
}

/// Score lowercased characters: `None` when the running score would leave an
/// `i32`, else the score (or `None` for no match).
fn score_chars(hay: &Vec<char>, nd: &Vec<char>) -> (r: Option<Option<i32>>)
    ensures
        r is None <==> !fuzzy_fits(hay@, nd@),
        r matches Some(x) ==> match x {
            Some(v) => fuzzy_spec(hay@, nd@) == Some(v as int),
            None => fuzzy_spec(hay@, nd@) is None,
        },
{
    let ghost h = hay@;
    let ghost n = nd@;
    let mut hi: usize = 0;
    let mut score: i64 = 0;
    let mut prev: Option<usize> = None;
    let mut k: usize = 0;
    assert(n.skip(0) =~= n);
    while k < nd.len()
        invariant
            h == hay@,
            n == nd@,
            k <= n.len(),
            hi <= h.len(),
            match prev {
                Some(p) => hi == p + 1,
                None => hi == 0,
            },
            in_i32(score as int),
            fuzzy_spec(h, n) == fuzzy_from(h, n.skip(k as int), hi as int, as_pos(prev), score as int),
            fuzzy_fits(h, n) == fits_from(h, n.skip(k as int), hi as int, as_pos(prev), score as int),
        decreases n.len() - k,
    {
        let nc = nd[k];
        assert(n.skip(k as int).drop_first() =~= n.skip(k + 1));
        assert(n.skip(k as int)[0] == nc);
        let mut j: usize = hi;
        while j < hay.len() && hay[j] != nc
            invariant
                h == hay@,
                hi <= j <= h.len(),
                find_from(h, nc, hi as int) == find_from(h, nc, j as int),
            decreases h.len() - j,
        {
            j = j + 1;
        }
        if j >= hay.len() {
            assert(find_from(h, nc, j as int) is None);
            return Some(None);
        }
        let found = j;
        let boundary: i64 = if found == 0 || !is_alnum(hay[found - 1]) { 15 } else { 0 };
        let s1 = score + boundary;
        if s1 < -2147483648 || s1 > 2147483647 {
            return None;
        }
        let place: i64 = match prev {
            Some(p) => {
                if found == p + 1 {
                    10
                } else {
                    let gap = found - p - 1;
                    if gap < 10 { -(gap as i64) } else { -10 }
                }
            },
            None => -((found as i32) as i64),
        };
        let s2 = s1 + place;
        if s2 < -2147483648 || s2 > 2147483647 {
            return None;
        }
        let s3 = s2 + 1;
        if s3 > 2147483647 {
            return None;
        }
        score = s3;
        prev = Some(found);
        hi = found + 1;
        k = k + 1;
    }
    assert(n.skip(k as int).len() == 0);
    Some(Some(score as i32))
}

/// Whether scoring a needle against a haystack keeps the running score in an
/// `i32`, so that `fuzzy_score` can be called.
pub fn score_fits(haystack: &str, needle: &str) -> (r: bool)
    ensures
        r == fuzzy_fits(lowercase(haystack@), lowercase(needle@)),
{
    let hay_s = to_lower(haystack);
    let hay = chars_of(hay_s.as_str());
    let nd_s = to_lower(needle);
    let nd = chars_of(nd_s.as_str());
    score_chars(&hay, &nd).is_some()
}

/// Case-insensitive subsequence fuzzy match. Returns `None` if `needle` isn't a
/// subsequence of `haystack`, else a score where higher is better — rewarding
/// word-boundary hits and contiguous runs, penalizing gaps and a late start.
pub fn fuzzy_score(haystack: &str, needle: &str) -> (r: Option<i32>)
    requires
        fuzzy_fits(lowercase(haystack@), lowercase(needle@)),
    ensures
        match r {
            Some(x) => fuzzy_score_spec(haystack@, needle@) == Some(x as int),
            None => fuzzy_score_spec(haystack@, needle@) is None,
        },
{
    let nd_s = to_lower(needle);
    if needle.is_empty() {
        return Some(0);
    }
    let hay_s = to_lower(haystack);
    let hay = chars_of(hay_s.as_str());
    let nd = chars_of(nd_s.as_str());
    match score_chars(&hay, &nd) {
        Some(x) => x,
        None => None,
    }
}

} // verus!
