//! Scores and orders units against a free-text query.
//!
//! For an empty query every unit passes unranked.  For a non-empty query a
//! unit is scored against both its name and its description (description
//! matches are penalized by a fixed offset so name matches rank first) and
//! kept only when at least one of the two matches.  A contiguous substring
//! match scores its start index; an in-order subsequence match scores its
//! first matched position plus twice the skipped gaps plus a fixed penalty,
//! so it always ranks below any substring match at the same position.

use vstd::prelude::*;

use crate::systemd::{UnitInfo, UnitInfoV, units_view};
use crate::text::{chars_of, lex_cmp, string_from_chars, trim_chars, trim_spec};

verus! {

/// The secondary sort key of the unit list.
#[derive(Clone, Copy, Debug, PartialEq, Eq, Structural)]
pub enum SortBy {
    Name,
    State,
}

/// What `str::to_lowercase` returns; the result depends on the characters
/// alone.
pub uninterp spec fn lower_of(s: Seq<char>) -> Seq<char>;

/// Relies on `str::to_lowercase`: the Unicode lowercase mapping of the
/// string, named [`lower_of`]; an empty string stays empty.
#[verifier::external_body]
pub(crate) fn lowercase(s: &str) -> (r: String)
    ensures
        r@ == lower_of(s@),
        s@.len() == 0 ==> r@.len() == 0,
{
    s.to_lowercase()
}

/// Whether the needle occurs as a contiguous block of `h` starting at `i`.
pub open spec fn match_at(h: Seq<char>, n: Seq<char>, i: int) -> bool {
    0 <= i && i + n.len() <= h.len() && h.subrange(i, i + n.len()) == n
}

/// The first position at or after `from` where the needle occurs as a
/// contiguous block of `h`.
pub open spec fn find_sub_from(h: Seq<char>, n: Seq<char>, from: int) -> Option<int>
    decreases h.len() - from + 1,
    when 0 <= from
{
    if from + n.len() > h.len() {
        None
    } else if match_at(h, n, from) {
        Some(from)
    } else {
        find_sub_from(h, n, from + 1)
    }
}

/// The first position at or after `from` where the character `c` occurs in
/// `h`.
pub open spec fn find_char_from(h: Seq<char>, c: char, from: int) -> Option<int>
    decreases h.len() - from,
    when 0 <= from
{
    if from >= h.len() {
        None
    } else if h[from] == c {
        Some(from)
    } else {
        find_char_from(h, c, from + 1)
    }
}

/// The total gap accumulated by the greedy in-order walk that matches
/// `n[k..]` against `h` starting at `cursor`: each needle character is
/// located at its next occurrence, and the characters skipped on the way
/// are summed.  None when some needle character has no occurrence left.
pub open spec fn walk_from(h: Seq<char>, n: Seq<char>, k: int, cursor: int) -> Option<int>
    decreases n.len() - k,
    when 0 <= k && 0 <= cursor
{
    if k >= n.len() {
        Some(0)
    } else {
        match find_char_from(h, n[k], cursor) {
            None => None,
            Some(p) => match walk_from(h, n, k + 1, p + 1) {
                None => None,
                Some(g) => Some((p - cursor) + g),
            },
        }
    }
}

/// The fuzzy score of a haystack/needle pair: zero for an empty needle, the
/// start index for a contiguous substring match, the greedy subsequence
/// score otherwise, and none when the needle does not occur in order.
/// Lower is better.
pub open spec fn spec_score(h: Seq<char>, n: Seq<char>) -> Option<int> {
    if n.len() == 0 {
        Some(0int)
    } else if find_sub_from(h, n, 0) is Some {
        find_sub_from(h, n, 0)
    } else {
        match (find_char_from(h, n[0], 0), walk_from(h, n, 0, 0)) {
            (Some(p0), Some(g)) => Some(p0 + 2 * g + 100),
            _ => None,
        }
    }
}

/// A haystack short enough that every fuzzy score fits the machine word.
pub open spec fn scoreable(h: Seq<char>) -> bool {
    h.len() < usize::MAX as int / 4
}

/// The view of an optional machine-word score as an optional integer.
pub open spec fn score_view(r: Option<usize>) -> Option<int> {
    match r {
        Some(v) => Some(v as int),
        None => None,
    }
}

fn is_match_at(h: &Vec<char>, n: &Vec<char>, i: usize) -> (r: bool)
    requires
        i + n@.len() <= h@.len(),
    ensures
        r == match_at(h@, n@, i as int),
{
    let hl = h.len();
    let nl = n.len();
    let mut j: usize = 0;
    while j < nl
        invariant
            j <= nl,
            nl == n@.len(),
            hl == h@.len(),
            i + nl <= hl,
            forall|t: int| 0 <= t < j ==> h@[i + t] == n@[t],
        decreases nl - j,
    {
        if h[i + j] != n[j] {
            proof {
                assert(h@.subrange(i as int, i + n@.len()) != n@) by {
                    assert(h@.subrange(i as int, i + n@.len())[j as int] == h@[i + j]);
                }
            }
            return false;
        }
        j = j + 1;
    }
    proof {
        assert(h@.subrange(i as int, i + n@.len()) =~= n@);
    }
    true
}

/// The first position where the needle occurs as a contiguous block of the
/// haystack.
pub fn find_substr(h: &Vec<char>, n: &Vec<char>) -> (r: Option<usize>)
    ensures
        score_view(r) == find_sub_from(h@, n@, 0),
{
    let hl = h.len();
    let nl = n.len();
    if nl > hl {
        return None;
    }
    if nl == 0 {
        proof {
            assert(h@.subrange(0, 0) =~= n@);
        }
        return Some(0);
    }
    let mut i: usize = 0;
    while i <= hl - nl
        invariant
            nl == n@.len(),
            hl == h@.len(),
            1 <= nl <= hl,
            i <= hl - nl + 1,
            find_sub_from(h@, n@, 0) == find_sub_from(h@, n@, i as int),
        decreases hl - i,
    {
        if is_match_at(h, n, i) {
            return Some(i);
        }
        i = i + 1;
    }
    None
}

fn find_char(h: &Vec<char>, c: char, from: usize) -> (r: Option<usize>)
    requires
        from <= h@.len(),
    ensures
        score_view(r) == find_char_from(h@, c, from as int),
{
    let hl = h.len();
    let mut i: usize = from;
    while i < hl
        invariant
            hl == h@.len(),
            from <= i <= hl,
            find_char_from(h@, c, from as int) == find_char_from(h@, c, i as int),
        decreases hl - i,
    {
        if h[i] == c {
            return Some(i);
        }
        i = i + 1;
    }
    None
}

/// The fuzzy score of one haystack/needle pair, on character vectors.
#[verifier::rlimit(60)]
pub fn fuzzy_score_chars(h: &Vec<char>, n: &Vec<char>) -> (r: Option<usize>)
    requires
        scoreable(h@),
    ensures
        score_view(r) == spec_score(h@, n@),
{
    if n.len() == 0 {
        return Some(0);
    }
    match find_substr(h, n) {
        Some(i) => {
            return Some(i);
        }
        None => {}
    }
    let p0 = match find_char(h, n[0], 0) {
        None => {
            return None;
        }
        Some(p0) => p0,
    };
    proof {
        lemma_find_char_in_range(h@, n@[0], 0);
    }
    let first: usize = p0;
    let mut gap: usize = p0;
    let mut cursor: usize = p0 + 1;
    let hl = h.len();
    let nl = n.len();
    let mut k: usize = 1;
    while k < nl
        invariant
            hl == h@.len(),
            nl == n@.len(),
            1 <= k <= nl,
            cursor <= hl,
            gap + k <= cursor,
            scoreable(h@),
            first < hl,
            find_sub_from(h@, n@, 0) is None,
            find_char_from(h@, n@[0], 0) == Some(first as int),
            walk_from(h@, n@, 0, 0) == (match walk_from(h@, n@, k as int, cursor as int) {
                Some(g) => Some(gap as int + g),
                None => None::<int>,
            }),
        decreases nl - k,
    {
        match find_char(h, n[k], cursor) {
            None => {
                return None;
            }
            Some(p) => {
                proof {
                    lemma_find_char_in_range(h@, n@[k as int], cursor as int);
                    assert(walk_from(h@, n@, k as int, cursor as int) == (
                    match walk_from(h@, n@, k as int + 1, p as int + 1) {
                        Some(g) => Some((p - cursor) as int + g),
                        None => None::<int>,
                    }));
                }
                gap = gap + (p - cursor);
                cursor = p + 1;
                k = k + 1;
            }
        }
    }
    proof {
        assert(walk_from(h@, n@, 0, 0) == Some(gap as int));
        assert(usize::MAX >= 400);
    }
    Some(first + 2 * gap + 100)
}

/// When a character is found, the position lies in the haystack, at or after
/// the starting point, and holds that character.
pub proof fn lemma_find_char_in_range(h: Seq<char>, c: char, from: int)
    requires
        0 <= from,
        find_char_from(h, c, from) is Some,
    ensures
        from <= find_char_from(h, c, from)->Some_0 < h.len(),
        h[find_char_from(h, c, from)->Some_0] == c,
    decreases h.len() - from,
{
    if from < h.len() && h[from] != c {
        lemma_find_char_in_range(h, c, from + 1);
    }
}

/// Whether `n[k..]` occurs, in order, within `h` at or after `cursor`.
/// This is the plain "matches as a subsequence" relation, independent of
/// any scoring.
pub open spec fn is_subseq_from(h: Seq<char>, n: Seq<char>, k: int, cursor: int) -> bool
    decreases n.len() - k,
    when 0 <= k
{
    k >= n.len() || exists|p: int|
        cursor <= p < h.len() && (#[trigger] h[p]) == n[k] && is_subseq_from(h, n, k + 1, p + 1)
}

/// A subsequence match found at or after a late cursor is also found at or
/// after any earlier cursor.
pub proof fn lemma_subseq_weaken(h: Seq<char>, n: Seq<char>, k: int, c1: int, c2: int)
    requires
        0 <= k,
        0 <= c2 <= c1,
        is_subseq_from(h, n, k, c1),
    ensures
        is_subseq_from(h, n, k, c2),
{
    if k < n.len() {
        let p = choose|p: int|
            c1 <= p < h.len() && (#[trigger] h[p]) == n[k] && is_subseq_from(h, n, k + 1, p + 1);
        assert(c2 <= p < h.len() && h[p] == n[k] && is_subseq_from(h, n, k + 1, p + 1));
    }
}

/// A greedy walk that succeeds exhibits the needle as a subsequence.
pub proof fn lemma_walk_subseq(h: Seq<char>, n: Seq<char>, k: int, cursor: int)
    requires
        0 <= k <= n.len(),
        0 <= cursor,
        walk_from(h, n, k, cursor) is Some,
    ensures
        is_subseq_from(h, n, k, cursor),
    decreases n.len() - k,
{
    if k < n.len() {
        let p = find_char_from(h, n[k], cursor)->Some_0;
        lemma_find_char_in_range(h, n[k], cursor);
        lemma_walk_subseq(h, n, k + 1, p + 1);
        assert(cursor <= p < h.len() && h[p] == n[k] && is_subseq_from(h, n, k + 1, p + 1));
    }
}

/// A contiguous match at `i` exhibits the needle's tail from `k` on as a
/// subsequence starting at `i + k`.
pub proof fn lemma_match_at_subseq(h: Seq<char>, n: Seq<char>, i: int, k: int)
    requires
        match_at(h, n, i),
        0 <= k <= n.len(),
    ensures
        is_subseq_from(h, n, k, i + k),
    decreases n.len() - k,
{
    if k < n.len() {
        assert(h[i + k] == n[k]) by {
            assert(h.subrange(i, i + n.len())[k] == n[k]);
        }
        lemma_match_at_subseq(h, n, i, k + 1);
        assert(i + k <= i + k < h.len() && h[i + k] == n[k] && is_subseq_from(
            h,
            n,
            k + 1,
            i + k + 1,
        ));
    }
}

/// When a substring search succeeds, the position it returns is at or after
/// the starting point and a contiguous match stands there.
pub proof fn lemma_find_sub_props(h: Seq<char>, n: Seq<char>, from: int)
    requires
        0 <= from,
        find_sub_from(h, n, from) is Some,
    ensures
        from <= find_sub_from(h, n, from)->Some_0,
        match_at(h, n, find_sub_from(h, n, from)->Some_0),
    decreases h.len() - from + 1,
{
    if from + n.len() <= h.len() && !match_at(h, n, from) {
        lemma_find_sub_props(h, n, from + 1);
    }
}

/// A greedy walk that succeeds never reports a negative gap.
pub proof fn lemma_walk_nonneg(h: Seq<char>, n: Seq<char>, k: int, cursor: int)
    requires
        0 <= k,
        0 <= cursor,
        walk_from(h, n, k, cursor) is Some,
    ensures
        walk_from(h, n, k, cursor)->Some_0 >= 0,
    decreases n.len() - k,
{
    if k < n.len() {
        let p = find_char_from(h, n[k], cursor)->Some_0;
        lemma_find_char_in_range(h, n[k], cursor);
        lemma_walk_nonneg(h, n, k + 1, p + 1);
    }
}

/// Every match the scorer accepts is a real match: a non-empty needle with
/// a defined score occurs in the haystack as an in-order subsequence.
pub proof fn lemma_score_is_subsequence(h: Seq<char>, n: Seq<char>)
    requires
        n.len() > 0,
        spec_score(h, n) is Some,
    ensures
        is_subseq_from(h, n, 0, 0),
{
    if find_sub_from(h, n, 0) is Some {
        let i = find_sub_from(h, n, 0)->Some_0;
        lemma_find_sub_props(h, n, 0);
        lemma_match_at_subseq(h, n, i, 0);
        lemma_subseq_weaken(h, n, 0, i, 0);
    } else {
        lemma_walk_subseq(h, n, 0, 0);
    }
}


/// Every unit the ranker keeps really matched: a unit with a defined
/// score carries the needle as an in-order subsequence of its lowercased
/// name or of its lowercased description.
pub proof fn lemma_kept_unit_matches(u: UnitInfoV, needle: Seq<char>)
    requires
        needle.len() > 0,
        unit_score(u, needle) is Some,
    ensures
        is_subseq_from(lower_of(u.name), needle, 0, 0) || is_subseq_from(
            lower_of(u.description),
            needle,
            0,
            0,
        ),
{
    if scoreable(lower_of(u.name)) && spec_score(lower_of(u.name), needle) is Some {
        lemma_score_is_subsequence(lower_of(u.name), needle);
    } else {
        lemma_score_is_subsequence(lower_of(u.description), needle);
    }
}


/// A character search never overshoots a known occurrence: where `c`
/// stands at `p`, the search from any earlier cursor succeeds at or
/// before `p`.
pub proof fn lemma_find_char_min(h: Seq<char>, c: char, cursor: int, p: int)
    requires
        0 <= cursor <= p < h.len(),
        h[p] == c,
    ensures
        find_char_from(h, c, cursor) is Some,
        find_char_from(h, c, cursor)->Some_0 <= p,
    decreases p - cursor,
{
    if h[cursor] != c {
        lemma_find_char_min(h, c, cursor + 1, p);
    }
}

/// The greedy walk is complete: wherever the needle's tail occurs in
/// order at all, the walk finds it.
pub proof fn lemma_walk_complete(h: Seq<char>, n: Seq<char>, k: int, cursor: int)
    requires
        0 <= k <= n.len(),
        0 <= cursor,
        is_subseq_from(h, n, k, cursor),
    ensures
        walk_from(h, n, k, cursor) is Some,
    decreases n.len() - k,
{
    if k < n.len() {
        let p = choose|p: int|
            cursor <= p < h.len() && (#[trigger] h[p]) == n[k] && is_subseq_from(h, n, k + 1, p + 1);
        lemma_find_char_min(h, n[k], cursor, p);
        let q = find_char_from(h, n[k], cursor)->Some_0;
        lemma_find_char_in_range(h, n[k], cursor);
        lemma_subseq_weaken(h, n, k + 1, p + 1, q + 1);
        lemma_walk_complete(h, n, k + 1, q + 1);
    }
}

/// The scorer misses nothing: a non-empty needle that occurs in the
/// haystack as an in-order subsequence always receives a score.
pub proof fn lemma_subsequence_is_scored(h: Seq<char>, n: Seq<char>)
    requires
        n.len() > 0,
        is_subseq_from(h, n, 0, 0),
    ensures
        spec_score(h, n) is Some,
{
    if find_sub_from(h, n, 0) is None {
        lemma_walk_complete(h, n, 0, 0);
    }
}

/// The ranker misses nothing: a unit whose lowercased name or lowercased
/// description carries the needle as an in-order subsequence is kept,
/// provided that field is short enough to score at all.
pub proof fn lemma_matching_unit_is_kept(u: UnitInfoV, needle: Seq<char>)
    requires
        needle.len() > 0,
        (scoreable(lower_of(u.name)) && is_subseq_from(lower_of(u.name), needle, 0, 0)) || (
        scoreable(lower_of(u.description)) && is_subseq_from(
            lower_of(u.description),
            needle,
            0,
            0,
        )),
    ensures
        unit_score(u, needle) is Some,
{
    if scoreable(lower_of(u.name)) && is_subseq_from(lower_of(u.name), needle, 0, 0) {
        lemma_subsequence_is_scored(lower_of(u.name), needle);
    } else {
        lemma_subsequence_is_scored(lower_of(u.description), needle);
    }
}

/// A contiguous substring match always orders ahead of a pure subsequence
/// match whose first matched character stands at the same position: the
/// substring score is its start index, while the subsequence score adds a
/// fixed penalty on top of that index.
pub proof fn lemma_substring_outranks(h1: Seq<char>, h2: Seq<char>, n: Seq<char>)
    requires
        n.len() > 0,
        find_sub_from(h1, n, 0) is Some,
        find_sub_from(h2, n, 0) is None,
        spec_score(h2, n) is Some,
        find_char_from(h2, n[0], 0)->Some_0 == find_sub_from(h1, n, 0)->Some_0,
    ensures
        spec_score(h1, n)->Some_0 < spec_score(h2, n)->Some_0,
{
    lemma_walk_nonneg(h2, n, 0, 0);
}

/// The fuzzy score of one haystack/needle pair.  The needle matches when
/// the score is some value; lower scores order first.
pub fn fuzzy_match_score(haystack: &str, needle: &str) -> (r: Option<usize>)
    requires
        scoreable(haystack@),
    ensures
        score_view(r) == spec_score(haystack@, needle@),
{
    let h = chars_of(haystack);
    let n = chars_of(needle);
    fuzzy_score_chars(&h, &n)
}


/// The needle a filter string produces: the filter trimmed, then
/// lowercased.
pub open spec fn needle_of(filter: Seq<char>) -> Seq<char> {
    lower_of(trim_spec(filter))
}

/// The score of one unit against a needle: the better (lower) of the name
/// score and the description score, the latter pushed back by a fixed
/// offset of 200 so name matches rank first.  None when neither field
/// matches.
pub open spec fn unit_score(u: UnitInfoV, needle: Seq<char>) -> Option<int> {
    let ns = if scoreable(lower_of(u.name)) {
        spec_score(lower_of(u.name), needle)
    } else {
        None
    };
    let ds = if scoreable(lower_of(u.description)) {
        match spec_score(lower_of(u.description), needle) {
            Some(s) => Some(s + 200),
            None => None::<int>,
        }
    } else {
        None
    };
    match (ns, ds) {
        (Some(a), Some(b)) => Some(if a <= b { a } else { b }),
        (Some(a), None) => Some(a),
        (None, Some(b)) => Some(b),
        (None, None) => None,
    }
}

/// The view of one scored pair.
pub open spec fn pair_view(p: (UnitInfo, Option<usize>)) -> (UnitInfoV, Option<int>) {
    (p.0@, score_view(p.1))
}

/// The views of a sequence of scored pairs.
pub open spec fn pairs_view(s: Seq<(UnitInfo, Option<usize>)>) -> Seq<(UnitInfoV, Option<int>)> {
    Seq::new(s.len(), |i: int| pair_view(s[i]))
}

/// The units of a sequence of scored pairs, scores dropped.
pub open spec fn firsts(s: Seq<(UnitInfoV, Option<int>)>) -> Seq<UnitInfoV> {
    Seq::new(s.len(), |i: int| s[i].0)
}

/// The scored pairs a snapshot produces under a filter, in snapshot order:
/// with an empty filter every unit passes unscored; otherwise every unit
/// that matches carries its score and the others are dropped.
pub open spec fn score_pairs(units: Seq<UnitInfoV>, filter: Seq<char>) -> Seq<
    (UnitInfoV, Option<int>),
>
    decreases units.len(),
{
    if units.len() == 0 {
        Seq::empty()
    } else {
        let rest = score_pairs(units.drop_last(), filter);
        let u = units.last();
        if filter.len() == 0 {
            rest.push((u, None))
        } else {
            match unit_score(u, needle_of(filter)) {
                Some(s) => rest.push((u, Some(s))),
                None => rest,
            }
        }
    }
}

/// Three-way comparison of two scored pairs: the score, ascending, is
/// always the primary key (pairs not both scored tie there); the active
/// sort key breaks score ties, and only that secondary key is reversed
/// when the direction is descending.
pub open spec fn pair_cmp(
    a: (UnitInfoV, Option<int>),
    b: (UnitInfoV, Option<int>),
    sort_by: SortBy,
    ascending: bool,
) -> int {
    let f = match (a.1, b.1) {
        (Some(x), Some(y)) => if x < y {
            -1int
        } else if x > y {
            1int
        } else {
            0int
        },
        _ => 0int,
    };
    if f != 0 {
        f
    } else {
        let base = match sort_by {
            SortBy::Name => lex_cmp(a.0.name, b.0.name),
            SortBy::State => {
                let c = lex_cmp(a.0.active_state, b.0.active_state);
                if c != 0 {
                    c
                } else {
                    lex_cmp(a.0.name, b.0.name)
                }
            },
        };
        if ascending {
            base
        } else {
            -base
        }
    }
}

/// `a` orders no later than `b`.
pub open spec fn pair_le(
    a: (UnitInfoV, Option<int>),
    b: (UnitInfoV, Option<int>),
    sort_by: SortBy,
    ascending: bool,
) -> bool {
    pair_cmp(a, b, sort_by, ascending) <= 0
}

/// Stable insertion into a sorted sequence: the new pair goes after every
/// pair that orders no later than it.
pub open spec fn insert_spec(
    s: Seq<(UnitInfoV, Option<int>)>,
    x: (UnitInfoV, Option<int>),
    sort_by: SortBy,
    ascending: bool,
) -> Seq<(UnitInfoV, Option<int>)>
    decreases s.len(),
{
    if s.len() == 0 {
        seq![x]
    } else if pair_le(s.last(), x, sort_by, ascending) {
        s.push(x)
    } else {
        insert_spec(s.drop_last(), x, sort_by, ascending).push(s.last())
    }
}

/// Stable insertion sort of scored pairs: pairs the comparator ties keep
/// their original relative order.
pub open spec fn sort_spec(
    s: Seq<(UnitInfoV, Option<int>)>,
    sort_by: SortBy,
    ascending: bool,
) -> Seq<(UnitInfoV, Option<int>)>
    decreases s.len(),
{
    if s.len() == 0 {
        s
    } else {
        insert_spec(sort_spec(s.drop_last(), sort_by, ascending), s.last(), sort_by, ascending)
    }
}

/// The ranked unit list: every unit scored against the filter, the
/// non-matching ones dropped, the rest ordered by score and sort key.
pub open spec fn rank_spec(
    units: Seq<UnitInfoV>,
    filter: Seq<char>,
    sort_by: SortBy,
    ascending: bool,
) -> Seq<UnitInfoV> {
    firsts(sort_spec(score_pairs(units, filter), sort_by, ascending))
}

/// A successful walk never skips more than the rest of the haystack.
pub proof fn lemma_walk_bound(h: Seq<char>, n: Seq<char>, k: int, cursor: int)
    requires
        0 <= k,
        0 <= cursor <= h.len(),
        walk_from(h, n, k, cursor) is Some,
    ensures
        0 <= walk_from(h, n, k, cursor)->Some_0 <= h.len() - cursor,
    decreases n.len() - k,
{
    if k < n.len() {
        let p = find_char_from(h, n[k], cursor)->Some_0;
        lemma_find_char_in_range(h, n[k], cursor);
        lemma_walk_bound(h, n, k + 1, p + 1);
    }
}

/// Every defined score is bounded by the haystack length: at most three
/// times the length plus the fixed subsequence penalty.
pub proof fn lemma_score_bound(h: Seq<char>, n: Seq<char>)
    requires
        spec_score(h, n) is Some,
    ensures
        0 <= spec_score(h, n)->Some_0 <= 3 * h.len() + 100,
{
    if n.len() == 0 {
    } else if find_sub_from(h, n, 0) is Some {
        lemma_find_sub_props(h, n, 0);
    } else {
        lemma_find_char_in_range(h, n[0], 0);
        lemma_walk_bound(h, n, 0, 0);
    }
}

fn score_one(u: &UnitInfo, needle: &Vec<char>) -> (r: Option<usize>)
    ensures
        score_view(r) == unit_score(u@, needle@),
{
    let name_low = lowercase(u.name.as_str());
    let name_chars = chars_of(name_low.as_str());
    let ns: Option<usize> = if name_chars.len() < usize::MAX / 4 {
        fuzzy_score_chars(&name_chars, needle)
    } else {
        None
    };
    let desc_low = lowercase(u.description.as_str());
    let desc_chars = chars_of(desc_low.as_str());
    let ds0: Option<usize> = if desc_chars.len() < usize::MAX / 4 {
        fuzzy_score_chars(&desc_chars, needle)
    } else {
        None
    };
    let ds: Option<usize> = match ds0 {
        Some(s) => {
            proof {
                lemma_score_bound(desc_chars@, needle@);
                assert(usize::MAX >= 1300);
            }
            Some(s + 200)
        }
        None => None,
    };
    match (ns, ds) {
        (Some(a), Some(b)) => if a <= b {
            Some(a)
        } else {
            Some(b)
        },
        (Some(a), None) => Some(a),
        (None, Some(b)) => Some(b),
        (None, None) => None,
    }
}

fn score_units(units: &Vec<UnitInfo>, filter: &Vec<char>) -> (r: Vec<(UnitInfo, Option<usize>)>)
    ensures
        pairs_view(r@) == score_pairs(units_view(units@), filter@),
{
    let mut r: Vec<(UnitInfo, Option<usize>)> = Vec::new();
    let ul = units.len();
    if filter.len() == 0 {
        let mut i: usize = 0;
        while i < ul
            invariant
                ul == units@.len(),
                i <= ul,
                filter@.len() == 0,
                pairs_view(r@) == score_pairs(units_view(units@.subrange(0, i as int)), filter@),
            decreases ul - i,
        {
            r.push((units[i].duplicate(), None));
            proof {
                let pre = units_view(units@.subrange(0, i as int));
                let cur = units_view(units@.subrange(0, i + 1 as int));
                assert(cur.drop_last() =~= pre);
                assert(cur.last() == units@[i as int]@);
                assert(pairs_view(r@) =~= score_pairs(cur, filter@));
            }
            i = i + 1;
        }
        proof {
            assert(units@.subrange(0, ul as int) =~= units@);
        }
        return r;
    }
    let trimmed = trim_chars(filter);
    let trimmed_str = string_from_chars(&trimmed);
    let lowered = lowercase(trimmed_str.as_str());
    let needle = chars_of(lowered.as_str());
    let mut i: usize = 0;
    while i < ul
        invariant
            ul == units@.len(),
            i <= ul,
            filter@.len() > 0,
            needle@ == needle_of(filter@),
            pairs_view(r@) == score_pairs(units_view(units@.subrange(0, i as int)), filter@),
        decreases ul - i,
    {
        let score = score_one(&units[i], &needle);
        proof {
            let pre = units_view(units@.subrange(0, i as int));
            let cur = units_view(units@.subrange(0, i + 1 as int));
            assert(cur.drop_last() =~= pre);
            assert(cur.last() == units@[i as int]@);
        }
        match score {
            Some(sc) => {
                r.push((units[i].duplicate(), Some(sc)));
                proof {
                    let cur = units_view(units@.subrange(0, i + 1 as int));
                    assert(pairs_view(r@) =~= score_pairs(cur, filter@));
                }
            }
            None => {
                proof {
                    let cur = units_view(units@.subrange(0, i + 1 as int));
                    assert(pairs_view(r@) =~= score_pairs(cur, filter@));
                }
            }
        }
        i = i + 1;
    }
    proof {
        assert(units@.subrange(0, ul as int) =~= units@);
    }
    r
}

fn pair_le_exec(
    a: &(UnitInfo, Option<usize>),
    b: &(UnitInfo, Option<usize>),
    sort_by: SortBy,
    ascending: bool,
) -> (r: bool)
    ensures
        r == pair_le(pair_view(*a), pair_view(*b), sort_by, ascending),
{
    let f: i32 = match (&a.1, &b.1) {
        (Some(x), Some(y)) => {
            if *x < *y {
                -1
            } else if *x > *y {
                1
            } else {
                0
            }
        }
        _ => 0,
    };
    let signed: i32 = if f != 0 {
        f
    } else {
        let base = match sort_by {
            SortBy::Name => crate::text::cmp_str(a.0.name.as_str(), b.0.name.as_str()),
            SortBy::State => {
                let c = crate::text::cmp_str(
                    a.0.active_state.as_str(),
                    b.0.active_state.as_str(),
                );
                if c != 0 {
                    c
                } else {
                    crate::text::cmp_str(a.0.name.as_str(), b.0.name.as_str())
                }
            }
        };
        proof {
            crate::text::lemma_lex_cmp_range(pair_view(*a).0.name, pair_view(*b).0.name);
            crate::text::lemma_lex_cmp_range(
                pair_view(*a).0.active_state,
                pair_view(*b).0.active_state,
            );
        }
        if ascending {
            base
        } else {
            -base
        }
    };
    signed <= 0
}

fn insert_pair(
    v: Vec<(UnitInfo, Option<usize>)>,
    x: (UnitInfo, Option<usize>),
    sort_by: SortBy,
    ascending: bool,
) -> (r: Vec<(UnitInfo, Option<usize>)>)
    ensures
        pairs_view(r@) == insert_spec(pairs_view(v@), pair_view(x), sort_by, ascending),
    decreases v@.len(),
{
    let mut v = v;
    if v.len() == 0 {
        v.push(x);
        proof {
            assert(pairs_view(v@) =~= seq![pair_view(x)]);
        }
        v
    } else if pair_le_exec(&v[v.len() - 1], &x, sort_by, ascending) {
        proof {
            assert(pairs_view(v@).last() == pair_view(v@.last()));
        }
        v.push(x);
        proof {
            assert(pairs_view(v@) =~= pairs_view(v@.drop_last()).push(pair_view(x)));
            assert(pairs_view(v@.drop_last()).push(pair_view(x)) =~= insert_spec(
                pairs_view(v@.drop_last()),
                pair_view(x),
                sort_by,
                ascending,
            ));
        }
        v
    } else {
        let ghost pre = v@;
        let last = v.pop().unwrap();
        proof {
            assert(pairs_view(pre).last() == pair_view(last));
            assert(pairs_view(v@) =~= pairs_view(pre).drop_last());
        }
        let mut r = insert_pair(v, x, sort_by, ascending);
        r.push(last);
        proof {
            assert(pairs_view(r@) =~= insert_spec(
                pairs_view(pre).drop_last(),
                pair_view(x),
                sort_by,
                ascending,
            ).push(pairs_view(pre).last()));
        }
        r
    }
}

fn sort_pairs(
    v: Vec<(UnitInfo, Option<usize>)>,
    sort_by: SortBy,
    ascending: bool,
) -> (r: Vec<(UnitInfo, Option<usize>)>)
    ensures
        pairs_view(r@) == sort_spec(pairs_view(v@), sort_by, ascending),
{
    let ghost orig = v@;
    let mut v = v;
    let mut out: Vec<(UnitInfo, Option<usize>)> = Vec::new();
    while v.len() > 0
        invariant
            v@.len() <= orig.len(),
            v@ == orig.subrange(orig.len() - v@.len(), orig.len() as int),
            pairs_view(out@) == sort_spec(
                pairs_view(orig.subrange(0, orig.len() - v@.len())),
                sort_by,
                ascending,
            ),
        decreases v@.len(),
    {
        let ghost k = orig.len() - v@.len();
        let x = v.remove(0);
        proof {
            assert(x == orig[k]);
            assert(v@ =~= orig.subrange(k + 1, orig.len() as int));
        }
        out = insert_pair(out, x, sort_by, ascending);
        proof {
            let pre = pairs_view(orig.subrange(0, k));
            let cur = pairs_view(orig.subrange(0, k + 1));
            assert(cur.drop_last() =~= pre);
            assert(cur.last() == pair_view(orig[k]));
            assert(pairs_view(out@) == sort_spec(cur, sort_by, ascending));
        }
    }
    proof {
        assert(orig.subrange(0, orig.len() as int) =~= orig);
    }
    out
}

/// Ranks a snapshot against a filter: scores and drops by the filter,
/// then orders by score and the active sort key, stably.
pub fn rank_units(
    units: &Vec<UnitInfo>,
    filter: &Vec<char>,
    sort_by: SortBy,
    ascending: bool,
) -> (r: Vec<UnitInfo>)
    ensures
        units_view(r@) == rank_spec(units_view(units@), filter@, sort_by, ascending),
{
    let scored = score_units(units, filter);
    let mut sorted = sort_pairs(scored, sort_by, ascending);
    let ghost orig = sorted@;
    let mut r: Vec<UnitInfo> = Vec::new();
    while sorted.len() > 0
        invariant
            sorted@.len() <= orig.len(),
            sorted@ == orig.subrange(orig.len() - sorted@.len(), orig.len() as int),
            units_view(r@) == firsts(
                pairs_view(orig.subrange(0, orig.len() - sorted@.len())),
            ),
        decreases sorted@.len(),
    {
        let ghost k = orig.len() - sorted@.len();
        let ghost r_pre = r@;
        let x = sorted.remove(0);
        proof {
            assert(x == orig[k]);
            assert(sorted@ =~= orig.subrange(k + 1, orig.len() as int));
        }
        r.push(x.0);
        proof {
            assert(units_view(r@) =~= units_view(r_pre).push(x.0@));
            assert(pairs_view(orig.subrange(0, k + 1)) =~= pairs_view(
                orig.subrange(0, k),
            ).push(pair_view(orig[k])));
            assert(firsts(pairs_view(orig.subrange(0, k + 1))) =~= firsts(
                pairs_view(orig.subrange(0, k)),
            ).push(orig[k].0@));
            assert(units_view(r@) =~= firsts(pairs_view(orig.subrange(0, k + 1))));
        }
    }
    proof {
        assert(orig.subrange(0, orig.len() as int) =~= orig);
    }
    r
}



/// With an empty filter the scorer drops nothing and scores nothing: the
/// pairs are the units in snapshot order, each unscored.
pub proof fn lemma_score_pairs_empty(units: Seq<UnitInfoV>, filter: Seq<char>)
    requires
        filter.len() == 0,
    ensures
        score_pairs(units, filter).len() == units.len(),
        forall|i: int|
            0 <= i < units.len() ==> #[trigger] score_pairs(units, filter)[i] == (
            units[i],
            None::<int>,
            ),
    decreases units.len(),
{
    if units.len() > 0 {
        lemma_score_pairs_empty(units.drop_last(), filter);
        let s = score_pairs(units, filter);
        let rest = score_pairs(units.drop_last(), filter);
        assert forall|i: int| 0 <= i < units.len() implies #[trigger] s[i] == (
            units[i],
            None::<int>,
        ) by {
            if i < units.len() - 1 {
                assert(s[i] == rest[i]);
                assert(units.drop_last()[i] == units[i]);
            }
        }
    }
}

/// Insertion adds exactly the new pair: the contents, counted with
/// multiplicity, grow by it and nothing else.
pub proof fn lemma_insert_multiset(
    s: Seq<(UnitInfoV, Option<int>)>,
    x: (UnitInfoV, Option<int>),
    sort_by: SortBy,
    ascending: bool,
)
    ensures
        insert_spec(s, x, sort_by, ascending).to_multiset() =~= s.to_multiset().insert(x),
    decreases s.len(),
{
    broadcast use vstd::seq_lib::group_to_multiset_ensures;

    if s.len() == 0 {
        assert(seq![x] =~= Seq::empty().push(x));
        assert(Seq::<(UnitInfoV, Option<int>)>::empty().push(x).to_multiset() =~= Seq::<
            (UnitInfoV, Option<int>),
        >::empty().to_multiset().insert(x));
    } else if pair_le(s.last(), x, sort_by, ascending) {
    } else {
        lemma_insert_multiset(s.drop_last(), x, sort_by, ascending);
        assert(s.drop_last().push(s.last()) =~= s);
    }
}

/// Sorting is a permutation: the contents, counted with multiplicity, do
/// not change.
pub proof fn lemma_sort_multiset(s: Seq<(UnitInfoV, Option<int>)>, sort_by: SortBy, ascending: bool)
    ensures
        sort_spec(s, sort_by, ascending).to_multiset() =~= s.to_multiset(),
    decreases s.len(),
{
    broadcast use vstd::seq_lib::group_to_multiset_ensures;

    if s.len() > 0 {
        lemma_sort_multiset(s.drop_last(), sort_by, ascending);
        lemma_insert_multiset(sort_spec(s.drop_last(), sort_by, ascending), s.last(), sort_by, ascending);
        assert(s.drop_last().push(s.last()) =~= s);
    }
}

/// Insertion adds exactly the new pair's unit to the units of the sequence.
pub proof fn lemma_firsts_insert_multiset(
    s: Seq<(UnitInfoV, Option<int>)>,
    x: (UnitInfoV, Option<int>),
    sort_by: SortBy,
    ascending: bool,
)
    ensures
        firsts(insert_spec(s, x, sort_by, ascending)).to_multiset() =~= firsts(
            s,
        ).to_multiset().insert(x.0),
    decreases s.len(),
{
    broadcast use vstd::seq_lib::group_to_multiset_ensures;

    if s.len() == 0 {
        assert(firsts(seq![x]) =~= Seq::<UnitInfoV>::empty().push(x.0));
    } else if pair_le(s.last(), x, sort_by, ascending) {
        assert(firsts(s.push(x)) =~= firsts(s).push(x.0));
    } else {
        lemma_firsts_insert_multiset(s.drop_last(), x, sort_by, ascending);
        let inner = insert_spec(s.drop_last(), x, sort_by, ascending);
        assert(firsts(inner.push(s.last())) =~= firsts(inner).push(s.last().0));
        assert(firsts(s.drop_last()).push(s.last().0) =~= firsts(s));
    }
}

/// Sorting permutes the units: their contents, counted with multiplicity,
/// do not change.
pub proof fn lemma_firsts_sort_multiset(
    s: Seq<(UnitInfoV, Option<int>)>,
    sort_by: SortBy,
    ascending: bool,
)
    ensures
        firsts(sort_spec(s, sort_by, ascending)).to_multiset() =~= firsts(s).to_multiset(),
    decreases s.len(),
{
    broadcast use vstd::seq_lib::group_to_multiset_ensures;

    if s.len() > 0 {
        lemma_firsts_sort_multiset(s.drop_last(), sort_by, ascending);
        lemma_firsts_insert_multiset(
            sort_spec(s.drop_last(), sort_by, ascending),
            s.last(),
            sort_by,
            ascending,
        );
        assert(firsts(s.drop_last()).push(s.last().0) =~= firsts(s));
    }
}

/// With an empty query the result holds exactly the input units: nothing is
/// dropped, nothing is added, multiplicities included.
pub proof fn lemma_empty_filter_is_permutation(
    units: Seq<UnitInfoV>,
    filter: Seq<char>,
    sort_by: SortBy,
    ascending: bool,
)
    requires
        filter.len() == 0,
    ensures
        rank_spec(units, filter, sort_by, ascending).to_multiset() =~= units.to_multiset(),
{
    lemma_score_pairs_empty(units, filter);
    let pairs = score_pairs(units, filter);
    lemma_firsts_sort_multiset(pairs, sort_by, ascending);
    assert(firsts(pairs) =~= units);
}

/// A sequence already in order is a fixed point of the sort.
pub proof fn lemma_sorted_fixpoint(
    s: Seq<(UnitInfoV, Option<int>)>,
    sort_by: SortBy,
    ascending: bool,
)
    requires
        forall|i: int, j: int|
            0 <= i < j < s.len() ==> pair_le(#[trigger] s[i], #[trigger] s[j], sort_by, ascending),
    ensures
        sort_spec(s, sort_by, ascending) == s,
    decreases s.len(),
{
    if s.len() > 0 {
        let d = s.drop_last();
        assert forall|i: int, j: int| 0 <= i < j < d.len() implies pair_le(
            #[trigger] d[i],
            #[trigger] d[j],
            sort_by,
            ascending,
        ) by {
            assert(d[i] == s[i]);
            assert(d[j] == s[j]);
        }
        lemma_sorted_fixpoint(d, sort_by, ascending);
        if d.len() == 0 {
            assert(seq![s.last()] =~= s);
        } else {
            assert(pair_le(s[s.len() - 2], s[s.len() - 1], sort_by, ascending));
            assert(d.last() == s[s.len() - 2]);
            assert(d.push(s.last()) =~= s);
        }
    }
}

/// With an empty query, a snapshot that is already in the order of the
/// active sort key passes through whole and untouched: the result equals
/// the input, in the input's order.  (An unordered snapshot is still kept
/// whole, but the sort reorders it.)
pub proof fn lemma_empty_filter_passthrough(
    units: Seq<UnitInfoV>,
    filter: Seq<char>,
    sort_by: SortBy,
    ascending: bool,
)
    requires
        filter.len() == 0,
        forall|i: int, j: int|
            0 <= i < j < units.len() ==> pair_le(
                (#[trigger] units[i], None::<int>),
                (#[trigger] units[j], None::<int>),
                sort_by,
                ascending,
            ),
    ensures
        rank_spec(units, filter, sort_by, ascending) == units,
{
    lemma_score_pairs_empty(units, filter);
    let pairs = score_pairs(units, filter);
    assert forall|i: int, j: int| 0 <= i < j < pairs.len() implies pair_le(
        #[trigger] pairs[i],
        #[trigger] pairs[j],
        sort_by,
        ascending,
    ) by {
        assert(pairs[i] == (units[i], None::<int>));
        assert(pairs[j] == (units[j], None::<int>));
    }
    lemma_sorted_fixpoint(pairs, sort_by, ascending);
    assert(firsts(pairs) =~= units);
}


} // verus!
