//! Ranked, case-insensitive fuzzy matching of package names against a query.
use vstd::prelude::*;

use crate::text::{ascii_lower, lower_spec, lowered_chars};

verus! {

broadcast use vstd::string::group_string_axioms;

/// The number of bytes UTF-8 takes for `c`.
pub open spec fn char_width(c: char) -> nat {
    let u = c as u32;
    if u < 0x80 {
        1
    } else if u < 0x800 {
        2
    } else if u < 0x10000 {
        3
    } else {
        4
    }
}

/// The number of bytes UTF-8 takes for `s`.
pub open spec fn utf8_len(s: Seq<char>) -> nat
    decreases s.len(),
{
    if s.len() == 0 {
        0
    } else {
        utf8_len(s.drop_last()) + char_width(s.last())
    }
}

/// `n` occurs in `h` starting at position `i`.
pub open spec fn matches_at(h: Seq<char>, n: Seq<char>, i: int) -> bool {
    0 <= i && i + n.len() <= h.len() && h.subrange(i, i + n.len()) == n
}

/// `i` is the first position at which `n` occurs in `h`.
pub open spec fn is_first_match(h: Seq<char>, n: Seq<char>, i: int) -> bool {
    matches_at(h, n, i) && forall|j: int| 0 <= j < i ==> !matches_at(h, n, j)
}

/// The first position at which `n` occurs in `h`, if it occurs.
pub open spec fn first_match(h: Seq<char>, n: Seq<char>) -> Option<int> {
    if exists|i: int| is_first_match(h, n, i) {
        Some(choose|i: int| is_first_match(h, n, i))
    } else {
        None
    }
}

/// `j` is the first position at or after `from` that holds `c`.
pub open spec fn is_next(h: Seq<char>, c: char, from: int, j: int) -> bool {
    from <= j < h.len() && h[j] == c && forall|k: int| from <= k < j ==> h[k] != c
}

/// The first position at or after `from` that holds `c`, if any.
pub open spec fn next_pos(h: Seq<char>, c: char, from: int) -> Option<int> {
    if exists|j: int| is_next(h, c, from, j) {
        Some(choose|j: int| is_next(h, c, from, j))
    } else {
        None
    }
}

/// Where the characters of `q` are found in `h` when each is matched, in
/// order, at the first position after the previous match; `None` when some
/// character is not found.
pub open spec fn greedy(h: Seq<char>, q: Seq<char>) -> Option<Seq<int>>
    decreases q.len(),
{
    if q.len() == 0 {
        Some(Seq::empty())
    } else {
        match greedy(h, q.drop_last()) {
            None => None,
            Some(ps) => {
                let from = if ps.len() == 0 {
                    0
                } else {
                    ps.last() + 1
                };
                match next_pos(h, q.last(), from) {
                    None => None,
                    Some(j) => Some(ps.push(j)),
                }
            },
        }
    }
}

/// The score of matched positions: each match earns 30 when it directly
/// follows the previous one and 10 otherwise, loses its position, and earns 20.
pub open spec fn greedy_score(ps: Seq<int>) -> int
    decreases ps.len(),
{
    if ps.len() == 0 {
        0
    } else {
        let bonus = if ps.len() > 1 && ps.last() == ps[ps.len() - 2] + 1 {
            30int
        } else {
            10int
        };
        greedy_score(ps.drop_last()) + bonus - ps.last() + 20
    }
}

/// How well `candidate` matches `query`, ignoring ASCII case: 0 for an empty
/// query; 10000 for the same text; for a query found as a whole, 5000 less 8
/// for each byte before it and 1 for each byte of the candidate; otherwise, if
/// the query's characters appear in order, the score of their first-found
/// positions; else no match.
pub open spec fn fuzzy_spec(candidate: Seq<char>, query: Seq<char>) -> Option<int> {
    if query.len() == 0 {
        Some(0)
    } else {
        let c = lower_spec(candidate);
        let q = lower_spec(query);
        if c == q {
            Some(10000)
        } else {
            match first_match(c, q) {
                Some(i) => Some(5000 - 8 * utf8_len(c.take(i)) - utf8_len(c)),
                None => match greedy(c, q) {
                    Some(ps) => Some(greedy_score(ps)),
                    None => None,
                },
            }
        }
    }
}

/// `utf8_len` of the first `n` characters of `v`.
fn utf8_len_prefix(v: &Vec<char>, n: usize) -> (r: u64)
    requires
        n <= v@.len(),
        v@.len() <= u32::MAX,
    ensures
        r == utf8_len(v@.take(n as int)),
        r <= 4 * n,
{
    let mut total: u64 = 0;
    let mut i: usize = 0;
    while i < n
        invariant
            i <= n <= v@.len() <= u32::MAX,
            total == utf8_len(v@.take(i as int)),
            total <= 4 * i,
        decreases n - i,
    {
        assert(v@.take(i + 1).drop_last() == v@.take(i as int));
        let u = v[i] as u32;
        let w: u64 = if u < 0x80 {
            1
        } else if u < 0x800 {
            2
        } else if u < 0x10000 {
            3
        } else {
            4
        };
        total = total + w;
        i = i + 1;
    }
    total
}

/// Whether two character vectors hold the same characters.
fn same_chars(a: &Vec<char>, b: &Vec<char>) -> (r: bool)
    ensures
        r == (a@ == b@),
{
    if a.len() != b.len() {
        return false;
    }
    let mut i: usize = 0;
    while i < a.len()
        invariant
            a@.len() == b@.len(),
            i <= a@.len(),
            forall|j: int| 0 <= j < i ==> a@[j] == b@[j],
        decreases a@.len() - i,
    {
        if a[i] != b[i] {
            return false;
        }
        i = i + 1;
    }
    assert(a@ =~= b@);
    true
}

/// Whether `n` occurs in `h` at position `i`.
fn occurs_at(h: &Vec<char>, n: &Vec<char>, i: usize) -> (r: bool)
    requires
        i + n@.len() <= h@.len(),
    ensures
        r == matches_at(h@, n@, i as int),
{
    let hl = h.len();
    let mut k: usize = 0;
    while k < n.len()
        invariant
            hl == h@.len(),
            i + n@.len() <= h@.len(),
            k <= n@.len(),
            forall|j: int| 0 <= j < k ==> h@[i + j] == n@[j],
        decreases n@.len() - k,
    {
        assert(i + k < h@.len());
        if h[i + k] != n[k] {
            assert(h@.subrange(i as int, i + n@.len())[k as int] != n@[k as int]);
            return false;
        }
        k = k + 1;
    }
    assert(h@.subrange(i as int, i + n@.len()) =~= n@);
    true
}

/// The first position at which `n` occurs in `h`, as `str::find` finds it.
fn find_chars(h: &Vec<char>, n: &Vec<char>) -> (r: Option<usize>)
    requires
        n@.len() > 0,
    ensures
        match r {
            Some(i) => first_match(h@, n@) == Some(i as int),
            None => first_match(h@, n@) is None,
        },
{
    if n.len() > h.len() {
        assert forall|i: int| !is_first_match(h@, n@, i) by {}
        return None;
    }
    let mut i: usize = 0;
    let hl = h.len();
    let last = hl - n.len();
    while i <= last
        invariant
            hl == h@.len(),
            n@.len() > 0,
            n@.len() <= h@.len(),
            last == h@.len() - n@.len(),
            i <= last + 1,
            forall|j: int| 0 <= j < i ==> !matches_at(h@, n@, j),
        decreases last + 1 - i,
    {
        if occurs_at(h, n, i) {
            assert(is_first_match(h@, n@, i as int));
            let ghost c = choose|j: int| is_first_match(h@, n@, j);
            assert(c == i) by {
                if c < i {
                } else if c > i {
                }
            }
            return Some(i);
        }
        i = i + 1;
    }
    assert forall|j: int| !is_first_match(h@, n@, j) by {
        if is_first_match(h@, n@, j) {
            assert(j < i);
        }
    }
    None
}

/// `n * (n + 1) / 2`, the sum of the positions `0..=n`.
pub open spec fn tri(n: int) -> int {
    n * (n + 1) / 2
}

proof fn lemma_tri_step(i: int)
    requires
        0 <= i,
    ensures
        tri(i + 1) == tri(i) + i + 1,
        tri(i) >= 0,
{
    assert(tri(i + 1) == tri(i) + i + 1) by (nonlinear_arith)
        requires
            0 <= i,
    ;
    assert(tri(i) >= 0) by (nonlinear_arith)
        requires
            0 <= i,
    ;
}

proof fn lemma_tri_bound(i: int)
    requires
        0 <= i <= 0xffff_ffff,
    ensures
        tri(i) <= 0x7fff_ffff_8000_0000,
{
    assert(tri(i) <= 0x7fff_ffff_8000_0000) by (nonlinear_arith)
        requires
            0 <= i <= 0xffff_ffff,
    ;
}

/// Once a prefix of the query cannot be matched, the whole query cannot.
proof fn lemma_greedy_none_extends(h: Seq<char>, q: Seq<char>, j: int)
    requires
        0 <= j <= q.len(),
        greedy(h, q.take(j)) is None,
    ensures
        greedy(h, q) is None,
    decreases q.len(),
{
    if j == q.len() {
        assert(q.take(j) == q);
    } else {
        assert(q.drop_last().take(j) == q.take(j));
        lemma_greedy_none_extends(h, q.drop_last(), j);
    }
}

/// Scores how well `candidate` matches `query`, ignoring ASCII case.
/// Matching text scores 10000; a query found whole in the candidate scores
/// 5000 less eight per byte before it and one per byte of the candidate; a
/// query whose characters appear in order scores by how close together and
/// how early they appear; anything else does not match.
pub fn fuzzy_score(candidate: &str, query: &str) -> (r: Option<i64>)
    requires
        candidate@.len() <= u32::MAX,
    ensures
        match r {
            Some(v) => fuzzy_spec(candidate@, query@) == Some(v as int),
            None => fuzzy_spec(candidate@, query@) is None,
        },
{
    if query.is_empty() {
        return Some(0);
    }
    let c = lowered_chars(candidate);
    let q = lowered_chars(query);
    let ghost lc = c@;
    let ghost lq = q@;
    if same_chars(&c, &q) {
        return Some(10000);
    }
    match find_chars(&c, &q) {
        Some(i) => {
            let before = utf8_len_prefix(&c, i);
            let total = utf8_len_prefix(&c, c.len());
            assert(c@.take(c@.len() as int) == c@);
            let s: i64 = 5000 - (before as i64) * 8 - (total as i64);
            return Some(s);
        },
        None => {},
    }
    let m = q.len();
    let n = c.len();
    let mut k: usize = 0;
    let mut score: i64 = 0;
    let mut previous: Option<usize> = None;
    let ghost mut ps: Seq<int> = Seq::empty();
    let mut i: usize = 0;
    proof {
        assert(lq.take(0) == Seq::<char>::empty());
    }
    while i < n
        invariant
            c@ == lc,
            q@ == lq,
            lc == lower_spec(candidate@),
            lq == lower_spec(query@),
            lc != lq,
            first_match(lc, lq) is None,
            n == lc.len(),
            m == lq.len(),
            m >= 1,
            n <= u32::MAX,
            i <= n,
            k < m,
            k <= i,
            greedy(lc, lq.take(k as int)) == Some(ps),
            ps.len() == k,
            forall|t: int| 0 <= t < k ==> ps[t] < i,
            k == 0 ==> previous is None,
            k > 0 ==> previous == Some(ps.last() as usize) && 0 <= ps.last(),
            forall|j: int|
                (if k == 0 {
                    0
                } else {
                    ps.last() + 1
                }) <= j < i ==> lc[j] != lq[k as int],
            score == greedy_score(ps) - 20 * k,
            score + tri(i as int) >= 0,
            score <= 30 * i,
        decreases n - i,
    {
        proof {
            lemma_tri_step(i as int);
            lemma_tri_bound(i + 1);
        }
        if c[i] == q[k] {
            let bonus: i64 = match previous {
                Some(p) => if p + 1 == i {
                    30
                } else {
                    10
                },
                None => 10,
            };
            score = score + bonus;
            score = score - (i as i64);
            let ghost from = if k == 0 {
                0
            } else {
                ps.last() + 1
            };
            proof {
                assert(is_next(lc, lq[k as int], from, i as int));
                let j = choose|j: int| is_next(lc, lq[k as int], from, j);
                assert(j == i) by {
                    if j < i {
                    } else if j > i {
                    }
                }
                assert(lq.take(k + 1).drop_last() == lq.take(k as int));
                assert(lq.take(k + 1).last() == lq[k as int]);
                assert(ps.push(i as int).drop_last() == ps);
                ps = ps.push(i as int);
            }
            previous = Some(i);
            k = k + 1;
            if k == m {
                proof {
                    assert(lq.take(m as int) == lq);
                }
                return Some(score + (k as i64) * 20);
            }
        }
        i = i + 1;
    }
    proof {
        let from = if k == 0 {
            0
        } else {
            ps.last() + 1
        };
        assert forall|j: int| !is_next(lc, lq[k as int], from, j) by {}
        assert(lq.take(k + 1).drop_last() == lq.take(k as int));
        assert(lq.take(k + 1).last() == lq[k as int]);
        lemma_greedy_none_extends(lc, lq, k + 1);
    }
    None
}

} // verus!

verus! {

/// `ps` lists increasing positions of `h` at which the characters of `q`
/// stand, one for each character of `q`.
pub open spec fn embeds_at(h: Seq<char>, q: Seq<char>, ps: Seq<int>) -> bool {
    &&& ps.len() == q.len()
    &&& forall|t: int| 0 <= t < ps.len() ==> 0 <= #[trigger] ps[t] < h.len() && h[ps[t]] == q[t]
    &&& forall|s: int, t: int| 0 <= s < t < ps.len() ==> #[trigger] ps[s] < #[trigger] ps[t]
}

/// The characters of `q` appear in `h` in order, not necessarily together.
pub open spec fn is_subsequence(q: Seq<char>, h: Seq<char>) -> bool {
    exists|ps: Seq<int>| embeds_at(h, q, ps)
}

/// The positions the greedy matching finds embed the query.
proof fn lemma_greedy_embeds(h: Seq<char>, q: Seq<char>)
    requires
        greedy(h, q) is Some,
    ensures
        embeds_at(h, q, greedy(h, q)->0),
    decreases q.len(),
{
    if q.len() > 0 {
        lemma_greedy_embeds(h, q.drop_last());
        let ps = greedy(h, q.drop_last())->0;
        let from = if ps.len() == 0 {
            0
        } else {
            ps.last() + 1
        };
        let j = next_pos(h, q.last(), from)->0;
        assert(is_next(h, q.last(), from, j));
        let qs = ps.push(j);
        assert forall|s: int, t: int| 0 <= s < t < qs.len() implies #[trigger] qs[s] < #[trigger] qs[t] by {
            if t == qs.len() - 1 && s < t {
                if s < ps.len() - 1 {
                    assert(ps[s] < ps[ps.len() - 1]);
                }
            }
        }
        assert forall|t: int| 0 <= t < qs.len() implies 0 <= #[trigger] qs[t] < h.len() && h[qs[t]]
            == q[t] by {
            if t < ps.len() {
                assert(q.drop_last()[t] == q[t]);
            }
        }
    }
}

/// An occurrence of `c` at or after `from` means there is a first one.
proof fn lemma_next_exists(h: Seq<char>, c: char, from: int, j: int)
    requires
        0 <= from <= j < h.len(),
        h[j] == c,
    ensures
        exists|k: int| is_next(h, c, from, k),
    decreases j - from,
{
    if exists|k: int| from <= k < j && h[k] == c {
        let k = choose|k: int| from <= k < j && h[k] == c;
        lemma_next_exists(h, c, from, k);
    } else {
        assert(is_next(h, c, from, j));
    }
}

/// Greedy matching succeeds whenever the query embeds, and never lands later
/// than any embedding does.
proof fn lemma_greedy_complete(h: Seq<char>, q: Seq<char>, ps: Seq<int>)
    requires
        embeds_at(h, q, ps),
    ensures
        greedy(h, q) is Some,
        forall|t: int| 0 <= t < q.len() ==> (greedy(h, q)->0)[t] <= #[trigger] ps[t],
    decreases q.len(),
{
    if q.len() > 0 {
        let ps0 = ps.drop_last();
        let q0 = q.drop_last();
        assert(embeds_at(h, q0, ps0)) by {
            assert forall|t: int| 0 <= t < ps0.len() implies 0 <= #[trigger] ps0[t] < h.len()
                && h[ps0[t]] == q0[t] by {
                assert(ps0[t] == ps[t]);
            }
            assert forall|s: int, t: int| 0 <= s < t < ps0.len() implies #[trigger] ps0[s]
                < #[trigger] ps0[t] by {
                assert(ps[s] < ps[t]);
            }
        }
        lemma_greedy_complete(h, q0, ps0);
        lemma_greedy_embeds(h, q0);
        let gs = greedy(h, q0)->0;
        let from = if gs.len() == 0 {
            0
        } else {
            gs.last() + 1
        };
        let last = ps[ps.len() - 1];
        if gs.len() > 0 {
            assert(gs.last() <= ps0[gs.len() - 1]);
            assert(ps[ps.len() - 2] < ps[ps.len() - 1]);
        }
        assert(from <= last);
        assert(h[last] == q.last());
        lemma_next_exists(h, q.last(), from, last);
        let j = choose|j: int| is_next(h, q.last(), from, j);
        assert(j <= last) by {
            if j > last {
                assert(h[last] != q.last());
            }
        }
        let g = gs.push(j);
        assert(greedy(h, q) == Some(g));
        assert forall|t: int| 0 <= t < q.len() implies g[t] <= #[trigger] ps[t] by {
            if t < gs.len() {
                assert(ps0[t] == ps[t]);
            }
        }
    }
}

proof fn lemma_lower_idempotent(s: Seq<char>)
    ensures
        lower_spec(lower_spec(s)) == lower_spec(s),
{
    assert(lower_spec(lower_spec(s)) =~= lower_spec(s));
}

/// The positions the greedy matching finds are increasing from 0 on, so each
/// stands at least as far as its index.
proof fn lemma_greedy_positions(h: Seq<char>, q: Seq<char>)
    requires
        greedy(h, q) is Some,
    ensures
        forall|t: int| 0 <= t < q.len() ==> t <= #[trigger] (greedy(h, q)->0)[t],
{
    lemma_greedy_embeds(h, q);
    let ps = greedy(h, q)->0;
    assert forall|t: int| 0 <= t < q.len() implies t <= #[trigger] ps[t] by {
        lemma_increasing_at_least_index(ps, t);
    }
}

proof fn lemma_increasing_at_least_index(ps: Seq<int>, t: int)
    requires
        0 <= t < ps.len(),
        forall|i: int| 0 <= i < ps.len() ==> 0 <= #[trigger] ps[i],
        forall|s: int, u: int| 0 <= s < u < ps.len() ==> #[trigger] ps[s] < #[trigger] ps[u],
    ensures
        t <= ps[t],
    decreases t,
{
    if t > 0 {
        lemma_increasing_at_least_index(ps, t - 1);
        assert(ps[t - 1] < ps[t]);
    }
}

/// The score of positions that each stand at least as far as their index.
proof fn lemma_greedy_score_bound(ps: Seq<int>)
    requires
        forall|t: int| 0 <= t < ps.len() ==> t <= #[trigger] ps[t],
    ensures
        2 * greedy_score(ps) <= 101 * ps.len() - ps.len() * ps.len(),
    decreases ps.len(),
{
    if ps.len() > 0 {
        let k = ps.len() as int;
        let p0 = ps.drop_last();
        assert forall|t: int| 0 <= t < p0.len() implies t <= #[trigger] p0[t] by {
            assert(p0[t] == ps[t]);
        }
        lemma_greedy_score_bound(p0);
        assert(ps.last() >= k - 1);
        assert(2 * greedy_score(ps) <= 101 * k - k * k) by (nonlinear_arith)
            requires
                2 * greedy_score(p0) <= 101 * (k - 1) - (k - 1) * (k - 1),
                greedy_score(ps) <= greedy_score(p0) + 50 - ps.last(),
                ps.last() >= k - 1,
        ;
    }
}

/// An exact match, ignoring case, is what scores 10000, and nothing scores
/// more: the exact name always ranks above every other match.
pub proof fn law_exact_match_ranks_first(candidate: Seq<char>, query: Seq<char>)
    ensures
        fuzzy_spec(candidate, query) is Some ==> fuzzy_spec(candidate, query)->0 <= 10000,
        fuzzy_spec(candidate, query) == Some(10000int) <==> (query.len() > 0 && lower_spec(
            candidate,
        ) == lower_spec(query)),
{
    let c = lower_spec(candidate);
    let q = lower_spec(query);
    if query.len() > 0 && c != q && first_match(c, q) is None && greedy(c, q) is Some {
        let ps = greedy(c, q)->0;
        lemma_greedy_embeds(c, q);
        lemma_greedy_positions(c, q);
        assert forall|t: int| 0 <= t < ps.len() implies t <= #[trigger] ps[t] by {
            assert(t <= (greedy(c, q)->0)[t]);
        }
        lemma_greedy_score_bound(ps);
        let k = ps.len() as int;
        assert(101 * k - k * k <= 2550) by (nonlinear_arith);
    }
}

/// A query matches exactly when its characters appear in the name in order,
/// ignoring ASCII case.
pub proof fn law_match_iff_subsequence(candidate: Seq<char>, query: Seq<char>)
    ensures
        fuzzy_spec(candidate, query) is Some <==> is_subsequence(
            lower_spec(query),
            lower_spec(candidate),
        ),
{
    let c = lower_spec(candidate);
    let q = lower_spec(query);
    if is_subsequence(q, c) {
        let ps = choose|ps: Seq<int>| embeds_at(c, q, ps);
        lemma_greedy_complete(c, q, ps);
    }
    if fuzzy_spec(candidate, query) is Some {
        if query.len() == 0 {
            assert(embeds_at(c, q, Seq::<int>::empty()));
        } else if c == q {
            let ps = Seq::new(q.len(), |t: int| t);
            assert(embeds_at(c, q, ps));
        } else if first_match(c, q) is Some {
            let i = first_match(c, q)->0;
            let w = choose|i: int| is_first_match(c, q, i);
            assert(is_first_match(c, q, w));
            let ps = Seq::new(q.len(), |t: int| i + t);
            assert forall|t: int| 0 <= t < ps.len() implies 0 <= #[trigger] ps[t] < c.len() && c[ps[t]]
                == q[t] by {
                assert(c.subrange(i, i + q.len())[t] == c[i + t]);
            }
            assert(embeds_at(c, q, ps));
        } else {
            lemma_greedy_embeds(c, q);
        }
    }
}

/// Matching ignores ASCII case: folding name and query first changes nothing.
pub proof fn law_case_insensitive(candidate: Seq<char>, query: Seq<char>)
    ensures
        fuzzy_spec(candidate, query) == fuzzy_spec(lower_spec(candidate), lower_spec(query)),
{
    lemma_lower_idempotent(candidate);
    lemma_lower_idempotent(query);
}

/// Folding ASCII case keeps a character's UTF-8 width.
proof fn lemma_lower_utf8_len(s: Seq<char>)
    ensures
        utf8_len(lower_spec(s)) == utf8_len(s),
    decreases s.len(),
{
    if s.len() > 0 {
        lemma_lower_utf8_len(s.drop_last());
        assert(lower_spec(s).drop_last() =~= lower_spec(s.drop_last()));
        let c = s.last();
        if 'A' <= c && c <= 'Z' {
            assert(((c as u32) + 32) as char as u32 == (c as u32) + 32);
        }
    }
}

/// A prefix takes no more bytes than the whole.
proof fn lemma_utf8_len_prefix(s: Seq<char>, i: int)
    requires
        0 <= i <= s.len(),
    ensures
        utf8_len(s.take(i)) <= utf8_len(s),
    decreases s.len(),
{
    if i < s.len() {
        assert(s.drop_last().take(i) =~= s.take(i));
        lemma_utf8_len_prefix(s.drop_last(), i);
    } else {
        assert(s.take(i) =~= s);
    }
}

/// Where `n` occurs in `h`, it has a first occurrence.
proof fn lemma_first_match_exists(h: Seq<char>, n: Seq<char>, i: int)
    requires
        matches_at(h, n, i),
    ensures
        first_match(h, n) is Some,
    decreases i,
{
    if exists|j: int| 0 <= j < i && matches_at(h, n, j) {
        let j = choose|j: int| 0 <= j < i && matches_at(h, n, j);
        lemma_first_match_exists(h, n, j);
    } else {
        assert(is_first_match(h, n, i));
    }
}

/// A query matched only letter by letter scores at most 1275.
proof fn lemma_scattered_bound(c: Seq<char>, q: Seq<char>)
    requires
        greedy(c, q) is Some,
    ensures
        greedy_score(greedy(c, q)->0) <= 1275,
{
    let ps = greedy(c, q)->0;
    lemma_greedy_embeds(c, q);
    lemma_greedy_positions(c, q);
    assert forall|t: int| 0 <= t < ps.len() implies t <= #[trigger] ps[t] by {
        assert(t <= (greedy(c, q)->0)[t]);
    }
    lemma_greedy_score_bound(ps);
    let k = ps.len() as int;
    assert(101 * k - k * k <= 2550) by (nonlinear_arith);
}

/// For a name of at most 400 bytes, a query found in it as a whole always
/// scores above a query whose letters are found only apart.
pub proof fn law_contiguous_beats_scattered(candidate: Seq<char>, q1: Seq<char>, q2: Seq<char>)
    requires
        utf8_len(candidate) <= 400,
        q1.len() > 0,
        q2.len() > 0,
        exists|i: int| matches_at(lower_spec(candidate), lower_spec(q1), i),
        forall|i: int| !matches_at(lower_spec(candidate), lower_spec(q2), i),
        fuzzy_spec(candidate, q2) is Some,
    ensures
        fuzzy_spec(candidate, q1) is Some,
        fuzzy_spec(candidate, q1)->0 > fuzzy_spec(candidate, q2)->0,
{
    let c = lower_spec(candidate);
    let l1 = lower_spec(q1);
    let l2 = lower_spec(q2);
    lemma_lower_utf8_len(candidate);
    // The second query is neither the whole name nor a part of it.
    if c == l2 {
        assert(c.subrange(0, l2.len() as int) =~= l2);
        assert(matches_at(c, l2, 0));
    }
    if first_match(c, l2) is Some {
        let w = choose|i: int| is_first_match(c, l2, i);
        assert(matches_at(c, l2, w));
    }
    lemma_scattered_bound(c, l2);
    // The first is found as a whole.
    let i0 = choose|i: int| matches_at(c, l1, i);
    lemma_first_match_exists(c, l1, i0);
    if c != l1 {
        let i = first_match(c, l1)->0;
        let w = choose|i: int| is_first_match(c, l1, i);
        assert(is_first_match(c, l1, w));
        lemma_utf8_len_prefix(c, i);
    }
}

/// `tri` grows with its argument.
proof fn lemma_tri_mono(a: int, b: int)
    requires
        0 <= a <= b,
    ensures
        tri(a) <= tri(b),
{
    assert(tri(a) <= tri(b)) by (nonlinear_arith)
        requires
            0 <= a <= b,
    ;
}

/// Increasing positions cost at most the sum of all positions up to the last.
proof fn lemma_greedy_score_lower(ps: Seq<int>)
    requires
        ps.len() > 0,
        forall|t: int| 0 <= t < ps.len() ==> 0 <= #[trigger] ps[t],
        forall|a: int, b: int| 0 <= a < b < ps.len() ==> #[trigger] ps[a] < #[trigger] ps[b],
    ensures
        greedy_score(ps) >= -tri(ps.last()),
    decreases ps.len(),
{
    let l = ps.last();
    lemma_tri_step(l);
    if l > 0 {
        lemma_tri_step(l - 1);
    }
    let p0 = ps.drop_last();
    assert(greedy_score(ps) >= greedy_score(p0) - l + 30);
    if p0.len() > 0 {
        assert forall|t: int| 0 <= t < p0.len() implies 0 <= #[trigger] p0[t] by {
            assert(p0[t] == ps[t]);
        }
        assert forall|a: int, b: int| 0 <= a < b < p0.len() implies #[trigger] p0[a] < #[trigger] p0[b] by {
            assert(p0[a] == ps[a] && p0[b] == ps[b]);
        }
        lemma_greedy_score_lower(p0);
        assert(p0.last() == ps[ps.len() - 2]);
        assert(ps[ps.len() - 2] < l);
        lemma_tri_mono(p0.last(), l - 1);
        assert(tri(l) == tri(l - 1) + l);
    } else {
        assert(greedy_score(p0) == 0);
        if l > 0 {
            assert(tri(l) == tri(l - 1) + l);
        }
    }
}

/// UTF-8 takes at most four bytes a character.
proof fn lemma_utf8_len_bound(s: Seq<char>)
    ensures
        utf8_len(s) <= 4 * s.len(),
    decreases s.len(),
{
    if s.len() > 0 {
        lemma_utf8_len_bound(s.drop_last());
    }
}

/// A score of a name of at most `u32::MAX` characters fits in an `i64`.
pub(crate) proof fn lemma_fuzzy_in_i64(candidate: Seq<char>, query: Seq<char>)
    requires
        candidate.len() <= u32::MAX,
    ensures
        fuzzy_spec(candidate, query) is Some ==> i64::MIN <= fuzzy_spec(candidate, query)->0
            <= i64::MAX,
{
    let c = lower_spec(candidate);
    let q = lower_spec(query);
    if query.len() > 0 && c != q {
        match first_match(c, q) {
            Some(i) => {
                let w = choose|i: int| is_first_match(c, q, i);
                assert(is_first_match(c, q, w));
                lemma_utf8_len_prefix(c, i);
                lemma_utf8_len_bound(c);
            },
            None => {
                if greedy(c, q) is Some {
                    lemma_scattered_bound(c, q);
                    let ps = greedy(c, q)->0;
                    lemma_greedy_embeds(c, q);
                    if ps.len() > 0 {
                        lemma_greedy_score_lower(ps);
                        assert(ps.last() < c.len());
                        lemma_tri_bound(ps.last());
                    }
                }
            },
        }
    }
}

} // verus!
