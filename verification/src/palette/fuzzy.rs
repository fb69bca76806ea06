//! Fuzzy matching of a query against command names.

use vstd::prelude::*;

use crate::text::{chars_of, lowered, to_lower};

verus! {

/// Every character of `q` from `j` on occurs in `n` from `i` on, in order.
pub open spec fn occurs_from(q: Seq<char>, n: Seq<char>, j: int, i: int) -> bool
    decreases n.len() - i,
{
    if j >= q.len() {
        true
    } else if i >= n.len() {
        false
    } else if n[i] == q[j] {
        occurs_from(q, n, j + 1, i + 1)
    } else {
        occurs_from(q, n, j, i + 1)
    }
}

/// What one matched character at place `i` earns as the `run`th match in a row:
/// more at the start of the name, and more the longer the run.
pub open spec fn reward(i: int, run: int) -> int {
    10 - (if i < 9 {
        i
    } else {
        9
    }) + run * 2
}

/// What the matches of `q` from `j` on earn, taken as early as they come in `n`
/// from `i` on, after `run` matches in a row.
pub open spec fn earned_from(q: Seq<char>, n: Seq<char>, j: int, i: int, run: int) -> int
    decreases n.len() - i,
{
    if j >= q.len() || i >= n.len() {
        0
    } else if n[i] == q[j] {
        reward(i, run + 1) + earned_from(q, n, j + 1, i + 1, run + 1)
    } else {
        earned_from(q, n, j, i + 1, 0)
    }
}

/// The query occurs in the name, in order and ignoring ASCII case.
pub open spec fn occurs_in(query: Seq<char>, name: Seq<char>) -> bool {
    occurs_from(lowered(query), lowered(name), 0, 0)
}

/// What the query's matches in the name earn.
pub open spec fn earned(query: Seq<char>, name: Seq<char>) -> int {
    earned_from(lowered(query), lowered(name), 0, 0, 0)
}

/// The score of a query against a name.
pub open spec fn score(query: Seq<char>, name: Seq<char>) -> Option<int> {
    if occurs_in(query, name) {
        Some(earned(query, name))
    } else {
        None
    }
}

/// The score can be counted in 32 bits.
pub open spec fn scorable(query: Seq<char>, name: Seq<char>) -> bool {
    earned(query, name) <= i32::MAX
}

proof fn lemma_earned_bounds(q: Seq<char>, n: Seq<char>, j: int, i: int, run: int)
    requires
        0 <= run <= i <= n.len(),
        0 <= j,
    ensures
        0 <= earned_from(q, n, j, i, run) <= (n.len() - i) * (10 + 2 * n.len()),
    decreases n.len() - i,
{
    if j < q.len() && i < n.len() {
        let room = 10 + 2 * n.len();
        let left = n.len() - i;
        if n[i] == q[j] {
            lemma_earned_bounds(q, n, j + 1, i + 1, run + 1);
        } else {
            lemma_earned_bounds(q, n, j, i + 1, 0);
        }
        assert(left * room == (left - 1) * room + room) by (nonlinear_arith);
    } else {
        assert(0 <= (n.len() - i) * (10 + 2 * n.len())) by (nonlinear_arith)
            requires
                i <= n.len(),
        ;
    }
}

/// Names of up to 30000 characters can be scored against any query.
pub proof fn law_short_names_are_scorable(query: Seq<char>, name: Seq<char>)
    requires
        name.len() <= 30_000,
    ensures
        scorable(query, name),
{
    let n = lowered(name);
    lemma_earned_bounds(lowered(query), n, 0, 0, 0);
    assert(n.len() * (10 + 2 * n.len()) <= 30_000 * 60_010) by (nonlinear_arith)
        requires
            n.len() <= 30_000,
    ;
}

fn lowered_chars(s: &str) -> (r: Vec<char>)
    ensures
        r@ == lowered(s@),
{
    let chars = chars_of(s);
    let mut r: Vec<char> = Vec::new();
    let mut i: usize = 0;
    while i < chars.len()
        invariant
            chars@ == s@,
            i <= chars@.len(),
            r@.len() == i,
            forall|k: int| 0 <= k < i ==> r@[k] == lowered(s@)[k],
        decreases chars@.len() - i,
    {
        r.push(to_lower(chars[i]));
        i = i + 1;
    }
    assert(r@ =~= lowered(s@));
    r
}

/// Match a query as a subsequence of a name, ignoring ASCII case. `None` when
/// the name does not hold every character in order. Runs and early matches
/// score higher; an empty query scores zero.
pub fn fuzzy_score(query: &str, name: &str) -> (r: Option<i32>)
    requires
        scorable(query@, name@),
    ensures
        match r {
            Some(n) => score(query@, name@) == Some(n as int),
            None => score(query@, name@) is None,
        },
{
    let q = lowered_chars(query);
    let n = lowered_chars(name);
    let total: usize = n.len();
    let mut points: i32 = 0;
    let mut run: usize = 0;
    let mut j: usize = 0;
    let mut i: usize = 0;
    while j < q.len() && i < total
        invariant
            q@ == lowered(query@),
            n@ == lowered(name@),
            total == n@.len(),
            scorable(query@, name@),
            j <= q@.len(),
            i <= total,
            run <= i,
            0 <= points,
            points + earned_from(q@, n@, j as int, i as int, run as int) == earned(query@, name@),
            occurs_in(query@, name@) == occurs_from(q@, n@, j as int, i as int),
        decreases total - i,
    {
        if n[i] == q[j] {
            proof {
                lemma_earned_bounds(q@, n@, j + 1, i + 1, run + 1);
            }
            run = run + 1;
            let early: i32 = if i < 9 {
                10 - i as i32
            } else {
                1
            };
            points = points + early + (run as i32) * 2;
            j = j + 1;
        } else {
            run = 0;
        }
        i = i + 1;
    }
    if j < q.len() {
        None
    } else {
        Some(points)
    }
}

/// Whether the score of a query against a name can be counted in 32 bits.
pub fn is_scorable(query: &str, name: &str) -> (r: bool)
    ensures
        r == scorable(query@, name@),
{
    let q = lowered_chars(query);
    let n = lowered_chars(name);
    let total: usize = n.len();
    let most: i64 = i32::MAX as i64;
    let mut points: i64 = 0;
    let mut run: usize = 0;
    let mut j: usize = 0;
    let mut i: usize = 0;
    while j < q.len() && i < total
        invariant
            q@ == lowered(query@),
            n@ == lowered(name@),
            total == n@.len(),
            most == i32::MAX,
            j <= q@.len(),
            i <= total,
            run <= i,
            0 <= points <= most,
            points + earned_from(q@, n@, j as int, i as int, run as int) == earned(query@, name@),
        decreases total - i,
    {
        if n[i] == q[j] {
            proof {
                lemma_earned_bounds(q@, n@, j + 1, i + 1, run + 1);
            }
            run = run + 1;
            if run as u64 > most as u64 {
                return false;
            }
            let early: i64 = if i < 9 {
                10 - i as i64
            } else {
                1
            };
            points = points + early + (run as i64) * 2;
            if points > most {
                return false;
            }
            j = j + 1;
        } else {
            run = 0;
        }
        i = i + 1;
    }
    true
}

// --- laws ---------------------------------------------------------------------

/// An empty query matches every name and scores zero.
pub proof fn law_empty_query_matches_all(name: Seq<char>)
    ensures
        score(Seq::<char>::empty(), name) == Some(0int),
        scorable(Seq::<char>::empty(), name),
{
    assert(lowered(Seq::<char>::empty()) =~= Seq::<char>::empty());
}

/// ASCII case makes no difference.
pub proof fn law_case_is_ignored(query: Seq<char>, name: Seq<char>)
    ensures
        score(lowered(query), lowered(name)) == score(query, name),
{
    assert(lowered(lowered(query)) =~= lowered(query));
    assert(lowered(lowered(name)) =~= lowered(name));
}

/// Increasing places of `n`, from `i` on, that hold the characters of `q` from
/// `j` on.
pub open spec fn places_match(q: Seq<char>, n: Seq<char>, j: int, i: int, at: Seq<int>) -> bool {
    &&& at.len() == q.len() - j
    &&& forall|k: int|
        0 <= k < at.len() ==> i <= #[trigger] at[k] < n.len() && n[at[k]] == q[j + k]
    &&& forall|k: int, l: int| 0 <= k < l < at.len() ==> #[trigger] at[k] < #[trigger] at[l]
}

/// A query matches exactly the names in which its characters stand at
/// increasing places, ignoring case.
pub proof fn law_match_is_a_subsequence(query: Seq<char>, name: Seq<char>)
    ensures
        occurs_in(query, name) <==> exists|at: Seq<int>|
            places_match(lowered(query), lowered(name), 0, 0, at),
{
    let q = lowered(query);
    let n = lowered(name);
    if occurs_in(query, name) {
        let at = lemma_find_places(q, n, 0, 0);
    }
    if exists|at: Seq<int>| places_match(q, n, 0, 0, at) {
        let at = choose|at: Seq<int>| places_match(q, n, 0, 0, at);
        lemma_places_occur(q, n, 0, 0, at);
    }
}

proof fn lemma_find_places(q: Seq<char>, n: Seq<char>, j: int, i: int) -> (at: Seq<int>)
    requires
        0 <= j <= q.len(),
        0 <= i <= n.len(),
        occurs_from(q, n, j, i),
    ensures
        places_match(q, n, j, i, at),
    decreases n.len() - i,
{
    if j >= q.len() {
        Seq::empty()
    } else if n[i] == q[j] {
        let rest = lemma_find_places(q, n, j + 1, i + 1);
        let at = seq![i] + rest;
        assert forall|k: int| 0 <= k < at.len() implies i <= #[trigger] at[k] < n.len()
            && n[at[k]] == q[j + k] by {
            if k > 0 {
                assert(at[k] == rest[k - 1]);
                assert(q[j + 1 + (k - 1)] == q[j + k]);
            }
        }
        assert forall|k: int, l: int| 0 <= k < l < at.len() implies #[trigger] at[k]
            < #[trigger] at[l] by {
            assert(at[l] == rest[l - 1]);
            if k > 0 {
                assert(at[k] == rest[k - 1]);
            }
        }
        at
    } else {
        lemma_find_places(q, n, j, i + 1)
    }
}

proof fn lemma_places_occur(q: Seq<char>, n: Seq<char>, j: int, i: int, at: Seq<int>)
    requires
        0 <= j <= q.len(),
        0 <= i <= n.len(),
        places_match(q, n, j, i, at),
    ensures
        occurs_from(q, n, j, i),
    decreases n.len() - i,
{
    if j < q.len() {
        assert(i <= at[0] < n.len() && n[at[0]] == q[j + 0]);
        if n[i] == q[j] {
            let rest = at.skip(1);
            assert forall|k: int| 0 <= k < rest.len() implies i + 1 <= #[trigger] rest[k] < n.len()
                && n[rest[k]] == q[j + 1 + k] by {
                assert(rest[k] == at[k + 1]);
                assert(at[0] < at[k + 1]);
                assert(q[j + (k + 1)] == q[j + 1 + k]);
            }
            assert forall|k: int, l: int| 0 <= k < l < rest.len() implies #[trigger] rest[k]
                < #[trigger] rest[l] by {
                assert(at[k + 1] < at[l + 1]);
            }
            lemma_places_occur(q, n, j + 1, i + 1, rest);
        } else {
            assert forall|k: int| 0 <= k < at.len() implies i + 1 <= #[trigger] at[k] by {
                if k > 0 {
                    assert(at[0] < at[k]);
                }
            }
            lemma_places_occur(q, n, j, i + 1, at);
        }
    }
}

/// Typing more only narrows: a name that matches a longer query matches what
/// was typed before.
pub proof fn law_typing_narrows(query: Seq<char>, more: Seq<char>, name: Seq<char>)
    requires
        occurs_in(query + more, name),
    ensures
        occurs_in(query, name),
{
    law_match_is_a_subsequence(query + more, name);
    law_match_is_a_subsequence(query, name);
    let long = lowered(query + more);
    let q = lowered(query);
    let n = lowered(name);
    let at = choose|at: Seq<int>| places_match(long, n, 0, 0, at);
    let front = at.take(q.len() as int);
    assert forall|k: int| 0 <= k < front.len() implies 0 <= #[trigger] front[k] < n.len()
        && n[front[k]] == q[0 + k] by {
        assert(front[k] == at[k]);
        assert(long[0 + k] == q[k]);
    }
    assert(places_match(q, n, 0, 0, front));
}

/// The name starts with the query, ignoring ASCII case.
pub open spec fn starts_with(query: Seq<char>, name: Seq<char>) -> bool {
    lowered(query).is_prefix_of(lowered(name))
}

/// What a match from the start of a name earns for the characters from `j` on.
spec fn prefix_earns(len: int, j: int) -> int
    decreases len - j,
{
    if j >= len {
        0
    } else {
        reward(j, j + 1) + prefix_earns(len, j + 1)
    }
}

/// Names that start with the query score highest: each of them scores the same,
/// and every other name that matches scores less.
pub proof fn law_prefixes_score_highest(query: Seq<char>, name: Seq<char>, other: Seq<char>)
    requires
        starts_with(query, name),
        occurs_in(query, other),
    ensures
        occurs_in(query, name),
        starts_with(query, other) ==> earned(query, other) == earned(query, name),
        !starts_with(query, other) ==> earned(query, other) < earned(query, name),
{
    let q = lowered(query);
    lemma_prefix_earns(q, lowered(name), 0);
    if starts_with(query, other) {
        lemma_prefix_earns(q, lowered(other), 0);
    } else {
        lemma_others_earn_less(q, lowered(other), 0);
    }
}

proof fn lemma_prefix_earns(q: Seq<char>, n: Seq<char>, j: int)
    requires
        0 <= j <= q.len(),
        q.is_prefix_of(n),
    ensures
        occurs_from(q, n, j, j),
        earned_from(q, n, j, j, j) == prefix_earns(q.len() as int, j),
    decreases q.len() - j,
{
    if j < q.len() {
        assert(n[j] == q[j]);
        lemma_prefix_earns(q, n, j + 1);
    }
}

/// A later place and a shorter run earn no more than the start of a name would.
proof fn lemma_earns_at_most(q: Seq<char>, n: Seq<char>, j: int, i: int, run: int)
    requires
        0 <= run <= j <= i,
    ensures
        earned_from(q, n, j, i, run) <= prefix_earns(q.len() as int, j),
    decreases n.len() - i,
{
    if j < q.len() && i < n.len() {
        if n[i] == q[j] {
            lemma_earns_at_most(q, n, j + 1, i + 1, run + 1);
        } else {
            lemma_earns_at_most(q, n, j, i + 1, 0);
        }
    } else if i >= n.len() && j < q.len() {
        lemma_prefix_earns_something(q.len() as int, j);
    }
}

proof fn lemma_prefix_earns_something(len: int, j: int)
    requires
        0 <= j,
    ensures
        prefix_earns(len, j) >= 0,
    decreases len - j,
{
    if j < len {
        lemma_prefix_earns_something(len, j + 1);
    }
}

/// Once a character is skipped, less is earned: the run is broken.
proof fn lemma_broken_runs_earn_less(q: Seq<char>, n: Seq<char>, j: int, i: int)
    requires
        0 <= j < i,
        j < q.len(),
        occurs_from(q, n, j, i),
    ensures
        earned_from(q, n, j, i, 0) < prefix_earns(q.len() as int, j),
    decreases n.len() - i,
{
    if n[i] == q[j] {
        lemma_earns_at_most(q, n, j + 1, i + 1, 1);
    } else {
        lemma_broken_runs_earn_less(q, n, j, i + 1);
    }
}

proof fn lemma_others_earn_less(q: Seq<char>, n: Seq<char>, j: int)
    requires
        0 <= j <= q.len(),
        j <= n.len(),
        q.take(j).is_prefix_of(n),
        !q.is_prefix_of(n),
        occurs_from(q, n, j, j),
    ensures
        earned_from(q, n, j, j, j) < prefix_earns(q.len() as int, j),
    decreases q.len() - j,
{
    if j == q.len() {
        assert(q.take(j) =~= q);
    } else if n[j] == q[j] {
        assert(q.take(j) =~= n.subrange(0, j));
        assert(q.take(j + 1) =~= q.take(j).push(q[j]));
        assert(n.subrange(0, j + 1) =~= n.subrange(0, j).push(n[j]));
        lemma_others_earn_less(q, n, j + 1);
    } else {
        lemma_broken_runs_earn_less(q, n, j, j + 1);
    }
}

/// How many places up to the `k`th stand side by side.
pub open spec fn run_at(at: Seq<int>, k: int) -> int
    decreases k,
{
    if k > 0 && at[k] == at[k - 1] + 1 {
        run_at(at, k - 1) + 1
    } else {
        1
    }
}

/// The points of the first `n` places: ten for a match, less its distance from the
/// start of the name up to nine, and two for each match that it runs on from,
/// itself counted.
pub open spec fn points(at: Seq<int>, n: int) -> int
    decreases n,
{
    if n <= 0 {
        0
    } else {
        points(at, n - 1) + 10 - (if at[n - 1] > 9 {
            9
        } else {
            at[n - 1]
        }) + 2 * run_at(at, n - 1)
    }
}

/// Each character of the query stands at the earliest place that the one before it
/// leaves.
pub open spec fn earliest_places(q: Seq<char>, n: Seq<char>, at: Seq<int>) -> bool {
    &&& places_match(q, n, 0, 0, at)
    &&& forall|k: int, i: int|
        0 <= k < q.len() && (if k == 0 {
            0
        } else {
            at[k - 1] + 1
        }) <= i < at[k] ==> #[trigger] n[i] != #[trigger] q[k]
}

/// The score is the points of the earliest places at which the query's characters
/// stand in the name, ignoring ASCII case.
pub proof fn law_score_counts_the_places(query: Seq<char>, name: Seq<char>, at: Seq<int>)
    requires
        earliest_places(lowered(query), lowered(name), at),
    ensures
        score(query, name) == Some(points(at, query.len() as int)),
{
    let q = lowered(query);
    let n = lowered(name);
    lemma_places_occur(q, n, 0, 0, at);
    lemma_earned_points(q, n, at, 0, 0, 0);
}

proof fn lemma_earned_points(
    q: Seq<char>,
    n: Seq<char>,
    at: Seq<int>,
    j: int,
    i: int,
    run: int,
)
    requires
        earliest_places(q, n, at),
        0 <= j <= q.len(),
        ({
            let free = if j == 0 {
                0
            } else {
                at[j - 1] + 1
            };
            &&& free <= i <= n.len()
            &&& j < q.len() ==> i <= at[j]
            &&& i == free && j > 0 ==> run == run_at(at, j - 1)
            &&& i > free || j == 0 ==> run == 0
        }),
    ensures
        earned_from(q, n, j, i, run) == points(at, q.len() as int) - points(at, j),
    decreases n.len() - i,
{
    if j < q.len() {
        assert(at[j] < n.len() && n[at[j]] == q[0 + j]);
        if i == at[j] {
            assert(run + 1 == run_at(at, j));
            if j + 1 < q.len() {
                assert(at[j] < at[j + 1]);
            }
            lemma_earned_points(q, n, at, j + 1, i + 1, run + 1);
        } else {
            assert(n[i] != q[j]);
            lemma_earned_points(q, n, at, j, i + 1, 0);
        }
    }
}

} // verus!
