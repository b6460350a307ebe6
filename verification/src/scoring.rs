//! Cross-source scoring: turns a merged game's per-source rankings into one
//! comparable "harmony" score rewarding both high positions and consensus
//! across sources.

use vstd::prelude::*;

verus! {

/// Positional credit for one rank: 100 points for rank 1 down to 1 point for
/// rank 100; ranks beyond 100 earn nothing.
pub open spec fn position_score(rank: u64) -> int {
    if rank <= 100 {
        101 - rank
    } else {
        0
    }
}

/// Sum of the positional credit over a sequence of ranks.
pub open spec fn total_position_score(ranks: Seq<u64>) -> int
    decreases ranks.len(),
{
    if ranks.len() == 0 {
        0
    } else {
        total_position_score(ranks.drop_last()) + position_score(ranks.last())
    }
}

/// The appearance multiplier, in percent: 100 for one source, plus 25 for
/// each further source.
pub open spec fn appearance_multiplier(n: nat) -> int {
    100 + 25 * (n - 1)
}

/// The harmony score of a sequence of ranks: the summed positional credit
/// times the appearance multiplier, in integer percent arithmetic.  Empty
/// rankings score zero.
pub open spec fn harmony_spec(ranks: Seq<u64>) -> int {
    if ranks.len() == 0 {
        0
    } else {
        total_position_score(ranks) * appearance_multiplier(ranks.len()) / 100
    }
}

pub proof fn lemma_position_score_bounds(rank: u64)
    ensures
        0 <= position_score(rank) <= 101,
{
}

pub proof fn lemma_total_bounds(ranks: Seq<u64>)
    ensures
        0 <= total_position_score(ranks) <= 101 * ranks.len(),
    decreases ranks.len(),
{
    if ranks.len() > 0 {
        lemma_total_bounds(ranks.drop_last());
    }
}

/// Sums the positional credit of every ranking.
fn sum_position_scores(rankings: &Vec<(String, u64)>) -> (total: u64)
    requires
        rankings@.len() <= 10_000_000,
    ensures
        total == total_position_score(rankings@.map_values(|p: (String, u64)| p.1)),
        total <= 101 * rankings@.len(),
{
    let ghost ranks = rankings@.map_values(|p: (String, u64)| p.1);
    let mut total: u64 = 0;
    let mut i: usize = 0;
    proof {
        assert(ranks.take(0) =~= Seq::<u64>::empty());
    }
    while i < rankings.len()
        invariant
            0 <= i <= rankings.len(),
            rankings@.len() <= 10_000_000,
            ranks == rankings@.map_values(|p: (String, u64)| p.1),
            total == total_position_score(ranks.take(i as int)),
            total <= 101 * i,
        decreases rankings.len() - i,
    {
        let rank = rankings[i].1;
        let p: u64 = if rank <= 100 {
            101 - rank
        } else {
            0
        };
        proof {
            assert(ranks.take(i + 1).drop_last() =~= ranks.take(i as int));
            assert(ranks.take(i + 1).last() == ranks[i as int]);
        }
        total = total + p;
        i = i + 1;
    }
    proof {
        assert(ranks.take(rankings@.len() as int) =~= ranks);
    }
    total
}

/// Computes the harmony score of the ranks in `rankings` (one entry per
/// source; sources are distinct by the caller's invariant, so the sequence
/// is exactly the ranking map).
pub fn calculate_harmony_score(rankings: &Vec<(String, u64)>) -> (score: u64)
    requires
        rankings@.len() <= 10_000_000,
    ensures
        score == harmony_spec(rankings@.map_values(|p: (String, u64)| p.1)),
{
    if rankings.len() == 0 {
        return 0;
    }
    let total = sum_position_scores(rankings);
    let n: u64 = rankings.len() as u64;
    let multiplier: u64 = 100 + 25 * (n - 1);
    proof {
        assert((total as int) * (multiplier as int) <= 1_010_000_000 * 250_000_075) by (
        nonlinear_arith)
            requires
                0 <= total as int <= 1_010_000_000,
                0 <= multiplier as int <= 250_000_075,
        ;
    }
    (total * multiplier) / 100
}

/// Computes the score of the ranks in `rankings`.  Two scoring formulas
/// circulated historically — one averaged the positional credit over the
/// source count before applying the multiplier — and the summed formula is
/// the canonical one; this entry point computes it as well.
pub fn calculate_score(rankings: &Vec<(String, u64)>) -> (score: u64)
    requires
        rankings@.len() <= 10_000_000,
    ensures
        score == harmony_spec(rankings@.map_values(|p: (String, u64)| p.1)),
{
    calculate_harmony_score(rankings)
}

/// Appending one more source's rank never lowers the harmony score.
///
/// In particular, for a fixed rank reported by every source, the score is
/// non-decreasing in the number of sources.
pub proof fn lemma_harmony_nondecreasing_in_sources(ranks: Seq<u64>, rank: u64)
    ensures
        harmony_spec(ranks.push(rank)) >= harmony_spec(ranks),
{
    let ranks2 = ranks.push(rank);
    assert(ranks2.drop_last() =~= ranks);
    assert(ranks2.last() == rank);
    lemma_total_bounds(ranks);
    lemma_position_score_bounds(rank);
    if ranks.len() == 0 {
    } else {
        let t = total_position_score(ranks);
        let t2 = total_position_score(ranks2);
        let m = appearance_multiplier(ranks.len());
        let m2 = appearance_multiplier(ranks2.len());
        assert(t2 >= t);
        assert(m2 == m + 25);
        assert(t2 * m2 >= t * m) by (nonlinear_arith)
            requires
                t2 >= t >= 0,
                m2 >= m >= 100,
        ;
        vstd::arithmetic::div_mod::lemma_div_is_ordered(t * m, t2 * m2, 100);
    }
}

/// Worsening one source's rank (within 1 to 100) strictly lowers the
/// harmony score, for a fixed set of sources.
pub proof fn lemma_harmony_strictly_decreasing_in_rank(ranks: Seq<u64>, i: int, worse: u64)
    requires
        0 <= i < ranks.len(),
        1 <= ranks[i] < worse <= 100,
    ensures
        harmony_spec(ranks.update(i, worse)) < harmony_spec(ranks),
    decreases ranks.len(),
{
    let ranks2 = ranks.update(i, worse);
    let m = appearance_multiplier(ranks.len());
    let t = total_position_score(ranks);
    let t2 = total_position_score(ranks2);
    if i == ranks.len() - 1 {
        assert(ranks2.drop_last() =~= ranks.drop_last());
        assert(ranks2.last() == worse);
        assert(position_score(worse) < position_score(ranks[i]));
        assert(t2 < t);
    } else {
        assert(ranks2.drop_last() =~= ranks.drop_last().update(i, worse));
        assert(ranks2.last() == ranks.last());
        lemma_total_strictly_decreasing(ranks.drop_last(), i, worse);
        assert(t2 < t);
    }
    assert(m >= 100);
    lemma_total_bounds(ranks2);
    assert(t2 * m + 100 <= t * m && t2 * m >= 0) by (nonlinear_arith)
        requires
            t2 < t,
            t2 >= 0,
            m >= 100,
    ;
    lemma_div_strict(t2 * m, t * m, 100);
}

/// A rank beyond 100 earns no positional credit: the term is zero, and
/// swapping it for any other beyond-100 rank leaves the score unchanged —
/// while the source still counts toward the appearance multiplier.
pub proof fn lemma_rank_beyond_hundred_zero_credit(ranks: Seq<u64>, i: int, other: u64)
    requires
        0 <= i < ranks.len(),
        ranks[i] > 100,
        other > 100,
    ensures
        position_score(ranks[i]) == 0,
        harmony_spec(ranks.update(i, other)) == harmony_spec(ranks),
{
    lemma_total_update_equal_credit(ranks, i, other);
    assert(ranks.update(i, other).len() == ranks.len());
}

proof fn lemma_total_update_equal_credit(ranks: Seq<u64>, i: int, other: u64)
    requires
        0 <= i < ranks.len(),
        position_score(ranks[i]) == position_score(other),
    ensures
        total_position_score(ranks.update(i, other)) == total_position_score(ranks),
    decreases ranks.len(),
{
    let ranks2 = ranks.update(i, other);
    if i == ranks.len() - 1 {
        assert(ranks2.drop_last() =~= ranks.drop_last());
        assert(ranks2.last() == other);
    } else {
        assert(ranks2.drop_last() =~= ranks.drop_last().update(i, other));
        assert(ranks2.last() == ranks.last());
        lemma_total_update_equal_credit(ranks.drop_last(), i, other);
    }
}

proof fn lemma_total_strictly_decreasing(ranks: Seq<u64>, i: int, worse: u64)
    requires
        0 <= i < ranks.len(),
        1 <= ranks[i] < worse <= 100,
    ensures
        total_position_score(ranks.update(i, worse)) < total_position_score(ranks),
    decreases ranks.len(),
{
    let ranks2 = ranks.update(i, worse);
    if i == ranks.len() - 1 {
        assert(ranks2.drop_last() =~= ranks.drop_last());
        assert(ranks2.last() == worse);
    } else {
        assert(ranks2.drop_last() =~= ranks.drop_last().update(i, worse));
        assert(ranks2.last() == ranks.last());
        lemma_total_strictly_decreasing(ranks.drop_last(), i, worse);
    }
}

proof fn lemma_div_strict(a: int, b: int, d: int)
    requires
        a + d <= b,
        d > 0,
        a >= 0,
    ensures
        a / d < b / d,
{
    vstd::arithmetic::div_mod::lemma_div_is_ordered(a + d, b, d);
    vstd::arithmetic::div_mod::lemma_div_plus_one(a, d);
    assert(a / d + 1 == (a + d) / d);
}

} // verus!
