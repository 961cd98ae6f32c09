//! Ranking of hits: the highest score first, and of two hits with the same
//! score the later one first.

use vstd::prelude::*;
use vstd::string::*;

verus! {

/// The scores of hits, in their order.
pub open spec fn scores_of(hits: Seq<(String, u64)>) -> Seq<u64> {
    hits.map_values(|h: (String, u64)| h.1)
}

/// The hit at position `i` comes before the hit at position `j` in the
/// answer: it has the higher score, or the same score and the later place
/// among the hits.
pub open spec fn ranks_before(scores: Seq<u64>, i: int, j: int) -> bool {
    scores[i] > scores[j] || (scores[i] == scores[j] && i > j)
}

/// `top` lists the positions of the best hits among the first `n`, at most
/// `limit` of them, best first: it is ordered by rank, and whatever it
/// leaves out ranks after everything it holds.
pub open spec fn is_top_of(scores: Seq<u64>, n: int, limit: int, top: Seq<usize>) -> bool {
    &&& top.len() == if limit <= n {
        limit
    } else {
        n
    }
    &&& forall|t: int| 0 <= t < top.len() ==> 0 <= #[trigger] top[t] < n
    &&& forall|s: int, t: int|
        0 <= s < t < top.len() ==> #[trigger] ranks_before(scores, top[s] as int, top[t] as int)
    &&& forall|j: int, t: int|
        0 <= j < n && 0 <= t < top.len() && !top.contains(j as usize) ==> #[trigger] ranks_before(
            scores,
            top[t] as int,
            j,
        )
}

/// `top` is the ranking of the hits with these scores, cut off after
/// `limit` places.
pub open spec fn is_top_ranking(scores: Seq<u64>, limit: nat, top: Seq<usize>) -> bool {
    is_top_of(scores, scores.len() as int, limit as int, top)
}

/// Two rankings of the same hits agree up to any place.
proof fn lemma_rankings_agree(
    scores: Seq<u64>,
    n: int,
    limit: int,
    p: Seq<usize>,
    q: Seq<usize>,
    t: int,
)
    requires
        is_top_of(scores, n, limit, p),
        is_top_of(scores, n, limit, q),
        0 <= t < p.len(),
    ensures
        forall|s: int| 0 <= s <= t ==> p[s] == q[s],
    decreases t,
{
    if t > 0 {
        lemma_rankings_agree(scores, n, limit, p, q, t - 1);
    }
    if p[t] != q[t] {
        if q.contains(p[t]) {
            let u = choose|u: int| 0 <= u < q.len() && q[u] == p[t];
            if u < t {
                assert(ranks_before(scores, p[u] as int, p[t] as int));
            }
            assert(ranks_before(scores, q[t] as int, q[u] as int));
        } else {
            assert(ranks_before(scores, q[t] as int, p[t] as int));
        }
        if p.contains(q[t]) {
            let u = choose|u: int| 0 <= u < p.len() && p[u] == q[t];
            if u < t {
                assert(ranks_before(scores, q[u] as int, q[t] as int));
            }
            assert(ranks_before(scores, p[t] as int, p[u] as int));
        } else {
            assert(ranks_before(scores, p[t] as int, q[t] as int));
        }
    }
}

/// The ranking is determined by the scores: there is at most one.
pub proof fn lemma_top_ranking_unique(scores: Seq<u64>, limit: nat, p: Seq<usize>, q: Seq<usize>)
    requires
        is_top_ranking(scores, limit, p),
        is_top_ranking(scores, limit, q),
    ensures
        p == q,
{
    if p.len() > 0 {
        lemma_rankings_agree(scores, scores.len() as int, limit as int, p, q, p.len() - 1);
    }
}

/// The ranking of the hits with these scores, cut off after `limit`
/// places.
pub open spec fn top_ranking(scores: Seq<u64>, limit: nat) -> Seq<usize> {
    choose|top: Seq<usize>| is_top_ranking(scores, limit, top)
}

/// While the ranking is shorter than `limit`, it holds every position.
pub open spec fn holds_all(n: int, limit: int, top: Seq<usize>) -> bool {
    top.len() < limit ==> forall|j: usize| j < n ==> top.contains(j)
}

/// `pos` is where the hit with `score` goes into `top` when it comes
/// after all hits of `top`: behind those with a higher score, before the
/// others.
pub open spec fn is_place_of(scores: Seq<u64>, top: Seq<usize>, score: u64, pos: int) -> bool {
    &&& 0 <= pos <= top.len()
    &&& forall|t: int| 0 <= t < pos ==> scores[#[trigger] top[t] as int] > score
    &&& pos < top.len() ==> scores[top[pos] as int] <= score
}

/// The ranking of the first `n + 1` hits, made from that of the first `n`
/// by putting hit `n` in its place `pos` and dropping what falls behind the
/// limit.
pub open spec fn extended(top: Seq<usize>, n: usize, limit: int, pos: int) -> Seq<usize> {
    if pos < limit {
        let grown = top.insert(pos, n);
        if grown.len() > limit {
            grown.drop_last()
        } else {
            grown
        }
    } else {
        top
    }
}

/// Putting the next hit in its place gives the ranking of one more hit.
proof fn lemma_extended(scores: Seq<u64>, n: usize, limit: int, top: Seq<usize>, pos: int)
    requires
        n < scores.len(),
        is_top_of(scores, n as int, limit, top),
        holds_all(n as int, limit, top),
        is_place_of(scores, top, scores[n as int], pos),
    ensures
        is_top_of(scores, n + 1, limit, extended(top, n, limit, pos)),
        holds_all(n + 1, limit, extended(top, n, limit, pos)),
{
    assert forall|t: int| pos <= t < top.len() implies ranks_before(
        scores,
        n as int,
        top[t] as int,
    ) by {
        if t > pos {
            assert(ranks_before(scores, top[pos] as int, top[t] as int));
        }
    }
    if pos < limit {
        let grown = top.insert(pos, n);
        assert forall|x: usize| top.contains(x) implies grown.contains(x) by {
            let u = choose|u: int| 0 <= u < top.len() && top[u] == x;
            if u < pos {
                assert(grown[u] == x);
            } else {
                assert(grown[u + 1] == x);
            }
        }
        assert(grown[pos] == n);
        if grown.len() > limit {
            let kept = grown.drop_last();
            assert forall|j: int, t: int|
                0 <= j < n + 1 && 0 <= t < kept.len() && !kept.contains(
                    j as usize,
                ) implies #[trigger] ranks_before(scores, kept[t] as int, j) by {
                if j == n {
                    assert(kept[pos] == n);
                } else if top.contains(j as usize) {
                    let u = choose|u: int| 0 <= u < grown.len() && grown[u] == j as usize;
                    if u < kept.len() {
                        assert(kept[u] == j as usize);
                    }
                } else {
                    assert(ranks_before(scores, top[pos] as int, j));
                }
            }
        }
    }
}

/// Among the first `upto` places of `top` there is the place of `score`,
/// or they all hold hits with a higher score.
proof fn lemma_place_exists(scores: Seq<u64>, top: Seq<usize>, score: u64, upto: int) -> (pos: int)
    requires
        0 <= upto <= top.len(),
    ensures
        0 <= pos <= upto,
        forall|t: int| 0 <= t < pos ==> scores[#[trigger] top[t] as int] > score,
        pos < upto ==> scores[top[pos] as int] <= score,
    decreases upto,
{
    if upto == 0 {
        0
    } else {
        let pos = lemma_place_exists(scores, top, score, upto - 1);
        if pos < upto - 1 {
            pos
        } else if scores[top[upto - 1] as int] <= score {
            upto - 1
        } else {
            upto
        }
    }
}

/// The first `n` hits have a ranking.
proof fn lemma_ranking_of_first(scores: Seq<u64>, n: int, limit: int) -> (top: Seq<usize>)
    requires
        0 <= n <= scores.len(),
        scores.len() <= usize::MAX,
        0 <= limit,
    ensures
        is_top_of(scores, n, limit, top),
        holds_all(n, limit, top),
    decreases n,
{
    if n == 0 {
        Seq::empty()
    } else {
        let before = lemma_ranking_of_first(scores, n - 1, limit);
        let pos = lemma_place_exists(scores, before, scores[n - 1], before.len() as int);
        lemma_extended(scores, (n - 1) as usize, limit, before, pos);
        extended(before, (n - 1) as usize, limit, pos)
    }
}

/// Every list of hits has its ranking: what `top_ranking` names is the
/// ranking indeed. It holds at most `limit` positions and no position twice,
/// the scores along it never rise, and of two hits with the same score the
/// later comes first.
pub proof fn lemma_top_ranking(scores: Seq<u64>, limit: nat)
    requires
        scores.len() <= usize::MAX,
    ensures
        is_top_ranking(scores, limit, top_ranking(scores, limit)),
        top_ranking(scores, limit).len() <= limit,
        top_ranking(scores, limit).len() <= scores.len(),
        forall|s: int, t: int|
            #![trigger top_ranking(scores, limit)[s], top_ranking(scores, limit)[t]]
            0 <= s < t < top_ranking(scores, limit).len() ==> {
                let first = top_ranking(scores, limit)[s] as int;
                let second = top_ranking(scores, limit)[t] as int;
                &&& scores[first] >= scores[second]
                &&& scores[first] == scores[second] ==> first > second
            },
{
    let top = lemma_ranking_of_first(scores, scores.len() as int, limit as int);
    assert(is_top_ranking(scores, limit, top));
    let chosen = top_ranking(scores, limit);
    assert forall|s: int, t: int|
        #![trigger chosen[s], chosen[t]]
        0 <= s < t < chosen.len() implies {
        let first = chosen[s] as int;
        let second = chosen[t] as int;
        &&& scores[first] >= scores[second]
        &&& scores[first] == scores[second] ==> first > second
    } by {
        assert(ranks_before(scores, chosen[s] as int, chosen[t] as int));
    }
}

/// Ranks the hits and gives the positions of the best, at most `limit` of
/// them, best first.
pub fn rank_top(hits: &Vec<(String, u64)>, limit: usize) -> (top: Vec<usize>)
    ensures
        is_top_ranking(scores_of(hits@), limit as nat, top@),
        top@ == top_ranking(scores_of(hits@), limit as nat),
{
    let mut top: Vec<usize> = Vec::new();
    let ghost scores = scores_of(hits@);
    let mut n: usize = 0;
    while n < hits.len()
        invariant
            scores == scores_of(hits@),
            n <= hits@.len(),
            is_top_of(scores, n as int, limit as int, top@),
            holds_all(n as int, limit as int, top@),
        decreases hits.len() - n,
    {
        let score = hits[n].1;
        let mut pos: usize = 0;
        while pos < top.len() && hits[top[pos]].1 > score
            invariant
                scores == scores_of(hits@),
                n < hits@.len(),
                score == scores[n as int],
                pos <= top@.len(),
                forall|t: int| 0 <= t < top@.len() ==> 0 <= #[trigger] top@[t] < n,
                forall|t: int| 0 <= t < pos ==> scores[#[trigger] top@[t] as int] > score,
            decreases top.len() - pos,
        {
            pos = pos + 1;
        }
        proof {
            lemma_extended(scores, n, limit as int, top@, pos as int);
        }
        if pos < limit {
            top.insert(pos, n);
            if top.len() > limit {
                top.pop();
            }
        }
        n = n + 1;
    }
    proof {
        lemma_top_ranking_unique(scores, limit as nat, top@, top_ranking(scores, limit as nat));
    }
    top
}

} // verus!
