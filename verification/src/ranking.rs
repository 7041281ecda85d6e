//! Ranking by size: the largest first, and what came first before what
//! came later among equals.

use vstd::prelude::*;

verus! {

/// `ranked`, a ranking of indexes into `sizes`, with the index `i` put in:
/// behind every index whose size is at least that of `i`.
pub open spec fn rank_insert(ranked: Seq<int>, sizes: Seq<u64>, i: int) -> Seq<int>
    decreases ranked.len(),
{
    if ranked.len() == 0 {
        seq![i]
    } else if sizes[ranked.last()] >= sizes[i] {
        ranked.push(i)
    } else {
        rank_insert(ranked.drop_last(), sizes, i).push(ranked.last())
    }
}

/// The first `n` indexes into `sizes`, ordered by size, largest first;
/// indexes of one size stay in ascending order.
pub open spec fn ranking(sizes: Seq<u64>, n: nat) -> Seq<int>
    decreases n,
{
    if n == 0 {
        Seq::empty()
    } else {
        rank_insert(ranking(sizes, (n - 1) as nat), sizes, n - 1)
    }
}

/// The `keep` largest of `sizes`, as indexes, largest first.
pub open spec fn top_ranked(sizes: Seq<u64>, keep: nat) -> Seq<int> {
    let all = ranking(sizes, sizes.len());
    if all.len() > keep {
        all.take(keep as int)
    } else {
        all
    }
}

/// Whether the sizes at the indexes in `ranked` never grow.
pub open spec fn descending(ranked: Seq<int>, sizes: Seq<u64>) -> bool {
    forall|a: int, b: int| 0 <= a < b < ranked.len() ==> sizes[ranked[a]] >= sizes[ranked[b]]
}

proof fn lemma_rank_insert_at(ranked: Seq<int>, sizes: Seq<u64>, i: int, at: int)
    requires
        0 <= at <= ranked.len(),
        forall|k: int| at <= k < ranked.len() ==> sizes[ranked[k]] < sizes[i],
        at == 0 || sizes[ranked[at - 1]] >= sizes[i],
    ensures
        rank_insert(ranked, sizes, i) == ranked.insert(at, i),
    decreases ranked.len(),
{
    if ranked.len() == 0 {
        assert(ranked.insert(0, i) =~= seq![i]);
    } else if at == ranked.len() {
        assert(ranked.insert(at, i) =~= ranked.push(i));
    } else {
        let front = ranked.drop_last();
        assert forall|k: int| at <= k < front.len() implies sizes[front[k]] < sizes[i] by {
            assert(front[k] == ranked[k]);
        }
        if at > 0 {
            assert(front[at - 1] == ranked[at - 1]);
        }
        lemma_rank_insert_at(front, sizes, i, at);
        assert(ranked.insert(at, i) =~= front.insert(at, i).push(ranked.last()));
    }
}

/// Whether `ranked` holds indexes below `bound` only, and none twice.
pub open spec fn distinct_below(ranked: Seq<int>, bound: int) -> bool {
    &&& forall|k: int| 0 <= k < ranked.len() ==> 0 <= #[trigger] ranked[k] < bound
    &&& forall|a: int, b: int| 0 <= a < b < ranked.len() ==> ranked[a] != ranked[b]
}

proof fn lemma_rank_insert_descending(ranked: Seq<int>, sizes: Seq<u64>, i: int)
    requires
        0 <= i,
        descending(ranked, sizes),
        distinct_below(ranked, i),
    ensures
        descending(rank_insert(ranked, sizes, i), sizes),
        rank_insert(ranked, sizes, i).len() == ranked.len() + 1,
        distinct_below(rank_insert(ranked, sizes, i), i + 1),
{
    let pos = choose_position(ranked, sizes, i, 0, 0);
    lemma_rank_insert_at(ranked, sizes, i, pos);
    let out = ranked.insert(pos, i);
    assert forall|a: int, b: int| 0 <= a < b < out.len() implies sizes[out[a]] >= sizes[out[b]] by {
        if b < pos {
        } else if b == pos {
            if pos > 0 && a < pos - 1 {
                assert(sizes[ranked[a]] >= sizes[ranked[pos - 1]]);
            }
        } else if a < pos {
            assert(out[b] == ranked[b - 1]);
            assert(a <= b - 1);
            if a < b - 1 {
                assert(sizes[ranked[a]] >= sizes[ranked[b - 1]]);
            }
        } else if a == pos {
            assert(out[b] == ranked[b - 1]);
        } else {
            assert(out[a] == ranked[a - 1] && out[b] == ranked[b - 1]);
        }
    }
    assert forall|k: int| 0 <= k < out.len() implies 0 <= #[trigger] out[k] < i + 1 by {
        if k < pos {
            assert(out[k] == ranked[k]);
        } else if k > pos {
            assert(out[k] == ranked[k - 1]);
        }
    }
    assert forall|a: int, b: int| 0 <= a < b < out.len() implies out[a] != out[b] by {
        if a < pos {
            assert(out[a] == ranked[a]);
        } else if a > pos {
            assert(out[a] == ranked[a - 1]);
        }
        if b < pos {
            assert(out[b] == ranked[b]);
        } else if b > pos {
            assert(out[b] == ranked[b - 1]);
        }
    }
}

/// A ranking holds each index once, and the sizes along it never grow.
pub proof fn lemma_ranking(sizes: Seq<u64>, n: nat)
    requires
        n <= sizes.len(),
    ensures
        ranking(sizes, n).len() == n,
        descending(ranking(sizes, n), sizes),
        distinct_below(ranking(sizes, n), n as int),
    decreases n,
{
    if n > 0 {
        let before = ranking(sizes, (n - 1) as nat);
        lemma_ranking(sizes, (n - 1) as nat);
        lemma_rank_insert_descending(before, sizes, n - 1);
    }
}

/// The `keep` largest of `sizes`, as indexes: the largest first, and among
/// equal sizes the lower index first.
pub fn rank_desc(sizes: &Vec<u64>, keep: usize) -> (top: Vec<usize>)
    ensures
        top@.len() == top_ranked(sizes@, keep as nat).len(),
        forall|k: int| 0 <= k < top@.len() ==> top@[k] as int == top_ranked(sizes@, keep as nat)[k],
        forall|k: int| 0 <= k < top@.len() ==> top@[k] < sizes@.len(),
{
    let mut top: Vec<usize> = Vec::new();
    let n = sizes.len();
    let mut i: usize = 0;
    // `full` is the ranking of the indexes seen; `top` holds its head.
    while i < n
        invariant
            i <= n == sizes@.len(),
            ranking(sizes@, i as nat).len() == i,
            top@.len() == (if i < keep {
                i
            } else {
                keep
            }),
            forall|k: int| 0 <= k < top@.len() ==> top@[k] as int == ranking(sizes@, i as nat)[k],
            forall|k: int| 0 <= k < top@.len() ==> top@[k] < i,
            descending(ranking(sizes@, i as nat), sizes@),
            distinct_below(ranking(sizes@, i as nat), i as int),
        decreases n - i,
    {
        let ghost full = ranking(sizes@, i as nat);
        let mut at: usize = top.len();
        while at > 0 && sizes[top[at - 1]] < sizes[i]
            invariant
                at <= top@.len() <= full.len(),
                i < n == sizes@.len(),
                forall|k: int| 0 <= k < top@.len() ==> top@[k] as int == full[k],
                forall|k: int| 0 <= k < top@.len() ==> top@[k] < i,
                distinct_below(full, i as int),
                forall|k: int| at <= k < top@.len() ==> sizes@[full[k]] < sizes@[i as int],
            decreases at,
        {
            at -= 1;
        }
        proof {
            // Where the ranking goes on behind `top`, its sizes are no larger
            // than that of the last index in `top`.
            let pos = choose_position(full, sizes@, i as int, at as int, top@.len() as int);
            lemma_rank_insert_at(full, sizes@, i as int, pos);
            lemma_rank_insert_descending(full, sizes@, i as int);
            if at > 0 {
                assert(top@[at - 1] as int == full[at - 1]);
            }
            assert(ranking(sizes@, (i + 1) as nat) == full.insert(pos, i as int));
            if at < top@.len() || top@.len() < keep {
                assert(pos == at);
            } else {
                assert(pos >= at);
            }
        }
        if at < keep {
            top.insert(at, i);
            if top.len() > keep {
                top.pop();
            }
        }
        i += 1;
    }
    proof {
        lemma_ranking(sizes@, n as nat);
    }
    top
}

/// Where `i` goes in `full`, given that the scan from the end of the head
/// of `full` (its first `head` entries) stopped at `at`.
proof fn choose_position(full: Seq<int>, sizes: Seq<u64>, i: int, at: int, head: int) -> (pos: int)
    requires
        0 <= at <= head <= full.len(),
        descending(full, sizes),
        forall|k: int| at <= k < head ==> sizes[full[k]] < sizes[i],
        at == 0 || sizes[full[at - 1]] >= sizes[i],
    ensures
        at <= pos <= full.len(),
        forall|k: int| pos <= k < full.len() ==> sizes[full[k]] < sizes[i],
        pos == 0 || sizes[full[pos - 1]] >= sizes[i],
        (at < head || head == full.len()) ==> pos == at,
    decreases full.len() - at,
{
    if at == full.len() {
        at
    } else if sizes[full[at]] < sizes[i] {
        assert forall|k: int| at <= k < full.len() implies sizes[full[k]] < sizes[i] by {
            if k > at {
                assert(sizes[full[at]] >= sizes[full[k]]);
            }
        }
        at
    } else {
        // Only behind the head can an entry at `at` be no smaller.
        assert(at == head);
        choose_position(full, sizes, i, at + 1, at + 1)
    }
}

} // verus!
