//! Stable selection of the best-scored positions of a list.
use vstd::prelude::*;

verus! {

/// Position `a` ranks before position `b`: a higher score, or an equal score
/// and an earlier position. This is the order of a stable sort by
/// descending score.
pub open spec fn ranks_before(scores: Seq<u64>, a: int, b: int) -> bool {
    scores[a] > scores[b] || (scores[a] == scores[b] && a < b)
}

/// `r` lists the `min(k, n)` best-ranked positions of `scores`, best first.
pub open spec fn is_top_k(scores: Seq<u64>, k: nat, r: Seq<usize>) -> bool {
    &&& r.len() == if k < scores.len() {
        k
    } else {
        scores.len()
    }
    &&& forall|a: int| 0 <= a < r.len() ==> r[a] < scores.len()
    &&& forall|a: int, b: int|
        0 <= a < b < r.len() ==> ranks_before(scores, r[a] as int, r[b] as int)
    &&& forall|i: int, a: int|
        0 <= i < scores.len() && !r.contains(i as usize) && 0 <= a < r.len() ==> ranks_before(
            scores,
            r[a] as int,
            i,
        )
}

/// Number of positions not yet taken.
pub open spec fn untaken(t: Seq<bool>) -> nat
    decreases t.len(),
{
    if t.len() == 0 {
        0
    } else {
        untaken(t.drop_last()) + if t.last() {
            0nat
        } else {
            1nat
        }
    }
}

proof fn lemma_all_taken(t: Seq<bool>)
    requires
        forall|i: int| 0 <= i < t.len() ==> t[i],
    ensures
        untaken(t) == 0,
    decreases t.len(),
{
    if t.len() > 0 {
        lemma_all_taken(t.drop_last());
    }
}

proof fn lemma_take_one(t: Seq<bool>, i: int)
    requires
        0 <= i < t.len(),
        !t[i],
    ensures
        untaken(t.update(i, true)) + 1 == untaken(t),
    decreases t.len(),
{
    if i < t.len() - 1 {
        lemma_take_one(t.drop_last(), i);
        assert(t.update(i, true).drop_last() =~= t.drop_last().update(i, true));
    } else {
        assert(t.update(i, true).drop_last() =~= t.drop_last());
    }
}

/// The `k` best-ranked positions of `scores`, best first: what a stable sort
/// by descending score followed by taking `k` gives.
pub fn top_k(scores: &Vec<u64>, k: usize) -> (r: Vec<usize>)
    ensures
        is_top_k(scores@, k as nat, r@),
{
    let n = scores.len();
    let want = if k < n {
        k
    } else {
        n
    };
    let mut taken: Vec<bool> = Vec::new();
    let mut j: usize = 0;
    while j < n
        invariant
            j <= n,
            n == scores@.len(),
            taken@.len() == j,
            forall|t: int| 0 <= t < j ==> !taken@[t],
            untaken(taken@) == j,
        decreases n - j,
    {
        let ghost before = taken@;
        taken.push(false);
        assert(taken@.drop_last() == before);
        j = j + 1;
    }
    let mut r: Vec<usize> = Vec::new();
    while r.len() < want
        invariant
            n == scores@.len(),
            want <= n,
            r@.len() <= want,
            taken@.len() == n,
            forall|a: int| 0 <= a < r@.len() ==> r@[a] < n,
            forall|t: int| 0 <= t < n ==> (taken@[t] <==> r@.contains(t as usize)),
            untaken(taken@) == n - r@.len(),
            forall|a: int, b: int|
                0 <= a < b < r@.len() ==> ranks_before(scores@, r@[a] as int, r@[b] as int),
            forall|i: int, a: int|
                0 <= i < n && !taken@[i] && 0 <= a < r@.len() ==> ranks_before(
                    scores@,
                    r@[a] as int,
                    i,
                ),
        decreases want - r@.len(),
    {
        // the untaken position that ranks first
        let mut best: usize = n;
        let mut i: usize = 0;
        while i < n
            invariant
                n == scores@.len(),
                taken@.len() == n,
                i <= n,
                best == n || (best < i && !taken@[best as int]),
                best == n ==> forall|t: int| 0 <= t < i ==> taken@[t],
                best < n ==> forall|t: int|
                    0 <= t < i && !taken@[t] && t != best ==> ranks_before(
                        scores@,
                        best as int,
                        t,
                    ),
            decreases n - i,
        {
            if !taken[i] {
                if best == n || scores[i] > scores[best] {
                    best = i;
                }
            }
            i = i + 1;
        }
        proof {
            if best == n {
                lemma_all_taken(taken@);
            }
            lemma_take_one(taken@, best as int);
        }
        let ghost old_r = r@;
        taken.set(best, true);
        r.push(best);
        proof {
            assert forall|t: int| 0 <= t < n implies (taken@[t] <==> r@.contains(t as usize)) by {
                if t == best as int {
                    assert(r@[r@.len() - 1] == best);
                } else {
                    if old_r.contains(t as usize) {
                        let q = choose|q: int| 0 <= q < old_r.len() && old_r[q] == t as usize;
                        assert(r@[q] == t as usize);
                    }
                    if r@.contains(t as usize) {
                        let q = choose|q: int| 0 <= q < r@.len() && r@[q] == t as usize;
                        assert(q < old_r.len());
                        assert(old_r[q] == t as usize);
                    }
                }
            }
        }
    }
    proof {
        assert forall|i: int, a: int|
            0 <= i < n && !r@.contains(i as usize) && 0 <= a < r@.len() implies ranks_before(
            scores@,
            r@[a] as int,
            i,
        ) by {
            assert(!taken@[i]);
        }
    }
    r
}

/// Ranking every position gives each position exactly once: the result of
/// a full stable sort is a permutation.
pub proof fn lemma_full_ranking_permutes(scores: Seq<u64>, r: Seq<usize>)
    requires
        is_top_k(scores, scores.len(), r),
        scores.len() <= usize::MAX,
    ensures
        r.no_duplicates(),
        forall|i: usize| (i as int) < scores.len() ==> #[trigger] r.contains(i),
{
    let n = scores.len();
    assert forall|a: int, b: int| 0 <= a < r.len() && 0 <= b < r.len() && a != b implies r[a]
        != r[b] by {
        if a < b {
            assert(ranks_before(scores, r[a] as int, r[b] as int));
        } else {
            assert(ranks_before(scores, r[b] as int, r[a] as int));
        }
    }
    assert forall|i: usize| (i as int) < n implies #[trigger] r.contains(i) by {
        if !r.contains(i) {
            let s = r.to_set();
            assert(r.no_duplicates());
            r.unique_seq_to_set();
            let full = below_except(n, i);
            assert(s.subset_of(full)) by {
                assert forall|x: usize| s.contains(x) implies full.contains(x) by {
                    let q = choose|q: int| 0 <= q < r.len() && r[q] == x;
                }
            }
            lemma_below_len(n as nat, i);
            vstd::set_lib::lemma_len_subset(s, full);
            assert(false);
        }
    }
}

/// Positions below `n`.
pub open spec fn below(n: nat) -> Set<usize> {
    Set::new(|x: usize| (x as int) < n)
}

/// Positions below `n` except `i`.
pub open spec fn below_except(n: nat, i: usize) -> Set<usize> {
    Set::new(|x: usize| (x as int) < n && x != i)
}

proof fn lemma_below_len(n: nat, i: usize)
    requires
        (i as int) < n,
        n <= usize::MAX,
    ensures
        below_except(n, i).finite(),
        below_except(n, i).len() == n - 1,
    decreases n,
{
    let s = below_except(n, i);
    if n == i as int + 1 {
        lemma_below_all((n - 1) as nat);
        assert(s =~= below((n - 1) as nat));
    } else {
        let m = (n - 1) as nat;
        lemma_below_len(m, i);
        let t = below_except(m, i);
        assert(!t.contains(m as usize));
        assert(s =~= t.insert(m as usize));
    }
}

proof fn lemma_below_all(n: nat)
    requires
        n <= usize::MAX,
    ensures
        below(n).finite(),
        below(n).len() == n,
    decreases n,
{
    let s = below(n);
    if n == 0 {
        assert(s =~= Set::<usize>::empty());
    } else {
        let m = (n - 1) as nat;
        lemma_below_all(m);
        let t = below(m);
        assert(!t.contains(m as usize));
        assert(s =~= t.insert(m as usize));
    }
}

} // verus!
