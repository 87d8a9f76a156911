//! The similarity index core: the chunk store, the identifier map derived
//! from it, positional retrieval, and exact top-k selection over scores.
//! Scoring itself (an embedding similarity) happens outside this core; the
//! caller hands in one order-encoded score per stored chunk, position
//! aligned, and receives the ranked prefix back.

use vstd::prelude::*;

use crate::chunking::{chunks_view, id_map_of, Chunk, ChunkID, ChunkIdMap};

verus! {

/// Ranking order on scored entries: the higher score first; equal scores
/// keep original position order, so results are deterministic.
pub open spec fn ranks_before(a: (usize, u64), b: (usize, u64)) -> bool {
    a.1 > b.1 || (a.1 == b.1 && a.0 < b.0)
}

fn ranks_before_exec(a: (usize, u64), b: (usize, u64)) -> (r: bool)
    ensures
        r == ranks_before(a, b),
{
    a.1 > b.1 || (a.1 == b.1 && a.0 < b.0)
}

/// Whether some returned entry carries the position `j`.
pub open spec fn in_result(r: Seq<(usize, u64)>, j: int) -> bool {
    exists|i: int| 0 <= i < r.len() && (#[trigger] r[i]).0 == j
}

proof fn lemma_insert_contains<A>(s: Seq<A>, m: int, x: A)
    requires
        0 <= m <= s.len(),
    ensures
        forall|y: A| s.insert(m, x).contains(y) <==> (s.contains(y) || y == x),
{
    let t = s.insert(m, x);
    assert forall|y: A| #[trigger] t.contains(y) implies (s.contains(y) || y == x) by {
        let idx = choose|idx: int| 0 <= idx < t.len() && t[idx] == y;
        if idx < m {
            assert(s[idx] == y);
        } else if idx > m {
            assert(s[idx - 1] == y);
        }
    }
    assert forall|y: A| (s.contains(y) || y == x) implies #[trigger] t.contains(y) by {
        if y == x {
            assert(t[m] == y);
        } else {
            let idx = choose|idx: int| 0 <= idx < s.len() && s[idx] == y;
            if idx < m {
                assert(t[idx] == y);
            } else {
                assert(t[idx + 1] == y);
            }
        }
    }
}

/// Ranks every scored position by descending score (ties kept in position
/// order) and returns the first `k` pairs of (position, score). With `k` at
/// least the collection size, every position is returned exactly once.
pub fn rank_top_k(scores: &Vec<u64>, k: usize) -> (r: Vec<(usize, u64)>)
    ensures
        r@.len() == vstd::math::min(k as int, scores@.len() as int),
        forall|i: int|
            0 <= i < r@.len() ==> (#[trigger] r@[i]).0 < scores@.len() && r@[i].1 == scores@[r@[
                i
            ].0 as int],
        forall|i: int, j: int|
            0 <= i < j < r@.len() ==> ranks_before(#[trigger] r@[i], #[trigger] r@[j]),
        forall|i: int, j: int|
            0 <= i < j < r@.len() ==> (#[trigger] r@[j]).1 <= (#[trigger] r@[i]).1,
        forall|i: int, j: int|
            #![trigger r@[i], scores@[j]]
            0 <= i < r@.len() && 0 <= j < scores@.len() && !in_result(r@, j) ==> ranks_before(
                r@[i],
                ((j as usize), scores@[j]),
            ),
        k >= scores@.len() ==> forall|j: int|
            0 <= j < scores@.len() ==> r@.contains(((j as usize), #[trigger] scores@[j])),
{
    let n = scores.len();
    let mut sorted: Vec<(usize, u64)> = Vec::new();
    let mut i: usize = 0;
    while i < n
        invariant
            n == scores@.len(),
            0 <= i <= n,
            sorted@.len() == i,
            forall|a: int|
                0 <= a < sorted@.len() ==> (#[trigger] sorted@[a]).0 < i && sorted@[a].1
                    == scores@[sorted@[a].0 as int],
            forall|a: int, b: int|
                0 <= a < b < sorted@.len() ==> ranks_before(
                    #[trigger] sorted@[a],
                    #[trigger] sorted@[b],
                ),
            forall|j: int| 0 <= j < i ==> sorted@.contains(((j as usize), #[trigger] scores@[j])),
        decreases n - i,
    {
        let x = (i, scores[i]);
        let mut m: usize = 0;
        while m < sorted.len() && !ranks_before_exec(x, sorted[m])
            invariant
                0 <= m <= sorted@.len(),
                forall|a: int| 0 <= a < m ==> !ranks_before(x, #[trigger] sorted@[a]),
            decreases sorted@.len() - m,
        {
            m = m + 1;
        }
        let ghost pre = sorted@;
        proof {
            pre.insert_ensures(m as int, x);
            lemma_insert_contains(pre, m as int, x);
        }
        sorted.insert(m, x);
        proof {
            assert forall|a: int, b: int|
                0 <= a < b < sorted@.len() implies ranks_before(
                #[trigger] sorted@[a],
                #[trigger] sorted@[b],
            ) by {
                if b < m {
                } else if a < m && b == m {
                    assert(!ranks_before(x, pre[a]));
                    assert(pre[a].0 < i);
                } else if a == m && b > m {
                    assert((m as int) < pre.len());
                    assert(ranks_before(x, pre[m as int]));
                    if b - 1 > m {
                        assert(ranks_before(pre[m as int], pre[b - 1]));
                    }
                } else if a < m && b > m {
                    assert(ranks_before(pre[a], pre[b - 1]));
                } else if a > m {
                    assert(ranks_before(pre[a - 1], pre[b - 1]));
                }
            }
            assert forall|j: int|
                0 <= j < i + 1 implies sorted@.contains(((j as usize), #[trigger] scores@[j])) by {
                if j < i {
                    assert(pre.contains(((j as usize), scores@[j])));
                }
            }
        }
        i = i + 1;
    }
    // The ranked prefix: everything outside it ranks at or below the cut.
    let ghost full = sorted@;
    if k < sorted.len() {
        sorted.truncate(k);
        proof {
            assert(sorted@ =~= full.subrange(0, k as int));
        }
    }
    proof {
        assert forall|i: int, j: int|
            #![trigger sorted@[i], scores@[j]]
            0 <= i < sorted@.len() && 0 <= j < n && !in_result(sorted@, j) implies ranks_before(
            sorted@[i],
            ((j as usize), scores@[j]),
        ) by {
            assert(full.contains(((j as usize), scores@[j])));
            let p = choose|p: int| 0 <= p < full.len() && full[p] == ((j as usize), scores@[j]);
            if p < sorted@.len() {
                assert(sorted@[p].0 == j);
                assert(false);
            }
            if i < p {
                assert(ranks_before(full[i], full[p]));
            }
        }
    }
    sorted
}

/// The index: the final chunk list together with the identifier map built
/// once over it. Embedding vectors and scoring live with the caller; the
/// index owns the verified parts, positional retrieval and ranking.
pub struct Index {
    pub chunks: Vec<Chunk>,
    pub id_to_idx: ChunkIdMap,
}

impl Index {
    /// The identifier map is the one derived from the chunk list.
    pub open spec fn wf(&self) -> bool {
        self.id_to_idx@ == id_map_of(chunks_view(self.chunks@))
    }

    /// Builds the index over a final chunk list; the identifier map is
    /// derived here, once.
    pub fn new(chunks: Vec<Chunk>) -> (r: Index)
        ensures
            r.wf(),
            r.chunks@ == chunks@,
    {
        let id_to_idx = ChunkIdMap::build(&chunks);
        Index { chunks, id_to_idx }
    }

    /// Positional lookup; an out-of-range position is a caller bug and is
    /// excluded by contract.
    pub fn retrieve(&self, idx: usize) -> (r: &Chunk)
        requires
            idx < self.chunks@.len(),
        ensures
            *r == self.chunks@[idx as int],
    {
        &self.chunks[idx]
    }

    /// The position the identifier map stores for an identifier: the last
    /// position in the chunk list whose chunk carries it.
    pub fn lookup(&self, id: &ChunkID) -> (r: Option<usize>)
        requires
            self.wf(),
        ensures
            match r {
                Some(i) => id_map_of(chunks_view(self.chunks@)).contains_key(id@) && id_map_of(
                    chunks_view(self.chunks@),
                )[id@] == i as int,
                None => !id_map_of(chunks_view(self.chunks@)).contains_key(id@),
            },
    {
        self.id_to_idx.get(id)
    }

    /// Brute-force top-k search over caller-computed scores, one per stored
    /// chunk, position aligned: the first `k` entries by descending score,
    /// ties broken by position.
    pub fn search(&self, scores: &Vec<u64>, k: usize) -> (r: Vec<(usize, u64)>)
        requires
            scores@.len() == self.chunks@.len(),
        ensures
            r@.len() == vstd::math::min(k as int, scores@.len() as int),
            forall|i: int|
                0 <= i < r@.len() ==> (#[trigger] r@[i]).0 < scores@.len() && r@[i].1 == scores@[r@[
                    i
                ].0 as int],
            forall|i: int, j: int|
                0 <= i < j < r@.len() ==> ranks_before(#[trigger] r@[i], #[trigger] r@[j]),
            forall|i: int, j: int|
                0 <= i < j < r@.len() ==> (#[trigger] r@[j]).1 <= (#[trigger] r@[i]).1,
            forall|i: int, j: int|
                #![trigger r@[i], scores@[j]]
                0 <= i < r@.len() && 0 <= j < scores@.len() && !in_result(r@, j) ==> ranks_before(
                    r@[i],
                    ((j as usize), scores@[j]),
                ),
            k >= scores@.len() ==> forall|j: int|
                0 <= j < scores@.len() ==> r@.contains(((j as usize), #[trigger] scores@[j])),
    {
        rank_top_k(scores, k)
    }
}

} // verus!
