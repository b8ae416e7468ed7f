use vstd::prelude::*;
use crate::types::Move;

verus! {

/// A move at the root, the score it got and the depth it was searched to.
#[derive(Clone, Copy)]
pub struct RootMove {
    pub m: Move,
    pub score: i32,
    pub search_depth: u8,
}

impl RootMove {
    /// A root move not searched yet.
    pub fn new(m: Move) -> (r: RootMove)
        ensures
            r == unsearched(m),
    {
        RootMove { m, score: -50000i32, search_depth: 0u8 }
    }
}

/// A root move not searched yet.
pub open spec fn unsearched(m: Move) -> RootMove {
    RootMove { m, score: -50000i32, search_depth: 0u8 }
}

pub open spec fn with_depth(r: RootMove, d: u8) -> RootMove {
    RootMove { search_depth: d, ..r }
}

pub open spec fn with_score(r: RootMove, s: i32) -> RootMove {
    RootMove { score: s, ..r }
}

/// Scores in `s` never increase.
pub open spec fn sorted_desc(s: Seq<RootMove>) -> bool {
    forall|i: int, j: int| 0 <= i < j < s.len() ==> s[i].score >= s[j].score
}

/// The root moves that the search threads share out.
pub struct RootMoveList {
    pub moves: Vec<RootMove>,
    pub current_depth: u8,
}

impl RootMoveList {
    pub fn new(moves: Vec<Move>) -> (l: RootMoveList)
        ensures
            l.moves@.len() == moves@.len(),
            forall|i: int| 0 <= i < moves@.len() ==> #[trigger] l.moves@[i] == unsearched(moves@[i]),
            l.current_depth == 1,
    {
        let mut root_moves: Vec<RootMove> = Vec::with_capacity(moves.len());
        let mut i: usize = 0;
        while i < moves.len()
            invariant
                i <= moves@.len(),
                root_moves@.len() == i,
                forall|k: int| 0 <= k < i ==> #[trigger] root_moves@[k] == unsearched(moves@[k]),
            decreases moves@.len() - i,
        {
            root_moves.push(RootMove::new(moves[i]));
            i = i + 1;
        }
        RootMoveList { moves: root_moves, current_depth: 1 }
    }

    /// Takes the first move not yet searched to `depth`, marking it as
    /// searched to `depth`.
    pub fn steal(&mut self, depth: u8) -> (r: Option<Move>)
        ensures
            final(self).current_depth == old(self).current_depth,
            final(self).moves@.len() == old(self).moves@.len(),
            match r {
                Some(m) => exists|k: int|
                    0 <= k < old(self).moves@.len() && old(self).moves@[k].search_depth < depth && (forall|j: int|
                        0 <= j < k ==> old(self).moves@[j].search_depth >= depth) && old(self).moves@[k].m == m
                        && final(self).moves@ == old(self).moves@.update(k, with_depth(old(self).moves@[k], depth)),
                None => (forall|j: int| 0 <= j < old(self).moves@.len() ==> old(self).moves@[j].search_depth >= depth)
                    && final(self).moves@ == old(self).moves@,
            },
    {
        let mut k: usize = 0;
        while k < self.moves.len()
            invariant
                k <= self.moves@.len(),
                self.moves@ == old(self).moves@,
                self.current_depth == old(self).current_depth,
                forall|j: int| 0 <= j < k ==> old(self).moves@[j].search_depth >= depth,
            decreases self.moves@.len() - k,
        {
            if self.moves[k].search_depth < depth {
                let mut rm = self.moves[k];
                rm.search_depth = depth;
                self.moves.set(k, rm);
                return Some(rm.m);
            }
            k = k + 1;
        }
        None
    }

    /// Records `score` for the first entry of move `m`, then orders the
    /// list by score, best first, keeping the order of equal scores.
    pub fn update_score(&mut self, m: Move, score: i32)
        ensures
            final(self).current_depth == old(self).current_depth,
            final(self).moves@.len() == old(self).moves@.len(),
            sorted_desc(final(self).moves@),
            final(self).moves@.to_multiset() == updated_scores(old(self).moves@, m, score).to_multiset(),
    {
        let mut k: usize = 0;
        while k < self.moves.len()
            invariant
                k <= self.moves@.len(),
                self.moves@ == old(self).moves@,
                self.current_depth == old(self).current_depth,
                forall|j: int| 0 <= j < k ==> old(self).moves@[j].m.0 != m.0,
            decreases self.moves@.len() - k,
        {
            if self.moves[k].m.0 == m.0 {
                let mut rm = self.moves[k];
                rm.score = score;
                self.moves.set(k, rm);
                proof {
                    assert(self.moves@ =~= updated_scores(old(self).moves@, m, score));
                }
                self.sort_by_score();
                return;
            }
            k = k + 1;
        }
        proof {
            assert(self.moves@ =~= updated_scores(old(self).moves@, m, score));
        }
        self.sort_by_score();
    }

    /// Stable insertion sort, best score first.
    fn sort_by_score(&mut self)
        ensures
            final(self).current_depth == old(self).current_depth,
            final(self).moves@.len() == old(self).moves@.len(),
            sorted_desc(final(self).moves@),
            final(self).moves@.to_multiset() == old(self).moves@.to_multiset(),
    {
        let n = self.moves.len();
        if n == 0 {
            return;
        }
        let mut i: usize = 1;
        while i < n
            invariant
                1 <= i <= n,
                n == self.moves@.len(),
                self.current_depth == old(self).current_depth,
                sorted_desc(self.moves@.take(i as int)),
                self.moves@.to_multiset() == old(self).moves@.to_multiset(),
            decreases n - i,
        {
            let mut j: usize = i;
            proof {
                assert forall|a: int, b: int| 0 <= a < b < i implies self.moves@[a].score >= self.moves@[b].score by {
                    assert(self.moves@.take(i as int)[a] == self.moves@[a]);
                    assert(self.moves@.take(i as int)[b] == self.moves@[b]);
                }
            }
            while j > 0 && self.moves[j - 1].score < self.moves[j].score
                invariant
                    0 <= j <= i < n,
                    n == self.moves@.len(),
                    self.current_depth == old(self).current_depth,
                    self.moves@.to_multiset() == old(self).moves@.to_multiset(),
                    forall|a: int, b: int|
                        0 <= a < b <= i && a != j && b != j ==> self.moves@[a].score >= self.moves@[b].score,
                    forall|a: int, b: int| 0 <= a < j && j < b <= i ==> self.moves@[a].score >= self.moves@[b].score,
                    forall|b: int| j < b <= i ==> self.moves@[j as int].score > self.moves@[b].score,
                decreases j,
            {
                let ghost before = self.moves@;
                let a = self.moves[j - 1];
                let b = self.moves[j];
                self.moves.set(j - 1, b);
                self.moves.set(j, a);
                proof {
                    assert(self.moves@ =~= before.update(j - 1, before[j as int]).update(j as int, before[j - 1]));
                    lemma_swap_multiset(before, j - 1, j as int);
                }
                j = j - 1;
            }
            proof {
                assert forall|a: int, b: int| 0 <= a < b < i + 1 implies #[trigger] self.moves@.take(i + 1)[a].score >= #[trigger] self.moves@.take(i + 1)[b].score by {
                    if a == j && j > 0 && b > j {
                    } else if b == j && j > 0 && a < j - 1 {
                        assert(self.moves@[a].score >= self.moves@[j - 1].score);
                    }
                }
            }
            i = i + 1;
        }
        proof {
            assert(self.moves@.take(n as int) =~= self.moves@);
        }
    }
}

/// `s` with the score of the first entry of `m` set to `score`.
pub open spec fn updated_scores(s: Seq<RootMove>, m: Move, score: i32) -> Seq<RootMove> {
    if exists|k: int| 0 <= k < s.len() && s[k].m.0 == m.0 {
        let k = choose|k: int|
            0 <= k < s.len() && s[k].m.0 == m.0 && forall|j: int| 0 <= j < k ==> s[j].m.0 != m.0;
        s.update(k, with_score(s[k], score))
    } else {
        s
    }
}

proof fn lemma_swap_multiset(s: Seq<RootMove>, a: int, b: int)
    requires
        0 <= a < s.len(),
        0 <= b < s.len(),
        a != b,
    ensures
        s.update(a, s[b]).update(b, s[a]).to_multiset() =~= s.to_multiset(),
{
    broadcast use vstd::multiset::group_multiset_axioms;

    let ms = s.to_multiset();
    let s1 = s.update(a, s[b]);
    vstd::seq_lib::to_multiset_update(s, a, s[b]);
    vstd::seq_lib::to_multiset_update(s1, b, s[a]);
    assert(s1[b] == s[b]);
    vstd::seq_lib::to_multiset_contains(s, s[a]);
    assert(s.contains(s[a]));
    assert(ms.count(s[a]) > 0);
    let m1 = ms.insert(s[b]).remove(s[a]);
    assert(m1.count(s[b]) > 0);
    assert forall|v: RootMove| #[trigger] m1.insert(s[a]).remove(s[b]).count(v) == ms.count(v) by {}
}

} // verus!
