//! Stable descending sort of documents ranked by an integer key.
//!
//! Memory scans are ordered by `createdAt` descending; ties keep their scan
//! order, as a stable sort does.

use vstd::prelude::*;

use crate::value::{val_model, ValModel, Value};

verus! {

/// The pair a ranked document stands for.
pub open spec fn rank_m(p: (i64, Value)) -> (int, ValModel) {
    (p.0 as int, p.1@)
}

/// The pairs a run of ranked documents stands for.
pub open spec fn rank_models(s: Seq<(i64, Value)>) -> Seq<(int, ValModel)> {
    s.map_values(|p: (i64, Value)| rank_m(p))
}

/// `x` placed into a run sorted by weakly descending rank, before the first
/// entry it ties or beats; insertion keeps ties in arrival order.
pub open spec fn insert_desc_r(x: (int, ValModel), s: Seq<(int, ValModel)>) -> Seq<
    (int, ValModel),
>
    decreases s.len(),
{
    if s.len() == 0 {
        seq![x]
    } else if x.0 >= s[0].0 {
        seq![x] + s
    } else {
        seq![s[0]] + insert_desc_r(x, s.skip(1))
    }
}

/// The run sorted by weakly descending rank: the stable sort of the run.
pub open spec fn sort_desc_r(s: Seq<(int, ValModel)>) -> Seq<(int, ValModel)>
    decreases s.len(),
{
    if s.len() == 0 {
        Seq::empty()
    } else {
        insert_desc_r(s[0], sort_desc_r(s.skip(1)))
    }
}

/// When the first `pos` entries beat `x` and entry `pos` (if any) does not,
/// insertion puts `x` exactly at `pos`.
pub proof fn lemma_insert_desc_r_at(x: (int, ValModel), s: Seq<(int, ValModel)>, pos: int)
    requires
        0 <= pos <= s.len(),
        forall|j: int| 0 <= j < pos ==> (#[trigger] s[j]).0 > x.0,
        pos < s.len() ==> x.0 >= s[pos].0,
    ensures
        insert_desc_r(x, s) == s.subrange(0, pos) + seq![x] + s.skip(pos),
    decreases pos,
{
    if pos == 0 {
        assert(insert_desc_r(x, s) =~= s.subrange(0, 0) + seq![x] + s.skip(0));
    } else {
        lemma_insert_desc_r_at(x, s.skip(1), pos - 1);
        assert(s.skip(1).subrange(0, pos - 1) =~= s.subrange(1, pos));
        assert(s.skip(1).skip(pos - 1) =~= s.skip(pos));
        assert(insert_desc_r(x, s) =~= s.subrange(0, pos) + seq![x] + s.skip(pos));
    }
}

/// Sort ranked documents by weakly descending rank, stably.
#[verifier::loop_isolation(false)]
pub fn sort_ranked_desc(input: Vec<(i64, Value)>) -> (r: Vec<(i64, Value)>)
    ensures
        rank_models(r@) == sort_desc_r(rank_models(input@)),
{
    let ghost all = rank_models(input@);
    let mut v = input;
    let mut sorted: Vec<(i64, Value)> = Vec::new();
    proof {
        assert(all.skip(v@.len() as int) =~= Seq::<(int, ValModel)>::empty());
        assert(rank_models(sorted@) =~= sort_desc_r(all.skip(v@.len() as int)));
    }
    while v.len() > 0
        invariant
            rank_models(v@) == all.subrange(0, v@.len() as int),
            v@.len() <= all.len(),
            rank_models(sorted@) == sort_desc_r(all.skip(v@.len() as int)),
        decreases v.len(),
    {
        let ghost j = v@.len() - 1;
        let ghost prev = v@;
        let x = match v.pop() {
            Some(x) => x,
            None => {
                return sorted;
            },
        };
        proof {
            assert(x == prev[j]);
            assert(rank_models(prev)[j] == rank_m(prev[j]));
            assert(rank_models(prev)[j] == all.subrange(0, j + 1)[j]);
            assert(rank_m(x) == all[j]);
            assert forall|l: int| 0 <= l < j implies rank_models(v@)[l] == all.subrange(
                0,
                j,
            )[l] by {
                assert(rank_models(v@)[l] == rank_m(v@[l]));
                assert(rank_models(prev)[l] == rank_m(prev[l]));
            }
            assert(rank_models(v@) =~= all.subrange(0, j));
        }
        let ghost srt = rank_models(sorted@);
        let m = sorted.len();
        let mut pos: usize = 0;
        while pos < m && sorted[pos].0 > x.0
            invariant
                0 <= pos <= m,
                m == sorted@.len(),
                forall|l: int| 0 <= l < pos ==> (#[trigger] sorted@[l]).0 > x.0,
            decreases m - pos,
        {
            pos = pos + 1;
        }
        proof {
            lemma_insert_desc_r_at(rank_m(x), srt, pos as int);
        }
        sorted.insert(pos, x);
        proof {
            assert(rank_m(x) == all.skip(j)[0]);
            assert(all.skip(j).skip(1) =~= all.skip(j + 1));
            assert(rank_models(sorted@) =~= srt.subrange(0, pos as int) + seq![rank_m(x)]
                + srt.skip(pos as int));
            assert(rank_models(sorted@) =~= sort_desc_r(all.skip(j)));
        }
    }
    proof {
        assert(all.skip(0) =~= all);
    }
    sorted
}

} // verus!
