//! Stable descending ranking of similarity scores.
//!
//! Ranking returns the positions of the scored candidates, best first. Ties,
//! including every comparison involving an undefined similarity, keep the
//! candidates' original relative order, so the ranking is total and
//! deterministic.

use vstd::prelude::*;

use crate::similarity::{sim_cmp, sim_wf, spec_sim_cmp, SimOrd, Similarity};

verus! {

/// Every similarity in the sequence is within comparison bounds.
pub open spec fn sims_wf(sims: Seq<Similarity>) -> bool {
    forall|k: int| 0 <= k < sims.len() ==> sim_wf(#[trigger] sims[k])
}

/// `r` lists every position of `sims` exactly once, in descending order of
/// similarity; positions whose similarities compare equal keep their
/// original relative order, so the ranking is stable.
pub open spec fn is_stable_ranking(sims: Seq<Similarity>, r: Seq<usize>) -> bool {
    &&& r.len() == sims.len()
    &&& forall|k: int| 0 <= k < r.len() ==> (#[trigger] r[k]) < sims.len()
    &&& forall|v: int| 0 <= v < sims.len() ==> #[trigger] r.contains(v as usize)
    &&& forall|k: int, l: int| #![trigger r[k], r[l]] 0 <= k < l < r.len() ==> r[k] != r[l]
    &&& forall|k: int|
        #![trigger r[k], r[k - 1]]
        1 <= k < r.len() ==> spec_sim_cmp(sims[r[k - 1] as int], sims[r[k] as int])
            != SimOrd::Less
    &&& forall|k: int, l: int|
        #![trigger r[k], r[l]]
        0 <= k < l < r.len() && spec_sim_cmp(sims[r[k] as int], sims[r[l] as int])
            == SimOrd::Equal ==> r[k] < r[l]
}

/// Comparison is antisymmetric around the undefined-equal rule: one side
/// falls strictly below exactly when the other rises strictly above.
pub proof fn lemma_sim_cmp_flip(x: Similarity, y: Similarity)
    ensures
        spec_sim_cmp(x, y) == SimOrd::Less <==> spec_sim_cmp(y, x) == SimOrd::Greater,
{
}

/// Ranks candidate positions by descending similarity, stably: the returned
/// vector is a permutation of `0..sims.len()`, neighbouring entries never
/// ascend, and equal-comparing entries keep their input order.
#[verifier::rlimit(100)]
pub fn rank_indices(sims: &Vec<Similarity>) -> (r: Vec<usize>)
    requires
        sims_wf(sims@),
    ensures
        is_stable_ranking(sims@, r@),
{
    let mut out: Vec<usize> = Vec::new();
    let mut m: usize = 0;
    while m < sims.len()
        invariant
            sims_wf(sims@),
            m <= sims@.len(),
            out@.len() == m,
            forall|k: int| 0 <= k < out@.len() ==> (#[trigger] out@[k]) < m,
            forall|v: int| 0 <= v < m ==> #[trigger] out@.contains(v as usize),
            forall|k: int, l: int|
                #![trigger out@[k], out@[l]]
                0 <= k < l < out@.len() ==> out@[k] != out@[l],
            forall|k: int|
                #![trigger out@[k], out@[k - 1]]
                1 <= k < out@.len() ==> spec_sim_cmp(
                    sims@[out@[k - 1] as int],
                    sims@[out@[k] as int],
                ) != SimOrd::Less,
            forall|k: int, l: int|
                #![trigger out@[k], out@[l]]
                0 <= k < l < out@.len() && spec_sim_cmp(
                    sims@[out@[k] as int],
                    sims@[out@[l] as int],
                ) == SimOrd::Equal ==> out@[k] < out@[l],
        decreases sims@.len() - m,
    {
        let target = sims[m];
        let mut pos: usize = out.len();
        loop
            invariant
                sims_wf(sims@),
                m < sims@.len(),
                target == sims@[m as int],
                out@.len() == m,
                forall|k: int| 0 <= k < out@.len() ==> (#[trigger] out@[k]) < m,
                pos <= out@.len(),
                forall|q: int|
                    pos <= q < out@.len() ==> spec_sim_cmp(
                        sims@[(#[trigger] out@[q]) as int],
                        sims@[m as int],
                    ) == SimOrd::Less,
            ensures
                pos <= out@.len(),
                forall|q: int|
                    pos <= q < out@.len() ==> spec_sim_cmp(
                        sims@[(#[trigger] out@[q]) as int],
                        sims@[m as int],
                    ) == SimOrd::Less,
                pos > 0 ==> spec_sim_cmp(sims@[out@[pos - 1] as int], sims@[m as int])
                    != SimOrd::Less,
            decreases pos,
        {
            if pos == 0 {
                break ;
            }
            let prev: usize = out[pos - 1];
            let before = sims[prev];
            if sim_cmp(&before, &target) != SimOrd::Less {
                break ;
            }
            pos = pos - 1;
        }
        let ghost pre = out@;
        out.insert(pos, m);
        proof {
            pre.insert_ensures(pos as int, m);
            let now = out@;
            // Distinctness: everything previously ranked names a smaller
            // position than `m`, so the new entry collides with nothing.
            assert forall|k: int, l: int|
                #![trigger now[k], now[l]]
                0 <= k < l < now.len() implies now[k] != now[l] by {
                if k < pos && l > pos {
                    assert(now[k] == pre[k] && now[l] == pre[l - 1]);
                } else if k > pos {
                    assert(now[k] == pre[k - 1] && now[l] == pre[l - 1]);
                } else if l < pos {
                    assert(now[k] == pre[k] && now[l] == pre[l]);
                }
            }
            // Completeness: old entries survive a shift; `m` itself now sits
            // at the insertion point.
            assert forall|v: int| 0 <= v < m + 1 implies #[trigger] now.contains(v as usize) by {
                if v < m {
                    assert(pre.contains(v as usize));
                    let k = choose|k: int| 0 <= k < pre.len() && pre[k] == v as usize;
                    if k < pos {
                        assert(now[k] == v as usize);
                    } else {
                        assert(now[k + 1] == v as usize);
                    }
                } else {
                    assert(now[pos as int] == m as usize);
                }
            }
            // Neighbours never ascend: the scan stopped at the first entry
            // not strictly below the new one, and everything it skipped is
            // strictly below, hence strictly above when flipped.
            assert forall|k: int|
                #![trigger now[k], now[k - 1]]
                1 <= k < now.len() implies spec_sim_cmp(
                sims@[now[k - 1] as int],
                sims@[now[k] as int],
            ) != SimOrd::Less by {
                if k < pos {
                    assert(now[k] == pre[k] && now[k - 1] == pre[k - 1]);
                    assert(spec_sim_cmp(sims@[pre[k - 1] as int], sims@[pre[k] as int])
                        != SimOrd::Less);
                } else if k == pos {
                    assert(now[k] == m as usize && now[k - 1] == pre[k - 1]);
                    assert(spec_sim_cmp(sims@[pre[k - 1] as int], sims@[m as int])
                        != SimOrd::Less);
                } else if k == pos + 1 {
                    assert(now[k] == pre[k - 1] && now[k - 1] == m as usize);
                    lemma_sim_cmp_flip(sims@[pre[k - 1] as int], sims@[m as int]);
                } else {
                    let kk = k - 1;
                    assert(now[k] == pre[kk] && now[k - 1] == pre[kk - 1]);
                    assert(spec_sim_cmp(sims@[pre[kk - 1] as int], sims@[pre[kk] as int])
                        != SimOrd::Less);
                }
            }
            // Stability: skipped entries compare strictly below the new one,
            // so an equal comparison with it can only involve entries left of
            // the insertion point, whose positions are all smaller than `m`.
            assert forall|k: int, l: int|
                #![trigger now[k], now[l]]
                0 <= k < l < now.len() && spec_sim_cmp(
                    sims@[now[k] as int],
                    sims@[now[l] as int],
                ) == SimOrd::Equal implies now[k] < now[l] by {
                if k == pos {
                    assert(now[l] == pre[l - 1]);
                    lemma_sim_cmp_flip(sims@[pre[l - 1] as int], sims@[m as int]);
                } else if l == pos {
                    assert(now[k] == pre[k]);
                    assert(pre[k] < m);
                } else if k < pos && l < pos {
                    assert(now[k] == pre[k] && now[l] == pre[l]);
                } else if k < pos && l > pos {
                    assert(now[k] == pre[k] && now[l] == pre[l - 1]);
                } else {
                    assert(now[k] == pre[k - 1] && now[l] == pre[l - 1]);
                }
            }
        }
        m = m + 1;
    }
    out
}

} // verus!
