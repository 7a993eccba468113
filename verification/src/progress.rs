//! Why every search comes to rest.
//!
//! Each move of the search either finishes, suppresses a candidate (which
//! strictly lowers the working vector's total headroom above `i64::MIN`), or
//! evicts an incumbent.  An eviction strictly raises the claim held on the
//! contested target, so each target admits only finitely many evictions: the
//! measure counts, per target, how many scores still beat the current claim.
//! The pair (eviction potential, vector headroom) therefore decreases
//! lexicographically on every move that does not finish.

use vstd::prelude::*;

use crate::model::{
    entrant_count, score, state_inv, step, target_count, Ctx, SearchState, ctx_wf,
};
use crate::vecops::{find_first, seq_argmax, seq_min_val};

verus! {

/// Total headroom of a score vector above `i64::MIN`.
pub open spec fn slack(items: Seq<i64>) -> nat
    decreases items.len(),
{
    if items.len() == 0 {
        0
    } else {
        slack(items.drop_last()) + (items.last() - i64::MIN) as nat
    }
}

/// Lowering one slot strictly lowers the headroom.
pub proof fn lemma_slack_update(items: Seq<i64>, idx: int, v: i64)
    requires
        0 <= idx < items.len(),
        v < items[idx],
    ensures
        slack(items.update(idx, v)) < slack(items),
    decreases items.len(),
{
    let u = items.update(idx, v);
    if idx == items.len() - 1 {
        assert(u.drop_last() =~= items.drop_last());
        assert(u.last() == v);
    } else {
        assert(u.drop_last() =~= items.drop_last().update(idx, v));
        assert(u.last() == items.last());
        lemma_slack_update(items.drop_last(), idx, v);
    }
}

/// How many of the first `p` entrants have a score above `s` for target `t`.
pub open spec fn count_gt_upto(ctx: Ctx, t: int, s: i64, p: nat) -> nat
    decreases p,
{
    if p == 0 {
        0
    } else {
        count_gt_upto(ctx, t, s, (p - 1) as nat) + (if score(ctx.m, ctx.axis, p - 1, t) > s {
            1nat
        } else {
            0nat
        })
    }
}

/// How many entrants could still out-bid a claim of strength `s` on `t`.
pub open spec fn count_gt(ctx: Ctx, t: int, s: i64) -> nat {
    count_gt_upto(ctx, t, s, entrant_count(ctx) as nat)
}

pub proof fn lemma_count_gt_mono(ctx: Ctx, t: int, s1: i64, s2: i64, p: nat)
    requires
        s1 <= s2,
    ensures
        count_gt_upto(ctx, t, s2, p) <= count_gt_upto(ctx, t, s1, p),
    decreases p,
{
    if p > 0 {
        lemma_count_gt_mono(ctx, t, s1, s2, (p - 1) as nat);
    }
}

/// A witness whose score lies in `(s1, s2]` makes the count strictly smaller.
pub proof fn lemma_count_gt_strict(ctx: Ctx, t: int, s1: i64, s2: i64, w: int, p: nat)
    requires
        s1 < s2,
        0 <= w < p,
        score(ctx.m, ctx.axis, w, t) > s1,
        score(ctx.m, ctx.axis, w, t) <= s2,
    ensures
        count_gt_upto(ctx, t, s2, p) < count_gt_upto(ctx, t, s1, p),
    decreases p,
{
    if w == p - 1 {
        lemma_count_gt_mono(ctx, t, s1, s2, (p - 1) as nat);
    } else {
        lemma_count_gt_strict(ctx, t, s1, s2, w, (p - 1) as nat);
    }
}

/// The potential of one target: how far its claim can still be out-bid, or a
/// fixed ceiling when it is unclaimed.
pub open spec fn target_potential(ctx: Ctx, ms: Seq<i32>, t: int) -> nat {
    if ms.contains(t as i32) {
        count_gt(ctx, t, score(ctx.m, ctx.axis, find_first(ms, t as i32), t))
    } else {
        (entrant_count(ctx) + 1) as nat
    }
}

pub open spec fn potential_upto(ctx: Ctx, ms: Seq<i32>, t: nat) -> nat
    decreases t,
{
    if t == 0 {
        0
    } else {
        potential_upto(ctx, ms, (t - 1) as nat) + target_potential(ctx, ms, t - 1)
    }
}

/// The eviction potential of an assignment: the sum over all targets of how
/// far each claim can still be out-bid.
pub open spec fn assign_potential(ctx: Ctx, ms: Seq<i32>) -> nat {
    potential_upto(ctx, ms, target_count(ctx) as nat)
}

/// Sums respect pointwise equality with one strictly smaller term.
pub proof fn lemma_potential_upto_strict(ctx: Ctx, ms1: Seq<i32>, ms2: Seq<i32>, t: nat, w: int)
    requires
        0 <= w < t,
        forall|u: int|
            0 <= u < t && u != w
                ==> #[trigger] target_potential(ctx, ms2, u) == target_potential(ctx, ms1, u),
        target_potential(ctx, ms2, w) < target_potential(ctx, ms1, w),
    ensures
        potential_upto(ctx, ms2, t) < potential_upto(ctx, ms1, t),
    decreases t,
{
    if w == t - 1 {
        lemma_potential_upto_eq(ctx, ms1, ms2, (t - 1) as nat);
    } else {
        lemma_potential_upto_strict(ctx, ms1, ms2, (t - 1) as nat, w);
    }
}

/// Sums respect pointwise equality.
pub proof fn lemma_potential_upto_eq(ctx: Ctx, ms1: Seq<i32>, ms2: Seq<i32>, t: nat)
    requires
        forall|u: int|
            0 <= u < t ==> #[trigger] target_potential(ctx, ms2, u) == target_potential(ctx, ms1, u),
    ensures
        potential_upto(ctx, ms2, t) == potential_upto(ctx, ms1, t),
    decreases t,
{
    if t > 0 {
        lemma_potential_upto_eq(ctx, ms1, ms2, (t - 1) as nat);
    }
}

/// The conditions under which one move performs an eviction.
pub open spec fn step_evicts(ctx: Ctx, st: SearchState) -> bool {
    let mi = seq_argmax(st.items);
    let mv = st.items[mi];
    &&& !st.done
    &&& !(ctx.limit && mv <= ctx.floor)
    &&& st.matches.contains(mi as i32)
    &&& mv != i64::MIN
    &&& score(ctx.m, ctx.axis, find_first(st.matches, mi as i32), mi) < mv
}

/// An eviction strictly lowers the eviction potential: the claim on the
/// contested target moves to a strictly stronger entrant.
pub proof fn lemma_evict_potential(ctx: Ctx, st: SearchState)
    requires
        ctx_wf(ctx),
        state_inv(ctx, st),
        step_evicts(ctx, st),
    ensures
        assign_potential(ctx, step(ctx, st).matches) < assign_potential(ctx, st.matches),
{
    let ms = st.matches;
    let e = st.entrant;
    let mi = seq_argmax(st.items);
    let mv = st.items[mi];
    crate::vecops::lemma_seq_argmax_props(st.items);
    assert(mi as i32 == mi);
    crate::vecops::lemma_find_first_props(ms, mi as i32);
    let j = find_first(ms, mi as i32);
    let ms2 = step(ctx, st).matches;
    assert(ms2 == ms.update(j, -1i32).update(e, mi as i32));
    assert(j != e);
    crate::model::lemma_step_inv(ctx, st);

    // The contested target's claim strictly strengthens.
    let s1 = score(ctx.m, ctx.axis, j, mi);
    let s2 = score(ctx.m, ctx.axis, e, mi);
    assert(s1 < mv);
    assert(mv <= s2);
    assert(ms2[e] == mi as i32);
    assert(ms2.contains(mi as i32));
    crate::vecops::lemma_find_first_props(ms2, mi as i32);
    let ff2 = find_first(ms2, mi as i32);
    assert(ms2[ff2] == mi as i32);
    if ff2 != e {
        assert(ff2 != j);
        assert(ms[ff2] == mi as i32);
        assert(false);
    }
    lemma_count_gt_strict(ctx, mi, s1, s2, e, entrant_count(ctx) as nat);
    assert(target_potential(ctx, ms2, mi) < target_potential(ctx, ms, mi));

    // Every other target keeps its claim and its potential.
    assert forall|u: int| 0 <= u < target_count(ctx) && u != mi
        implies #[trigger] target_potential(ctx, ms2, u) == target_potential(ctx, ms, u) by {
        assert(u as i32 != mi as i32);
        assert(u as i32 != -1i32);
        if ms.contains(u as i32) {
            crate::vecops::lemma_find_first_props(ms, u as i32);
            let h = find_first(ms, u as i32);
            assert(ms[h] == u as i32);
            assert(h != j && h != e);
            assert(ms2[h] == u as i32);
            assert(ms2.contains(u as i32));
            crate::vecops::lemma_find_first_props(ms2, u as i32);
            let h2 = find_first(ms2, u as i32);
            assert(ms2[h2] == u as i32);
            assert(h2 != j && h2 != e);
            assert(ms[h2] == u as i32);
            if h2 != h {
                assert(ms[h] != -1i32);
                assert(ms[h] != ms[h2]);
                assert(false);
            }
        } else {
            if ms2.contains(u as i32) {
                let w = choose|p: int| 0 <= p < ms2.len() && ms2[p] == u as i32;
                assert(w != j && w != e);
                assert(ms[w] == u as i32);
                assert(ms.contains(u as i32));
                assert(false);
            }
        }
    }
    lemma_potential_upto_strict(ctx, ms, ms2, target_count(ctx) as nat, mi);
}

} // verus!
