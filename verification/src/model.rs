//! The mathematical model of the matching engine.
//!
//! One search on behalf of an entrant is a sequence of small steps over a
//! `SearchState`: find the best remaining target, stop when the admission
//! cutoff rejects it, evict a weaker incumbent, or suppress the candidate and
//! look again.  `step` is one such move, `iterate` chains them, and
//! `run_matches` folds a full run over all entrants.  The executable engine
//! is proved to compute exactly these functions.

use vstd::prelude::*;

use crate::matrix::{grid_cols, grid_min, grid_nonempty, grid_rows, grid_wf, inverted};
use crate::vecops::{find_first, seq_argmax, seq_min_val};

verus! {

/// The data a run works over: the score matrix, the matched axis, the
/// admission flag and the admission floor (the smallest score in the matrix).
pub ghost struct Ctx {
    pub m: Seq<Seq<i64>>,
    pub axis: int,
    pub limit: bool,
    pub floor: i64,
}

/// Number of assignment slots: rows for axis 0, columns for axis 1.
pub open spec fn entrant_count(ctx: Ctx) -> int {
    if ctx.axis == 0 {
        grid_rows(ctx.m)
    } else {
        grid_cols(ctx.m)
    }
}

/// Number of candidate targets on the opposite axis.
pub open spec fn target_count(ctx: Ctx) -> int {
    if ctx.axis == 0 {
        grid_cols(ctx.m)
    } else {
        grid_rows(ctx.m)
    }
}

pub open spec fn ctx_wf(ctx: Ctx) -> bool {
    &&& grid_wf(ctx.m)
    &&& grid_nonempty(ctx.m)
    &&& (ctx.axis == 0 || ctx.axis == 1)
    &&& target_count(ctx) <= i32::MAX
}

/// The affinity of entrant `e` for target `t`.
pub open spec fn score(m: Seq<Seq<i64>>, axis: int, e: int, t: int) -> i64 {
    if axis == 0 {
        m[e][t]
    } else {
        m[t][e]
    }
}

/// The full score vector of entrant `e`: its row for axis 0, its column for
/// axis 1.
pub open spec fn entrant_vec(m: Seq<Seq<i64>>, axis: int, e: int) -> Seq<i64> {
    if axis == 0 {
        m[e]
    } else {
        Seq::new(m.len(), |t: int| m[t][e])
    }
}

/// The state of one recursive search: whose claim is being settled, the
/// working score vector (with suppressed candidates), the assignment so far,
/// and whether the search has come to rest.
#[verifier::ext_equal]
pub ghost struct SearchState {
    pub entrant: int,
    pub items: Seq<i64>,
    pub matches: Seq<i32>,
    pub done: bool,
}

/// A value strictly below `v` when one exists; `i64::MIN` cannot go lower.
pub open spec fn drop_value(v: i64) -> i64 {
    if v == i64::MIN {
        i64::MIN
    } else {
        (v - 1) as i64
    }
}

/// Suppress the candidate at `idx`: it is set below the vector's minimum so
/// that it ranks last in later searches.
pub open spec fn suppress(items: Seq<i64>, idx: int) -> Seq<i64> {
    items.update(idx, drop_value(seq_min_val(items)))
}

/// One move of the search.
///
/// The best remaining candidate is proposed.  If the admission cutoff is on
/// and the candidate does not beat the floor, the entrant stays unmatched.
/// If the target is free it is assigned and the search rests.  If it is held
/// by a weaker incumbent (judged by the incumbent's original score for that
/// target), the incumbent is evicted, the claim moves, and the search
/// continues on the evicted entrant's own, unsuppressed vector.  Either way a
/// contested candidate is suppressed before the search goes on.  A contested
/// candidate already at `i64::MIN` cannot be suppressed further: the search
/// stops, keeping the sentinel, rather than propose it forever.
pub open spec fn step(ctx: Ctx, st: SearchState) -> SearchState {
    if st.done {
        st
    } else {
        let mi = seq_argmax(st.items);
        let mv = st.items[mi];
        if ctx.limit && mv <= ctx.floor {
            SearchState { done: true, ..st }
        } else if st.matches.contains(mi as i32) {
            if mv == i64::MIN {
                SearchState { done: true, ..st }
            } else {
                let j = find_first(st.matches, mi as i32);
                let dup = score(ctx.m, ctx.axis, j, mi);
                if dup < mv {
                    SearchState {
                        entrant: j,
                        items: suppress(entrant_vec(ctx.m, ctx.axis, j), mi),
                        matches: st.matches.update(j, -1i32).update(st.entrant, mi as i32),
                        done: false,
                    }
                } else {
                    SearchState { items: suppress(st.items, mi), ..st }
                }
            }
        } else {
            SearchState { matches: st.matches.update(st.entrant, mi as i32), done: true, ..st }
        }
    }
}

/// `k` moves of the search; a finished search does not move again.
pub open spec fn iterate(ctx: Ctx, st: SearchState, k: nat) -> SearchState
    decreases k,
{
    if k == 0 {
        st
    } else {
        step(ctx, iterate(ctx, st, (k - 1) as nat))
    }
}

pub open spec fn search_terminates(ctx: Ctx, st: SearchState) -> bool {
    exists|k: nat| (#[trigger] iterate(ctx, st, k)).done
}

/// The state the search comes to rest in.
pub open spec fn search_result(ctx: Ctx, st: SearchState) -> SearchState {
    iterate(ctx, st, choose|k: nat| (#[trigger] iterate(ctx, st, k)).done)
}

/// A finished search stays exactly where it is.
pub proof fn lemma_done_stable(ctx: Ctx, st: SearchState, k1: nat, k2: nat)
    requires
        k1 <= k2,
        iterate(ctx, st, k1).done,
    ensures
        iterate(ctx, st, k2) == iterate(ctx, st, k1),
    decreases k2,
{
    if k2 > k1 {
        lemma_done_stable(ctx, st, k1, (k2 - 1) as nat);
    }
}

/// Any number of moves that reaches rest identifies the search result.
pub proof fn lemma_search_result_from(ctx: Ctx, st: SearchState, k: nat)
    requires
        iterate(ctx, st, k).done,
    ensures
        search_terminates(ctx, st),
        search_result(ctx, st) == iterate(ctx, st, k),
{
    let kk = choose|q: nat| (#[trigger] iterate(ctx, st, q)).done;
    if kk <= k {
        lemma_done_stable(ctx, st, kk, k);
    } else {
        lemma_done_stable(ctx, st, k, kk);
    }
}

/// Well-formed assignment vector: one slot per entrant, every non-sentinel
/// value a valid target, and no target claimed twice.
pub open spec fn matches_wf(ctx: Ctx, ms: Seq<i32>) -> bool {
    &&& ms.len() == entrant_count(ctx)
    &&& (forall|p: int| 0 <= p < ms.len() ==> (#[trigger] ms[p]) == -1i32 || (0 <= ms[p] < target_count(ctx)))
    &&& (forall|p: int, q: int|
        0 <= p < ms.len() && 0 <= q < ms.len() && p != q && #[trigger] ms[p] != -1i32
            ==> ms[p] != #[trigger] ms[q])
}

/// Invariant of every reachable search state.  The working vector never rises
/// above the entrant's original scores, and an unfinished search is on behalf
/// of an entrant whose slot is open.
pub open spec fn state_inv(ctx: Ctx, st: SearchState) -> bool {
    &&& matches_wf(ctx, st.matches)
    &&& 0 <= st.entrant < entrant_count(ctx)
    &&& st.items.len() == target_count(ctx)
    &&& (forall|t: int|
        0 <= t < st.items.len()
            ==> #[trigger] st.items[t] <= score(ctx.m, ctx.axis, st.entrant, t))
    &&& (!st.done ==> st.matches[st.entrant] == -1i32)
}

/// Only entrants at or below `b` hold a claim.
pub open spec fn matches_below(ms: Seq<i32>, b: int) -> bool {
    forall|p: int| 0 <= p < ms.len() && #[trigger] ms[p] != -1i32 ==> p <= b
}

/// The entrant vector has one slot per target and equals the original scores.
pub proof fn lemma_entrant_vec_props(ctx: Ctx, e: int)
    requires
        ctx_wf(ctx),
        0 <= e < entrant_count(ctx),
    ensures
        entrant_vec(ctx.m, ctx.axis, e).len() == target_count(ctx),
        forall|t: int|
            0 <= t < target_count(ctx)
                ==> #[trigger] entrant_vec(ctx.m, ctx.axis, e)[t] == score(ctx.m, ctx.axis, e, t),
{
}

/// One move preserves the state invariant.
pub proof fn lemma_step_inv(ctx: Ctx, st: SearchState)
    requires
        ctx_wf(ctx),
        state_inv(ctx, st),
    ensures
        state_inv(ctx, step(ctx, st)),
{
    if !st.done {
        let mi = seq_argmax(st.items);
        let mv = st.items[mi];
        crate::vecops::lemma_seq_argmax_props(st.items);
        assert(0 <= mi < target_count(ctx));
        assert(mi as i32 == mi);
        if ctx.limit && mv <= ctx.floor {
        } else if st.matches.contains(mi as i32) {
            if mv == i64::MIN {
            } else {
                crate::vecops::lemma_find_first_props(st.matches, mi as i32);
                let j = find_first(st.matches, mi as i32);
                assert(st.matches[j] == mi as i32);
                assert(j != st.entrant);
                let dup = score(ctx.m, ctx.axis, j, mi);
                crate::vecops::lemma_seq_min_val_props(st.items);
                if dup < mv {
                    lemma_entrant_vec_props(ctx, j);
                    let base = entrant_vec(ctx.m, ctx.axis, j);
                    crate::vecops::lemma_seq_min_val_props(base);
                    let st2 = step(ctx, st);
                    assert(st2.matches.len() == entrant_count(ctx));
                    assert forall|t: int| 0 <= t < st2.items.len()
                        implies #[trigger] st2.items[t] <= score(ctx.m, ctx.axis, j, t) by {
                        if t == mi {
                            assert(drop_value(seq_min_val(base)) <= seq_min_val(base));
                            assert(seq_min_val(base) <= base[mi]);
                        }
                    }
                    assert(st2.matches[j] == -1i32);
                    assert forall|p: int, q: int|
                        0 <= p < st2.matches.len() && 0 <= q < st2.matches.len() && p != q
                            && #[trigger] st2.matches[p] != -1i32
                        implies st2.matches[p] != #[trigger] st2.matches[q] by {
                        if p == st.entrant {
                            if st2.matches[q] == mi as i32 {
                                assert(q != j);
                                assert(st.matches[q] == mi as i32);
                            }
                        } else if q == st.entrant {
                            if st2.matches[p] == mi as i32 {
                                assert(st.matches[p] == mi as i32);
                            }
                        } else if p == j {
                            assert(st2.matches[p] == -1i32);
                        } else if q == j {
                            assert(st2.matches[q] == -1i32);
                        } else {
                            assert(st2.matches[p] == st.matches[p]);
                            assert(st2.matches[q] == st.matches[q]);
                        }
                    }
                } else {
                    let st2 = step(ctx, st);
                    assert forall|t: int| 0 <= t < st2.items.len()
                        implies #[trigger] st2.items[t] <= score(ctx.m, ctx.axis, st.entrant, t) by {
                        if t == mi {
                            assert(drop_value(seq_min_val(st.items)) <= seq_min_val(st.items));
                            assert(seq_min_val(st.items) <= st.items[mi]);
                        }
                    }
                }
            }
        } else {
            let st2 = step(ctx, st);
            assert forall|p: int, q: int|
                0 <= p < st2.matches.len() && 0 <= q < st2.matches.len() && p != q
                    && #[trigger] st2.matches[p] != -1i32
                implies st2.matches[p] != #[trigger] st2.matches[q] by {
                if p == st.entrant {
                    assert(st.matches[q] == st2.matches[q]);
                    if st2.matches[q] == mi as i32 {
                        assert(st.matches.contains(mi as i32));
                    }
                } else if q == st.entrant {
                    if st2.matches[p] == mi as i32 {
                        assert(st.matches.contains(mi as i32));
                    }
                }
            }
        }
    }
}

/// One move never hands a claim to an entrant above the bound.
pub proof fn lemma_step_bound(ctx: Ctx, st: SearchState, b: int)
    requires
        ctx_wf(ctx),
        state_inv(ctx, st),
        matches_below(st.matches, b),
        st.entrant <= b,
    ensures
        matches_below(step(ctx, st).matches, b),
        step(ctx, st).entrant <= b,
{
    if !st.done {
        let mi = seq_argmax(st.items);
        crate::vecops::lemma_seq_argmax_props(st.items);
        assert(mi as i32 == mi);
        if st.matches.contains(mi as i32) && !(ctx.limit && st.items[mi] <= ctx.floor)
            && st.items[mi] != i64::MIN {
            crate::vecops::lemma_find_first_props(st.matches, mi as i32);
        }
    }
}

/// The invariant holds after any number of moves.
pub proof fn lemma_iterate_inv(ctx: Ctx, st: SearchState, k: nat)
    requires
        ctx_wf(ctx),
        state_inv(ctx, st),
    ensures
        state_inv(ctx, iterate(ctx, st, k)),
    decreases k,
{
    if k > 0 {
        lemma_iterate_inv(ctx, st, (k - 1) as nat);
        lemma_step_inv(ctx, iterate(ctx, st, (k - 1) as nat));
    }
}

/// The bound holds after any number of moves.
pub proof fn lemma_iterate_bound(ctx: Ctx, st: SearchState, k: nat, b: int)
    requires
        ctx_wf(ctx),
        state_inv(ctx, st),
        matches_below(st.matches, b),
        st.entrant <= b,
    ensures
        matches_below(iterate(ctx, st, k).matches, b),
        iterate(ctx, st, k).entrant <= b,
    decreases k,
{
    if k > 0 {
        lemma_iterate_bound(ctx, st, (k - 1) as nat, b);
        lemma_iterate_inv(ctx, st, (k - 1) as nat);
        lemma_step_bound(ctx, iterate(ctx, st, (k - 1) as nat), b);
    }
}

/// The all-sentinel assignment vector.
pub open spec fn unmatched(n: nat) -> Seq<i32> {
    Seq::new(n, |p: int| -1i32)
}

/// A search state that has not yet come to rest.
pub open spec fn start_state(e: int, items: Seq<i64>, ms: Seq<i32>) -> SearchState {
    SearchState { entrant: e, items: items, matches: ms, done: false }
}

/// The state a fresh search for entrant `e` starts from.
pub open spec fn initial_state(ctx: Ctx, e: int, ms: Seq<i32>) -> SearchState {
    start_state(e, entrant_vec(ctx.m, ctx.axis, e), ms)
}

/// The assignment after the first `k` entrants have been searched.
pub open spec fn run_matches(ctx: Ctx, k: nat) -> Seq<i32>
    decreases k,
{
    if k == 0 {
        unmatched(entrant_count(ctx) as nat)
    } else {
        search_result(ctx, initial_state(ctx, (k - 1) as int, run_matches(ctx, (k - 1) as nat))).matches
    }
}

/// Every one of the first `k` searches comes to rest.
pub open spec fn run_terminates(ctx: Ctx, k: nat) -> bool
    decreases k,
{
    k == 0 || (run_terminates(ctx, (k - 1) as nat)
        && search_terminates(ctx, initial_state(ctx, (k - 1) as int, run_matches(ctx, (k - 1) as nat))))
}

/// The context a public run works in: the possibly inverted matrix, with the
/// admission floor fixed at its global minimum.
pub open spec fn match_ctx(m: Seq<Seq<i64>>, axis: int, limit: bool, minimum: bool) -> Ctx {
    let m2 = if minimum {
        inverted(m)
    } else {
        m
    };
    Ctx { m: m2, axis, limit, floor: grid_min(m2) }
}

/// The assignment a full run yields.
pub open spec fn matching_of(m: Seq<Seq<i64>>, axis: int, limit: bool, minimum: bool) -> Seq<i32> {
    let ctx = match_ctx(m, axis, limit, minimum);
    run_matches(ctx, entrant_count(ctx) as nat)
}

/// The full run comes to rest.
pub open spec fn matching_completes(m: Seq<Seq<i64>>, axis: int, limit: bool, minimum: bool) -> bool {
    let ctx = match_ctx(m, axis, limit, minimum);
    run_terminates(ctx, entrant_count(ctx) as nat)
}

/// After `k` searches the assignment is well formed and every entrant not yet
/// visited is still unmatched.
pub proof fn lemma_run_matches_wf(ctx: Ctx, k: nat)
    requires
        ctx_wf(ctx),
        k <= entrant_count(ctx),
    ensures
        matches_wf(ctx, run_matches(ctx, k)),
        forall|p: int|
            k <= p < entrant_count(ctx) ==> #[trigger] run_matches(ctx, k)[p] == -1i32,
    decreases k,
{
    if k == 0 {
        assert(matches_wf(ctx, unmatched(entrant_count(ctx) as nat)));
    } else {
        lemma_run_matches_wf(ctx, (k - 1) as nat);
        let ms = run_matches(ctx, (k - 1) as nat);
        let st0 = initial_state(ctx, (k - 1) as int, ms);
        lemma_entrant_vec_props(ctx, (k - 1) as int);
        assert(state_inv(ctx, st0));
        let kk = choose|q: nat| (#[trigger] iterate(ctx, st0, q)).done;
        lemma_iterate_inv(ctx, st0, kk);
        lemma_iterate_bound(ctx, st0, kk, (k - 1) as int);
        assert(run_matches(ctx, k) == iterate(ctx, st0, kk).matches);
    }
}

} // verus!
