//! Properties of the matching algorithm, stated and proved once and for all.

use vstd::prelude::*;

use crate::matrix::inverted;
use crate::model::{
    ctx_wf, entrant_count, entrant_vec, initial_state, iterate, lemma_entrant_vec_props,
    lemma_search_result_from, matching_of, run_matches, run_terminates, score, state_inv, step,
    Ctx, SearchState,
};
use crate::progress::step_evicts;
use crate::vecops::{find_first, seq_argmax};

verus! {

/// Determinism: the assignment of a completed run is a function of the
/// matrix and the flags alone, so two runs on identical input agree.
pub proof fn lemma_deterministic(
    m: Seq<Seq<i64>>,
    axis: int,
    limit: bool,
    minimum: bool,
    r1: Seq<i32>,
    r2: Seq<i32>,
)
    requires
        r1 == matching_of(m, axis, limit, minimum),
        r2 == matching_of(m, axis, limit, minimum),
    ensures
        r1 == r2,
{
}

/// Minimum inversion: a run with `minimum` set equals a plain run on the
/// matrix inverted around its maximum.
pub proof fn lemma_minimum_inversion(m: Seq<Seq<i64>>, axis: int, limit: bool)
    ensures
        matching_of(m, axis, limit, true) == matching_of(inverted(m), axis, limit, false),
{
}

/// Monotonicity of eviction: whenever a move evicts an incumbent, the
/// contender's own, original affinity for the contested target is strictly
/// greater than the incumbent's.
pub proof fn lemma_eviction_monotonic(ctx: Ctx, st: SearchState)
    requires
        ctx_wf(ctx),
        state_inv(ctx, st),
        step_evicts(ctx, st),
    ensures
        ({
            let mi = seq_argmax(st.items);
            let j = find_first(st.matches, mi as i32);
            score(ctx.m, ctx.axis, j, mi) < score(ctx.m, ctx.axis, st.entrant, mi)
        }),
{
    crate::vecops::lemma_seq_argmax_props(st.items);
}

/// The per-entrant argmax assignment, the result of a run without conflicts.
pub open spec fn argmax_assignment(ctx: Ctx) -> Seq<i32> {
    Seq::new(
        entrant_count(ctx) as nat,
        |e: int| seq_argmax(entrant_vec(ctx.m, ctx.axis, e)) as i32,
    )
}

/// No two entrants prefer the same target.
pub open spec fn distinct_argmaxes(ctx: Ctx) -> bool {
    forall|a: int, b: int|
        0 <= a < entrant_count(ctx) && 0 <= b < entrant_count(ctx) && a != b
            ==> seq_argmax(#[trigger] entrant_vec(ctx.m, ctx.axis, a))
                != seq_argmax(#[trigger] entrant_vec(ctx.m, ctx.axis, b))
}

/// Every entrant's best score clears the admission floor.
pub open spec fn maxima_admitted(ctx: Ctx) -> bool {
    forall|e: int|
        0 <= e < entrant_count(ctx)
            ==> (#[trigger] entrant_vec(ctx.m, ctx.axis, e))[seq_argmax(
                entrant_vec(ctx.m, ctx.axis, e),
            )] > ctx.floor
}

proof fn lemma_no_conflict_prefix(ctx: Ctx, k: nat)
    requires
        ctx_wf(ctx),
        distinct_argmaxes(ctx),
        ctx.limit ==> maxima_admitted(ctx),
        k <= entrant_count(ctx),
    ensures
        run_terminates(ctx, k),
        run_matches(ctx, k) == Seq::new(
            entrant_count(ctx) as nat,
            |e: int| if e < k {
                seq_argmax(entrant_vec(ctx.m, ctx.axis, e)) as i32
            } else {
                -1i32
            },
        ),
        forall|e: int|
            0 <= e < k ==> (#[trigger] iterate(
                ctx,
                initial_state(ctx, e, run_matches(ctx, e as nat)),
                1,
            )).done,
    decreases k,
{
    let pattern = |kk: int| Seq::new(
        entrant_count(ctx) as nat,
        |e: int| if e < kk {
            seq_argmax(entrant_vec(ctx.m, ctx.axis, e)) as i32
        } else {
            -1i32
        },
    );
    if k == 0 {
        assert(run_matches(ctx, 0) =~= pattern(0));
    } else {
        lemma_no_conflict_prefix(ctx, (k - 1) as nat);
        let e = (k - 1) as int;
        let ms = run_matches(ctx, (k - 1) as nat);
        let st0 = initial_state(ctx, e, ms);
        lemma_entrant_vec_props(ctx, e);
        let items = entrant_vec(ctx.m, ctx.axis, e);
        crate::vecops::lemma_seq_argmax_props(items);
        let mi = seq_argmax(items);
        assert(mi as i32 == mi);
        assert forall|p: int| 0 <= p < ms.len() implies ms[p] != mi as i32 by {
            if p < e {
                let other = seq_argmax(entrant_vec(ctx.m, ctx.axis, p));
                assert(ms[p] == other as i32);
                lemma_entrant_vec_props(ctx, p);
                crate::vecops::lemma_seq_argmax_props(entrant_vec(ctx.m, ctx.axis, p));
                assert(other as i32 == other);
                assert(other != mi);
            } else {
                assert(ms[p] == -1i32);
            }
        }
        assert(!ms.contains(mi as i32));
        if ctx.limit {
            assert(items[mi] > ctx.floor);
        }
        assert(step(ctx, st0) == (SearchState {
            matches: ms.update(e, mi as i32),
            done: true,
            ..st0
        }));
        assert(iterate(ctx, st0, 0) == st0);
        assert(iterate(ctx, st0, 1) == step(ctx, st0));
        lemma_search_result_from(ctx, st0, 1);
        assert(run_matches(ctx, k) == ms.update(e, mi as i32));
        assert(run_matches(ctx, k) =~= pattern(k as int));
    }
}

/// Idempotence under no-conflict input: when every entrant's best target is
/// distinct (and, with the admission cutoff on, every best score clears the
/// floor), the run yields exactly the per-entrant argmax assignment, and
/// every search comes to rest after a single move — no eviction occurs.
pub proof fn lemma_no_conflict_run(ctx: Ctx)
    requires
        ctx_wf(ctx),
        distinct_argmaxes(ctx),
        ctx.limit ==> maxima_admitted(ctx),
    ensures
        run_terminates(ctx, entrant_count(ctx) as nat),
        run_matches(ctx, entrant_count(ctx) as nat) == argmax_assignment(ctx),
        forall|e: int|
            0 <= e < entrant_count(ctx) ==> (#[trigger] iterate(
                ctx,
                initial_state(ctx, e, run_matches(ctx, e as nat)),
                1,
            )).done,
{
    lemma_no_conflict_prefix(ctx, entrant_count(ctx) as nat);
    assert(run_matches(ctx, entrant_count(ctx) as nat) =~= argmax_assignment(ctx));
}

} // verus!
