//! The executable matching engine.
//!
//! `Matcher` owns a copy of the score matrix, the admission floor (the
//! matrix-wide minimum), the admission flag, and the assignment vector.  Its
//! search loop is proved to compute exactly the `step`/`iterate` model of
//! `crate::model`, and to come to rest on every input: each pass either
//! finishes, strictly lowers the eviction potential, or strictly lowers the
//! working vector's headroom.

use vstd::prelude::*;

use crate::matrix::{grid_cols, grid_min, grid_nonempty, grid_rows, grid_wf, Matrix};
use crate::model::{
    ctx_wf, entrant_count, entrant_vec, initial_state, iterate, lemma_entrant_vec_props,
    lemma_run_matches_wf, lemma_search_result_from, lemma_step_inv, run_matches, run_terminates,
    score, search_result, search_terminates, start_state, state_inv, step, suppress,
    target_count, unmatched, Ctx, SearchState,
};
use crate::progress::{
    assign_potential, lemma_evict_potential, lemma_slack_update, slack, step_evicts,
};
use crate::vecops::{
    argmax_vec, find_position, lemma_find_first_props, lemma_seq_argmax_props,
    lemma_seq_min_val_props, min_val_vec, seq_argmax,
};

verus! {

/// The affinity of entrant `e` for target `t`, read from the matrix.
fn score_of(m: &Matrix, axis: usize, e: usize, t: usize) -> (v: i64)
    requires
        m.wf(),
        grid_wf(m@),
        grid_nonempty(m@),
        axis <= 1,
        axis == 0 ==> e < grid_rows(m@) && t < grid_cols(m@),
        axis == 1 ==> t < grid_rows(m@) && e < grid_cols(m@),
    ensures
        v == score(m@, axis as int, e as int, t as int),
{
    if axis == 0 {
        proof {
            assert(m@[e as int].len() == m@[0].len());
        }
        m.get(e, t)
    } else {
        proof {
            assert(m@[t as int].len() == m@[0].len());
        }
        m.get(t, e)
    }
}

/// The full score vector of entrant `e`: its row for axis 0, its column for
/// axis 1, copied out of the matrix.
fn entrant_vector(m: &Matrix, axis: usize, e: usize) -> (r: Vec<i64>)
    requires
        m.wf(),
        grid_wf(m@),
        grid_nonempty(m@),
        axis <= 1,
        axis == 0 ==> e < grid_rows(m@),
        axis == 1 ==> e < grid_cols(m@),
    ensures
        r@ == entrant_vec(m@, axis as int, e as int),
{
    let mut r: Vec<i64> = Vec::new();
    if axis == 0 {
        let n = m.cols();
        proof {
            assert(m@[e as int].len() == m@[0].len());
        }
        let mut t: usize = 0;
        while t < n
            invariant
                m.wf(),
                grid_wf(m@),
                e < m@.len(),
                m@[e as int].len() == grid_cols(m@),
                n == grid_cols(m@),
                0 <= t <= n,
                r@.len() == t,
                forall|u: int| 0 <= u < t ==> #[trigger] r@[u] == m@[e as int][u],
            decreases n - t,
        {
            r.push(m.get(e, t));
            t = t + 1;
        }
        proof {
            assert(r@ =~= entrant_vec(m@, 0, e as int));
        }
    } else {
        let n = m.rows();
        let mut t: usize = 0;
        while t < n
            invariant
                m.wf(),
                grid_wf(m@),
                grid_nonempty(m@),
                e < grid_cols(m@),
                n == m@.len(),
                0 <= t <= n,
                r@.len() == t,
                forall|u: int| 0 <= u < t ==> #[trigger] r@[u] == m@[u][e as int],
            decreases n - t,
        {
            proof {
                assert(m@[t as int].len() == m@[0].len());
            }
            r.push(m.get(t, e));
            t = t + 1;
        }
        proof {
            assert(r@ =~= entrant_vec(m@, 1, e as int));
        }
    }
    r
}

/// The matching engine.
pub struct Matcher {
    matrix: Matrix,
    axis: usize,
    min_value: i64,
    limit: bool,
    matches: Vec<i32>,
}

impl Matcher {
    /// The model context this engine runs in.
    pub closed spec fn ctx(&self) -> Ctx {
        Ctx { m: self.matrix@, axis: self.axis as int, limit: self.limit, floor: self.min_value }
    }

    /// The assignment vector as a sequence.
    pub closed spec fn matches_seq(&self) -> Seq<i32> {
        self.matches@
    }

    pub closed spec fn wf(&self) -> bool {
        &&& self.matrix.wf()
        &&& ctx_wf(self.ctx())
        &&& self.min_value == grid_min(self.matrix@)
    }

    /// Builds an engine for `matrix`: the admission floor is the smallest
    /// score in the matrix, and every slot starts unmatched.
    pub fn new(matrix: &Matrix, axis: usize, limit: bool) -> (r: Matcher)
        requires
            matrix.wf(),
            grid_wf(matrix@),
            grid_nonempty(matrix@),
            axis <= 1,
            (if axis == 0 {
                grid_cols(matrix@)
            } else {
                grid_rows(matrix@)
            }) <= i32::MAX,
        ensures
            r.wf(),
            r.ctx() == (Ctx {
                m: matrix@,
                axis: axis as int,
                limit,
                floor: grid_min(matrix@),
            }),
            r.matches_seq() == unmatched(entrant_count(r.ctx()) as nat),
    {
        let min_value = matrix.min_entry();
        let end = if axis == 0 {
            matrix.rows()
        } else {
            matrix.cols()
        };
        let mut matches: Vec<i32> = Vec::new();
        let mut i: usize = 0;
        while i < end
            invariant
                0 <= i <= end,
                matches@.len() == i,
                forall|p: int| 0 <= p < i ==> #[trigger] matches@[p] == -1i32,
            decreases end - i,
        {
            matches.push(-1);
            i = i + 1;
        }
        let r = Matcher { matrix: matrix.duplicate(), axis, min_value, limit, matches };
        proof {
            assert(r.matches_seq() =~= unmatched(entrant_count(r.ctx()) as nat));
        }
        r
    }

    /// Hands out the assignment vector; `-1` marks an unmatched entrant.
    pub fn get_matches(self) -> (r: Vec<i32>)
        ensures
            r@ == self.matches_seq(),
    {
        self.matches
    }

    /// Settles the claim of entrant `i`, searching over `items`.
    ///
    /// The loop computes exactly the model's `iterate` chain from the given
    /// start state, and is proved to come to rest: every pass that does not
    /// finish strictly decreases (eviction potential, vector headroom).
    #[verifier::loop_isolation(false)]
    fn rematch(&mut self, i: usize, items: Vec<i64>)
        requires
            old(self).wf(),
            state_inv(old(self).ctx(), start_state(i as int, items@, old(self).matches_seq())),
        ensures
            final(self).wf(),
            final(self).ctx() == old(self).ctx(),
            search_terminates(
                old(self).ctx(),
                start_state(i as int, items@, old(self).matches_seq()),
            ),
            final(self).matches_seq() == search_result(
                old(self).ctx(),
                start_state(i as int, items@, old(self).matches_seq()),
            ).matches,
    {
        let ghost ctx = self.ctx();
        let ghost st0 = start_state(i as int, items@, self.matches@);
        let mut cur: usize = i;
        let mut items = items;
        let ghost mut k: nat = 0;
        loop
            invariant
                self.wf(),
                self.ctx() == ctx,
                cur < entrant_count(ctx),
                iterate(ctx, st0, k) == (start_state(cur as int, items@, self.matches@)),
                state_inv(ctx, (start_state(cur as int, items@, self.matches@))),
            decreases assign_potential(ctx, self.matches@), slack(items@),
        {
            let ghost pre = start_state(cur as int, items@, self.matches@);
            proof {
                assert(items@.len() == target_count(ctx));
            }
            let mi = argmax_vec(&items);
            proof {
                lemma_seq_argmax_props(items@);
                assert(mi as int == seq_argmax(pre.items));
                assert(mi as i32 == mi as int);
            }
            let mv = items[mi];
            if self.limit && mv <= self.min_value {
                proof {
                    assert(step(ctx, pre) == (SearchState { done: true, ..pre }));
                    assert(iterate(ctx, st0, k + 1) == step(ctx, pre));
                    lemma_search_result_from(ctx, st0, k + 1);
                }
                return;
            }
            match find_position(&self.matches, mi as i32) {
                Some(j) => {
                    proof {
                        lemma_find_first_props(self.matches@, mi as i32);
                    }
                    if mv == i64::MIN {
                        proof {
                            assert(step(ctx, pre) == (SearchState { done: true, ..pre }));
                            assert(iterate(ctx, st0, k + 1) == step(ctx, pre));
                            lemma_search_result_from(ctx, st0, k + 1);
                        }
                        return;
                    }
                    let dup = score_of(&self.matrix, self.axis, j, mi);
                    let ghost evicting = dup < mv;
                    if dup < mv {
                        self.matches.set(j, -1);
                        self.matches.set(cur, mi as i32);
                        items = entrant_vector(&self.matrix, self.axis, j);
                        cur = j;
                    }
                    let mn = min_val_vec(&items);
                    let sv = if mn == i64::MIN {
                        i64::MIN
                    } else {
                        mn - 1
                    };
                    let ghost mid_items = items@;
                    items.set(mi, sv);
                    proof {
                        assert(items@ == suppress(mid_items, mi as int));
                        if evicting {
                            assert(mid_items == entrant_vec(ctx.m, ctx.axis, j as int));
                            assert(step(ctx, pre) == (start_state(cur as int, items@, self.matches@)));
                            assert(step_evicts(ctx, pre));
                            lemma_evict_potential(ctx, pre);
                        } else {
                            assert(mid_items == pre.items);
                            assert(step(ctx, pre) == (start_state(cur as int, items@, self.matches@)));
                            lemma_seq_min_val_props(pre.items);
                            assert(sv < pre.items[mi as int]);
                            lemma_slack_update(pre.items, mi as int, sv);
                        }
                        lemma_step_inv(ctx, pre);
                        assert(iterate(ctx, st0, k + 1) == step(ctx, pre));
                        k = k + 1;
                    }
                }
                None => {
                    self.matches.set(cur, mi as i32);
                    proof {
                        assert(step(ctx, pre) == (SearchState {
                            matches: pre.matches.update(pre.entrant, mi as i32),
                            done: true,
                            ..pre
                        }));
                        assert(self.matches@ == step(ctx, pre).matches);
                        assert(iterate(ctx, st0, k + 1) == step(ctx, pre));
                        lemma_search_result_from(ctx, st0, k + 1);
                    }
                    return;
                }
            }
        }
    }

    /// Runs the matching across the whole matrix: every entrant index is
    /// visited once, in ascending order, as the starting point of a search.
    #[verifier::loop_isolation(false)]
    pub fn run(&mut self)
        requires
            old(self).wf(),
            old(self).matches_seq() == unmatched(entrant_count(old(self).ctx()) as nat),
        ensures
            final(self).wf(),
            final(self).ctx() == old(self).ctx(),
            run_terminates(old(self).ctx(), entrant_count(old(self).ctx()) as nat),
            final(self).matches_seq() == run_matches(
                old(self).ctx(),
                entrant_count(old(self).ctx()) as nat,
            ),
    {
        let ghost ctx = self.ctx();
        let end = if self.axis == 0 {
            self.matrix.rows()
        } else {
            self.matrix.cols()
        };
        proof {
            assert(end as int == entrant_count(ctx));
            assert(self.matches@ =~= run_matches(ctx, 0));
        }
        let mut i: usize = 0;
        while i < end
            invariant
                self.wf(),
                self.ctx() == ctx,
                0 <= i <= end,
                end as int == entrant_count(ctx),
                self.matches@ == run_matches(ctx, i as nat),
                run_terminates(ctx, i as nat),
            decreases end - i,
        {
            proof {
                lemma_run_matches_wf(ctx, i as nat);
                lemma_entrant_vec_props(ctx, i as int);
            }
            let items = entrant_vector(&self.matrix, self.axis, i);
            proof {
                assert(state_inv(ctx, (start_state(i as int, items@, self.matches@))));
                assert((start_state(i as int, items@, self.matches@)) == initial_state(
                    ctx,
                    i as int,
                    run_matches(ctx, i as nat),
                ));
            }
            self.rematch(i, items);
            proof {
                assert(run_matches(ctx, (i + 1) as nat) == search_result(
                    ctx,
                    initial_state(ctx, i as int, run_matches(ctx, i as nat)),
                ).matches);
            }
            i = i + 1;
        }
    }
}

} // verus!
