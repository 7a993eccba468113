//! A greedy, recursive matching engine.
//!
//! The crate turns a dense matrix of pairwise affinity scores into a partial
//! one-to-one assignment between the entries of a chosen axis and the entries
//! of the opposite axis.  Conflicts over a target are resolved by mutual best
//! response: the contender with the strictly greater affinity keeps the
//! target and the loser searches again.

use vstd::prelude::*;

pub mod engine;
pub mod laws;
pub mod matrix;
pub mod model;
pub mod progress;
pub mod vecops;

pub use engine::Matcher;
pub use matrix::Matrix;

verus! {

use crate::matrix::{grid_cols, grid_max, grid_nonempty, grid_rows, grid_wf, inverted};
use crate::model::{
    entrant_count, lemma_run_matches_wf, match_ctx, matches_wf, matching_completes, matching_of,
};

/// Why a run was refused.
#[derive(Clone, Copy, Debug, PartialEq, Eq, Structural)]
pub enum MatchError {
    /// The axis was neither 0 nor 1.
    InvalidArgument,
    /// The matrix holds no scores, so its extrema are undefined.
    EmptyInput,
}

/// Runs the matching algorithm and yields the assignment vector.
///
/// `axis` selects which axis receives one assignment slot per entry: rows for
/// 0, columns for 1; any other value is refused.  An empty matrix is refused,
/// since its extrema are undefined.  With `limit` set, a candidate must beat
/// the matrix-wide minimum to be admitted.  With `minimum` set, the matrix is
/// first inverted in place around its maximum, so that the smallest scores
/// win; the caller sees the inverted matrix afterwards.
///
/// On success the result has one slot per entrant; each slot holds the index
/// of the matched target on the opposite axis, or `-1` for "no match".  No
/// target is ever assigned to two entrants.
pub fn recursive_match(matrix: &mut Matrix, axis: usize, limit: bool, minimum: bool) -> (r:
    Result<Vec<i32>, MatchError>)
    requires
        old(matrix).wf(),
        grid_wf(old(matrix)@),
        axis <= 1 && grid_nonempty(old(matrix)@) ==> (if axis == 0 {
            grid_cols(old(matrix)@)
        } else {
            grid_rows(old(matrix)@)
        }) <= i32::MAX,
        minimum && axis <= 1 && grid_nonempty(old(matrix)@) ==> (forall|rr: int, cc: int|
            0 <= rr < old(matrix)@.len() && 0 <= cc < old(matrix)@[rr].len()
                ==> grid_max(old(matrix)@) - #[trigger] old(matrix)@[rr][cc] <= i64::MAX),
    ensures
        final(matrix).wf(),
        grid_wf(final(matrix)@),
        axis > 1 ==> r == Err::<Vec<i32>, MatchError>(MatchError::InvalidArgument)
            && final(matrix)@ == old(matrix)@,
        axis <= 1 && !grid_nonempty(old(matrix)@)
            ==> r == Err::<Vec<i32>, MatchError>(MatchError::EmptyInput)
            && final(matrix)@ == old(matrix)@,
        axis <= 1 && grid_nonempty(old(matrix)@) ==> (r matches Ok(v) && v@ == matching_of(
            old(matrix)@,
            axis as int,
            limit,
            minimum,
        ) && matching_completes(old(matrix)@, axis as int, limit, minimum) && final(matrix)@ == (
        if minimum {
            inverted(old(matrix)@)
        } else {
            old(matrix)@
        })),
        r matches Ok(v) ==> v@.len() == (if axis == 0 {
            grid_rows(old(matrix)@)
        } else {
            grid_cols(old(matrix)@)
        }),
        r matches Ok(v) ==> (forall|p: int|
            0 <= p < v@.len() ==> (#[trigger] v@[p]) == -1i32 || (0 <= v@[p] < (if axis == 0 {
                grid_cols(old(matrix)@)
            } else {
                grid_rows(old(matrix)@)
            }))),
        r matches Ok(v) ==> (forall|p: int, q: int|
            0 <= p < v@.len() && 0 <= q < v@.len() && p != q && #[trigger] v@[p] != -1i32
                ==> v@[p] != #[trigger] v@[q]),
{
    if axis != 0 && axis != 1 {
        return Err(MatchError::InvalidArgument);
    }
    if matrix.rows() == 0 || matrix.cols() == 0 {
        proof {
            assert(!grid_nonempty(matrix@));
        }
        return Err(MatchError::EmptyInput);
    }
    proof {
        assert(grid_nonempty(matrix@));
    }
    if minimum {
        matrix.invert();
        proof {
            assert(inverted(old(matrix)@).len() == old(matrix)@.len());
            assert(inverted(old(matrix)@)[0].len() == old(matrix)@[0].len());
        }
    }
    let matcher = Matcher::new(matrix, axis, limit);
    let ghost ctx = matcher.ctx();
    proof {
        assert(ctx == match_ctx(old(matrix)@, axis as int, limit, minimum));
    }
    let mut matcher = matcher;
    matcher.run();
    let out = matcher.get_matches();
    proof {
        lemma_run_matches_wf(ctx, entrant_count(ctx) as nat);
        assert(matches_wf(ctx, out@));
    }
    Ok(out)
}

} // verus!
