//! Searching and scanning of score vectors.
//!
//! The matching engine works on vectors of `i64` scores.  These helpers find
//! the position of the maximum (lowest index wins on ties, which makes the
//! engine deterministic), the minimum value, and the first position holding a
//! given assignment value.

use vstd::prelude::*;

verus! {

/// Position of the maximum value of `s`; on ties the lowest index wins.
pub open spec fn seq_argmax(s: Seq<i64>) -> int
    decreases s.len(),
{
    if s.len() <= 1 {
        0
    } else {
        let a = seq_argmax(s.drop_last());
        if s.last() > s[a] {
            s.len() - 1
        } else {
            a
        }
    }
}

/// The minimum value of `s`.
pub open spec fn seq_min_val(s: Seq<i64>) -> i64
    decreases s.len(),
{
    if s.len() <= 1 {
        s[0]
    } else {
        let m = seq_min_val(s.drop_last());
        if s.last() < m {
            s.last()
        } else {
            m
        }
    }
}

/// First position of `v` in `s`, or the length of `s` when `v` is absent.
pub open spec fn find_first(s: Seq<i32>, v: i32) -> int
    decreases s.len(),
{
    if s.len() == 0 {
        0
    } else if s[0] == v {
        0
    } else {
        1 + find_first(s.subrange(1, s.len() as int), v)
    }
}

pub proof fn lemma_seq_argmax_props(s: Seq<i64>)
    requires
        s.len() >= 1,
    ensures
        0 <= seq_argmax(s) < s.len(),
        forall|t: int| 0 <= t < s.len() ==> #[trigger] s[t] <= s[seq_argmax(s)],
        forall|t: int| 0 <= t < seq_argmax(s) ==> #[trigger] s[t] < s[seq_argmax(s)],
    decreases s.len(),
{
    if s.len() > 1 {
        lemma_seq_argmax_props(s.drop_last());
        assert(forall|t: int| 0 <= t < s.len() - 1 ==> #[trigger] s[t] == s.drop_last()[t]);
        assert(s.last() == s[s.len() - 1]);
    }
}

pub proof fn lemma_seq_min_val_props(s: Seq<i64>)
    requires
        s.len() >= 1,
    ensures
        forall|t: int| 0 <= t < s.len() ==> seq_min_val(s) <= #[trigger] s[t],
        exists|t: int| 0 <= t < s.len() && seq_min_val(s) == s[t],
    decreases s.len(),
{
    if s.len() == 1 {
        assert(seq_min_val(s) == s[0]);
    } else {
        lemma_seq_min_val_props(s.drop_last());
        assert(forall|t: int| 0 <= t < s.len() - 1 ==> #[trigger] s[t] == s.drop_last()[t]);
        if s.last() < seq_min_val(s.drop_last()) {
            assert(seq_min_val(s) == s[s.len() - 1]);
        } else {
            let w = choose|t: int|
                0 <= t < s.drop_last().len() && seq_min_val(s.drop_last()) == s.drop_last()[t];
            assert(seq_min_val(s) == s[w]);
        }
    }
}

pub proof fn lemma_find_first_props(s: Seq<i32>, v: i32)
    ensures
        s.contains(v) ==> 0 <= find_first(s, v) < s.len() && s[find_first(s, v)] == v,
        forall|p: int| 0 <= p < find_first(s, v) && p < s.len() ==> #[trigger] s[p] != v,
        !s.contains(v) ==> find_first(s, v) >= s.len(),
    decreases s.len(),
{
    if s.len() > 0 && s[0] != v {
        let tail = s.subrange(1, s.len() as int);
        lemma_find_first_props(tail, v);
        assert(forall|t: int| 1 <= t < s.len() ==> #[trigger] s[t] == tail[t - 1]);
        if s.contains(v) {
            let w = choose|p: int| 0 <= p < s.len() && s[p] == v;
            assert(tail[w - 1] == v);
            assert(tail.contains(v));
        }
        if tail.contains(v) {
            let q = choose|p: int| 0 <= p < tail.len() && tail[p] == v;
            assert(s[q + 1] == tail[q]);
            assert(s.contains(v)) by { assert(s[q + 1] == v); }
        }
        assert(s[find_first(s, v)] == tail[find_first(tail, v)] || !s.contains(v));
    }
}

/// Position of the maximum value; the lowest index wins on ties.
pub(crate) fn argmax_vec(v: &Vec<i64>) -> (r: usize)
    requires
        v@.len() >= 1,
    ensures
        r == seq_argmax(v@),
{
    let mut best: usize = 0;
    let mut k: usize = 1;
    while k < v.len()
        invariant
            1 <= k <= v@.len(),
            0 <= best < k,
            best == seq_argmax(v@.take(k as int)),
        decreases v@.len() - k,
    {
        proof {
            assert(v@.take(k + 1).drop_last() =~= v@.take(k as int));
            assert(v@.take(k + 1).last() == v@[k as int]);
            lemma_seq_argmax_props(v@.take(k as int));
        }
        if v[k] > v[best] {
            best = k;
        }
        k = k + 1;
    }
    proof {
        assert(v@.take(v@.len() as int) =~= v@);
    }
    best
}

/// The minimum value of a non-empty vector.
pub(crate) fn min_val_vec(v: &Vec<i64>) -> (r: i64)
    requires
        v@.len() >= 1,
    ensures
        r == seq_min_val(v@),
{
    let mut m: i64 = v[0];
    let mut k: usize = 1;
    while k < v.len()
        invariant
            1 <= k <= v@.len(),
            m == seq_min_val(v@.take(k as int)),
        decreases v@.len() - k,
    {
        proof {
            assert(v@.take(k + 1).drop_last() =~= v@.take(k as int));
            assert(v@.take(k + 1).last() == v@[k as int]);
        }
        if v[k] < m {
            m = v[k];
        }
        k = k + 1;
    }
    proof {
        assert(v@.take(v@.len() as int) =~= v@);
    }
    m
}

/// First position holding `v`, or `None` when no position does.
pub(crate) fn find_position(s: &Vec<i32>, v: i32) -> (r: Option<usize>)
    ensures
        (match r {
            Some(p) => s@.contains(v) && p == find_first(s@, v),
            None => !s@.contains(v),
        }),
{
    let mut k: usize = 0;
    while k < s.len()
        invariant
            0 <= k <= s@.len(),
            forall|p: int| 0 <= p < k ==> s@[p] != v,
        decreases s@.len() - k,
    {
        if s[k] == v {
            proof {
                lemma_find_first_props(s@, v);
                assert(s@[k as int] == v);
            }
            return Some(k);
        }
        k = k + 1;
    }
    proof {
        if s@.contains(v) {
            let w = choose|p: int| 0 <= p < s@.len() && s@[p] == v;
            assert(s@[w] != v);
        }
    }
    None
}

} // verus!
