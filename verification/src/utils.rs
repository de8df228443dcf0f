//! Total and cumulative durations of a sequence of states.

use crate::tl::{State, StateView};
use vstd::prelude::*;

verus! {

/// Sum of the durations of the first `n` states.
pub open spec fn total_up_to(states: Seq<StateView>, n: int) -> nat
    decreases n,
{
    if n <= 0 {
        0
    } else {
        total_up_to(states, n - 1) + states[n - 1].duration
    }
}

/// Sum of all durations: the length of one cycle in seconds.
pub open spec fn total(states: Seq<StateView>) -> nat {
    total_up_to(states, states.len() as int)
}

/// The partial sums never decrease.
pub proof fn lemma_total_up_to_monotonic(states: Seq<StateView>, i: int, j: int)
    requires
        i <= j,
    ensures
        total_up_to(states, i) <= total_up_to(states, j),
    decreases j - i,
{
    if i < j {
        lemma_total_up_to_monotonic(states, i, j - 1);
    }
}

/// Sum of the durations when it fits an `i64`, `None` when it does not.
pub fn checked_sum(states: &[State]) -> (r: Option<i64>)
    ensures
        r is Some <==> total(states.deep_view()) <= i64::MAX,
        r matches Some(v) ==> v == total(states.deep_view()),
{
    let ghost views = states.deep_view();
    let mut acc: i64 = 0;
    let mut i: usize = 0;
    while i < states.len()
        invariant
            i <= states.len(),
            views == states.deep_view(),
            acc == total_up_to(views, i as int),
        decreases states.len() - i,
    {
        let d = states[i].duration;
        assert(views[i as int].duration == d);
        if d > i64::MAX as u64 - acc as u64 {
            proof {
                lemma_total_up_to_monotonic(views, i + 1, views.len() as int);
            }
            return None;
        }
        acc = acc + d as i64;
        i = i + 1;
    }
    Some(acc)
}

/// Sum of the durations of `states`.
pub fn sum(states: &[State]) -> (r: i64)
    requires
        total(states.deep_view()) <= i64::MAX,
    ensures
        r == total(states.deep_view()),
{
    checked_sum(states).unwrap()
}

/// Running totals: entry `i` is the sum of the durations of states `0..=i`.
pub fn cumulative_sum(states: &[State]) -> (r: Vec<i64>)
    requires
        total(states.deep_view()) <= i64::MAX,
    ensures
        r.len() == states.len(),
        forall|i: int| 0 <= i < r.len() ==> r[i] == #[trigger] total_up_to(states.deep_view(), i + 1),
{
    let ghost views = states.deep_view();
    let mut cumulative_sum: Vec<i64> = Vec::new();
    let mut acc: i64 = 0;
    let mut i: usize = 0;
    while i < states.len()
        invariant
            i <= states.len(),
            views == states.deep_view(),
            total(views) <= i64::MAX,
            acc == total_up_to(views, i as int),
            cumulative_sum.len() == i,
            forall|j: int| 0 <= j < i ==> cumulative_sum[j] == #[trigger] total_up_to(views, j + 1),
        decreases states.len() - i,
    {
        let d = states[i].duration;
        assert(views[i as int].duration == d);
        proof {
            lemma_total_up_to_monotonic(views, i + 1, views.len() as int);
        }
        acc = acc + d as i64;
        cumulative_sum.push(acc);
        i = i + 1;
    }
    cumulative_sum
}

} // verus!
