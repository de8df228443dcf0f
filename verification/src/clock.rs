//! Which state of a schedule is active at a given second.

use crate::config_parser::{Config, ConfigView};
use crate::tl::StateView;
use crate::utils::{lemma_total_up_to_monotonic, sum, total, total_up_to};
use vstd::arithmetic::div_mod::{lemma_mod_add_multiples_vanish, lemma_mod_bound};
use vstd::prelude::*;

verus! {

/// Position inside the cycle at second `t`: the Euclidean remainder of `t - offset` by
/// the cycle length, which lies in `[0, total)` for negative differences too.
pub open spec fn phase(config: ConfigView, t: int) -> int {
    (t - config.offset) % (total(config.states) as int)
}

/// State `i` owns the half-open interval from the sum of the durations before it up to
/// that sum plus its own duration; `covers` says that `p` lies in it.
pub open spec fn covers(states: Seq<StateView>, i: int, p: int) -> bool {
    &&& 0 <= i < states.len()
    &&& total_up_to(states, i) <= p < total_up_to(states, i + 1)
}

/// The state that is active at second `t`.
pub open spec fn active_state(config: ConfigView, t: int) -> int {
    choose|i: int| covers(config.states, i, phase(config, t))
}

/// At most one state covers a position.
pub proof fn lemma_covers_unique(states: Seq<StateView>, i: int, j: int, p: int)
    requires
        covers(states, i, p),
        covers(states, j, p),
    ensures
        i == j,
{
    if i < j {
        lemma_total_up_to_monotonic(states, i + 1, j);
    }
    if j < i {
        lemma_total_up_to_monotonic(states, j + 1, i);
    }
}

/// Every position inside the cycle is covered by some state.
pub proof fn lemma_covers_exists(states: Seq<StateView>, p: int, n: int) -> (i: int)
    requires
        0 <= n <= states.len(),
        0 <= p < total_up_to(states, n),
    ensures
        covers(states, i, p),
        i < n,
    decreases n,
{
    if total_up_to(states, n - 1) <= p {
        n - 1
    } else {
        lemma_covers_exists(states, p, n - 1)
    }
}

/// The phase lies inside the cycle.
pub proof fn lemma_phase_in_cycle(config: ConfigView, t: int)
    requires
        total(config.states) > 0,
    ensures
        0 <= phase(config, t) < total(config.states),
{
    lemma_mod_bound(t - config.offset, total(config.states) as int);
}

/// On a schedule with a positive cycle length, at every second `t`, negative ones
/// included, exactly one state is active: `active_state` is a valid index, the phase
/// lies in that state's interval, and no other state covers it.
pub proof fn lemma_active_state_valid(config: ConfigView, t: int)
    requires
        total(config.states) > 0,
    ensures
        0 <= active_state(config, t) < config.states.len(),
        covers(config.states, active_state(config, t), phase(config, t)),
        forall|j: int| covers(config.states, j, phase(config, t)) ==> j == active_state(config, t),
{
    lemma_phase_in_cycle(config, t);
    let p = phase(config, t);
    let i = lemma_covers_exists(config.states, p, config.states.len() as int);
    let a = active_state(config, t);
    assert(covers(config.states, a, p));
    assert forall|j: int| covers(config.states, j, p) implies j == a by {
        lemma_covers_unique(config.states, j, a, p);
    }
}

/// The active state repeats with the cycle: one full cycle later the same state is
/// active.
pub proof fn lemma_active_state_periodic(config: ConfigView, t: int)
    requires
        total(config.states) > 0,
    ensures
        active_state(config, t) == active_state(config, t + total(config.states)),
{
    let m = total(config.states) as int;
    lemma_mod_add_multiples_vanish(t - config.offset, m);
    assert(m + (t - config.offset) == (t + m) - config.offset);
    assert(phase(config, t + m) == phase(config, t));
}

/// A phase that equals the sum of the durations before state `i` belongs to state `i`,
/// not to the state that ends there, provided state `i` lasts at all.
pub proof fn lemma_boundary_belongs_to_next(config: ConfigView, t: int, i: int)
    requires
        total(config.states) > 0,
        0 <= i < config.states.len(),
        config.states[i].duration > 0,
        phase(config, t) == total_up_to(config.states, i),
    ensures
        active_state(config, t) == i,
{
    assert(covers(config.states, i, phase(config, t)));
    lemma_active_state_valid(config, t);
}

/// Index of the state that is active at `now` seconds since the epoch.
///
/// The result is the smallest index whose running total exceeds the phase.
pub fn active_index(config: &Config, now: i64) -> (r: usize)
    requires
        config@.cyclic(),
    ensures
        r < config.states.len(),
        r == active_state(config@, now as int),
        covers(config@.states, r as int, phase(config@, now as int)),
        forall|j: int|
            0 <= j < r ==> #[trigger] total_up_to(config@.states, j + 1) <= phase(config@, now as int),
{
    let ghost views = config@.states;
    let cycle = sum(config.states.as_slice());
    let elapsed: i128 = now as i128 - config.offset as i128;
    proof {
        lemma_phase_in_cycle(config@, now as int);
    }
    let p: i128 = elapsed.checked_rem_euclid(cycle as i128).unwrap();
    assert(p == phase(config@, now as int));
    proof {
        lemma_total_up_to_monotonic(views, 1, views.len() as int);
        assert(views[0].duration == config.states[0].duration);
        assert(total_up_to(views, 0) == 0);
        assert(total_up_to(views, 1) == total_up_to(views, 0) + views[0].duration);
    }
    let mut i: usize = 0;
    let mut acc: i64 = config.states[0].duration as i64;
    while acc as i128 <= p
        invariant
            i < config.states.len(),
            views == config@.states,
            total(views) <= i64::MAX,
            acc == total_up_to(views, i + 1),
            0 <= p < total(views),
            forall|j: int| 0 <= j < i ==> #[trigger] total_up_to(views, j + 1) <= p,
        decreases config.states.len() - i,
    {
        i = i + 1;
        proof {
            lemma_total_up_to_monotonic(views, i + 1, views.len() as int);
            assert(views[i as int].duration == config.states[i as int].duration);
        }
        acc = acc + config.states[i].duration as i64;
    }
    proof {
        if i > 0 {
            assert(total_up_to(views, (i - 1) + 1) <= p);
        }
        assert(covers(views, i as int, p as int));
        lemma_active_state_valid(config@, now as int);
    }
    i
}

} // verus!
