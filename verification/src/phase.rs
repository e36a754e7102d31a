//! The phase counter: how many samples have elapsed since the waveform
//! cycle last restarted.

use vstd::prelude::*;
use vstd::arithmetic::div_mod::{
    lemma_fundamental_div_mod,
    lemma_fundamental_div_mod_converse,
    lemma_mod_pos_bound,
    lemma_small_mod,
};

verus! {

/// The counter value that follows `counter`: a counter that has reached
/// `period` restarts at zero, any other moves on by one.
pub open spec fn next_phase(counter: nat, period: nat) -> nat {
    if counter >= period {
        0
    } else {
        counter + 1
    }
}

/// The counter value reached from `start` once `frames` samples have been
/// produced. The counter runs through `0, 1, .., period` and starts over.
pub open spec fn phase_after(start: nat, period: nat, frames: nat) -> nat {
    (start + frames) % (period + 1)
}

/// Moves a counter on by one sample.
pub fn advance(counter: usize, period: usize) -> (next: usize)
    ensures
        next == next_phase(counter as nat, period as nat),
        next <= period,
{
    if counter >= period {
        0
    } else {
        counter + 1
    }
}

/// A counter never leaves the range `0..=period`, and before any sample has
/// been produced it still holds its starting value.
pub proof fn lemma_phase_bounds(start: nat, period: nat, frames: nat)
    ensures
        phase_after(start, period, frames) <= period,
        start <= period ==> phase_after(start, period, 0) == start,
{
    lemma_mod_pos_bound((start + frames) as int, (period + 1) as int);
    if start <= period {
        lemma_small_mod(start, period + 1);
    }
}

/// Producing one more sample moves the counter on by one step.
pub proof fn lemma_phase_step(start: nat, period: nat, frames: nat)
    ensures
        phase_after(start, period, frames + 1) == next_phase(
            phase_after(start, period, frames),
            period,
        ),
{
    let m = (period + 1) as int;
    let x = (start + frames) as int;
    let q = x / m;
    let r = x % m;
    lemma_fundamental_div_mod(x, m);
    lemma_mod_pos_bound(x, m);
    assert(x == q * m + r) by (nonlinear_arith)
        requires
            x == m * q + r,
    ;
    if r < period {
        lemma_fundamental_div_mod_converse(x + 1, m, q, r + 1);
    } else {
        assert(x + 1 == (q + 1) * m + 0) by (nonlinear_arith)
            requires
                x == q * m + r,
                r + 1 == m,
        ;
        lemma_fundamental_div_mod_converse(x + 1, m, q + 1, 0);
    }
}

/// Counting `first` samples and then `second` more ends where counting
/// `first + second` samples at a stretch ends.
pub proof fn lemma_phase_composes(start: nat, period: nat, first: nat, second: nat)
    ensures
        phase_after(phase_after(start, period, first), period, second) == phase_after(
            start,
            period,
            first + second,
        ),
{
    let m = (period + 1) as int;
    let x = (start + first) as int;
    let y = x % m + second;
    lemma_fundamental_div_mod(x, m);
    lemma_fundamental_div_mod(y, m);
    lemma_mod_pos_bound(x, m);
    lemma_mod_pos_bound(y, m);
    assert(x + second == (x / m + y / m) * m + y % m) by (nonlinear_arith)
        requires
            x == m * (x / m) + x % m,
            y == m * (y / m) + y % m,
            y == x % m + second,
    ;
    lemma_fundamental_div_mod_converse(x + second, m, x / m + y / m, y % m);
}

/// The counter repeats with a cycle of `period + 1` samples.
pub proof fn lemma_phase_periodic(start: nat, period: nat, frames: nat)
    ensures
        phase_after(start, period, frames + period + 1) == phase_after(start, period, frames),
{
    let m = (period + 1) as int;
    let x = (start + frames) as int;
    lemma_fundamental_div_mod(x, m);
    lemma_mod_pos_bound(x, m);
    assert(x + m == (x / m + 1) * m + x % m) by (nonlinear_arith)
        requires
            x == m * (x / m) + x % m,
    ;
    lemma_fundamental_div_mod_converse(x + m, m, x / m + 1, x % m);
}

/// Started at zero, the counter equals the number of samples produced until
/// it reaches `period`, and the sample after that resets it to zero.
pub proof fn lemma_phase_wraps_at_period(period: nat, frames: nat)
    ensures
        frames <= period ==> phase_after(0, period, frames) == frames,
        phase_after(0, period, period + 1) == 0,
{
    if frames <= period {
        lemma_small_mod(frames, period + 1);
    }
    lemma_fundamental_div_mod_converse((period + 1) as int, (period + 1) as int, 1, 0);
}

} // verus!
