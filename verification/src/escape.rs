//! Escape-time evaluation for a single point of the complex plane.
//!
//! Starting from `z = 0`, the orbit `z <- z^power + c` is followed for at
//! most `n` steps; the result is the first iteration index at which the
//! orbit's magnitude exceeds `2` (checked as squared magnitude against `4`),
//! or `Bounded` when the budget runs out first. An orbit value that leaves
//! the representable range (the fixed-point analogue of a non-finite float)
//! counts as escaped at the first iteration at which it is seen.

use vstd::prelude::*;
use crate::complex::{CPoint, norm_sq_raw, FOUR_RAW, spec_step, step, norm_sq_exceeds};

verus! {

/// Outcome of the escape-time evaluation for one point.
#[derive(Clone, Copy, PartialEq, Eq, Structural, Debug)]
pub enum EscapeResult {
    /// The orbit left the disk of radius 2 at this iteration index.
    Escaped(usize),
    /// The orbit stayed within the disk for the whole iteration budget.
    Bounded,
}

/// Escape-time of the orbit continued from state `z` at iteration `t`, with
/// budget `n`. A `None` state (unrepresentable orbit value) escapes at the
/// iteration at which it is examined.
pub open spec fn spec_escape_from(
    z: Option<(int, int)>,
    c: (int, int),
    p: nat,
    t: nat,
    n: nat,
) -> EscapeResult
    decreases n - t,
{
    if t >= n {
        EscapeResult::Bounded
    } else {
        match z {
            None => EscapeResult::Escaped(t as usize),
            Some(w) => if norm_sq_raw(w.0, w.1) > FOUR_RAW as int {
                EscapeResult::Escaped(t as usize)
            } else {
                spec_escape_from(spec_step(w, c, p), c, p, t + 1, n)
            },
        }
    }
}

/// Escape-time of the point `c` under `z <- z^p + c` with budget `n`,
/// starting from `z = 0`.
pub open spec fn spec_escape(c: (int, int), p: nat, n: nat) -> EscapeResult {
    spec_escape_from(Some((0, 0)), c, p, 0, n)
}

/// Every escape index reported from iteration `t` onward lies in `[t, n)`.
pub proof fn lemma_escape_from_range(z: Option<(int, int)>, c: (int, int), p: nat, t: nat, n: nat)
    requires
        t <= n,
        n <= usize::MAX,
    ensures
        forall|i: usize| spec_escape_from(z, c, p, t, n) == EscapeResult::Escaped(i)
            ==> t <= i < n,
    decreases n - t,
{
    if t < n {
        match z {
            None => {},
            Some(w) => {
                if !(norm_sq_raw(w.0, w.1) > FOUR_RAW as int) {
                    lemma_escape_from_range(spec_step(w, c, p), c, p, t + 1, n);
                }
            },
        }
    }
}

/// An escape index is always strictly below the iteration budget.
pub proof fn lemma_escape_index_lt_budget(c: (int, int), p: nat, n: nat)
    requires
        n <= usize::MAX,
    ensures
        forall|i: usize| spec_escape(c, p, n) == EscapeResult::Escaped(i) ==> i < n,
{
    lemma_escape_from_range(Some((0, 0)), c, p, 0, n);
}

/// With a budget of one iteration, a point either escapes at index `0` or is
/// `Bounded`; no index of `1` or more can be reported.
pub proof fn lemma_budget_one(c: (int, int), p: nat)
    ensures
        spec_escape(c, p, 1) == EscapeResult::Bounded || spec_escape(c, p, 1)
            == EscapeResult::Escaped(0usize),
{
    lemma_escape_index_lt_budget(c, p, 1);
    match spec_escape(c, p, 1) {
        EscapeResult::Escaped(i) => {
            assert(spec_escape(c, p, 1) == EscapeResult::Escaped(i));
            assert(i < 1);
        },
        EscapeResult::Bounded => {},
    }
}

/// With a budget of zero iterations, every point is `Bounded`.
pub proof fn lemma_budget_zero(c: (int, int), p: nat)
    ensures
        spec_escape(c, p, 0) == EscapeResult::Bounded,
{
}

/// Executable escape-time evaluation; a pure function of `(c, power, n)`.
pub fn escape_time(c: CPoint, power: usize, n: usize) -> (r: EscapeResult)
    ensures
        r == spec_escape(c.view_val(), power as nat, n as nat),
        r matches EscapeResult::Escaped(i) ==> i < n,
{
    proof {
        lemma_escape_index_lt_budget(c.view_val(), power as nat, n as nat);
    }
    let mut z = CPoint { re: 0, im: 0 };
    let mut t: usize = 0;
    while t < n
        invariant
            t <= n,
            spec_escape(c.view_val(), power as nat, n as nat) == spec_escape_from(
                Some(z.view_val()),
                c.view_val(),
                power as nat,
                t as nat,
                n as nat,
            ),
            forall|i: usize| spec_escape(c.view_val(), power as nat, n as nat)
                == EscapeResult::Escaped(i) ==> i < n,
        decreases n - t,
    {
        if norm_sq_exceeds(&z) {
            return EscapeResult::Escaped(t);
        }
        match step(z, c, power) {
            Some(z2) => {
                z = z2;
            },
            None => {
                proof {
                    assert(spec_escape_from(
                        None::<(int, int)>,
                        c.view_val(),
                        power as nat,
                        t as nat + 1,
                        n as nat,
                    ) == (if t as nat + 1 >= n as nat {
                        EscapeResult::Bounded
                    } else {
                        EscapeResult::Escaped((t + 1) as usize)
                    }));
                }
                if t + 1 < n {
                    return EscapeResult::Escaped(t + 1);
                } else {
                    return EscapeResult::Bounded;
                }
            },
        }
        t = t + 1;
    }
    EscapeResult::Bounded
}

} // verus!
