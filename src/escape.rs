use vstd::prelude::*;

verus! {

/// Number of iterates examined before a point is declared bounded; shared by
/// the evaluator and the orbit tracer so that the two always agree.
pub const MAX_ITER: u32 = 100;

/// Outcome of the escape-time test for one plane point.
#[derive(PartialEq, Eq, Structural, Clone, Copy, Debug)]
pub enum IterationResult {
    /// The bound was first exceeded after this many update steps.
    Escaped(u32),
    /// The bound was never exceeded within `MAX_ITER` iterates.
    Bounded,
}

/// A result as the evaluator produces it: an escape count below `MAX_ITER`.
pub open spec fn is_valid_result(res: IterationResult) -> bool {
    match res {
        IterationResult::Escaped(n) => n < MAX_ITER,
        IterationResult::Bounded => true,
    }
}

/// Verdict read off the bound-test outcomes of the iterates `z_k, z_(k+1), ...`:
/// the first index below `MAX_ITER` whose iterate is outside the bound.
pub open spec fn verdict_from(outside: Seq<bool>, k: nat) -> IterationResult
    decreases MAX_ITER - k,
{
    if k >= MAX_ITER || k >= outside.len() {
        IterationResult::Bounded
    } else if outside[k as int] {
        IterationResult::Escaped(k as u32)
    } else {
        verdict_from(outside, k + 1)
    }
}

/// Verdict of a whole orbit, from its bound-test outcomes `outside[k]` for `z_k`.
pub open spec fn verdict(outside: Seq<bool>) -> IterationResult {
    verdict_from(outside, 0)
}

/// Every verdict is a valid result.
pub proof fn lemma_verdict_valid(outside: Seq<bool>, k: nat)
    ensures
        is_valid_result(verdict_from(outside, k)),
    decreases MAX_ITER - k,
{
    if k < MAX_ITER && k < outside.len() && !outside[k as int] {
        lemma_verdict_valid(outside, k + 1);
    }
}

/// Number of iterates from `z_k` on that the tracer records: it keeps each
/// iterate it examines, stops after the first one outside the bound, and
/// examines at most `MAX_ITER` in all.
pub open spec fn traced_from(outside: Seq<bool>, k: nat) -> nat
    decreases MAX_ITER - k,
{
    if k >= MAX_ITER || k >= outside.len() {
        0
    } else if outside[k as int] {
        1
    } else {
        1 + traced_from(outside, k + 1)
    }
}

/// Length of the traced orbit, from the bound-test outcomes of its iterates.
pub open spec fn traced_len(outside: Seq<bool>) -> nat {
    traced_from(outside, 0)
}

/// `orbit` is the sequence of iterates `z_0 = z0, z_(k+1) = step(z_k)` that the
/// escape loop examines, and `outside[k]` the bound test's answer on `z_k`.
/// The loop stops at the first iterate outside the bound, or after `MAX_ITER`
/// iterates.
pub open spec fn is_run<T, F: Fn(&T) -> bool, G: Fn(&T) -> T>(
    z0: T,
    bound: F,
    step: G,
    orbit: Seq<T>,
    outside: Seq<bool>,
) -> bool {
    &&& orbit.len() == outside.len()
    &&& 1 <= orbit.len() <= MAX_ITER
    &&& orbit[0] == z0
    &&& forall|k: int| 0 <= k < orbit.len() ==> bound.ensures((&orbit[k],), #[trigger] outside[k])
    &&& forall|k: int|
        0 <= k < orbit.len() - 1 ==> !#[trigger] outside[k] && step.ensures(
            (&orbit[k],),
            orbit[k + 1],
        )
    &&& (outside.last() || orbit.len() == MAX_ITER)
}

/// Where no iterate from `z_j` up to `z_k` is outside, the verdict from `j`
/// is the verdict from `k`.
proof fn lemma_verdict_skip(outside: Seq<bool>, j: nat, k: nat)
    requires
        j <= k <= MAX_ITER,
        k <= outside.len(),
        forall|i: int| j <= i < k ==> !outside[i],
    ensures
        verdict_from(outside, j) == verdict_from(outside, k),
    decreases k - j,
{
    if j < k {
        lemma_verdict_skip(outside, j + 1, k);
    }
}

/// The tracer's count from `z_j` is the count from `z_k` plus the `k - j`
/// iterates in between, where none of those is outside.
proof fn lemma_traced_skip(outside: Seq<bool>, j: nat, k: nat)
    requires
        j <= k <= MAX_ITER,
        k <= outside.len(),
        forall|i: int| j <= i < k ==> !outside[i],
    ensures
        traced_from(outside, j) == (k - j) + traced_from(outside, k),
    decreases k - j,
{
    if j < k {
        lemma_traced_skip(outside, j + 1, k);
    }
}

/// The verdict of a run: `Escaped(n)` where its last iterate `z_n` is the
/// first outside the bound, `Bounded` where it ran to `MAX_ITER` iterates
/// without leaving it.
pub proof fn lemma_run_verdict<T, F: Fn(&T) -> bool, G: Fn(&T) -> T>(
    z0: T,
    bound: F,
    step: G,
    orbit: Seq<T>,
    outside: Seq<bool>,
)
    requires
        is_run(z0, bound, step, orbit, outside),
    ensures
        outside.last() ==> verdict(outside) == IterationResult::Escaped(
            (orbit.len() - 1) as u32,
        ),
        !outside.last() ==> verdict(outside) == IterationResult::Bounded,
        traced_len(outside) == orbit.len(),
{
    let n = (orbit.len() - 1) as nat;
    lemma_verdict_skip(outside, 0, n);
    lemma_traced_skip(outside, 0, n);
    if !outside.last() {
        assert(verdict_from(outside, n + 1) == IterationResult::Bounded);
        assert(traced_from(outside, n + 1) == 0);
    }
}

/// The bound test gives one answer for each iterate.
pub open spec fn bound_is_deterministic<T, F: Fn(&T) -> bool>(bound: F) -> bool {
    forall|z: &T, a: bool, b: bool|
        #[trigger] bound.ensures((z,), a) && #[trigger] bound.ensures((z,), b) ==> a == b
}

/// The recurrence gives one successor for each iterate.
pub open spec fn step_is_deterministic<T, G: Fn(&T) -> T>(step: G) -> bool {
    forall|z: &T, a: T, b: T|
        #[trigger] step.ensures((z,), a) && #[trigger] step.ensures((z,), b) ==> a == b
}

/// With a deterministic recurrence and bound test, a start point has one run.
pub proof fn lemma_runs_agree<T, F: Fn(&T) -> bool, G: Fn(&T) -> T>(
    z0: T,
    bound: F,
    step: G,
    orbit_a: Seq<T>,
    outside_a: Seq<bool>,
    orbit_b: Seq<T>,
    outside_b: Seq<bool>,
)
    requires
        bound_is_deterministic(bound),
        step_is_deterministic(step),
        is_run(z0, bound, step, orbit_a, outside_a),
        is_run(z0, bound, step, orbit_b, outside_b),
    ensures
        orbit_a == orbit_b,
        outside_a == outside_b,
{
    let m: int = if orbit_a.len() <= orbit_b.len() {
        orbit_a.len() as int
    } else {
        orbit_b.len() as int
    };
    assert forall|k: int| #![trigger orbit_a[k]] #![trigger outside_a[k]]
        0 <= k < m implies orbit_a[k] == orbit_b[k] && outside_a[k] == outside_b[k] by {
        lemma_runs_agree_prefix(z0, bound, step, orbit_a, outside_a, orbit_b, outside_b, k);
    }
    lemma_runs_agree_prefix(z0, bound, step, orbit_a, outside_a, orbit_b, outside_b, m - 1);
    if orbit_a.len() < orbit_b.len() {
        assert(outside_a[m - 1]);
        assert(!outside_b[m - 1]);
    } else if orbit_b.len() < orbit_a.len() {
        assert(outside_b[m - 1]);
        assert(!outside_a[m - 1]);
    }
    assert(orbit_a.len() == orbit_b.len());
    assert(orbit_a =~= orbit_b);
    assert(outside_a =~= outside_b);
}

proof fn lemma_runs_agree_prefix<T, F: Fn(&T) -> bool, G: Fn(&T) -> T>(
    z0: T,
    bound: F,
    step: G,
    orbit_a: Seq<T>,
    outside_a: Seq<bool>,
    orbit_b: Seq<T>,
    outside_b: Seq<bool>,
    k: int,
)
    requires
        bound_is_deterministic(bound),
        step_is_deterministic(step),
        is_run(z0, bound, step, orbit_a, outside_a),
        is_run(z0, bound, step, orbit_b, outside_b),
        0 <= k < orbit_a.len(),
        k < orbit_b.len(),
    ensures
        orbit_a[k] == orbit_b[k],
        outside_a[k] == outside_b[k],
    decreases k,
{
    if k > 0 {
        lemma_runs_agree_prefix(z0, bound, step, orbit_a, outside_a, orbit_b, outside_b, k - 1);
        assert(!outside_a[k - 1] && !outside_b[k - 1]);
        assert(step.ensures((&orbit_a[k - 1],), orbit_a[k]));
        assert(step.ensures((&orbit_b[k - 1],), orbit_b[k]));
    }
    assert(bound.ensures((&orbit_a[k],), outside_a[k]));
    assert(bound.ensures((&orbit_b[k],), outside_b[k]));
}

/// The orbit traced from a point and the escape-time verdict for it agree:
/// where the verdict is `Escaped(n)` the orbit holds `n + 1` iterates, the
/// last one outside the bound; where it is `Bounded` it holds `MAX_ITER`.
pub proof fn lemma_trace_matches_verdict<T, F: Fn(&T) -> bool, G: Fn(&T) -> T>(
    z0: T,
    bound: F,
    step: G,
    orbit: Seq<T>,
    outside: Seq<bool>,
    path: Seq<T>,
    path_outside: Seq<bool>,
)
    requires
        bound_is_deterministic(bound),
        step_is_deterministic(step),
        is_run(z0, bound, step, orbit, outside),
        is_run(z0, bound, step, path, path_outside),
    ensures
        forall|n: u32|
            verdict(outside) == IterationResult::Escaped(n) ==> path.len() == n + 1
                && path_outside.last(),
        verdict(outside) == IterationResult::Bounded ==> path.len() == MAX_ITER,
{
    lemma_runs_agree(z0, bound, step, orbit, outside, path, path_outside);
    lemma_run_verdict(z0, bound, step, orbit, outside);
}

/// Escape-time evaluation: starting from `z0`, examine each iterate with
/// `bound` before applying `step` to it, and report `Escaped(n)` at the first
/// iterate `z_n` found outside, or `Bounded` once `MAX_ITER` iterates have
/// been examined without one.
pub fn escape_time<T, F: Fn(&T) -> bool, G: Fn(&T) -> T>(z0: T, bound: F, step: G) -> (r:
    IterationResult)
    requires
        forall|z: &T| bound.requires((z,)),
        forall|z: &T| step.requires((z,)),
    ensures
        exists|orbit: Seq<T>, outside: Seq<bool>|
            is_run(z0, bound, step, orbit, outside) && r == verdict(outside),
        is_valid_result(r),
{
    let ghost start = z0;
    let mut z = z0;
    let mut n: u32 = 0;
    let ghost mut orbit: Seq<T> = seq![z0];
    let ghost mut outside: Seq<bool> = Seq::empty();
    loop
        invariant
            forall|z: &T| bound.requires((z,)),
            forall|z: &T| step.requires((z,)),
            n < MAX_ITER,
            orbit.len() == n + 1,
            outside.len() == n,
            orbit[0] == start,
            start == z0,
            orbit.last() == z,
            forall|k: int| 0 <= k < n ==> bound.ensures((&orbit[k],), #[trigger] outside[k]),
            forall|k: int|
                0 <= k < n ==> !#[trigger] outside[k] && step.ensures((&orbit[k],), orbit[k + 1]),
        decreases MAX_ITER - n,
    {
        let out = bound(&z);
        proof {
            assert(orbit[n as int] == z);
            outside = outside.push(out);
            assert(bound.ensures((&orbit[n as int],), outside[n as int]));
        }
        if out || n + 1 == MAX_ITER {
            assert(is_run(start, bound, step, orbit, outside));
            proof {
                lemma_run_verdict(start, bound, step, orbit, outside);
                lemma_verdict_valid(outside, 0);
            }
            if out {
                return IterationResult::Escaped(n);
            } else {
                return IterationResult::Bounded;
            }
        }
        let next = step(&z);
        proof {
            assert(orbit[n as int] == z);
            orbit = orbit.push(next);
            assert(step.ensures((&orbit[n as int],), orbit[n + 1]));
            assert(!outside[n as int]);
        }
        z = next;
        n = n + 1;
    }
}

/// Orbit tracing: the iterates `z_0 = z0, z_1, ...` that `escape_time`
/// examines for the same start, the last one being the first found outside
/// the bound, or `MAX_ITER` of them where none is.
pub fn trace<T, F: Fn(&T) -> bool, G: Fn(&T) -> T>(z0: T, bound: F, step: G) -> (path: Vec<T>)
    requires
        forall|z: &T| bound.requires((z,)),
        forall|z: &T| step.requires((z,)),
    ensures
        exists|outside: Seq<bool>| is_run(z0, bound, step, path@, outside),
{
    let ghost start = z0;
    let mut path: Vec<T> = Vec::new();
    path.push(z0);
    let ghost mut outside: Seq<bool> = Seq::empty();
    loop
        invariant
            forall|z: &T| bound.requires((z,)),
            forall|z: &T| step.requires((z,)),
            1 <= path.len() <= MAX_ITER,
            outside.len() == path.len() - 1,
            path@[0] == start,
            start == z0,
            forall|k: int| 0 <= k < outside.len() ==> bound.ensures((&path@[k],), #[trigger] outside[k]),
            forall|k: int|
                0 <= k < outside.len() ==> !#[trigger] outside[k] && step.ensures((&path@[k],), path@[k + 1]),
        decreases MAX_ITER - path.len(),
    {
        let last = path.len() - 1;
        let out = bound(&path[last]);
        proof {
            outside = outside.push(out);
            assert(bound.ensures((&path@[last as int],), outside[last as int]));
        }
        if out || path.len() == MAX_ITER as usize {
            assert(is_run(start, bound, step, path@, outside));
            return path;
        }
        let next = step(&path[last]);
        path.push(next);
        assert(step.ensures((&path@[last as int],), path@[last + 1]));
        assert(!outside[last as int]);
    }
}

} // verus!
