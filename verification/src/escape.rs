//! The escape-time evaluator: how many steps an orbit takes before it leaves
//! the escape bound.

use vstd::prelude::*;

verus! {

/// The recurrence whose orbits are run: the state every orbit starts from,
/// the step that takes a state and the parameter `c` to the next state, and
/// the test that tells whether a state is still within the escape bound.
///
/// `Z` is the type of an orbit state; the parameter type is fixed by `step`.
pub struct Recurrence<Z, S, B> {
    pub origin: Z,
    pub step: S,
    pub bounded: B,
}

/// Whether the step and the bound test of `recurrence` may be called on
/// every state, for every parameter.
pub open spec fn is_total<C, Z, S: Fn(Z, C) -> Z, B: Fn(Z) -> bool>(
    recurrence: Recurrence<Z, S, B>,
) -> bool {
    &&& forall|z: Z, c: C| #[trigger] recurrence.step.requires((z, c))
    &&& forall|z: Z| #[trigger] recurrence.bounded.requires((z,))
}

/// Whether `orbit` is a run of `recurrence` for the parameter `c`: it starts
/// at the origin, and every state but the last one passed the bound test and
/// was taken to the next state by one step.
pub open spec fn is_run<C, Z, S: Fn(Z, C) -> Z, B: Fn(Z) -> bool>(
    recurrence: Recurrence<Z, S, B>,
    c: C,
    orbit: Seq<Z>,
) -> bool {
    &&& orbit.len() >= 1
    &&& orbit[0] == recurrence.origin
    &&& forall|i: int|
        0 <= i < orbit.len() - 1 ==> recurrence.bounded.ensures((#[trigger] orbit[i],), true)
            && recurrence.step.ensures((orbit[i], c), orbit[i + 1])
}

/// Whether `orbit` is a run that gives `c` the iteration count `count` under
/// the cap `max_iter`: it is a run of exactly `count` steps, `count` does not
/// exceed the cap, and unless it equals the cap, the last state of the run
/// failed the bound test.
pub open spec fn is_counted_run<C, Z, S: Fn(Z, C) -> Z, B: Fn(Z) -> bool>(
    recurrence: Recurrence<Z, S, B>,
    c: C,
    max_iter: u32,
    count: u32,
    orbit: Seq<Z>,
) -> bool {
    &&& is_run(recurrence, c, orbit)
    &&& orbit.len() == count + 1
    &&& count <= max_iter
    &&& count == max_iter || recurrence.bounded.ensures((orbit.last(),), false)
}

/// Whether `count` is an iteration count of `c` under the cap `max_iter`:
/// the number of steps of a run that ends at the first state to fail the
/// bound test, or at the cap.
pub open spec fn escapes_after<C, Z, S: Fn(Z, C) -> Z, B: Fn(Z) -> bool>(
    recurrence: Recurrence<Z, S, B>,
    c: C,
    max_iter: u32,
    count: u32,
) -> bool {
    exists|orbit: Seq<Z>| is_counted_run(recurrence, c, max_iter, count, orbit)
}

/// Whether the step and the bound test of `recurrence` are functions of
/// their arguments: no call of either has two possible results.
pub open spec fn is_deterministic<C, Z, S: Fn(Z, C) -> Z, B: Fn(Z) -> bool>(
    recurrence: Recurrence<Z, S, B>,
) -> bool {
    &&& forall|z: Z, c: C, a: Z, b: Z|
        #[trigger] recurrence.step.ensures((z, c), a) && #[trigger] recurrence.step.ensures(
            (z, c),
            b,
        ) ==> a == b
    &&& forall|z: Z, a: bool, b: bool|
        #[trigger] recurrence.bounded.ensures((z,), a) && #[trigger] recurrence.bounded.ensures(
            (z,),
            b,
        ) ==> a == b
}

/// Counts the steps that the orbit of `c` takes before it leaves the escape
/// bound, up to `maxIter` steps.
///
/// The bound test is made before every step, so an orbit whose origin already
/// fails it has the count 0, and so has every orbit when `maxIter` is 0.
#[allow(non_snake_case)]
pub fn mandelbrot<C: Copy, Z: Copy, S: Fn(Z, C) -> Z, B: Fn(Z) -> bool>(
    c: C,
    maxIter: u32,
    recurrence: &Recurrence<Z, S, B>,
) -> (iter: u32)
    requires
        is_total::<C, Z, S, B>(*recurrence),
    ensures
        iter <= maxIter,
        escapes_after(*recurrence, c, maxIter, iter),
{
    let mut z: Z = recurrence.origin;
    let mut iter: u32 = 0;
    let mut inside: bool = (recurrence.bounded)(z);
    let ghost mut orbit: Seq<Z> = seq![recurrence.origin];
    while inside && iter < maxIter
        invariant
            is_total::<C, Z, S, B>(*recurrence),
            iter <= maxIter,
            is_run(*recurrence, c, orbit),
            orbit.len() == iter + 1,
            orbit.last() == z,
            recurrence.bounded.ensures((z,), inside),
        decreases maxIter - iter,
    {
        let next: Z = (recurrence.step)(z, c);
        proof {
            orbit = orbit.push(next);
        }
        z = next;
        iter = iter + 1;
        inside = (recurrence.bounded)(z);
    }
    assert(is_counted_run(*recurrence, c, maxIter, iter, orbit));
    iter
}

/// Two runs of a deterministic recurrence for the same parameter pass through
/// the same state at every index that both reach.
proof fn lemma_runs_agree<C, Z, S: Fn(Z, C) -> Z, B: Fn(Z) -> bool>(
    recurrence: Recurrence<Z, S, B>,
    c: C,
    p: Seq<Z>,
    q: Seq<Z>,
    i: int,
)
    requires
        is_deterministic::<C, Z, S, B>(recurrence),
        is_run(recurrence, c, p),
        is_run(recurrence, c, q),
        0 <= i < p.len(),
        i < q.len(),
    ensures
        p[i] == q[i],
    decreases i,
{
    if i > 0 {
        lemma_runs_agree(recurrence, c, p, q, i - 1);
    }
}

/// The evaluator is deterministic: under a recurrence whose step and bound
/// test are functions of their arguments, a parameter and a cap have exactly
/// one iteration count, so repeated evaluations return the same count.
pub proof fn lemma_count_unique<C, Z, S: Fn(Z, C) -> Z, B: Fn(Z) -> bool>(
    recurrence: Recurrence<Z, S, B>,
    c: C,
    max_iter: u32,
    first: u32,
    second: u32,
)
    requires
        is_deterministic::<C, Z, S, B>(recurrence),
        escapes_after(recurrence, c, max_iter, first),
        escapes_after(recurrence, c, max_iter, second),
    ensures
        first == second,
{
    let p = choose|orbit: Seq<Z>| is_counted_run(recurrence, c, max_iter, first, orbit);
    let q = choose|orbit: Seq<Z>| is_counted_run(recurrence, c, max_iter, second, orbit);
    if first < second {
        lemma_runs_agree(recurrence, c, p, q, first as int);
    } else if second < first {
        lemma_runs_agree(recurrence, c, p, q, second as int);
    }
}

/// A run whose origin the step takes to itself never leaves the origin.
proof fn lemma_run_stays<C, Z, S: Fn(Z, C) -> Z, B: Fn(Z) -> bool>(
    recurrence: Recurrence<Z, S, B>,
    c: C,
    orbit: Seq<Z>,
    i: int,
)
    requires
        forall|next: Z|
            recurrence.step.ensures((recurrence.origin, c), next) ==> next == recurrence.origin,
        is_run(recurrence, c, orbit),
        0 <= i < orbit.len(),
    ensures
        orbit[i] == recurrence.origin,
    decreases i,
{
    if i > 0 {
        lemma_run_stays(recurrence, c, orbit, i - 1);
    }
}

/// An orbit that never moves runs to the cap: where the origin passes the
/// bound test and the step for `c` takes it to itself, the iteration count
/// of `c` is the cap.
pub proof fn lemma_fixed_origin_reaches_cap<C, Z, S: Fn(Z, C) -> Z, B: Fn(Z) -> bool>(
    recurrence: Recurrence<Z, S, B>,
    c: C,
    max_iter: u32,
    count: u32,
)
    requires
        forall|inside: bool| recurrence.bounded.ensures((recurrence.origin,), inside) ==> inside,
        forall|next: Z|
            recurrence.step.ensures((recurrence.origin, c), next) ==> next == recurrence.origin,
        escapes_after(recurrence, c, max_iter, count),
    ensures
        count == max_iter,
{
    let orbit = choose|orbit: Seq<Z>| is_counted_run(recurrence, c, max_iter, count, orbit);
    lemma_run_stays(recurrence, c, orbit, count as int);
}

} // verus!
