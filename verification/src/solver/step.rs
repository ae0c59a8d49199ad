//! One iteration of BiCGSTAB, written down as the method is, and what the commands of a batch leave
//! in the buffers of a solve.
use super::laws::laid_out;
use super::meaning::{
    carried_out, cells, concluded, corrected, iterated, multiplied, preconditioned, prepared_sums,
    recorded, searched, shaped, summed, Cells,
};
use super::session::SolveView;
use super::{ContextView, PreparedView};
use crate::command::Kernel;
use crate::device::{
    exact, product_entry, quotient, recurrence, Arithmetic, Device, DoubleSingle, Sextet,
};
use crate::runtime::RuntimeView;
use crate::sums::dot;
use vstd::prelude::*;

verus! {

/// The numbers and vectors of one iteration.
pub ghost struct Step {
    pub rho: real,
    pub beta: real,
    pub p: Seq<real>,
    pub z_p: Seq<real>,
    pub v: Seq<real>,
    pub alpha: real,
    pub s: Seq<real>,
    pub z_s: Seq<real>,
    pub t: Seq<real>,
    pub omega: real,
}

/// Whether an arithmetic has neither infinite numbers nor things that are not numbers.
pub open spec fn numbers_only(a: Arithmetic<real>) -> bool {
    &&& forall|x: real| !#[trigger] (a.nan)(x)
    &&& forall|x: real| !#[trigger] (a.infinite)(x)
}

/// Whether a number is larger than the smallest normal single, whatever its sign.
pub open spec fn sizable(a: Arithmetic<real>, x: real) -> bool {
    x > a.smallest_normal() || x < -a.smallest_normal()
}

/// Whether `z` is what the preconditioner of a context makes of `x`: the vector itself, the vector
/// scaled by the inverse diagonal, or what the caller's preconditioner makes of it.
pub open spec fn preconditions(
    d: Device<real>,
    context: ContextView,
    inverse: Seq<real>,
    n: usize,
    x: Seq<real>,
    z: Seq<real>,
) -> bool {
    forall|i: int|
        0 <= i < n ==> #[trigger] z[i] == if context.custom is Some {
            (d.precondition)(x.take(n as int))[i]
        } else if context.preconditioner->0 is Jacobi {
            inverse[i] * x[i]
        } else {
            x[i]
        }
}

/// Whether `y` is the product of the matrix with `x`.
pub open spec fn multiplies(
    a: Arithmetic<real>,
    c: Cells<real>,
    n: usize,
    x: Seq<real>,
    y: Seq<real>,
) -> bool {
    forall|i: int|
        0 <= i < n ==> #[trigger] y[i] == product_entry(a, c.rows, c.columns, c.values, x, i)
}

/// Whether these are the search direction of an iteration and its product, and nothing on the way
/// there breaks the iteration down.
pub open spec fn is_search(
    d: Device<real>,
    context: ContextView,
    n: usize,
    c: Cells<real>,
    step: Step,
) -> bool {
    let a = d.arithmetic;
    let first = c.state[13] + 1real < a.one_and_half();
    &&& step.p.len() == n && step.z_p.len() == n && step.v.len() == n
    &&& step.rho == dot(c.r_hat, c.r, n as nat)
    &&& sizable(a, step.rho)
    &&& first ==> step.beta == 0real
    &&& !first ==> {
        &&& sizable(a, c.state[0])
        &&& sizable(a, c.state[4])
        &&& step.beta * (c.state[0] * c.state[4]) == step.rho * c.state[2]
    }
    &&& forall|i: int|
        0 <= i < n ==> #[trigger] step.p[i] == if first {
            c.r[i]
        } else {
            c.r[i] + step.beta * (c.p[i] - c.state[4] * c.v[i])
        }
    &&& preconditions(d, context, c.inverse, n, step.p, step.z_p)
    &&& multiplies(a, c, n, step.z_p, step.v)
}

/// Whether these are the numbers and vectors of an iteration up to its intermediate residual, and
/// nothing on the way there breaks it down.
pub open spec fn is_first_half(
    d: Device<real>,
    context: ContextView,
    n: usize,
    c: Cells<real>,
    step: Step,
) -> bool {
    let a = d.arithmetic;
    &&& is_search(d, context, n, c, step)
    &&& sizable(a, dot(c.r_hat, step.v, n as nat))
    &&& step.alpha * dot(c.r_hat, step.v, n as nat) == step.rho
    &&& sizable(a, step.alpha)
    &&& step.s.len() == n
    &&& forall|i: int| 0 <= i < n ==> #[trigger] step.s[i] == c.r[i] - step.alpha * step.v[i]
}

/// Whether these are the numbers and vectors of the rest of an iteration, and nothing breaks it
/// down.
pub open spec fn is_second_half(
    d: Device<real>,
    context: ContextView,
    n: usize,
    c: Cells<real>,
    step: Step,
) -> bool {
    let a = d.arithmetic;
    &&& step.z_s.len() == n && step.t.len() == n
    &&& preconditions(d, context, c.inverse, n, step.s, step.z_s)
    &&& multiplies(a, c, n, step.z_s, step.t)
    &&& dot(step.t, step.t, n as nat) > a.smallest_normal()
    &&& step.omega * dot(step.t, step.t, n as nat) == dot(step.t, step.s, n as nat)
    &&& sizable(a, step.omega)
}

/// The code with which a squared norm that is not negative stops an iteration: absolute, relative
/// or divergent, or none.
pub open spec fn verdict(a: Arithmetic<real>, state: Seq<real>, squared: real) -> Option<real> {
    if squared <= state[10] {
        Some((a.word)(0x4000_0000))
    } else if squared <= state[9] * state[7] {
        Some((a.word)(0x3f80_0000))
    } else if squared >= state[11] * state[7] {
        Some((a.word)(0x4040_0000))
    } else {
        None
    }
}

/// Whether a solve can take an iteration: its state is running, the parameters of its reductions
/// are in place and its buffers are long enough.
pub open spec fn poised(d: Device<real>, n: usize, c: Cells<real>) -> bool {
    &&& exact(d.arithmetic)
    &&& numbers_only(d.arithmetic)
    &&& n <= u32::MAX
    &&& shaped(d.arithmetic, n, c)
    &&& prepared_sums(d.arithmetic, n, c)
    &&& c.partials.len() >= 4 * super::meaning::sum_groups(n)
    &&& c.result.len() >= 4
    &&& c.state[12] == 1real
    &&& c.state[3] == 0real
    &&& c.state[5] == 0real
}

proof fn lemma_dot_same(x: Seq<real>, y: Seq<real>, u: Seq<real>, v: Seq<real>, n: nat)
    requires
        forall|i: int| 0 <= i < n ==> #[trigger] x[i] == u[i],
        forall|i: int| 0 <= i < n ==> #[trigger] y[i] == v[i],
    ensures
        dot(x, y, n) == dot(u, v, n),
    decreases n,
{
    if n > 0 {
        lemma_dot_same(x, y, u, v, (n - 1) as nat);
        assert(x[n - 1] == u[n - 1] && y[n - 1] == v[n - 1]);
    }
}

/// A sum of squares is not negative.
proof fn lemma_dot_square(x: Seq<real>, n: nat)
    ensures
        dot(x, x, n) >= 0real,
    decreases n,
{
    if n > 0 {
        lemma_dot_square(x, (n - 1) as nat);
        let e = x[n - 1];
        assert(e * e >= 0real) by (nonlinear_arith);
    }
}

/// A product with a factor that is not zero determines the other factor.
proof fn lemma_same_factor(x: real, y: real, by: real)
    requires
        x * by == y * by,
        by != 0real,
    ensures
        x == y,
{
    assert(x == y) by (nonlinear_arith)
        requires
            x * by == y * by,
            by != 0real,
    ;
}

/// What the preconditioner writes is what it is to make of the vector.
proof fn lemma_preconditions(
    d: Device<real>,
    context: ContextView,
    n: usize,
    inverse: Seq<real>,
    x: Seq<real>,
    y: Seq<real>,
    step: Seq<real>,
    z: Seq<real>,
)
    requires
        exact(d.arithmetic),
        n <= u32::MAX,
        4 * n <= usize::MAX,
        x.len() >= n,
        y.len() >= n,
        step.len() == n,
        forall|i: int| 0 <= i < n ==> #[trigger] x[i] == step[i],
        preconditions(d, context, inverse, n, step, z),
    ensures
        forall|i: int|
            0 <= i < n ==> #[trigger] preconditioned(d, context, n, inverse, x, y)[i] == z[i],
{
    super::meaning::lemma_covered(n);
    assert(crate::runtime::single_bytes(n) / 4 == n);
    assert(x.take(n as int) =~= step.take(n as int));
    assert forall|i: int| 0 <= i < n implies #[trigger] preconditioned(
        d,
        context,
        n,
        inverse,
        x,
        y,
    )[i] == z[i] by {
        assert(x[i] == step[i]);
        assert(z[i] == z[i]);
    }
}

/// What the product writes is the product.
proof fn lemma_multiplies(
    a: Arithmetic<real>,
    n: usize,
    c: Cells<real>,
    now: Cells<real>,
    x: Seq<real>,
    y: Seq<real>,
    step: Seq<real>,
    product: Seq<real>,
)
    requires
        n <= u32::MAX,
        shaped(a, n, c),
        now.rows == c.rows,
        now.columns == c.columns,
        now.values == c.values,
        y.len() >= n,
        forall|i: int| 0 <= i < n ==> #[trigger] x[i] == step[i],
        multiplies(a, c, n, step, product),
    ensures
        forall|i: int| 0 <= i < n ==> #[trigger] multiplied(a, n, now, x, y)[i] == product[i],
{
    super::meaning::lemma_covered(n);
    assert forall|i: int| 0 <= i < n implies #[trigger] multiplied(a, n, now, x, y)[i]
        == product[i] by {
        let (e, end) = ((a.count)(c.rows[i]), (a.count)(c.rows[i + 1]));
        assert forall|k: int| e <= k < end implies x[(a.count)(#[trigger] c.columns[k]) as int]
            == step[(a.count)(c.columns[k]) as int] by {
            assert((a.count)(c.columns[k]) < n);
        }
        super::repeat::lemma_row_same(a, c.columns, c.values, x, step, e, end, a.zero());
        assert(product[i] == product_entry(a, c.rows, c.columns, c.values, step, i));
    }
}

/// `begin_iteration` takes `rho` and gives `beta`.
proof fn lemma_begin(
    d: Device<real>,
    context: ContextView,
    n: usize,
    c: Cells<real>,
    step: Step,
    sums: Seq<real>,
)
    requires
        poised(d, n, c),
        is_search(d, context, n, c, step),
        sums[0] == step.rho,
    ensures
        ({
            let after = recurrence(d.arithmetic, Kernel::BeginIteration, c.state, sums);
            &&& after.len() == 16
            &&& after[1] == step.rho
            &&& after[6] == step.beta
            &&& after[13] == c.state[13] + 1real
            &&& forall|k: int|
                0 <= k < 16 && k != 1 && k != 6 && k != 13 ==> #[trigger] after[k] == c.state[k]
        }),
{
    let a = d.arithmetic;
    let after = recurrence(a, Kernel::BeginIteration, c.state, sums);
    assert(!a.vanishes(step.rho));
    if c.state[13] + 1real >= a.one_and_half() {
        assert(!a.vanishes(c.state[0]));
        assert(!a.vanishes(c.state[4]));
        assert(a.running(after));
        super::exact::lemma_begun(a, c.state, sums);
        let (s0, s4) = (c.state[0], c.state[4]);
        assert(s0 * s4 != 0real) by (nonlinear_arith)
            requires
                s0 != 0real,
                s4 != 0real,
        ;
        lemma_same_factor(after[6], step.beta, s0 * s4);
    }
}

/// A quotient that is large enough is taken.
proof fn lemma_quotient(a: Arithmetic<real>, x: real, y: real, q: real)
    requires
        exact(a),
        numbers_only(a),
        y != 0real,
        q * y == x,
        sizable(a, q),
    ensures
        quotient(a, x, y).0.hi == q,
        quotient(a, x, y).0.lo == 0real,
        quotient(a, x, y).1 is None,
{
    super::exact::lemma_divide(
        a,
        DoubleSingle { hi: x, lo: 0real },
        DoubleSingle { hi: y, lo: 0real },
    );
    let found = quotient(a, x, y).0;
    lemma_same_factor(found.hi, q, y);
    assert(!a.vanishes(q));
}

/// The state of an iteration that has begun.
spec fn begun_with(state: Seq<real>, step: Step, begun: Seq<real>) -> bool {
    &&& begun.len() == 16
    &&& begun[1] == step.rho
    &&& begun[6] == step.beta
    &&& begun[13] == state[13] + 1real
    &&& forall|k: int|
        0 <= k < 16 && k != 1 && k != 6 && k != 13 ==> #[trigger] begun[k] == state[k]
}

/// The search direction of an iteration and its product.
#[verifier::spinoff_prover]
proof fn lemma_search(
    d: Device<real>,
    context: ContextView,
    n: usize,
    c: Cells<real>,
    step: Step,
)
    requires
        poised(d, n, c),
        4 * n <= usize::MAX,
        is_search(d, context, n, c, step),
    ensures
        ({
            let mid = searched(d, context, n, c);
            &&& shaped(d.arithmetic, n, Cells { state: c.state, ..mid })
            &&& mid == (Cells {
                p: mid.p,
                z_p: mid.z_p,
                v: mid.v,
                state: mid.state,
                partials: mid.partials,
                result: mid.result,
                ..c
            })
            &&& mid.partials.len() == c.partials.len()
            &&& mid.result.len() == c.result.len()
            &&& forall|i: int| 0 <= i < n ==> #[trigger] mid.p[i] == step.p[i]
            &&& forall|i: int| 0 <= i < n ==> #[trigger] mid.z_p[i] == step.z_p[i]
            &&& forall|i: int| 0 <= i < n ==> #[trigger] mid.v[i] == step.v[i]
            &&& mid.result[0] == dot(c.r_hat, step.v, n as nat)
            &&& exists|begun: Seq<real>| #[trigger]
                begun_with(c.state, step, begun) && mid.state == recurrence(
                    d.arithmetic,
                    Kernel::FinishAlpha,
                    begun,
                    mid.result,
                )
        }),
{
    let a = d.arithmetic;
    super::meaning::lemma_covered(n);
    let mid = searched(d, context, n, c);
    let v1 = Sextet { x0: c.r_hat, y0: c.r, x1: c.r, y1: c.r, x2: c.r, y2: c.r };
    let c1 = summed(a, n, c, v1);
    super::exact::lemma_summed(a, n, c, v1);
    lemma_begin(d, context, n, c, step, c1.result);
    let begun = recurrence(a, Kernel::BeginIteration, c.state, c1.result);
    assert(a.running(begun));
    assert forall|i: int| 0 <= i < n implies #[trigger] mid.p[i] == step.p[i] by {
        let (w, v, p) = (c.state[4], c.v[i], c.p[i]);
        assert((-w) * v + p == p - w * v) by (nonlinear_arith);
        assert(begun[4] + begun[5] == w);
        assert(step.p[i] == step.p[i]);
    }
    lemma_preconditions(d, context, n, c.inverse, mid.p, c.z_p, step.p, step.z_p);
    assert(mid.z_p == preconditioned(d, context, n, c.inverse, mid.p, c.z_p));
    lemma_multiplies(a, n, c, c, mid.z_p, c.v, step.z_p, step.v);
    assert(mid.v == multiplied(a, n, c, mid.z_p, c.v));
    let v2 = Sextet { x0: c.r_hat, y0: mid.v, x1: c.r_hat, y1: mid.v, x2: c.r_hat, y2: mid.v };
    let c2 = Cells { state: begun, p: mid.p, z_p: mid.z_p, v: mid.v, ..c1 };
    super::exact::lemma_summed(a, n, c2, v2);
    assert(summed(a, n, c2, v2).result == mid.result);
    lemma_dot_same(c.r_hat, mid.v, c.r_hat, step.v, n as nat);
    assert(begun_with(c.state, step, begun));
    assert(mid.state == recurrence(a, Kernel::FinishAlpha, begun, mid.result));
}

/// The first half of an iteration.
#[verifier::spinoff_prover]
proof fn lemma_first_half(
    d: Device<real>,
    context: ContextView,
    n: usize,
    c: Cells<real>,
    step: Step,
)
    requires
        poised(d, n, c),
        4 * n <= usize::MAX,
        is_first_half(d, context, n, c, step),
    ensures
        ({
            let mid = searched(d, context, n, c);
            &&& shaped(d.arithmetic, n, mid)
            &&& mid == (Cells {
                p: mid.p,
                z_p: mid.z_p,
                v: mid.v,
                state: mid.state,
                partials: mid.partials,
                result: mid.result,
                ..c
            })
            &&& mid.partials.len() == c.partials.len()
            &&& mid.result.len() == c.result.len()
            &&& forall|i: int| 0 <= i < n ==> #[trigger] mid.p[i] == step.p[i]
            &&& forall|i: int| 0 <= i < n ==> #[trigger] mid.z_p[i] == step.z_p[i]
            &&& forall|i: int| 0 <= i < n ==> #[trigger] mid.v[i] == step.v[i]
            &&& mid.state[1] == step.rho
            &&& mid.state[2] == step.alpha
            &&& mid.state[3] == 0real
            &&& mid.state[6] == step.beta
            &&& mid.state[13] == c.state[13] + 1real
            &&& forall|k: int|
                0 <= k < 16 && k != 1 && k != 2 && k != 3 && k != 6 && k != 13
                    ==> #[trigger] mid.state[k] == c.state[k]
        }),
{
    let a = d.arithmetic;
    lemma_search(d, context, n, c, step);
    let mid = searched(d, context, n, c);
    let begun = choose|begun: Seq<real>| #[trigger]
        begun_with(c.state, step, begun) && mid.state == recurrence(
            a,
            Kernel::FinishAlpha,
            begun,
            mid.result,
        );
    let denominator = dot(c.r_hat, step.v, n as nat);
    assert(!a.vanishes(denominator));
    lemma_quotient(a, step.rho, denominator, step.alpha);
}

/// The middle of an iteration: the intermediate residual and the solution after the first half.
#[verifier::spinoff_prover]
proof fn lemma_middle(
    d: Device<real>,
    context: ContextView,
    n: usize,
    c: Cells<real>,
    step: Step,
)
    requires
        poised(d, n, c),
        4 * n <= usize::MAX,
        is_first_half(d, context, n, c, step),
    ensures
        ({
            let a = d.arithmetic;
            let mid = searched(d, context, n, c);
            let late = corrected(d, context, n, mid);
            let checked = recurrence(a, Kernel::CheckS, mid.state, late.result);
            &&& late == (Cells {
                s: late.s,
                x: late.x,
                z_s: late.z_s,
                t: late.t,
                state: late.state,
                partials: late.partials,
                result: late.result,
                ..mid
            })
            &&& late.s.len() == c.s.len() && late.x.len() == c.x.len()
            &&& late.z_s.len() == c.z_s.len() && late.t.len() == c.t.len()
            &&& late.partials.len() == c.partials.len()
            &&& late.result.len() == c.result.len()
            &&& forall|i: int| 0 <= i < n ==> #[trigger] late.s[i] == step.s[i]
            &&& forall|i: int|
                0 <= i < n ==> #[trigger] late.x[i] == c.x[i] + step.alpha * step.z_p[i]
            &&& late.z_s == preconditioned(d, context, n, c.inverse, late.s, c.z_s)
            &&& late.t == multiplied(a, n, c, late.z_s, c.t)
            &&& late.result[0] == dot(step.s, step.s, n as nat)
            &&& late.result[1] == dot(late.t, late.t, n as nat)
            &&& late.result[2] == dot(late.t, late.s, n as nat)
            &&& late.state == recurrence(a, Kernel::FinishOmega, checked, late.result)
            &&& checked.len() == 16
            &&& checked[8] == dot(step.s, step.s, n as nat)
            &&& match verdict(a, c.state, dot(step.s, step.s, n as nat)) {
                Some(code) => checked[12] == 0real && checked[14] == code,
                None => checked[12] == 1real && checked[14] == c.state[14],
            }
            &&& forall|k: int|
                0 <= k < 16 && k != 8 && k != 12 && k != 14 ==> #[trigger] checked[k]
                    == mid.state[k]
        }),
{
    let a = d.arithmetic;
    super::meaning::lemma_covered(n);
    lemma_first_half(d, context, n, c, step);
    let mid = searched(d, context, n, c);
    let late = corrected(d, context, n, mid);
    assert(a.running(mid.state));
    let alpha = step.alpha;
    assert(mid.state[2] + mid.state[3] == alpha);
    assert forall|i: int| 0 <= i < n implies #[trigger] late.s[i] == step.s[i] by {
        let v = mid.v[i];
        assert((-alpha) * v + c.r[i] == c.r[i] - alpha * v) by (nonlinear_arith);
        assert(step.s[i] == c.r[i] - alpha * step.v[i]);
    }
    assert forall|i: int| 0 <= i < n implies #[trigger] late.x[i] == c.x[i] + alpha
        * step.z_p[i] by {
        assert(mid.z_p[i] == step.z_p[i]);
    }
    assert(late.t == multiplied(a, n, mid, late.z_s, mid.t));
    assert(multiplied(a, n, mid, late.z_s, mid.t) == multiplied(a, n, c, late.z_s, c.t));
    let v3 = Sextet { x0: late.s, y0: late.s, x1: late.t, y1: late.t, x2: late.t, y2: late.s };
    let c3 = Cells { s: late.s, x: late.x, z_s: late.z_s, t: late.t, ..mid };
    super::exact::lemma_summed(a, n, c3, v3);
    assert(summed(a, n, c3, v3).result == late.result);
    lemma_dot_same(late.s, late.s, step.s, step.s, n as nat);
    lemma_dot_square(step.s, n as nat);
}

/// The second step length.
#[verifier::spinoff_prover]
proof fn lemma_late(d: Device<real>, context: ContextView, n: usize, c: Cells<real>, step: Step)
    requires
        poised(d, n, c),
        4 * n <= usize::MAX,
        is_first_half(d, context, n, c, step),
        verdict(d.arithmetic, c.state, dot(step.s, step.s, n as nat)) is None,
        is_second_half(d, context, n, c, step),
    ensures
        ({
            let mid = searched(d, context, n, c);
            let late = corrected(d, context, n, mid);
            &&& late.state.len() == 16
            &&& late.state[4] == step.omega
            &&& late.state[5] == 0real
            &&& late.state[12] == 1real
            &&& late.state[14] == c.state[14]
            &&& forall|k: int|
                0 <= k < 16 && k != 4 && k != 5 && k != 8 && k != 12 && k != 14
                    ==> #[trigger] late.state[k] == mid.state[k]
            &&& forall|i: int| 0 <= i < n ==> #[trigger] late.z_s[i] == step.z_s[i]
            &&& forall|i: int| 0 <= i < n ==> #[trigger] late.t[i] == step.t[i]
        }),
{
    let a = d.arithmetic;
    lemma_first_half(d, context, n, c, step);
    lemma_middle(d, context, n, c, step);
    let mid = searched(d, context, n, c);
    let late = corrected(d, context, n, mid);
    lemma_preconditions(d, context, n, c.inverse, late.s, c.z_s, step.s, step.z_s);
    lemma_multiplies(a, n, c, c, late.z_s, c.t, step.z_s, step.t);
    lemma_dot_same(late.t, late.t, step.t, step.t, n as nat);
    lemma_dot_same(late.t, late.s, step.t, step.s, n as nat);
    let tt = dot(step.t, step.t, n as nat);
    lemma_quotient(a, dot(step.t, step.s, n as nat), tt, step.omega);
}

/// The end of an iteration whose second step length is known.
#[verifier::spinoff_prover]
proof fn lemma_conclude(d: Device<real>, n: usize, c: Cells<real>, omega: real)
    requires
        exact(d.arithmetic),
        numbers_only(d.arithmetic),
        n <= u32::MAX,
        prepared_sums(d.arithmetic, n, c),
        c.partials.len() >= 4 * super::meaning::sum_groups(n),
        c.result.len() >= 4,
        c.x.len() >= n,
        c.r.len() >= n,
        c.state.len() == 16,
        c.state[12] == 1real,
        c.state[4] == omega,
        c.state[5] == 0real,
    ensures
        ({
            let a = d.arithmetic;
            let after = concluded(d, n, c);
            let squared = dot(after.r, after.r, n as nat);
            &&& after == (Cells {
                x: after.x,
                r: after.r,
                state: after.state,
                partials: after.partials,
                result: after.result,
                ..c
            })
            &&& forall|i: int| 0 <= i < n ==> #[trigger] after.x[i] == c.x[i] + omega * c.z_s[i]
            &&& forall|i: int| 0 <= i < n ==> #[trigger] after.r[i] == c.s[i] - omega * c.t[i]
            &&& after.state.len() == 16
            &&& after.state[0] == c.state[1]
            &&& after.state[8] == squared
            &&& forall|k: int|
                0 < k < 16 && k != 8 && k != 12 && k != 14 ==> #[trigger] after.state[k]
                    == c.state[k]
            &&& match verdict(a, c.state, squared) {
                Some(code) => after.state[12] == 0real && after.state[14] == code,
                None => if c.state[13] >= c.state[15] {
                    after.state[12] == 0real && after.state[14] == (a.word)(0x4080_0000)
                } else {
                    after.state[12] == 1real && after.state[14] == c.state[14]
                },
            }
        }),
{
    let a = d.arithmetic;
    super::meaning::lemma_covered(n);
    let after = concluded(d, n, c);
    assert(a.running(c.state));
    assert forall|i: int| 0 <= i < n implies #[trigger] after.r[i] == c.s[i] - omega * c.t[i] by {
        let t = c.t[i];
        assert((-omega) * t + c.s[i] == c.s[i] - omega * t) by (nonlinear_arith);
    }
    let v4 = Sextet {
        x0: c.r_hat,
        y0: after.r,
        x1: after.r,
        y1: after.r,
        x2: after.r,
        y2: after.r,
    };
    let c4 = Cells { x: after.x, r: after.r, ..c };
    super::exact::lemma_summed(a, n, c4, v4);
    assert(summed(a, n, c4, v4).result == after.result);
    lemma_dot_square(after.r, n as nat);
}

/// The end of an iteration: what is done to the solution and to the residual, and the last check.
#[verifier::spinoff_prover]
proof fn lemma_end(
    d: Device<real>,
    context: ContextView,
    n: usize,
    c: Cells<real>,
    step: Step,
)
    requires
        poised(d, n, c),
        4 * n <= usize::MAX,
        is_first_half(d, context, n, c, step),
        verdict(d.arithmetic, c.state, dot(step.s, step.s, n as nat)) is None,
        is_second_half(d, context, n, c, step),
    ensures
        ({
            let a = d.arithmetic;
            let after = iterated(d, context, n, c);
            let squared = dot(after.r, after.r, n as nat);
            &&& forall|i: int| 0 <= i < n ==> #[trigger] after.p[i] == step.p[i]
            &&& forall|i: int| 0 <= i < n ==> #[trigger] after.z_p[i] == step.z_p[i]
            &&& forall|i: int| 0 <= i < n ==> #[trigger] after.v[i] == step.v[i]
            &&& forall|i: int| 0 <= i < n ==> #[trigger] after.s[i] == step.s[i]
            &&& forall|i: int| 0 <= i < n ==> #[trigger] after.z_s[i] == step.z_s[i]
            &&& forall|i: int| 0 <= i < n ==> #[trigger] after.t[i] == step.t[i]
            &&& forall|i: int|
                0 <= i < n ==> #[trigger] after.x[i] == c.x[i] + step.alpha * step.z_p[i]
                    + step.omega * step.z_s[i]
            &&& forall|i: int|
                0 <= i < n ==> #[trigger] after.r[i] == step.s[i] - step.omega * step.t[i]
            &&& after.state.len() == 16
            &&& after.state[0] == step.rho
            &&& after.state[1] == step.rho
            &&& after.state[2] == step.alpha
            &&& after.state[3] == 0real
            &&& after.state[4] == step.omega
            &&& after.state[5] == 0real
            &&& after.state[6] == step.beta
            &&& after.state[8] == squared
            &&& after.state[13] == c.state[13] + 1real
            &&& forall|k: int|
                7 <= k < 16 && k != 8 && k != 12 && k != 13 && k != 14
                    ==> #[trigger] after.state[k] == c.state[k]
            &&& match verdict(a, c.state, squared) {
                Some(code) => after.state[12] == 0real && after.state[14] == code,
                None => if c.state[13] + 1real >= c.state[15] {
                    after.state[12] == 0real && after.state[14] == (a.word)(0x4080_0000)
                } else {
                    after.state[12] == 1real && after.state[14] == c.state[14]
                },
            }
            &&& after.r_hat == c.r_hat && after.b == c.b
            &&& after.rows == c.rows && after.columns == c.columns && after.values == c.values
            &&& after.inverse == c.inverse
        }),
{
    lemma_first_half(d, context, n, c, step);
    lemma_middle(d, context, n, c, step);
    lemma_late(d, context, n, c, step);
    let mid = searched(d, context, n, c);
    let late = corrected(d, context, n, mid);
    let after = iterated(d, context, n, c);
    lemma_conclude(d, n, late, step.omega);
    let omega = step.omega;
    assert forall|i: int| 0 <= i < n implies #[trigger] after.r[i] == step.s[i] - omega
        * step.t[i] by {
        assert(late.t[i] == step.t[i] && late.s[i] == step.s[i]);
    }
    assert forall|i: int| 0 <= i < n implies #[trigger] after.x[i] == c.x[i] + step.alpha
        * step.z_p[i] + omega * step.z_s[i] by {
        assert(late.z_s[i] == step.z_s[i]);
        assert(late.x[i] == c.x[i] + step.alpha * step.z_p[i]);
    }
}

/// The end of an iteration that stopped half way, by its first check or by a breakdown of its
/// second step length.
#[verifier::spinoff_prover]
proof fn lemma_half_way(
    d: Device<real>,
    context: ContextView,
    n: usize,
    c: Cells<real>,
    step: Step,
)
    requires
        poised(d, n, c),
        4 * n <= usize::MAX,
        is_first_half(d, context, n, c, step),
    ensures
        ({
            let a = d.arithmetic;
            let after = iterated(d, context, n, c);
            let late = corrected(d, context, n, searched(d, context, n, c));
            late.state[12] == 0real ==> {
                &&& after.x == late.x
                &&& after.r == c.r
                &&& after.p == late.p
                &&& after.s == late.s
                &&& after.state == late.state
                &&& after.r_hat == c.r_hat && after.b == c.b
                &&& after.rows == c.rows && after.columns == c.columns && after.values == c.values
                &&& after.inverse == c.inverse
            }
        }),
{
    lemma_first_half(d, context, n, c, step);
    lemma_middle(d, context, n, c, step);
    let late = corrected(d, context, n, searched(d, context, n, c));
    let after = iterated(d, context, n, c);
    if late.state[12] == 0real {
        assert(!d.arithmetic.running(late.state));
        assert(after.x =~= late.x);
        assert(after.r =~= late.r);
    }
}

/// The cells after a number of iterations.
spec fn repeated<T>(
    d: Device<T>,
    context: ContextView,
    n: usize,
    c: Cells<T>,
    count: nat,
) -> Cells<T>
    decreases count,
{
    if count == 0 {
        c
    } else {
        iterated(d, context, n, repeated(d, context, n, c, (count - 1) as nat))
    }
}

proof fn lemma_repeated<T>(
    d: Device<T>,
    context: ContextView,
    n: usize,
    c: Cells<T>,
    count: nat,
    more: nat,
)
    ensures
        repeated(d, context, n, c, count + more) == repeated(
            d,
            context,
            n,
            repeated(d, context, n, c, count),
            more,
        ),
    decreases more,
{
    if more > 0 {
        lemma_repeated(d, context, n, c, count, (more - 1) as nat);
    }
}

proof fn lemma_iterations<T>(
    d: Device<T>,
    m: Map<usize, Seq<T>>,
    before: RuntimeView,
    context: ContextView,
    solve: SolveView,
    sizes: Seq<u64>,
    label: Seq<char>,
    count: nat,
)
    requires
        solve.active(context),
        laid_out(context, solve, sizes),
    ensures
        ({
            let start = super::encode::Recording {
                runtime: before,
                encoder: crate::command::EncoderView::empty(label),
            };
            let end = super::session::iterations(start, context, solve, count);
            &&& before.commands.len() <= end.runtime.commands.len()
            &&& cells(recorded(d, m, before, end), context, solve) == repeated(
                d,
                context,
                solve.workspace.n,
                cells(m, context, solve),
                count,
            )
        }),
    decreases count,
{
    let start = super::encode::Recording {
        runtime: before,
        encoder: crate::command::EncoderView::empty(label),
    };
    if count == 0 {
        assert(super::laws::appended(before, before) =~= seq![]);
        assert(start.encoder.encoded =~= seq![]);
        assert(recorded(d, m, before, start) == m);
    } else {
        let earlier = (count - 1) as nat;
        lemma_iterations(d, m, before, context, solve, sizes, label, earlier);
        super::meaning::law_iteration_meaning(
            d,
            m,
            before,
            super::session::iterations(start, context, solve, earlier),
            context,
            solve,
            sizes,
        );
    }
}

/// What a batch leaves in the buffers of a solve.
proof fn lemma_batch<T>(
    d: Device<T>,
    m: Map<usize, Seq<T>>,
    before: RuntimeView,
    context: ContextView,
    solve: SolveView,
    sizes: Seq<u64>,
    count: nat,
)
    requires
        solve.active(context),
        laid_out(context, solve, sizes),
    ensures
        cells(
            carried_out(
                d,
                m,
                before,
                super::session::with_batch(before, context, solve, count),
            ),
            context,
            solve,
        ) == repeated(d, context, solve.workspace.n, cells(m, context, solve), count),
{
    let label = "kryst resident BiCGSTAB batch"@;
    let start = super::encode::Recording {
        runtime: before,
        encoder: crate::command::EncoderView::empty(label),
    };
    lemma_iterations(d, m, before, context, solve, sizes, label, count);
    let end = super::session::iterations(start, context, solve, count);
    super::meaning::lemma_run_more(
        d,
        m,
        before,
        end.runtime,
        crate::command::CommandView::Submit {
            label: end.encoder.label,
            encoded: end.encoder.encoded,
        },
    );
}

/// What the cells of a solve are: the contents of its buffers.
pub proof fn law_cells_are_buffers<T>(
    m: Map<usize, Seq<T>>,
    context: ContextView,
    solve: SolveView,
)
    ensures
        ({
            let c = cells(m, context, solve);
            let w = solve.workspace;
            &&& c.vector_params == m[context.vector_params]
            &&& c.reduction_params == m[context.reduction_params]
            &&& c.rows == m[solve.operator.row_offsets]
            &&& c.columns == m[solve.operator.column_indices]
            &&& c.values == m[solve.operator.values]
            &&& context.preconditioner matches Some(PreparedView::Jacobi(jacobi)) ==> c.inverse
                == m[jacobi.inverse_diagonal]
            &&& c.r == m[w.r.buffer] && c.r_hat == m[w.r_hat.buffer] && c.p == m[w.p.buffer]
            &&& c.v == m[w.v.buffer] && c.s == m[w.s.buffer] && c.t == m[w.t.buffer]
            &&& c.z_p == m[w.z_p.buffer] && c.z_s == m[w.z_s.buffer] && c.ax == m[w.ax.buffer]
            &&& c.partials == m[w.reduction.partials] && c.result == m[w.reduction.result]
            &&& c.state == m[w.state] && c.x == m[solve.x.buffer] && c.b == m[solve.b.buffer]
        }),
{
}

/// A batch of iterations is as many iterations as it counts: none leaves everything as it is, and
/// one batch after another does what a single batch of both counts does.
pub proof fn law_batches_add_up<T>(
    d: Device<T>,
    m: Map<usize, Seq<T>>,
    before: RuntimeView,
    context: ContextView,
    solve: SolveView,
    sizes: Seq<u64>,
    count: nat,
    more: nat,
)
    requires
        solve.active(context),
        laid_out(context, solve, sizes),
    ensures
        ({
            let batch = |memory: Map<usize, Seq<T>>, k: nat|
                carried_out(
                    d,
                    memory,
                    before,
                    super::session::with_batch(before, context, solve, k),
                );
            &&& cells(batch(m, 0), context, solve) == cells(m, context, solve)
            &&& cells(batch(m, count + more), context, solve) == cells(
                batch(batch(m, count), more),
                context,
                solve,
            )
        }),
{
    let n = solve.workspace.n;
    let first = carried_out(
        d,
        m,
        before,
        super::session::with_batch(before, context, solve, count),
    );
    lemma_batch(d, m, before, context, solve, sizes, 0);
    lemma_batch(d, m, before, context, solve, sizes, count);
    lemma_batch(d, m, before, context, solve, sizes, count + more);
    lemma_batch(d, first, before, context, solve, sizes, more);
    lemma_repeated(d, context, n, cells(m, context, solve), count, more);
}

/// The preconditioner that a context holds takes part in every iteration, running or stopped:
/// afterwards `z_p` and `z_s` are what it makes of `p` and `s`. Diagonal scaling multiplies each
/// entry by that of the inverse diagonal, no preconditioning leaves it as it is, and a caller's
/// preconditioner is what it is.
#[verifier::spinoff_prover]
#[verifier::rlimit(40)]
pub proof fn law_iteration_preconditions(
    d: Device<real>,
    m: Map<usize, Seq<real>>,
    before: RuntimeView,
    context: ContextView,
    solve: SolveView,
    sizes: Seq<u64>,
    i: int,
)
    requires
        solve.active(context),
        laid_out(context, solve, sizes),
        exact(d.arithmetic),
        4 * solve.workspace.n <= usize::MAX,
        0 <= i < solve.workspace.n,
        m[solve.workspace.p.buffer].len() >= solve.workspace.n,
        m[solve.workspace.s.buffer].len() >= solve.workspace.n,
        m[solve.workspace.z_p.buffer].len() >= solve.workspace.n,
        m[solve.workspace.z_s.buffer].len() >= solve.workspace.n,
    ensures
        ({
            let w = solve.workspace;
            let n = w.n as int;
            let after = carried_out(
                d,
                m,
                before,
                super::session::with_batch(before, context, solve, 1),
            );
            &&& context.custom is None ==> match context.preconditioner->0 {
                PreparedView::Jacobi(jacobi) => {
                    &&& after[w.z_p.buffer][i] == m[jacobi.inverse_diagonal][i]
                        * after[w.p.buffer][i]
                    &&& after[w.z_s.buffer][i] == m[jacobi.inverse_diagonal][i]
                        * after[w.s.buffer][i]
                },
                PreparedView::Identity => {
                    &&& after[w.z_p.buffer][i] == after[w.p.buffer][i]
                    &&& after[w.z_s.buffer][i] == after[w.s.buffer][i]
                },
            }
            &&& context.custom is Some ==> {
                &&& after[w.z_p.buffer][i] == (d.precondition)(after[w.p.buffer].take(n))[i]
                &&& after[w.z_s.buffer][i] == (d.precondition)(after[w.s.buffer].take(n))[i]
            }
        }),
{
    let n = solve.workspace.n;
    let c = cells(m, context, solve);
    lemma_batch(d, m, before, context, solve, sizes, 1);
    assert(repeated(d, context, n, c, 0) == c);
    assert(repeated(d, context, n, c, 1) == iterated(d, context, n, c));
    super::meaning::lemma_covered(n);
    assert(crate::runtime::single_bytes(n) / 4 == n);
    let after = iterated(d, context, n, c);
    assert(after.z_p == preconditioned(d, context, n, c.inverse, after.p, c.z_p));
    assert(after.z_s == preconditioned(d, context, n, c.inverse, after.s, c.z_s));
}

/// An iteration that nothing stops half way is an iteration of BiCGSTAB, in exact arithmetic: the
/// vectors and the state hold the numbers of the step, the solution and the residual have moved by
/// it, and the state goes on unless the new residual is within a tolerance, diverges, or the last
/// iteration has been reached.
#[verifier::spinoff_prover]
#[verifier::rlimit(40)]
pub proof fn law_iteration_is_a_step(
    d: Device<real>,
    m: Map<usize, Seq<real>>,
    before: RuntimeView,
    context: ContextView,
    solve: SolveView,
    sizes: Seq<u64>,
    step: Step,
)
    requires
        solve.active(context),
        laid_out(context, solve, sizes),
        4 * solve.workspace.n <= usize::MAX,
        poised(d, solve.workspace.n, cells(m, context, solve)),
        is_first_half(d, context, solve.workspace.n, cells(m, context, solve), step),
        is_second_half(d, context, solve.workspace.n, cells(m, context, solve), step),
        verdict(
            d.arithmetic,
            m[solve.workspace.state],
            dot(step.s, step.s, solve.workspace.n as nat),
        ) is None,
    ensures
        ({
            let a = d.arithmetic;
            let n = solve.workspace.n;
            let c = cells(m, context, solve);
            let after = cells(
                carried_out(
                    d,
                    m,
                    before,
                    super::session::with_batch(before, context, solve, 1),
                ),
                context,
                solve,
            );
            let squared = dot(after.r, after.r, n as nat);
            &&& forall|i: int|
                0 <= i < n ==> #[trigger] after.x[i] == c.x[i] + step.alpha * step.z_p[i]
                    + step.omega * step.z_s[i]
            &&& forall|i: int|
                0 <= i < n ==> #[trigger] after.r[i] == step.s[i] - step.omega * step.t[i]
            &&& forall|i: int| 0 <= i < n ==> #[trigger] after.p[i] == step.p[i]
            &&& forall|i: int| 0 <= i < n ==> #[trigger] after.v[i] == step.v[i]
            &&& forall|i: int| 0 <= i < n ==> #[trigger] after.s[i] == step.s[i]
            &&& forall|i: int| 0 <= i < n ==> #[trigger] after.t[i] == step.t[i]
            &&& after.state[0] == step.rho && after.state[1] == step.rho
            &&& after.state[2] == step.alpha && after.state[3] == 0real
            &&& after.state[4] == step.omega && after.state[5] == 0real
            &&& after.state[6] == step.beta && after.state[8] == squared
            &&& after.state[13] == c.state[13] + 1real
            &&& forall|k: int|
                7 <= k < 16 && k != 8 && k != 12 && k != 13 && k != 14
                    ==> #[trigger] after.state[k] == c.state[k]
            &&& match verdict(a, c.state, squared) {
                Some(code) => after.state[12] == 0real && after.state[14] == code,
                None => if c.state[13] + 1real >= c.state[15] {
                    after.state[12] == 0real && after.state[14] == (a.word)(0x4080_0000)
                } else {
                    after.state[12] == 1real && after.state[14] == c.state[14]
                },
            }
            &&& after.r_hat == c.r_hat && after.b == c.b
            &&& after.rows == c.rows && after.columns == c.columns && after.values == c.values
        }),
{
    let n = solve.workspace.n;
    let c = cells(m, context, solve);
    lemma_batch(d, m, before, context, solve, sizes, 1);
    assert(repeated(d, context, n, c, 0) == c);
    assert(repeated(d, context, n, c, 1) == iterated(d, context, n, c));
    lemma_end(d, context, n, c, step);
}

/// An iteration whose intermediate residual is within a tolerance, or diverges, stops half way with
/// the reason: the solution has moved by the first half of the step only.
#[verifier::spinoff_prover]
#[verifier::rlimit(40)]
pub proof fn law_iteration_stops_half_way(
    d: Device<real>,
    m: Map<usize, Seq<real>>,
    before: RuntimeView,
    context: ContextView,
    solve: SolveView,
    sizes: Seq<u64>,
    step: Step,
)
    requires
        solve.active(context),
        laid_out(context, solve, sizes),
        4 * solve.workspace.n <= usize::MAX,
        poised(d, solve.workspace.n, cells(m, context, solve)),
        is_first_half(d, context, solve.workspace.n, cells(m, context, solve), step),
        verdict(
            d.arithmetic,
            m[solve.workspace.state],
            dot(step.s, step.s, solve.workspace.n as nat),
        ) is Some,
    ensures
        ({
            let a = d.arithmetic;
            let n = solve.workspace.n;
            let c = cells(m, context, solve);
            let after = cells(
                carried_out(
                    d,
                    m,
                    before,
                    super::session::with_batch(before, context, solve, 1),
                ),
                context,
                solve,
            );
            let squared = dot(step.s, step.s, n as nat);
            &&& forall|i: int|
                0 <= i < n ==> #[trigger] after.x[i] == c.x[i] + step.alpha * step.z_p[i]
            &&& after.r == c.r
            &&& after.state[8] == squared
            &&& after.state[12] == 0real
            &&& verdict(a, c.state, squared) == Some(after.state[14])
            &&& after.state[13] == c.state[13] + 1real
            &&& after.b == c.b
        }),
{
    let n = solve.workspace.n;
    let c = cells(m, context, solve);
    lemma_batch(d, m, before, context, solve, sizes, 1);
    assert(repeated(d, context, n, c, 0) == c);
    assert(repeated(d, context, n, c, 1) == iterated(d, context, n, c));
    lemma_first_half(d, context, n, c, step);
    lemma_middle(d, context, n, c, step);
    lemma_half_way(d, context, n, c, step);
}

/// An iteration whose second step length cannot be taken, because `t . t` is too small or the
/// length itself is, stops half way with a breakdown.
#[verifier::spinoff_prover]
#[verifier::rlimit(40)]
pub proof fn law_iteration_breaks_down_half_way(
    d: Device<real>,
    m: Map<usize, Seq<real>>,
    before: RuntimeView,
    context: ContextView,
    solve: SolveView,
    sizes: Seq<u64>,
    step: Step,
)
    requires
        solve.active(context),
        laid_out(context, solve, sizes),
        4 * solve.workspace.n <= usize::MAX,
        poised(d, solve.workspace.n, cells(m, context, solve)),
        is_first_half(d, context, solve.workspace.n, cells(m, context, solve), step),
        verdict(
            d.arithmetic,
            m[solve.workspace.state],
            dot(step.s, step.s, solve.workspace.n as nat),
        ) is None,
        step.z_s.len() == solve.workspace.n,
        step.t.len() == solve.workspace.n,
        preconditions(
            d,
            context,
            cells(m, context, solve).inverse,
            solve.workspace.n,
            step.s,
            step.z_s,
        ),
        multiplies(
            d.arithmetic,
            cells(m, context, solve),
            solve.workspace.n,
            step.z_s,
            step.t,
        ),
        ({
            let tt = dot(step.t, step.t, solve.workspace.n as nat);
            ||| tt <= d.arithmetic.smallest_normal()
            ||| step.omega * tt == dot(step.t, step.s, solve.workspace.n as nat) && !sizable(
                d.arithmetic,
                step.omega,
            )
        }),
    ensures
        ({
            let a = d.arithmetic;
            let n = solve.workspace.n;
            let c = cells(m, context, solve);
            let after = cells(
                carried_out(
                    d,
                    m,
                    before,
                    super::session::with_batch(before, context, solve, 1),
                ),
                context,
                solve,
            );
            &&& forall|i: int|
                0 <= i < n ==> #[trigger] after.x[i] == c.x[i] + step.alpha * step.z_p[i]
            &&& after.r == c.r
            &&& after.state[12] == 0real
            &&& after.state[14] == (a.word)(0x40a0_0000)
            &&& after.state[13] == c.state[13] + 1real
        }),
{
    let n = solve.workspace.n;
    let c = cells(m, context, solve);
    lemma_batch(d, m, before, context, solve, sizes, 1);
    assert(repeated(d, context, n, c, 0) == c);
    assert(repeated(d, context, n, c, 1) == iterated(d, context, n, c));
    let a = d.arithmetic;
    lemma_first_half(d, context, n, c, step);
    lemma_middle(d, context, n, c, step);
    lemma_half_way(d, context, n, c, step);
    let mid = searched(d, context, n, c);
    let late = corrected(d, context, n, mid);
    lemma_preconditions(d, context, n, c.inverse, late.s, c.z_s, step.s, step.z_s);
    lemma_multiplies(a, n, c, c, late.z_s, c.t, step.z_s, step.t);
    lemma_dot_same(late.t, late.t, step.t, step.t, n as nat);
    lemma_dot_same(late.t, late.s, step.t, step.s, n as nat);
    let tt = dot(step.t, step.t, n as nat);
    let ts = dot(step.t, step.s, n as nat);
    if tt > a.smallest_normal() {
        super::exact::lemma_divide(
            a,
            DoubleSingle { hi: ts, lo: 0real },
            DoubleSingle { hi: tt, lo: 0real },
        );
        lemma_same_factor(quotient(a, ts, tt).0.hi, step.omega, tt);
    }
}

/// An iteration that finds `rho` too small stops at once with a breakdown, is not counted, and
/// leaves the solution and the residual as they are.
#[verifier::spinoff_prover]
#[verifier::rlimit(40)]
pub proof fn law_iteration_breaks_down_at_once(
    d: Device<real>,
    m: Map<usize, Seq<real>>,
    before: RuntimeView,
    context: ContextView,
    solve: SolveView,
    sizes: Seq<u64>,
)
    requires
        solve.active(context),
        laid_out(context, solve, sizes),
        4 * solve.workspace.n <= usize::MAX,
        poised(d, solve.workspace.n, cells(m, context, solve)),
        !sizable(
            d.arithmetic,
            dot(
                m[solve.workspace.r_hat.buffer],
                m[solve.workspace.r.buffer],
                solve.workspace.n as nat,
            ),
        ),
    ensures
        ({
            let a = d.arithmetic;
            let n = solve.workspace.n;
            let c = cells(m, context, solve);
            let after = cells(
                carried_out(
                    d,
                    m,
                    before,
                    super::session::with_batch(before, context, solve, 1),
                ),
                context,
                solve,
            );
            &&& after.x == c.x
            &&& after.r == c.r
            &&& after.p == c.p
            &&& after.state == c.state.update(14, (a.word)(0x40a0_0000)).update(12, 0real)
        }),
{
    let n = solve.workspace.n;
    let c = cells(m, context, solve);
    lemma_batch(d, m, before, context, solve, sizes, 1);
    assert(repeated(d, context, n, c, 0) == c);
    assert(repeated(d, context, n, c, 1) == iterated(d, context, n, c));
    let a = d.arithmetic;
    let v1 = Sextet { x0: c.r_hat, y0: c.r, x1: c.r, y1: c.r, x2: c.r, y2: c.r };
    super::exact::lemma_summed(a, n, c, v1);
    let c1 = summed(a, n, c, v1);
    let stopped = recurrence(a, Kernel::BeginIteration, c.state, c1.result);
    assert(a.vanishes(dot(c.r_hat, c.r, n as nat)));
    assert(stopped == c.state.update(14, (a.word)(0x40a0_0000)).update(12, 0real));
    let mid = searched(d, context, n, c);
    let late = corrected(d, context, n, mid);
    let after = iterated(d, context, n, c);
    assert(!a.running(stopped));
    assert(mid.state == stopped && mid.p =~= c.p);
    assert(late.state == stopped && late.x =~= c.x);
    assert(after.x =~= c.x && after.r =~= c.r);
}

/// An iteration whose first step length cannot be taken, because `r_hat . v` is too small or the
/// length itself is, stops with a breakdown and leaves the solution and the residual as they are.
#[verifier::spinoff_prover]
#[verifier::rlimit(40)]
pub proof fn law_iteration_breaks_down_at_first_length(
    d: Device<real>,
    m: Map<usize, Seq<real>>,
    before: RuntimeView,
    context: ContextView,
    solve: SolveView,
    sizes: Seq<u64>,
    step: Step,
)
    requires
        solve.active(context),
        laid_out(context, solve, sizes),
        4 * solve.workspace.n <= usize::MAX,
        poised(d, solve.workspace.n, cells(m, context, solve)),
        is_search(d, context, solve.workspace.n, cells(m, context, solve), step),
        ({
            let denominator = dot(
                m[solve.workspace.r_hat.buffer],
                step.v,
                solve.workspace.n as nat,
            );
            ||| !sizable(d.arithmetic, denominator)
            ||| step.alpha * denominator == step.rho && !sizable(d.arithmetic, step.alpha)
        }),
    ensures
        ({
            let a = d.arithmetic;
            let c = cells(m, context, solve);
            let after = cells(
                carried_out(
                    d,
                    m,
                    before,
                    super::session::with_batch(before, context, solve, 1),
                ),
                context,
                solve,
            );
            &&& after.x == c.x
            &&& after.r == c.r
            &&& after.state[12] == 0real
            &&& after.state[14] == (a.word)(0x40a0_0000)
            &&& after.state[13] == c.state[13] + 1real
        }),
{
    let a = d.arithmetic;
    let n = solve.workspace.n;
    let c = cells(m, context, solve);
    lemma_batch(d, m, before, context, solve, sizes, 1);
    assert(repeated(d, context, n, c, 0) == c);
    assert(repeated(d, context, n, c, 1) == iterated(d, context, n, c));
    lemma_search(d, context, n, c, step);
    let mid = searched(d, context, n, c);
    let begun = choose|begun: Seq<real>| #[trigger]
        begun_with(c.state, step, begun) && mid.state == recurrence(
            a,
            Kernel::FinishAlpha,
            begun,
            mid.result,
        );
    let denominator = dot(c.r_hat, step.v, n as nat);
    if sizable(a, denominator) {
        super::exact::lemma_divide(
            a,
            DoubleSingle { hi: step.rho, lo: 0real },
            DoubleSingle { hi: denominator, lo: 0real },
        );
        lemma_same_factor(quotient(a, step.rho, denominator).0.hi, step.alpha, denominator);
        assert(a.vanishes(step.alpha));
    } else {
        assert(a.vanishes(denominator));
    }
    assert(mid.state[12] == 0real && mid.state[14] == (a.word)(0x40a0_0000));
    let late = corrected(d, context, n, mid);
    let after = iterated(d, context, n, c);
    assert(!a.running(mid.state));
    assert(late.state == mid.state && late.x =~= c.x);
    assert(after.x =~= c.x && after.r =~= c.r);
}

/// Whether a device reads the words that the host writes, and its buffers are long enough for a
/// solve.
pub open spec fn roomy(d: Device<real>, n: usize, c: Cells<real>) -> bool {
    &&& exact(d.arithmetic)
    &&& numbers_only(d.arithmetic)
    &&& forall|word: u32| (d.arithmetic.count)(#[trigger] (d.arithmetic.word)(word)) == word
    &&& 4 * n <= usize::MAX
    &&& shaped(d.arithmetic, n, c)
    &&& c.vector_params.len() >= 4
    &&& c.reduction_params.len() >= 4
    &&& c.partials.len() >= 4 * super::meaning::sum_groups(n)
    &&& c.result.len() >= 4
}

/// Whether `r` is the right-hand side without the product of the matrix and the solution.
pub open spec fn residual_of(a: Arithmetic<real>, n: usize, c: Cells<real>, r: Seq<real>) -> bool {
    forall|i: int|
        0 <= i < n ==> #[trigger] r[i] == c.b[i] - product_entry(
            a,
            c.rows,
            c.columns,
            c.values,
            c.x,
            i,
        )
}

/// The first commands of a solve compute the residual of the first guess, start the shadow residual
/// and the search direction with it, and take the squared norms of the right-hand side and of the
/// residual. The system and the guess stay as they are.
#[verifier::spinoff_prover]
#[verifier::rlimit(40)]
pub proof fn law_startup_computes(
    d: Device<real>,
    m: Map<usize, Seq<real>>,
    before: RuntimeView,
    context: ContextView,
    solve: SolveView,
    sizes: Seq<u64>,
)
    requires
        solve.active(context),
        laid_out(context, solve, sizes),
        d.order == before.order,
        roomy(d, solve.workspace.n, cells(m, context, solve)),
    ensures
        ({
            let n = solve.workspace.n;
            let c = cells(m, context, solve);
            let after = cells(
                carried_out(d, m, before, super::session::with_startup(before, context, solve)),
                context,
                solve,
            );
            &&& residual_of(d.arithmetic, n, c, after.r)
            &&& forall|i: int|
                0 <= i < n ==> #[trigger] after.r_hat[i] == after.r[i] && after.p[i] == after.r[i]
            &&& after.result[0] == dot(c.b, c.b, n as nat)
            &&& after.result[1] == dot(after.r, after.r, n as nat)
            &&& after.x == c.x && after.b == c.b
            &&& after.rows == c.rows && after.columns == c.columns && after.values == c.values
            &&& after.inverse == c.inverse
            &&& roomy(d, n, after)
        }),
{
    let a = d.arithmetic;
    let n = solve.workspace.n;
    let c = cells(m, context, solve);
    super::meaning::law_steps_meaning(d, m, before, context, solve, sizes, 0, 0);
    super::exact::lemma_new_residual(a, n, c);
    assert(crate::runtime::single_bytes(n) / 4 == n);
    let c1 = super::meaning::with_new_residual(a, n, c);
    let after = super::meaning::started(a, n, c);
    let whole = n as nat;
    let c2 = Cells { r_hat: crate::device::overwritten(c1.r_hat, c1.r, whole), ..c1 };
    let c3 = Cells { p: crate::device::overwritten(c2.p, c2.r, whole), ..c2 };
    super::repeat::lemma_sums_prepared(a, n, c3);
    let c4 = Cells {
        reduction_params: super::meaning::stored(
            a,
            c3.reduction_params,
            super::meaning::sum_words(n),
        ),
        ..c3
    };
    let v = Sextet { x0: c3.b, y0: c3.b, x1: c3.r, y1: c3.r, x2: c3.r, y2: c3.r };
    super::exact::lemma_summed(a, n, c4, v);
    assert(after == summed(a, n, c4, v));
    assert(super::exact::is_residual(a, n, c1));
    assert forall|i: int| 0 <= i < n implies #[trigger] after.r[i] == c.b[i] - product_entry(
        a,
        c.rows,
        c.columns,
        c.values,
        c.x,
        i,
    ) by {
        assert(c1.r[i] == c1.b[i] - product_entry(a, c1.rows, c1.columns, c1.values, c1.x, i));
    }
}

/// The last commands of a solve compute the residual of its solution anew and take its squared
/// norm. The system and the solution stay as they are.
#[verifier::spinoff_prover]
#[verifier::rlimit(40)]
pub proof fn law_tail_computes(
    d: Device<real>,
    m: Map<usize, Seq<real>>,
    before: RuntimeView,
    context: ContextView,
    solve: SolveView,
    sizes: Seq<u64>,
)
    requires
        solve.active(context),
        laid_out(context, solve, sizes),
        d.order == before.order,
        roomy(d, solve.workspace.n, cells(m, context, solve)),
    ensures
        ({
            let n = solve.workspace.n;
            let c = cells(m, context, solve);
            let after = cells(
                carried_out(d, m, before, super::session::with_tail(before, context, solve)),
                context,
                solve,
            );
            &&& residual_of(d.arithmetic, n, c, after.r)
            &&& after.result[0] == dot(after.r, after.r, n as nat)
            &&& after.x == c.x && after.b == c.b
            &&& after.rows == c.rows && after.columns == c.columns && after.values == c.values
        }),
{
    let a = d.arithmetic;
    let n = solve.workspace.n;
    let c = cells(m, context, solve);
    super::meaning::law_steps_meaning(d, m, before, context, solve, sizes, 0, 0);
    super::exact::lemma_new_residual(a, n, c);
    let c1 = super::meaning::with_new_residual(a, n, c);
    let after = super::meaning::ended(a, n, c);
    super::repeat::lemma_sums_prepared(a, n, c1);
    let c2 = Cells {
        reduction_params: super::meaning::stored(
            a,
            c1.reduction_params,
            super::meaning::sum_words(n),
        ),
        ..c1
    };
    let v = Sextet { x0: c1.r, y0: c1.r, x1: c1.r, y1: c1.r, x2: c1.r, y2: c1.r };
    super::exact::lemma_summed(a, n, c2, v);
    assert(after == summed(a, n, c2, v));
    assert(super::exact::is_residual(a, n, c1));
    assert forall|i: int| 0 <= i < n implies #[trigger] after.r[i] == c.b[i] - product_entry(
        a,
        c.rows,
        c.columns,
        c.values,
        c.x,
        i,
    ) by {
        assert(c1.r[i] == c1.b[i] - product_entry(a, c1.rows, c1.columns, c1.values, c1.x, i));
    }
}

/// The initialisation of a solve leaves it poised for its first iteration: the state holds the
/// words of the state at the start, the reductions are prepared, and nothing else has changed.
#[verifier::spinoff_prover]
#[verifier::rlimit(40)]
pub proof fn law_state_poises(
    d: Device<real>,
    m: Map<usize, Seq<real>>,
    before: RuntimeView,
    context: ContextView,
    solve: SolveView,
    sizes: Seq<u64>,
    rhs_squared: u64,
    residual_squared: u64,
)
    requires
        solve.active(context),
        laid_out(context, solve, sizes),
        d.order == before.order,
        roomy(d, solve.workspace.n, cells(m, context, solve)),
        super::encode::state_error(context.convergence, rhs_squared, residual_squared) is None,
    ensures
        ({
            let a = d.arithmetic;
            let n = solve.workspace.n;
            let c = cells(m, context, solve);
            let after = cells(
                carried_out(
                    d,
                    m,
                    before,
                    super::session::with_state(
                        before,
                        context,
                        solve,
                        rhs_squared,
                        residual_squared,
                    ),
                ),
                context,
                solve,
            );
            let words = super::encode::resident_state(
                context.convergence,
                rhs_squared,
                residual_squared,
            );
            &&& poised(d, n, after)
            &&& forall|k: int| 0 <= k < 16 ==> #[trigger] after.state[k] == (a.word)(words[k])
            &&& after == (Cells {
                state: after.state,
                reduction_params: after.reduction_params,
                ..c
            })
        }),
{
    let a = d.arithmetic;
    let n = solve.workspace.n;
    let c = cells(m, context, solve);
    super::meaning::law_steps_meaning(
        d,
        m,
        before,
        context,
        solve,
        sizes,
        rhs_squared,
        residual_squared,
    );
    super::repeat::lemma_sums_prepared(a, n, c);
    super::encode::law_state_words(context.convergence, rhs_squared, residual_squared);
}

} // verus!
