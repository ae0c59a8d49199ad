//! What a solve does in exact arithmetic: its residual is `b - A x` from its start to its end.
use super::encode::Recording;
use super::laws::laid_out;
use super::meaning::{
    carried_out, cells, corrected, ended, iterated, preconditioned, prepared_sums, recorded,
    searched, shaped, started, sum_groups, summed, with_new_residual, Cells,
};
use super::session::SolveView;
use super::ContextView;
use crate::command::Kernel;
use crate::device::{
    ds_add, ds_divide, ds_from, ds_multiply, ds_negate, ds_value, exact, product_entry, recurrence,
    row_sum, Arithmetic, Device, DoubleSingle, Sextet,
};
use crate::runtime::RuntimeView;
use crate::sums::{dot, law_reduction_exact};
use vstd::prelude::*;

verus! {

/// Whether `r` is the residual of `x`.
pub open spec fn is_residual(a: Arithmetic<real>, n: usize, c: Cells<real>) -> bool {
    forall|i: int|
        0 <= i < n ==> #[trigger] c.r[i] == c.b[i] - product_entry(
            a,
            c.rows,
            c.columns,
            c.values,
            c.x,
            i,
        )
}

/// A scalar kernel that leaves the state running leaves its mark alone, and counts an iteration
/// only at its beginning.
proof fn lemma_still_running(
    a: Arithmetic<real>,
    kernel: Kernel,
    state: Seq<real>,
    sums: Seq<real>,
)
    requires
        exact(a),
        state.len() == 16,
        crate::command::kernel_module(kernel) is ResidentScalar,
    ensures
        ({
            let after = recurrence(a, kernel, state, sums);
            &&& after.len() == 16
            &&& a.running(after) ==> {
                &&& a.running(state)
                &&& after[13] == if kernel is BeginIteration {
                    state[13] + 1real
                } else {
                    state[13]
                }
                &&& !(kernel is FinishAlpha) ==> after[2] == state[2] && after[3] == state[3]
                &&& !(kernel is FinishOmega) ==> after[4] == state[4] && after[5] == state[5]
            }
        }),
{
}

proof fn lemma_row_linear(
    a: Arithmetic<real>,
    columns: Seq<real>,
    values: Seq<real>,
    x: Seq<real>,
    z: Seq<real>,
    u: Seq<real>,
    f: real,
    e: nat,
    end: nat,
    sx: real,
    sz: real,
)
    requires
        exact(a),
        forall|i: int|
            e <= i < end ==> u[(a.count)(#[trigger] columns[i]) as int] == x[(a.count)(
                columns[i],
            ) as int] + f * z[(a.count)(columns[i]) as int],
    ensures
        row_sum(a, columns, values, u, e, end, sx + f * sz) == row_sum(
            a,
            columns,
            values,
            x,
            e,
            end,
            sx,
        ) + f * row_sum(a, columns, values, z, e, end, sz),
    decreases end - e,
{
    if e < end {
        let v = values[e as int];
        let k = (a.count)(columns[e as int]) as int;
        let nx = v * x[k] + sx;
        let nz = v * z[k] + sz;
        let (xk, zk) = (x[k], z[k]);
        assert(v * (xk + f * zk) + (sx + f * sz) == (v * xk + sx) + f * (v * zk + sz))
            by (nonlinear_arith);
        lemma_row_linear(a, columns, values, x, z, u, f, e + 1, end, nx, nz);
    }
}

/// The product is linear in each entry.
proof fn lemma_product_linear(
    a: Arithmetic<real>,
    n: usize,
    c: Cells<real>,
    x: Seq<real>,
    z: Seq<real>,
    u: Seq<real>,
    f: real,
    row: int,
)
    requires
        exact(a),
        shaped(a, n, c),
        0 <= row < n,
        forall|i: int| 0 <= i < n ==> #[trigger] u[i] == x[i] + f * z[i],
    ensures
        product_entry(a, c.rows, c.columns, c.values, u, row) == product_entry(
            a,
            c.rows,
            c.columns,
            c.values,
            x,
            row,
        ) + f * product_entry(a, c.rows, c.columns, c.values, z, row),
{
    let e = (a.count)(c.rows[row]);
    let end = (a.count)(c.rows[row + 1]);
    assert forall|i: int| e <= i < end implies u[(a.count)(#[trigger] c.columns[i]) as int] == x[(
    a.count)(c.columns[i]) as int] + f * z[(a.count)(c.columns[i]) as int] by {
        assert((a.count)(c.columns[i]) < n);
    }
    lemma_row_linear(a, c.columns, c.values, x, z, u, f, e, end, 0real, 0real);
    assert(0real + f * 0real == 0real) by (nonlinear_arith);
}

/// An iteration that is not stopped keeps the residual, in exact arithmetic: the solution moves
/// along the preconditioned search direction and along the preconditioned intermediate residual,
/// and `r` is `b - A x` again.
#[verifier::spinoff_prover]
pub proof fn law_iterated_keeps_residual(
    d: Device<real>,
    context: ContextView,
    n: usize,
    c: Cells<real>,
)
    requires
        exact(d.arithmetic),
        n <= u32::MAX,
        shaped(d.arithmetic, n, c),
        is_residual(d.arithmetic, n, c),
        d.arithmetic.running(corrected(d, context, n, searched(d, context, n, c)).state),
    ensures
        ({
            let after = iterated(d, context, n, c);
            let alpha = searched(d, context, n, c).state[2] + searched(d, context, n, c).state[3];
            let late = corrected(d, context, n, searched(d, context, n, c)).state;
            let omega = late[4] + late[5];
            &&& is_residual(d.arithmetic, n, after)
            &&& forall|i: int|
                0 <= i < n ==> #[trigger] after.x[i] == c.x[i] + alpha * after.z_p[i] + omega
                    * after.z_s[i]
            &&& after.z_p == preconditioned(d, context, n, c.inverse, after.p, c.z_p)
            &&& after.z_s == preconditioned(d, context, n, c.inverse, after.s, c.z_s)
            &&& late[13] == c.state[13] + 1real
            &&& after.r_hat == c.r_hat
            &&& after.b == c.b
            &&& after.rows == c.rows
            &&& after.columns == c.columns
            &&& after.values == c.values
            &&& after.inverse == c.inverse
        }),
{
    let a = d.arithmetic;
    super::meaning::lemma_covered(n);
    let mid = searched(d, context, n, c);
    let late = corrected(d, context, n, mid);
    let after = iterated(d, context, n, c);
    let first = summed(
        a,
        n,
        c,
        Sextet { x0: c.r_hat, y0: c.r, x1: c.r, y1: c.r, x2: c.r, y2: c.r },
    );
    let begun = recurrence(a, Kernel::BeginIteration, c.state, first.result);
    // the state through the scalar kernels
    lemma_still_running(a, Kernel::BeginIteration, c.state, first.result);
    lemma_still_running(a, Kernel::FinishAlpha, begun, mid.result);
    assert(mid.state == recurrence(a, Kernel::FinishAlpha, begun, mid.result));
    lemma_still_running(a, Kernel::CheckS, mid.state, late.result);
    let checked = recurrence(a, Kernel::CheckS, mid.state, late.result);
    lemma_still_running(a, Kernel::FinishOmega, checked, late.result);
    assert(late.state == recurrence(a, Kernel::FinishOmega, checked, late.result));
    let alpha = mid.state[2] + mid.state[3];
    let omega = late.state[4] + late.state[5];
    // the vectors
    assert(mid.x == c.x && mid.r == c.r && mid.b == c.b);
    assert forall|i: int| 0 <= i < n implies #[trigger] mid.v[i] == product_entry(
        a,
        c.rows,
        c.columns,
        c.values,
        mid.z_p,
        i,
    ) by {}
    assert forall|i: int| 0 <= i < n implies #[trigger] late.s[i] == c.r[i] - alpha * mid.v[i] by {
        let v = mid.v[i];
        assert((-alpha) * v + c.r[i] == c.r[i] - alpha * v) by (nonlinear_arith);
    }
    assert forall|i: int| 0 <= i < n implies #[trigger] late.x[i] == c.x[i] + alpha
        * mid.z_p[i] by {}
    assert forall|i: int| 0 <= i < n implies #[trigger] late.t[i] == product_entry(
        a,
        c.rows,
        c.columns,
        c.values,
        late.z_s,
        i,
    ) by {}
    assert forall|i: int| 0 <= i < n implies #[trigger] after.x[i] == late.x[i] + omega
        * late.z_s[i] by {}
    assert forall|i: int| 0 <= i < n implies #[trigger] after.r[i] == late.s[i] - omega
        * late.t[i] by {
        let t = late.t[i];
        let sv = late.s[i];
        assert((-omega) * t + sv == sv - omega * t) by (nonlinear_arith);
    }
    assert forall|i: int| 0 <= i < n implies #[trigger] after.r[i] == after.b[i] - product_entry(
        a,
        after.rows,
        after.columns,
        after.values,
        after.x,
        i,
    ) by {
        assert(late.x[i] == late.x[i]);
        lemma_product_linear(a, n, c, c.x, mid.z_p, late.x, alpha, i);
        lemma_product_linear(a, n, c, late.x, late.z_s, after.x, omega, i);
        assert(c.r[i] == c.b[i] - product_entry(a, c.rows, c.columns, c.values, c.x, i));
        assert(late.s[i] == c.r[i] - alpha * mid.v[i]);
        assert(mid.v[i] == product_entry(a, c.rows, c.columns, c.values, mid.z_p, i));
        assert(late.t[i] == product_entry(a, c.rows, c.columns, c.values, late.z_s, i));
    }
}

/// A new residual is the residual, in exact arithmetic.
pub(super) proof fn lemma_new_residual(a: Arithmetic<real>, n: usize, c: Cells<real>)
    requires
        exact(a),
        n <= u32::MAX,
        4 * n <= usize::MAX,
        (a.count)((a.word)(n as u32)) == n,
        shaped(a, n, c),
        c.vector_params.len() >= 4,
    ensures
        is_residual(a, n, with_new_residual(a, n, c)),
{
    super::meaning::lemma_covered(n);
    super::session::lemma_unit_coefficients();
    assert(crate::runtime::single_bytes(n) / 4 == n);
    let after = with_new_residual(a, n, c);
    assert(after.vector_params[0] == -1real);
    assert(after.vector_params[1] == 1real);
    assert((a.count)(after.vector_params[2]) == n);
    assert forall|i: int| 0 <= i < n implies #[trigger] after.r[i] == after.b[i] - product_entry(
        a,
        after.rows,
        after.columns,
        after.values,
        after.x,
        i,
    ) by {
        let ax = product_entry(a, c.rows, c.columns, c.values, c.x, i);
        let b = c.b[i];
        assert(after.ax[i] == ax);
        assert((-1real) * ax + 1real * b == b - ax) by (nonlinear_arith);
    }
}

/// A solve begins and ends with the residual of its solution, in exact arithmetic, and neither
/// changes the solution or the system. The shadow residual and the search direction begin as the
/// residual.
pub proof fn law_solve_forms_residual(
    d: Device<real>,
    m: Map<usize, Seq<real>>,
    before: RuntimeView,
    context: ContextView,
    solve: SolveView,
    sizes: Seq<u64>,
)
    requires
        solve.active(context),
        laid_out(context, solve, sizes),
        d.order == before.order,
        exact(d.arithmetic),
        4 * solve.workspace.n <= usize::MAX,
        (d.arithmetic.count)((d.arithmetic.word)(solve.workspace.n as u32)) == solve.workspace.n,
        shaped(d.arithmetic, solve.workspace.n, cells(m, context, solve)),
        cells(m, context, solve).vector_params.len() >= 4,
    ensures
        ({
            let n = solve.workspace.n;
            let c = cells(m, context, solve);
            let startup = super::session::with_startup(before, context, solve);
            let first = cells(carried_out(d, m, before, startup), context, solve);
            let tail = super::session::with_tail(before, context, solve);
            let last = cells(carried_out(d, m, before, tail), context, solve);
            &&& is_residual(d.arithmetic, n, first)
            &&& is_residual(d.arithmetic, n, last)
            &&& forall|i: int|
                0 <= i < n ==> #[trigger] first.r_hat[i] == first.r[i] && first.p[i] == first.r[i]
            &&& first.x == c.x && last.x == c.x
            &&& first.b == c.b && last.b == c.b
            &&& first.rows == c.rows && last.rows == c.rows
            &&& first.columns == c.columns && last.columns == c.columns
            &&& first.values == c.values && last.values == c.values
        }),
{
    let n = solve.workspace.n;
    let c = cells(m, context, solve);
    super::meaning::law_steps_meaning(d, m, before, context, solve, sizes, 0, 0);
    lemma_new_residual(d.arithmetic, n, c);
    assert(crate::runtime::single_bytes(n) / 4 == n);
    let c1 = with_new_residual(d.arithmetic, n, c);
    let first = started(d.arithmetic, n, c);
    let last = ended(d.arithmetic, n, c);
    assert(first.r == c1.r && last.r == c1.r);
    assert forall|i: int| 0 <= i < n implies #[trigger] first.r[i] == first.b[i] - product_entry(
        d.arithmetic,
        first.rows,
        first.columns,
        first.values,
        first.x,
        i,
    ) by {
        assert(c1.r[i] == c1.b[i] - product_entry(
            d.arithmetic,
            c1.rows,
            c1.columns,
            c1.values,
            c1.x,
            i,
        ));
    }
    assert forall|i: int| 0 <= i < n implies #[trigger] last.r[i] == last.b[i] - product_entry(
        d.arithmetic,
        last.rows,
        last.columns,
        last.values,
        last.x,
        i,
    ) by {
        assert(c1.r[i] == c1.b[i] - product_entry(
            d.arithmetic,
            c1.rows,
            c1.columns,
            c1.values,
            c1.x,
            i,
        ));
    }
}

/// The commands of an iteration that is not stopped keep the residual, in exact arithmetic.
pub proof fn law_iteration_keeps_residual(
    d: Device<real>,
    m: Map<usize, Seq<real>>,
    before: RuntimeView,
    start: Recording,
    context: ContextView,
    solve: SolveView,
    sizes: Seq<u64>,
)
    requires
        solve.active(context),
        laid_out(context, solve, sizes),
        before.commands.len() <= start.runtime.commands.len(),
        exact(d.arithmetic),
        ({
            let n = solve.workspace.n;
            let c = cells(recorded(d, m, before, start), context, solve);
            &&& shaped(d.arithmetic, n, c)
            &&& is_residual(d.arithmetic, n, c)
            &&& d.arithmetic.running(corrected(d, context, n, searched(d, context, n, c)).state)
        }),
    ensures
        ({
            let n = solve.workspace.n;
            let next = super::encode::iteration(
                start,
                context,
                solve.operator,
                solve.workspace,
                solve.x,
            );
            let c = cells(recorded(d, m, before, start), context, solve);
            let after = cells(recorded(d, m, before, next), context, solve);
            &&& shaped(d.arithmetic, n, after)
            &&& is_residual(d.arithmetic, n, after)
            &&& after.b == c.b
            &&& after.rows == c.rows
            &&& after.columns == c.columns
            &&& after.values == c.values
        }),
{
    let n = solve.workspace.n;
    let c = cells(recorded(d, m, before, start), context, solve);
    super::meaning::law_iteration_meaning(d, m, before, start, context, solve, sizes);
    law_iterated_keeps_residual(d, context, n, c);
    lemma_iterated_shaped(d, context, n, c);
}

/// An iteration leaves the lengths of the buffers and the matrix as they are.
proof fn lemma_iterated_shaped<T>(d: Device<T>, context: ContextView, n: usize, c: Cells<T>)
    requires
        shaped(d.arithmetic, n, c),
    ensures
        shaped(d.arithmetic, n, iterated(d, context, n, c)),
{
    let mid = searched(d, context, n, c);
    let late = corrected(d, context, n, mid);
    assert(mid.rows == c.rows && mid.columns == c.columns);
    assert(late.rows == c.rows && late.columns == c.columns);
    assert(mid.state.len() == 16);
    assert(late.state.len() == 16);
}

/// An iteration that is encoded after the state has stopped changes neither the solution nor the
/// residuals, nor the search direction or the state: a batch may go on to its end.
pub proof fn law_stopped_iteration_rests<T>(
    d: Device<T>,
    m: Map<usize, Seq<T>>,
    before: RuntimeView,
    start: Recording,
    context: ContextView,
    solve: SolveView,
    sizes: Seq<u64>,
)
    requires
        solve.active(context),
        laid_out(context, solve, sizes),
        before.commands.len() <= start.runtime.commands.len(),
        ({
            let state = cells(recorded(d, m, before, start), context, solve).state;
            &&& (d.arithmetic.less)(state[12], d.arithmetic.half())
            &&& !d.arithmetic.running(state)
        }),
    ensures
        ({
            let next = super::encode::iteration(
                start,
                context,
                solve.operator,
                solve.workspace,
                solve.x,
            );
            let c = cells(recorded(d, m, before, start), context, solve);
            let after = cells(recorded(d, m, before, next), context, solve);
            &&& after.x == c.x
            &&& after.r == c.r
            &&& after.s == c.s
            &&& after.p == c.p
            &&& after.r_hat == c.r_hat
            &&& after.state == c.state
        }),
{
    let n = solve.workspace.n;
    let c = cells(recorded(d, m, before, start), context, solve);
    super::meaning::law_iteration_meaning(d, m, before, start, context, solve, sizes);
    let mid = searched(d, context, n, c);
    let late = corrected(d, context, n, mid);
    let after = iterated(d, context, n, c);
    assert(mid.state == c.state);
    assert(mid.p =~= c.p);
    assert(late.state == c.state);
    assert(late.s =~= c.s);
    assert(late.x =~= c.x);
    assert(after.x =~= c.x);
    assert(after.r =~= c.r);
    assert(after.state == c.state);
}

/// A quotient in two parts is exact.
pub(super) proof fn lemma_divide(a: Arithmetic<real>, x: DoubleSingle<real>, y: DoubleSingle<real>)
    requires
        exact(a),
        y.hi != 0real,
        y.lo == 0real,
    ensures
        ds_divide(a, x, y).hi * y.hi == x.hi + x.lo,
        ds_divide(a, x, y).lo == 0real,
{
    let estimate = (a.over)(x.hi, y.hi);
    let back = y.hi * estimate;
    let (hi, lo) = (y.hi, y.lo);
    assert(hi * estimate == estimate * hi) by (nonlinear_arith);
    assert(back == x.hi);
    assert(hi * 0real == 0real) by (nonlinear_arith);
    assert(lo * estimate == 0real) by (nonlinear_arith)
        requires
            lo == 0real,
    ;
    let product = ds_multiply(a, y, ds_from(a, estimate));
    assert(product.hi == back && product.lo == 0real);
    let remainder = ds_add(a, x, ds_negate(a, product));
    assert(ds_value(a, remainder) == x.lo);
    let correction = (a.over)(x.lo, y.hi);
    assert((estimate + correction) * hi == estimate * hi + correction * hi) by (nonlinear_arith);
}

/// What `begin_iteration` writes where it does not stop.
pub(super) proof fn lemma_begun(a: Arithmetic<real>, state: Seq<real>, sums: Seq<real>)
    requires
        exact(a),
        state.len() == 16,
        state[3] == 0real,
        state[5] == 0real,
        a.running(recurrence(a, Kernel::BeginIteration, state, sums)),
    ensures
        ({
            let after = recurrence(a, Kernel::BeginIteration, state, sums);
            &&& after.len() == 16
            &&& after[1] == sums[0]
            &&& after[13] == state[13] + 1real
            &&& forall|k: int|
                0 <= k < 16 && k != 1 && k != 6 && k != 13 ==> #[trigger] after[k] == state[k]
            &&& after[13] >= a.one_and_half() ==> after[6] * (state[0] * state[4]) == sums[0]
                * state[2]
        }),
{
    let after = recurrence(a, Kernel::BeginIteration, state, sums);
    if state[13] + 1real >= a.one_and_half() {
        let rho = DoubleSingle { hi: sums[0], lo: 0real };
        let previous = DoubleSingle { hi: state[0], lo: 0real };
        let alpha = DoubleSingle { hi: state[2], lo: state[3] };
        let omega = DoubleSingle { hi: state[4], lo: state[5] };
        lemma_divide(a, rho, previous);
        lemma_divide(a, alpha, omega);
        let u = ds_divide(a, rho, previous);
        let v = ds_divide(a, alpha, omega);
        let (uh, ul, vh, vl) = (u.hi, u.lo, v.hi, v.lo);
        assert(uh * vl == 0real && ul * vh == 0real) by (nonlinear_arith)
            requires
                ul == 0real,
                vl == 0real,
        ;
        assert(ds_value(a, ds_multiply(a, u, v)) == uh * vh);
        let (s0, s2, s4, rho_now) = (state[0], state[2], state[4], sums[0]);
        assert((uh * vh) * (s0 * s4) == (uh * s0) * (vh * s4)) by (nonlinear_arith);
        assert(uh * s0 == rho_now);
        assert(vh * s4 == s2);
        assert(after[6] == uh * vh);
    }
}

/// What `finish_alpha` writes where it does not stop.
pub(super) proof fn lemma_alpha(a: Arithmetic<real>, state: Seq<real>, sums: Seq<real>)
    requires
        exact(a),
        state.len() == 16,
        a.running(recurrence(a, Kernel::FinishAlpha, state, sums)),
    ensures
        ({
            let after = recurrence(a, Kernel::FinishAlpha, state, sums);
            &&& after.len() == 16
            &&& after[2] * sums[0] == state[1]
            &&& after[3] == 0real
            &&& forall|k: int|
                0 <= k < 16 && k != 2 && k != 3 ==> #[trigger] after[k] == state[k]
        }),
{
    let y = DoubleSingle { hi: sums[0], lo: 0real };
    lemma_divide(a, DoubleSingle { hi: state[1], lo: 0real }, y);
}

/// What `finish_omega` writes where it does not stop.
pub(super) proof fn lemma_omega(a: Arithmetic<real>, state: Seq<real>, sums: Seq<real>)
    requires
        exact(a),
        state.len() == 16,
        a.running(recurrence(a, Kernel::FinishOmega, state, sums)),
    ensures
        ({
            let after = recurrence(a, Kernel::FinishOmega, state, sums);
            &&& after.len() == 16
            &&& after[4] * sums[1] == sums[2]
            &&& after[5] == 0real
            &&& forall|k: int|
                0 <= k < 16 && k != 4 && k != 5 ==> #[trigger] after[k] == state[k]
        }),
{
    let y = DoubleSingle { hi: sums[1], lo: 0real };
    lemma_divide(a, DoubleSingle { hi: sums[2], lo: 0real }, y);
}

/// What the two checks leave alone.
pub(super) proof fn lemma_checks(a: Arithmetic<real>, state: Seq<real>, sums: Seq<real>)
    requires
        exact(a),
        state.len() == 16,
        a.running(state),
    ensures
        ({
            let after = recurrence(a, Kernel::CheckS, state, sums);
            &&& after.len() == 16
            &&& forall|k: int|
                0 <= k < 16 && k != 8 && k != 12 && k != 14 ==> #[trigger] after[k] == state[k]
        }),
        ({
            let after = recurrence(a, Kernel::CheckR, state, sums);
            &&& after.len() == 16
            &&& after[0] == state[1]
            &&& after[8] == sums[1]
            &&& forall|k: int|
                0 < k < 16 && k != 8 && k != 12 && k != 14 ==> #[trigger] after[k] == state[k]
        }),
{
}

/// Three dot products leave the dot products.
pub(super) proof fn lemma_summed(a: Arithmetic<real>, n: usize, c: Cells<real>, v: Sextet<real>)
    requires
        exact(a),
        n <= u32::MAX,
        prepared_sums(a, n, c),
        4 * sum_groups(n) <= c.partials.len(),
        4 <= c.result.len(),
    ensures
        ({
            let after = summed(a, n, c, v);
            &&& after.result[0] == dot(v.x0, v.y0, n as nat)
            &&& after.result[1] == dot(v.x1, v.y1, n as nat)
            &&& after.result[2] == dot(v.x2, v.y2, n as nat)
            &&& after.partials.len() == c.partials.len()
            &&& after.result.len() == c.result.len()
        }),
{
    crate::runtime::law_groups_cover(n as nat, 256);
    super::encode::lemma_groups_fit(n as nat, 256);
    law_reduction_exact(a, sum_groups(n), v, c.reduction_params, c.partials, c.result);
}

/// An iteration that is not stopped is an iteration of BiCGSTAB, in exact arithmetic. With the
/// dot products of whole vectors, `rho = r_hat . r`, `beta = (rho / rho_previous) (alpha / omega)`,
/// `p = r + beta (p - omega v)`, `v = A M p`, `alpha = rho / (r_hat . v)`, `s = r - alpha v`,
/// `t = A M s`, `omega = (t . s) / (t . t)`, `x = x + alpha M p + omega M s` and
/// `r = s - omega t`, where `M` is the preconditioner. The quotients are stated as products.
#[verifier::spinoff_prover]
#[verifier::rlimit(40)]
pub proof fn law_iterated_is_bicgstab(
    d: Device<real>,
    context: ContextView,
    n: usize,
    c: Cells<real>,
)
    requires
        exact(d.arithmetic),
        n <= u32::MAX,
        shaped(d.arithmetic, n, c),
        prepared_sums(d.arithmetic, n, c),
        4 * sum_groups(n) <= c.partials.len(),
        4 <= c.result.len(),
        c.state[3] == 0real,
        c.state[5] == 0real,
        d.arithmetic.running(corrected(d, context, n, searched(d, context, n, c)).state),
    ensures
        ({
            let a = d.arithmetic;
            let whole = n as nat;
            let after = iterated(d, context, n, c);
            let (rho, alpha, omega, beta) = (
                after.state[0],
                after.state[2],
                after.state[4],
                after.state[6],
            );
            &&& rho == dot(c.r_hat, c.r, whole)
            &&& after.state[13] == c.state[13] + 1real
            &&& after.state[13] < a.one_and_half() ==> forall|i: int|
                0 <= i < n ==> #[trigger] after.p[i] == c.r[i]
            &&& after.state[13] >= a.one_and_half() ==> {
                &&& beta * (c.state[0] * c.state[4]) == rho * c.state[2]
                &&& forall|i: int|
                    0 <= i < n ==> #[trigger] after.p[i] == c.r[i] + beta * (c.p[i] - c.state[4]
                        * c.v[i])
            }
            &&& after.z_p == preconditioned(d, context, n, c.inverse, after.p, c.z_p)
            &&& forall|i: int|
                0 <= i < n ==> #[trigger] after.v[i] == product_entry(
                    a,
                    c.rows,
                    c.columns,
                    c.values,
                    after.z_p,
                    i,
                )
            &&& alpha * dot(c.r_hat, after.v, whole) == rho
            &&& forall|i: int| 0 <= i < n ==> #[trigger] after.s[i] == c.r[i] - alpha * after.v[i]
            &&& after.z_s == preconditioned(d, context, n, c.inverse, after.s, c.z_s)
            &&& forall|i: int|
                0 <= i < n ==> #[trigger] after.t[i] == product_entry(
                    a,
                    c.rows,
                    c.columns,
                    c.values,
                    after.z_s,
                    i,
                )
            &&& omega * dot(after.t, after.t, whole) == dot(after.t, after.s, whole)
            &&& forall|i: int|
                0 <= i < n ==> #[trigger] after.x[i] == c.x[i] + alpha * after.z_p[i] + omega
                    * after.z_s[i]
            &&& forall|i: int|
                0 <= i < n ==> #[trigger] after.r[i] == after.s[i] - omega * after.t[i]
            &&& after.state[8] == dot(after.r, after.r, whole)
            &&& after.state[3] == 0real
            &&& after.state[5] == 0real
        }),
{
    let a = d.arithmetic;
    super::meaning::lemma_covered(n);
    let mid = searched(d, context, n, c);
    let late = corrected(d, context, n, mid);
    let after = iterated(d, context, n, c);
    // the state through the scalar kernels
    let v1 = Sextet { x0: c.r_hat, y0: c.r, x1: c.r, y1: c.r, x2: c.r, y2: c.r };
    let c1 = summed(a, n, c, v1);
    lemma_summed(a, n, c, v1);
    let begun = recurrence(a, Kernel::BeginIteration, c.state, c1.result);
    lemma_still_running(a, Kernel::BeginIteration, c.state, c1.result);
    let v2 = Sextet { x0: c.r_hat, y0: mid.v, x1: c.r_hat, y1: mid.v, x2: c.r_hat, y2: mid.v };
    let c2 = Cells { state: begun, p: mid.p, z_p: mid.z_p, v: mid.v, ..c1 };
    lemma_summed(a, n, c2, v2);
    assert(summed(a, n, c2, v2).result == mid.result);
    lemma_still_running(a, Kernel::FinishAlpha, begun, mid.result);
    assert(mid.state == recurrence(a, Kernel::FinishAlpha, begun, mid.result));
    let v3 = Sextet { x0: late.s, y0: late.s, x1: late.t, y1: late.t, x2: late.t, y2: late.s };
    let c3 = Cells { s: late.s, x: late.x, z_s: late.z_s, t: late.t, ..mid };
    lemma_summed(a, n, c3, v3);
    assert(summed(a, n, c3, v3).result == late.result);
    lemma_still_running(a, Kernel::CheckS, mid.state, late.result);
    let checked = recurrence(a, Kernel::CheckS, mid.state, late.result);
    lemma_still_running(a, Kernel::FinishOmega, checked, late.result);
    assert(late.state == recurrence(a, Kernel::FinishOmega, checked, late.result));
    let v4 = Sextet {
        x0: c.r_hat,
        y0: after.r,
        x1: after.r,
        y1: after.r,
        x2: after.r,
        y2: after.r,
    };
    let c4 = Cells { x: after.x, r: after.r, ..late };
    lemma_summed(a, n, c4, v4);
    assert(summed(a, n, c4, v4).result == after.result);
    assert(after.state == recurrence(a, Kernel::CheckR, late.state, after.result));
    lemma_begun(a, c.state, c1.result);
    lemma_alpha(a, begun, mid.result);
    lemma_checks(a, mid.state, late.result);
    lemma_omega(a, checked, late.result);
    lemma_checks(a, late.state, after.result);
    let (alpha, omega, beta) = (after.state[2], after.state[4], after.state[6]);
    assert(alpha == mid.state[2] && omega == late.state[4] && beta == begun[6]);
    // the vectors
    if after.state[13] >= a.one_and_half() {
        assert forall|i: int| 0 <= i < n implies #[trigger] after.p[i] == c.r[i] + beta * (c.p[i]
            - c.state[4] * c.v[i]) by {
            let (w, v, p) = (c.state[4], c.v[i], c.p[i]);
            assert((-w) * v + p == p - w * v) by (nonlinear_arith);
        }
    }
    assert forall|i: int| 0 <= i < n implies #[trigger] after.s[i] == c.r[i] - alpha
        * after.v[i] by {
        let v = after.v[i];
        assert((-alpha) * v + c.r[i] == c.r[i] - alpha * v) by (nonlinear_arith);
    }
    assert forall|i: int| 0 <= i < n implies #[trigger] after.r[i] == after.s[i] - omega
        * after.t[i] by {
        let t = after.t[i];
        assert((-omega) * t + after.s[i] == after.s[i] - omega * t) by (nonlinear_arith);
    }
    assert forall|i: int| 0 <= i < n implies #[trigger] after.x[i] == c.x[i] + alpha * after.z_p[i]
        + omega * after.z_s[i] by {
        assert(late.x[i] == c.x[i] + alpha * after.z_p[i]);
    }
}

} // verus!
