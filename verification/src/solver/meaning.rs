//! What the commands of a solve compute on a device.
use super::encode::{PairsView, Recording};
use super::laws::{appended, laid_out, own};
use super::session::SolveView;
use super::{ContextView, PreparedView};
use crate::command::{CommandView, Dispatch, EncodedView, Kernel};
use crate::device::{
    combined, finished, overwritten, product, recurrence, run_command, run_commands, run_encoded,
    run_kernel, run_kernels, run_work, scaled, staged, updated, Arithmetic, Device, Sextet,
};
use crate::runtime::RuntimeView;
use crate::vector::VectorView;
use vstd::prelude::*;

verus! {

/// What the buffers of a solve hold.
pub ghost struct Cells<T> {
    pub vector_params: Seq<T>,
    pub reduction_params: Seq<T>,
    pub rows: Seq<T>,
    pub columns: Seq<T>,
    pub values: Seq<T>,
    /// The inverse diagonal, where the solve is scaled by it.
    pub inverse: Seq<T>,
    pub r: Seq<T>,
    pub r_hat: Seq<T>,
    pub p: Seq<T>,
    pub v: Seq<T>,
    pub s: Seq<T>,
    pub t: Seq<T>,
    pub z_p: Seq<T>,
    pub z_s: Seq<T>,
    pub ax: Seq<T>,
    pub partials: Seq<T>,
    pub result: Seq<T>,
    pub state: Seq<T>,
    pub x: Seq<T>,
    pub b: Seq<T>,
}

/// What the buffers of a solve hold in a memory.
pub open spec fn cells<T>(m: Map<usize, Seq<T>>, context: ContextView, solve: SolveView) -> Cells<
    T,
> {
    let w = solve.workspace;
    Cells {
        vector_params: m[context.vector_params],
        reduction_params: m[context.reduction_params],
        rows: m[solve.operator.row_offsets],
        columns: m[solve.operator.column_indices],
        values: m[solve.operator.values],
        inverse: match context.preconditioner {
            Some(PreparedView::Jacobi(jacobi)) => m[jacobi.inverse_diagonal],
            _ => seq![],
        },
        r: m[w.r.buffer],
        r_hat: m[w.r_hat.buffer],
        p: m[w.p.buffer],
        v: m[w.v.buffer],
        s: m[w.s.buffer],
        t: m[w.t.buffer],
        z_p: m[w.z_p.buffer],
        z_s: m[w.z_s.buffer],
        ax: m[w.ax.buffer],
        partials: m[w.reduction.partials],
        result: m[w.reduction.result],
        state: m[w.state],
        x: m[solve.x.buffer],
        b: m[solve.b.buffer],
    }
}

/// The memory after the work that has been recorded since `before`, submitted or still open, has
/// been carried out.
pub open spec fn recorded<T>(
    d: Device<T>,
    m: Map<usize, Seq<T>>,
    before: RuntimeView,
    work: Recording,
) -> Map<usize, Seq<T>> {
    run_encoded(
        d.arithmetic,
        work.encoder.encoded,
        run_commands(d, appended(before, work.runtime), m),
    )
}

/// The workgroups of a vector kernel, as they are dispatched.
pub open spec fn vector_groups(n: usize) -> nat {
    crate::runtime::groups(n as nat, 128) as u32 as nat
}

/// The workgroups of a reduction, as they are dispatched.
pub open spec fn sum_groups(n: usize) -> nat {
    super::partial_sums(n as nat) as usize as u32 as nat
}

/// The cells after three dot products.
pub open spec fn summed<T>(a: Arithmetic<T>, n: usize, c: Cells<T>, v: Sextet<T>) -> Cells<T> {
    let partials = staged(a, sum_groups(n), v, c.reduction_params, c.partials);
    Cells { partials, result: finished(a, c.reduction_params, partials, c.result), ..c }
}

/// The cells after a scalar kernel.
pub open spec fn stepped<T>(a: Arithmetic<T>, kernel: Kernel, c: Cells<T>) -> Cells<T> {
    Cells { state: recurrence(a, kernel, c.state, c.result), ..c }
}

/// What the preconditioner of a context writes to `y` for `x`.
pub open spec fn preconditioned<T>(
    d: Device<T>,
    context: ContextView,
    n: usize,
    inverse: Seq<T>,
    x: Seq<T>,
    y: Seq<T>,
) -> Seq<T> {
    if context.custom is Some {
        overwritten(y, (d.precondition)(x.take(n as int)), n as nat)
    } else {
        match context.preconditioner->0 {
            PreparedView::Identity => overwritten(
                y,
                x,
                (crate::runtime::single_bytes(n) / 4) as nat,
            ),
            PreparedView::Jacobi(_) => scaled(d.arithmetic, vector_groups(n), inverse, x, y),
        }
    }
}

/// What the product with the matrix writes to `y` for `x`.
pub open spec fn multiplied<T>(
    a: Arithmetic<T>,
    n: usize,
    c: Cells<T>,
    x: Seq<T>,
    y: Seq<T>,
) -> Seq<T> {
    product(a, vector_groups(n), c.rows, c.columns, c.values, x, y)
}

/// The cells in the middle of an iteration: the search direction is ready, multiplied and has its
/// step length.
pub open spec fn searched<T>(d: Device<T>, context: ContextView, n: usize, c: Cells<T>) -> Cells<
    T,
> {
    let a = d.arithmetic;
    let g = vector_groups(n);
    let c1 = summed(
        a,
        n,
        c,
        Sextet { x0: c.r_hat, y0: c.r, x1: c.r, y1: c.r, x2: c.r, y2: c.r },
    );
    let c2 = stepped(a, Kernel::BeginIteration, c1);
    let c3 = Cells { p: updated(a, Kernel::UpdatePOmega, g, c2.state, c2.r, c2.p, c2.v), ..c2 };
    let c4 = Cells { p: updated(a, Kernel::PrepareP, g, c3.state, c3.r, c3.p, c3.v), ..c3 };
    let c5 = Cells { z_p: preconditioned(d, context, n, c4.inverse, c4.p, c4.z_p), ..c4 };
    let c6 = Cells { v: multiplied(a, n, c5, c5.z_p, c5.v), ..c5 };
    let c7 = summed(
        a,
        n,
        c6,
        Sextet { x0: c6.r_hat, y0: c6.v, x1: c6.r_hat, y1: c6.v, x2: c6.r_hat, y2: c6.v },
    );
    stepped(a, Kernel::FinishAlpha, c7)
}

/// The cells further on: the intermediate residual is ready, multiplied and has its step length.
pub open spec fn corrected<T>(d: Device<T>, context: ContextView, n: usize, c: Cells<T>) -> Cells<
    T,
> {
    let a = d.arithmetic;
    let g = vector_groups(n);
    let c1 = Cells { s: updated(a, Kernel::MakeS, g, c.state, c.r, c.s, c.v), ..c };
    let c2 = Cells { x: updated(a, Kernel::UpdateXAlpha, g, c1.state, c1.z_p, c1.x, c1.t), ..c1 };
    let c3 = Cells { z_s: preconditioned(d, context, n, c2.inverse, c2.s, c2.z_s), ..c2 };
    let c4 = Cells { t: multiplied(a, n, c3, c3.z_s, c3.t), ..c3 };
    let c5 = summed(
        a,
        n,
        c4,
        Sextet { x0: c4.s, y0: c4.s, x1: c4.t, y1: c4.t, x2: c4.t, y2: c4.s },
    );
    stepped(a, Kernel::FinishOmega, stepped(a, Kernel::CheckS, c5))
}

/// The cells after an iteration whose step lengths are known.
pub open spec fn concluded<T>(d: Device<T>, n: usize, c: Cells<T>) -> Cells<T> {
    let a = d.arithmetic;
    let g = vector_groups(n);
    let c1 = Cells { x: updated(a, Kernel::UpdateXOmega, g, c.state, c.z_s, c.x, c.t), ..c };
    let c2 = Cells { r: updated(a, Kernel::MakeR, g, c1.state, c1.s, c1.r, c1.t), ..c1 };
    let c3 = summed(
        a,
        n,
        c2,
        Sextet { x0: c2.r_hat, y0: c2.r, x1: c2.r, y1: c2.r, x2: c2.r, y2: c2.r },
    );
    stepped(a, Kernel::CheckR, c3)
}

/// The cells after an iteration.
pub open spec fn iterated<T>(d: Device<T>, context: ContextView, n: usize, c: Cells<T>) -> Cells<
    T,
> {
    concluded(d, n, corrected(d, context, n, searched(d, context, n, c)))
}

/// The buffer of a solve at a place: those of its context, then the solution and the right-hand
/// side.
pub open spec fn place(context: ContextView, solve: SolveView, k: int) -> Option<usize> {
    if k == 18 {
        Some(solve.x.buffer)
    } else if k == 19 {
        Some(solve.b.buffer)
    } else {
        own(super::session::returned(context, solve), k)
    }
}

/// Whether no two places share a buffer.
pub open spec fn separate(context: ContextView, solve: SolveView) -> bool {
    forall|i: int, j: int|
        0 <= i < 20 && 0 <= j < 20 && i != j && #[trigger] place(context, solve, i) is Some
            ==> place(context, solve, i) != #[trigger] place(context, solve, j)
}

/// The buffers of a solve that is laid out are separate.
pub(super) proof fn lemma_separate(context: ContextView, solve: SolveView, sizes: Seq<u64>)
    requires
        laid_out(context, solve, sizes),
    ensures
        separate(context, solve),
{
    let whole = super::session::returned(context, solve);
    assert forall|i: int, j: int|
        0 <= i < 20 && 0 <= j < 20 && i != j && #[trigger] place(
            context,
            solve,
            i,
        ) is Some implies place(context, solve, i) != #[trigger] place(context, solve, j) by {
        if i < 18 && j < 18 {
            if i < j {
                assert(own(whole, i) != own(whole, j));
            } else if own(whole, j) is Some {
                assert(own(whole, j) != own(whole, i));
            }
        } else if i < 18 {
            assert(own(whole, i) != Some(solve.b.buffer) && own(whole, i) != Some(solve.x.buffer));
        } else if j < 18 {
            assert(own(whole, j) != Some(solve.b.buffer) && own(whole, j) != Some(solve.x.buffer));
        }
    }
}

/// The cells with another content at a place.
spec fn with_cell<T>(c: Cells<T>, k: int, value: Seq<T>) -> Cells<T> {
    if k == 0 {
        Cells { vector_params: value, ..c }
    } else if k == 1 {
        Cells { reduction_params: value, ..c }
    } else if k == 6 {
        Cells { r: value, ..c }
    } else if k == 7 {
        Cells { r_hat: value, ..c }
    } else if k == 8 {
        Cells { p: value, ..c }
    } else if k == 9 {
        Cells { v: value, ..c }
    } else if k == 10 {
        Cells { s: value, ..c }
    } else if k == 11 {
        Cells { t: value, ..c }
    } else if k == 12 {
        Cells { z_p: value, ..c }
    } else if k == 13 {
        Cells { z_s: value, ..c }
    } else if k == 14 {
        Cells { ax: value, ..c }
    } else if k == 15 {
        Cells { partials: value, ..c }
    } else if k == 16 {
        Cells { result: value, ..c }
    } else if k == 17 {
        Cells { state: value, ..c }
    } else {
        Cells { x: value, ..c }
    }
}

/// A write to one buffer of a solve shows in one cell.
#[verifier::spinoff_prover]
proof fn lemma_cell<T>(
    m: Map<usize, Seq<T>>,
    context: ContextView,
    solve: SolveView,
    k: int,
    buffer: usize,
    value: Seq<T>,
)
    requires
        context.operator == Some(solve.operator),
        separate(context, solve),
        0 <= k < 19,
        !(2 <= k < 6),
        place(context, solve, k) == Some(buffer),
    ensures
        cells(m.insert(buffer, value), context, solve) == with_cell(
            cells(m, context, solve),
            k,
            value,
        ),
{
    let after = m.insert(buffer, value);
    assert forall|j: int|
        0 <= j < 20 && j != k && (#[trigger] place(context, solve, j)) is Some implies after[place(
        context,
        solve,
        j,
    )->0] == m[place(context, solve, j)->0] by {
        assert(place(context, solve, j) != place(context, solve, k));
    }
    let w = solve.workspace;
    assert(place(context, solve, 0) == Some(context.vector_params));
    assert(place(context, solve, 1) == Some(context.reduction_params));
    assert(place(context, solve, 2) == Some(solve.operator.row_offsets));
    assert(place(context, solve, 3) == Some(solve.operator.column_indices));
    assert(place(context, solve, 4) == Some(solve.operator.values));
    match context.preconditioner {
        Some(PreparedView::Jacobi(jacobi)) => {
            assert(place(context, solve, 5) == Some(jacobi.inverse_diagonal));
        },
        _ => {},
    }
    assert(place(context, solve, 6) == Some(w.r.buffer));
    assert(place(context, solve, 7) == Some(w.r_hat.buffer));
    assert(place(context, solve, 8) == Some(w.p.buffer));
    assert(place(context, solve, 9) == Some(w.v.buffer));
    assert(place(context, solve, 10) == Some(w.s.buffer));
    assert(place(context, solve, 11) == Some(w.t.buffer));
    assert(place(context, solve, 12) == Some(w.z_p.buffer));
    assert(place(context, solve, 13) == Some(w.z_s.buffer));
    assert(place(context, solve, 14) == Some(w.ax.buffer));
    assert(place(context, solve, 15) == Some(w.reduction.partials));
    assert(place(context, solve, 16) == Some(w.reduction.result));
    assert(place(context, solve, 17) == Some(w.state));
    assert(place(context, solve, 18) == Some(solve.x.buffer));
    assert(place(context, solve, 19) == Some(solve.b.buffer));
}

proof fn lemma_recorded_with<T>(
    d: Device<T>,
    m: Map<usize, Seq<T>>,
    before: RuntimeView,
    work: Recording,
    more: EncodedView,
)
    ensures
        recorded(d, m, before, work.with(more)) == run_work(
            d.arithmetic,
            more,
            recorded(d, m, before, work),
        ),
{
    let encoded = work.encoder.encoded;
    assert(work.with(more).encoder.encoded =~= encoded.push(more));
    assert(encoded.push(more).drop_last() =~= encoded);
}

pub(super) proof fn lemma_run_more<T>(
    d: Device<T>,
    m: Map<usize, Seq<T>>,
    before: RuntimeView,
    after: RuntimeView,
    command: CommandView,
)
    requires
        before.commands.len() <= after.commands.len(),
    ensures
        run_commands(d, appended(before, after.record(command)), m) == run_command(
            d,
            command,
            run_commands(d, appended(before, after), m),
        ),
{
    let more = appended(before, after.record(command));
    assert(more =~= appended(before, after).push(command));
    assert(more.drop_last() =~= appended(before, after));
}

/// A pass with one kernel.
proof fn lemma_one_kernel<T>(
    a: Arithmetic<T>,
    label: Seq<char>,
    buffers: Seq<usize>,
    dispatch: Dispatch,
    m: Map<usize, Seq<T>>,
)
    ensures
        run_work(
            a,
            EncodedView::ComputePass {
                label,
                bindings: crate::command::bound(buffers),
                dispatches: seq![dispatch],
            },
            m,
        ) == run_kernel(a, dispatch, buffers, m),
{
    let bindings = crate::command::bound(buffers);
    let at = Seq::new(bindings.len(), |i: int| bindings[i].buffer);
    assert(at =~= buffers);
    assert(seq![dispatch].drop_last() =~= seq![]);
    assert(run_kernels(a, seq![dispatch].drop_last(), at, m) == m);
}

/// A pass with two kernels.
pub(super) proof fn lemma_two_kernels<T>(
    a: Arithmetic<T>,
    label: Seq<char>,
    buffers: Seq<usize>,
    first: Dispatch,
    second: Dispatch,
    m: Map<usize, Seq<T>>,
)
    ensures
        run_work(
            a,
            EncodedView::ComputePass {
                label,
                bindings: crate::command::bound(buffers),
                dispatches: seq![first, second],
            },
            m,
        ) == run_kernel(a, second, buffers, run_kernel(a, first, buffers, m)),
{
    let bindings = crate::command::bound(buffers);
    let at = Seq::new(bindings.len(), |i: int| bindings[i].buffer);
    assert(at =~= buffers);
    assert(seq![first, second].drop_last() =~= seq![first]);
    assert(seq![first].drop_last() =~= seq![]);
    assert(run_kernels(a, seq![first].drop_last(), at, m) == m);
    assert(run_kernels(a, seq![first], at, m) == run_kernel(a, first, at, m));
}

/// What is asked of a solve whose commands are given a meaning here.
spec fn fit(context: ContextView, solve: SolveView) -> bool {
    &&& solve.active(context)
    &&& separate(context, solve)
}

#[verifier::spinoff_prover]
proof fn lemma_vector_cells<T>(
    a: Arithmetic<T>,
    m: Map<usize, Seq<T>>,
    context: ContextView,
    solve: SolveView,
    kernel: Kernel,
    k: int,
    x: VectorView,
    y: VectorView,
    z: VectorView,
)
    requires
        fit(context, solve),
        crate::command::kernel_module(kernel) is ResidentVector,
        0 <= k < 19,
        !(2 <= k < 6),
        place(context, solve, k) == Some(y.buffer),
        y.len == solve.workspace.n,
    ensures
        cells(
            run_work(
                a,
                super::encode::vector_pass(kernel, solve.workspace.state, x, y, z),
                m,
            ),
            context,
            solve,
        ) == with_cell(
            cells(m, context, solve),
            k,
            updated(
                a,
                kernel,
                vector_groups(solve.workspace.n),
                m[solve.workspace.state],
                m[x.buffer],
                m[y.buffer],
                m[z.buffer],
            ),
        ),
{
    let state = solve.workspace.state;
    let pass = super::encode::vector_pass(kernel, state, x, y, z);
    let buffers = seq![state, x.buffer, y.buffer, z.buffer];
    let dispatch = Dispatch { kernel, groups: crate::runtime::groups(y.len as nat, 128) as u32 };
    lemma_one_kernel(a, pass->label, buffers, dispatch, m);
    let value = updated(
        a,
        kernel,
        vector_groups(solve.workspace.n),
        m[state],
        m[x.buffer],
        m[y.buffer],
        m[z.buffer],
    );
    lemma_cell(m, context, solve, k, y.buffer, value);
}

#[verifier::spinoff_prover]
proof fn lemma_scalar_cells<T>(
    a: Arithmetic<T>,
    m: Map<usize, Seq<T>>,
    context: ContextView,
    solve: SolveView,
    kernel: Kernel,
)
    requires
        fit(context, solve),
        crate::command::kernel_module(kernel) is ResidentScalar,
    ensures
        cells(
            run_work(
                a,
                super::encode::scalar_pass(
                    kernel,
                    solve.workspace.state,
                    solve.workspace.reduction,
                ),
                m,
            ),
            context,
            solve,
        ) == stepped(a, kernel, cells(m, context, solve)),
{
    let w = solve.workspace;
    let pass = super::encode::scalar_pass(kernel, w.state, w.reduction);
    let buffers = seq![w.state, w.reduction.result];
    lemma_one_kernel(a, pass->label, buffers, Dispatch { kernel, groups: 1 }, m);
    let value = recurrence(a, kernel, m[w.state], m[w.reduction.result]);
    assert(place(context, solve, 17) == Some(w.state));
    lemma_cell(m, context, solve, 17, w.state, value);
}

/// What six vectors hold.
pub open spec fn sextet<T>(m: Map<usize, Seq<T>>, pairs: PairsView) -> Sextet<T> {
    Sextet {
        x0: m[pairs.x0.buffer],
        y0: m[pairs.y0.buffer],
        x1: m[pairs.x1.buffer],
        y1: m[pairs.y1.buffer],
        x2: m[pairs.x2.buffer],
        y2: m[pairs.y2.buffer],
    }
}

#[verifier::spinoff_prover]
proof fn lemma_dots_cells<T>(
    a: Arithmetic<T>,
    m: Map<usize, Seq<T>>,
    context: ContextView,
    solve: SolveView,
    label: Seq<char>,
    pairs: PairsView,
)
    requires
        fit(context, solve),
    ensures
        cells(
            run_work(
                a,
                super::encode::dots_pass(
                    label,
                    pairs,
                    solve.workspace.reduction,
                    context.reduction_params,
                ),
                m,
            ),
            context,
            solve,
        ) == summed(a, solve.workspace.n, cells(m, context, solve), sextet(m, pairs)),
{
    let w = solve.workspace;
    let params = context.reduction_params;
    let red = w.reduction;
    let buffers = seq![
        pairs.x0.buffer,
        pairs.y0.buffer,
        pairs.x1.buffer,
        pairs.y1.buffer,
        red.partials,
        red.result,
        params,
        pairs.x2.buffer,
        pairs.y2.buffer,
    ];
    let first = Dispatch { kernel: Kernel::ReduceStage, groups: red.partial_count as u32 };
    let second = Dispatch { kernel: Kernel::ReduceFinal, groups: 1 };
    lemma_two_kernels(a, label, buffers, first, second, m);
    assert(place(context, solve, 15) == Some(red.partials));
    assert(place(context, solve, 16) == Some(red.result));
    assert(place(context, solve, 1) == Some(params));
    let sums = staged(a, sum_groups(w.n), sextet(m, pairs), m[params], m[red.partials]);
    let middle = m.insert(red.partials, sums);
    assert(run_kernel(a, first, buffers, m) == middle);
    lemma_cell(m, context, solve, 15, red.partials, sums);
    let total = finished(a, m[params], sums, m[red.result]);
    assert(run_kernel(a, second, buffers, middle) == middle.insert(red.result, total));
    lemma_cell(middle, context, solve, 16, red.result, total);
}

#[verifier::spinoff_prover]
proof fn lemma_product_cells<T>(
    a: Arithmetic<T>,
    m: Map<usize, Seq<T>>,
    context: ContextView,
    solve: SolveView,
    k: int,
    x: VectorView,
    y: VectorView,
)
    requires
        fit(context, solve),
        0 <= k < 19,
        !(2 <= k < 6),
        place(context, solve, k) == Some(y.buffer),
    ensures
        cells(
            run_work(a, crate::operator::product_pass(solve.operator, x, y), m),
            context,
            solve,
        ) == with_cell(
            cells(m, context, solve),
            k,
            multiplied(
                a,
                solve.workspace.n,
                cells(m, context, solve),
                m[x.buffer],
                m[y.buffer],
            ),
        ),
{
    let o = solve.operator;
    let pass = crate::operator::product_pass(o, x, y);
    let buffers = seq![o.row_offsets, o.column_indices, o.values, x.buffer, y.buffer];
    let dispatch = Dispatch {
        kernel: Kernel::Spmv,
        groups: crate::runtime::groups(o.nrows as nat, 128) as u32,
    };
    lemma_one_kernel(a, pass->label, buffers, dispatch, m);
    let value = multiplied(
        a,
        solve.workspace.n,
        cells(m, context, solve),
        m[x.buffer],
        m[y.buffer],
    );
    lemma_cell(m, context, solve, k, y.buffer, value);
}

#[verifier::spinoff_prover]
proof fn lemma_precondition_cells<T>(
    d: Device<T>,
    m: Map<usize, Seq<T>>,
    before: RuntimeView,
    work: Recording,
    context: ContextView,
    solve: SolveView,
    k: int,
    x: VectorView,
    y: VectorView,
)
    requires
        fit(context, solve),
        before.commands.len() <= work.runtime.commands.len(),
        0 <= k < 19,
        !(2 <= k < 6),
        place(context, solve, k) == Some(y.buffer),
        x.len == solve.workspace.n,
        y.len == solve.workspace.n,
    ensures
        ({
            let start = recorded(d, m, before, work);
            let c = cells(start, context, solve);
            &&& before.commands.len() <= work.precondition(context, x, y).runtime.commands.len()
            &&& cells(recorded(d, m, before, work.precondition(context, x, y)), context, solve)
                == with_cell(
                c,
                k,
                preconditioned(
                    d,
                    context,
                    solve.workspace.n,
                    c.inverse,
                    start[x.buffer],
                    start[y.buffer],
                ),
            )
        }),
{
    let n = solve.workspace.n;
    let start = recorded(d, m, before, work);
    let c = cells(start, context, solve);
    let value = preconditioned(d, context, n, c.inverse, start[x.buffer], start[y.buffer]);
    lemma_cell(start, context, solve, k, y.buffer, value);
    if context.custom is Some {
        let encoder = work.encoder;
        let submit = CommandView::Submit { label: encoder.label, encoded: encoder.encoded };
        let apply = CommandView::Precondition { input: x, output: y };
        lemma_run_more(d, m, before, work.runtime, submit);
        lemma_run_more(d, m, before, work.runtime.record(submit), apply);
        let after = work.precondition(context, x, y);
        assert(after.encoder.encoded =~= seq![]);
        assert(recorded(d, m, before, after) == start.insert(y.buffer, value));
    } else {
        match context.preconditioner->0 {
            PreparedView::Identity => {
                let copy = EncodedView::CopyBuffer {
                    source: x.buffer,
                    destination: y.buffer,
                    bytes: crate::runtime::single_bytes(x.len),
                };
                lemma_recorded_with(d, m, before, work, copy);
            },
            PreparedView::Jacobi(jacobi) => {
                let pass = crate::preconditioner::scaling_pass(jacobi, x, y);
                lemma_recorded_with(d, m, before, work, pass);
                let buffers = seq![jacobi.inverse_diagonal, x.buffer, y.buffer];
                let dispatch = Dispatch {
                    kernel: Kernel::JacobiApply,
                    groups: crate::runtime::groups(jacobi.n as nat, 128) as u32,
                };
                lemma_one_kernel(d.arithmetic, pass->label, buffers, dispatch, start);
            },
        }
    }
}

spec fn search_work(start: Recording, context: ContextView, solve: SolveView) -> Recording {
    let w = solve.workspace;
    let params = context.reduction_params;
    let label = "kryst resident WebGPU dot2"@;
    let first = super::encode::pairs(w.r_hat, w.r, w.r, w.r, w.r, w.r);
    let second = super::encode::pairs(w.r_hat, w.v, w.r_hat, w.v, w.r_hat, w.v);
    start.with(super::encode::dots_pass(label, first, w.reduction, params)).with(
        super::encode::scalar_pass(Kernel::BeginIteration, w.state, w.reduction),
    ).with(super::encode::vector_pass(Kernel::UpdatePOmega, w.state, w.r, w.p, w.v)).with(
        super::encode::vector_pass(Kernel::PrepareP, w.state, w.r, w.p, w.v),
    ).precondition(context, w.p, w.z_p).with(
        crate::operator::product_pass(solve.operator, w.z_p, w.v),
    ).with(super::encode::dots_pass(label, second, w.reduction, params)).with(
        super::encode::scalar_pass(Kernel::FinishAlpha, w.state, w.reduction),
    )
}

spec fn correct_work(start: Recording, context: ContextView, solve: SolveView) -> Recording {
    let w = solve.workspace;
    let params = context.reduction_params;
    let label = "kryst resident WebGPU dot2"@;
    let pairs = super::encode::pairs(w.s, w.s, w.t, w.t, w.t, w.s);
    start.with(super::encode::vector_pass(Kernel::MakeS, w.state, w.r, w.s, w.v)).with(
        super::encode::vector_pass(Kernel::UpdateXAlpha, w.state, w.z_p, solve.x, w.t),
    ).precondition(context, w.s, w.z_s).with(
        crate::operator::product_pass(solve.operator, w.z_s, w.t),
    ).with(super::encode::dots_pass(label, pairs, w.reduction, params)).with(
        super::encode::scalar_pass(Kernel::CheckS, w.state, w.reduction),
    ).with(super::encode::scalar_pass(Kernel::FinishOmega, w.state, w.reduction))
}

spec fn conclude_work(start: Recording, context: ContextView, solve: SolveView) -> Recording {
    let w = solve.workspace;
    let params = context.reduction_params;
    let label = "kryst resident WebGPU dot2"@;
    let pairs = super::encode::pairs(w.r_hat, w.r, w.r, w.r, w.r, w.r);
    start.with(
        super::encode::vector_pass(Kernel::UpdateXOmega, w.state, w.z_s, solve.x, w.t),
    ).with(super::encode::vector_pass(Kernel::MakeR, w.state, w.s, w.r, w.t)).with(
        super::encode::dots_pass(label, pairs, w.reduction, params),
    ).with(super::encode::scalar_pass(Kernel::CheckR, w.state, w.reduction))
}

proof fn lemma_iteration_parts(start: Recording, context: ContextView, solve: SolveView)
    ensures
        super::encode::iteration(start, context, solve.operator, solve.workspace, solve.x)
            == conclude_work(
            correct_work(search_work(start, context, solve), context, solve),
            context,
            solve,
        ),
{
}

#[verifier::spinoff_prover]
#[verifier::rlimit(40)]
proof fn lemma_searched<T>(
    d: Device<T>,
    m: Map<usize, Seq<T>>,
    before: RuntimeView,
    start: Recording,
    context: ContextView,
    solve: SolveView,
)
    requires
        fit(context, solve),
        before.commands.len() <= start.runtime.commands.len(),
    ensures
        before.commands.len() <= search_work(start, context, solve).runtime.commands.len(),
        cells(recorded(d, m, before, search_work(start, context, solve)), context, solve)
            == searched(
            d,
            context,
            solve.workspace.n,
            cells(recorded(d, m, before, start), context, solve),
        ),
{
    let a = d.arithmetic;
    let (w, o) = (solve.workspace, solve.operator);
    let params = context.reduction_params;
    let label = "kryst resident WebGPU dot2"@;
    let first = super::encode::pairs(w.r_hat, w.r, w.r, w.r, w.r, w.r);
    let second = super::encode::pairs(w.r_hat, w.v, w.r_hat, w.v, w.r_hat, w.v);
    let e1 = super::encode::dots_pass(label, first, w.reduction, params);
    let e2 = super::encode::scalar_pass(Kernel::BeginIteration, w.state, w.reduction);
    let e3 = super::encode::vector_pass(Kernel::UpdatePOmega, w.state, w.r, w.p, w.v);
    let e4 = super::encode::vector_pass(Kernel::PrepareP, w.state, w.r, w.p, w.v);
    let e6 = crate::operator::product_pass(o, w.z_p, w.v);
    let e7 = super::encode::dots_pass(label, second, w.reduction, params);
    let e8 = super::encode::scalar_pass(Kernel::FinishAlpha, w.state, w.reduction);
    let s1 = start.with(e1);
    let s2 = s1.with(e2);
    let s3 = s2.with(e3);
    let s4 = s3.with(e4);
    let s5 = s4.precondition(context, w.p, w.z_p);
    let s6 = s5.with(e6);
    let s7 = s6.with(e7);
    let m0 = recorded(d, m, before, start);
    let m1 = recorded(d, m, before, s1);
    let m2 = recorded(d, m, before, s2);
    let m3 = recorded(d, m, before, s3);
    let m5 = recorded(d, m, before, s5);
    let m6 = recorded(d, m, before, s6);
    let m7 = recorded(d, m, before, s7);
    assert(place(context, solve, 8) == Some(w.p.buffer));
    assert(place(context, solve, 9) == Some(w.v.buffer));
    assert(place(context, solve, 12) == Some(w.z_p.buffer));
    lemma_recorded_with(d, m, before, start, e1);
    lemma_dots_cells(a, m0, context, solve, label, first);
    lemma_recorded_with(d, m, before, s1, e2);
    lemma_scalar_cells(a, m1, context, solve, Kernel::BeginIteration);
    lemma_recorded_with(d, m, before, s2, e3);
    lemma_vector_cells(a, m2, context, solve, Kernel::UpdatePOmega, 8, w.r, w.p, w.v);
    lemma_recorded_with(d, m, before, s3, e4);
    lemma_vector_cells(a, m3, context, solve, Kernel::PrepareP, 8, w.r, w.p, w.v);
    lemma_precondition_cells(d, m, before, s4, context, solve, 12, w.p, w.z_p);
    lemma_recorded_with(d, m, before, s5, e6);
    lemma_product_cells(a, m5, context, solve, 9, w.z_p, w.v);
    lemma_recorded_with(d, m, before, s6, e7);
    lemma_dots_cells(a, m6, context, solve, label, second);
    lemma_recorded_with(d, m, before, s7, e8);
    lemma_scalar_cells(a, m7, context, solve, Kernel::FinishAlpha);
}

#[verifier::spinoff_prover]
#[verifier::rlimit(40)]
proof fn lemma_corrected<T>(
    d: Device<T>,
    m: Map<usize, Seq<T>>,
    before: RuntimeView,
    start: Recording,
    context: ContextView,
    solve: SolveView,
)
    requires
        fit(context, solve),
        before.commands.len() <= start.runtime.commands.len(),
    ensures
        before.commands.len() <= correct_work(start, context, solve).runtime.commands.len(),
        cells(recorded(d, m, before, correct_work(start, context, solve)), context, solve)
            == corrected(
            d,
            context,
            solve.workspace.n,
            cells(recorded(d, m, before, start), context, solve),
        ),
{
    let a = d.arithmetic;
    let (w, o) = (solve.workspace, solve.operator);
    let params = context.reduction_params;
    let label = "kryst resident WebGPU dot2"@;
    let pairs = super::encode::pairs(w.s, w.s, w.t, w.t, w.t, w.s);
    let e1 = super::encode::vector_pass(Kernel::MakeS, w.state, w.r, w.s, w.v);
    let e2 = super::encode::vector_pass(Kernel::UpdateXAlpha, w.state, w.z_p, solve.x, w.t);
    let e4 = crate::operator::product_pass(o, w.z_s, w.t);
    let e5 = super::encode::dots_pass(label, pairs, w.reduction, params);
    let e6 = super::encode::scalar_pass(Kernel::CheckS, w.state, w.reduction);
    let e7 = super::encode::scalar_pass(Kernel::FinishOmega, w.state, w.reduction);
    let s1 = start.with(e1);
    let s2 = s1.with(e2);
    let s3 = s2.precondition(context, w.s, w.z_s);
    let s4 = s3.with(e4);
    let s5 = s4.with(e5);
    let s6 = s5.with(e6);
    let m0 = recorded(d, m, before, start);
    let m1 = recorded(d, m, before, s1);
    let m3 = recorded(d, m, before, s3);
    let m4 = recorded(d, m, before, s4);
    let m5 = recorded(d, m, before, s5);
    let m6 = recorded(d, m, before, s6);
    assert(place(context, solve, 10) == Some(w.s.buffer));
    assert(place(context, solve, 11) == Some(w.t.buffer));
    assert(place(context, solve, 13) == Some(w.z_s.buffer));
    assert(place(context, solve, 18) == Some(solve.x.buffer));
    lemma_recorded_with(d, m, before, start, e1);
    lemma_vector_cells(a, m0, context, solve, Kernel::MakeS, 10, w.r, w.s, w.v);
    lemma_recorded_with(d, m, before, s1, e2);
    lemma_vector_cells(a, m1, context, solve, Kernel::UpdateXAlpha, 18, w.z_p, solve.x, w.t);
    lemma_precondition_cells(d, m, before, s2, context, solve, 13, w.s, w.z_s);
    lemma_recorded_with(d, m, before, s3, e4);
    lemma_product_cells(a, m3, context, solve, 11, w.z_s, w.t);
    lemma_recorded_with(d, m, before, s4, e5);
    lemma_dots_cells(a, m4, context, solve, label, pairs);
    lemma_recorded_with(d, m, before, s5, e6);
    lemma_scalar_cells(a, m5, context, solve, Kernel::CheckS);
    lemma_recorded_with(d, m, before, s6, e7);
    lemma_scalar_cells(a, m6, context, solve, Kernel::FinishOmega);
}

#[verifier::spinoff_prover]
#[verifier::rlimit(40)]
proof fn lemma_concluded<T>(
    d: Device<T>,
    m: Map<usize, Seq<T>>,
    before: RuntimeView,
    start: Recording,
    context: ContextView,
    solve: SolveView,
)
    requires
        fit(context, solve),
        before.commands.len() <= start.runtime.commands.len(),
    ensures
        before.commands.len() <= conclude_work(start, context, solve).runtime.commands.len(),
        cells(recorded(d, m, before, conclude_work(start, context, solve)), context, solve)
            == concluded(
            d,
            solve.workspace.n,
            cells(recorded(d, m, before, start), context, solve),
        ),
{
    let a = d.arithmetic;
    let w = solve.workspace;
    let params = context.reduction_params;
    let label = "kryst resident WebGPU dot2"@;
    let pairs = super::encode::pairs(w.r_hat, w.r, w.r, w.r, w.r, w.r);
    let e1 = super::encode::vector_pass(Kernel::UpdateXOmega, w.state, w.z_s, solve.x, w.t);
    let e2 = super::encode::vector_pass(Kernel::MakeR, w.state, w.s, w.r, w.t);
    let e3 = super::encode::dots_pass(label, pairs, w.reduction, params);
    let e4 = super::encode::scalar_pass(Kernel::CheckR, w.state, w.reduction);
    let s1 = start.with(e1);
    let s2 = s1.with(e2);
    let s3 = s2.with(e3);
    let m0 = recorded(d, m, before, start);
    let m1 = recorded(d, m, before, s1);
    let m2 = recorded(d, m, before, s2);
    let m3 = recorded(d, m, before, s3);
    assert(place(context, solve, 6) == Some(w.r.buffer));
    assert(place(context, solve, 18) == Some(solve.x.buffer));
    lemma_recorded_with(d, m, before, start, e1);
    lemma_vector_cells(a, m0, context, solve, Kernel::UpdateXOmega, 18, w.z_s, solve.x, w.t);
    lemma_recorded_with(d, m, before, s1, e2);
    lemma_vector_cells(a, m1, context, solve, Kernel::MakeR, 6, w.s, w.r, w.t);
    lemma_recorded_with(d, m, before, s2, e3);
    lemma_dots_cells(a, m2, context, solve, label, pairs);
    lemma_recorded_with(d, m, before, s3, e4);
    lemma_scalar_cells(a, m3, context, solve, Kernel::CheckR);
}

/// What an encoded iteration makes of the buffers of a solve.
pub proof fn law_iteration_meaning<T>(
    d: Device<T>,
    m: Map<usize, Seq<T>>,
    before: RuntimeView,
    start: Recording,
    context: ContextView,
    solve: SolveView,
    sizes: Seq<u64>,
)
    requires
        solve.active(context),
        laid_out(context, solve, sizes),
        before.commands.len() <= start.runtime.commands.len(),
    ensures
        ({
            let next = super::encode::iteration(
                start,
                context,
                solve.operator,
                solve.workspace,
                solve.x,
            );
            &&& before.commands.len() <= next.runtime.commands.len()
            &&& cells(recorded(d, m, before, next), context, solve) == iterated(
                d,
                context,
                solve.workspace.n,
                cells(recorded(d, m, before, start), context, solve),
            )
        }),
{
    lemma_separate(context, solve, sizes);
    lemma_iteration_parts(start, context, solve);
    let first = search_work(start, context, solve);
    let second = correct_work(first, context, solve);
    lemma_searched(d, m, before, start, context, solve);
    lemma_corrected(d, m, before, first, context, solve);
    lemma_concluded(d, m, before, second, context, solve);
}

/// Whether the vectors of a system have `n` entries and the matrix as many rows, whose entries
/// stand in one of `n` columns.
pub open spec fn shaped<T>(a: Arithmetic<T>, n: usize, c: Cells<T>) -> bool {
    &&& c.x.len() >= n
    &&& c.b.len() >= n
    &&& c.r.len() >= n
    &&& c.r_hat.len() >= n
    &&& c.p.len() >= n
    &&& c.v.len() >= n
    &&& c.s.len() >= n
    &&& c.t.len() >= n
    &&& c.z_p.len() >= n
    &&& c.z_s.len() >= n
    &&& c.ax.len() >= n
    &&& c.state.len() == 16
    &&& c.rows.len() == n + 1
    &&& forall|row: int, e: int|
        0 <= row < n && (a.count)(#[trigger] c.rows[row]) <= e < (a.count)(c.rows[row + 1])
            ==> (a.count)(#[trigger] c.columns[e]) < n
}

/// Whether the parameters of the reductions are in place.
pub open spec fn prepared_sums<T>(a: Arithmetic<T>, n: usize, c: Cells<T>) -> bool {
    &&& (a.count)(c.reduction_params[0]) == n
    &&& (a.count)(c.reduction_params[1]) == sum_groups(n)
}

/// The workgroups of a vector kernel cover its entries.
pub(super) proof fn lemma_covered(n: usize)
    requires
        n <= u32::MAX,
    ensures
        n <= 128 * vector_groups(n),
{
    crate::runtime::law_groups_cover(n as nat, 128);
    super::encode::lemma_groups_fit(n as nat, 128);
}

/// Words that the host writes to the start of a buffer.
pub open spec fn stored<T>(a: Arithmetic<T>, old_words: Seq<T>, words: Seq<u32>) -> Seq<T> {
    overwritten(
        old_words,
        Seq::new(words.len(), |i: int| (a.word)(words[i])),
        words.len(),
    )
}

/// The words of the parameters of the residual.
pub open spec fn residual_words(n: usize) -> Seq<u32> {
    seq![
        crate::portable::narrowed(super::encode::MINUS_ONE),
        crate::portable::narrowed(super::encode::ONE),
        n as u32,
        0,
    ]
}

/// The words of the parameters of a reduction.
pub open spec fn sum_words(n: usize) -> Seq<u32> {
    seq![n as u32, super::partial_sums(n as nat) as usize as u32, 0, 0]
}

/// The cells after the residual has been computed from the right-hand side, the solution and the
/// matrix.
pub open spec fn with_new_residual<T>(a: Arithmetic<T>, n: usize, c: Cells<T>) -> Cells<T> {
    let ax = multiplied(a, n, c, c.x, c.ax);
    let copied = overwritten(c.r, c.b, (crate::runtime::single_bytes(n) / 4) as nat);
    let vector_params = stored(a, c.vector_params, residual_words(n));
    Cells {
        ax,
        vector_params,
        r: combined(a, vector_groups(n), vector_params, ax, copied),
        ..c
    }
}

/// The cells after a reduction in a submission of its own.
pub open spec fn reduced<T>(a: Arithmetic<T>, n: usize, c: Cells<T>, v: Sextet<T>) -> Cells<T> {
    summed(
        a,
        n,
        Cells { reduction_params: stored(a, c.reduction_params, sum_words(n)), ..c },
        v,
    )
}

/// The cells after the first commands of a solve.
pub open spec fn started<T>(a: Arithmetic<T>, n: usize, c: Cells<T>) -> Cells<T> {
    let whole = (crate::runtime::single_bytes(n) / 4) as nat;
    let c1 = with_new_residual(a, n, c);
    let c2 = Cells { r_hat: overwritten(c1.r_hat, c1.r, whole), ..c1 };
    let c3 = Cells { p: overwritten(c2.p, c2.r, whole), ..c2 };
    reduced(
        a,
        n,
        c3,
        Sextet { x0: c3.b, y0: c3.b, x1: c3.r, y1: c3.r, x2: c3.r, y2: c3.r },
    )
}

/// The cells after the last commands of a solve.
pub open spec fn ended<T>(a: Arithmetic<T>, n: usize, c: Cells<T>) -> Cells<T> {
    let c1 = with_new_residual(a, n, c);
    reduced(
        a,
        n,
        c1,
        Sextet { x0: c1.r, y0: c1.r, x1: c1.r, y1: c1.r, x2: c1.r, y2: c1.r },
    )
}

/// The cells after the solver state has been initialised.
pub open spec fn initialised<T>(
    a: Arithmetic<T>,
    convergence: crate::convergence::Convergence,
    rhs_squared: u64,
    residual_squared: u64,
    n: usize,
    c: Cells<T>,
) -> Cells<T> {
    let words = super::encode::resident_state(convergence, rhs_squared, residual_squared);
    Cells {
        state: stored(a, c.state, words),
        reduction_params: stored(a, c.reduction_params, sum_words(n)),
        ..c
    }
}

/// The memory after the commands that a runtime has recorded since an earlier state of it.
pub open spec fn carried_out<T>(
    d: Device<T>,
    m: Map<usize, Seq<T>>,
    before: RuntimeView,
    after: RuntimeView,
) -> Map<usize, Seq<T>> {
    run_commands(d, appended(before, after), m)
}

pub(super) proof fn lemma_submitted_one<T>(
    d: Device<T>,
    m: Map<usize, Seq<T>>,
    before: RuntimeView,
    after: RuntimeView,
    label: Seq<char>,
    work: EncodedView,
)
    requires
        before.commands.len() <= after.commands.len(),
    ensures
        carried_out(
            d,
            m,
            before,
            after.submit(crate::command::EncoderView::empty(label).with(work)),
        ) == run_work(d.arithmetic, work, carried_out(d, m, before, after)),
{
    let encoder = crate::command::EncoderView::empty(label).with(work);
    let submit = CommandView::Submit { label: encoder.label, encoded: encoder.encoded };
    lemma_run_more(d, m, before, after, submit);
    assert(encoder.encoded =~= seq![work]);
    assert(seq![work].drop_last() =~= seq![]);
    let now = carried_out(d, m, before, after);
    assert(run_encoded(d.arithmetic, seq![work].drop_last(), now) == now);
}

proof fn lemma_written<T>(
    d: Device<T>,
    m: Map<usize, Seq<T>>,
    before: RuntimeView,
    after: RuntimeView,
    context: ContextView,
    solve: SolveView,
    k: int,
    buffer: usize,
    words: Seq<u32>,
)
    requires
        fit(context, solve),
        before.commands.len() <= after.commands.len(),
        d.order == after.order,
        0 <= k < 19,
        !(2 <= k < 6),
        place(context, solve, k) == Some(buffer),
    ensures
        ({
            let now = carried_out(d, m, before, after);
            let next = after.write(buffer, crate::bytes::words_bytes(after.order, words));
            cells(carried_out(d, m, before, next), context, solve) == with_cell(
                cells(now, context, solve),
                k,
                stored(d.arithmetic, now[buffer], words),
            )
        }),
{
    let now = carried_out(d, m, before, after);
    let contents = crate::bytes::words_bytes(after.order, words);
    crate::bytes::law_decode_undoes_encode(after.order, words);
    lemma_run_more(d, m, before, after, CommandView::WriteBuffer { buffer, contents });
    lemma_cell(now, context, solve, k, buffer, stored(d.arithmetic, now[buffer], words));
}

proof fn lemma_copied<T>(
    d: Device<T>,
    m: Map<usize, Seq<T>>,
    before: RuntimeView,
    after: RuntimeView,
    context: ContextView,
    solve: SolveView,
    k: int,
    source: VectorView,
    destination: VectorView,
)
    requires
        fit(context, solve),
        before.commands.len() <= after.commands.len(),
        0 <= k < 19,
        !(2 <= k < 6),
        place(context, solve, k) == Some(destination.buffer),
        source.len == solve.workspace.n,
    ensures
        ({
            let now = carried_out(d, m, before, after);
            let next = super::encode::with_copy(after, source, destination);
            cells(carried_out(d, m, before, next), context, solve) == with_cell(
                cells(now, context, solve),
                k,
                overwritten(
                    now[destination.buffer],
                    now[source.buffer],
                    (crate::runtime::single_bytes(solve.workspace.n) / 4) as nat,
                ),
            )
        }),
{
    let now = carried_out(d, m, before, after);
    let bytes = crate::runtime::single_bytes(source.len);
    let copy = EncodedView::CopyBuffer {
        source: source.buffer,
        destination: destination.buffer,
        bytes,
    };
    lemma_submitted_one(d, m, before, after, "copy WebGPU vector"@, copy);
    let value = overwritten(
        now[destination.buffer],
        now[source.buffer],
        (bytes / 4) as nat,
    );
    lemma_cell(now, context, solve, k, destination.buffer, value);
}

#[verifier::spinoff_prover]
proof fn lemma_residual_cells<T>(
    d: Device<T>,
    m: Map<usize, Seq<T>>,
    before: RuntimeView,
    context: ContextView,
    solve: SolveView,
)
    requires
        fit(context, solve),
        d.order == before.order,
        solve.b.len == solve.workspace.n,
    ensures
        ({
            let after = super::session::with_residual(before, context, solve);
            &&& before.commands.len() <= after.commands.len()
            &&& after.order == before.order
            &&& cells(carried_out(d, m, before, after), context, solve) == with_new_residual(
                d.arithmetic,
                solve.workspace.n,
                cells(m, context, solve),
            )
        }),
{
    let a = d.arithmetic;
    let (w, o) = (solve.workspace, solve.operator);
    let params = context.vector_params;
    assert(appended(before, before) =~= seq![]);
    assert(carried_out(d, m, before, before) == m);
    assert(place(context, solve, 0) == Some(params));
    assert(place(context, solve, 6) == Some(w.r.buffer));
    assert(place(context, solve, 14) == Some(w.ax.buffer));
    assert(place(context, solve, 19) == Some(solve.b.buffer));
    let r1 = crate::operator::with_product(before, o, solve.x, w.ax);
    lemma_submitted_one(
        d,
        m,
        before,
        before,
        "kryst WebGPU CSR SpMV"@,
        crate::operator::product_pass(o, solve.x, w.ax),
    );
    lemma_product_cells(a, m, context, solve, 14, solve.x, w.ax);
    let r2 = super::encode::with_copy(r1, solve.b, w.r);
    lemma_copied(d, m, before, r1, context, solve, 6, solve.b, w.r);
    let words = residual_words(w.n);
    lemma_written(d, m, before, r2, context, solve, 0, params, words);
    let r3 = r2.write(params, crate::bytes::words_bytes(r2.order, words));
    let dispatch = Dispatch {
        kernel: Kernel::Axpby,
        groups: crate::runtime::groups(w.ax.len as nat, 128) as u32,
    };
    let buffers = seq![w.ax.buffer, w.r.buffer, params];
    let pass = EncodedView::ComputePass {
        label: "kryst WebGPU axpby"@,
        bindings: crate::command::bound(buffers),
        dispatches: seq![dispatch],
    };
    lemma_submitted_one(d, m, before, r3, "kryst WebGPU axpby"@, pass);
    let m3 = carried_out(d, m, before, r3);
    lemma_one_kernel(a, "kryst WebGPU axpby"@, buffers, dispatch, m3);
    let value = combined(
        a,
        vector_groups(w.n),
        m3[params],
        m3[w.ax.buffer],
        m3[w.r.buffer],
    );
    lemma_cell(m3, context, solve, 6, w.r.buffer, value);
}

#[verifier::spinoff_prover]
proof fn lemma_dot3_cells<T>(
    d: Device<T>,
    m: Map<usize, Seq<T>>,
    before: RuntimeView,
    after: RuntimeView,
    context: ContextView,
    solve: SolveView,
    pairs: PairsView,
)
    requires
        fit(context, solve),
        before.commands.len() <= after.commands.len(),
        d.order == after.order,
        pairs.x0.len == solve.workspace.n,
        pairs.x0.buffer != context.reduction_params,
        pairs.y0.buffer != context.reduction_params,
        pairs.x1.buffer != context.reduction_params,
        pairs.y1.buffer != context.reduction_params,
        pairs.x2.buffer != context.reduction_params,
        pairs.y2.buffer != context.reduction_params,
    ensures
        ({
            let now = carried_out(d, m, before, after);
            let next = super::encode::with_dot3(
                after,
                context.reduction_params,
                pairs,
                solve.workspace.reduction,
            );
            cells(carried_out(d, m, before, next), context, solve) == reduced(
                d.arithmetic,
                solve.workspace.n,
                cells(now, context, solve),
                sextet(now, pairs),
            )
        }),
{
    let w = solve.workspace;
    let params = context.reduction_params;
    assert(place(context, solve, 1) == Some(params));
    let words = sum_words(w.n);
    lemma_written(d, m, before, after, context, solve, 1, params, words);
    let middle = super::encode::with_reduction_params(after, params, w.n, w.reduction);
    assert(middle == after.write(params, crate::bytes::words_bytes(after.order, words)));
    let pass = super::encode::dots_pass("kryst WebGPU dot3"@, pairs, w.reduction, params);
    lemma_submitted_one(d, m, before, middle, "kryst WebGPU dot3"@, pass);
    let now = carried_out(d, m, before, after);
    let then = carried_out(d, m, before, middle);
    lemma_run_more(
        d,
        m,
        before,
        after,
        CommandView::WriteBuffer {
            buffer: params,
            contents: crate::bytes::words_bytes(after.order, words),
        },
    );
    assert(sextet(then, pairs) == sextet(now, pairs));
    lemma_dots_cells(d.arithmetic, then, context, solve, "kryst WebGPU dot3"@, pairs);
}

/// What the first and the last commands of a solve, and the initialisation of its state, make of
/// its buffers.
#[verifier::spinoff_prover]
pub proof fn law_steps_meaning<T>(
    d: Device<T>,
    m: Map<usize, Seq<T>>,
    before: RuntimeView,
    context: ContextView,
    solve: SolveView,
    sizes: Seq<u64>,
    rhs_squared: u64,
    residual_squared: u64,
)
    requires
        solve.active(context),
        laid_out(context, solve, sizes),
        d.order == before.order,
    ensures
        ({
            let a = d.arithmetic;
            let n = solve.workspace.n;
            let c = cells(m, context, solve);
            let startup = super::session::with_startup(before, context, solve);
            let state = super::session::with_state(
                before,
                context,
                solve,
                rhs_squared,
                residual_squared,
            );
            let tail = super::session::with_tail(before, context, solve);
            &&& cells(carried_out(d, m, before, startup), context, solve) == started(a, n, c)
            &&& cells(carried_out(d, m, before, state), context, solve) == initialised(
                a,
                context.convergence,
                rhs_squared,
                residual_squared,
                n,
                c,
            )
            &&& cells(carried_out(d, m, before, tail), context, solve) == ended(a, n, c)
        }),
{
    let w = solve.workspace;
    let params = context.reduction_params;
    lemma_separate(context, solve, sizes);
    lemma_residual_cells(d, m, before, context, solve);
    assert(appended(before, before) =~= seq![]);
    assert(carried_out(d, m, before, before) == m);
    assert(place(context, solve, 1) == Some(params));
    assert(place(context, solve, 6) == Some(w.r.buffer));
    assert(place(context, solve, 7) == Some(w.r_hat.buffer));
    assert(place(context, solve, 8) == Some(w.p.buffer));
    assert(place(context, solve, 17) == Some(w.state));
    assert(place(context, solve, 19) == Some(solve.b.buffer));
    let r1 = super::session::with_residual(before, context, solve);
    let r2 = super::encode::with_copy(r1, w.r, w.r_hat);
    let r3 = super::encode::with_copy(r2, w.r, w.p);
    lemma_copied(d, m, before, r1, context, solve, 7, w.r, w.r_hat);
    lemma_copied(d, m, before, r2, context, solve, 8, w.r, w.p);
    let first = super::encode::pairs(solve.b, solve.b, w.r, w.r, w.r, w.r);
    lemma_dot3_cells(d, m, before, r3, context, solve, first);
    let last = super::encode::pairs(w.r, w.r, w.r, w.r, w.r, w.r);
    lemma_dot3_cells(d, m, before, r1, context, solve, last);
    let words = super::encode::resident_state(context.convergence, rhs_squared, residual_squared);
    lemma_written(d, m, before, before, context, solve, 17, w.state, words);
    let s1 = before.write(w.state, crate::bytes::words_bytes(before.order, words));
    lemma_written(d, m, before, s1, context, solve, 1, params, sum_words(w.n));
}

} // verus!
