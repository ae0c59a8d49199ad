//! What holds of a solve as a whole: where its buffers lie, what its commands may touch, and how
//! its steps fit together.
use super::encode::{PairsView, Recording};
use super::session::SolveView;
use super::{ContextView, PreparedView, ReductionView};
use crate::command::{EncodedView, Kernel};
use crate::hazard::{records, sound};
use crate::runtime::RuntimeView;
use crate::vector::VectorView;
use vstd::prelude::*;

verus! {

/// Whether a vector lies in a buffer that is large enough for it.
pub open spec fn holds(vector: VectorView, sizes: Seq<u64>) -> bool {
    &&& vector.buffer < sizes.len()
    &&& crate::runtime::single_bytes(vector.len) <= sizes[vector.buffer as int]
}

/// How many buffers a context can have.
pub open spec fn own_count() -> int {
    18
}

/// The buffer that a context has at a place, if it has one there: the parameters, then those of
/// the operator, of the diagonal scaling and of the workspace.
pub open spec fn own(context: ContextView, place: int) -> Option<usize> {
    if place == 0 {
        Some(context.vector_params)
    } else if place == 1 {
        Some(context.reduction_params)
    } else if 2 <= place < 5 {
        match context.operator {
            Some(operator) => Some(
                if place == 2 {
                    operator.row_offsets
                } else if place == 3 {
                    operator.column_indices
                } else {
                    operator.values
                },
            ),
            None => None,
        }
    } else if place == 5 {
        match context.preconditioner {
            Some(PreparedView::Jacobi(jacobi)) => Some(jacobi.inverse_diagonal),
            _ => None,
        }
    } else if 6 <= place < 18 {
        match context.workspace {
            Some(work) => Some(
                if place == 6 {
                    work.r.buffer
                } else if place == 7 {
                    work.r_hat.buffer
                } else if place == 8 {
                    work.p.buffer
                } else if place == 9 {
                    work.v.buffer
                } else if place == 10 {
                    work.s.buffer
                } else if place == 11 {
                    work.t.buffer
                } else if place == 12 {
                    work.z_p.buffer
                } else if place == 13 {
                    work.z_s.buffer
                } else if place == 14 {
                    work.ax.buffer
                } else if place == 15 {
                    work.reduction.partials
                } else if place == 16 {
                    work.reduction.result
                } else {
                    work.state
                },
            ),
            None => None,
        }
    } else {
        None
    }
}

/// Whether no buffer of a context stands at two places.
pub open spec fn distinct(context: ContextView) -> bool {
    forall|i: int, j: int|
        0 <= i < j < own_count() && #[trigger] own(context, i) is Some ==> own(context, i)
            != #[trigger] own(context, j)
}

/// Whether the buffers of a context exist.
pub open spec fn exist(context: ContextView, sizes: Seq<u64>) -> bool {
    forall|i: int|
        0 <= i < own_count() && (#[trigger] own(context, i)) is Some ==> own(context, i)->0
            < sizes.len()
}

/// Whether the buffers of a workspace are large enough for what they hold.
pub open spec fn workspace_fits(work: super::WorkspaceView, sizes: Seq<u64>) -> bool {
    &&& holds(work.r, sizes)
    &&& holds(work.r_hat, sizes)
    &&& holds(work.p, sizes)
    &&& holds(work.v, sizes)
    &&& holds(work.s, sizes)
    &&& holds(work.t, sizes)
    &&& holds(work.z_p, sizes)
    &&& holds(work.z_s, sizes)
    &&& holds(work.ax, sizes)
    &&& super::partial_bytes(work.reduction.partial_count) <= sizes[work.reduction.partials as int]
    &&& 16 <= sizes[work.reduction.result as int]
    &&& 64 <= sizes[work.state as int]
}

/// Whether the buffers of a context exist, are separate and are large enough.
pub open spec fn placed(context: ContextView, sizes: Seq<u64>) -> bool {
    &&& distinct(context)
    &&& exist(context, sizes)
    &&& 16 <= sizes[context.vector_params as int]
    &&& 16 <= sizes[context.reduction_params as int]
    &&& context.workspace matches Some(work) ==> workspace_fits(work, sizes)
}

/// Whether a vector lies apart from the buffers of a context.
pub open spec fn apart(context: ContextView, vector: VectorView) -> bool {
    forall|i: int| 0 <= i < own_count() ==> #[trigger] own(context, i) != Some(vector.buffer)
}

/// A new context has its buffers to itself.
pub proof fn law_new_context_placed(runtime: RuntimeView)
    requires
        runtime.sizes.len() + 2 <= usize::MAX,
    ensures
        placed(super::next_context(runtime), super::with_context(runtime).sizes),
{
    let zeros = Seq::new(16, |i: int| 0u8);
    assert(super::with_context(runtime).sizes == runtime.sizes.push(16u64).push(16u64));
}

/// A new operator brings buffers of its own to a context.
pub proof fn law_new_operator_placed(
    context: ContextView,
    runtime: RuntimeView,
    nrows: usize,
    ncols: usize,
    rows: Seq<usize>,
    columns: Seq<usize>,
    values: Seq<u64>,
)
    requires
        placed(context, runtime.sizes),
        runtime.sizes.len() + 3 <= usize::MAX,
    ensures
        placed(
            ContextView {
                operator: Some(
                    crate::operator::next_operator(runtime, nrows, ncols, rows, columns, values),
                ),
                preconditioner: None,
                workspace: None,
                ..context
            },
            crate::operator::with_operator(runtime, rows, columns, values).sizes,
        ),
{
    let operator = crate::operator::next_operator(runtime, nrows, ncols, rows, columns, values);
    let after = ContextView {
        operator: Some(operator),
        preconditioner: None,
        workspace: None,
        ..context
    };
    assert forall|i: int, j: int|
        0 <= i < j < own_count() && #[trigger] own(after, i) is Some implies own(after, i)
        != #[trigger] own(after, j) by {
        assert(own(context, 0) is Some && own(context, 1) is Some);
        assert(own(context, 0) != own(context, 1));
    }
    assert(own(context, 0) is Some && own(context, 1) is Some);
}

/// A new vector lies apart from the buffers of every context that is there already, is large
/// enough, and leaves those contexts as they were.
pub proof fn law_new_vector_apart(context: ContextView, runtime: RuntimeView, host: Seq<u64>)
    requires
        placed(context, runtime.sizes),
        runtime.sizes.len() < usize::MAX,
        4 * host.len() <= usize::MAX,
    ensures
        ({
            let vector = crate::vector::next_vector(runtime, host.len() as usize);
            let zeros = crate::vector::with_zeros(runtime, host.len() as usize);
            let loaded = super::session::with_host_vector(runtime, host);
            &&& apart(context, vector)
            &&& holds(vector, zeros.sizes)
            &&& holds(vector, loaded.sizes)
            &&& placed(context, zeros.sizes)
            &&& placed(context, loaded.sizes)
        }),
{
    let vector = crate::vector::next_vector(runtime, host.len() as usize);
    assert forall|i: int| 0 <= i < own_count() implies #[trigger] own(context, i) != Some(
        vector.buffer,
    ) by {}
    let zeros = crate::vector::with_zeros(runtime, host.len() as usize);
    let loaded = super::session::with_host_vector(runtime, host);
    lemma_placed_grows(context, runtime.sizes, zeros.sizes);
    lemma_placed_grows(context, runtime.sizes, loaded.sizes);
}

/// More buffers leave the places of a context as they were.
proof fn lemma_placed_grows(context: ContextView, before: Seq<u64>, after: Seq<u64>)
    requires
        placed(context, before),
        before.len() <= after.len(),
        forall|i: int| 0 <= i < before.len() ==> before[i] == #[trigger] after[i],
    ensures
        placed(context, after),
{
    assert(own(context, 0) is Some && own(context, 1) is Some);
    if context.workspace is Some {
        assert(own(context, 15) is Some && own(context, 16) is Some && own(context, 17) is Some);
    }
}

/// A preparation gives a context its remaining buffers, each of its own.
pub proof fn law_setup_placed(context: ContextView, runtime: RuntimeView)
    requires
        context.operator is Some,
        placed(context, runtime.sizes),
        runtime.sizes.len() + 13 <= usize::MAX,
    ensures
        placed(super::prepared(context, runtime), super::with_setup(context, runtime).sizes),
{
    let n = context.operator->0.nrows;
    let middle = super::after_preconditioner(context, runtime);
    let ready = super::prepared(context, runtime);
    let end = super::with_setup(context, runtime);
    let start = runtime.sizes.len() as int;
    lemma_vector_sizes(middle, n, 9);
    assert(super::with_vectors(middle, n, 9).sizes.len() == middle.sizes.len() + 9);
    assert forall|i: int, j: int|
        0 <= i < j < own_count() && #[trigger] own(ready, i) is Some implies own(ready, i)
        != #[trigger] own(ready, j) by {
        lemma_setup_place(context, runtime, i);
        lemma_setup_place(context, runtime, j);
        if own(ready, i) == own(context, i) && own(ready, j) == own(context, j) {
            assert(own(context, i) is Some);
        }
    }
    assert forall|i: int| 0 <= i < own_count() && (#[trigger] own(ready, i)) is Some implies own(
        ready,
        i,
    )->0 < end.sizes.len() by {
        lemma_setup_place(context, runtime, i);
        if own(ready, i) == own(context, i) {
            assert(own(context, i) is Some);
        }
    }
    assert(own(context, 0) is Some && own(context, 1) is Some);
    if super::makes_workspace(context) {
        let m = middle.sizes.len() as int;
        let vectors = super::with_vectors(middle, n, 9).sizes;
        assert(end.sizes =~= vectors.push(
            crate::runtime::at_least_a_word(
                super::partial_bytes(super::partial_sums(n as nat) as usize),
            ),
        ).push(16).push(64));
        assert(forall|i: int| m <= i < m + 9 ==> end.sizes[i] == vectors[i]);
    } else {
        lemma_placed_grows(context, runtime.sizes, end.sizes);
    }
}

/// Where a preparation puts the buffer at a place: it keeps the one that is there, or makes a new
/// one whose number tells the place.
proof fn lemma_setup_place(context: ContextView, runtime: RuntimeView, place: int)
    requires
        context.operator is Some,
        0 <= place < own_count(),
        runtime.sizes.len() + 13 <= usize::MAX,
    ensures
        ({
            let ready = super::prepared(context, runtime);
            let start = runtime.sizes.len() as int;
            let middle = super::after_preconditioner(context, runtime).sizes.len() as int;
            ||| own(ready, place) == own(context, place)
            ||| own(ready, place) is None
            ||| place == 5 && own(ready, place) == Some(start as usize) && middle == start + 1
            ||| place >= 6 && super::makes_workspace(context) && own(ready, place) == Some(
                (middle + place - 6) as usize,
            )
        }),
{
}

/// New vectors are as large as what they hold, and the buffers before them stay as they were.
proof fn lemma_vector_sizes(runtime: RuntimeView, n: usize, count: nat)
    ensures
        ({
            let after = super::with_vectors(runtime, n, count).sizes;
            let start = runtime.sizes.len() as int;
            &&& after.len() == start + count
            &&& forall|i: int| 0 <= i < start ==> after[i] == runtime.sizes[i]
            &&& forall|i: int|
                start <= i < start + count ==> after[i] == crate::runtime::at_least_a_word(
                    crate::runtime::single_bytes(n),
                )
        }),
    decreases count,
{
    if count > 0 {
        lemma_vector_sizes(runtime, n, (count - 1) as nat);
    }
}

/// Whether the buffers that a solve works in exist, are separate and are large enough: those of
/// its context, and the vectors of the right-hand side and of the solution.
pub open spec fn laid_out(context: ContextView, solve: SolveView, sizes: Seq<u64>) -> bool {
    let whole = super::session::returned(context, solve);
    &&& placed(whole, sizes)
    &&& apart(whole, solve.b)
    &&& apart(whole, solve.x)
    &&& solve.b.buffer != solve.x.buffer
    &&& holds(solve.b, sizes)
    &&& holds(solve.x, sizes)
}

/// The buffers that the computation of a residual writes.
pub open spec fn residual_writes(context: ContextView, solve: SolveView) -> Set<usize> {
    let w = solve.workspace;
    set![
        w.ax.buffer,
        w.r.buffer,
        w.reduction.partials,
        w.reduction.result,
        context.vector_params,
        context.reduction_params,
    ]
}

/// The buffers that the first commands of a solve write.
pub open spec fn startup_writes(context: ContextView, solve: SolveView) -> Set<usize> {
    residual_writes(context, solve).insert(solve.workspace.r_hat.buffer).insert(
        solve.workspace.p.buffer,
    )
}

/// The buffers that the initialisation of the solver state writes.
pub open spec fn state_writes(context: ContextView, solve: SolveView) -> Set<usize> {
    set![solve.workspace.state, context.reduction_params]
}

/// The buffers that iterations write.
pub open spec fn batch_writes(solve: SolveView) -> Set<usize> {
    let w = solve.workspace;
    set![
        solve.x.buffer,
        w.r.buffer,
        w.p.buffer,
        w.v.buffer,
        w.s.buffer,
        w.t.buffer,
        w.z_p.buffer,
        w.z_s.buffer,
        w.reduction.partials,
        w.reduction.result,
        w.state,
    ]
}

/// Two places of a context that is laid out hold different buffers.
proof fn lemma_distinct(context: ContextView, i: int, j: int)
    requires
        distinct(context),
        0 <= i < own_count(),
        0 <= j < own_count(),
        i != j,
        own(context, i) is Some,
    ensures
        own(context, i) != own(context, j),
{
    if i < j {
        assert(own(context, i) != own(context, j));
    } else if own(context, j) is Some {
        assert(own(context, j) != own(context, i));
    }
}

/// The copy of a vector is accepted.
proof fn lemma_copy(
    source: VectorView,
    destination: VectorView,
    sizes: Seq<u64>,
    allowed: Set<usize>,
)
    requires
        holds(source, sizes),
        holds(destination, sizes),
        source.len == destination.len,
        source.buffer != destination.buffer,
        4 * source.len <= usize::MAX,
        allowed.contains(destination.buffer),
    ensures
        sound(
            EncodedView::CopyBuffer {
                source: source.buffer,
                destination: destination.buffer,
                bytes: crate::runtime::single_bytes(source.len),
            },
            sizes,
            allowed,
        ),
{
}

/// A product is accepted.
proof fn lemma_product(
    operator: crate::operator::OperatorView,
    x: VectorView,
    y: VectorView,
    sizes: Seq<u64>,
    allowed: Set<usize>,
)
    requires
        operator.row_offsets < sizes.len(),
        operator.column_indices < sizes.len(),
        operator.values < sizes.len(),
        x.buffer < sizes.len(),
        y.buffer < sizes.len(),
        y.buffer != operator.row_offsets,
        y.buffer != operator.column_indices,
        y.buffer != operator.values,
        y.buffer != x.buffer,
        allowed.contains(y.buffer),
    ensures
        sound(crate::operator::product_pass(operator, x, y), sizes, allowed),
{
    let buffers = seq![
        operator.row_offsets,
        operator.column_indices,
        operator.values,
        x.buffer,
        y.buffer,
    ];
    let pass = crate::operator::product_pass(operator, x, y);
    crate::hazard::lemma_pass(pass->label, buffers, pass->dispatches, sizes, allowed);
}

/// A diagonal scaling is accepted.
proof fn lemma_scaling(
    jacobi: crate::preconditioner::JacobiView,
    x: VectorView,
    y: VectorView,
    sizes: Seq<u64>,
    allowed: Set<usize>,
)
    requires
        jacobi.inverse_diagonal < sizes.len(),
        x.buffer < sizes.len(),
        y.buffer < sizes.len(),
        y.buffer != jacobi.inverse_diagonal,
        y.buffer != x.buffer,
        allowed.contains(y.buffer),
    ensures
        sound(crate::preconditioner::scaling_pass(jacobi, x, y), sizes, allowed),
{
    let buffers = seq![jacobi.inverse_diagonal, x.buffer, y.buffer];
    let pass = crate::preconditioner::scaling_pass(jacobi, x, y);
    crate::hazard::lemma_pass(pass->label, buffers, pass->dispatches, sizes, allowed);
}

/// A vector kernel is accepted.
proof fn lemma_vector_pass(
    kernel: Kernel,
    state: usize,
    a: VectorView,
    output: VectorView,
    c: VectorView,
    sizes: Seq<u64>,
    allowed: Set<usize>,
)
    requires
        crate::command::kernel_module(kernel) is ResidentVector,
        state < sizes.len(),
        a.buffer < sizes.len(),
        output.buffer < sizes.len(),
        c.buffer < sizes.len(),
        output.buffer != state,
        output.buffer != a.buffer,
        output.buffer != c.buffer,
        allowed.contains(output.buffer),
    ensures
        sound(super::encode::vector_pass(kernel, state, a, output, c), sizes, allowed),
{
    let buffers = seq![state, a.buffer, output.buffer, c.buffer];
    let pass = super::encode::vector_pass(kernel, state, a, output, c);
    crate::hazard::lemma_pass(pass->label, buffers, pass->dispatches, sizes, allowed);
}

/// A scalar kernel is accepted.
proof fn lemma_scalar_pass(
    kernel: Kernel,
    state: usize,
    reduction: ReductionView,
    sizes: Seq<u64>,
    allowed: Set<usize>,
)
    requires
        crate::command::kernel_module(kernel) is ResidentScalar,
        state < sizes.len(),
        reduction.result < sizes.len(),
        reduction.result != state,
        allowed.contains(state),
    ensures
        sound(super::encode::scalar_pass(kernel, state, reduction), sizes, allowed),
{
    let buffers = seq![state, reduction.result];
    let pass = super::encode::scalar_pass(kernel, state, reduction);
    crate::hazard::lemma_pass(pass->label, buffers, pass->dispatches, sizes, allowed);
}

/// Whether a vector can be summed over: it exists and lies apart from the buffers of the sums.
spec fn summable(vector: VectorView, reduction: ReductionView, sizes: Seq<u64>) -> bool {
    &&& vector.buffer < sizes.len()
    &&& vector.buffer != reduction.partials
    &&& vector.buffer != reduction.result
}

/// A reduction is accepted.
proof fn lemma_dots_pass(
    label: Seq<char>,
    pairs: PairsView,
    reduction: ReductionView,
    params: usize,
    sizes: Seq<u64>,
    allowed: Set<usize>,
)
    requires
        summable(pairs.x0, reduction, sizes),
        summable(pairs.y0, reduction, sizes),
        summable(pairs.x1, reduction, sizes),
        summable(pairs.y1, reduction, sizes),
        summable(pairs.x2, reduction, sizes),
        summable(pairs.y2, reduction, sizes),
        params < sizes.len(),
        params != reduction.partials,
        params != reduction.result,
        reduction.partials < sizes.len(),
        reduction.result < sizes.len(),
        reduction.partials != reduction.result,
        allowed.contains(reduction.partials),
        allowed.contains(reduction.result),
    ensures
        sound(super::encode::dots_pass(label, pairs, reduction, params), sizes, allowed),
{
    let buffers = seq![
        pairs.x0.buffer,
        pairs.y0.buffer,
        pairs.x1.buffer,
        pairs.y1.buffer,
        reduction.partials,
        reduction.result,
        params,
        pairs.x2.buffer,
        pairs.y2.buffer,
    ];
    let pass = super::encode::dots_pass(label, pairs, reduction, params);
    crate::hazard::lemma_pass(label, buffers, pass->dispatches, sizes, allowed);
}

/// Whether what has been recorded since `before`, submitted or not, is accepted.
spec fn growing(before: RuntimeView, work: Recording, allowed: Set<usize>) -> bool {
    &&& records(before, work.runtime, allowed)
    &&& forall|i: int|
        0 <= i < work.encoder.encoded.len() ==> sound(
            #[trigger] work.encoder.encoded[i],
            before.sizes,
            allowed,
        )
}

proof fn lemma_grows(before: RuntimeView, work: Recording, more: EncodedView, allowed: Set<usize>)
    requires
        growing(before, work, allowed),
        sound(more, before.sizes, allowed),
    ensures
        growing(before, work.with(more), allowed),
{
    let after = work.with(more);
    assert(after.encoder.encoded =~= work.encoder.encoded.push(more));
}

proof fn lemma_submits(before: RuntimeView, work: Recording, allowed: Set<usize>)
    requires
        growing(before, work, allowed),
    ensures
        records(before, work.runtime.submit(work.encoder), allowed),
{
    let command = crate::command::CommandView::Submit {
        label: work.encoder.label,
        encoded: work.encoder.encoded,
    };
    crate::hazard::lemma_records_one(work.runtime, command, allowed);
    crate::hazard::lemma_records_more(
        before,
        work.runtime,
        work.runtime.record(command),
        allowed,
    );
}

proof fn lemma_preconditions(
    before: RuntimeView,
    work: Recording,
    context: ContextView,
    x: VectorView,
    y: VectorView,
    allowed: Set<usize>,
)
    requires
        growing(before, work, allowed),
        context.custom is Some || context.preconditioner is Some,
        context.preconditioner matches Some(PreparedView::Jacobi(jacobi)) ==> {
            &&& jacobi.inverse_diagonal < before.sizes.len()
            &&& jacobi.inverse_diagonal != y.buffer
        },
        holds(x, before.sizes),
        holds(y, before.sizes),
        x.len == y.len,
        x.buffer != y.buffer,
        4 * x.len <= usize::MAX,
        allowed.contains(y.buffer),
    ensures
        growing(before, work.precondition(context, x, y), allowed),
{
    if context.custom is Some {
        lemma_submits(before, work, allowed);
        let middle = work.runtime.submit(work.encoder);
        let command = crate::command::CommandView::Precondition { input: x, output: y };
        crate::hazard::lemma_records_one(middle, command, allowed);
        crate::hazard::lemma_records_more(before, middle, middle.record(command), allowed);
    } else {
        match context.preconditioner->0 {
            PreparedView::Identity => {
                lemma_copy(x, y, before.sizes, allowed);
                let copy = EncodedView::CopyBuffer {
                    source: x.buffer,
                    destination: y.buffer,
                    bytes: crate::runtime::single_bytes(x.len),
                };
                lemma_grows(before, work, copy, allowed);
            },
            PreparedView::Jacobi(jacobi) => {
                lemma_scaling(jacobi, x, y, before.sizes, allowed);
                let pass = crate::preconditioner::scaling_pass(jacobi, x, y);
                lemma_grows(before, work, pass, allowed);
            },
        }
    }
}

/// The buffers that the commands of a solve write, parameters aside.
spec fn outputs(solve: SolveView) -> Seq<usize> {
    let w = solve.workspace;
    seq![
        solve.x.buffer,
        w.r.buffer,
        w.r_hat.buffer,
        w.p.buffer,
        w.v.buffer,
        w.s.buffer,
        w.t.buffer,
        w.z_p.buffer,
        w.z_s.buffer,
        w.ax.buffer,
        w.reduction.partials,
        w.reduction.result,
        w.state,
    ]
}

/// The buffers that the commands of a solve only read, and those of the parameters.
spec fn inputs(context: ContextView, solve: SolveView) -> Set<usize> {
    set![
        context.vector_params,
        context.reduction_params,
        solve.operator.row_offsets,
        solve.operator.column_indices,
        solve.operator.values,
        solve.b.buffer,
    ]
}

/// What a layout says of the buffers of a solve, one by one.
proof fn lemma_layout(context: ContextView, solve: SolveView, sizes: Seq<u64>)
    requires
        context.operator == Some(solve.operator),
        laid_out(context, solve, sizes),
    ensures
        ({
            let inputs = inputs(context, solve);
            let outputs = outputs(solve);
            &&& outputs.no_duplicates()
            &&& forall|i: int| 0 <= i < outputs.len() ==> !inputs.contains(#[trigger] outputs[i])
            &&& forall|i: int| 0 <= i < outputs.len() ==> #[trigger] outputs[i] < sizes.len()
            &&& forall|b: usize| inputs.contains(b) ==> b < sizes.len()
            &&& context.vector_params != context.reduction_params
            &&& solve.b.buffer != context.vector_params
            &&& solve.b.buffer != context.reduction_params
            &&& context.preconditioner matches Some(PreparedView::Jacobi(jacobi)) ==> {
                &&& jacobi.inverse_diagonal < sizes.len()
                &&& forall|i: int|
                    0 <= i < outputs.len() ==> #[trigger] outputs[i] != jacobi.inverse_diagonal
            }
        }),
{
    let whole = super::session::returned(context, solve);
    let outputs = outputs(solve);
    assert forall|i: int| 1 <= i < 13 implies Some(#[trigger] outputs[i]) == own(whole, i + 5) by {}
    assert forall|i: int, j: int| 0 <= i < j < 13 implies outputs[i] != outputs[j] by {
        if i > 0 {
            lemma_distinct(whole, i + 5, j + 5);
        } else {
            assert(own(whole, j + 5) != Some(solve.x.buffer));
        }
    }
    assert forall|i: int, k: int| 1 <= i < 13 && 0 <= k < 6 implies Some(#[trigger] outputs[i])
        != #[trigger] own(whole, k) by {
        lemma_distinct(whole, i + 5, k);
    }
    assert(own(whole, 0) is Some && own(whole, 1) is Some && own(whole, 2) is Some && own(
        whole,
        3,
    ) is Some && own(whole, 4) is Some);
    lemma_distinct(whole, 0, 1);
    assert(own(whole, 0) != Some(solve.x.buffer) && own(whole, 1) != Some(solve.x.buffer) && own(
        whole,
        2,
    ) != Some(solve.x.buffer) && own(whole, 3) != Some(solve.x.buffer) && own(whole, 4) != Some(
        solve.x.buffer,
    ) && own(whole, 5) != Some(solve.x.buffer));
    assert forall|i: int| 1 <= i < 13 implies #[trigger] outputs[i] != solve.b.buffer by {
        assert(own(whole, i + 5) != Some(solve.b.buffer));
    }
    assert forall|i: int| 1 <= i < 13 implies #[trigger] outputs[i] < sizes.len() by {
        assert(own(whole, i + 5) is Some);
    }
    assert(own(whole, 0) != Some(solve.b.buffer) && own(whole, 1) != Some(solve.b.buffer));
    if context.preconditioner is Some && context.preconditioner->0 is Jacobi {
        assert(own(whole, 5) is Some);
    }
}

proof fn lemma_named_outputs(solve: SolveView)
    ensures
        ({
            let w = solve.workspace;
            let outputs = outputs(solve);
            &&& outputs[0] == solve.x.buffer
            &&& outputs[1] == w.r.buffer
            &&& outputs[2] == w.r_hat.buffer
            &&& outputs[3] == w.p.buffer
            &&& outputs[4] == w.v.buffer
            &&& outputs[5] == w.s.buffer
            &&& outputs[6] == w.t.buffer
            &&& outputs[7] == w.z_p.buffer
            &&& outputs[8] == w.z_s.buffer
            &&& outputs[9] == w.ax.buffer
            &&& outputs[10] == w.reduction.partials
            &&& outputs[11] == w.reduction.result
            &&& outputs[12] == w.state
        }),
{
}

#[verifier::spinoff_prover]
proof fn lemma_iteration_accepted(
    before: RuntimeView,
    start: Recording,
    context: ContextView,
    solve: SolveView,
)
    requires
        solve.active(context),
        laid_out(context, solve, before.sizes),
        4 * solve.workspace.n <= usize::MAX,
        growing(before, start, batch_writes(solve)),
    ensures
        growing(
            before,
            super::encode::iteration(
                start,
                context,
                solve.operator,
                solve.workspace,
                solve.x,
            ),
            batch_writes(solve),
        ),
{
    let sizes = before.sizes;
    let allowed = batch_writes(solve);
    let (w, o, x) = (solve.workspace, solve.operator, solve.x);
    let params = context.reduction_params;
    lemma_layout(context, solve, sizes);
    lemma_named_outputs(solve);
    let inputs = inputs(context, solve);
    assert(inputs.contains(params));
    assert(inputs.contains(o.row_offsets));
    assert(inputs.contains(o.column_indices));
    assert(inputs.contains(o.values));
    let scalar = |kernel: Kernel| super::encode::scalar_pass(kernel, w.state, w.reduction);
    let dots = |p: PairsView|
        super::encode::dots_pass("kryst resident WebGPU dot2"@, p, w.reduction, params);
    let label = "kryst resident WebGPU dot2"@;
    let p0 = super::encode::pairs(w.r_hat, w.r, w.r, w.r, w.r, w.r);
    let p1 = super::encode::pairs(w.r_hat, w.v, w.r_hat, w.v, w.r_hat, w.v);
    let p2 = super::encode::pairs(w.s, w.s, w.t, w.t, w.t, w.s);
    lemma_dots_pass(label, p0, w.reduction, params, sizes, allowed);
    lemma_dots_pass(label, p1, w.reduction, params, sizes, allowed);
    lemma_dots_pass(label, p2, w.reduction, params, sizes, allowed);
    lemma_scalar_pass(Kernel::BeginIteration, w.state, w.reduction, sizes, allowed);
    lemma_scalar_pass(Kernel::FinishAlpha, w.state, w.reduction, sizes, allowed);
    lemma_scalar_pass(Kernel::CheckS, w.state, w.reduction, sizes, allowed);
    lemma_scalar_pass(Kernel::FinishOmega, w.state, w.reduction, sizes, allowed);
    lemma_scalar_pass(Kernel::CheckR, w.state, w.reduction, sizes, allowed);
    lemma_vector_pass(Kernel::UpdatePOmega, w.state, w.r, w.p, w.v, sizes, allowed);
    lemma_vector_pass(Kernel::PrepareP, w.state, w.r, w.p, w.v, sizes, allowed);
    lemma_vector_pass(Kernel::MakeS, w.state, w.r, w.s, w.v, sizes, allowed);
    lemma_vector_pass(Kernel::UpdateXAlpha, w.state, w.z_p, x, w.t, sizes, allowed);
    lemma_vector_pass(Kernel::UpdateXOmega, w.state, w.z_s, x, w.t, sizes, allowed);
    lemma_vector_pass(Kernel::MakeR, w.state, w.s, w.r, w.t, sizes, allowed);
    lemma_product(o, w.z_p, w.v, sizes, allowed);
    lemma_product(o, w.z_s, w.t, sizes, allowed);
    let vector = |kernel: Kernel, a: VectorView, output: VectorView, c: VectorView|
        super::encode::vector_pass(kernel, w.state, a, output, c);
    let s1 = start.with(dots(p0));
    let s2 = s1.with(scalar(Kernel::BeginIteration));
    let s3 = s2.with(vector(Kernel::UpdatePOmega, w.r, w.p, w.v));
    let s4 = s3.with(vector(Kernel::PrepareP, w.r, w.p, w.v));
    let s5 = s4.precondition(context, w.p, w.z_p);
    let s6 = s5.with(crate::operator::product_pass(o, w.z_p, w.v));
    let s7 = s6.with(dots(p1));
    let s8 = s7.with(scalar(Kernel::FinishAlpha));
    let s9 = s8.with(vector(Kernel::MakeS, w.r, w.s, w.v));
    let s10 = s9.with(vector(Kernel::UpdateXAlpha, w.z_p, x, w.t));
    let s11 = s10.precondition(context, w.s, w.z_s);
    let s12 = s11.with(crate::operator::product_pass(o, w.z_s, w.t));
    let s13 = s12.with(dots(p2));
    let s14 = s13.with(scalar(Kernel::CheckS));
    let s15 = s14.with(scalar(Kernel::FinishOmega));
    let s16 = s15.with(vector(Kernel::UpdateXOmega, w.z_s, x, w.t));
    let s17 = s16.with(vector(Kernel::MakeR, w.s, w.r, w.t));
    let s18 = s17.with(dots(p0));
    lemma_grows(before, start, dots(p0), allowed);
    lemma_grows(before, s1, scalar(Kernel::BeginIteration), allowed);
    lemma_grows(before, s2, vector(Kernel::UpdatePOmega, w.r, w.p, w.v), allowed);
    lemma_grows(before, s3, vector(Kernel::PrepareP, w.r, w.p, w.v), allowed);
    lemma_preconditions(before, s4, context, w.p, w.z_p, allowed);
    lemma_grows(before, s5, crate::operator::product_pass(o, w.z_p, w.v), allowed);
    lemma_grows(before, s6, dots(p1), allowed);
    lemma_grows(before, s7, scalar(Kernel::FinishAlpha), allowed);
    lemma_grows(before, s8, vector(Kernel::MakeS, w.r, w.s, w.v), allowed);
    lemma_grows(before, s9, vector(Kernel::UpdateXAlpha, w.z_p, x, w.t), allowed);
    lemma_preconditions(before, s10, context, w.s, w.z_s, allowed);
    lemma_grows(before, s11, crate::operator::product_pass(o, w.z_s, w.t), allowed);
    lemma_grows(before, s12, dots(p2), allowed);
    lemma_grows(before, s13, scalar(Kernel::CheckS), allowed);
    lemma_grows(before, s14, scalar(Kernel::FinishOmega), allowed);
    lemma_grows(before, s15, vector(Kernel::UpdateXOmega, w.z_s, x, w.t), allowed);
    lemma_grows(before, s16, vector(Kernel::MakeR, w.s, w.r, w.t), allowed);
    lemma_grows(before, s17, dots(p0), allowed);
    lemma_grows(before, s18, scalar(Kernel::CheckR), allowed);
}

proof fn lemma_iterations_accepted(
    before: RuntimeView,
    start: Recording,
    context: ContextView,
    solve: SolveView,
    count: nat,
)
    requires
        solve.active(context),
        laid_out(context, solve, before.sizes),
        4 * solve.workspace.n <= usize::MAX,
        growing(before, start, batch_writes(solve)),
    ensures
        growing(
            before,
            super::session::iterations(start, context, solve, count),
            batch_writes(solve),
        ),
    decreases count,
{
    if count > 0 {
        let done = super::session::iterations(start, context, solve, (count - 1) as nat);
        lemma_iterations_accepted(before, start, context, solve, (count - 1) as nat);
        lemma_iteration_accepted(before, done, context, solve);
    }
}

/// Every command of a batch is accepted by the device, and a batch writes the solution and the
/// workspace only: not the right-hand side, the operator, the shadow residual or the parameters.
pub proof fn law_batch_accepted(
    runtime: RuntimeView,
    context: ContextView,
    solve: SolveView,
    count: nat,
)
    requires
        solve.active(context),
        laid_out(context, solve, runtime.sizes),
        4 * solve.workspace.n <= usize::MAX,
    ensures
        records(
            runtime,
            super::session::with_batch(runtime, context, solve, count),
            batch_writes(solve),
        ),
        !batch_writes(solve).contains(solve.b.buffer),
        !batch_writes(solve).contains(solve.workspace.r_hat.buffer),
        forall|place: int|
            0 <= place < 6 && own(context, place) is Some ==> !batch_writes(solve).contains(
                #[trigger] own(context, place)->0,
            ),
{
    let start = Recording {
        runtime,
        encoder: crate::command::EncoderView::empty("kryst resident BiCGSTAB batch"@),
    };
    let allowed = batch_writes(solve);
    assert(runtime.commands.take(runtime.commands.len() as int) =~= runtime.commands);
    assert(growing(runtime, start, allowed));
    lemma_iterations_accepted(runtime, start, context, solve, count);
    lemma_submits(runtime, super::session::iterations(start, context, solve, count), allowed);
    lemma_layout(context, solve, runtime.sizes);
    lemma_named_outputs(solve);
    assert(inputs(context, solve).contains(solve.b.buffer));
    assert forall|place: int|
        0 <= place < 6 && own(context, place) is Some implies !allowed.contains(
        #[trigger] own(context, place)->0,
    ) by {
        if place < 5 {
            assert(inputs(context, solve).contains(own(context, place)->0));
        }
    }
}

/// A context that is prepared for a solve of vectors that lie apart from it, and from each other,
/// lays the solve out.
pub proof fn law_solve_laid_out(
    context: ContextView,
    runtime: RuntimeView,
    b: VectorView,
    x: VectorView,
)
    requires
        context.operator is Some,
        placed(context, runtime.sizes),
        apart(context, b),
        apart(context, x),
        b.buffer != x.buffer,
        holds(b, runtime.sizes),
        holds(x, runtime.sizes),
        runtime.sizes.len() + 13 <= usize::MAX,
    ensures
        ({
            let ready = super::prepared(context, runtime);
            laid_out(
                ContextView { workspace: None, ..ready },
                SolveView {
                    operator: ready.operator->0,
                    b,
                    x,
                    workspace: ready.workspace->0,
                },
                super::with_setup(context, runtime).sizes,
            )
        }),
{
    let ready = super::prepared(context, runtime);
    let solve = SolveView { operator: ready.operator->0, b, x, workspace: ready.workspace->0 };
    let sizes = super::with_setup(context, runtime).sizes;
    law_setup_placed(context, runtime);
    assert(super::session::returned(ContextView { workspace: None, ..ready }, solve) == ready);
    assert forall|i: int| 0 <= i < own_count() implies #[trigger] own(ready, i) != Some(b.buffer)
        && own(ready, i) != Some(x.buffer) by {
        lemma_setup_place(context, runtime, i);
        assert(own(context, i) != Some(b.buffer));
        assert(own(context, i) != Some(x.buffer));
    }
    let middle = super::after_preconditioner(context, runtime);
    lemma_vector_sizes(middle, context.operator->0.nrows, 9);
}

/// A submission of one piece of accepted work is accepted.
proof fn lemma_submits_one(
    runtime: RuntimeView,
    label: Seq<char>,
    work: EncodedView,
    allowed: Set<usize>,
)
    requires
        sound(work, runtime.sizes, allowed),
    ensures
        records(
            runtime,
            runtime.submit(crate::command::EncoderView::empty(label).with(work)),
            allowed,
        ),
{
    let start = Recording { runtime, encoder: crate::command::EncoderView::empty(label) };
    assert(runtime.commands.take(runtime.commands.len() as int) =~= runtime.commands);
    assert(growing(runtime, start, allowed));
    lemma_grows(runtime, start, work, allowed);
    lemma_submits(runtime, start.with(work), allowed);
}

/// A write of words that fit into a buffer is accepted.
proof fn lemma_writes(
    runtime: RuntimeView,
    buffer: usize,
    words: Seq<u32>,
    allowed: Set<usize>,
)
    requires
        buffer < runtime.sizes.len(),
        4 * words.len() <= runtime.sizes[buffer as int],
        allowed.contains(buffer),
    ensures
        records(
            runtime,
            runtime.write(buffer, crate::bytes::words_bytes(runtime.order, words)),
            allowed,
        ),
{
    let contents = crate::bytes::words_bytes(runtime.order, words);
    crate::hazard::lemma_records_one(
        runtime,
        crate::command::CommandView::WriteBuffer { buffer, contents },
        allowed,
    );
}

proof fn lemma_dot3_accepted(
    runtime: RuntimeView,
    params: usize,
    pairs: PairsView,
    reduction: ReductionView,
    allowed: Set<usize>,
)
    requires
        sound(
            super::encode::dots_pass("kryst WebGPU dot3"@, pairs, reduction, params),
            runtime.sizes,
            allowed,
        ),
        params < runtime.sizes.len(),
        16 <= runtime.sizes[params as int],
        allowed.contains(params),
    ensures
        records(
            runtime,
            super::encode::with_dot3(runtime, params, pairs, reduction),
            allowed,
        ),
{
    let words: Seq<u32> = seq![pairs.x0.len as u32, reduction.partial_count as u32, 0, 0];
    lemma_writes(runtime, params, words, allowed);
    let middle = super::encode::with_reduction_params(runtime, params, pairs.x0.len, reduction);
    let pass = super::encode::dots_pass("kryst WebGPU dot3"@, pairs, reduction, params);
    lemma_submits_one(middle, "kryst WebGPU dot3"@, pass, allowed);
    crate::hazard::lemma_records_more(
        runtime,
        middle,
        super::encode::with_dot3(runtime, params, pairs, reduction),
        allowed,
    );
}

#[verifier::spinoff_prover]
proof fn lemma_residual_accepted(
    runtime: RuntimeView,
    context: ContextView,
    solve: SolveView,
    allowed: Set<usize>,
)
    requires
        solve.active(context),
        laid_out(context, solve, runtime.sizes),
        4 * solve.workspace.n <= usize::MAX,
        residual_writes(context, solve).subset_of(allowed),
    ensures
        records(runtime, super::session::with_residual(runtime, context, solve), allowed),
{
    let sizes = runtime.sizes;
    let (w, o) = (solve.workspace, solve.operator);
    let params = context.vector_params;
    let (one, minus_one) = (super::encode::ONE, super::encode::MINUS_ONE);
    lemma_layout(context, solve, sizes);
    lemma_named_outputs(solve);
    let inputs = inputs(context, solve);
    let writes = residual_writes(context, solve);
    assert(writes.contains(w.ax.buffer) && writes.contains(w.r.buffer) && writes.contains(params));
    assert(inputs.contains(params));
    assert(inputs.contains(o.row_offsets));
    assert(inputs.contains(o.column_indices));
    assert(inputs.contains(o.values));
    assert(inputs.contains(solve.b.buffer));
    let r1 = crate::operator::with_product(runtime, o, solve.x, w.ax);
    lemma_product(o, solve.x, w.ax, sizes, allowed);
    lemma_submits_one(
        runtime,
        "kryst WebGPU CSR SpMV"@,
        crate::operator::product_pass(o, solve.x, w.ax),
        allowed,
    );
    let r2 = super::encode::with_copy(r1, solve.b, w.r);
    lemma_copy(solve.b, w.r, sizes, allowed);
    lemma_submits_one(
        r1,
        "copy WebGPU vector"@,
        EncodedView::CopyBuffer {
            source: solve.b.buffer,
            destination: w.r.buffer,
            bytes: crate::runtime::single_bytes(solve.b.len),
        },
        allowed,
    );
    let words: Seq<u32> = seq![
        crate::portable::narrowed(minus_one),
        crate::portable::narrowed(one),
        w.ax.len as u32,
        0,
    ];
    lemma_writes(r2, params, words, allowed);
    let r3 = r2.write(params, crate::bytes::words_bytes(r2.order, words));
    let dispatches = seq![
        crate::command::Dispatch {
            kernel: Kernel::Axpby,
            groups: crate::runtime::groups(w.ax.len as nat, 128) as u32,
        },
    ];
    let buffers = seq![w.ax.buffer, w.r.buffer, params];
    crate::hazard::lemma_pass("kryst WebGPU axpby"@, buffers, dispatches, sizes, allowed);
    let pass = EncodedView::ComputePass {
        label: "kryst WebGPU axpby"@,
        bindings: crate::command::bound(buffers),
        dispatches,
    };
    lemma_submits_one(r3, "kryst WebGPU axpby"@, pass, allowed);
    let r4 = super::encode::with_axpby(r2, params, minus_one, w.ax, one, w.r);
    crate::hazard::lemma_records_more(runtime, r1, r2, allowed);
    crate::hazard::lemma_records_more(runtime, r2, r3, allowed);
    crate::hazard::lemma_records_more(runtime, r3, r4, allowed);
}

/// Every command at the start of a solve is accepted by the device; none writes the right-hand
/// side, the solution, the operator or the solver state.
pub proof fn law_startup_accepted(runtime: RuntimeView, context: ContextView, solve: SolveView)
    requires
        solve.active(context),
        laid_out(context, solve, runtime.sizes),
        4 * solve.workspace.n <= usize::MAX,
    ensures
        records(
            runtime,
            super::session::with_startup(runtime, context, solve),
            startup_writes(context, solve),
        ),
        !startup_writes(context, solve).contains(solve.b.buffer),
        !startup_writes(context, solve).contains(solve.x.buffer),
        !startup_writes(context, solve).contains(solve.workspace.state),
        forall|place: int|
            2 <= place < 6 && own(context, place) is Some ==> !startup_writes(
                context,
                solve,
            ).contains(#[trigger] own(context, place)->0),
{
    let sizes = runtime.sizes;
    let w = solve.workspace;
    let allowed = startup_writes(context, solve);
    lemma_residual_accepted(runtime, context, solve, allowed);
    lemma_layout(context, solve, sizes);
    lemma_named_outputs(solve);
    assert(inputs(context, solve).contains(context.reduction_params));
    assert(inputs(context, solve).contains(context.vector_params));
    assert(inputs(context, solve).contains(solve.b.buffer));
    let r1 = super::session::with_residual(runtime, context, solve);
    let r2 = super::encode::with_copy(r1, w.r, w.r_hat);
    let r3 = super::encode::with_copy(r2, w.r, w.p);
    let bytes = crate::runtime::single_bytes(w.r.len);
    lemma_copy(w.r, w.r_hat, sizes, allowed);
    lemma_submits_one(
        r1,
        "copy WebGPU vector"@,
        EncodedView::CopyBuffer { source: w.r.buffer, destination: w.r_hat.buffer, bytes },
        allowed,
    );
    lemma_copy(w.r, w.p, sizes, allowed);
    lemma_submits_one(
        r2,
        "copy WebGPU vector"@,
        EncodedView::CopyBuffer { source: w.r.buffer, destination: w.p.buffer, bytes },
        allowed,
    );
    let pairs = super::encode::pairs(solve.b, solve.b, w.r, w.r, w.r, w.r);
    let params = context.reduction_params;
    lemma_dots_pass("kryst WebGPU dot3"@, pairs, w.reduction, params, sizes, allowed);
    lemma_dot3_accepted(r3, params, pairs, w.reduction, allowed);
    let r4 = super::session::with_startup(runtime, context, solve);
    crate::hazard::lemma_records_more(runtime, r1, r2, allowed);
    crate::hazard::lemma_records_more(runtime, r2, r3, allowed);
    crate::hazard::lemma_records_more(runtime, r3, r4, allowed);
    lemma_operator_places(context, solve, sizes, allowed);
}

/// The buffers of the operator and of the diagonal scaling are not among written ones.
proof fn lemma_operator_places(
    context: ContextView,
    solve: SolveView,
    sizes: Seq<u64>,
    allowed: Set<usize>,
)
    requires
        solve.active(context),
        laid_out(context, solve, sizes),
        allowed.subset_of(startup_writes(context, solve)),
    ensures
        forall|place: int|
            2 <= place < 6 && own(context, place) is Some ==> !allowed.contains(
                #[trigger] own(context, place)->0,
            ),
{
    let whole = super::session::returned(context, solve);
    lemma_named_outputs(solve);
    lemma_layout(context, solve, sizes);
    assert forall|place: int|
        2 <= place < 6 && own(context, place) is Some implies !allowed.contains(
        #[trigger] own(context, place)->0,
    ) by {
        assert(own(whole, place) == own(context, place));
        assert(own(whole, 0) is Some && own(whole, 1) is Some);
        lemma_distinct(whole, 0, place);
        lemma_distinct(whole, 1, place);
        if place < 5 {
            assert(inputs(context, solve).contains(own(context, place)->0));
        }
    }
}

/// The commands that initialise the solver state are accepted by the device.
pub proof fn law_state_accepted(
    runtime: RuntimeView,
    context: ContextView,
    solve: SolveView,
    rhs_squared: u64,
    residual_squared: u64,
)
    requires
        solve.active(context),
        laid_out(context, solve, runtime.sizes),
    ensures
        records(
            runtime,
            super::session::with_state(runtime, context, solve, rhs_squared, residual_squared),
            state_writes(context, solve),
        ),
{
    let w = solve.workspace;
    let allowed = state_writes(context, solve);
    lemma_layout(context, solve, runtime.sizes);
    lemma_named_outputs(solve);
    assert(inputs(context, solve).contains(context.reduction_params));
    let state = super::encode::resident_state(context.convergence, rhs_squared, residual_squared);
    assert(state.len() == 16);
    lemma_writes(runtime, w.state, state, allowed);
    let middle = runtime.write(w.state, crate::bytes::words_bytes(runtime.order, state));
    let words: Seq<u32> = seq![w.n as u32, w.reduction.partial_count as u32, 0, 0];
    lemma_writes(middle, context.reduction_params, words, allowed);
    crate::hazard::lemma_records_more(
        runtime,
        middle,
        super::session::with_state(runtime, context, solve, rhs_squared, residual_squared),
        allowed,
    );
}

/// Every command at the end of a solve is accepted by the device; none writes the right-hand
/// side, the solution, the operator or the solver state.
pub proof fn law_tail_accepted(runtime: RuntimeView, context: ContextView, solve: SolveView)
    requires
        solve.active(context),
        laid_out(context, solve, runtime.sizes),
        4 * solve.workspace.n <= usize::MAX,
    ensures
        records(
            runtime,
            super::session::with_tail(runtime, context, solve),
            residual_writes(context, solve),
        ),
        !residual_writes(context, solve).contains(solve.b.buffer),
        !residual_writes(context, solve).contains(solve.x.buffer),
        !residual_writes(context, solve).contains(solve.workspace.state),
        forall|place: int|
            2 <= place < 6 && own(context, place) is Some ==> !residual_writes(
                context,
                solve,
            ).contains(#[trigger] own(context, place)->0),
{
    let w = solve.workspace;
    let allowed = residual_writes(context, solve);
    lemma_residual_accepted(runtime, context, solve, allowed);
    lemma_layout(context, solve, runtime.sizes);
    lemma_named_outputs(solve);
    assert(inputs(context, solve).contains(context.reduction_params));
    assert(inputs(context, solve).contains(context.vector_params));
    assert(inputs(context, solve).contains(solve.b.buffer));
    let middle = super::session::with_residual(runtime, context, solve);
    let pairs = super::encode::pairs(w.r, w.r, w.r, w.r, w.r, w.r);
    let params = context.reduction_params;
    lemma_dots_pass("kryst WebGPU dot3"@, pairs, w.reduction, params, runtime.sizes, allowed);
    lemma_dot3_accepted(middle, params, pairs, w.reduction, allowed);
    crate::hazard::lemma_records_more(
        runtime,
        middle,
        super::session::with_tail(runtime, context, solve),
        allowed,
    );
    lemma_operator_places(context, solve, runtime.sizes, allowed);
}

/// What a solve reads back is small, and it is neither a vector nor a part of the matrix: those
/// stay on the device.
pub proof fn law_reads_are_compact(
    request: crate::runtime::ReadRequest,
    context: ContextView,
    solve: SolveView,
    sizes: Seq<u64>,
)
    requires
        solve.active(context),
        laid_out(context, solve, sizes),
        super::session::reads_sums(request, solve) || super::session::reads_state(request, solve),
    ensures
        request.byte_count <= 64,
        request.byte_count <= sizes[request.source as int],
        request.source != solve.b.buffer,
        request.source != solve.x.buffer,
        forall|place: int|
            0 <= place < 16 ==> #[trigger] own(super::session::returned(context, solve), place)
                != Some(request.source),
{
    let whole = super::session::returned(context, solve);
    let here: int = if request.source == solve.workspace.state {
        17
    } else {
        16
    };
    assert(own(whole, here) == Some(request.source));
    assert forall|place: int| 0 <= place < 16 implies #[trigger] own(whole, place) != Some(
        request.source,
    ) by {
        lemma_distinct(whole, here, place);
    }
}

/// A second preparation finds everything in place: it records nothing and changes nothing.
pub proof fn law_setup_repeats(
    context: ContextView,
    runtime: RuntimeView,
    custom_dims: (usize, usize),
)
    requires
        super::setup_error(context, custom_dims) is None,
    ensures
        ({
            let ready = super::prepared(context, runtime);
            let set = super::with_setup(context, runtime);
            &&& super::setup_error(ready, custom_dims) is None
            &&& super::prepared(ready, set) == ready
            &&& super::with_setup(ready, set) == set
        }),
{
}

/// A solve that has ended leaves the context as the preparation left it, with its workspace and
/// with the caller's preconditioner, so that the next solve prepares nothing anew.
pub proof fn law_solve_returns_context(
    context: ContextView,
    runtime: RuntimeView,
    later: RuntimeView,
    custom_dims: (usize, usize),
    b: VectorView,
    x: VectorView,
)
    requires
        super::setup_error(context, custom_dims) is None,
    ensures
        ({
            let ready = super::prepared(context, runtime);
            let solve = SolveView {
                operator: ready.operator->0,
                b,
                x,
                workspace: ready.workspace->0,
            };
            let after = super::session::returned(ContextView { workspace: None, ..ready }, solve);
            &&& after == ready
            &&& after.custom == context.custom
            &&& super::prepared(after, later) == after
            &&& super::with_setup(after, later) == later
        }),
{
}

/// A batch is bounded, makes progress while iterations are left, and never goes beyond the
/// iterations that are allowed.
pub proof fn law_batch_bounds(max_iters: usize, completed: usize)
    ensures
        super::session::batch_size(max_iters, completed) <= super::RESIDENT_BATCH_SIZE,
        completed < max_iters ==> 0 < super::session::batch_size(max_iters, completed),
        completed <= max_iters ==> completed + super::session::batch_size(max_iters, completed)
            <= max_iters,
{
}

/// The reductions that are counted are those that the model of the method predicts.
pub proof fn law_reductions_counted(
    outcome: super::session::Outcome,
    true_residual: u64,
    reason: crate::convergence::ConvergedReason,
)
    requires
        2 + 3 * outcome.iterations <= usize::MAX,
    ensures
        ({
            let stats = super::session::final_stats(outcome, true_residual, reason);
            let model = stats.reduction_model->0;
            stats.num_global_reductions == model.startup + model.per_iteration * stats.iterations
                + model.tail
        }),
{
}

/// A solve that iterated has a reason for its end.
pub proof fn law_iteration_ends_for_a_reason(words: Seq<u32>, rhs_norm: u64, readbacks: usize)
    ensures
        !(super::session::stopped(words, rhs_norm, readbacks).reason is Continued),
{
}

/// The solver state that a solve starts with is running, counts no iteration, gives no reason to
/// stop and holds the bound on the iterations exactly.
pub proof fn law_state_starts_running(
    convergence: crate::convergence::Convergence,
    rhs_squared: u64,
    residual_squared: u64,
)
    requires
        convergence.max_iters > 0,
        super::encode::state_error(convergence, rhs_squared, residual_squared) is None,
    ensures
        ({
            let words = super::encode::resident_state(convergence, rhs_squared, residual_squared);
            &&& words.len() == super::RESIDENT_STATE_LEN
            &&& super::session::goes_on(words, convergence.max_iters)
            &&& super::session::counted(words[13]) == 0
            &&& crate::convergence::reason_of(words[14]) is Continued
            &&& crate::portable::nearest_count(words[15]) == convergence.max_iters
        }),
{
    let half = vstd::arithmetic::power2::pow2(149);
    vstd::arithmetic::power2::lemma_pow2_pos(149);
    vstd::arithmetic::power2::lemma_pow2_unfold(150);
    vstd::arithmetic::power2::lemma2_to64();
    crate::portable::law_count_exact(convergence.max_iters as nat);
    crate::rounding::lemma_units_of_parts(23, 0, 0);
    vstd::arithmetic::div_mod::lemma_basic_div(half as int, (2 * half) as int);
    assert(crate::portable::units32(0) == 0);
    assert(crate::portable::nearest_count(0) == 0);
    crate::rounding::lemma_units_of_parts(23, 126, 0x80_0000);
    vstd::arithmetic::power2::lemma_pow2_adds(23, 126);
    assert(crate::portable::units32(0x3f80_0000) == 1 * half);
    crate::portable::lemma_count_single(1, 0x3f80_0000);
}

/// Whether two pieces of work run the same kernels on the same buffers, whatever their labels.
pub open spec fn same_work(a: EncodedView, b: EncodedView) -> bool {
    &&& a is ComputePass
    &&& b is ComputePass
    &&& a->bindings == b->bindings
    &&& a->dispatches == b->dispatches
}

/// Three dot products that an iteration encodes are those that a submission of their own takes:
/// the same kernels on the same buffers, after the same parameters. Encoding them adds one pass to
/// the encoder and nothing else, is accepted where the submission is, and all that either writes
/// are the buffers of the sums.
pub proof fn law_dots_agree(
    runtime: RuntimeView,
    encoder: crate::command::EncoderView,
    params: usize,
    pairs: PairsView,
    reduction: ReductionView,
)
    ensures
        ({
            let inside = super::encode::dots_pass(
                "kryst resident WebGPU dot2"@,
                pairs,
                reduction,
                params,
            );
            let alone = super::encode::dots_pass("kryst WebGPU dot3"@, pairs, reduction, params);
            let prepared = super::encode::with_reduction_params(
                runtime,
                params,
                pairs.x0.len,
                reduction,
            );
            &&& same_work(inside, alone)
            &&& super::encode::with_dot3(runtime, params, pairs, reduction) == prepared.submit(
                crate::command::EncoderView::empty("kryst WebGPU dot3"@).with(alone),
            )
            &&& encoder.with(inside).encoded == encoder.encoded.push(inside)
            &&& encoder.with(inside).label == encoder.label
            &&& super::encode::dot3_error(pairs, reduction) is None
                ==> super::encode::dots_error(pairs, reduction) is None
            &&& forall|buffer: usize|
                #[trigger] crate::hazard::writes(inside, buffer) ==> buffer == reduction.partials
                    || buffer == reduction.result
            &&& forall|buffer: usize|
                #[trigger] crate::hazard::writes(alone, buffer) ==> buffer == reduction.partials
                    || buffer == reduction.result
        }),
{
}

/// The commands that a runtime has recorded since an earlier state of it.
pub open spec fn appended(before: RuntimeView, after: RuntimeView) -> Seq<
    crate::command::CommandView,
> {
    after.commands.skip(before.commands.len() as int)
}

/// Whether two runtimes have recorded the same commands, and nothing else of them has changed.
spec fn alike(a: RuntimeView, a_after: RuntimeView, b: RuntimeView, b_after: RuntimeView) -> bool {
    &&& a_after == (RuntimeView { commands: a.commands + appended(a, a_after), ..a })
    &&& b_after == (RuntimeView { commands: b.commands + appended(b, b_after), ..b })
    &&& appended(a, a_after) == appended(b, b_after)
}

proof fn lemma_alike(
    a: RuntimeView,
    a_after: RuntimeView,
    b: RuntimeView,
    b_after: RuntimeView,
    command: crate::command::CommandView,
)
    requires
        alike(a, a_after, b, b_after),
    ensures
        alike(a, a_after.record(command), b, b_after.record(command)),
{
    let more = appended(a, a_after).push(command);
    assert(appended(a, a_after.record(command)) =~= more);
    assert(appended(b, b_after.record(command)) =~= more);
    assert(a_after.record(command).commands =~= a.commands + more);
    assert(b_after.record(command).commands =~= b.commands + more);
}

proof fn lemma_alike_at_first(a: RuntimeView, b: RuntimeView)
    ensures
        alike(a, a, b, b),
{
    assert(appended(a, a) =~= seq![]);
    assert(appended(b, b) =~= seq![]);
    assert(a.commands =~= a.commands + seq![]);
    assert(b.commands =~= b.commands + seq![]);
}

proof fn lemma_alike_submit(
    a: RuntimeView,
    a_after: RuntimeView,
    b: RuntimeView,
    b_after: RuntimeView,
    encoder: crate::command::EncoderView,
)
    requires
        alike(a, a_after, b, b_after),
    ensures
        alike(a, a_after.submit(encoder), b, b_after.submit(encoder)),
{
    let command = crate::command::CommandView::Submit {
        label: encoder.label,
        encoded: encoder.encoded,
    };
    lemma_alike(a, a_after, b, b_after, command);
}

proof fn lemma_alike_write(
    a: RuntimeView,
    a_after: RuntimeView,
    b: RuntimeView,
    b_after: RuntimeView,
    buffer: usize,
    words: Seq<u32>,
)
    requires
        a.order == b.order,
        alike(a, a_after, b, b_after),
    ensures
        alike(
            a,
            a_after.write(buffer, crate::bytes::words_bytes(a_after.order, words)),
            b,
            b_after.write(buffer, crate::bytes::words_bytes(b_after.order, words)),
        ),
{
    let contents = crate::bytes::words_bytes(a.order, words);
    let command = crate::command::CommandView::WriteBuffer { buffer, contents };
    lemma_alike(a, a_after, b, b_after, command);
}

proof fn lemma_alike_dot3(
    a: RuntimeView,
    a_after: RuntimeView,
    b: RuntimeView,
    b_after: RuntimeView,
    params: usize,
    pairs: PairsView,
    reduction: ReductionView,
)
    requires
        a.order == b.order,
        alike(a, a_after, b, b_after),
    ensures
        alike(
            a,
            super::encode::with_dot3(a_after, params, pairs, reduction),
            b,
            super::encode::with_dot3(b_after, params, pairs, reduction),
        ),
{
    let words: Seq<u32> = seq![pairs.x0.len as u32, reduction.partial_count as u32, 0, 0];
    lemma_alike_write(a, a_after, b, b_after, params, words);
    let encoder = crate::command::EncoderView::empty("kryst WebGPU dot3"@).with(
        super::encode::dots_pass("kryst WebGPU dot3"@, pairs, reduction, params),
    );
    lemma_alike_submit(
        a,
        super::encode::with_reduction_params(a_after, params, pairs.x0.len, reduction),
        b,
        super::encode::with_reduction_params(b_after, params, pairs.x0.len, reduction),
        encoder,
    );
}

proof fn lemma_alike_copy(
    a: RuntimeView,
    a_after: RuntimeView,
    b: RuntimeView,
    b_after: RuntimeView,
    source: VectorView,
    destination: VectorView,
)
    requires
        alike(a, a_after, b, b_after),
    ensures
        alike(
            a,
            super::encode::with_copy(a_after, source, destination),
            b,
            super::encode::with_copy(b_after, source, destination),
        ),
{
    let copy = EncodedView::CopyBuffer {
        source: source.buffer,
        destination: destination.buffer,
        bytes: crate::runtime::single_bytes(source.len),
    };
    let encoder = crate::command::EncoderView::empty("copy WebGPU vector"@).with(copy);
    lemma_alike_submit(a, a_after, b, b_after, encoder);
}

proof fn lemma_alike_residual(
    a: RuntimeView,
    b: RuntimeView,
    context: ContextView,
    solve: SolveView,
)
    requires
        a.order == b.order,
    ensures
        alike(
            a,
            super::session::with_residual(a, context, solve),
            b,
            super::session::with_residual(b, context, solve),
        ),
{
    let (w, o) = (solve.workspace, solve.operator);
    let params = context.vector_params;
    let (one, minus_one) = (super::encode::ONE, super::encode::MINUS_ONE);
    lemma_alike_at_first(a, b);
    let product = crate::command::EncoderView::empty("kryst WebGPU CSR SpMV"@).with(
        crate::operator::product_pass(o, solve.x, w.ax),
    );
    lemma_alike_submit(a, a, b, b, product);
    let (a1, b1) = (a.submit(product), b.submit(product));
    lemma_alike_copy(a, a1, b, b1, solve.b, w.r);
    let a2 = super::encode::with_copy(a1, solve.b, w.r);
    let b2 = super::encode::with_copy(b1, solve.b, w.r);
    let words: Seq<u32> = seq![
        crate::portable::narrowed(minus_one),
        crate::portable::narrowed(one),
        w.ax.len as u32,
        0,
    ];
    lemma_alike_write(a, a2, b, b2, params, words);
    let a3 = a2.write(params, crate::bytes::words_bytes(a2.order, words));
    let b3 = b2.write(params, crate::bytes::words_bytes(b2.order, words));
    let pass = EncodedView::ComputePass {
        label: "kryst WebGPU axpby"@,
        bindings: crate::command::bound(seq![w.ax.buffer, w.r.buffer, params]),
        dispatches: seq![
            crate::command::Dispatch {
                kernel: Kernel::Axpby,
                groups: crate::runtime::groups(w.ax.len as nat, 128) as u32,
            },
        ],
    };
    let encoder = crate::command::EncoderView::empty("kryst WebGPU axpby"@).with(pass);
    lemma_alike_submit(a, a3, b, b3, encoder);
}

proof fn lemma_alike_precondition(
    a: RuntimeView,
    a_work: Recording,
    b: RuntimeView,
    b_work: Recording,
    context: ContextView,
    x: VectorView,
    y: VectorView,
)
    requires
        alike(a, a_work.runtime, b, b_work.runtime),
        a_work.encoder == b_work.encoder,
    ensures
        ({
            let a_after = a_work.precondition(context, x, y);
            let b_after = b_work.precondition(context, x, y);
            &&& alike(a, a_after.runtime, b, b_after.runtime)
            &&& a_after.encoder == b_after.encoder
        }),
{
    if context.custom is Some {
        let encoder = a_work.encoder;
        lemma_alike_submit(a, a_work.runtime, b, b_work.runtime, encoder);
        let command = crate::command::CommandView::Precondition { input: x, output: y };
        lemma_alike(
            a,
            a_work.runtime.submit(encoder),
            b,
            b_work.runtime.submit(encoder),
            command,
        );
    }
}

proof fn lemma_alike_iterations(
    a: RuntimeView,
    a_start: Recording,
    b: RuntimeView,
    b_start: Recording,
    context: ContextView,
    solve: SolveView,
    count: nat,
)
    requires
        alike(a, a_start.runtime, b, b_start.runtime),
        a_start.encoder == b_start.encoder,
    ensures
        ({
            let a_after = super::session::iterations(a_start, context, solve, count);
            let b_after = super::session::iterations(b_start, context, solve, count);
            &&& alike(a, a_after.runtime, b, b_after.runtime)
            &&& a_after.encoder == b_after.encoder
        }),
    decreases count,
{
    if count > 0 {
        let (w, o, x) = (solve.workspace, solve.operator, solve.x);
        let params = context.reduction_params;
        let scalar = |kernel: Kernel| super::encode::scalar_pass(kernel, w.state, w.reduction);
        let dots = |p: PairsView|
            super::encode::dots_pass("kryst resident WebGPU dot2"@, p, w.reduction, params);
        let to_first = |start: Recording|
            start.with(
                dots(super::encode::pairs(w.r_hat, w.r, w.r, w.r, w.r, w.r)),
            ).with(scalar(Kernel::BeginIteration)).with(
                super::encode::vector_pass(Kernel::UpdatePOmega, w.state, w.r, w.p, w.v),
            ).with(super::encode::vector_pass(Kernel::PrepareP, w.state, w.r, w.p, w.v));
        let to_second = |work: Recording|
            work.with(crate::operator::product_pass(o, w.z_p, w.v)).with(
                dots(super::encode::pairs(w.r_hat, w.v, w.r_hat, w.v, w.r_hat, w.v)),
            ).with(scalar(Kernel::FinishAlpha)).with(
                super::encode::vector_pass(Kernel::MakeS, w.state, w.r, w.s, w.v),
            ).with(super::encode::vector_pass(Kernel::UpdateXAlpha, w.state, w.z_p, x, w.t));
        lemma_alike_iterations(a, a_start, b, b_start, context, solve, (count - 1) as nat);
        let a1 = to_first(super::session::iterations(a_start, context, solve, (count - 1) as nat));
        let b1 = to_first(super::session::iterations(b_start, context, solve, (count - 1) as nat));
        lemma_alike_precondition(a, a1, b, b1, context, w.p, w.z_p);
        let a2 = to_second(a1.precondition(context, w.p, w.z_p));
        let b2 = to_second(b1.precondition(context, w.p, w.z_p));
        lemma_alike_precondition(a, a2, b, b2, context, w.s, w.z_s);
    }
}

/// What a solve asks of the device does not depend on what was recorded or solved before: on any
/// two runtimes of one byte order each step records the same commands.
pub proof fn law_commands_forget_history(
    a: RuntimeView,
    b: RuntimeView,
    context: ContextView,
    solve: SolveView,
    rhs_squared: u64,
    residual_squared: u64,
    count: nat,
)
    requires
        a.order == b.order,
    ensures
        appended(a, super::session::with_startup(a, context, solve)) == appended(
            b,
            super::session::with_startup(b, context, solve),
        ),
        appended(
            a,
            super::session::with_state(a, context, solve, rhs_squared, residual_squared),
        ) == appended(
            b,
            super::session::with_state(b, context, solve, rhs_squared, residual_squared),
        ),
        appended(a, super::session::with_batch(a, context, solve, count)) == appended(
            b,
            super::session::with_batch(b, context, solve, count),
        ),
        appended(a, super::session::with_tail(a, context, solve)) == appended(
            b,
            super::session::with_tail(b, context, solve),
        ),
{
    let w = solve.workspace;
    let params = context.reduction_params;
    lemma_alike_at_first(a, b);
    lemma_alike_residual(a, b, context, solve);
    let a1 = super::session::with_residual(a, context, solve);
    let b1 = super::session::with_residual(b, context, solve);
    lemma_alike_dot3(
        a,
        a1,
        b,
        b1,
        params,
        super::encode::pairs(w.r, w.r, w.r, w.r, w.r, w.r),
        w.reduction,
    );
    lemma_alike_copy(a, a1, b, b1, w.r, w.r_hat);
    let a2 = super::encode::with_copy(a1, w.r, w.r_hat);
    let b2 = super::encode::with_copy(b1, w.r, w.r_hat);
    lemma_alike_copy(a, a2, b, b2, w.r, w.p);
    lemma_alike_dot3(
        a,
        super::encode::with_copy(a2, w.r, w.p),
        b,
        super::encode::with_copy(b2, w.r, w.p),
        params,
        super::encode::pairs(solve.b, solve.b, w.r, w.r, w.r, w.r),
        w.reduction,
    );
    let state = super::encode::resident_state(context.convergence, rhs_squared, residual_squared);
    lemma_alike_write(a, a, b, b, w.state, state);
    let words: Seq<u32> = seq![w.n as u32, w.reduction.partial_count as u32, 0, 0];
    lemma_alike_write(
        a,
        a.write(w.state, crate::bytes::words_bytes(a.order, state)),
        b,
        b.write(w.state, crate::bytes::words_bytes(b.order, state)),
        params,
        words,
    );
    let encoder = crate::command::EncoderView::empty("kryst resident BiCGSTAB batch"@);
    let a_start = Recording { runtime: a, encoder };
    let b_start = Recording { runtime: b, encoder };
    lemma_alike_iterations(a, a_start, b, b_start, context, solve, count);
    let a_end = super::session::iterations(a_start, context, solve, count);
    let b_end = super::session::iterations(b_start, context, solve, count);
    lemma_alike_submit(a, a_end.runtime, b, b_end.runtime, a_end.encoder);
}

/// The caller's preconditioner is asked for once, with these very vectors, after everything that
/// was encoded before it has been submitted and before anything that is encoded after it; neither
/// a copy nor a scaling is recorded in its place.
pub proof fn law_custom_applied_once(
    work: Recording,
    context: ContextView,
    x: VectorView,
    y: VectorView,
)
    requires
        context.custom is Some,
    ensures
        ({
            let after = work.precondition(context, x, y);
            let submit = crate::command::CommandView::Submit {
                label: work.encoder.label,
                encoded: work.encoder.encoded,
            };
            let apply = crate::command::CommandView::Precondition { input: x, output: y };
            &&& super::encode::preconditioner_error(context, x, y) is None
            &&& after.runtime.commands == work.runtime.commands.push(submit).push(apply)
            &&& after.encoder == crate::command::EncoderView::empty(work.encoder.label)
        }),
{
}

/// An iteration asks for the caller's preconditioner twice: for the search direction and for the
/// intermediate residual.
pub proof fn law_custom_takes_part(
    start: Recording,
    context: ContextView,
    operator: crate::operator::OperatorView,
    work: super::WorkspaceView,
    x: VectorView,
)
    requires
        context.custom is Some,
    ensures
        ({
            let before = start.runtime.commands;
            let after = super::encode::iteration(
                start,
                context,
                operator,
                work,
                x,
            ).runtime.commands;
            let n = before.len() as int;
            &&& after.len() == n + 4
            &&& after.take(n) == before
            &&& after[n] is Submit
            &&& after[n + 1] == (crate::command::CommandView::Precondition {
                input: work.p,
                output: work.z_p,
            })
            &&& after[n + 2] is Submit
            &&& after[n + 3] == (crate::command::CommandView::Precondition {
                input: work.s,
                output: work.z_s,
            })
        }),
{
    let before = start.runtime.commands;
    let after = super::encode::iteration(start, context, operator, work, x).runtime.commands;
    assert(after.take(before.len() as int) =~= before);
}

} // verus!
