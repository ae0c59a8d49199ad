//! Two solves of one shape ask the same of the device, in buffers of different names.
use super::encode::{PairsView, Recording};
use super::laws::{appended, laid_out};
use super::meaning::place;
use super::session::SolveView;
use super::{ContextView, PreparedView, ReductionView};
use crate::command::{Binding, CommandView, EncodedView, EncoderView, Kernel};
use crate::operator::OperatorView;
use crate::runtime::RuntimeView;
use crate::vector::VectorView;
use vstd::prelude::*;

verus! {

/// New names for buffers, and for the runtime that they belong to.
pub ghost struct Renaming {
    pub buffer: spec_fn(usize) -> usize,
    pub runtime: u64,
}

impl Renaming {
    /// A vector under its new name.
    pub open spec fn vector(self, v: VectorView) -> VectorView {
        VectorView { runtime: self.runtime, buffer: (self.buffer)(v.buffer), len: v.len }
    }

    /// Encoded work on buffers under their new names.
    pub open spec fn work(self, work: EncodedView) -> EncodedView {
        match work {
            EncodedView::ClearBuffer { buffer } => EncodedView::ClearBuffer {
                buffer: (self.buffer)(buffer),
            },
            EncodedView::CopyBuffer { source, destination, bytes } => EncodedView::CopyBuffer {
                source: (self.buffer)(source),
                destination: (self.buffer)(destination),
                bytes,
            },
            EncodedView::ComputePass { label, bindings, dispatches } => EncodedView::ComputePass {
                label,
                bindings: Seq::new(
                    bindings.len(),
                    |i: int|
                        Binding {
                            binding: bindings[i].binding,
                            buffer: (self.buffer)(bindings[i].buffer),
                        },
                ),
                dispatches,
            },
        }
    }

    /// An encoder whose work is on buffers under their new names.
    pub open spec fn encoder(self, encoder: EncoderView) -> EncoderView {
        EncoderView {
            label: encoder.label,
            encoded: Seq::new(encoder.encoded.len(), |i: int| self.work(encoder.encoded[i])),
        }
    }

    /// A command on buffers under their new names.
    pub open spec fn command(self, command: CommandView) -> CommandView {
        match command {
            CommandView::WriteBuffer { buffer, contents } => CommandView::WriteBuffer {
                buffer: (self.buffer)(buffer),
                contents,
            },
            CommandView::Submit { label, encoded } => {
                let encoder = self.encoder(EncoderView { label, encoded });
                CommandView::Submit { label: encoder.label, encoded: encoder.encoded }
            },
            CommandView::Precondition { input, output } => CommandView::Precondition {
                input: self.vector(input),
                output: self.vector(output),
            },
            CommandView::CreateBuffer { buffer, label, size, usage } => CommandView::CreateBuffer {
                buffer: (self.buffer)(buffer),
                label,
                size,
                usage,
            },
            CommandView::CreateBufferInit {
                buffer,
                label,
                contents,
                usage,
            } => CommandView::CreateBufferInit {
                buffer: (self.buffer)(buffer),
                label,
                contents,
                usage,
            },
            other => other,
        }
    }

    /// Commands on buffers under their new names.
    pub open spec fn commands(self, commands: Seq<CommandView>) -> Seq<CommandView> {
        Seq::new(commands.len(), |i: int| self.command(commands[i]))
    }

    /// Whether the buffers of one solve are those of another under their new names.
    pub open spec fn relates(
        self,
        one: ContextView,
        solve: SolveView,
        two: ContextView,
        other: SolveView,
    ) -> bool {
        &&& two.runtime == self.runtime
        &&& forall|k: int|
            0 <= k < 20 && #[trigger] place(one, solve, k) is Some ==> place(two, other, k) == Some(
                (self.buffer)(place(one, solve, k)->0),
            )
    }
}

/// Whether two solves can run and have one shape: the same length, the same tolerances and the
/// same kind of preconditioning.
pub open spec fn same_shape(
    one: ContextView,
    solve: SolveView,
    two: ContextView,
    other: SolveView,
) -> bool {
    &&& solve.active(one)
    &&& other.active(two)
    &&& solve.workspace.n == other.workspace.n
    &&& one.convergence == two.convergence
    &&& one.custom is Some == two.custom is Some
    &&& match (one.preconditioner, two.preconditioner) {
        (None, None) => true,
        (Some(PreparedView::Identity), Some(PreparedView::Identity)) => true,
        (Some(PreparedView::Jacobi(_)), Some(PreparedView::Jacobi(_))) => true,
        _ => false,
    }
}

/// The renaming that takes each buffer of one solve to the buffer of another at the same place.
pub open spec fn renaming(
    one: ContextView,
    solve: SolveView,
    two: ContextView,
    other: SolveView,
) -> Renaming {
    Renaming {
        buffer: |buffer: usize|
            place(
                two,
                other,
                choose|k: int| 0 <= k < 20 && #[trigger] place(one, solve, k) == Some(buffer),
            )->0,
        runtime: two.runtime,
    }
}

/// Two solves of one shape that are laid out differ by a renaming of their buffers, which gives no
/// two of them one name.
pub proof fn law_renaming_exists(
    one: ContextView,
    solve: SolveView,
    sizes: Seq<u64>,
    two: ContextView,
    other: SolveView,
    other_sizes: Seq<u64>,
)
    requires
        same_shape(one, solve, two, other),
        laid_out(one, solve, sizes),
        laid_out(two, other, other_sizes),
    ensures
        renaming(one, solve, two, other).relates(one, solve, two, other),
        forall|i: int, j: int|
            0 <= i < 20 && 0 <= j < 20 && i != j && #[trigger] place(one, solve, i) is Some
                && #[trigger] place(one, solve, j) is Some ==> (renaming(
                one,
                solve,
                two,
                other,
            ).buffer)(place(one, solve, i)->0) != (renaming(one, solve, two, other).buffer)(
                place(one, solve, j)->0,
            ),
{
    super::meaning::lemma_separate(one, solve, sizes);
    super::meaning::lemma_separate(two, other, other_sizes);
    let names = renaming(one, solve, two, other);
    assert forall|k: int| 0 <= k < 20 && #[trigger] place(one, solve, k) is Some implies place(
        two,
        other,
        k,
    ) == Some((names.buffer)(place(one, solve, k)->0)) by {
        let buffer = place(one, solve, k)->0;
        assert(place(one, solve, k) == Some(buffer));
        let chosen = choose|j: int| 0 <= j < 20 && #[trigger] place(one, solve, j) == Some(buffer);
        assert(0 <= chosen < 20 && place(one, solve, chosen) == Some(buffer));
        assert(chosen == k);
        assert(place(two, other, k) is Some);
    }
    assert forall|i: int, j: int|
        0 <= i < 20 && 0 <= j < 20 && i != j && #[trigger] place(one, solve, i) is Some
            && #[trigger] place(one, solve, j) is Some implies (names.buffer)(
        place(one, solve, i)->0,
    ) != (names.buffer)(place(one, solve, j)->0) by {
        assert(place(two, other, i) != place(two, other, j));
    }
}

/// Whether what one runtime has recorded is what another has, under new names, and nothing else of
/// them has changed.
spec fn follows(
    names: Renaming,
    a: RuntimeView,
    a_after: RuntimeView,
    b: RuntimeView,
    b_after: RuntimeView,
) -> bool {
    &&& a_after == (RuntimeView { commands: a.commands + appended(a, a_after), ..a })
    &&& b_after == (RuntimeView { commands: b.commands + appended(b, b_after), ..b })
    &&& appended(b, b_after) == names.commands(appended(a, a_after))
}

/// Two runtimes that have recorded nothing yet.
proof fn lemma_first(names: Renaming, a: RuntimeView, b: RuntimeView)
    ensures
        follows(names, a, a, b, b),
{
    assert(appended(a, a) =~= seq![]);
    assert(appended(b, b) =~= names.commands(seq![]));
    assert(a.commands =~= a.commands + seq![]);
    assert(b.commands =~= b.commands + seq![]);
}

/// One more command.
proof fn lemma_more(
    names: Renaming,
    a: RuntimeView,
    a_after: RuntimeView,
    b: RuntimeView,
    b_after: RuntimeView,
    command: CommandView,
)
    requires
        follows(names, a, a_after, b, b_after),
    ensures
        follows(names, a, a_after.record(command), b, b_after.record(names.command(command))),
{
    let more = appended(a, a_after).push(command);
    assert(appended(a, a_after.record(command)) =~= more);
    let other = appended(b, b_after).push(names.command(command));
    assert(appended(b, b_after.record(names.command(command))) =~= other);
    assert(other =~= names.commands(more));
    assert(a_after.record(command).commands =~= a.commands + more);
    assert(b_after.record(names.command(command)).commands =~= b.commands + other);
}

/// One more submission.
proof fn lemma_submit(
    names: Renaming,
    a: RuntimeView,
    a_after: RuntimeView,
    b: RuntimeView,
    b_after: RuntimeView,
    encoder: EncoderView,
    other: EncoderView,
)
    requires
        follows(names, a, a_after, b, b_after),
        other == names.encoder(encoder),
    ensures
        follows(names, a, a_after.submit(encoder), b, b_after.submit(other)),
{
    let command = CommandView::Submit { label: encoder.label, encoded: encoder.encoded };
    lemma_more(names, a, a_after, b, b_after, command);
}

/// One more write of words.
proof fn lemma_write(
    names: Renaming,
    a: RuntimeView,
    a_after: RuntimeView,
    b: RuntimeView,
    b_after: RuntimeView,
    buffer: usize,
    words: Seq<u32>,
)
    requires
        a.order == b.order,
        follows(names, a, a_after, b, b_after),
    ensures
        follows(
            names,
            a,
            a_after.write(buffer, crate::bytes::words_bytes(a_after.order, words)),
            b,
            b_after.write(
                (names.buffer)(buffer),
                crate::bytes::words_bytes(b_after.order, words),
            ),
        ),
{
    let contents = crate::bytes::words_bytes(a.order, words);
    lemma_more(names, a, a_after, b, b_after, CommandView::WriteBuffer { buffer, contents });
}

/// One more piece of encoded work.
proof fn lemma_with(names: Renaming, encoder: EncoderView, work: EncodedView)
    ensures
        names.encoder(encoder.with(work)) == names.encoder(encoder).with(names.work(work)),
{
    assert(names.encoder(encoder.with(work)).encoded =~= names.encoder(encoder).with(
        names.work(work),
    ).encoded);
}

/// An encoder with one piece of work in it.
proof fn lemma_single(names: Renaming, label: Seq<char>, work: EncodedView)
    ensures
        names.encoder(EncoderView::empty(label).with(work)) == EncoderView::empty(label).with(
            names.work(work),
        ),
{
    lemma_with(names, EncoderView::empty(label), work);
    assert(names.encoder(EncoderView::empty(label)).encoded =~= seq![]);
}

/// A pass on other buffers is the pass under new names.
proof fn lemma_pass(
    names: Renaming,
    label: Seq<char>,
    buffers: Seq<usize>,
    others: Seq<usize>,
    dispatches: Seq<crate::command::Dispatch>,
)
    requires
        buffers.len() == others.len(),
        forall|i: int|
            0 <= i < buffers.len() ==> others[i] == (names.buffer)(#[trigger] buffers[i]),
    ensures
        names.work(
            EncodedView::ComputePass {
                label,
                bindings: crate::command::bound(buffers),
                dispatches,
            },
        ) == (EncodedView::ComputePass {
            label,
            bindings: crate::command::bound(others),
            dispatches,
        }),
{
    let renamed = names.work(
        EncodedView::ComputePass { label, bindings: crate::command::bound(buffers), dispatches },
    );
    assert(renamed->bindings =~= crate::command::bound(others));
}

/// The passes of a solve, under new names.
proof fn lemma_passes(
    names: Renaming,
    kernel: Kernel,
    state: usize,
    x: VectorView,
    y: VectorView,
    z: VectorView,
    reduction: ReductionView,
    other: ReductionView,
)
    requires
        other.result == (names.buffer)(reduction.result),
    ensures
        names.work(super::encode::vector_pass(kernel, state, x, y, z))
            == super::encode::vector_pass(
            kernel,
            (names.buffer)(state),
            names.vector(x),
            names.vector(y),
            names.vector(z),
        ),
        names.work(super::encode::scalar_pass(kernel, state, reduction))
            == super::encode::scalar_pass(kernel, (names.buffer)(state), other),
{
    let f = names.buffer;
    let four = seq![state, x.buffer, y.buffer, z.buffer];
    lemma_pass(
        names,
        "kryst resident BiCGSTAB vector operation"@,
        four,
        seq![f(state), f(x.buffer), f(y.buffer), f(z.buffer)],
        super::encode::vector_pass(kernel, state, x, y, z)->dispatches,
    );
    lemma_pass(
        names,
        "kryst resident BiCGSTAB scalar operation"@,
        seq![state, reduction.result],
        seq![f(state), f(reduction.result)],
        super::encode::scalar_pass(kernel, state, reduction)->dispatches,
    );
}

/// Three pairs of vectors under new names.
spec fn renamed_pairs(names: Renaming, p: PairsView) -> PairsView {
    PairsView {
        x0: names.vector(p.x0),
        y0: names.vector(p.y0),
        x1: names.vector(p.x1),
        y1: names.vector(p.y1),
        x2: names.vector(p.x2),
        y2: names.vector(p.y2),
    }
}

/// A reduction under new names.
spec fn renamed_reduction(names: Renaming, r: ReductionView) -> ReductionView {
    ReductionView {
        partials: (names.buffer)(r.partials),
        result: (names.buffer)(r.result),
        partial_count: r.partial_count,
    }
}

proof fn lemma_dots(
    names: Renaming,
    label: Seq<char>,
    p: PairsView,
    reduction: ReductionView,
    params: usize,
)
    ensures
        names.work(super::encode::dots_pass(label, p, reduction, params))
            == super::encode::dots_pass(
            label,
            renamed_pairs(names, p),
            renamed_reduction(names, reduction),
            (names.buffer)(params),
        ),
{
    let f = names.buffer;
    lemma_pass(
        names,
        label,
        seq![
            p.x0.buffer,
            p.y0.buffer,
            p.x1.buffer,
            p.y1.buffer,
            reduction.partials,
            reduction.result,
            params,
            p.x2.buffer,
            p.y2.buffer,
        ],
        seq![
            f(p.x0.buffer),
            f(p.y0.buffer),
            f(p.x1.buffer),
            f(p.y1.buffer),
            f(reduction.partials),
            f(reduction.result),
            f(params),
            f(p.x2.buffer),
            f(p.y2.buffer),
        ],
        super::encode::dots_pass(label, p, reduction, params)->dispatches,
    );
}

/// An operator under new names.
spec fn renamed_operator(names: Renaming, o: OperatorView, other: OperatorView) -> bool {
    &&& other.row_offsets == (names.buffer)(o.row_offsets)
    &&& other.column_indices == (names.buffer)(o.column_indices)
    &&& other.values == (names.buffer)(o.values)
    &&& other.nrows == o.nrows
}

proof fn lemma_product(
    names: Renaming,
    o: OperatorView,
    other: OperatorView,
    x: VectorView,
    y: VectorView,
)
    requires
        renamed_operator(names, o, other),
    ensures
        names.work(crate::operator::product_pass(o, x, y)) == crate::operator::product_pass(
            other,
            names.vector(x),
            names.vector(y),
        ),
{
    let f = names.buffer;
    lemma_pass(
        names,
        "kryst WebGPU CSR SpMV"@,
        seq![o.row_offsets, o.column_indices, o.values, x.buffer, y.buffer],
        seq![f(o.row_offsets), f(o.column_indices), f(o.values), f(x.buffer), f(y.buffer)],
        crate::operator::product_pass(o, x, y)->dispatches,
    );
}

/// What a renaming says of the parts of two solves.
spec fn parts(
    names: Renaming,
    one: ContextView,
    solve: SolveView,
    two: ContextView,
    other: SolveView,
) -> bool {
    let (w, u) = (solve.workspace, other.workspace);
    &&& two.vector_params == (names.buffer)(one.vector_params)
    &&& two.reduction_params == (names.buffer)(one.reduction_params)
    &&& renamed_operator(names, solve.operator, other.operator)
    &&& one.custom is None ==> match (one.preconditioner, two.preconditioner) {
        (Some(PreparedView::Identity), Some(PreparedView::Identity)) => true,
        (Some(PreparedView::Jacobi(j)), Some(PreparedView::Jacobi(k))) => {
            &&& k.inverse_diagonal == (names.buffer)(j.inverse_diagonal)
            &&& k.n == j.n
        },
        _ => false,
    }
    &&& one.custom is Some == two.custom is Some
    &&& one.convergence == two.convergence
    &&& u.n == w.n
    &&& u.r == names.vector(w.r)
    &&& u.r_hat == names.vector(w.r_hat)
    &&& u.p == names.vector(w.p)
    &&& u.v == names.vector(w.v)
    &&& u.s == names.vector(w.s)
    &&& u.t == names.vector(w.t)
    &&& u.z_p == names.vector(w.z_p)
    &&& u.z_s == names.vector(w.z_s)
    &&& u.ax == names.vector(w.ax)
    &&& u.reduction == renamed_reduction(names, w.reduction)
    &&& u.state == (names.buffer)(w.state)
    &&& other.x == names.vector(solve.x)
    &&& other.b == names.vector(solve.b)
}

proof fn lemma_parts(
    names: Renaming,
    one: ContextView,
    solve: SolveView,
    two: ContextView,
    other: SolveView,
)
    requires
        same_shape(one, solve, two, other),
        names.relates(one, solve, two, other),
    ensures
        parts(names, one, solve, two, other),
{
    let w = solve.workspace;
    assert(place(one, solve, 0) == Some(one.vector_params));
    assert(place(one, solve, 1) == Some(one.reduction_params));
    assert(place(one, solve, 2) == Some(solve.operator.row_offsets));
    assert(place(one, solve, 3) == Some(solve.operator.column_indices));
    assert(place(one, solve, 4) == Some(solve.operator.values));
    assert(one.preconditioner matches Some(PreparedView::Jacobi(j)) ==> place(one, solve, 5)
        == Some(j.inverse_diagonal));
    assert(place(one, solve, 6) == Some(w.r.buffer));
    assert(place(one, solve, 7) == Some(w.r_hat.buffer));
    assert(place(one, solve, 8) == Some(w.p.buffer));
    assert(place(one, solve, 9) == Some(w.v.buffer));
    assert(place(one, solve, 10) == Some(w.s.buffer));
    assert(place(one, solve, 11) == Some(w.t.buffer));
    assert(place(one, solve, 12) == Some(w.z_p.buffer));
    assert(place(one, solve, 13) == Some(w.z_s.buffer));
    assert(place(one, solve, 14) == Some(w.ax.buffer));
    assert(place(one, solve, 15) == Some(w.reduction.partials));
    assert(place(one, solve, 16) == Some(w.reduction.result));
    assert(place(one, solve, 17) == Some(w.state));
    assert(place(one, solve, 18) == Some(solve.x.buffer));
    assert(place(one, solve, 19) == Some(solve.b.buffer));
}

/// One more copy.
proof fn lemma_copy(
    names: Renaming,
    a: RuntimeView,
    a_after: RuntimeView,
    b: RuntimeView,
    b_after: RuntimeView,
    source: VectorView,
    destination: VectorView,
)
    requires
        follows(names, a, a_after, b, b_after),
    ensures
        follows(
            names,
            a,
            super::encode::with_copy(a_after, source, destination),
            b,
            super::encode::with_copy(b_after, names.vector(source), names.vector(destination)),
        ),
{
    let copy = EncodedView::CopyBuffer {
        source: source.buffer,
        destination: destination.buffer,
        bytes: crate::runtime::single_bytes(source.len),
    };
    let label = "copy WebGPU vector"@;
    lemma_single(names, label, copy);
    let encoder = EncoderView::empty(label).with(copy);
    lemma_submit(names, a, a_after, b, b_after, encoder, names.encoder(encoder));
}

/// One more reduction in a submission of its own.
proof fn lemma_dot3(
    names: Renaming,
    a: RuntimeView,
    a_after: RuntimeView,
    b: RuntimeView,
    b_after: RuntimeView,
    params: usize,
    p: PairsView,
    reduction: ReductionView,
)
    requires
        a.order == b.order,
        follows(names, a, a_after, b, b_after),
    ensures
        follows(
            names,
            a,
            super::encode::with_dot3(a_after, params, p, reduction),
            b,
            super::encode::with_dot3(
                b_after,
                (names.buffer)(params),
                renamed_pairs(names, p),
                renamed_reduction(names, reduction),
            ),
        ),
{
    let other = renamed_reduction(names, reduction);
    let words: Seq<u32> = seq![p.x0.len as u32, reduction.partial_count as u32, 0, 0];
    lemma_write(names, a, a_after, b, b_after, params, words);
    let label = "kryst WebGPU dot3"@;
    let pass = super::encode::dots_pass(label, p, reduction, params);
    lemma_dots(names, label, p, reduction, params);
    lemma_single(names, label, pass);
    let encoder = EncoderView::empty(label).with(pass);
    lemma_submit(
        names,
        a,
        super::encode::with_reduction_params(a_after, params, p.x0.len, reduction),
        b,
        super::encode::with_reduction_params(b_after, (names.buffer)(params), p.x0.len, other),
        encoder,
        names.encoder(encoder),
    );
}

/// The computation of the residual.
proof fn lemma_residual(
    names: Renaming,
    a: RuntimeView,
    b: RuntimeView,
    one: ContextView,
    solve: SolveView,
    two: ContextView,
    other: SolveView,
)
    requires
        a.order == b.order,
        parts(names, one, solve, two, other),
    ensures
        follows(
            names,
            a,
            super::session::with_residual(a, one, solve),
            b,
            super::session::with_residual(b, two, other),
        ),
{
    let (w, u) = (solve.workspace, other.workspace);
    lemma_first(names, a, b);
    let label = "kryst WebGPU CSR SpMV"@;
    let pass = crate::operator::product_pass(solve.operator, solve.x, w.ax);
    lemma_product(names, solve.operator, other.operator, solve.x, w.ax);
    lemma_single(names, label, pass);
    let product = EncoderView::empty(label).with(pass);
    lemma_submit(names, a, a, b, b, product, names.encoder(product));
    let (a1, b1) = (a.submit(product), b.submit(names.encoder(product)));
    lemma_copy(names, a, a1, b, b1, solve.b, w.r);
    let a2 = super::encode::with_copy(a1, solve.b, w.r);
    let b2 = super::encode::with_copy(b1, other.b, u.r);
    let params = one.vector_params;
    let words: Seq<u32> = seq![
        crate::portable::narrowed(super::encode::MINUS_ONE),
        crate::portable::narrowed(super::encode::ONE),
        w.ax.len as u32,
        0,
    ];
    lemma_write(names, a, a2, b, b2, params, words);
    let a3 = a2.write(params, crate::bytes::words_bytes(a2.order, words));
    let b3 = b2.write(two.vector_params, crate::bytes::words_bytes(b2.order, words));
    let name = "kryst WebGPU axpby"@;
    let dispatches = seq![
        crate::command::Dispatch {
            kernel: Kernel::Axpby,
            groups: crate::runtime::groups(w.ax.len as nat, 128) as u32,
        },
    ];
    let buffers = seq![w.ax.buffer, w.r.buffer, params];
    let combine = EncodedView::ComputePass {
        label: name,
        bindings: crate::command::bound(buffers),
        dispatches,
    };
    lemma_pass(
        names,
        name,
        buffers,
        seq![u.ax.buffer, u.r.buffer, two.vector_params],
        dispatches,
    );
    lemma_single(names, name, combine);
    let encoder = EncoderView::empty(name).with(combine);
    lemma_submit(names, a, a3, b, b3, encoder, names.encoder(encoder));
}

/// Whether work in progress is other work under new names.
spec fn work_follows(
    names: Renaming,
    a: RuntimeView,
    a_work: Recording,
    b: RuntimeView,
    b_work: Recording,
) -> bool {
    &&& follows(names, a, a_work.runtime, b, b_work.runtime)
    &&& b_work.encoder == names.encoder(a_work.encoder)
}

/// One more pass of an iteration.
proof fn lemma_work_with(
    names: Renaming,
    a: RuntimeView,
    a_work: Recording,
    b: RuntimeView,
    b_work: Recording,
    work: EncodedView,
)
    requires
        work_follows(names, a, a_work, b, b_work),
    ensures
        work_follows(names, a, a_work.with(work), b, b_work.with(names.work(work))),
{
    lemma_with(names, a_work.encoder, work);
}

/// One more preconditioning.
proof fn lemma_work_precondition(
    names: Renaming,
    a: RuntimeView,
    a_work: Recording,
    b: RuntimeView,
    b_work: Recording,
    one: ContextView,
    solve: SolveView,
    two: ContextView,
    other: SolveView,
    x: VectorView,
    y: VectorView,
)
    requires
        parts(names, one, solve, two, other),
        work_follows(names, a, a_work, b, b_work),
    ensures
        work_follows(
            names,
            a,
            a_work.precondition(one, x, y),
            b,
            b_work.precondition(two, names.vector(x), names.vector(y)),
        ),
{
    if one.custom is Some {
        lemma_submit(names, a, a_work.runtime, b, b_work.runtime, a_work.encoder, b_work.encoder);
        lemma_more(
            names,
            a,
            a_work.runtime.submit(a_work.encoder),
            b,
            b_work.runtime.submit(b_work.encoder),
            CommandView::Precondition { input: x, output: y },
        );
        let empty = EncoderView::empty(a_work.encoder.label);
        assert(names.encoder(empty).encoded =~= empty.encoded);
    } else if one.preconditioner->0 is Jacobi {
        let j = one.preconditioner->0->Jacobi_0;
        let k = two.preconditioner->0->Jacobi_0;
        let pass = crate::preconditioner::scaling_pass(j, x, y);
        let f = names.buffer;
        lemma_pass(
            names,
            "kryst WebGPU Jacobi"@,
            seq![j.inverse_diagonal, x.buffer, y.buffer],
            seq![f(j.inverse_diagonal), f(x.buffer), f(y.buffer)],
            pass->dispatches,
        );
        assert(names.work(pass) == crate::preconditioner::scaling_pass(
            k,
            names.vector(x),
            names.vector(y),
        ));
        lemma_work_with(names, a, a_work, b, b_work, pass);
    } else {
        let copy = EncodedView::CopyBuffer {
            source: x.buffer,
            destination: y.buffer,
            bytes: crate::runtime::single_bytes(x.len),
        };
        lemma_work_with(names, a, a_work, b, b_work, copy);
    }
}

/// One more iteration.
#[verifier::spinoff_prover]
proof fn lemma_work_iteration(
    names: Renaming,
    a: RuntimeView,
    a_work: Recording,
    b: RuntimeView,
    b_work: Recording,
    one: ContextView,
    solve: SolveView,
    two: ContextView,
    other: SolveView,
)
    requires
        parts(names, one, solve, two, other),
        work_follows(names, a, a_work, b, b_work),
    ensures
        work_follows(
            names,
            a,
            super::encode::iteration(a_work, one, solve.operator, solve.workspace, solve.x),
            b,
            super::encode::iteration(b_work, two, other.operator, other.workspace, other.x),
        ),
{
    let (w, o, x) = (solve.workspace, solve.operator, solve.x);
    let (st, red) = (w.state, w.reduction);
    let other_red = other.workspace.reduction;
    let params = one.reduction_params;
    let label = "kryst resident WebGPU dot2"@;
    let p1 = super::encode::pairs(w.r_hat, w.r, w.r, w.r, w.r, w.r);
    let p2 = super::encode::pairs(w.r_hat, w.v, w.r_hat, w.v, w.r_hat, w.v);
    let p3 = super::encode::pairs(w.s, w.s, w.t, w.t, w.t, w.s);
    // up to the search direction
    let d1 = super::encode::dots_pass(label, p1, red, params);
    lemma_dots(names, label, p1, red, params);
    lemma_work_with(names, a, a_work, b, b_work, d1);
    let (a1, b1) = (a_work.with(d1), b_work.with(names.work(d1)));
    let k1 = super::encode::scalar_pass(Kernel::BeginIteration, st, red);
    lemma_passes(names, Kernel::BeginIteration, st, w.r, w.p, w.v, red, other_red);
    lemma_work_with(names, a, a1, b, b1, k1);
    let (a2, b2) = (a1.with(k1), b1.with(names.work(k1)));
    let u1 = super::encode::vector_pass(Kernel::UpdatePOmega, st, w.r, w.p, w.v);
    lemma_passes(names, Kernel::UpdatePOmega, st, w.r, w.p, w.v, red, other_red);
    lemma_work_with(names, a, a2, b, b2, u1);
    let (a3, b3) = (a2.with(u1), b2.with(names.work(u1)));
    let u2 = super::encode::vector_pass(Kernel::PrepareP, st, w.r, w.p, w.v);
    lemma_passes(names, Kernel::PrepareP, st, w.r, w.p, w.v, red, other_red);
    lemma_work_with(names, a, a3, b, b3, u2);
    let (a4, b4) = (a3.with(u2), b3.with(names.work(u2)));
    lemma_work_precondition(names, a, a4, b, b4, one, solve, two, other, w.p, w.z_p);
    let a5 = a4.precondition(one, w.p, w.z_p);
    let b5 = b4.precondition(two, other.workspace.p, other.workspace.z_p);
    // up to the intermediate residual
    let m1 = crate::operator::product_pass(o, w.z_p, w.v);
    lemma_product(names, o, other.operator, w.z_p, w.v);
    lemma_work_with(names, a, a5, b, b5, m1);
    let (a6, b6) = (a5.with(m1), b5.with(names.work(m1)));
    let d2 = super::encode::dots_pass(label, p2, red, params);
    lemma_dots(names, label, p2, red, params);
    lemma_work_with(names, a, a6, b, b6, d2);
    let (a7, b7) = (a6.with(d2), b6.with(names.work(d2)));
    let k2 = super::encode::scalar_pass(Kernel::FinishAlpha, st, red);
    lemma_passes(names, Kernel::FinishAlpha, st, w.r, w.p, w.v, red, other_red);
    lemma_work_with(names, a, a7, b, b7, k2);
    let (a8, b8) = (a7.with(k2), b7.with(names.work(k2)));
    let u3 = super::encode::vector_pass(Kernel::MakeS, st, w.r, w.s, w.v);
    lemma_passes(names, Kernel::MakeS, st, w.r, w.s, w.v, red, other_red);
    lemma_work_with(names, a, a8, b, b8, u3);
    let (a9, b9) = (a8.with(u3), b8.with(names.work(u3)));
    let u4 = super::encode::vector_pass(Kernel::UpdateXAlpha, st, w.z_p, x, w.t);
    lemma_passes(names, Kernel::UpdateXAlpha, st, w.z_p, x, w.t, red, other_red);
    lemma_work_with(names, a, a9, b, b9, u4);
    let (a10, b10) = (a9.with(u4), b9.with(names.work(u4)));
    lemma_work_precondition(names, a, a10, b, b10, one, solve, two, other, w.s, w.z_s);
    let a11 = a10.precondition(one, w.s, w.z_s);
    let b11 = b10.precondition(two, other.workspace.s, other.workspace.z_s);
    // to the end
    let m2 = crate::operator::product_pass(o, w.z_s, w.t);
    lemma_product(names, o, other.operator, w.z_s, w.t);
    lemma_work_with(names, a, a11, b, b11, m2);
    let (a12, b12) = (a11.with(m2), b11.with(names.work(m2)));
    let d3 = super::encode::dots_pass(label, p3, red, params);
    lemma_dots(names, label, p3, red, params);
    lemma_work_with(names, a, a12, b, b12, d3);
    let (a13, b13) = (a12.with(d3), b12.with(names.work(d3)));
    let k3 = super::encode::scalar_pass(Kernel::CheckS, st, red);
    lemma_passes(names, Kernel::CheckS, st, w.r, w.p, w.v, red, other_red);
    lemma_work_with(names, a, a13, b, b13, k3);
    let (a14, b14) = (a13.with(k3), b13.with(names.work(k3)));
    let k4 = super::encode::scalar_pass(Kernel::FinishOmega, st, red);
    lemma_passes(names, Kernel::FinishOmega, st, w.r, w.p, w.v, red, other_red);
    lemma_work_with(names, a, a14, b, b14, k4);
    let (a15, b15) = (a14.with(k4), b14.with(names.work(k4)));
    let u5 = super::encode::vector_pass(Kernel::UpdateXOmega, st, w.z_s, x, w.t);
    lemma_passes(names, Kernel::UpdateXOmega, st, w.z_s, x, w.t, red, other_red);
    lemma_work_with(names, a, a15, b, b15, u5);
    let (a16, b16) = (a15.with(u5), b15.with(names.work(u5)));
    let u6 = super::encode::vector_pass(Kernel::MakeR, st, w.s, w.r, w.t);
    lemma_passes(names, Kernel::MakeR, st, w.s, w.r, w.t, red, other_red);
    lemma_work_with(names, a, a16, b, b16, u6);
    let (a17, b17) = (a16.with(u6), b16.with(names.work(u6)));
    lemma_work_with(names, a, a17, b, b17, d1);
    let (a18, b18) = (a17.with(d1), b17.with(names.work(d1)));
    let k5 = super::encode::scalar_pass(Kernel::CheckR, st, red);
    lemma_passes(names, Kernel::CheckR, st, w.r, w.p, w.v, red, other_red);
    lemma_work_with(names, a, a18, b, b18, k5);
}

proof fn lemma_work_iterations(
    names: Renaming,
    a: RuntimeView,
    a_work: Recording,
    b: RuntimeView,
    b_work: Recording,
    one: ContextView,
    solve: SolveView,
    two: ContextView,
    other: SolveView,
    count: nat,
)
    requires
        parts(names, one, solve, two, other),
        work_follows(names, a, a_work, b, b_work),
    ensures
        work_follows(
            names,
            a,
            super::session::iterations(a_work, one, solve, count),
            b,
            super::session::iterations(b_work, two, other, count),
        ),
    decreases count,
{
    if count > 0 {
        let before = (count - 1) as nat;
        lemma_work_iterations(names, a, a_work, b, b_work, one, solve, two, other, before);
        lemma_work_iteration(
            names,
            a,
            super::session::iterations(a_work, one, solve, before),
            b,
            super::session::iterations(b_work, two, other, before),
            one,
            solve,
            two,
            other,
        );
    }
}

/// Solves of one shape record the same commands, step by step, in buffers of different names:
/// nothing of a workspace but the names of its buffers enters what is asked of the device.
pub proof fn law_commands_renamed(
    names: Renaming,
    a: RuntimeView,
    b: RuntimeView,
    one: ContextView,
    solve: SolveView,
    two: ContextView,
    other: SolveView,
    rhs_squared: u64,
    residual_squared: u64,
    count: nat,
)
    requires
        a.order == b.order,
        same_shape(one, solve, two, other),
        names.relates(one, solve, two, other),
    ensures
        appended(b, super::session::with_startup(b, two, other)) == names.commands(
            appended(a, super::session::with_startup(a, one, solve)),
        ),
        appended(
            b,
            super::session::with_state(b, two, other, rhs_squared, residual_squared),
        ) == names.commands(
            appended(
                a,
                super::session::with_state(a, one, solve, rhs_squared, residual_squared),
            ),
        ),
        appended(b, super::session::with_batch(b, two, other, count)) == names.commands(
            appended(a, super::session::with_batch(a, one, solve, count)),
        ),
        appended(b, super::session::with_tail(b, two, other)) == names.commands(
            appended(a, super::session::with_tail(a, one, solve)),
        ),
{
    let (w, u) = (solve.workspace, other.workspace);
    let params = one.reduction_params;
    lemma_parts(names, one, solve, two, other);
    lemma_first(names, a, b);
    lemma_residual(names, a, b, one, solve, two, other);
    let a1 = super::session::with_residual(a, one, solve);
    let b1 = super::session::with_residual(b, two, other);
    let last = super::encode::pairs(w.r, w.r, w.r, w.r, w.r, w.r);
    lemma_dot3(names, a, a1, b, b1, params, last, w.reduction);
    lemma_copy(names, a, a1, b, b1, w.r, w.r_hat);
    let a2 = super::encode::with_copy(a1, w.r, w.r_hat);
    let b2 = super::encode::with_copy(b1, u.r, u.r_hat);
    lemma_copy(names, a, a2, b, b2, w.r, w.p);
    let a3 = super::encode::with_copy(a2, w.r, w.p);
    let b3 = super::encode::with_copy(b2, u.r, u.p);
    let first = super::encode::pairs(solve.b, solve.b, w.r, w.r, w.r, w.r);
    lemma_dot3(names, a, a3, b, b3, params, first, w.reduction);
    let state = super::encode::resident_state(one.convergence, rhs_squared, residual_squared);
    lemma_write(names, a, a, b, b, w.state, state);
    let a4 = a.write(w.state, crate::bytes::words_bytes(a.order, state));
    let b4 = b.write(u.state, crate::bytes::words_bytes(b.order, state));
    let words: Seq<u32> = seq![w.n as u32, w.reduction.partial_count as u32, 0, 0];
    lemma_write(names, a, a4, b, b4, params, words);
    let encoder = EncoderView::empty("kryst resident BiCGSTAB batch"@);
    assert(names.encoder(encoder).encoded =~= encoder.encoded);
    let a_start = Recording { runtime: a, encoder };
    let b_start = Recording { runtime: b, encoder };
    lemma_work_iterations(names, a, a_start, b, b_start, one, solve, two, other, count);
    let a_end = super::session::iterations(a_start, one, solve, count);
    let b_end = super::session::iterations(b_start, two, other, count);
    lemma_submit(names, a, a_end.runtime, b, b_end.runtime, a_end.encoder, b_end.encoder);
}

} // verus!
