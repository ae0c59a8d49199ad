//! What a context answers: when it accepts a request, what it prepares, how a solve goes on and
//! what is reported of it.
use super::session::{Outcome, SolveView};
use super::{ContextView, PreparedView, WorkspaceView};
use crate::command::{CommandView, EncodedView, Kernel, Layout, ShaderModule};
use crate::convergence::{Convergence, ConvergedReason, PcType};
use crate::error::{ErrorView, FailureView, NonFiniteKind};
use crate::operator::OperatorView;
use crate::preconditioner::{invertible, JacobiView};
use crate::runtime::RuntimeView;
use crate::vector::{fits_single, VectorView};
use vstd::prelude::*;

verus! {

/// A reduction has a partial sum for every 256 entries or fewer, at least one, and no more than it
/// needs; each takes four numbers.
pub proof fn law_partial_sums(n: nat, count: usize)
    ensures
        super::partial_sums(n) >= 1,
        n <= 256 * super::partial_sums(n),
        n > 0 ==> 256 * (super::partial_sums(n) - 1) < n,
        n == 0 ==> super::partial_sums(n) == 1,
        16 * count <= usize::MAX ==> super::partial_bytes(count) == 16 * count,
        16 * count > usize::MAX ==> super::partial_bytes(count) == usize::MAX,
{
    crate::runtime::law_groups_cover(n, 256);
    if n > 0 {
        let q = crate::runtime::groups(n, 256);
        assert(q >= 1);
    }
}

/// A new context: nothing is set but the tolerances `10^-5`, `10^-30` and `10^5`, ten thousand
/// iterations and no preconditioning; it takes two new buffers of 16 bytes.
pub proof fn law_context_created(runtime: RuntimeView)
    requires
        runtime.sizes.len() + 1 <= usize::MAX,
    ensures
        ({
            let context = super::next_context(runtime);
            let after = super::with_context(runtime);
            &&& context.runtime == runtime.id
            &&& context.operator is None
            &&& context.pc_type is Identity
            &&& context.preconditioner is None
            &&& context.custom is None
            &&& context.workspace is None
            &&& context.convergence == (Convergence {
                rtol: 0x3ee4_f8b5_88e3_68f1,
                atol: 0x39b4_484b_feeb_c2a0,
                dtol: 0x40f8_6a00_0000_0000,
                max_iters: 10_000,
            })
            &&& context.vector_params == runtime.sizes.len()
            &&& context.reduction_params == runtime.sizes.len() + 1
            &&& after.sizes == runtime.sizes.push(16).push(16)
            &&& after.id == runtime.id && after.order == runtime.order
        }),
{
}

/// Whether a command creates the pipeline of a kernel at an entry point.
pub open spec fn creates(
    command: CommandView,
    kernel: Kernel,
    module: ShaderModule,
    entry_point: Seq<char>,
    layout: Option<Layout>,
) -> bool {
    command matches CommandView::CreatePipeline {
        kernel: k,
        module: m,
        entry_point: e,
        layout: l,
        ..
    } && k == kernel && m == module && e == entry_point && l == layout
}

/// Whether a command loads a shader.
pub open spec fn loads(command: CommandView, module: ShaderModule) -> bool {
    command matches CommandView::CreateShaderModule { module: m, .. } && m == module
}

/// Whether a command lays out the bindings that the kernels of a shader use.
pub open spec fn lays_out(command: CommandView, layout: Layout, module: ShaderModule) -> bool {
    command matches CommandView::CreateBindGroupLayout { layout: l, slots, .. } && l == layout
        && slots == crate::command::module_slots(module)
}

/// Whether a command creates a parameter buffer of four words that are zero.
pub open spec fn holds_zeros(command: CommandView, buffer: nat) -> bool {
    command matches CommandView::CreateBufferInit { buffer: b, contents, usage, .. } && b == buffer
        && usage == 72 && contents == Seq::new(16, |i: int| 0u8)
}

/// The kernels of a context are created each at the entry point of its name, in the shader that has
/// it and with the bindings of that shader.
#[verifier::spinoff_prover]
pub proof fn law_kernels_created(runtime: RuntimeView)
    requires
        runtime.sizes.len() + 1 <= usize::MAX,
    ensures
        ({
            let after = super::with_context(runtime).commands;
            let k = runtime.commands.len() as int;
            let reduction = Some(Layout::Reduction);
            let vector = Some(Layout::ResidentVector);
            let scalar = Some(Layout::ResidentScalar);
            let (vectors, scalars) = (ShaderModule::ResidentVector, ShaderModule::ResidentScalar);
            &&& after.len() == k + 26
            &&& after.take(k) == runtime.commands
            &&& loads(after[k], ShaderModule::Vector)
            &&& loads(after[k + 3], ShaderModule::Reduction)
            &&& loads(after[k + 11], vectors)
            &&& loads(after[k + 14], scalars)
            &&& lays_out(after[k + 4], Layout::Reduction, ShaderModule::Reduction)
            &&& lays_out(after[k + 9], Layout::ResidentVector, vectors)
            &&& lays_out(after[k + 12], Layout::ResidentScalar, scalars)
            &&& holds_zeros(after[k + 2], runtime.sizes.len())
            &&& holds_zeros(after[k + 8], runtime.sizes.len() + 1)
            &&& creates(after[k + 1], Kernel::Axpby, ShaderModule::Vector, "axpby"@, None)
            &&& creates(
                after[k + 6],
                Kernel::ReduceStage,
                ShaderModule::Reduction,
                "reduce_stage"@,
                reduction,
            )
            &&& creates(
                after[k + 7],
                Kernel::ReduceFinal,
                ShaderModule::Reduction,
                "reduce_final"@,
                reduction,
            )
            &&& creates(after[k + 15], Kernel::UpdatePOmega, vectors, "update_p_omega"@, vector)
            &&& creates(after[k + 16], Kernel::PrepareP, vectors, "prepare_p"@, vector)
            &&& creates(after[k + 17], Kernel::MakeS, vectors, "make_s"@, vector)
            &&& creates(after[k + 18], Kernel::UpdateXAlpha, vectors, "update_x_alpha"@, vector)
            &&& creates(after[k + 19], Kernel::UpdateXOmega, vectors, "update_x_omega"@, vector)
            &&& creates(after[k + 20], Kernel::MakeR, vectors, "make_r"@, vector)
            &&& creates(after[k + 21], Kernel::BeginIteration, scalars, "begin_iteration"@, scalar)
            &&& creates(after[k + 22], Kernel::FinishAlpha, scalars, "finish_alpha"@, scalar)
            &&& creates(after[k + 23], Kernel::CheckS, scalars, "check_s"@, scalar)
            &&& creates(after[k + 24], Kernel::FinishOmega, scalars, "finish_omega"@, scalar)
            &&& creates(after[k + 25], Kernel::CheckR, scalars, "check_r"@, scalar)
        }),
{
    let after = super::with_context(runtime).commands;
    let k = runtime.commands.len() as int;
    assert(after.take(k) =~= runtime.commands);
}

/// An operator is accepted exactly where it belongs to the runtime of the context and is square.
pub proof fn law_operator_accepted(context: ContextView, operator: OperatorView)
    ensures
        super::operator_error(context, operator) is None <==> context.runtime == operator.runtime
            && operator.nrows == operator.ncols,
        context.runtime != operator.runtime ==> super::operator_error(context, operator) == Some(
            ErrorView::InvalidInput("WebGPU context and operator belong to different runtimes"@),
        ),
        context.runtime == operator.runtime && operator.nrows != operator.ncols
            ==> super::operator_error(context, operator) == Some(
            ErrorView::InvalidInput(
                "WebGPU BiCGStab requires a square operator, got "@ + crate::text::decimal(
                    operator.nrows as nat,
                ) + "x"@ + crate::text::decimal(operator.ncols as nat),
            ),
        ),
{
}

/// A preparation is accepted exactly where there is an operator and its preconditioner can be had:
/// a caller's has the dimensions of the operator; one that is prepared already stays; no
/// preconditioning always can; diagonal scaling needs a diagonal that can be inverted.
pub proof fn law_setup_accepted(context: ContextView, dims: (usize, usize))
    requires
        context.valid(),
    ensures
        super::setup_error(context, dims) is None <==> {
            &&& context.operator matches Some(operator)
            &&& if context.custom is Some {
                dims == (operator.nrows, operator.nrows)
            } else {
                ||| context.preconditioner is Some
                ||| context.pc_type is Identity
                ||| context.pc_type is Jacobi && forall|row: int|
                    0 <= row < operator.diagonal.len() ==> invertible(
                        #[trigger] operator.diagonal[row],
                    )
            }
        },
        context.operator is None ==> super::setup_error(context, dims) == Some(
            ErrorView::InvalidInput("WebGPU operator is not set"@),
        ),
        context.operator matches Some(operator) ==> {
            let n = operator.nrows as nat;
            &&& context.custom is Some && dims != (operator.nrows, operator.nrows)
                ==> super::setup_error(context, dims) == Some(
                ErrorView::InvalidInput(
                    "custom WebGPU preconditioner dimensions "@ + crate::text::pair(
                        dims.0 as nat,
                        dims.1 as nat,
                    ) + " do not match operator dimensions "@ + crate::text::pair(n, n),
                ),
            )
            &&& context.custom is None && context.preconditioner is None && context.pc_type
                is Jacobi ==> super::setup_error(context, dims)
                == crate::preconditioner::diagonal_error(operator.diagonal, 0)
            &&& context.custom is None && context.preconditioner is None && context.pc_type is Ilu0
                ==> super::setup_error(context, dims) == Some(
                ErrorView::Unsupported("selected preconditioner has no WebGPU implementation"@),
            )
        },
{
    if let Some(operator) = context.operator {
        crate::preconditioner::law_diagonal_accepted(operator.diagonal);
    }
}

/// What a preparation makes of a context: the preconditioner that was chosen, on a new buffer where
/// it is a scaling, and a workspace for the operator. What is in place already stays, and so do the
/// choices.
pub proof fn law_setup_prepares(
    context: ContextView,
    runtime: RuntimeView,
    dims: (usize, usize),
)
    requires
        context.valid(),
        super::setup_error(context, dims) is None,
        runtime.sizes.len() + 12 <= usize::MAX,
    ensures
        ({
            let ready = super::prepared(context, runtime);
            let n = context.operator->0.nrows;
            &&& ready.runtime == context.runtime && ready.operator == context.operator
            &&& ready.pc_type == context.pc_type && ready.custom == context.custom
            &&& ready.convergence == context.convergence
            &&& ready.vector_params == context.vector_params
            &&& ready.reduction_params == context.reduction_params
            &&& context.custom is Some || context.preconditioner is Some ==> ready.preconditioner
                == context.preconditioner
            &&& context.custom is None && context.preconditioner is None ==> match context.pc_type {
                PcType::Jacobi => ready.preconditioner == Some(
                    PreparedView::Jacobi(
                        JacobiView {
                            runtime: context.runtime,
                            inverse_diagonal: runtime.sizes.len() as usize,
                            n,
                        },
                    ),
                ),
                _ => ready.preconditioner == Some(PreparedView::Identity),
            }
            &&& ready.workspace matches Some(work) && work.n == n
            &&& context.workspace is Some ==> ready.workspace == context.workspace
        }),
{
}

/// What a preparation records: the upload of the inverse diagonal where a scaling is to be made,
/// and the allocation of a workspace where there is none, in this order; nothing where both are there.
pub proof fn law_setup_records(context: ContextView, runtime: RuntimeView, dims: (usize, usize))
    requires
        context.valid(),
        super::setup_error(context, dims) is None,
    ensures
        ({
            let operator = context.operator->0;
            let scales = context.custom is None && context.preconditioner is None
                && context.pc_type is Jacobi;
            let first = if scales {
                crate::preconditioner::with_jacobi(runtime, operator)
            } else {
                runtime
            };
            &&& context.workspace is Some ==> super::with_setup(context, runtime) == first
            &&& context.workspace is None ==> super::with_setup(context, runtime)
                == super::with_workspace(first, operator.nrows)
        }),
{
}

proof fn lemma_vectors(runtime: RuntimeView, n: usize, count: nat)
    requires
        runtime.sizes.len() + count <= usize::MAX,
        4 * n <= usize::MAX,
    ensures
        ({
            let after = super::with_vectors(runtime, n, count);
            let (k, s) = (runtime.commands.len() as int, runtime.sizes.len() as int);
            &&& after.commands.len() == k + 2 * count
            &&& after.sizes.len() == s + count
            &&& after.commands.take(k) == runtime.commands
            &&& after.sizes.take(s) == runtime.sizes
            &&& after.id == runtime.id && after.order == runtime.order
            &&& forall|j: int|
                0 <= j < count ==> #[trigger] after.sizes[s + j] == if n == 0 {
                    4
                } else {
                    4 * n
                }
            &&& forall|j: int|
                0 <= j < count ==> #[trigger] after.commands[k + 2 * j + 1] == (
                CommandView::Submit {
                    label: "zero WebGPU vector"@,
                    encoded: seq![EncodedView::ClearBuffer { buffer: (s + j) as usize }],
                })
        }),
    decreases count,
{
    let after = super::with_vectors(runtime, n, count);
    let (k, s) = (runtime.commands.len() as int, runtime.sizes.len() as int);
    if count == 0 {
        assert(after.commands.take(k) =~= runtime.commands);
        assert(after.sizes.take(s) =~= runtime.sizes);
    } else {
        let earlier = super::with_vectors(runtime, n, (count - 1) as nat);
        lemma_vectors(runtime, n, (count - 1) as nat);
        crate::vector::law_zeros_recorded(earlier, n);
        let m = earlier.commands.len() as int;
        assert(after.commands.take(k) =~= after.commands.take(m).take(k));
        assert(after.sizes.take(s) =~= earlier.sizes.take(s));
        assert forall|j: int| 0 <= j < count implies #[trigger] after.commands[k + 2 * j + 1] == (
        CommandView::Submit {
            label: "zero WebGPU vector"@,
            encoded: seq![EncodedView::ClearBuffer { buffer: (s + j) as usize }],
        }) by {
            if j < count - 1 {
                assert(after.commands.take(m)[k + 2 * j + 1] == earlier.commands[k + 2 * j + 1]);
            }
        }
        assert forall|j: int| 0 <= j < count implies #[trigger] after.sizes[s + j] == if n == 0 {
            4
        } else {
            4 * n
        } by {
            if j < count - 1 {
                assert(after.sizes[s + j] == earlier.sizes[s + j]);
            }
        }
    }
}

/// What a workspace is: nine vectors of the length of the system, cleared, then the buffers of the
/// reduction and of the state, each new and of the size that it needs.
pub proof fn law_workspace_allocated(runtime: RuntimeView, n: usize)
    requires
        runtime.sizes.len() + 12 <= usize::MAX,
        16 * (n + 256) <= usize::MAX,
    ensures
        ({
            let after = super::with_workspace(runtime, n);
            let w = super::next_workspace(runtime, n);
            let (k, s) = (runtime.commands.len() as int, runtime.sizes.len() as int);
            let at = |v: VectorView, place: int|
                v.runtime == runtime.id && v.len == n && v.buffer == s + place;
            &&& w.n == n
            &&& at(w.r, 0) && at(w.r_hat, 1) && at(w.p, 2) && at(w.v, 3) && at(w.s, 4)
            &&& at(w.t, 5) && at(w.z_p, 6) && at(w.z_s, 7) && at(w.ax, 8)
            &&& w.reduction.partials == s + 9 && w.reduction.result == s + 10 && w.state == s + 11
            &&& n <= 256 * w.reduction.partial_count
            &&& n > 0 ==> 256 * (w.reduction.partial_count - 1) < n
            &&& n == 0 ==> w.reduction.partial_count == 1
            &&& after.sizes.len() == s + 12
            &&& after.sizes.take(s) == runtime.sizes
            &&& forall|j: int|
                0 <= j < 9 ==> #[trigger] after.sizes[s + j] == if n == 0 {
                    4
                } else {
                    4 * n
                }
            &&& after.sizes[s + 9] == 16 * w.reduction.partial_count
            &&& after.sizes[s + 10] == 16
            &&& after.sizes[s + 11] == 64
            &&& after.commands.len() == k + 21
            &&& after.commands.take(k) == runtime.commands
            &&& forall|j: int|
                0 <= j < 9 ==> #[trigger] after.commands[k + 2 * j + 1] == (CommandView::Submit {
                    label: "zero WebGPU vector"@,
                    encoded: seq![EncodedView::ClearBuffer { buffer: (s + j) as usize }],
                })
            &&& after.id == runtime.id && after.order == runtime.order
        }),
{
    lemma_vectors(runtime, n, 9);
    law_partial_sums(n as nat, super::partial_sums(n as nat) as usize);
    let vectors = super::with_vectors(runtime, n, 9);
    let after = super::with_workspace(runtime, n);
    let (k, s) = (runtime.commands.len() as int, runtime.sizes.len() as int);
    assert(after.commands.take(k) =~= vectors.commands.take(k));
    assert(after.sizes.take(s) =~= vectors.sizes.take(s));
    assert forall|j: int| 0 <= j < 9 implies #[trigger] after.commands[k + 2 * j + 1] == (
    CommandView::Submit {
        label: "zero WebGPU vector"@,
        encoded: seq![EncodedView::ClearBuffer { buffer: (s + j) as usize }],
    }) by {
        assert(after.commands[k + 2 * j + 1] == vectors.commands[k + 2 * j + 1]);
    }
    assert forall|j: int| 0 <= j < 9 implies #[trigger] after.sizes[s + j] == if n == 0 {
        4
    } else {
        4 * n
    } by {
        assert(after.sizes[s + j] == vectors.sizes[s + j]);
    }
}

/// The buffers that a context holds: its parameters, its inverse diagonal if it has one, and those
/// of its workspace if that is in place, each once.
pub proof fn law_buffers_held(context: ContextView, work: WorkspaceView)
    requires
        context.workspace == Some(work),
    ensures
        ({
            let held = super::held_buffers(context);
            let scaled = context.preconditioner is Some && context.preconditioner->0 is Jacobi;
            let from: int = if scaled {
                3
            } else {
                2
            };
            &&& held.len() == from + 12
            &&& held[0] == context.vector_params && held[1] == context.reduction_params
            &&& scaled ==> held[2] == context.preconditioner->0->Jacobi_0.inverse_diagonal
            &&& held.skip(from) == super::workspace_buffers(work)
            &&& held[from] == work.r.buffer && held[from + 1] == work.r_hat.buffer
            &&& held[from + 2] == work.p.buffer && held[from + 3] == work.v.buffer
            &&& held[from + 4] == work.s.buffer && held[from + 5] == work.t.buffer
            &&& held[from + 6] == work.z_p.buffer && held[from + 7] == work.z_s.buffer
            &&& held[from + 8] == work.ax.buffer
            &&& held[from + 9] == work.reduction.partials
            &&& held[from + 10] == work.reduction.result && held[from + 11] == work.state
            &&& super::held_buffers(ContextView { workspace: None, ..context }) == held.take(from)
        }),
{
    let held = super::held_buffers(context);
    let from: int = if context.preconditioner is Some && context.preconditioner->0 is Jacobi {
        3
    } else {
        2
    };
    assert(held.skip(from) =~= super::workspace_buffers(work));
    assert(super::held_buffers(ContextView { workspace: None, ..context }) =~= held.take(from));
}

/// When a solve may start on the device: the bound on the iterations can be counted to exactly in
/// single precision, and the squares of the tolerances and the squared norms are finite there. The
/// doubles that come with it are the squares of the three tolerances.
pub proof fn law_state_refused(
    convergence: Convergence,
    bnorm_squared: u64,
    residual_squared: u64,
) -> (squares: (u64, u64, u64))
    ensures
        crate::portable::squares_to(convergence.rtol, squares.0),
        crate::portable::squares_to(convergence.atol, squares.1),
        crate::portable::squares_to(convergence.dtol, squares.2),
        ({
            let refused = super::encode::state_error(convergence, bnorm_squared, residual_squared);
            let exact = convergence.max_iters <= 16_777_216;
            let small = fits_single(squares.0) && fits_single(squares.1) && fits_single(squares.2);
            &&& refused is None <==> exact && small && fits_single(bnorm_squared) && fits_single(
                residual_squared,
            )
            &&& !exact ==> refused == Some(
                ErrorView::InvalidInput(
                    "WebGPU resident iteration limit "@ + crate::text::decimal(
                        convergence.max_iters as nat,
                    ) + " exceeds exact f32 control range"@,
                ),
            )
            &&& exact && !small ==> refused == Some(
                ErrorView::InvalidInput(
                    "WebGPU squared solver tolerances exceed portable f32 range"@,
                ),
            )
            &&& exact && small && !(fits_single(bnorm_squared) && fits_single(residual_squared))
                ==> refused == Some(
                ErrorView::InvalidInput(
                    "WebGPU resident solver state exceeds portable f32 range"@,
                ),
            )
        }),
{
    let squares = (
        crate::portable::squared(convergence.rtol),
        crate::portable::squared(convergence.atol),
        crate::portable::squared(convergence.dtol),
    );
    crate::portable::lemma_squares(convergence.rtol);
    crate::portable::lemma_squares(convergence.atol);
    crate::portable::lemma_squares(convergence.dtol);
    lemma_finite_single(squares.0);
    lemma_finite_single(squares.1);
    lemma_finite_single(squares.2);
    lemma_finite_single(bnorm_squared);
    lemma_finite_single(residual_squared);
    squares
}

proof fn lemma_finite_single(bits: u64)
    ensures
        super::encode::finite_single(bits) is Some <==> fits_single(bits),
{
    crate::portable::lemma_narrows(bits);
    crate::portable::law_narrow_overflows(bits, crate::portable::narrowed(bits));
}

/// A batch has sixteen iterations, or as many as are left where those are fewer.
pub proof fn law_batch_size(max_iters: usize, completed: usize)
    ensures
        completed + 16 <= max_iters ==> super::session::batch_size(max_iters, completed) == 16,
        completed <= max_iters < completed + 16 ==> super::session::batch_size(max_iters, completed)
            == max_iters - completed,
        max_iters < completed ==> super::session::batch_size(max_iters, completed) == 0,
{
}

/// The count that is taken from a word is the integer nearest to it, halves going up, as far as a
/// `usize` reaches; that of a negative word is zero.
pub proof fn law_counted(word: u32)
    ensures
        word >= 0x8000_0000 ==> super::session::counted(word) == 0,
        word < 0x8000_0000 ==> {
            let one = vstd::arithmetic::power2::pow2(149);
            let twice = 2 * crate::portable::units32(word) + one;
            let count = super::session::counted(word);
            &&& 2 * count * one <= twice
            &&& count < usize::MAX ==> twice < 2 * (count + 1) * one
        },
{
    crate::portable::law_count_is_nearest(word);
    let one = vstd::arithmetic::power2::pow2(149);
    let nearest = crate::portable::nearest_count(word);
    let count = super::session::counted(word);
    assert(2 * count * one <= 2 * nearest * one) by (nonlinear_arith)
        requires
            count <= nearest,
            one >= 0,
    ;
}

/// A solve goes on exactly where the device still marks its state as running and iterations are
/// left.
pub proof fn law_goes_on(words: Seq<u32>, max_iters: usize)
    requires
        words.len() == 16,
    ensures
        super::session::goes_on(words, max_iters) <==> 0x3f00_0000 <= words[12] < 0x8000_0000
            && super::session::counted(words[13]) < max_iters,
{
    crate::portable::law_below_half(words[12]);
}

/// Whether a word is a finite single, told from its pattern.
pub open spec fn is_a_single(word: u32) -> bool {
    word < 0x7f80_0000 || 0x8000_0000 <= word < 0xff80_0000
}

/// Whether a word is an infinite single, told from its pattern.
pub open spec fn is_an_infinity(word: u32) -> bool {
    word == 0x7f80_0000 || word == 0xff80_0000
}

/// Words are refused exactly where one of them is not a finite single: as infinite where all that
/// are not finite are infinite, else as not a number.
pub proof fn law_words_refused(words: Seq<u32>, context: Seq<char>)
    ensures
        super::session::non_finite(words, context) is None <==> forall|i: int|
            0 <= i < words.len() ==> is_a_single(#[trigger] words[i]),
        (exists|i: int|
            0 <= i < words.len() && !is_a_single(#[trigger] words[i]) && !is_an_infinity(words[i]))
            ==> super::session::non_finite(words, context) == Some(
            ErrorView::NonFiniteReduction { kind: NonFiniteKind::Nan, context },
        ),
        (forall|i: int|
            0 <= i < words.len() ==> is_a_single(#[trigger] words[i]) || is_an_infinity(words[i]))
            && (exists|i: int| 0 <= i < words.len() && is_an_infinity(#[trigger] words[i]))
            ==> super::session::non_finite(words, context) == Some(
            ErrorView::NonFiniteReduction { kind: NonFiniteKind::Inf, context },
        ),
{
    assert forall|i: int| 0 <= i < words.len() implies crate::portable::finite32(
        #[trigger] words[i],
    ) == is_a_single(words[i]) && crate::portable::nan32(words[i]) == (!is_a_single(words[i])
        && !is_an_infinity(words[i])) by {}
    if exists|i: int| 0 <= i < words.len() && is_an_infinity(#[trigger] words[i]) {
        let i = choose|i: int| 0 <= i < words.len() && is_an_infinity(#[trigger] words[i]);
        assert(!crate::portable::finite32(words[i]));
    }
}

/// Whether a word is a single that can be a squared norm: finite, and not below zero.
pub open spec fn is_a_square(word: u32) -> bool {
    word < 0x7f80_0000 || word == 0x8000_0000
}

proof fn lemma_norm(word: u32, context: Seq<char>)
    requires
        is_a_single(word),
    ensures
        crate::portable::widens_to(word, crate::portable::widened(word)),
        crate::convergence::norm_error(crate::portable::widened(word), context) is None
            <==> is_a_square(word),
        !is_a_square(word) ==> crate::convergence::norm_error(
            crate::portable::widened(word),
            context,
        ) == Some(
            ErrorView::SolveError(
                FailureView::NegativeNorm { context, square: crate::portable::widened(word) },
            ),
        ),
{
    crate::portable::lemma_widens(word);
    let wide = crate::portable::widened(word);
    crate::portable::law_widen_keeps_the_value(word, wide);
    crate::convergence::law_norms_accepted(wide, context);
    lemma_zero_pattern(word, wide);
}

proof fn lemma_zero_pattern(word: u32, wide: u64)
    requires
        is_a_single(word),
        crate::portable::widens_to(word, wide),
    ensures
        wide == 0x8000_0000_0000_0000 <==> word == 0x8000_0000,
{
    let (m, w) = (crate::portable::magnitude32(word), crate::portable::magnitude64(wide));
    let p = vstd::arithmetic::power2::pow2(925);
    vstd::arithmetic::power2::lemma_pow2_pos(925);
    crate::rounding::lemma_units_of_parts(23, 0, 0);
    crate::rounding::lemma_units_of_parts(52, 0, 0);
    if m > 0 {
        crate::rounding::lemma_units_increase(23, 0, m as nat);
        assert(crate::portable::units32(word) * p > 0) by (nonlinear_arith)
            requires
                crate::portable::units32(word) > 0,
                p > 0,
        ;
    } else {
        assert(crate::portable::units32(word) == 0);
        if w > 0 {
            crate::rounding::lemma_units_increase(52, 0, w as nat);
        }
    }
}

/// The error for a squared norm that came out negative; the double is the word, widened.
pub open spec fn is_negative_norm(error: Option<ErrorView>, context: Seq<char>, word: u32) -> bool {
    error matches Some(ErrorView::SolveError(FailureView::NegativeNorm { context: c, square }))
        && c == context && crate::portable::widens_to(word, square)
}

/// The first sums are accepted exactly where the first three are finite and the first two, which
/// are the squared norms of the right-hand side and of the residual, are not below zero.
pub proof fn law_startup_refused(words: Seq<u32>)
    requires
        words.len() == 4,
    ensures
        ({
            let error = super::session::startup_error(words);
            let finite = is_a_single(words[0]) && is_a_single(words[1]) && is_a_single(words[2]);
            &&& error is None <==> finite && is_a_square(words[0]) && is_a_square(words[1])
            &&& !finite ==> error == super::session::non_finite(
                seq![words[0], words[1], words[2]],
                "WebGPU dot3"@,
            )
            &&& finite && !is_a_square(words[0]) ==> is_negative_norm(
                error,
                "WebGPU BiCGStab right-hand side norm"@,
                words[0],
            )
            &&& finite && is_a_square(words[0]) && !is_a_square(words[1]) ==> is_negative_norm(
                error,
                "WebGPU BiCGStab residual norm"@,
                words[1],
            )
        }),
{
    let three = seq![words[0], words[1], words[2]];
    assert(words.take(3) =~= three);
    law_words_refused(three, "WebGPU dot3"@);
    assert(three[0] == words[0] && three[1] == words[1] && three[2] == words[2]);
    if super::session::non_finite(three, "WebGPU dot3"@) is None {
        assert(is_a_single(three[0]) && is_a_single(three[1]) && is_a_single(three[2]));
        lemma_norm(words[0], "WebGPU BiCGStab right-hand side norm"@);
        lemma_norm(words[1], "WebGPU BiCGStab residual norm"@);
    }
}

/// The last sums are accepted exactly where the first three are finite and the first, which is the
/// squared norm of the true residual, is not below zero.
pub proof fn law_tail_refused(words: Seq<u32>)
    requires
        words.len() == 4,
    ensures
        ({
            let error = super::session::tail_error(words);
            let finite = is_a_single(words[0]) && is_a_single(words[1]) && is_a_single(words[2]);
            &&& error is None <==> finite && is_a_square(words[0])
            &&& !finite ==> error == super::session::non_finite(
                seq![words[0], words[1], words[2]],
                "WebGPU dot3"@,
            )
            &&& finite && !is_a_square(words[0]) ==> is_negative_norm(
                error,
                "WebGPU BiCGStab true residual norm"@,
                words[0],
            )
        }),
{
    let three = seq![words[0], words[1], words[2]];
    assert(words.take(3) =~= three);
    law_words_refused(three, "WebGPU dot3"@);
    assert(three[0] == words[0] && three[1] == words[1] && three[2] == words[2]);
    if super::session::non_finite(three, "WebGPU dot3"@) is None {
        assert(is_a_single(three[0]) && is_a_single(three[1]) && is_a_single(three[2]));
        lemma_norm(words[0], "WebGPU BiCGStab true residual norm"@);
    }
}

/// A solver state is accepted exactly where all its words are finite and, if the solve is to stop,
/// the squared norm of the residual is not below zero.
pub proof fn law_batch_refused(words: Seq<u32>, max_iters: usize)
    requires
        words.len() == 16,
    ensures
        ({
            let error = super::session::batch_error(words, max_iters);
            let finite = forall|i: int| 0 <= i < 16 ==> is_a_single(#[trigger] words[i]);
            let runs = 0x3f00_0000 <= words[12] < 0x8000_0000 && super::session::counted(words[13])
                < max_iters;
            &&& error is None <==> finite && (runs || is_a_square(words[8]))
            &&& !finite ==> error == super::session::non_finite(
                words,
                "resident WebGPU BiCGSTAB state"@,
            )
            &&& finite && !runs && !is_a_square(words[8]) ==> is_negative_norm(
                error,
                "resident WebGPU BiCGStab residual norm"@,
                words[8],
            )
        }),
{
    law_goes_on(words, max_iters);
    law_words_refused(words, "resident WebGPU BiCGSTAB state"@);
    if super::session::non_finite(words, "resident WebGPU BiCGSTAB state"@) is None {
        assert(is_a_single(words[8]));
        lemma_norm(words[8], "resident WebGPU BiCGStab residual norm"@);
    }
}

/// What is kept of a solve that stopped: the count of the device, the reason of the device or,
/// where it gave none, that the iterations ran out, and the root of the squared norm of the device. The
/// double that comes with it is that squared norm.
pub proof fn law_stopped(words: Seq<u32>, rhs_norm: u64, readbacks: usize) -> (square: u64)
    requires
        words.len() == 16,
        is_a_square(words[8]),
    ensures
        ({
            let outcome = super::session::stopped(words, rhs_norm, readbacks);
            let code = words[14];
            &&& outcome.rhs_norm == rhs_norm
            &&& outcome.readbacks == readbacks
            &&& outcome.iterations == super::session::counted(words[13])
            &&& crate::portable::widens_to(words[8], square)
            &&& crate::portable::root_of(square, outcome.recurrence_norm)
            &&& outcome.reason is ConvergedRtol <==> 0x3f00_0000 <= code < 0x3fc0_0000
            &&& outcome.reason is ConvergedAtol <==> 0x3fc0_0000 <= code < 0x4020_0000
            &&& outcome.reason is DivergedDtol <==> 0x4020_0000 <= code < 0x4060_0000
            &&& outcome.reason is DivergedMaxIts <==> 0x4060_0000 <= code < 0x4090_0000 || code
                < 0x3f00_0000 || 0x40f0_0000 <= code
            &&& outcome.reason is DivergedBreakdownBiCG <==> 0x4090_0000 <= code < 0x40b0_0000
            &&& outcome.reason is DivergedNan <==> 0x40b0_0000 <= code < 0x40d0_0000
            &&& outcome.reason is DivergedInf <==> 0x40d0_0000 <= code < 0x40f0_0000
        }),
{
    let square = crate::portable::widened(words[8]);
    lemma_norm(words[8], ""@);
    crate::convergence::law_norms_accepted(square, ""@);
    crate::convergence::law_reason_codes(words[14]);
    crate::portable::lemma_roots(square);
    square
}

/// What is reported of a solve that was over before its first iteration: no iteration, one
/// reduction, and one norm, which is recurred and true.
pub proof fn law_early_report(residual_norm: u64, reason: ConvergedReason)
    ensures
        ({
            let stats = super::session::early_stats(residual_norm, reason);
            &&& stats.iterations == 0
            &&& stats.reason == reason
            &&& stats.final_residual == residual_norm
            &&& stats.final_recurrence_residual == Some(residual_norm)
            &&& stats.final_true_residual == Some(residual_norm)
            &&& stats.num_global_reductions == 1
            &&& stats.reduction_model is None
            &&& stats.effective_variant is None
        }),
{
}

/// What is reported of a solve that iterated: its iterations, the reason it was given, the recurred
/// and the true residual apart, one reduction before, three in and one after the iterations, and
/// the method with the number of its readbacks.
pub proof fn law_final_report(outcome: Outcome, true_residual: u64, reason: ConvergedReason)
    ensures
        ({
            let stats = super::session::final_stats(outcome, true_residual, reason);
            &&& stats.iterations == outcome.iterations
            &&& stats.reason == reason
            &&& stats.final_residual == true_residual
            &&& stats.final_recurrence_residual == Some(outcome.recurrence_norm)
            &&& stats.final_true_residual == Some(true_residual)
            &&& 3 * outcome.iterations + 2 <= usize::MAX ==> stats.num_global_reductions == 3
                * outcome.iterations + 2
            &&& 3 * outcome.iterations + 2 > usize::MAX ==> stats.num_global_reductions
                == usize::MAX
            &&& stats.reduction_model matches Some(model) && model.variant
                == "wgpu-resident-batched-three-reduction-bicgstab"@ && model.startup == 1
                && model.per_iteration == 3 && model.tail == 1
            &&& stats.effective_variant == Some(
                "wgpu-resident-right-bicgstab-batch-16-readbacks-"@ + crate::text::decimal(
                    outcome.readbacks as nat,
                ),
            )
        }),
{
}

/// What is read back: the four sums of the last reduction, or the sixteen words of the state, each
/// whole and through a staging buffer of its size that can be mapped.
pub proof fn law_readbacks(request: crate::runtime::ReadRequest, solve: SolveView)
    ensures
        super::session::reads_sums(request, solve) <==> request.source
            == solve.workspace.reduction.result && request.byte_count == 16 && request.staging_size
            == 16 && request.staging_usage == 9 && request.operation@ == "read WebGPU dot3"@,
        super::session::reads_state(request, solve) <==> request.source == solve.workspace.state
            && request.byte_count == 64 && request.staging_size == 64 && request.staging_usage == 9
            && request.operation@ == "read resident BiCGSTAB batch state"@,
{
}

/// A solve is accepted exactly where its preparation is, the vectors have the dimensions of the
/// operator and belong to the runtime of the context, and the device can index the system.
pub proof fn law_solve_accepted(
    context: ContextView,
    dims: (usize, usize),
    b: VectorView,
    x: VectorView,
)
    requires
        context.valid(),
    ensures
        super::session::solve_error(context, dims, b, x) is None <==> {
            &&& super::setup_error(context, dims) is None
            &&& context.operator matches Some(operator) && b.len == operator.nrows && x.len
                == operator.nrows && operator.nrows <= 0xffff_ffff
            &&& b.runtime == context.runtime
            &&& x.runtime == context.runtime
        },
        super::setup_error(context, dims) is Some ==> super::session::solve_error(
            context,
            dims,
            b,
            x,
        ) == super::setup_error(context, dims),
        super::setup_error(context, dims) is None ==> {
            let operator = context.operator->0;
            let error = super::session::solve_error(context, dims, b, x);
            let sized = b.len == operator.nrows && x.len == operator.ncols;
            &&& !sized ==> error == Some(
                ErrorView::InvalidInput(
                    "WebGPU solve dimensions require b="@ + crate::text::decimal(
                        operator.nrows as nat,
                    ) + ", x="@ + crate::text::decimal(operator.ncols as nat) + "; got b="@
                        + crate::text::decimal(b.len as nat) + ", x="@ + crate::text::decimal(
                        x.len as nat,
                    ),
                ),
            )
            &&& sized && b.runtime != x.runtime ==> error == crate::vector::compatibility_error(
                b,
                x,
            )
        },
{
    if let Some(operator) = context.operator {
        let ax = VectorView { runtime: context.runtime, buffer: 0, len: operator.nrows };
        crate::operator::law_product_accepted(operator, x, ax);
        crate::vector::law_vectors_compatible(b, x);
        if operator.nrows <= u32::MAX {
            super::encode::lemma_groups_fit(operator.nrows as nat, 128);
        }
    }
}

/// A solve that is refused although the context could be prepared and the vectors fit says so: the
/// vectors belong to another runtime, or the system is too long for the device.
pub proof fn law_solve_misplaced(
    context: ContextView,
    dims: (usize, usize),
    b: VectorView,
    x: VectorView,
)
    requires
        context.valid(),
        super::setup_error(context, dims) is None,
        b.len == context.operator->0.nrows,
        x.len == context.operator->0.nrows,
        b.runtime == x.runtime,
    ensures
        x.runtime != context.runtime ==> super::session::solve_error(context, dims, b, x) == Some(
            ErrorView::Wgpu {
                kind: crate::error::WgpuErrorKind::DeviceMismatch,
                operation: "apply WebGPU CSR operator"@,
                message: "operator and vectors belong to different WebGPU runtimes"@,
            },
        ),
        x.runtime == context.runtime && 0xffff_ffff < b.len <= 128 * 0xffff_ffff
            ==> super::session::solve_error(context, dims, b, x) == Some(
            ErrorView::InvalidInput("WebGPU vector length exceeds u32"@),
        ),
{
    let operator = context.operator->0;
    let ax = VectorView { runtime: context.runtime, buffer: 0, len: operator.nrows };
    crate::operator::law_product_accepted(operator, x, ax);
    crate::vector::law_vectors_compatible(b, x);
}

/// A solve that is refused leaves the context prepared or untouched: no setting changes, and the
/// workspace stays with the context. Vectors that do not fit leave the runtime as the preparation
/// left it; a system too long for the device is refused after two submissions.
pub proof fn law_refusal_keeps_context(
    context: ContextView,
    runtime: RuntimeView,
    dims: (usize, usize),
    b: VectorView,
    x: VectorView,
    context_after: ContextView,
    runtime_after: RuntimeView,
)
    requires
        context.valid(),
        runtime.id == context.runtime,
        super::session::refused(context, runtime, dims, b, x, context_after, runtime_after),
    ensures
        context_after.runtime == context.runtime && context_after.operator == context.operator,
        context_after.pc_type == context.pc_type && context_after.custom == context.custom,
        context_after.convergence == context.convergence,
        context_after.vector_params == context.vector_params,
        context_after.reduction_params == context.reduction_params,
        context.workspace is Some ==> context_after.workspace == context.workspace,
        context.preconditioner is Some ==> context_after.preconditioner == context.preconditioner,
        super::setup_error(context, dims) is Some ==> context_after == context && runtime_after
            == runtime,
        super::setup_error(context, dims) is None ==> {
            let operator = context.operator->0;
            &&& context_after == super::prepared(context, runtime)
            &&& b.len != operator.nrows || x.len != operator.nrows || b.runtime != x.runtime
                || x.runtime != context.runtime ==> runtime_after == super::with_setup(
                context,
                runtime,
            )
            &&& b.len == operator.nrows && x.len == operator.nrows && b.runtime == x.runtime
                && x.runtime == context.runtime && operator.nrows <= 128 * 0xffff_ffff ==> {
                let set = super::with_setup(context, runtime).commands;
                &&& runtime_after.commands.len() == set.len() + 2
                &&& runtime_after.commands.take(set.len() as int) == set
            }
        },
{
    if super::setup_error(context, dims) is None {
        let work = super::prepared(context, runtime).workspace->0;
        crate::operator::law_product_accepted(context.operator->0, x, work.ax);
        crate::vector::law_vectors_compatible(b, x);
        super::lemma_setup_runtime(context, runtime);
        let set = super::with_setup(context, runtime).commands;
        if runtime_after.commands.len() == set.len() + 2 {
            assert(runtime_after.commands.take(set.len() as int) =~= set);
        }
    }
}

/// The vectors of a host system stand in two new buffers, the right-hand side in the first and the
/// guess in the second, each of its own length and holding its own entries.
pub proof fn law_host_system_uploaded(runtime: RuntimeView, b: Seq<u64>, x: Seq<u64>)
    requires
        runtime.sizes.len() + 1 <= usize::MAX,
        4 * b.len() <= usize::MAX,
        4 * x.len() <= usize::MAX,
    ensures
        ({
            let after = super::session::with_host_vectors(runtime, b, x);
            let (right, guess) = super::session::host_vectors(runtime, b, x);
            let (k, s) = (runtime.commands.len() as int, runtime.sizes.len() as int);
            let order = runtime.order;
            &&& right.runtime == runtime.id && right.buffer == s && right.len == b.len()
            &&& guess.runtime == runtime.id && guess.buffer == s + 1 && guess.len == x.len()
            &&& after.commands.len() == k + 2
            &&& after.commands.take(k) == runtime.commands
            &&& after.commands[k] matches CommandView::CreateBufferInit {
                buffer,
                contents,
                usage,
                ..
            } && buffer == s && contents == crate::vector::upload(order, b) && usage == 140
            &&& after.commands[k + 1] matches CommandView::CreateBufferInit {
                buffer,
                contents,
                usage,
                ..
            } && buffer == s + 1 && contents == crate::vector::upload(order, x) && usage == 140
            &&& after.sizes.len() == s + 2
            &&& after.id == runtime.id && after.order == order
        }),
{
    let after = super::session::with_host_vectors(runtime, b, x);
    let k = runtime.commands.len() as int;
    assert(after.commands.take(k) =~= runtime.commands);
}

/// A host system is accepted exactly where every number of both vectors is a finite single once
/// rounded, the preparation is accepted, both vectors have the length of the system and the device
/// can index it. Bad numbers of the right-hand side are named first, then those of the guess.
pub proof fn law_host_system_accepted(
    context: ContextView,
    runtime: RuntimeView,
    dims: (usize, usize),
    b: Seq<u64>,
    x: Seq<u64>,
)
    requires
        context.valid(),
        runtime.id == context.runtime,
        b.len() <= usize::MAX,
        x.len() <= usize::MAX,
    ensures
        super::session::host_error(context, runtime, dims, b, x) is None <==> {
            &&& forall|i: int| 0 <= i < b.len() ==> fits_single(#[trigger] b[i])
            &&& forall|i: int| 0 <= i < x.len() ==> fits_single(#[trigger] x[i])
            &&& super::setup_error(context, dims) is None
            &&& context.operator matches Some(operator) && b.len() == operator.nrows && x.len()
                == operator.nrows && operator.nrows <= 0xffff_ffff
        },
        crate::vector::host_vector_error(b) is Some ==> super::session::host_error(
            context,
            runtime,
            dims,
            b,
            x,
        ) == crate::vector::host_vector_error(b),
        crate::vector::host_vector_error(b) is None && crate::vector::host_vector_error(x) is Some
            ==> super::session::host_error(context, runtime, dims, b, x)
            == crate::vector::host_vector_error(x),
{
    let (right, guess) = super::session::host_vectors(runtime, b, x);
    crate::vector::law_host_vector_accepted(b);
    crate::vector::law_host_vector_accepted(x);
    law_solve_accepted(context, dims, right, guess);
}

/// A host system whose numbers are refused leaves the context untouched, and records at most the
/// upload of a right-hand side that was accepted.
pub proof fn law_host_refusal(
    context: ContextView,
    runtime: RuntimeView,
    dims: (usize, usize),
    b: Seq<u64>,
    x: Seq<u64>,
    context_after: ContextView,
    runtime_after: RuntimeView,
)
    requires
        super::session::host_refused(context, runtime, dims, b, x, context_after, runtime_after),
    ensures
        crate::vector::host_vector_error(b) is Some ==> context_after == context && runtime_after
            == runtime,
        crate::vector::host_vector_error(b) is None && crate::vector::host_vector_error(x) is Some
            ==> {
            &&& context_after == context
            &&& runtime_after.commands.len() == runtime.commands.len() + 1
            &&& runtime_after.commands.drop_last() == runtime.commands
            &&& runtime_after.commands.last() matches CommandView::CreateBufferInit {
                contents,
                ..
            } && contents == crate::vector::upload(runtime.order, b)
        },
        crate::vector::host_vector_error(b) is None && crate::vector::host_vector_error(x) is None
            ==> {
            let (right, guess) = super::session::host_vectors(runtime, b, x);
            super::session::refused(
                context,
                super::session::with_host_vectors(runtime, b, x),
                dims,
                right,
                guess,
                context_after,
                runtime_after,
            )
        },
{
    if crate::vector::host_vector_error(b) is None && crate::vector::host_vector_error(x) is Some {
        assert(runtime_after.commands.drop_last() =~= runtime.commands);
    }
}

/// A solve that ends gives the workspace back and changes nothing else.
pub proof fn law_workspace_given_back(context: ContextView, solve: SolveView)
    ensures
        ({
            let after = super::session::returned(context, solve);
            &&& after.workspace == Some(solve.workspace)
            &&& after.runtime == context.runtime && after.operator == context.operator
            &&& after.pc_type == context.pc_type && after.custom == context.custom
            &&& after.preconditioner == context.preconditioner
            &&& after.convergence == context.convergence
            &&& after.vector_params == context.vector_params
            &&& after.reduction_params == context.reduction_params
        }),
{
}

/// A caller's preconditioner is asked for its dimensions where it is there and there is an operator
/// to compare them with, and only there.
pub proof fn law_dimensions_asked(context: ContextView, dims: (usize, usize))
    ensures
        super::reported(context, dims) <==> context.custom is None || context.operator is None
            || context.custom->0.reports(dims),
{
}

} // verus!
