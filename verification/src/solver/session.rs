//! A solve, step by step.
//!
//! The device answers between the steps: whoever drives a solve carries out the recorded
//! commands, reads back what a step asks for, judges convergence where a step asks for that, and
//! hands the answer to the next step.
use super::encode::{Pairs, Recording, MINUS_ONE, ONE};
use super::{
    BiCgStabWorkspace, ContextView, WgpuKspContext, WorkspaceView, RESIDENT_BATCH_SIZE,
    RESIDENT_STATE_LEN,
};
use crate::command::CommandEncoder;
use crate::convergence::{
    checked_norm, resident_reason, ConvergedReason, ReductionModel, SolveStats, SolverCounters,
};
use crate::error::{KError, NonFiniteKind, SolveFailure};
use crate::operator::WgpuCsrOp;
use crate::portable::{count_from_single, is_below_half, is_finite32, is_nan32, widen};
use crate::runtime::{ReadRequest, WgpuRuntime};
use crate::text::decimal_text;
use crate::vector::WgpuVector;
use std::sync::Arc;
use vstd::prelude::*;
use vstd::string::StringExecFns;

verus! {

/// A solve that is under way.
#[derive(Debug)]
pub struct Solve {
    operator: Arc<WgpuCsrOp>,
    b: WgpuVector,
    x: WgpuVector,
    workspace: BiCgStabWorkspace,
}

/// A solve under way, as its contracts see it.
pub ghost struct SolveView {
    pub operator: crate::operator::OperatorView,
    pub b: crate::vector::VectorView,
    pub x: crate::vector::VectorView,
    pub workspace: WorkspaceView,
}

impl View for Solve {
    type V = SolveView;

    closed spec fn view(&self) -> SolveView {
        SolveView {
            operator: self.operator@,
            b: self.b@,
            x: self.x@,
            workspace: self.workspace@,
        }
    }
}

impl SolveView {
    /// Whether this is a solve of the context, which has lent its workspace to it.
    pub open spec fn active(self, context: ContextView) -> bool {
        &&& context.valid()
        &&& context.operator == Some(self.operator)
        &&& context.workspace is None
        &&& super::encode::iterable(context, self.operator, self.workspace, self.x)
        &&& self.b.runtime == context.runtime
        &&& self.b.len == self.workspace.n
    }
}

/// The context after a solve has given its workspace back.
pub open spec fn returned(context: ContextView, solve: SolveView) -> ContextView {
    ContextView { workspace: Some(solve.workspace), ..context }
}

/// The runtime after the residual `r = b - A x` has been computed.
pub open spec fn with_residual(
    runtime: crate::runtime::RuntimeView,
    context: ContextView,
    solve: SolveView,
) -> crate::runtime::RuntimeView {
    let w = solve.workspace;
    super::encode::with_axpby(
        super::encode::with_copy(
            crate::operator::with_product(runtime, solve.operator, solve.x, w.ax),
            solve.b,
            w.r,
        ),
        context.vector_params,
        MINUS_ONE,
        w.ax,
        ONE,
        w.r,
    )
}

/// The runtime after the first commands of a solve.
pub open spec fn with_startup(
    runtime: crate::runtime::RuntimeView,
    context: ContextView,
    solve: SolveView,
) -> crate::runtime::RuntimeView {
    let w = solve.workspace;
    super::encode::with_dot3(
        super::encode::with_copy(
            super::encode::with_copy(with_residual(runtime, context, solve), w.r, w.r_hat),
            w.r,
            w.p,
        ),
        context.reduction_params,
        super::encode::pairs(solve.b, solve.b, w.r, w.r, w.r, w.r),
        w.reduction,
    )
}

/// The runtime after the last commands of a solve.
pub open spec fn with_tail(
    runtime: crate::runtime::RuntimeView,
    context: ContextView,
    solve: SolveView,
) -> crate::runtime::RuntimeView {
    let w = solve.workspace;
    super::encode::with_dot3(
        with_residual(runtime, context, solve),
        context.reduction_params,
        super::encode::pairs(w.r, w.r, w.r, w.r, w.r, w.r),
        w.reduction,
    )
}

/// Whether a request reads back the sums of a reduction.
pub open spec fn reads_sums(request: ReadRequest, solve: SolveView) -> bool {
    &&& request.source == solve.workspace.reduction.result
    &&& request.byte_count == 16
    &&& request.staging_size == 16
    &&& request.staging_usage == crate::runtime::READBACK_USAGE
    &&& request.operation@ == "read WebGPU dot3"@
}

/// Whether a request reads back the solver state.
pub open spec fn reads_state(request: ReadRequest, solve: SolveView) -> bool {
    &&& request.source == solve.workspace.state
    &&& request.byte_count == 64
    &&& request.staging_size == 64
    &&& request.staging_usage == crate::runtime::READBACK_USAGE
    &&& request.operation@ == "read resident BiCGSTAB batch state"@
}

/// The error with which a solve is refused, if it is. `custom_dims` are the dimensions that the
/// caller's preconditioner reports.
pub open spec fn solve_error(
    context: ContextView,
    custom_dims: (usize, usize),
    b: crate::vector::VectorView,
    x: crate::vector::VectorView,
) -> Option<crate::error::ErrorView> {
    let operator = context.operator->0;
    let ax = crate::vector::VectorView { runtime: context.runtime, buffer: 0, len: operator.nrows };
    if super::setup_error(context, custom_dims) is Some {
        super::setup_error(context, custom_dims)
    } else if b.len != operator.nrows || x.len != operator.ncols {
        Some(
            crate::error::ErrorView::InvalidInput(
                "WebGPU solve dimensions require b="@ + crate::text::decimal(
                    operator.nrows as nat,
                ) + ", x="@ + crate::text::decimal(operator.ncols as nat) + "; got b="@
                    + crate::text::decimal(b.len as nat) + ", x="@ + crate::text::decimal(
                    x.len as nat,
                ),
            ),
        )
    } else if crate::vector::compatibility_error(b, x) is Some {
        crate::vector::compatibility_error(b, x)
    } else if crate::operator::product_error(operator, x, ax) is Some {
        crate::operator::product_error(operator, x, ax)
    } else if operator.nrows > u32::MAX {
        Some(crate::error::ErrorView::InvalidInput("WebGPU vector length exceeds u32"@))
    } else {
        None
    }
}

/// What a solve that is refused leaves behind: the context and the runtime are as a preparation
/// left them, unless that is what was refused. Systems too long for the device are refused after
/// the first two commands.
pub open spec fn refused(
    context: ContextView,
    runtime: crate::runtime::RuntimeView,
    custom_dims: (usize, usize),
    b: crate::vector::VectorView,
    x: crate::vector::VectorView,
    context_after: ContextView,
    runtime_after: crate::runtime::RuntimeView,
) -> bool {
    if super::setup_error(context, custom_dims) is Some {
        &&& context_after == context
        &&& runtime_after == runtime
    } else {
        let ready = super::prepared(context, runtime);
        let set = super::with_setup(context, runtime);
        let operator = ready.operator->0;
        let work = ready.workspace->0;
        &&& context_after == ready
        &&& runtime_after == if b.len == operator.nrows && x.len == operator.ncols
            && crate::vector::compatibility_error(b, x) is None && crate::operator::product_error(
            operator,
            x,
            work.ax,
        ) is None {
            super::encode::with_copy(
                crate::operator::with_product(set, operator, x, work.ax),
                b,
                work.r,
            )
        } else {
            set
        }
    }
}

/// The coefficients of the residual are singles.
pub(super) proof fn lemma_unit_coefficients()
    ensures
        super::encode::finite_single(ONE) == Some(0x3f80_0000u32),
        super::encode::finite_single(MINUS_ONE) == Some(0xbf80_0000u32),
{
    vstd::arithmetic::power2::lemma2_to64();
    vstd::arithmetic::power2::lemma2_to64_rest();
    crate::rounding::lemma_units_of_parts(23, 126, 0x80_0000);
    crate::rounding::lemma_units_of_parts(52, 1022, 0x10_0000_0000_0000);
    vstd::arithmetic::power2::lemma_pow2_adds(23, 126);
    vstd::arithmetic::power2::lemma_pow2_adds(149, 925);
    vstd::arithmetic::power2::lemma_pow2_adds(52, 1022);
    assert(crate::rounding::units(23, 0x3f80_0000) == vstd::arithmetic::power2::pow2(149));
    assert(crate::rounding::units(52, 0x3ff0_0000_0000_0000) == vstd::arithmetic::power2::pow2(
        1074,
    ));
    assert(crate::portable::widens_to(0x3f80_0000, ONE));
    assert(crate::portable::widens_to(0xbf80_0000, MINUS_ONE));
    crate::portable::law_narrow_undoes_widen(0x3f80_0000, ONE);
    crate::portable::law_narrow_undoes_widen(0xbf80_0000, MINUS_ONE);
}

/// A solve whose first sums are being read back.
#[derive(Debug)]
pub struct StartupRead {
    solve: Solve,
    request: ReadRequest,
}

impl StartupRead {
    /// The solve.
    pub closed spec fn solve(&self) -> SolveView {
        self.solve@
    }

    /// What is to be read back.
    pub closed spec fn asks(&self) -> ReadRequest {
        self.request
    }

    /// The buffers of the workspace that the context has lent to this solve.
    pub fn device_buffers(&self) -> (r: Vec<usize>)
        ensures
            r@ == super::workspace_buffers(self.solve().workspace),
    {
        self.solve.workspace.device_buffers()
    }

    /// What is to be read back.
    pub fn request(&self) -> (r: &ReadRequest)
        ensures
            *r == self.asks(),
    {
        &self.request
    }
}

impl WgpuKspContext {
    /// Starts the solution of one device-resident system. Matrix, vectors and scalar recurrence
    /// stay on the device; the host reads the compact solver state once per bounded batch and
    /// performs one explicit true-residual check at the end.
    pub fn solve(&mut self, runtime: &mut WgpuRuntime, b: &WgpuVector, x: &WgpuVector) -> (r:
        Result<StartupRead, KError>)
        requires
            old(self)@.valid(),
            old(runtime)@.id == old(self)@.runtime,
        ensures
            exists|custom_dims: (usize, usize)|
                #[trigger] solve_error(old(self)@, custom_dims, b@, x@) == crate::error::failure(r)
                    && super::reported(old(self)@, custom_dims) && (r is Err ==> refused(
                    old(self)@,
                    old(runtime)@,
                    custom_dims,
                    b@,
                    x@,
                    final(self)@,
                    final(runtime)@,
                )),
            final(self)@.valid(),
            final(runtime)@.id == old(runtime)@.id,
            r matches Ok(phase) ==> {
                let ready = super::prepared(old(self)@, old(runtime)@);
                &&& phase.solve() == (SolveView {
                    operator: ready.operator->0,
                    b: b@,
                    x: x@,
                    workspace: ready.workspace->0,
                })
                &&& phase.solve().active(final(self)@)
                &&& reads_sums(phase.asks(), phase.solve())
                &&& final(self)@ == (ContextView { workspace: None, ..ready })
                &&& final(runtime)@ == with_startup(
                    super::with_setup(old(self)@, old(runtime)@),
                    ready,
                    phase.solve(),
                )
            },
    {
        let custom_dims: (usize, usize) = self.custom_dims();
        self.solve_with(runtime, custom_dims, b, x)
    }

    /// Starts a solve, where the caller's preconditioner, if there is one, has reported the
    /// dimensions `custom_dims`.
    pub fn solve_with(
        &mut self,
        runtime: &mut WgpuRuntime,
        custom_dims: (usize, usize),
        b: &WgpuVector,
        x: &WgpuVector,
    ) -> (r: Result<StartupRead, KError>)
        requires
            old(self)@.valid(),
            old(runtime)@.id == old(self)@.runtime,
        ensures
            solve_error(old(self)@, custom_dims, b@, x@) == crate::error::failure(r),
            final(self)@.valid(),
            final(runtime)@.id == old(runtime)@.id,
            match r {
                Ok(phase) => {
                    let ready = super::prepared(old(self)@, old(runtime)@);
                    &&& phase.solve() == (SolveView {
                        operator: ready.operator->0,
                        b: b@,
                        x: x@,
                        workspace: ready.workspace->0,
                    })
                    &&& phase.solve().active(final(self)@)
                    &&& reads_sums(phase.asks(), phase.solve())
                    &&& final(self)@ == (ContextView { workspace: None, ..ready })
                    &&& final(runtime)@ == with_startup(
                        super::with_setup(old(self)@, old(runtime)@),
                        ready,
                        phase.solve(),
                    )
                },
                Err(_) => refused(
                    old(self)@,
                    old(runtime)@,
                    custom_dims,
                    b@,
                    x@,
                    final(self)@,
                    final(runtime)@,
                ),
            },
    {
        match self.setup_with(runtime, custom_dims) {
            Ok(_) => {},
            Err(error) => {
                return Err(error);
            },
        }
        proof {
            super::lemma_setup_runtime(old(self)@, old(runtime)@);
        }
        let operator: Arc<WgpuCsrOp> = match &self.operator {
            Some(operator) => operator.clone(),
            None => {
                return Err(KError::InvalidInput("WebGPU operator is not set".to_owned()));
            },
        };
        let (rows, cols) = operator.dims();
        if b.len() != rows || x.len() != cols {
            let mut text = "WebGPU solve dimensions require b=".to_owned();
            text.append(decimal_text(rows).as_str());
            text.append(", x=");
            text.append(decimal_text(cols).as_str());
            text.append("; got b=");
            text.append(decimal_text(b.len()).as_str());
            text.append(", x=");
            text.append(decimal_text(x.len()).as_str());
            return Err(KError::InvalidInput(text));
        }
        match b.ensure_compatible(x) {
            Ok(_) => {},
            Err(error) => {
                return Err(error);
            },
        }
        let workspace = match self.workspace.take() {
            Some(workspace) => workspace,
            None => {
                return Err(
                    KError::SolveError(
                        SolveFailure::Text(
                            "WebGPU solver workspace was not initialized".to_owned(),
                        ),
                    ),
                );
            },
        };
        let solve = Solve { operator, b: *b, x: *x, workspace };
        match self.start_bicgstab(runtime, &solve) {
            Ok(request) => Ok(StartupRead { solve, request }),
            Err(error) => {
                self.workspace = Some(solve.workspace);
                Err(error)
            },
        }
    }

    /// Records the first commands of a solve.
    fn start_bicgstab(&self, runtime: &mut WgpuRuntime, solve: &Solve) -> (r: Result<
        ReadRequest,
        KError,
    >)
        requires
            old(runtime)@.id == self@.runtime,
            solve@.operator.runtime == self@.runtime,
            solve@.operator.nrows == solve@.operator.ncols,
            solve@.operator.nrows == solve@.workspace.n,
            solve@.workspace.valid(self@.runtime),
            solve@.b.len == solve@.workspace.n,
            solve@.x.len == solve@.workspace.n,
            solve@.b.runtime == solve@.x.runtime,
        ensures
            match r {
                Ok(request) => {
                    &&& crate::operator::product_error(
                        solve@.operator,
                        solve@.x,
                        solve@.workspace.ax,
                    ) is None
                    &&& solve@.workspace.n <= u32::MAX
                    &&& reads_sums(request, solve@)
                    &&& final(runtime)@ == with_startup(old(runtime)@, self@, solve@)
                },
                Err(e) => {
                    let refused = crate::operator::product_error(
                        solve@.operator,
                        solve@.x,
                        solve@.workspace.ax,
                    );
                    if refused is Some {
                        &&& refused == Some(e@)
                        &&& final(runtime)@ == old(runtime)@
                    } else {
                        &&& solve@.workspace.n > u32::MAX
                        &&& e@ == crate::error::ErrorView::InvalidInput(
                            "WebGPU vector length exceeds u32"@,
                        )
                        &&& final(runtime)@ == super::encode::with_copy(
                            crate::operator::with_product(
                                old(runtime)@,
                                solve@.operator,
                                solve@.x,
                                solve@.workspace.ax,
                            ),
                            solve@.b,
                            solve@.workspace.r,
                        )
                    }
                },
            },
    {
        let work = &solve.workspace;
        match self.compute_residual(runtime, solve) {
            Ok(_) => {},
            Err(error) => {
                return Err(error);
            },
        }
        let copied = self.copy(runtime, &work.r, &work.r_hat);
        assert(copied is Ok);
        let copied = self.copy(runtime, &work.r, &work.p);
        assert(copied is Ok);
        proof {
            super::encode::lemma_groups_fit(work@.n as nat, 256);
        }
        let sums = Pairs {
            x0: &solve.b,
            y0: &solve.b,
            x1: &work.r,
            y1: &work.r,
            x2: &work.r,
            y2: &work.r,
        };
        self.dot3(runtime, &sums, &work.reduction)
    }

    /// Records the computation of the residual.
    fn compute_residual(&self, runtime: &mut WgpuRuntime, solve: &Solve) -> (r: Result<
        (),
        KError,
    >)
        requires
            old(runtime)@.id == self@.runtime,
            solve@.operator.runtime == self@.runtime,
            solve@.operator.nrows == solve@.operator.ncols,
            solve@.operator.nrows == solve@.workspace.n,
            solve@.workspace.valid(self@.runtime),
            solve@.b.len == solve@.workspace.n,
            solve@.x.len == solve@.workspace.n,
            solve@.b.runtime == solve@.x.runtime,
        ensures
            match r {
                Ok(_) => {
                    &&& crate::operator::product_error(
                        solve@.operator,
                        solve@.x,
                        solve@.workspace.ax,
                    ) is None
                    &&& solve@.workspace.n <= u32::MAX
                    &&& final(runtime)@ == with_residual(old(runtime)@, self@, solve@)
                },
                Err(e) => {
                    let refused = crate::operator::product_error(
                        solve@.operator,
                        solve@.x,
                        solve@.workspace.ax,
                    );
                    if refused is Some {
                        &&& refused == Some(e@)
                        &&& final(runtime)@ == old(runtime)@
                    } else {
                        &&& solve@.workspace.n > u32::MAX
                        &&& e@ == crate::error::ErrorView::InvalidInput(
                            "WebGPU vector length exceeds u32"@,
                        )
                        &&& final(runtime)@ == super::encode::with_copy(
                            crate::operator::with_product(
                                old(runtime)@,
                                solve@.operator,
                                solve@.x,
                                solve@.workspace.ax,
                            ),
                            solve@.b,
                            solve@.workspace.r,
                        )
                    }
                },
            },
    {
        let work = &solve.workspace;
        match solve.operator.apply(runtime, &solve.x, &work.ax) {
            Ok(_) => {},
            Err(error) => {
                return Err(error);
            },
        }
        match self.copy(runtime, &solve.b, &work.r) {
            Ok(_) => {},
            Err(error) => {
                return Err(error);
            },
        }
        proof {
            lemma_unit_coefficients();
        }
        self.axpby(runtime, MINUS_ONE, &work.ax, ONE, &work.r)
    }
}

/// The error for words among which one is not a finite number, if there is one.
pub open spec fn non_finite(words: Seq<u32>, context: Seq<char>) -> Option<
    crate::error::ErrorView,
> {
    if forall|i: int| 0 <= i < words.len() ==> crate::portable::finite32(#[trigger] words[i]) {
        None
    } else {
        Some(
            crate::error::ErrorView::NonFiniteReduction {
                kind: if exists|i: int|
                    0 <= i < words.len() && crate::portable::nan32(#[trigger] words[i]) {
                    NonFiniteKind::Nan
                } else {
                    NonFiniteKind::Inf
                },
                context,
            },
        )
    }
}

/// Refuses words of which one of the first `count` is not a finite number.
fn check_finite(words: &Vec<u32>, count: usize, context: &'static str) -> (r: Result<(), KError>)
    requires
        count <= words@.len(),
    ensures
        non_finite(words@.take(count as int), context@) == crate::error::failure(r),
        r is Ok ==> forall|i: int|
            0 <= i < count ==> crate::portable::finite32(#[trigger] words@[i]),
{
    let mut finite: bool = true;
    let mut nan: bool = false;
    let mut i: usize = 0;
    while i < count
        invariant
            i <= count <= words@.len(),
            finite == (forall|j: int|
                0 <= j < i ==> crate::portable::finite32(#[trigger] words@[j])),
            nan == (exists|j: int| 0 <= j < i && crate::portable::nan32(#[trigger] words@[j])),
        decreases count - i,
    {
        if !is_finite32(words[i]) {
            finite = false;
        }
        if is_nan32(words[i]) {
            nan = true;
        }
        i = i + 1;
    }
    let ghost front = words@.take(count as int);
    assert(forall|j: int| 0 <= j < count ==> front[j] == words@[j]);
    if finite {
        return Ok(());
    }
    assert(!(forall|j: int|
        0 <= j < front.len() ==> crate::portable::finite32(#[trigger] front[j]))) by {
        let j = choose|j: int| 0 <= j < count && !crate::portable::finite32(#[trigger] words@[j]);
        assert(!crate::portable::finite32(front[j]));
    }
    if nan {
        proof {
            let j = choose|j: int| 0 <= j < count && crate::portable::nan32(#[trigger] words@[j]);
            assert(crate::portable::nan32(front[j]));
        }
        Err(KError::NonFiniteReduction { kind: NonFiniteKind::Nan, context })
    } else {
        Err(KError::NonFiniteReduction { kind: NonFiniteKind::Inf, context })
    }
}

/// A residual norm whose convergence is to be judged, as bit patterns of doubles.
#[derive(Clone, Copy, Debug, PartialEq, Eq, Structural)]
pub struct CheckRequest {
    pub residual: u64,
    pub rhs: u64,
    pub iterations: usize,
}

/// A solve whose first residual is being judged.
#[derive(Debug)]
pub struct StartupCheck {
    solve: Solve,
    rhs_squared: u64,
    residual_squared: u64,
    rhs_norm: u64,
    residual_norm: u64,
}

impl StartupCheck {
    /// The solve.
    pub closed spec fn solve(&self) -> SolveView {
        self.solve@
    }

    /// The squared norm of the right-hand side.
    pub closed spec fn rhs_squared(&self) -> u64 {
        self.rhs_squared
    }

    /// The squared norm of the residual.
    pub closed spec fn residual_squared(&self) -> u64 {
        self.residual_squared
    }

    /// The norm of the right-hand side.
    pub closed spec fn rhs_norm(&self) -> u64 {
        self.rhs_norm
    }

    /// The norm of the residual.
    pub closed spec fn residual_norm(&self) -> u64 {
        self.residual_norm
    }

    /// What is to be judged.
    pub fn check(&self) -> (r: CheckRequest)
        ensures
            r == (CheckRequest {
                residual: self.residual_norm(),
                rhs: self.rhs_norm(),
                iterations: 0,
            }),
    {
        CheckRequest { residual: self.residual_norm, rhs: self.rhs_norm, iterations: 0 }
    }
}

/// A solve whose state is being read back after a batch of iterations.
#[derive(Debug)]
pub struct BatchRead {
    solve: Solve,
    rhs_norm: u64,
    readbacks: usize,
    request: ReadRequest,
}

impl BatchRead {
    /// The solve.
    pub closed spec fn solve(&self) -> SolveView {
        self.solve@
    }

    /// The norm of the right-hand side.
    pub closed spec fn rhs_norm(&self) -> u64 {
        self.rhs_norm
    }

    /// How many batches have been read back.
    pub closed spec fn readbacks(&self) -> usize {
        self.readbacks
    }

    /// What is to be read back.
    pub closed spec fn asks(&self) -> ReadRequest {
        self.request
    }

    /// What is to be read back.
    pub fn request(&self) -> (r: &ReadRequest)
        ensures
            *r == self.asks(),
    {
        &self.request
    }
}

/// What an iteration left behind, before its residual has been computed anew.
#[derive(Clone, Copy, Debug, PartialEq, Eq, Structural)]
pub struct Outcome {
    pub rhs_norm: u64,
    pub iterations: usize,
    pub reason: ConvergedReason,
    pub recurrence_norm: u64,
    pub readbacks: usize,
}

/// A solve whose true residual is being read back.
#[derive(Debug)]
pub struct TailRead {
    solve: Solve,
    outcome: Outcome,
    request: ReadRequest,
}

impl TailRead {
    /// The solve.
    pub closed spec fn solve(&self) -> SolveView {
        self.solve@
    }

    /// What the iteration left behind.
    pub closed spec fn outcome(&self) -> Outcome {
        self.outcome
    }

    /// What is to be read back.
    pub closed spec fn asks(&self) -> ReadRequest {
        self.request
    }

    /// What is to be read back.
    pub fn request(&self) -> (r: &ReadRequest)
        ensures
            *r == self.asks(),
    {
        &self.request
    }
}

/// A solve that ran out of iterations and whose true residual is being judged.
#[derive(Debug)]
pub struct TailCheck {
    solve: Solve,
    outcome: Outcome,
    true_residual: u64,
}

impl TailCheck {
    /// The solve.
    pub closed spec fn solve(&self) -> SolveView {
        self.solve@
    }

    /// What the iteration left behind.
    pub closed spec fn outcome(&self) -> Outcome {
        self.outcome
    }

    /// The norm of the true residual.
    pub closed spec fn true_residual(&self) -> u64 {
        self.true_residual
    }

    /// What is to be judged.
    pub fn check(&self) -> (r: CheckRequest)
        ensures
            r == (CheckRequest {
                residual: self.true_residual(),
                rhs: self.outcome().rhs_norm,
                iterations: self.outcome().iterations,
            }),
    {
        CheckRequest {
            residual: self.true_residual,
            rhs: self.outcome.rhs_norm,
            iterations: self.outcome.iterations,
        }
    }
}

/// Where a solve stands after a step.
#[derive(Debug)]
pub enum Progress {
    /// Another batch of iterations is under way.
    Batch(BatchRead),
    /// The true residual is being computed.
    Tail(TailRead),
    /// The true residual is to be judged.
    Check(TailCheck),
    /// The solve has ended.
    Done(SolveStats),
}

/// The error with which the first sums of a solve are refused, if they are.
pub open spec fn startup_error(words: Seq<u32>) -> Option<crate::error::ErrorView> {
    let rhs = crate::convergence::norm_error(
        crate::portable::widened(words[0]),
        "WebGPU BiCGStab right-hand side norm"@,
    );
    if non_finite(words.take(3), "WebGPU dot3"@) is Some {
        non_finite(words.take(3), "WebGPU dot3"@)
    } else if rhs is Some {
        rhs
    } else {
        crate::convergence::norm_error(
            crate::portable::widened(words[1]),
            "WebGPU BiCGStab residual norm"@,
        )
    }
}

/// The report of a solve that was over before its first iteration.
pub open spec fn early_stats(residual_norm: u64, reason: ConvergedReason) ->
    crate::convergence::StatsView {
    crate::convergence::StatsView {
        iterations: 0,
        final_residual: residual_norm,
        reason,
        final_recurrence_residual: Some(residual_norm),
        final_true_residual: Some(residual_norm),
        num_global_reductions: 1,
        reduction_model: None,
        effective_variant: None,
    }
}

/// Reductions of a solve of `iterations` iterations, as far as a `usize` reaches.
pub open spec fn reductions(iterations: usize) -> usize {
    if 2 + 3 * iterations <= usize::MAX {
        (2 + 3 * iterations) as usize
    } else {
        usize::MAX
    }
}

/// The report of a solve that iterated.
pub open spec fn final_stats(outcome: Outcome, true_residual: u64, reason: ConvergedReason) ->
    crate::convergence::StatsView {
    crate::convergence::StatsView {
        iterations: outcome.iterations,
        final_residual: true_residual,
        reason,
        final_recurrence_residual: Some(outcome.recurrence_norm),
        final_true_residual: Some(true_residual),
        num_global_reductions: reductions(outcome.iterations),
        reduction_model: Some(
            crate::convergence::ModelView {
                variant: "wgpu-resident-batched-three-reduction-bicgstab"@,
                startup: 1,
                per_iteration: 3,
                tail: 1,
            },
        ),
        effective_variant: Some(
            "wgpu-resident-right-bicgstab-batch-16-readbacks-"@ + crate::text::decimal(
                outcome.readbacks as nat,
            ),
        ),
    }
}

/// The iterations that the device reports with a word, as far as a `usize` reaches.
pub open spec fn counted(word: u32) -> usize {
    if crate::portable::nearest_count(word) <= usize::MAX {
        crate::portable::nearest_count(word) as usize
    } else {
        usize::MAX
    }
}

/// How many iterations are encoded next when `completed` of at most `max_iters` are done.
pub open spec fn batch_size(max_iters: usize, completed: usize) -> nat {
    if completed >= max_iters {
        0
    } else if max_iters - completed < RESIDENT_BATCH_SIZE {
        (max_iters - completed) as nat
    } else {
        RESIDENT_BATCH_SIZE as nat
    }
}

/// `count` iterations, one after the other.
pub open spec fn iterations(
    start: Recording,
    context: ContextView,
    solve: SolveView,
    count: nat,
) -> Recording
    decreases count,
{
    if count == 0 {
        start
    } else {
        super::encode::iteration(
            iterations(start, context, solve, (count - 1) as nat),
            context,
            solve.operator,
            solve.workspace,
            solve.x,
        )
    }
}

/// The runtime after a batch of `count` iterations.
pub open spec fn with_batch(
    runtime: crate::runtime::RuntimeView,
    context: ContextView,
    solve: SolveView,
    count: nat,
) -> crate::runtime::RuntimeView {
    let start = Recording {
        runtime,
        encoder: crate::command::EncoderView::empty("kryst resident BiCGSTAB batch"@),
    };
    let end = iterations(start, context, solve, count);
    end.runtime.submit(end.encoder)
}

/// The runtime after the solver state has been initialised.
pub open spec fn with_state(
    runtime: crate::runtime::RuntimeView,
    context: ContextView,
    solve: SolveView,
    rhs_squared: u64,
    residual_squared: u64,
) -> crate::runtime::RuntimeView {
    super::encode::with_reduction_params(
        runtime.write(
            solve.workspace.state,
            crate::bytes::words_bytes(
                runtime.order,
                super::encode::resident_state(context.convergence, rhs_squared, residual_squared),
            ),
        ),
        context.reduction_params,
        solve.workspace.n,
        solve.workspace.reduction,
    )
}

/// What the device reports of an iteration that stopped.
pub open spec fn stopped(words: Seq<u32>, rhs_norm: u64, readbacks: usize) -> Outcome {
    let reason = crate::convergence::reason_of(words[14]);
    Outcome {
        rhs_norm,
        iterations: counted(words[13]),
        reason: if reason is Continued {
            ConvergedReason::DivergedMaxIts
        } else {
            reason
        },
        recurrence_norm: crate::portable::rooted(crate::portable::widened(words[8])),
        readbacks,
    }
}

/// Whether the solver state asks for another batch of iterations.
pub open spec fn goes_on(words: Seq<u32>, max_iters: usize) -> bool {
    !crate::portable::below_half(words[12]) && batch_size(max_iters, counted(words[13])) > 0
}

/// The error with which a solver state that was read back is refused, if it is.
pub open spec fn batch_error(words: Seq<u32>, max_iters: usize) -> Option<
    crate::error::ErrorView,
> {
    if non_finite(words, "resident WebGPU BiCGSTAB state"@) is Some {
        non_finite(words, "resident WebGPU BiCGSTAB state"@)
    } else if goes_on(words, max_iters) {
        None
    } else {
        crate::convergence::norm_error(
            crate::portable::widened(words[8]),
            "resident WebGPU BiCGStab residual norm"@,
        )
    }
}

/// The error with which the last sums of a solve are refused, if they are.
pub open spec fn tail_error(words: Seq<u32>) -> Option<crate::error::ErrorView> {
    if non_finite(words.take(3), "WebGPU dot3"@) is Some {
        non_finite(words.take(3), "WebGPU dot3"@)
    } else {
        crate::convergence::norm_error(
            crate::portable::widened(words[0]),
            "WebGPU BiCGStab true residual norm"@,
        )
    }
}

/// Iterations stay with the runtime that they started from.
pub proof fn lemma_iterations_runtime(
    start: Recording,
    context: ContextView,
    solve: SolveView,
    count: nat,
)
    ensures
        iterations(start, context, solve, count).runtime.id == start.runtime.id,
        iterations(start, context, solve, count).runtime.order == start.runtime.order,
        iterations(start, context, solve, count).runtime.sizes == start.runtime.sizes,
    decreases count,
{
    if count > 0 {
        lemma_iterations_runtime(start, context, solve, (count - 1) as nat);
    }
}

impl WgpuKspContext {
    /// Takes the first sums, `b . b` and `r . r`.
    pub fn startup_reduced(
        &mut self,
        phase: StartupRead,
        reply: Result<Vec<u32>, KError>,
    ) -> (r: Result<StartupCheck, KError>)
        requires
            phase.solve().active(old(self)@),
            reply matches Ok(words) ==> words@.len() == 4,
        ensures
            match (reply, r) {
                (Ok(words), Ok(next)) => {
                    &&& startup_error(words@) is None
                    &&& next.solve() == phase.solve()
                    &&& next.rhs_squared() == crate::portable::widened(words@[0])
                    &&& next.residual_squared() == crate::portable::widened(words@[1])
                    &&& next.rhs_norm() == crate::portable::rooted(next.rhs_squared())
                    &&& next.residual_norm() == crate::portable::rooted(next.residual_squared())
                    &&& final(self)@ == old(self)@
                },
                (Ok(words), Err(e)) => {
                    &&& startup_error(words@) == Some(e@)
                    &&& final(self)@ == returned(old(self)@, phase.solve())
                },
                (Err(e), Err(same)) => {
                    &&& same == e
                    &&& final(self)@ == returned(old(self)@, phase.solve())
                },
                (Err(_), Ok(_)) => false,
            },
            final(self)@.valid(),
    {
        match Self::startup_norms(reply) {
            Ok((rhs_squared, residual_squared, rhs_norm, residual_norm)) => Ok(
                StartupCheck {
                    solve: phase.solve,
                    rhs_squared,
                    residual_squared,
                    rhs_norm,
                    residual_norm,
                },
            ),
            Err(error) => {
                self.workspace = Some(phase.solve.workspace);
                Err(error)
            },
        }
    }

    /// The squared norms of the right-hand side and of the residual, and the norms.
    fn startup_norms(reply: Result<Vec<u32>, KError>) -> (r: Result<(u64, u64, u64, u64), KError>)
        requires
            reply matches Ok(words) ==> words@.len() == 4,
        ensures
            match (reply, r) {
                (Ok(words), Ok(norms)) => {
                    &&& startup_error(words@) is None
                    &&& norms.0 == crate::portable::widened(words@[0])
                    &&& norms.1 == crate::portable::widened(words@[1])
                    &&& norms.2 == crate::portable::rooted(norms.0)
                    &&& norms.3 == crate::portable::rooted(norms.1)
                },
                (Ok(words), Err(e)) => startup_error(words@) == Some(e@),
                (Err(e), Err(same)) => same == e,
                (Err(_), Ok(_)) => false,
            },
    {
        let words = match reply {
            Ok(words) => words,
            Err(error) => {
                return Err(error);
            },
        };
        match check_finite(&words, 3, "WebGPU dot3") {
            Ok(_) => {},
            Err(error) => {
                return Err(error);
            },
        }
        let rhs_squared: u64 = widen(words[0]);
        let residual_squared: u64 = widen(words[1]);
        let rhs_norm: u64 = match checked_norm(
            rhs_squared,
            "WebGPU BiCGStab right-hand side norm",
        ) {
            Ok(norm) => norm,
            Err(error) => {
                return Err(error);
            },
        };
        let residual_norm: u64 = match checked_norm(
            residual_squared,
            "WebGPU BiCGStab residual norm",
        ) {
            Ok(norm) => norm,
            Err(error) => {
                return Err(error);
            },
        };
        Ok((rhs_squared, residual_squared, rhs_norm, residual_norm))
    }

    /// Encodes and submits a batch of `count` iterations and asks for the solver state.
    fn encode_batch(&self, runtime: &mut WgpuRuntime, solve: &Solve, count: usize) -> (r:
        ReadRequest)
        requires
            solve@.active(self@),
            old(runtime)@.id == self@.runtime,
        ensures
            reads_state(r, solve@),
            final(runtime)@ == with_batch(old(runtime)@, self@, solve@, count as nat),
            final(runtime)@.id == old(runtime)@.id,
    {
        let mut encoder = CommandEncoder::new("kryst resident BiCGSTAB batch");
        let ghost start = Recording { runtime: runtime@, encoder: encoder@ };
        let mut done: usize = 0;
        while done < count
            invariant
                done <= count,
                solve@.active(self@),
                start.runtime.id == self@.runtime,
                (Recording { runtime: runtime@, encoder: encoder@ }) == iterations(
                    start,
                    self@,
                    solve@,
                    done as nat,
                ),
            decreases count - done,
        {
            proof {
                lemma_iterations_runtime(start, self@, solve@, done as nat);
            }
            let encoded = self.encode_resident_iteration(
                runtime,
                &mut encoder,
                &solve.operator,
                &solve.workspace,
                &solve.x,
            );
            assert(encoded is Ok);
            done = done + 1;
        }
        proof {
            lemma_iterations_runtime(start, self@, solve@, count as nat);
        }
        runtime.submit(encoder);
        WgpuRuntime::read_f32(
            solve.workspace.state,
            RESIDENT_STATE_LEN,
            "read resident BiCGSTAB batch state",
        )
    }

    /// How many iterations are encoded next.
    fn next_batch_size(&self, completed: usize) -> (r: usize)
        ensures
            r == batch_size(self@.convergence.max_iters, completed),
    {
        let left: usize = self.convergence.max_iters.saturating_sub(completed);
        if left < RESIDENT_BATCH_SIZE {
            left
        } else {
            RESIDENT_BATCH_SIZE
        }
    }

    /// Takes the judgement of the first residual.
    pub fn startup_checked(
        &mut self,
        runtime: &mut WgpuRuntime,
        phase: StartupCheck,
        reason: ConvergedReason,
    ) -> (r: Result<Progress, KError>)
        requires
            phase.solve().active(old(self)@),
            old(runtime)@.id == old(self)@.runtime,
        ensures
            ({
                let refused = super::encode::state_error(
                    old(self)@.convergence,
                    phase.rhs_squared(),
                    phase.residual_squared(),
                );
                if !(reason is Continued) {
                    &&& r matches Ok(Progress::Done(stats))
                    &&& stats@ == early_stats(phase.residual_norm(), reason)
                    &&& final(self)@ == returned(old(self)@, phase.solve())
                    &&& final(runtime)@ == old(runtime)@
                } else if refused is Some {
                    &&& r matches Err(e)
                    &&& refused == Some(e@)
                    &&& final(self)@ == returned(old(self)@, phase.solve())
                    &&& final(runtime)@ == old(runtime)@
                } else {
                    &&& r matches Ok(Progress::Batch(next))
                    &&& next.solve() == phase.solve()
                    &&& next.rhs_norm() == phase.rhs_norm()
                    &&& next.readbacks() == 0
                    &&& reads_state(next.asks(), next.solve())
                    &&& final(self)@ == old(self)@
                    &&& final(runtime)@ == with_batch(
                        with_state(
                            old(runtime)@,
                            old(self)@,
                            phase.solve(),
                            phase.rhs_squared(),
                            phase.residual_squared(),
                        ),
                        old(self)@,
                        phase.solve(),
                        batch_size(old(self)@.convergence.max_iters, 0),
                    )
                }
            }),
            final(self)@.valid(),
            final(runtime)@.id == old(runtime)@.id,
    {
        if reason != ConvergedReason::Continued {
            let stats = SolveStats {
                iterations: 0,
                final_residual: phase.residual_norm,
                reason,
                final_recurrence_residual: Some(phase.residual_norm),
                final_true_residual: Some(phase.residual_norm),
                counters: SolverCounters { num_global_reductions: 1 },
                reduction_model: None,
                effective_variant: None,
            };
            self.workspace = Some(phase.solve.workspace);
            return Ok(Progress::Done(stats));
        }
        let solve = phase.solve;
        match self.initialize_resident_state(
            runtime,
            solve.workspace.state,
            phase.rhs_squared,
            phase.residual_squared,
        ) {
            Ok(_) => {},
            Err(error) => {
                self.workspace = Some(solve.workspace);
                return Err(error);
            },
        }
        proof {
            super::encode::lemma_groups_fit(solve@.workspace.n as nat, 256);
        }
        let written = self.prepare_reduction(
            runtime,
            &solve.workspace.reduction,
            solve.workspace.r.len(),
        );
        assert(written is Ok);
        let count: usize = self.next_batch_size(0);
        let request = self.encode_batch(runtime, &solve, count);
        Ok(Progress::Batch(BatchRead { solve, rhs_norm: phase.rhs_norm, readbacks: 0, request }))
    }

    /// Takes the solver state after a batch of iterations.
    pub fn batch_read(
        &mut self,
        runtime: &mut WgpuRuntime,
        phase: BatchRead,
        reply: Result<Vec<u32>, KError>,
    ) -> (r: Result<Progress, KError>)
        requires
            phase.solve().active(old(self)@),
            old(runtime)@.id == old(self)@.runtime,
            reply matches Ok(words) ==> words@.len() == RESIDENT_STATE_LEN,
        ensures
            match reply {
                Err(e) => {
                    &&& r matches Err(same)
                    &&& same == e
                    &&& final(self)@ == returned(old(self)@, phase.solve())
                    &&& final(runtime)@ == old(runtime)@
                },
                Ok(words) => {
                    let max_iters = old(self)@.convergence.max_iters;
                    let refused = batch_error(words@, max_iters);
                    let readbacks = if phase.readbacks() < usize::MAX {
                        (phase.readbacks() + 1) as usize
                    } else {
                        usize::MAX
                    };
                    if refused is Some {
                        &&& r matches Err(e)
                        &&& refused == Some(e@)
                        &&& final(self)@ == returned(old(self)@, phase.solve())
                        &&& final(runtime)@ == old(runtime)@
                    } else if goes_on(words@, max_iters) {
                        &&& r matches Ok(Progress::Batch(next))
                        &&& next.solve() == phase.solve()
                        &&& next.rhs_norm() == phase.rhs_norm()
                        &&& next.readbacks() == readbacks
                        &&& reads_state(next.asks(), next.solve())
                        &&& final(self)@ == old(self)@
                        &&& final(runtime)@ == with_batch(
                            old(runtime)@,
                            old(self)@,
                            phase.solve(),
                            batch_size(max_iters, counted(words@[13])),
                        )
                    } else {
                        &&& r matches Ok(Progress::Tail(next))
                        &&& next.solve() == phase.solve()
                        &&& next.outcome() == stopped(words@, phase.rhs_norm(), readbacks)
                        &&& reads_sums(next.asks(), next.solve())
                        &&& final(self)@ == old(self)@
                        &&& final(runtime)@ == with_tail(
                            old(runtime)@,
                            old(self)@,
                            phase.solve(),
                        )
                    }
                },
            },
            final(self)@.valid(),
            final(runtime)@.id == old(runtime)@.id,
    {
        let solve = phase.solve;
        let words = match reply {
            Ok(words) => words,
            Err(error) => {
                self.workspace = Some(solve.workspace);
                return Err(error);
            },
        };
        let readbacks: usize = phase.readbacks.saturating_add(1);
        let finite = check_finite(&words, RESIDENT_STATE_LEN, "resident WebGPU BiCGSTAB state");
        assert(words@.take(RESIDENT_STATE_LEN as int) =~= words@);
        match finite {
            Ok(_) => {},
            Err(error) => {
                self.workspace = Some(solve.workspace);
                return Err(error);
            },
        }
        let completed: usize = count_from_single(words[13]);
        let count: usize = self.next_batch_size(completed);
        if !is_below_half(words[12]) && count > 0 {
            let request = self.encode_batch(runtime, &solve, count);
            return Ok(
                Progress::Batch(BatchRead { solve, rhs_norm: phase.rhs_norm, readbacks, request }),
            );
        }
        let reported = resident_reason(words[14]);
        let reason = if reported == ConvergedReason::Continued {
            ConvergedReason::DivergedMaxIts
        } else {
            reported
        };
        let recurrence_norm: u64 = match checked_norm(
            widen(words[8]),
            "resident WebGPU BiCGStab residual norm",
        ) {
            Ok(norm) => norm,
            Err(error) => {
                self.workspace = Some(solve.workspace);
                return Err(error);
            },
        };
        let outcome = Outcome {
            rhs_norm: phase.rhs_norm,
            iterations: completed,
            reason,
            recurrence_norm,
            readbacks,
        };
        match self.encode_tail(runtime, &solve) {
            Ok(request) => Ok(Progress::Tail(TailRead { solve, outcome, request })),
            Err(error) => {
                self.workspace = Some(solve.workspace);
                Err(error)
            },
        }
    }

    /// Records the last commands of a solve and asks for the sums.
    fn encode_tail(&self, runtime: &mut WgpuRuntime, solve: &Solve) -> (r: Result<
        ReadRequest,
        KError,
    >)
        requires
            solve@.active(self@),
            old(runtime)@.id == self@.runtime,
        ensures
            r is Ok,
            reads_sums(r->Ok_0, solve@),
            final(runtime)@ == with_tail(old(runtime)@, self@, solve@),
    {
        proof {
            super::encode::lemma_groups_fit(solve@.workspace.n as nat, 128);
            super::encode::lemma_groups_fit(solve@.workspace.n as nat, 256);
        }
        self.compute_residual(runtime, solve)?;
        let r = &solve.workspace.r;
        let sums = Pairs { x0: r, y0: r, x1: r, y1: r, x2: r, y2: r };
        self.dot3(runtime, &sums, &solve.workspace.reduction)
    }

    /// The report of a solve that iterated.
    fn report(outcome: &Outcome, true_residual: u64, reason: ConvergedReason) -> (r: SolveStats)
        ensures
            r@ == final_stats(*outcome, true_residual, reason),
    {
        let thrice: usize = if outcome.iterations <= usize::MAX / 3 {
            3 * outcome.iterations
        } else {
            usize::MAX
        };
        let mut variant = "wgpu-resident-right-bicgstab-batch-16-readbacks-".to_owned();
        variant.append(decimal_text(outcome.readbacks).as_str());
        SolveStats {
            iterations: outcome.iterations,
            final_residual: true_residual,
            reason,
            final_recurrence_residual: Some(outcome.recurrence_norm),
            final_true_residual: Some(true_residual),
            counters: SolverCounters { num_global_reductions: thrice.saturating_add(2) },
            reduction_model: Some(
                ReductionModel {
                    variant: "wgpu-resident-batched-three-reduction-bicgstab",
                    startup: 1,
                    per_iteration: 3,
                    tail: 1,
                },
            ),
            effective_variant: Some(variant),
        }
    }

    /// Takes the last sums, whose first is `r . r` of the true residual.
    pub fn tail_reduced(&mut self, phase: TailRead, reply: Result<Vec<u32>, KError>) -> (r: Result<
        Progress,
        KError,
    >)
        requires
            phase.solve().active(old(self)@),
            reply matches Ok(words) ==> words@.len() == 4,
        ensures
            match reply {
                Err(e) => {
                    &&& r matches Err(same)
                    &&& same == e
                    &&& final(self)@ == returned(old(self)@, phase.solve())
                },
                Ok(words) => {
                    let true_residual = crate::portable::rooted(
                        crate::portable::widened(words@[0]),
                    );
                    if tail_error(words@) is Some {
                        &&& r matches Err(e)
                        &&& tail_error(words@) == Some(e@)
                        &&& final(self)@ == returned(old(self)@, phase.solve())
                    } else if phase.outcome().reason is DivergedMaxIts {
                        &&& r matches Ok(Progress::Check(next))
                        &&& next.solve() == phase.solve()
                        &&& next.outcome() == phase.outcome()
                        &&& next.true_residual() == true_residual
                        &&& final(self)@ == old(self)@
                    } else {
                        &&& r matches Ok(Progress::Done(stats))
                        &&& stats@ == final_stats(
                            phase.outcome(),
                            true_residual,
                            phase.outcome().reason,
                        )
                        &&& final(self)@ == returned(old(self)@, phase.solve())
                    }
                },
            },
            final(self)@.valid(),
    {
        let solve = phase.solve;
        let words = match reply {
            Ok(words) => words,
            Err(error) => {
                self.workspace = Some(solve.workspace);
                return Err(error);
            },
        };
        match check_finite(&words, 3, "WebGPU dot3") {
            Ok(_) => {},
            Err(error) => {
                self.workspace = Some(solve.workspace);
                return Err(error);
            },
        }
        let true_residual: u64 = match checked_norm(
            widen(words[0]),
            "WebGPU BiCGStab true residual norm",
        ) {
            Ok(norm) => norm,
            Err(error) => {
                self.workspace = Some(solve.workspace);
                return Err(error);
            },
        };
        if phase.outcome.reason == ConvergedReason::DivergedMaxIts {
            return Ok(
                Progress::Check(TailCheck { solve, outcome: phase.outcome, true_residual }),
            );
        }
        self.workspace = Some(solve.workspace);
        Ok(Progress::Done(Self::report(&phase.outcome, true_residual, phase.outcome.reason)))
    }

    /// Takes the judgement of the true residual of a solve that ran out of iterations.
    pub fn tail_checked(&mut self, phase: TailCheck, reason: ConvergedReason) -> (r: SolveStats)
        requires
            phase.solve().active(old(self)@),
        ensures
            r@ == final_stats(
                phase.outcome(),
                phase.true_residual(),
                if reason is Continued {
                    phase.outcome().reason
                } else {
                    reason
                },
            ),
            final(self)@ == returned(old(self)@, phase.solve()),
            final(self)@.valid(),
    {
        self.workspace = Some(phase.solve.workspace);
        let last = if reason == ConvergedReason::Continued {
            phase.outcome.reason
        } else {
            reason
        };
        Self::report(&phase.outcome, phase.true_residual, last)
    }
}

/// The runtime after both vectors of a host system have been uploaded.
pub open spec fn with_host_vectors(
    runtime: crate::runtime::RuntimeView,
    b: Seq<u64>,
    x: Seq<u64>,
) -> crate::runtime::RuntimeView {
    with_host_vector(with_host_vector(runtime, b), x)
}

/// The runtime after a host vector has been uploaded.
pub open spec fn with_host_vector(runtime: crate::runtime::RuntimeView, host: Seq<u64>) ->
    crate::runtime::RuntimeView {
    runtime.create_init(
        "kryst WebGPU vector"@,
        crate::vector::upload(runtime.order, host),
        crate::runtime::STORAGE_USAGE,
    )
}

/// The uploaded vectors of a host system.
pub open spec fn host_vectors(
    runtime: crate::runtime::RuntimeView,
    b: Seq<u64>,
    x: Seq<u64>,
) -> (crate::vector::VectorView, crate::vector::VectorView) {
    (
        crate::vector::next_vector(runtime, b.len() as usize),
        crate::vector::next_vector(with_host_vector(runtime, b), x.len() as usize),
    )
}

/// The error with which the vectors of a host system are refused, if they are.
pub open spec fn host_vectors_error(b: Seq<u64>, x: Seq<u64>) -> Option<crate::error::ErrorView> {
    if crate::vector::host_vector_error(b) is Some {
        crate::vector::host_vector_error(b)
    } else {
        crate::vector::host_vector_error(x)
    }
}

/// Uploads the right-hand side and the first guess of a host system.
fn upload_host(runtime: &mut WgpuRuntime, b: &[u64], x: &[u64]) -> (r: Result<
    (WgpuVector, WgpuVector),
    KError,
>)
    ensures
        host_vectors_error(b@, x@) == crate::error::failure(r),
        match r {
            Ok((b_device, x_device)) => {
                &&& (b_device@, x_device@) == host_vectors(old(runtime)@, b@, x@)
                &&& final(runtime)@ == with_host_vectors(old(runtime)@, b@, x@)
            },
            Err(_) => final(runtime)@ == if crate::vector::host_vector_error(b@) is Some {
                old(runtime)@
            } else {
                with_host_vector(old(runtime)@, b@)
            },
        },
{
    let b_device = match WgpuVector::from_host(runtime, b) {
        Ok(vector) => vector,
        Err(error) => {
            return Err(error);
        },
    };
    let x_device = match WgpuVector::from_host(runtime, x) {
        Ok(vector) => vector,
        Err(error) => {
            return Err(error);
        },
    };
    Ok((b_device, x_device))
}

/// The error with which a host system is refused, if it is.
pub open spec fn host_error(
    context: ContextView,
    runtime: crate::runtime::RuntimeView,
    custom_dims: (usize, usize),
    b: Seq<u64>,
    x: Seq<u64>,
) -> Option<crate::error::ErrorView> {
    let (b_device, x_device) = host_vectors(runtime, b, x);
    if host_vectors_error(b, x) is Some {
        host_vectors_error(b, x)
    } else {
        solve_error(context, custom_dims, b_device, x_device)
    }
}

/// What a host solve that is refused leaves behind.
pub open spec fn host_refused(
    context: ContextView,
    runtime: crate::runtime::RuntimeView,
    custom_dims: (usize, usize),
    b: Seq<u64>,
    x: Seq<u64>,
    context_after: ContextView,
    runtime_after: crate::runtime::RuntimeView,
) -> bool {
    if crate::vector::host_vector_error(b) is Some {
        &&& context_after == context
        &&& runtime_after == runtime
    } else if crate::vector::host_vector_error(x) is Some {
        &&& context_after == context
        &&& runtime_after == with_host_vector(runtime, b)
    } else {
        let (b_device, x_device) = host_vectors(runtime, b, x);
        refused(
            context,
            with_host_vectors(runtime, b, x),
            custom_dims,
            b_device,
            x_device,
            context_after,
            runtime_after,
        )
    }
}

impl WgpuKspContext {
    /// Starts the solution of a host system: uploads the right-hand side and the first guess and
    /// starts the solve. With it comes the device vector in which the solution will stand.
    pub fn solve_host(&mut self, runtime: &mut WgpuRuntime, b: &[u64], x: &[u64]) -> (r: Result<
        (StartupRead, WgpuVector),
        KError,
    >)
        requires
            old(self)@.valid(),
            old(runtime)@.id == old(self)@.runtime,
        ensures
            exists|custom_dims: (usize, usize)|
                #[trigger] host_error(old(self)@, old(runtime)@, custom_dims, b@, x@)
                    == crate::error::failure(r) && (host_vectors_error(b@, x@) is None
                    ==> super::reported(old(self)@, custom_dims)) && (r is Err ==> host_refused(
                    old(self)@,
                    old(runtime)@,
                    custom_dims,
                    b@,
                    x@,
                    final(self)@,
                    final(runtime)@,
                )),
            final(self)@.valid(),
            final(runtime)@.id == old(runtime)@.id,
            r matches Ok((phase, solution)) ==> {
                let loaded = with_host_vectors(old(runtime)@, b@, x@);
                let (b_device, x_device) = host_vectors(old(runtime)@, b@, x@);
                let ready = super::prepared(old(self)@, loaded);
                &&& solution@ == x_device
                &&& phase.solve() == (SolveView {
                    operator: ready.operator->0,
                    b: b_device,
                    x: x_device,
                    workspace: ready.workspace->0,
                })
                &&& phase.solve().active(final(self)@)
                &&& reads_sums(phase.asks(), phase.solve())
                &&& final(self)@ == (ContextView { workspace: None, ..ready })
                &&& final(runtime)@ == with_startup(
                    super::with_setup(old(self)@, loaded),
                    ready,
                    phase.solve(),
                )
            },
    {
        let (b_device, x_device) = match upload_host(runtime, b, x) {
            Ok(vectors) => vectors,
            Err(error) => {
                assert(host_error(self@, old(runtime)@, (0, 0), b@, x@) == Some(error@));
                return Err(error);
            },
        };
        let custom_dims: (usize, usize) = self.custom_dims();
        let ghost refused = host_error(self@, old(runtime)@, custom_dims, b@, x@);
        match self.solve_with(runtime, custom_dims, &b_device, &x_device) {
            Ok(phase) => Ok((phase, x_device)),
            Err(error) => {
                assert(refused == Some(error@));
                Err(error)
            },
        }
    }

    /// Starts the solution of a host system, where the caller's preconditioner, if there is one,
    /// has reported the dimensions `custom_dims`.
    pub fn solve_host_with(
        &mut self,
        runtime: &mut WgpuRuntime,
        custom_dims: (usize, usize),
        b: &[u64],
        x: &[u64],
    ) -> (r: Result<(StartupRead, WgpuVector), KError>)
        requires
            old(self)@.valid(),
            old(runtime)@.id == old(self)@.runtime,
        ensures
            host_error(old(self)@, old(runtime)@, custom_dims, b@, x@) == crate::error::failure(r),
            final(self)@.valid(),
            final(runtime)@.id == old(runtime)@.id,
            match r {
                Ok((phase, solution)) => {
                    let loaded = with_host_vectors(old(runtime)@, b@, x@);
                    let (b_device, x_device) = host_vectors(old(runtime)@, b@, x@);
                    let ready = super::prepared(old(self)@, loaded);
                    &&& solution@ == x_device
                    &&& phase.solve() == (SolveView {
                        operator: ready.operator->0,
                        b: b_device,
                        x: x_device,
                        workspace: ready.workspace->0,
                    })
                    &&& phase.solve().active(final(self)@)
                    &&& reads_sums(phase.asks(), phase.solve())
                    &&& final(self)@ == (ContextView { workspace: None, ..ready })
                    &&& final(runtime)@ == with_startup(
                        super::with_setup(old(self)@, loaded),
                        ready,
                        phase.solve(),
                    )
                },
                Err(_) => host_refused(
                    old(self)@,
                    old(runtime)@,
                    custom_dims,
                    b@,
                    x@,
                    final(self)@,
                    final(runtime)@,
                ),
            },
    {
        let (b_device, x_device) = match upload_host(runtime, b, x) {
            Ok(vectors) => vectors,
            Err(error) => {
                return Err(error);
            },
        };
        match self.solve_with(runtime, custom_dims, &b_device, &x_device) {
            Ok(phase) => Ok((phase, x_device)),
            Err(error) => Err(error),
        }
    }
}

/// Ends the solution of a host system. The host solution changes only after a converged solve
/// whose solution has been downloaded; `downloaded` is the solution, read back after a converged
/// solve only.
pub fn finish_host(
    stats: SolveStats,
    solution: &WgpuVector,
    downloaded: Option<Result<Vec<u32>, KError>>,
    x: &mut [u64],
) -> (r: Result<SolveStats, KError>)
    requires
        downloaded is Some == stats.reason.converged(),
        downloaded matches Some(Ok(words)) ==> words@.len() == old(x)@.len(),
    ensures
        final(x)@.len() == old(x)@.len(),
        match downloaded {
            None => {
                &&& r == Ok::<SolveStats, KError>(stats)
                &&& final(x)@ == old(x)@
            },
            Some(Err(e)) => {
                &&& r == Err::<SolveStats, KError>(e)
                &&& final(x)@ == old(x)@
            },
            Some(Ok(words)) => {
                &&& r == Ok::<SolveStats, KError>(stats)
                &&& forall|i: int|
                    0 <= i < words@.len() ==> crate::portable::widens_to(
                        words@[i],
                        #[trigger] final(x)@[i],
                    )
            },
        },
{
    match downloaded {
        None => Ok(stats),
        Some(reply) => match solution.to_host(reply) {
            Err(error) => Err(error),
            Ok(candidate) => {
                let mut i: usize = 0;
                while i < x.len()
                    invariant
                        i <= x@.len(),
                        x@.len() == candidate@.len(),
                        forall|j: int| 0 <= j < i ==> x@[j] == candidate@[j],
                    decreases x@.len() - i,
                {
                    x[i] = candidate[i];
                    i = i + 1;
                }
                assert(x@ =~= candidate@);
                Ok(stats)
            },
        },
    }
}

} // verus!
