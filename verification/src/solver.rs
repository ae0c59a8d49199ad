//! The solver context: its choices, its preparation and its reusable device workspace.
use crate::command::{slots, Kernel, Layout, ShaderModule, SlotKind};
use crate::convergence::{Convergence, PcType, SolverType};
use crate::error::{invalid_input, KError};
use crate::operator::WgpuCsrOp;
use crate::preconditioner::{WgpuJacobi, WgpuPreconditioner};
use crate::runtime::{div_ceil, WgpuRuntime};
use crate::text::{decimal_text, pair_text};
use crate::vector::WgpuVector;
use std::sync::Arc;
use vstd::prelude::*;
use vstd::string::StringExecFns;

pub mod answers;
pub mod encode;
pub mod exact;
pub mod laws;
pub mod meaning;
pub mod rename;
pub mod repeat;
pub mod session;
pub mod step;

verus! {

/// Iterations that are encoded between two looks at the solver state.
pub const RESIDENT_BATCH_SIZE: usize = 16;

/// Numbers of the solver state on the device.
pub const RESIDENT_STATE_LEN: usize = 16;

/// The double nearest to `10^-5`.
pub const DEFAULT_RTOL: u64 = 0x3ee4_f8b5_88e3_68f1;

/// The double nearest to `10^-30`.
pub const DEFAULT_ATOL: u64 = 0x39b4_484b_feeb_c2a0;

/// The double `10^5`.
pub const DEFAULT_DTOL: u64 = 0x40f8_6a00_0000_0000;

/// Buffers of a reduction.
#[derive(Clone, Copy, Debug)]
pub struct ReductionWorkspace {
    partials: usize,
    result: usize,
    partial_count: usize,
}

/// Device vectors and buffers that a solve works in.
#[derive(Debug)]
pub struct BiCgStabWorkspace {
    n: usize,
    r: WgpuVector,
    r_hat: WgpuVector,
    p: WgpuVector,
    v: WgpuVector,
    s: WgpuVector,
    t: WgpuVector,
    z_p: WgpuVector,
    z_s: WgpuVector,
    ax: WgpuVector,
    reduction: ReductionWorkspace,
    state: usize,
}

/// The buffers of a reduction, as contracts see them.
pub ghost struct ReductionView {
    /// Buffer of the partial sums.
    pub partials: usize,
    /// Buffer of the sums.
    pub result: usize,
    /// Number of partial sums.
    pub partial_count: usize,
}

/// A workspace as its contracts see it.
pub ghost struct WorkspaceView {
    pub n: usize,
    pub r: crate::vector::VectorView,
    pub r_hat: crate::vector::VectorView,
    pub p: crate::vector::VectorView,
    pub v: crate::vector::VectorView,
    pub s: crate::vector::VectorView,
    pub t: crate::vector::VectorView,
    pub z_p: crate::vector::VectorView,
    pub z_s: crate::vector::VectorView,
    pub ax: crate::vector::VectorView,
    pub reduction: ReductionView,
    /// Buffer of the solver state.
    pub state: usize,
}

impl View for ReductionWorkspace {
    type V = ReductionView;

    closed spec fn view(&self) -> ReductionView {
        ReductionView {
            partials: self.partials,
            result: self.result,
            partial_count: self.partial_count,
        }
    }
}

impl View for BiCgStabWorkspace {
    type V = WorkspaceView;

    closed spec fn view(&self) -> WorkspaceView {
        WorkspaceView {
            n: self.n,
            r: self.r@,
            r_hat: self.r_hat@,
            p: self.p@,
            v: self.v@,
            s: self.s@,
            t: self.t@,
            z_p: self.z_p@,
            z_s: self.z_s@,
            ax: self.ax@,
            reduction: self.reduction@,
            state: self.state,
        }
    }
}

/// Partial sums of a reduction over `n` entries.
pub open spec fn partial_sums(n: nat) -> nat {
    if n == 0 {
        1
    } else {
        crate::runtime::groups(n, 256)
    }
}

/// Bytes of `count` partial sums, as far as a `usize` reaches.
pub open spec fn partial_bytes(count: usize) -> u64 {
    if 16 * count <= usize::MAX {
        (16 * count) as u64
    } else {
        usize::MAX as u64
    }
}

/// The runtime after the allocation of `count` zero-filled vectors.
pub open spec fn with_vectors(
    runtime: crate::runtime::RuntimeView,
    n: usize,
    count: nat,
) -> crate::runtime::RuntimeView
    decreases count,
{
    if count == 0 {
        runtime
    } else {
        crate::vector::with_zeros(with_vectors(runtime, n, (count - 1) as nat), n)
    }
}

/// The runtime after the allocation of a workspace.
pub open spec fn with_workspace(runtime: crate::runtime::RuntimeView, n: usize) ->
    crate::runtime::RuntimeView {
    with_vectors(runtime, n, 9).create_empty(
        "kryst WebGPU reduction partials"@,
        partial_bytes(partial_sums(n as nat) as usize),
    ).create_empty("kryst WebGPU reduction result"@, 16).create_empty(
        "kryst resident BiCGSTAB state"@,
        64,
    )
}

/// The vector of a workspace that is allocated as number `i`.
pub open spec fn workspace_vector(
    runtime: crate::runtime::RuntimeView,
    n: usize,
    i: nat,
) -> crate::vector::VectorView {
    crate::vector::VectorView {
        runtime: runtime.id,
        buffer: (runtime.sizes.len() + i) as usize,
        len: n,
    }
}

/// The workspace that an allocation gives.
pub open spec fn next_workspace(
    runtime: crate::runtime::RuntimeView,
    n: usize,
) -> WorkspaceView {
    WorkspaceView {
        n,
        r: workspace_vector(runtime, n, 0),
        r_hat: workspace_vector(runtime, n, 1),
        p: workspace_vector(runtime, n, 2),
        v: workspace_vector(runtime, n, 3),
        s: workspace_vector(runtime, n, 4),
        t: workspace_vector(runtime, n, 5),
        z_p: workspace_vector(runtime, n, 6),
        z_s: workspace_vector(runtime, n, 7),
        ax: workspace_vector(runtime, n, 8),
        reduction: ReductionView {
            partials: (runtime.sizes.len() + 9) as usize,
            result: (runtime.sizes.len() + 10) as usize,
            partial_count: partial_sums(n as nat) as usize,
        },
        state: (runtime.sizes.len() + 11) as usize,
    }
}

/// Each allocated vector takes one buffer and nothing else of the runtime.
pub proof fn lemma_with_vectors(runtime: crate::runtime::RuntimeView, n: usize, count: nat)
    ensures
        with_vectors(runtime, n, count).sizes.len() == runtime.sizes.len() + count,
        with_vectors(runtime, n, count).id == runtime.id,
        with_vectors(runtime, n, count).order == runtime.order,
    decreases count,
{
    if count > 0 {
        lemma_with_vectors(runtime, n, (count - 1) as nat);
    }
}

impl BiCgStabWorkspace {
    /// Allocates the workspace for systems of `n` equations.
    pub fn new(runtime: &mut WgpuRuntime, n: usize) -> (r: Result<Self, KError>)
        ensures
            r is Ok,
            r->Ok_0@ == next_workspace(old(runtime)@, n),
            final(runtime)@ == with_workspace(old(runtime)@, n),
    {
        let ghost start = runtime@;
        let partial_count: usize = if n == 0 {
            1
        } else {
            div_ceil(n, 256)
        };
        let bytes: u64 = if partial_count <= usize::MAX / 16 {
            (16 * partial_count) as u64
        } else {
            usize::MAX as u64
        };
        proof {
            reveal_with_fuel(with_vectors, 10);
            lemma_with_vectors(start, n, 1);
            lemma_with_vectors(start, n, 2);
            lemma_with_vectors(start, n, 3);
            lemma_with_vectors(start, n, 4);
            lemma_with_vectors(start, n, 5);
            lemma_with_vectors(start, n, 6);
            lemma_with_vectors(start, n, 7);
            lemma_with_vectors(start, n, 8);
            lemma_with_vectors(start, n, 9);
        }
        let r = WgpuVector::zeros(runtime, n)?;
        let r_hat = WgpuVector::zeros(runtime, n)?;
        let p = WgpuVector::zeros(runtime, n)?;
        let v = WgpuVector::zeros(runtime, n)?;
        let s = WgpuVector::zeros(runtime, n)?;
        let t = WgpuVector::zeros(runtime, n)?;
        let z_p = WgpuVector::zeros(runtime, n)?;
        let z_s = WgpuVector::zeros(runtime, n)?;
        let ax = WgpuVector::zeros(runtime, n)?;
        assert(runtime@ == with_vectors(start, n, 9));
        let partials: usize = runtime.create_empty_storage_buffer(
            "kryst WebGPU reduction partials",
            bytes,
        );
        let result: usize = runtime.create_empty_storage_buffer(
            "kryst WebGPU reduction result",
            16,
        );
        let state: usize = runtime.create_empty_storage_buffer("kryst resident BiCGSTAB state", 64);
        Ok(
            BiCgStabWorkspace {
                n,
                r,
                r_hat,
                p,
                v,
                s,
                t,
                z_p,
                z_s,
                ax,
                reduction: ReductionWorkspace { partials, result, partial_count },
                state,
            },
        )
    }
}

impl BiCgStabWorkspace {
    /// The buffers of this workspace.
    pub fn device_buffers(&self) -> (r: Vec<usize>)
        ensures
            r@ == workspace_buffers(self@),
    {
        let r: Vec<usize> = vec![
            self.r.buffer(),
            self.r_hat.buffer(),
            self.p.buffer(),
            self.v.buffer(),
            self.s.buffer(),
            self.t.buffer(),
            self.z_p.buffer(),
            self.z_s.buffer(),
            self.ax.buffer(),
            self.reduction.partials,
            self.reduction.result,
            self.state,
        ];
        assert(r@ =~= workspace_buffers(self@));
        r
    }
}

/// The pipelines of a resident iteration. The runtime knows each by its kernel.
#[derive(Debug)]
pub struct ResidentPipelines {}

/// The runtime after the creation of the pipelines of a resident iteration.
pub open spec fn with_resident_pipelines(runtime: crate::runtime::RuntimeView) ->
    crate::runtime::RuntimeView {
    let vector = Some(Layout::ResidentVector);
    let scalar = Some(Layout::ResidentScalar);
    runtime.layout(
        Layout::ResidentVector,
        "kryst resident BiCGSTAB vector layout"@,
        "kryst resident BiCGSTAB vector pipeline layout"@,
        crate::command::module_slots(ShaderModule::ResidentVector),
    ).shader(
        ShaderModule::ResidentVector,
        "kryst resident BiCGSTAB vector kernels"@,
    ).layout(
        Layout::ResidentScalar,
        "kryst resident BiCGSTAB scalar layout"@,
        "kryst resident BiCGSTAB scalar pipeline layout"@,
        crate::command::module_slots(ShaderModule::ResidentScalar),
    ).shader(
        ShaderModule::ResidentScalar,
        "kryst resident BiCGSTAB scalar kernels"@,
    ).pipeline(Kernel::UpdatePOmega, "update_p_omega"@, "update_p_omega"@, vector).pipeline(
        Kernel::PrepareP,
        "prepare_p"@,
        "prepare_p"@,
        vector,
    ).pipeline(Kernel::MakeS, "make_s"@, "make_s"@, vector).pipeline(
        Kernel::UpdateXAlpha,
        "update_x_alpha"@,
        "update_x_alpha"@,
        vector,
    ).pipeline(Kernel::UpdateXOmega, "update_x_omega"@, "update_x_omega"@, vector).pipeline(
        Kernel::MakeR,
        "make_r"@,
        "make_r"@,
        vector,
    ).pipeline(
        Kernel::BeginIteration,
        "begin_iteration"@,
        "begin_iteration"@,
        scalar,
    ).pipeline(Kernel::FinishAlpha, "finish_alpha"@, "finish_alpha"@, scalar).pipeline(
        Kernel::CheckS,
        "check_s"@,
        "check_s"@,
        scalar,
    ).pipeline(Kernel::FinishOmega, "finish_omega"@, "finish_omega"@, scalar).pipeline(
        Kernel::CheckR,
        "check_r"@,
        "check_r"@,
        scalar,
    )
}

impl ResidentPipelines {
    /// Creates the pipelines.
    pub fn new(runtime: &mut WgpuRuntime) -> (r: Self)
        ensures
            final(runtime)@ == with_resident_pipelines(old(runtime)@),
    {
        let read = SlotKind::Read;
        let write = SlotKind::ReadWrite;
        let vector = Some(Layout::ResidentVector);
        let scalar = Some(Layout::ResidentScalar);
        let kinds = [read, read, write, read];
        let vector_slots = slots(&kinds);
        assert(kinds@ =~= seq![read, read, write, read]);
        runtime.create_layout(
            Layout::ResidentVector,
            "kryst resident BiCGSTAB vector layout",
            "kryst resident BiCGSTAB vector pipeline layout",
            vector_slots,
        );
        runtime.create_shader_module(
            ShaderModule::ResidentVector,
            "kryst resident BiCGSTAB vector kernels",
        );
        let kinds = [write, read];
        let scalar_slots = slots(&kinds);
        assert(kinds@ =~= seq![write, read]);
        runtime.create_layout(
            Layout::ResidentScalar,
            "kryst resident BiCGSTAB scalar layout",
            "kryst resident BiCGSTAB scalar pipeline layout",
            scalar_slots,
        );
        runtime.create_shader_module(
            ShaderModule::ResidentScalar,
            "kryst resident BiCGSTAB scalar kernels",
        );
        runtime.create_pipeline(Kernel::UpdatePOmega, "update_p_omega", "update_p_omega", vector);
        runtime.create_pipeline(Kernel::PrepareP, "prepare_p", "prepare_p", vector);
        runtime.create_pipeline(Kernel::MakeS, "make_s", "make_s", vector);
        runtime.create_pipeline(Kernel::UpdateXAlpha, "update_x_alpha", "update_x_alpha", vector);
        runtime.create_pipeline(Kernel::UpdateXOmega, "update_x_omega", "update_x_omega", vector);
        runtime.create_pipeline(Kernel::MakeR, "make_r", "make_r", vector);
        runtime.create_pipeline(
            Kernel::BeginIteration,
            "begin_iteration",
            "begin_iteration",
            scalar,
        );
        runtime.create_pipeline(Kernel::FinishAlpha, "finish_alpha", "finish_alpha", scalar);
        runtime.create_pipeline(Kernel::CheckS, "check_s", "check_s", scalar);
        runtime.create_pipeline(Kernel::FinishOmega, "finish_omega", "finish_omega", scalar);
        runtime.create_pipeline(Kernel::CheckR, "check_r", "check_r", scalar);
        ResidentPipelines {  }
    }
}

/// A preparation stays with the runtime that it started from.
pub proof fn lemma_setup_runtime(context: ContextView, runtime: crate::runtime::RuntimeView)
    ensures
        with_setup(context, runtime).id == runtime.id,
        with_setup(context, runtime).order == runtime.order,
{
    let ready = after_preconditioner(context, runtime);
    lemma_with_vectors(ready, context.operator->0.nrows, 9);
}

/// A preconditioner that setup has made ready.
#[derive(Debug)]
pub enum Prepared {
    Identity,
    Jacobi(WgpuJacobi),
}

/// A prepared preconditioner as contracts see it.
pub ghost enum PreparedView {
    Identity,
    Jacobi(crate::preconditioner::JacobiView),
}

impl View for Prepared {
    type V = PreparedView;

    open spec fn view(&self) -> PreparedView {
        match self {
            Prepared::Identity => PreparedView::Identity,
            Prepared::Jacobi(jacobi) => PreparedView::Jacobi(jacobi@),
        }
    }
}

/// Device-resident real BiCGSTAB context for portable devices.
pub struct WgpuKspContext {
    runtime: u64,
    operator: Option<Arc<WgpuCsrOp>>,
    pc_type: PcType,
    preconditioner: Option<Prepared>,
    custom_preconditioner: Option<Box<dyn WgpuPreconditioner>>,
    convergence: Convergence,
    workspace: Option<BiCgStabWorkspace>,
    vector_params: usize,
    reduction_params: usize,
    resident: ResidentPipelines,
}

/// A context as its contracts see it.
pub ghost struct ContextView {
    /// The runtime that the context belongs to.
    pub runtime: u64,
    pub operator: Option<crate::operator::OperatorView>,
    pub pc_type: PcType,
    pub preconditioner: Option<PreparedView>,
    pub custom: Option<Box<dyn WgpuPreconditioner>>,
    pub convergence: Convergence,
    pub workspace: Option<WorkspaceView>,
    /// Uniform buffer of the vector kernel.
    pub vector_params: usize,
    /// Uniform buffer of the reduction kernels.
    pub reduction_params: usize,
}

impl View for WgpuKspContext {
    type V = ContextView;

    closed spec fn view(&self) -> ContextView {
        ContextView {
            runtime: self.runtime,
            operator: match self.operator {
                Some(operator) => Some(operator@),
                None => None,
            },
            pc_type: self.pc_type,
            preconditioner: match self.preconditioner {
                Some(prepared) => Some(prepared@),
                None => None,
            },
            custom: self.custom_preconditioner,
            convergence: self.convergence,
            workspace: match self.workspace {
                Some(workspace) => Some(workspace@),
                None => None,
            },
            vector_params: self.vector_params,
            reduction_params: self.reduction_params,
        }
    }
}

impl WorkspaceView {
    /// Whether the vectors belong to the runtime and have `n` entries, and the reduction has the
    /// partial sums for them.
    pub open spec fn valid(self, runtime: u64) -> bool {
        let fits = |v: crate::vector::VectorView| v.runtime == runtime && v.len == self.n;
        &&& fits(self.r)
        &&& fits(self.r_hat)
        &&& fits(self.p)
        &&& fits(self.v)
        &&& fits(self.s)
        &&& fits(self.t)
        &&& fits(self.z_p)
        &&& fits(self.z_s)
        &&& fits(self.ax)
        &&& self.reduction.partial_count == partial_sums(self.n as nat)
    }
}

impl ContextView {
    /// What every operation on a context keeps.
    pub open spec fn valid(self) -> bool {
        &&& self.pc_type is Identity || self.pc_type is Jacobi
        &&& crate::convergence::usable_tolerances(self.convergence)
        &&& self.operator matches Some(operator) ==> {
            &&& operator.runtime == self.runtime
            &&& operator.nrows == operator.ncols
        }
        &&& self.preconditioner matches Some(PreparedView::Jacobi(jacobi)) ==> {
            &&& self.operator matches Some(operator)
            &&& jacobi.runtime == self.runtime
            &&& jacobi.n == operator.nrows
        }
        &&& self.workspace matches Some(workspace) ==> {
            &&& self.operator matches Some(operator)
            &&& workspace.n == operator.nrows
            &&& workspace.valid(self.runtime)
        }
    }
}

/// The runtime after the creation of a context.
pub open spec fn with_context(runtime: crate::runtime::RuntimeView) ->
    crate::runtime::RuntimeView {
    let zeros = Seq::new(16, |i: int| 0u8);
    let uniform = crate::runtime::UNIFORM_USAGE;
    let reduction = Some(Layout::Reduction);
    with_resident_pipelines(
        runtime.shader(ShaderModule::Vector, "kryst WebGPU vector kernels"@).pipeline(
            Kernel::Axpby,
            "kryst WebGPU axpby"@,
            "axpby"@,
            None,
        ).create_init("kryst WebGPU vector parameters"@, zeros, uniform).shader(
            ShaderModule::Reduction,
            "kryst WebGPU reductions"@,
        ).layout(
            Layout::Reduction,
            "kryst WebGPU reduction layout"@,
            "kryst WebGPU reduction pipeline layout"@,
            crate::command::module_slots(ShaderModule::Reduction),
        ).pipeline(
            Kernel::ReduceStage,
            "kryst WebGPU reduction stage"@,
            "reduce_stage"@,
            reduction,
        ).pipeline(
            Kernel::ReduceFinal,
            "kryst WebGPU reduction final"@,
            "reduce_final"@,
            reduction,
        ).create_init("kryst WebGPU reduction parameters"@, zeros, uniform),
    )
}

/// A new context.
pub open spec fn next_context(runtime: crate::runtime::RuntimeView) -> ContextView {
    ContextView {
        runtime: runtime.id,
        operator: None,
        pc_type: PcType::Identity,
        preconditioner: None,
        custom: None,
        convergence: Convergence {
            rtol: DEFAULT_RTOL,
            atol: DEFAULT_ATOL,
            dtol: DEFAULT_DTOL,
            max_iters: 10_000,
        },
        workspace: None,
        vector_params: runtime.sizes.len() as usize,
        reduction_params: (runtime.sizes.len() + 1) as usize,
    }
}

/// The error with which an operator is refused, if it is.
pub open spec fn operator_error(
    context: ContextView,
    operator: crate::operator::OperatorView,
) -> Option<crate::error::ErrorView> {
    if context.runtime != operator.runtime {
        Some(
            crate::error::ErrorView::InvalidInput(
                "WebGPU context and operator belong to different runtimes"@,
            ),
        )
    } else if operator.nrows != operator.ncols {
        Some(
            crate::error::ErrorView::InvalidInput(
                "WebGPU BiCGStab requires a square operator, got "@ + crate::text::decimal(
                    operator.nrows as nat,
                ) + "x"@ + crate::text::decimal(operator.ncols as nat),
            ),
        )
    } else {
        None
    }
}

/// Whether these can be the dimensions that the caller's preconditioner, if there is one, reports.
/// It is asked only where there is an operator to compare them with.
pub open spec fn reported(context: ContextView, custom_dims: (usize, usize)) -> bool {
    context.custom is Some && context.operator is Some ==> context.custom->0.reports(custom_dims)
}

/// The error with which a preparation is refused, if it is. `custom_dims` are the dimensions
/// that the caller's preconditioner reports.
pub open spec fn setup_error(context: ContextView, custom_dims: (usize, usize)) -> Option<
    crate::error::ErrorView,
> {
    match context.operator {
        None => Some(crate::error::ErrorView::InvalidInput("WebGPU operator is not set"@)),
        Some(operator) => {
            let n = operator.nrows;
            if context.custom is Some {
                if custom_dims != (n, n) {
                    Some(
                        crate::error::ErrorView::InvalidInput(
                            "custom WebGPU preconditioner dimensions "@ + crate::text::pair(
                                custom_dims.0 as nat,
                                custom_dims.1 as nat,
                            ) + " do not match operator dimensions "@ + crate::text::pair(
                                n as nat,
                                n as nat,
                            ),
                        ),
                    )
                } else {
                    None
                }
            } else if context.preconditioner is Some {
                None
            } else {
                match context.pc_type {
                    PcType::Identity => None,
                    PcType::Jacobi => crate::preconditioner::jacobi_error(operator),
                    PcType::Ilu0 => Some(
                        crate::error::ErrorView::Unsupported(
                            "selected preconditioner has no WebGPU implementation"@,
                        ),
                    ),
                }
            }
        },
    }
}

/// Whether a preparation makes a diagonal scaling.
pub open spec fn makes_jacobi(context: ContextView) -> bool {
    context.custom is None && context.preconditioner is None && context.pc_type is Jacobi
}

/// The runtime after the preconditioner has been prepared.
pub open spec fn after_preconditioner(
    context: ContextView,
    runtime: crate::runtime::RuntimeView,
) -> crate::runtime::RuntimeView {
    if makes_jacobi(context) {
        crate::preconditioner::with_jacobi(runtime, context.operator->0)
    } else {
        runtime
    }
}

/// Whether a preparation allocates a workspace.
pub open spec fn makes_workspace(context: ContextView) -> bool {
    match context.workspace {
        Some(workspace) => workspace.n != context.operator->0.nrows,
        None => true,
    }
}

/// The runtime after a preparation.
pub open spec fn with_setup(
    context: ContextView,
    runtime: crate::runtime::RuntimeView,
) -> crate::runtime::RuntimeView {
    let ready = after_preconditioner(context, runtime);
    if makes_workspace(context) {
        with_workspace(ready, context.operator->0.nrows)
    } else {
        ready
    }
}

/// The context after a preparation.
pub open spec fn prepared(
    context: ContextView,
    runtime: crate::runtime::RuntimeView,
) -> ContextView {
    ContextView {
        preconditioner: if context.custom is Some || context.preconditioner is Some {
            context.preconditioner
        } else if makes_jacobi(context) {
            Some(
                PreparedView::Jacobi(
                    crate::preconditioner::next_jacobi(runtime, context.operator->0),
                ),
            )
        } else {
            Some(PreparedView::Identity)
        },
        workspace: if makes_workspace(context) {
            Some(
                next_workspace(
                    after_preconditioner(context, runtime),
                    context.operator->0.nrows,
                ),
            )
        } else {
            context.workspace
        },
        ..context
    }
}

/// The buffers of a workspace.
pub open spec fn workspace_buffers(w: WorkspaceView) -> Seq<usize> {
    seq![
        w.r.buffer,
        w.r_hat.buffer,
        w.p.buffer,
        w.v.buffer,
        w.s.buffer,
        w.t.buffer,
        w.z_p.buffer,
        w.z_s.buffer,
        w.ax.buffer,
        w.reduction.partials,
        w.reduction.result,
        w.state,
    ]
}

/// The buffers that a context itself holds: the parameters, the inverse diagonal and the
/// workspace.
pub open spec fn held_buffers(context: ContextView) -> Seq<usize> {
    let scaling = match context.preconditioner {
        Some(PreparedView::Jacobi(jacobi)) => seq![jacobi.inverse_diagonal],
        _ => seq![],
    };
    let work = match context.workspace {
        Some(work) => workspace_buffers(work),
        None => seq![],
    };
    seq![context.vector_params, context.reduction_params] + scaling + work
}

fn zero_bytes() -> (r: Vec<u8>)
    ensures
        r@ == Seq::new(16, |i: int| 0u8),
{
    let mut r: Vec<u8> = Vec::new();
    let mut i: usize = 0;
    while i < 16
        invariant
            i <= 16,
            r@.len() == i,
            forall|j: int| 0 <= j < i ==> r@[j] == 0u8,
        decreases 16 - i,
    {
        r.push(0);
        i = i + 1;
    }
    assert(r@ =~= Seq::new(16, |i: int| 0u8));
    r
}

impl WgpuKspContext {
    /// Constructs a portable context. BiCGSTAB is the only solver that it admits.
    pub fn new(runtime: &mut WgpuRuntime) -> (r: Self)
        ensures
            r@ == next_context(old(runtime)@),
            r@.valid(),
            final(runtime)@ == with_context(old(runtime)@),
    {
        let read = SlotKind::Read;
        let write = SlotKind::ReadWrite;
        let uniform = SlotKind::Uniform;
        runtime.create_shader_module(ShaderModule::Vector, "kryst WebGPU vector kernels");
        runtime.create_pipeline(Kernel::Axpby, "kryst WebGPU axpby", "axpby", None);
        let vector_params: usize = runtime.create_uniform_buffer(
            "kryst WebGPU vector parameters",
            zero_bytes(),
        );
        runtime.create_shader_module(ShaderModule::Reduction, "kryst WebGPU reductions");
        let kinds = [read, read, read, read, write, write, uniform, read, read];
        let reduction_slots = slots(&kinds);
        assert(kinds@ =~= seq![read, read, read, read, write, write, uniform, read, read]);
        runtime.create_layout(
            Layout::Reduction,
            "kryst WebGPU reduction layout",
            "kryst WebGPU reduction pipeline layout",
            reduction_slots,
        );
        runtime.create_pipeline(
            Kernel::ReduceStage,
            "kryst WebGPU reduction stage",
            "reduce_stage",
            Some(Layout::Reduction),
        );
        runtime.create_pipeline(
            Kernel::ReduceFinal,
            "kryst WebGPU reduction final",
            "reduce_final",
            Some(Layout::Reduction),
        );
        let reduction_params: usize = runtime.create_uniform_buffer(
            "kryst WebGPU reduction parameters",
            zero_bytes(),
        );
        let resident = ResidentPipelines::new(runtime);
        WgpuKspContext {
            runtime: runtime.id(),
            operator: None,
            pc_type: PcType::Identity,
            preconditioner: None,
            custom_preconditioner: None,
            convergence: Convergence::new(DEFAULT_RTOL, DEFAULT_ATOL, DEFAULT_DTOL, 10_000),
            workspace: None,
            vector_params,
            reduction_params,
            resident,
        }
    }

    /// The runtime that this context belongs to.
    pub fn runtime(&self) -> (r: u64)
        ensures
            r == self@.runtime,
    {
        self.runtime
    }

    /// The preconditioner that has been selected.
    pub fn pc_type(&self) -> (r: PcType)
        ensures
            r == self@.pc_type,
    {
        self.pc_type
    }

    /// Whether the workspace is in place.
    pub fn is_set_up(&self) -> (r: bool)
        ensures
            r == self@.workspace is Some,
    {
        self.workspace.is_some()
    }

    /// The buffers that this context itself holds. Whoever holds the device can let go of those
    /// that a change of the context has taken from this list.
    pub fn device_buffers(&self) -> (r: Vec<usize>)
        ensures
            r@ == held_buffers(self@),
    {
        let mut r: Vec<usize> = vec![self.vector_params, self.reduction_params];
        if let Some(Prepared::Jacobi(jacobi)) = &self.preconditioner {
            r.push(jacobi.buffer());
        }
        if let Some(work) = &self.workspace {
            let mut buffers = work.device_buffers();
            r.append(&mut buffers);
        }
        assert(r@ =~= held_buffers(self@));
        r
    }

    /// Lets the caller's preconditioner, if there is one, write `output` from `input`. What it
    /// reports is handed on.
    pub fn apply_preconditioner(&self, input: &WgpuVector, output: &WgpuVector) -> (r: Option<
        Result<(), KError>,
    >)
        ensures
            r is Some == self@.custom is Some,
            r matches Some(ended) ==> self@.custom->0.may_end(input@, output@, ended),
    {
        match &self.custom_preconditioner {
            Some(preconditioner) => Some(preconditioner.apply(input, output)),
            None => None,
        }
    }

    /// Confirms that the requested solver is the supported device-resident BiCGSTAB path.
    pub fn set_type(&mut self, solver_type: SolverType) -> (r: Result<&mut Self, KError>)
        ensures
            match r {
                Ok(same) => {
                    &&& solver_type is BiCgStab
                    &&& same@ == old(self)@
                    &&& *final(self) == *final(same)
                },
                Err(e) => {
                    &&& !(solver_type is BiCgStab)
                    &&& e@ == crate::error::ErrorView::Unsupported(
                        "WebGPU currently supports only BiCGStab"@,
                    )
                    &&& final(self)@ == old(self)@
                },
            },
    {
        if solver_type != SolverType::BiCgStab {
            return Err(KError::Unsupported("WebGPU currently supports only BiCGStab"));
        }
        Ok(self)
    }

    /// Selects no preconditioner or right Jacobi scaling.
    pub fn set_pc_type(&mut self, pc_type: PcType) -> (r: Result<&mut Self, KError>)
        ensures
            old(self)@.valid() ==> match r {
                Ok(same) => same@.valid(),
                Err(_) => true,
            },
            match r {
                Ok(same) => {
                    &&& pc_type is Identity || pc_type is Jacobi
                    &&& same@ == (ContextView {
                        pc_type,
                        custom: None,
                        preconditioner: None,
                        workspace: None,
                        ..old(self)@
                    })
                    &&& *final(self) == *final(same)
                },
                Err(e) => {
                    &&& !(pc_type is Identity || pc_type is Jacobi)
                    &&& e@ == crate::error::ErrorView::Unsupported(
                        "WebGPU currently supports only None and Jacobi preconditioners"@,
                    )
                    &&& final(self)@ == old(self)@
                },
            },
    {
        if pc_type != PcType::Identity && pc_type != PcType::Jacobi {
            return Err(
                KError::Unsupported(
                    "WebGPU currently supports only None and Jacobi preconditioners",
                ),
            );
        }
        self.pc_type = pc_type;
        self.custom_preconditioner = None;
        self.preconditioner = None;
        self.workspace = None;
        Ok(self)
    }

    /// Installs a caller-owned resident preconditioner.
    ///
    /// The object is retained across repeated solves and operator-value updates. Its dimensions
    /// are checked against the registered operator during setup.
    pub fn set_preconditioner(&mut self, preconditioner: Box<dyn WgpuPreconditioner>) -> (r:
        &mut Self)
        ensures
            r@ == (ContextView {
                custom: Some(preconditioner),
                preconditioner: None,
                workspace: None,
                ..old(self)@
            }),
            old(self)@.valid() ==> r@.valid(),
            *final(self) == *final(r),
    {
        self.custom_preconditioner = Some(preconditioner);
        self.preconditioner = None;
        self.workspace = None;
        self
    }

    /// Sets the single square operator used for both the equation and the preconditioning
    /// matrix.
    pub fn set_operator(&mut self, operator: Arc<WgpuCsrOp>) -> (r: Result<&mut Self, KError>)
        ensures
            old(self)@.valid() ==> match r {
                Ok(same) => same@.valid(),
                Err(_) => true,
            },
            match r {
                Ok(same) => {
                    &&& operator_error(old(self)@, operator@) is None
                    &&& same@ == (ContextView {
                        operator: Some(operator@),
                        preconditioner: None,
                        workspace: None,
                        ..old(self)@
                    })
                    &&& *final(self) == *final(same)
                },
                Err(e) => {
                    &&& operator_error(old(self)@, operator@) == Some(e@)
                    &&& final(self)@ == old(self)@
                },
            },
    {
        if self.runtime != operator.runtime() {
            return Err(
                invalid_input("WebGPU context and operator belong to different runtimes"),
            );
        }
        let (rows, cols) = operator.dims();
        if rows != cols {
            let mut text = "WebGPU BiCGStab requires a square operator, got ".to_owned();
            text.append(decimal_text(rows).as_str());
            text.append("x");
            text.append(decimal_text(cols).as_str());
            return Err(KError::InvalidInput(text));
        }
        self.operator = Some(operator);
        self.preconditioner = None;
        self.workspace = None;
        Ok(self)
    }

    /// Configures finite convergence tolerances and an iteration bound.
    pub fn set_tolerances(&mut self, rtol: u64, atol: u64, dtol: u64, max_iters: usize) -> (r:
        Result<&mut Self, KError>)
        ensures
            old(self)@.valid() ==> match r {
                Ok(same) => same@.valid(),
                Err(_) => true,
            },
            match r {
                Ok(same) => {
                    let convergence = Convergence { rtol, atol, dtol, max_iters };
                    &&& crate::convergence::usable_tolerances(convergence)
                    &&& same@ == (ContextView { convergence, ..old(self)@ })
                    &&& *final(self) == *final(same)
                },
                Err(e) => {
                    &&& !crate::convergence::usable_tolerances(
                        Convergence { rtol, atol, dtol, max_iters },
                    )
                    &&& e@ == crate::error::ErrorView::InvalidInput(
                        "WebGPU solver tolerances must be finite/non-negative, dtol positive, and max_iters nonzero"@,
                    )
                    &&& final(self)@ == old(self)@
                },
            },
    {
        let convergence = Convergence::new(rtol, atol, dtol, max_iters);
        if !convergence.is_usable() {
            return Err(
                invalid_input(
                    "WebGPU solver tolerances must be finite/non-negative, dtol positive, and max_iters nonzero",
                ),
            );
        }
        self.convergence = convergence;
        Ok(self)
    }

    /// The dimensions that the caller's preconditioner reports, where it is there and is to be
    /// compared with an operator.
    fn custom_dims(&self) -> (r: (usize, usize))
        ensures
            reported(self@, r),
    {
        match (&self.operator, &self.custom_preconditioner) {
            (Some(_), Some(preconditioner)) => preconditioner.dims(),
            _ => (0, 0),
        }
    }

    /// Prepares the selected preconditioner and the reusable device workspace.
    pub fn setup(&mut self, runtime: &mut WgpuRuntime) -> (r: Result<&mut Self, KError>)
        requires
            old(self)@.valid(),
            old(runtime)@.id == old(self)@.runtime,
        ensures
            exists|custom_dims: (usize, usize)|
                #[trigger] setup_error(old(self)@, custom_dims) == crate::error::failure(r)
                    && reported(old(self)@, custom_dims),
            final(runtime)@.id == old(runtime)@.id,
            match r {
                Ok(same) => {
                    &&& same@ == prepared(old(self)@, old(runtime)@)
                    &&& same@.valid()
                    &&& final(runtime)@ == with_setup(old(self)@, old(runtime)@)
                    &&& *final(self) == *final(same)
                },
                Err(_) => {
                    &&& final(self)@ == old(self)@
                    &&& final(runtime)@ == old(runtime)@
                },
            },
    {
        let custom_dims: (usize, usize) = self.custom_dims();
        self.setup_with(runtime, custom_dims)
    }

    /// Prepares the context, where the caller's preconditioner, if there is one, has reported the
    /// dimensions `custom_dims`.
    pub fn setup_with(&mut self, runtime: &mut WgpuRuntime, custom_dims: (usize, usize)) -> (r:
        Result<&mut Self, KError>)
        requires
            old(self)@.valid(),
            old(runtime)@.id == old(self)@.runtime,
        ensures
            final(runtime)@.id == old(runtime)@.id,
            match r {
                Ok(same) => {
                    &&& setup_error(old(self)@, custom_dims) is None
                    &&& same@ == prepared(old(self)@, old(runtime)@)
                    &&& same@.valid()
                    &&& final(runtime)@ == with_setup(old(self)@, old(runtime)@)
                    &&& *final(self) == *final(same)
                },
                Err(e) => {
                    &&& setup_error(old(self)@, custom_dims) == Some(e@)
                    &&& final(self)@ == old(self)@
                    &&& final(runtime)@ == old(runtime)@
                },
            },
    {
        proof {
            lemma_setup_runtime(self@, runtime@);
        }
        let operator: Arc<WgpuCsrOp> = match &self.operator {
            Some(operator) => operator.clone(),
            None => {
                return Err(invalid_input("WebGPU operator is not set"));
            },
        };
        let n: usize = operator.dims().0;
        if self.custom_preconditioner.is_some() {
            if custom_dims.0 != n || custom_dims.1 != n {
                let mut text = "custom WebGPU preconditioner dimensions ".to_owned();
                text.append(pair_text(custom_dims.0, custom_dims.1).as_str());
                text.append(" do not match operator dimensions ");
                text.append(pair_text(n, n).as_str());
                return Err(KError::InvalidInput(text));
            }
        } else if self.preconditioner.is_none() {
            let ready = match self.pc_type {
                PcType::Identity => Prepared::Identity,
                PcType::Jacobi => match WgpuJacobi::from_csr(runtime, &operator) {
                    Ok(jacobi) => Prepared::Jacobi(jacobi),
                    Err(error) => {
                        return Err(error);
                    },
                },
                PcType::Ilu0 => {
                    return Err(
                        KError::Unsupported("selected preconditioner has no WebGPU implementation"),
                    );
                },
            };
            self.preconditioner = Some(ready);
        }
        let reusable: bool = match &self.workspace {
            Some(workspace) => workspace.n == n,
            None => false,
        };
        if !reusable {
            let workspace = BiCgStabWorkspace::new(runtime, n);
            match workspace {
                Ok(workspace) => {
                    self.workspace = Some(workspace);
                },
                Err(error) => {
                    return Err(error);
                },
            }
        }
        Ok(self)
    }
}

} // verus!
