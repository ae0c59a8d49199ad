//! Recording of the device work of a solve.
use super::{
    BiCgStabWorkspace, ContextView, Prepared, PreparedView, ReductionView, ReductionWorkspace,
    WgpuKspContext, WorkspaceView,
};
use crate::bytes::encode_words;
use crate::command::{bind, Command, CommandEncoder, Dispatch, Kernel};
use crate::error::{invalid_input, KError};
use crate::operator::WgpuCsrOp;
use crate::portable::{is_finite32, is_nan64, narrow, single_from_count, square};
use crate::runtime::{group_count, ReadRequest, WgpuRuntime};
use crate::text::decimal_text;
use crate::vector::WgpuVector;
use vstd::prelude::*;
use vstd::string::StringExecFns;

verus! {

/// The double `1`.
pub const ONE: u64 = 0x3ff0_0000_0000_0000;

/// The double `-1`.
pub const MINUS_ONE: u64 = 0xbff0_0000_0000_0000;

/// Largest bound on the iterations that the device can count to exactly.
pub const MAX_EXACT_F32_INTEGER: usize = 0x100_0000;

/// A double as a finite single, where it has one.
pub open spec fn finite_single(bits: u64) -> Option<u32> {
    if !crate::portable::nan64(bits) && crate::portable::finite32(
        crate::portable::narrowed(bits),
    ) {
        Some(crate::portable::narrowed(bits))
    } else {
        None
    }
}

/// A double as a finite single, where it has one.
fn to_finite_single(bits: u64) -> (r: Option<u32>)
    ensures
        r == finite_single(bits),
{
    if is_nan64(bits) {
        return None;
    }
    let single: u32 = narrow(bits);
    if is_finite32(single) {
        Some(single)
    } else {
        None
    }
}

/// The error with which a vector kernel is refused, if it is.
pub open spec fn vector_error(
    input_a: crate::vector::VectorView,
    output: crate::vector::VectorView,
    input_c: crate::vector::VectorView,
) -> Option<crate::error::ErrorView> {
    if crate::vector::compatibility_error(input_a, output) is Some {
        crate::vector::compatibility_error(input_a, output)
    } else if crate::vector::compatibility_error(input_a, input_c) is Some {
        crate::vector::compatibility_error(input_a, input_c)
    } else if crate::runtime::groups(output.len as nat, 128) > u32::MAX {
        Some(crate::error::ErrorView::InvalidInput("WebGPU vector size exceeds dispatch range"@))
    } else {
        None
    }
}

/// The pass of a vector kernel, which reads two vectors and updates a third.
pub open spec fn vector_pass(
    kernel: Kernel,
    state: usize,
    input_a: crate::vector::VectorView,
    output: crate::vector::VectorView,
    input_c: crate::vector::VectorView,
) -> crate::command::EncodedView {
    crate::command::EncodedView::ComputePass {
        label: "kryst resident BiCGSTAB vector operation"@,
        bindings: crate::command::bound(
            seq![state, input_a.buffer, output.buffer, input_c.buffer],
        ),
        dispatches: seq![
            Dispatch {
                kernel,
                groups: crate::runtime::groups(output.len as nat, 128) as u32,
            },
        ],
    }
}

/// The pass of a scalar kernel, which updates the solver state from the last reduction.
pub open spec fn scalar_pass(
    kernel: Kernel,
    state: usize,
    reduction: ReductionView,
) -> crate::command::EncodedView {
    crate::command::EncodedView::ComputePass {
        label: "kryst resident BiCGSTAB scalar operation"@,
        bindings: crate::command::bound(seq![state, reduction.result]),
        dispatches: seq![Dispatch { kernel, groups: 1 }],
    }
}

/// Three pairs of vectors whose dot products are taken together.
pub ghost struct PairsView {
    pub x0: crate::vector::VectorView,
    pub y0: crate::vector::VectorView,
    pub x1: crate::vector::VectorView,
    pub y1: crate::vector::VectorView,
    pub x2: crate::vector::VectorView,
    pub y2: crate::vector::VectorView,
}

/// Three pairs of vectors whose dot products are taken together.
#[derive(Clone, Copy)]
pub struct Pairs<'a> {
    pub x0: &'a WgpuVector,
    pub y0: &'a WgpuVector,
    pub x1: &'a WgpuVector,
    pub y1: &'a WgpuVector,
    pub x2: &'a WgpuVector,
    pub y2: &'a WgpuVector,
}

impl<'a> View for Pairs<'a> {
    type V = PairsView;

    open spec fn view(&self) -> PairsView {
        PairsView {
            x0: self.x0@,
            y0: self.y0@,
            x1: self.x1@,
            y1: self.y1@,
            x2: self.x2@,
            y2: self.y2@,
        }
    }
}

impl PairsView {
    /// The error with which vectors that do not go together are refused.
    pub open spec fn mismatch(self) -> Option<crate::error::ErrorView> {
        let with = |other: crate::vector::VectorView|
            crate::vector::compatibility_error(self.x0, other);
        if with(self.y0) is Some {
            with(self.y0)
        } else if with(self.x1) is Some {
            with(self.x1)
        } else if with(self.y1) is Some {
            with(self.y1)
        } else if with(self.x2) is Some {
            with(self.x2)
        } else {
            with(self.y2)
        }
    }
}

impl<'a> Pairs<'a> {
    /// Refuses vectors of different runtimes or lengths.
    fn ensure_compatible(&self) -> (r: Result<(), KError>)
        ensures
            self@.mismatch() == crate::error::failure(r),
    {
        match self.x0.ensure_compatible(self.y0) {
            Ok(_) => {},
            Err(error) => {
                return Err(error);
            },
        }
        match self.x0.ensure_compatible(self.x1) {
            Ok(_) => {},
            Err(error) => {
                return Err(error);
            },
        }
        match self.x0.ensure_compatible(self.y1) {
            Ok(_) => {},
            Err(error) => {
                return Err(error);
            },
        }
        match self.x0.ensure_compatible(self.x2) {
            Ok(_) => {},
            Err(error) => {
                return Err(error);
            },
        }
        self.x0.ensure_compatible(self.y2)
    }
}

/// The error with which a reduction inside an iteration is refused, if it is.
pub open spec fn dots_error(pairs: PairsView, reduction: ReductionView) -> Option<
    crate::error::ErrorView,
> {
    if pairs.mismatch() is Some {
        pairs.mismatch()
    } else if reduction.partial_count > u32::MAX {
        Some(crate::error::ErrorView::InvalidInput("WebGPU reduction count exceeds u32"@))
    } else {
        None
    }
}

/// The error with which a reduction of its own is refused, if it is.
pub open spec fn dot3_error(pairs: PairsView, reduction: ReductionView) -> Option<
    crate::error::ErrorView,
> {
    if pairs.mismatch() is Some {
        pairs.mismatch()
    } else if pairs.x0.len > u32::MAX {
        Some(crate::error::ErrorView::InvalidInput("WebGPU vector length exceeds u32"@))
    } else if reduction.partial_count > u32::MAX {
        Some(crate::error::ErrorView::InvalidInput("WebGPU reduction count exceeds u32"@))
    } else {
        None
    }
}

/// The pass that takes three dot products.
pub open spec fn dots_pass(
    label: Seq<char>,
    pairs: PairsView,
    reduction: ReductionView,
    params: usize,
) -> crate::command::EncodedView {
    crate::command::EncodedView::ComputePass {
        label,
        bindings: crate::command::bound(
            seq![
                pairs.x0.buffer,
                pairs.y0.buffer,
                pairs.x1.buffer,
                pairs.y1.buffer,
                reduction.partials,
                reduction.result,
                params,
                pairs.x2.buffer,
                pairs.y2.buffer,
            ],
        ),
        dispatches: seq![
            Dispatch { kernel: Kernel::ReduceStage, groups: reduction.partial_count as u32 },
            Dispatch { kernel: Kernel::ReduceFinal, groups: 1 },
        ],
    }
}

/// The runtime after the parameters of reductions over `len` entries have been written.
pub open spec fn with_reduction_params(
    runtime: crate::runtime::RuntimeView,
    params: usize,
    len: usize,
    reduction: ReductionView,
) -> crate::runtime::RuntimeView {
    runtime.write(
        params,
        crate::bytes::words_bytes(
            runtime.order,
            seq![len as u32, reduction.partial_count as u32, 0, 0],
        ),
    )
}

/// The runtime after three dot products in a submission of their own.
pub open spec fn with_dot3(
    runtime: crate::runtime::RuntimeView,
    params: usize,
    pairs: PairsView,
    reduction: ReductionView,
) -> crate::runtime::RuntimeView {
    with_reduction_params(runtime, params, pairs.x0.len, reduction).submit(
        crate::command::EncoderView::empty("kryst WebGPU dot3"@).with(
            dots_pass("kryst WebGPU dot3"@, pairs, reduction, params),
        ),
    )
}

/// The error with which `y = alpha x + beta y` is refused, if it is.
pub open spec fn axpby_error(
    alpha: u64,
    x: crate::vector::VectorView,
    beta: u64,
    y: crate::vector::VectorView,
) -> Option<crate::error::ErrorView> {
    if crate::vector::compatibility_error(x, y) is Some {
        crate::vector::compatibility_error(x, y)
    } else if finite_single(alpha) is None || finite_single(beta) is None {
        Some(
            crate::error::ErrorView::InvalidInput(
                "WebGPU axpby coefficient exceeds portable f32 range"@,
            ),
        )
    } else if x.len > u32::MAX {
        Some(crate::error::ErrorView::InvalidInput("WebGPU vector length exceeds u32"@))
    } else {
        None
    }
}

/// The runtime after `y = alpha x + beta y`.
pub open spec fn with_axpby(
    runtime: crate::runtime::RuntimeView,
    params: usize,
    alpha: u64,
    x: crate::vector::VectorView,
    beta: u64,
    y: crate::vector::VectorView,
) -> crate::runtime::RuntimeView {
    runtime.write(
        params,
        crate::bytes::words_bytes(
            runtime.order,
            seq![
                crate::portable::narrowed(alpha),
                crate::portable::narrowed(beta),
                x.len as u32,
                0,
            ],
        ),
    ).submit(
        crate::command::EncoderView::empty("kryst WebGPU axpby"@).with(
            crate::command::EncodedView::ComputePass {
                label: "kryst WebGPU axpby"@,
                bindings: crate::command::bound(seq![x.buffer, y.buffer, params]),
                dispatches: seq![
                    Dispatch {
                        kernel: Kernel::Axpby,
                        groups: crate::runtime::groups(x.len as nat, 128) as u32,
                    },
                ],
            },
        ),
    )
}

/// The runtime after the copy of one vector to another.
pub open spec fn with_copy(
    runtime: crate::runtime::RuntimeView,
    source: crate::vector::VectorView,
    destination: crate::vector::VectorView,
) -> crate::runtime::RuntimeView {
    runtime.submit(
        crate::command::EncoderView::empty("copy WebGPU vector"@).with(
            crate::command::EncodedView::CopyBuffer {
                source: source.buffer,
                destination: destination.buffer,
                bytes: crate::runtime::single_bytes(source.len),
            },
        ),
    )
}

/// Numbers up to `u32::MAX` are covered by that many groups.
pub(super) proof fn lemma_groups_fit(len: nat, width: nat)
    requires
        0 < width,
        len <= u32::MAX,
    ensures
        crate::runtime::groups(len, width) <= u32::MAX,
{
    if len == 0 {
        vstd::arithmetic::div_mod::lemma_basic_div(width - 1, width as int);
    } else {
        let q = crate::runtime::groups(len, width);
        vstd::arithmetic::div_mod::lemma_fundamental_div_mod(
            (len + width - 1) as int,
            width as int,
        );
        assert(q <= len) by (nonlinear_arith)
            requires
                width * q <= len + width - 1,
                len > 0,
                width > 0,
        ;
    }
}

/// Work in the making: what has been recorded, and the encoder that is still open.
pub ghost struct Recording {
    pub runtime: crate::runtime::RuntimeView,
    pub encoder: crate::command::EncoderView,
}

impl Recording {
    /// One more command in the open encoder.
    pub open spec fn with(self, command: crate::command::EncodedView) -> Recording {
        Recording { encoder: self.encoder.with(command), ..self }
    }

    /// The preconditioner of a context, applied to `x` with its result in `y`.
    ///
    /// A caller's preconditioner submits work of its own, so what has been encoded before is
    /// submitted first.
    pub open spec fn precondition(
        self,
        context: ContextView,
        x: crate::vector::VectorView,
        y: crate::vector::VectorView,
    ) -> Recording {
        if context.custom is Some {
            Recording {
                runtime: self.runtime.submit(self.encoder).record(
                    crate::command::CommandView::Precondition { input: x, output: y },
                ),
                encoder: crate::command::EncoderView::empty(self.encoder.label),
            }
        } else {
            match context.preconditioner->0 {
                PreparedView::Identity => self.with(
                    crate::command::EncodedView::CopyBuffer {
                        source: x.buffer,
                        destination: y.buffer,
                        bytes: crate::runtime::single_bytes(x.len),
                    },
                ),
                PreparedView::Jacobi(jacobi) => self.with(
                    crate::preconditioner::scaling_pass(jacobi, x, y),
                ),
            }
        }
    }
}

/// The error with which a preconditioner is refused, if it is.
pub open spec fn preconditioner_error(
    context: ContextView,
    x: crate::vector::VectorView,
    y: crate::vector::VectorView,
) -> Option<crate::error::ErrorView> {
    if context.custom is Some {
        None
    } else {
        match context.preconditioner->0 {
            PreparedView::Identity => crate::vector::compatibility_error(x, y),
            PreparedView::Jacobi(jacobi) => crate::preconditioner::scaling_error(jacobi, x, y),
        }
    }
}

/// Whether an iteration can be encoded: the preconditioner is there, all vectors have the length
/// of the system and belong to the runtime, and the device can index them.
pub open spec fn iterable(
    context: ContextView,
    operator: crate::operator::OperatorView,
    work: WorkspaceView,
    x: crate::vector::VectorView,
) -> bool {
    &&& context.custom is Some || context.preconditioner is Some
    &&& context.preconditioner matches Some(PreparedView::Jacobi(jacobi)) ==> {
        &&& jacobi.runtime == context.runtime
        &&& jacobi.n == work.n
    }
    &&& operator.runtime == context.runtime
    &&& operator.nrows == work.n
    &&& operator.ncols == work.n
    &&& work.valid(context.runtime)
    &&& work.n <= u32::MAX
    &&& x.runtime == context.runtime
    &&& x.len == work.n
}

/// The first pair of a reduction, with the other two pairs.
pub open spec fn pairs(
    x0: crate::vector::VectorView,
    y0: crate::vector::VectorView,
    x1: crate::vector::VectorView,
    y1: crate::vector::VectorView,
    x2: crate::vector::VectorView,
    y2: crate::vector::VectorView,
) -> PairsView {
    PairsView { x0, y0, x1, y1, x2, y2 }
}

/// One resident BiCGSTAB iteration.
pub open spec fn iteration(
    start: Recording,
    context: ContextView,
    operator: crate::operator::OperatorView,
    work: WorkspaceView,
    x: crate::vector::VectorView,
) -> Recording {
    let w = work;
    let scalar = |kernel: Kernel| scalar_pass(kernel, w.state, w.reduction);
    let dots = |p: PairsView|
        dots_pass("kryst resident WebGPU dot2"@, p, w.reduction, context.reduction_params);
    start.with(dots(pairs(w.r_hat, w.r, w.r, w.r, w.r, w.r))).with(
        scalar(Kernel::BeginIteration),
    ).with(vector_pass(Kernel::UpdatePOmega, w.state, w.r, w.p, w.v)).with(
        vector_pass(Kernel::PrepareP, w.state, w.r, w.p, w.v),
    ).precondition(context, w.p, w.z_p).with(
        crate::operator::product_pass(operator, w.z_p, w.v),
    ).with(dots(pairs(w.r_hat, w.v, w.r_hat, w.v, w.r_hat, w.v))).with(
        scalar(Kernel::FinishAlpha),
    ).with(vector_pass(Kernel::MakeS, w.state, w.r, w.s, w.v)).with(
        vector_pass(Kernel::UpdateXAlpha, w.state, w.z_p, x, w.t),
    ).precondition(context, w.s, w.z_s).with(
        crate::operator::product_pass(operator, w.z_s, w.t),
    ).with(dots(pairs(w.s, w.s, w.t, w.t, w.t, w.s))).with(scalar(Kernel::CheckS)).with(
        scalar(Kernel::FinishOmega),
    ).with(vector_pass(Kernel::UpdateXOmega, w.state, w.z_s, x, w.t)).with(
        vector_pass(Kernel::MakeR, w.state, w.s, w.r, w.t),
    ).with(dots(pairs(w.r_hat, w.r, w.r, w.r, w.r, w.r))).with(scalar(Kernel::CheckR))
}

/// The words of the solver state at the start of a solve.
pub open spec fn resident_state(
    convergence: crate::convergence::Convergence,
    bnorm_squared: u64,
    residual_squared: u64,
) -> Seq<u32> {
    let one = crate::portable::count_single(1);
    let residual = crate::portable::narrowed(residual_squared);
    seq![
        residual,
        residual,
        one,
        0,
        one,
        0,
        0,
        crate::portable::narrowed(bnorm_squared),
        residual,
        crate::portable::narrowed(crate::portable::squared(convergence.rtol)),
        crate::portable::narrowed(crate::portable::squared(convergence.atol)),
        crate::portable::narrowed(crate::portable::squared(convergence.dtol)),
        one,
        0,
        0,
        crate::portable::count_single(convergence.max_iters as nat),
    ]
}

/// The error with which a solver state is refused, if it is.
pub open spec fn state_error(
    convergence: crate::convergence::Convergence,
    bnorm_squared: u64,
    residual_squared: u64,
) -> Option<crate::error::ErrorView> {
    if convergence.max_iters > MAX_EXACT_F32_INTEGER {
        Some(
            crate::error::ErrorView::InvalidInput(
                "WebGPU resident iteration limit "@ + crate::text::decimal(
                    convergence.max_iters as nat,
                ) + " exceeds exact f32 control range"@,
            ),
        )
    } else if finite_single(crate::portable::squared(convergence.rtol)) is None || finite_single(
        crate::portable::squared(convergence.atol),
    ) is None || finite_single(crate::portable::squared(convergence.dtol)) is None {
        Some(
            crate::error::ErrorView::InvalidInput(
                "WebGPU squared solver tolerances exceed portable f32 range"@,
            ),
        )
    } else if finite_single(bnorm_squared) is None || finite_single(residual_squared) is None {
        Some(
            crate::error::ErrorView::InvalidInput(
                "WebGPU resident solver state exceeds portable f32 range"@,
            ),
        )
    } else {
        None
    }
}

impl WgpuKspContext {
    /// Encodes a vector kernel.
    fn encode_vector(
        &self,
        encoder: &mut CommandEncoder,
        kernel: Kernel,
        state: usize,
        input_a: &WgpuVector,
        output: &WgpuVector,
        input_c: &WgpuVector,
    ) -> (r: Result<(), KError>)
        ensures
            vector_error(input_a@, output@, input_c@) == crate::error::failure(r),
            r is Ok ==> final(encoder)@ == old(encoder)@.with(
                vector_pass(kernel, state, input_a@, output@, input_c@),
            ),
            r is Err ==> final(encoder)@ == old(encoder)@,
    {
        match input_a.ensure_compatible(output) {
            Ok(_) => {},
            Err(error) => {
                return Err(error);
            },
        }
        match input_a.ensure_compatible(input_c) {
            Ok(_) => {},
            Err(error) => {
                return Err(error);
            },
        }
        let groups: u32 = match group_count(output.len(), 128) {
            Some(groups) => groups,
            None => {
                return Err(invalid_input("WebGPU vector size exceeds dispatch range"));
            },
        };
        let buffers = [state, input_a.buffer(), output.buffer(), input_c.buffer()];
        let bindings = bind(&buffers);
        let dispatches = vec![Dispatch { kernel, groups }];
        assert(bindings@ =~= crate::command::bound(
            seq![state, input_a@.buffer, output@.buffer, input_c@.buffer],
        ));
        assert(dispatches@ =~= seq![Dispatch { kernel, groups }]);
        encoder.compute_pass("kryst resident BiCGSTAB vector operation", bindings, dispatches);
        Ok(())
    }

    /// Encodes a scalar kernel.
    fn encode_scalar(
        &self,
        encoder: &mut CommandEncoder,
        kernel: Kernel,
        state: usize,
        reduction: &ReductionWorkspace,
    )
        ensures
            final(encoder)@ == old(encoder)@.with(scalar_pass(kernel, state, reduction@)),
    {
        let buffers = [state, reduction.result];
        let bindings = bind(&buffers);
        let dispatches = vec![Dispatch { kernel, groups: 1 }];
        assert(bindings@ =~= crate::command::bound(seq![state, reduction@.result]));
        assert(dispatches@ =~= seq![Dispatch { kernel, groups: 1 }]);
        encoder.compute_pass("kryst resident BiCGSTAB scalar operation", bindings, dispatches);
    }

    /// The bindings of a reduction.
    fn reduction_bindings(&self, pairs: &Pairs, reduction: &ReductionWorkspace) -> (r: Vec<
        crate::command::Binding,
    >)
        ensures
            r@ == crate::command::bound(
                seq![
                    pairs@.x0.buffer,
                    pairs@.y0.buffer,
                    pairs@.x1.buffer,
                    pairs@.y1.buffer,
                    reduction@.partials,
                    reduction@.result,
                    self@.reduction_params,
                    pairs@.x2.buffer,
                    pairs@.y2.buffer,
                ],
            ),
    {
        let buffers = [
            pairs.x0.buffer(),
            pairs.y0.buffer(),
            pairs.x1.buffer(),
            pairs.y1.buffer(),
            reduction.partials,
            reduction.result,
            self.reduction_params,
            pairs.x2.buffer(),
            pairs.y2.buffer(),
        ];
        let r = bind(&buffers);
        assert(buffers@ =~= seq![
            pairs@.x0.buffer,
            pairs@.y0.buffer,
            pairs@.x1.buffer,
            pairs@.y1.buffer,
            reduction@.partials,
            reduction@.result,
            self@.reduction_params,
            pairs@.x2.buffer,
            pairs@.y2.buffer,
        ]);
        r
    }

    /// Encodes three dot products.
    fn encode_dot3(
        &self,
        encoder: &mut CommandEncoder,
        pairs: &Pairs,
        reduction: &ReductionWorkspace,
    ) -> (r: Result<(), KError>)
        ensures
            dots_error(pairs@, reduction@) == crate::error::failure(r),
            r is Ok ==> final(encoder)@ == old(encoder)@.with(
                dots_pass(
                    "kryst resident WebGPU dot2"@,
                    pairs@,
                    reduction@,
                    self@.reduction_params,
                ),
            ),
            r is Err ==> final(encoder)@ == old(encoder)@,
    {
        match pairs.ensure_compatible() {
            Ok(_) => {},
            Err(error) => {
                return Err(error);
            },
        }
        if reduction.partial_count > u32::MAX as usize {
            return Err(invalid_input("WebGPU reduction count exceeds u32"));
        }
        let bindings = self.reduction_bindings(pairs, reduction);
        let groups: u32 = reduction.partial_count as u32;
        let dispatches = vec![
            Dispatch { kernel: Kernel::ReduceStage, groups },
            Dispatch { kernel: Kernel::ReduceFinal, groups: 1 },
        ];
        assert(dispatches@ =~= seq![
            Dispatch { kernel: Kernel::ReduceStage, groups },
            Dispatch { kernel: Kernel::ReduceFinal, groups: 1 },
        ]);
        encoder.compute_pass("kryst resident WebGPU dot2", bindings, dispatches);
        Ok(())
    }

    /// Writes the parameters of reductions over `n` entries.
    pub(super) fn prepare_reduction(
        &self,
        runtime: &mut WgpuRuntime,
        reduction: &ReductionWorkspace,
        n: usize,
    ) -> (r: Result<(), KError>)
        requires
            old(runtime)@.id == self@.runtime,
        ensures
            match r {
                Ok(_) => {
                    &&& n <= u32::MAX
                    &&& reduction@.partial_count <= u32::MAX
                    &&& final(runtime)@ == with_reduction_params(
                        old(runtime)@,
                        self@.reduction_params,
                        n,
                        reduction@,
                    )
                },
                Err(e) => {
                    &&& final(runtime)@ == old(runtime)@
                    &&& if n > u32::MAX {
                        e@ == crate::error::ErrorView::InvalidInput(
                            "WebGPU vector length exceeds u32"@,
                        )
                    } else {
                        &&& reduction@.partial_count > u32::MAX
                        &&& e@ == crate::error::ErrorView::InvalidInput(
                            "WebGPU reduction count exceeds u32"@,
                        )
                    }
                },
            },
    {
        if n > u32::MAX as usize {
            return Err(invalid_input("WebGPU vector length exceeds u32"));
        }
        if reduction.partial_count > u32::MAX as usize {
            return Err(invalid_input("WebGPU reduction count exceeds u32"));
        }
        let words = [n as u32, reduction.partial_count as u32, 0, 0];
        let params = encode_words(runtime.byte_order(), &words);
        assert(words@ =~= seq![n as u32, reduction@.partial_count as u32, 0, 0]);
        runtime.write_buffer(self.reduction_params, params);
        Ok(())
    }

    /// Records three dot products and asks for their values.
    pub(super) fn dot3(
        &self,
        runtime: &mut WgpuRuntime,
        pairs: &Pairs,
        reduction: &ReductionWorkspace,
    ) -> (r: Result<ReadRequest, KError>)
        requires
            old(runtime)@.id == self@.runtime,
        ensures
            dot3_error(pairs@, reduction@) == crate::error::failure(r),
            r matches Ok(request) ==> {
                &&& request.source == reduction@.result
                &&& request.byte_count == 16
                &&& request.staging_size == 16
                &&& request.staging_usage == crate::runtime::READBACK_USAGE
                &&& request.operation@ == "read WebGPU dot3"@
                &&& final(runtime)@ == with_dot3(
                    old(runtime)@,
                    self@.reduction_params,
                    pairs@,
                    reduction@,
                )
            },
            r is Err ==> final(runtime)@ == old(runtime)@,
    {
        match pairs.ensure_compatible() {
            Ok(_) => {},
            Err(error) => {
                return Err(error);
            },
        }
        match self.prepare_reduction(runtime, reduction, pairs.x0.len()) {
            Ok(_) => {},
            Err(error) => {
                return Err(error);
            },
        }
        let bindings = self.reduction_bindings(pairs, reduction);
        let groups: u32 = reduction.partial_count as u32;
        let dispatches = vec![
            Dispatch { kernel: Kernel::ReduceStage, groups },
            Dispatch { kernel: Kernel::ReduceFinal, groups: 1 },
        ];
        assert(dispatches@ =~= seq![
            Dispatch { kernel: Kernel::ReduceStage, groups },
            Dispatch { kernel: Kernel::ReduceFinal, groups: 1 },
        ]);
        let mut encoder = CommandEncoder::new("kryst WebGPU dot3");
        encoder.compute_pass("kryst WebGPU dot3", bindings, dispatches);
        runtime.submit(encoder);
        Ok(WgpuRuntime::read_f32(reduction.result, 4, "read WebGPU dot3"))
    }

    /// Records the copy of one vector to another.
    pub(super) fn copy(
        &self,
        runtime: &mut WgpuRuntime,
        source: &WgpuVector,
        destination: &WgpuVector,
    ) -> (r: Result<(), KError>)
        requires
            old(runtime)@.id == self@.runtime,
        ensures
            crate::vector::compatibility_error(source@, destination@) == crate::error::failure(r),
            r is Ok ==> final(runtime)@ == with_copy(old(runtime)@, source@, destination@),
            r is Err ==> final(runtime)@ == old(runtime)@,
    {
        match source.ensure_compatible(destination) {
            Ok(_) => {},
            Err(error) => {
                return Err(error);
            },
        }
        runtime.copy_buffer(
            source.buffer(),
            destination.buffer(),
            source.byte_len(),
            "copy WebGPU vector",
        );
        Ok(())
    }

    /// Records `y = alpha x + beta y`.
    pub(super) fn axpby(
        &self,
        runtime: &mut WgpuRuntime,
        alpha: u64,
        x: &WgpuVector,
        beta: u64,
        y: &WgpuVector,
    ) -> (r: Result<(), KError>)
        requires
            old(runtime)@.id == self@.runtime,
        ensures
            axpby_error(alpha, x@, beta, y@) == crate::error::failure(r),
            r is Ok ==> final(runtime)@ == with_axpby(
                old(runtime)@,
                self@.vector_params,
                alpha,
                x@,
                beta,
                y@,
            ),
            r is Err ==> final(runtime)@ == old(runtime)@,
    {
        match x.ensure_compatible(y) {
            Ok(_) => {},
            Err(error) => {
                return Err(error);
            },
        }
        let (alpha_single, beta_single): (u32, u32) = match (
            to_finite_single(alpha),
            to_finite_single(beta),
        ) {
            (Some(a), Some(b)) => (a, b),
            _ => {
                return Err(invalid_input("WebGPU axpby coefficient exceeds portable f32 range"));
            },
        };
        if x.len() > u32::MAX as usize {
            return Err(invalid_input("WebGPU vector length exceeds u32"));
        }
        proof {
            lemma_groups_fit(x@.len as nat, 128);
        }
        let groups: u32 = match group_count(x.len(), 128) {
            Some(groups) => groups,
            None => {
                return Err(invalid_input("WebGPU vector size exceeds dispatch range"));
            },
        };
        let words = [alpha_single, beta_single, x.len() as u32, 0];
        let params = encode_words(runtime.byte_order(), &words);
        assert(words@ =~= seq![
            crate::portable::narrowed(alpha),
            crate::portable::narrowed(beta),
            x@.len as u32,
            0,
        ]);
        runtime.write_buffer(self.vector_params, params);
        let buffers = [x.buffer(), y.buffer(), self.vector_params];
        let bindings = bind(&buffers);
        assert(buffers@ =~= seq![x@.buffer, y@.buffer, self@.vector_params]);
        let dispatches = vec![Dispatch { kernel: Kernel::Axpby, groups }];
        assert(dispatches@ =~= seq![Dispatch { kernel: Kernel::Axpby, groups }]);
        let mut encoder = CommandEncoder::new("kryst WebGPU axpby");
        encoder.compute_pass("kryst WebGPU axpby", bindings, dispatches);
        runtime.submit(encoder);
        Ok(())
    }

    /// Writes the solver state at the start of a solve.
    pub(super) fn initialize_resident_state(
        &self,
        runtime: &mut WgpuRuntime,
        state: usize,
        bnorm_squared: u64,
        residual_squared: u64,
    ) -> (r: Result<(), KError>)
        requires
            self@.valid(),
            old(runtime)@.id == self@.runtime,
        ensures
            state_error(self@.convergence, bnorm_squared, residual_squared)
                == crate::error::failure(r),
            r is Ok ==> final(runtime)@ == old(runtime)@.write(
                state,
                crate::bytes::words_bytes(
                    old(runtime)@.order,
                    resident_state(self@.convergence, bnorm_squared, residual_squared),
                ),
            ),
            r is Err ==> final(runtime)@ == old(runtime)@,
    {
        let max_iters: usize = self.convergence.max_iters;
        if max_iters > MAX_EXACT_F32_INTEGER {
            let mut text = "WebGPU resident iteration limit ".to_owned();
            text.append(decimal_text(max_iters).as_str());
            text.append(" exceeds exact f32 control range");
            return Err(KError::InvalidInput(text));
        }
        let (rtol_squared, atol_squared, dtol_squared): (u32, u32, u32) = match (
            to_finite_single(square(self.convergence.rtol)),
            to_finite_single(square(self.convergence.atol)),
            to_finite_single(square(self.convergence.dtol)),
        ) {
            (Some(r), Some(a), Some(d)) => (r, a, d),
            _ => {
                return Err(
                    invalid_input("WebGPU squared solver tolerances exceed portable f32 range"),
                );
            },
        };
        let (bnorm, residual): (u32, u32) = match (
            to_finite_single(bnorm_squared),
            to_finite_single(residual_squared),
        ) {
            (Some(b), Some(r)) => (b, r),
            _ => {
                return Err(
                    invalid_input("WebGPU resident solver state exceeds portable f32 range"),
                );
            },
        };
        let one: u32 = single_from_count(1);
        let values = [
            residual,
            residual,
            one,
            0,
            one,
            0,
            0,
            bnorm,
            residual,
            rtol_squared,
            atol_squared,
            dtol_squared,
            one,
            0,
            0,
            single_from_count(max_iters as u32),
        ];
        assert(values@ =~= resident_state(self@.convergence, bnorm_squared, residual_squared));
        let contents = encode_words(runtime.byte_order(), &values);
        runtime.write_buffer(state, contents);
        Ok(())
    }

    /// Encodes the preconditioner.
    fn encode_preconditioner(
        &self,
        runtime: &mut WgpuRuntime,
        encoder: &mut CommandEncoder,
        x: &WgpuVector,
        y: &WgpuVector,
    ) -> (r: Result<(), KError>)
        requires
            old(runtime)@.id == self@.runtime,
            self@.custom is Some || self@.preconditioner is Some,
        ensures
            preconditioner_error(self@, x@, y@) == crate::error::failure(r),
            ({
                let start = Recording { runtime: old(runtime)@, encoder: old(encoder)@ };
                let end = Recording { runtime: final(runtime)@, encoder: final(encoder)@ };
                end == if r is Ok {
                    start.precondition(self@, x@, y@)
                } else {
                    start
                }
            }),
    {
        if self.custom_preconditioner.is_some() {
            let before = encoder.restart();
            runtime.submit(before);
            runtime.record(Command::Precondition { input: *x, output: *y });
            return Ok(());
        }
        match &self.preconditioner {
            Some(Prepared::Jacobi(jacobi)) => jacobi.encode_apply(encoder, x, y),
            _ => {
                match x.ensure_compatible(y) {
                    Ok(_) => {},
                    Err(error) => {
                        return Err(error);
                    },
                }
                encoder.copy_buffer_to_buffer(x.buffer(), y.buffer(), x.byte_len());
                Ok(())
            },
        }
    }

    /// Encodes one iteration.
    pub(super) fn encode_resident_iteration(
        &self,
        runtime: &mut WgpuRuntime,
        encoder: &mut CommandEncoder,
        operator: &WgpuCsrOp,
        work: &BiCgStabWorkspace,
        x: &WgpuVector,
    ) -> (r: Result<(), KError>)
        requires
            old(runtime)@.id == self@.runtime,
            iterable(self@, operator@, work@, x@),
        ensures
            r is Ok,
            (Recording { runtime: final(runtime)@, encoder: final(encoder)@ }) == iteration(
                Recording { runtime: old(runtime)@, encoder: old(encoder)@ },
                self@,
                operator@,
                work@,
                x@,
            ),
    {
        let state: usize = work.state;
        let (r, r_hat, p, v) = (&work.r, &work.r_hat, &work.p, &work.v);
        let (s, t, z_p, z_s) = (&work.s, &work.t, &work.z_p, &work.z_s);
        let reduction = &work.reduction;
        proof {
            lemma_groups_fit(work@.n as nat, 128);
            lemma_groups_fit(work@.n as nat, 256);
        }
        let residual = Pairs { x0: r_hat, y0: r, x1: r, y1: r, x2: r, y2: r };
        self.encode_dot3(encoder, &residual, reduction)?;
        self.encode_scalar(encoder, Kernel::BeginIteration, state, reduction);
        self.encode_vector(encoder, Kernel::UpdatePOmega, state, r, p, v)?;
        self.encode_vector(encoder, Kernel::PrepareP, state, r, p, v)?;
        self.encode_preconditioner(runtime, encoder, p, z_p)?;
        operator.encode_apply(encoder, z_p, v)?;
        let step = Pairs { x0: r_hat, y0: v, x1: r_hat, y1: v, x2: r_hat, y2: v };
        self.encode_dot3(encoder, &step, reduction)?;
        self.encode_scalar(encoder, Kernel::FinishAlpha, state, reduction);
        self.encode_vector(encoder, Kernel::MakeS, state, r, s, v)?;
        self.encode_vector(encoder, Kernel::UpdateXAlpha, state, z_p, x, t)?;
        self.encode_preconditioner(runtime, encoder, s, z_s)?;
        operator.encode_apply(encoder, z_s, t)?;
        let correction = Pairs { x0: s, y0: s, x1: t, y1: t, x2: t, y2: s };
        self.encode_dot3(encoder, &correction, reduction)?;
        self.encode_scalar(encoder, Kernel::CheckS, state, reduction);
        self.encode_scalar(encoder, Kernel::FinishOmega, state, reduction);
        self.encode_vector(encoder, Kernel::UpdateXOmega, state, z_s, x, t)?;
        self.encode_vector(encoder, Kernel::MakeR, state, s, r, t)?;
        self.encode_dot3(encoder, &residual, reduction)?;
        self.encode_scalar(encoder, Kernel::CheckR, state, reduction);
        Ok(())
    }
}

/// The words of the solver state that a solve starts with: the squared tolerances, each of its own
/// tolerance, the squared norms that the solve was given, coefficients of one, the mark of a
/// running state, no iteration and no reason yet, and the bound on the iterations. The doubles
/// that come with it are the squares of the three tolerances.
pub proof fn law_state_words(
    convergence: crate::convergence::Convergence,
    bnorm_squared: u64,
    residual_squared: u64,
) -> (squares: (u64, u64, u64))
    requires
        state_error(convergence, bnorm_squared, residual_squared) is None,
    ensures
        ({
            let words = resident_state(convergence, bnorm_squared, residual_squared);
            &&& words.len() == 16
            &&& crate::portable::narrows_to(residual_squared, words[0])
            &&& crate::portable::narrows_to(residual_squared, words[1])
            &&& words[2] == 0x3f80_0000
            &&& words[3] == 0
            &&& words[4] == 0x3f80_0000
            &&& words[5] == 0
            &&& words[6] == 0
            &&& crate::portable::narrows_to(bnorm_squared, words[7])
            &&& crate::portable::narrows_to(residual_squared, words[8])
            &&& crate::portable::squares_to(convergence.rtol, squares.0)
            &&& crate::portable::narrows_to(squares.0, words[9])
            &&& crate::portable::squares_to(convergence.atol, squares.1)
            &&& crate::portable::narrows_to(squares.1, words[10])
            &&& crate::portable::squares_to(convergence.dtol, squares.2)
            &&& crate::portable::narrows_to(squares.2, words[11])
            &&& words[12] == 0x3f80_0000
            &&& words[13] == 0
            &&& words[14] == 0
            &&& words[15] < 0x8000_0000
            &&& crate::portable::finite32(words[15])
            &&& crate::portable::units32(words[15]) == convergence.max_iters
                * vstd::arithmetic::power2::pow2(149)
            &&& forall|i: int| 0 <= i < 16 ==> crate::portable::finite32(#[trigger] words[i])
        }),
{
    let squares = (
        crate::portable::squared(convergence.rtol),
        crate::portable::squared(convergence.atol),
        crate::portable::squared(convergence.dtol),
    );
    crate::portable::lemma_squares(convergence.rtol);
    crate::portable::lemma_squares(convergence.atol);
    crate::portable::lemma_squares(convergence.dtol);
    crate::portable::lemma_narrows(squares.0);
    crate::portable::lemma_narrows(squares.1);
    crate::portable::lemma_narrows(squares.2);
    crate::portable::lemma_narrows(bnorm_squared);
    crate::portable::lemma_narrows(residual_squared);
    crate::portable::lemma_one();
    crate::portable::lemma_count_has_single(convergence.max_iters as nat);
    squares
}

} // verus!
