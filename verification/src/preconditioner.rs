//! Preconditioners that work on device vectors.
use crate::bytes::encode_words;
use crate::command::{bind, CommandEncoder, Dispatch, Kernel, ShaderModule};
use crate::error::{invalid_input, wgpu_error_message, KError, WgpuErrorKind};
use crate::operator::WgpuCsrOp;
use crate::portable::{is_finite32, is_finite64, narrow, reciprocal, SIGN64};
use crate::runtime::{group_count, WgpuRuntime};
use crate::text::decimal_text;
use crate::vector::WgpuVector;
use vstd::prelude::*;
use vstd::string::StringExecFns;

verus! {

/// The double nearest to `10^-30`: diagonal entries up to this size are not inverted.
pub const SMALLEST_PIVOT: u64 = 0x39b4_484b_feeb_c2a0;

/// Caller-owned preconditioner operating entirely on resident vectors.
///
/// Implementations may submit one or more command buffers from [`Self::apply`], but must not map
/// or read back the vectors. Queue ordering makes the result visible to the following resident
/// kernel.
pub trait WgpuPreconditioner: Send + Sync {
    /// Whether these can be the dimensions that `dims` reports. Any can, unless an implementation
    /// says more.
    open spec fn reports(&self, dims: (usize, usize)) -> bool {
        true
    }

    /// Whether an application to these vectors can end in this way. It can end in any, unless an
    /// implementation says more.
    open spec fn may_end(
        &self,
        input: crate::vector::VectorView,
        output: crate::vector::VectorView,
        r: Result<(), KError>,
    ) -> bool {
        true
    }

    /// Square dimensions of the approximate inverse.
    fn dims(&self) -> (r: (usize, usize))
        ensures
            self.reports(r),
    ;

    /// Apply the approximate inverse, writing all output entries.
    fn apply(&self, input: &WgpuVector, output: &WgpuVector) -> (r: Result<(), KError>)
        ensures
            self.may_end(input@, output@, r),
    ;
}

/// Reciprocal of a diagonal entry, as the device holds it.
pub open spec fn inverse_entry(value: u64) -> u32 {
    crate::portable::narrowed(crate::portable::inverted(value))
}

/// The error with which the diagonal entry of a row is refused, if it is.
pub open spec fn pivot_error(value: u64, row: nat) -> Option<crate::error::ErrorView> {
    if !crate::portable::finite64(value) || crate::portable::magnitude64(value)
        <= SMALLEST_PIVOT {
        Some(crate::error::ErrorView::ZeroPivot(row as usize))
    } else if !crate::portable::finite32(inverse_entry(value)) {
        Some(
            crate::error::ErrorView::InvalidInput(
                "WebGPU Jacobi inverse diagonal at row "@ + crate::text::decimal(row)
                    + " exceeds f32 range"@,
            ),
        )
    } else {
        None
    }
}

/// The error of the first row from `row` on that has one.
pub open spec fn diagonal_error(diagonal: Seq<u64>, row: nat) -> Option<crate::error::ErrorView>
    decreases diagonal.len() - row,
{
    if row >= diagonal.len() {
        None
    } else if pivot_error(diagonal[row as int], row) is Some {
        pivot_error(diagonal[row as int], row)
    } else {
        diagonal_error(diagonal, row + 1)
    }
}

/// The error with which diagonal scaling is refused for an operator, if it is.
pub open spec fn jacobi_error(operator: crate::operator::OperatorView) -> Option<
    crate::error::ErrorView,
> {
    if operator.nrows != operator.ncols {
        Some(
            crate::error::ErrorView::InvalidInput(
                "WebGPU Jacobi requires a square operator, got "@ + crate::text::decimal(
                    operator.nrows as nat,
                ) + "x"@ + crate::text::decimal(operator.ncols as nat),
            ),
        )
    } else {
        diagonal_error(operator.diagonal, 0)
    }
}

/// The inverse of a diagonal, as the device holds it.
pub open spec fn inverse_diagonal(diagonal: Seq<u64>) -> Seq<u32> {
    Seq::new(diagonal.len(), |row: int| inverse_entry(diagonal[row]))
}

/// Right diagonal scaling.
#[derive(Debug)]
pub struct WgpuJacobi {
    runtime: u64,
    inverse_diagonal: usize,
    n: usize,
}

/// A diagonal scaling as its contracts see it.
pub ghost struct JacobiView {
    /// The runtime that the scaling belongs to.
    pub runtime: u64,
    /// Buffer of the inverse diagonal.
    pub inverse_diagonal: usize,
    /// Number of rows.
    pub n: usize,
}

impl View for WgpuJacobi {
    type V = JacobiView;

    closed spec fn view(&self) -> JacobiView {
        JacobiView {
            runtime: self.runtime,
            inverse_diagonal: self.inverse_diagonal,
            n: self.n,
        }
    }
}

/// The runtime after the preparation of a diagonal scaling.
pub open spec fn with_jacobi(
    runtime: crate::runtime::RuntimeView,
    operator: crate::operator::OperatorView,
) -> crate::runtime::RuntimeView {
    runtime.create_init(
        "kryst WebGPU inverse diagonal"@,
        crate::bytes::words_bytes(runtime.order, inverse_diagonal(operator.diagonal)),
        crate::runtime::STORAGE_USAGE,
    ).shader(ShaderModule::Jacobi, "kryst WebGPU Jacobi"@).pipeline(
        Kernel::JacobiApply,
        "kryst WebGPU Jacobi"@,
        "apply"@,
        None,
    )
}

/// The scaling that a preparation gives.
pub open spec fn next_jacobi(
    runtime: crate::runtime::RuntimeView,
    operator: crate::operator::OperatorView,
) -> JacobiView {
    JacobiView {
        runtime: operator.runtime,
        inverse_diagonal: runtime.next_buffer(),
        n: operator.nrows,
    }
}

/// The error with which a scaling of `x` into `y` is refused, if it is.
pub open spec fn scaling_error(
    jacobi: JacobiView,
    x: crate::vector::VectorView,
    y: crate::vector::VectorView,
) -> Option<crate::error::ErrorView> {
    if x.len != jacobi.n || y.len != jacobi.n {
        Some(
            crate::error::ErrorView::InvalidInput(
                "WebGPU Jacobi requires vectors of length "@ + crate::text::decimal(
                    jacobi.n as nat,
                ) + "; got "@ + crate::text::decimal(x.len as nat) + " and "@
                    + crate::text::decimal(y.len as nat),
            ),
        )
    } else if jacobi.runtime != x.runtime || jacobi.runtime != y.runtime {
        Some(
            crate::error::ErrorView::Wgpu {
                kind: WgpuErrorKind::DeviceMismatch,
                operation: "apply WebGPU Jacobi"@,
                message: "preconditioner and vectors belong to different WebGPU runtimes"@,
            },
        )
    } else if crate::runtime::groups(jacobi.n as nat, 128) > u32::MAX {
        Some(crate::error::ErrorView::InvalidInput("WebGPU Jacobi size exceeds dispatch range"@))
    } else {
        None
    }
}

/// The pass that scales `x` into `y`.
pub open spec fn scaling_pass(
    jacobi: JacobiView,
    x: crate::vector::VectorView,
    y: crate::vector::VectorView,
) -> crate::command::EncodedView {
    crate::command::EncodedView::ComputePass {
        label: "kryst WebGPU Jacobi"@,
        bindings: crate::command::bound(seq![jacobi.inverse_diagonal, x.buffer, y.buffer]),
        dispatches: seq![
            Dispatch {
                kernel: Kernel::JacobiApply,
                groups: crate::runtime::groups(jacobi.n as nat, 128) as u32,
            },
        ],
    }
}

/// The reciprocal of a diagonal entry, as the device holds it.
fn invert_entry(value: u64, row: usize) -> (r: Result<u32, KError>)
    ensures
        match r {
            Ok(inverse) => {
                &&& pivot_error(value, row as nat) is None
                &&& inverse == inverse_entry(value)
            },
            Err(e) => pivot_error(value, row as nat) == Some(e@),
        },
{
    let magnitude: u64 = if value >= SIGN64 {
        value - SIGN64
    } else {
        value
    };
    if !is_finite64(value) || magnitude <= SMALLEST_PIVOT {
        return Err(KError::ZeroPivot(row));
    }
    let inverse: u32 = narrow(reciprocal(value));
    if !is_finite32(inverse) {
        let mut text = "WebGPU Jacobi inverse diagonal at row ".to_owned();
        text.append(decimal_text(row).as_str());
        text.append(" exceeds f32 range");
        return Err(KError::InvalidInput(text));
    }
    Ok(inverse)
}

/// The inverse of a diagonal, or the error of its first row that has one.
fn invert_diagonal(diagonal: &[u64]) -> (r: Result<Vec<u32>, KError>)
    ensures
        match r {
            Ok(inverse) => {
                &&& diagonal_error(diagonal@, 0) is None
                &&& inverse@ == inverse_diagonal(diagonal@)
            },
            Err(e) => diagonal_error(diagonal@, 0) == Some(e@),
        },
{
    let mut inverse: Vec<u32> = Vec::new();
    let mut row: usize = 0;
    while row < diagonal.len()
        invariant
            row <= diagonal.len(),
            diagonal_error(diagonal@, 0) == diagonal_error(diagonal@, row as nat),
            inverse@ == inverse_diagonal(diagonal@.take(row as int)),
        decreases diagonal.len() - row,
    {
        match invert_entry(diagonal[row], row) {
            Ok(entry) => {
                inverse.push(entry);
            },
            Err(error) => {
                return Err(error);
            },
        }
        row = row + 1;
        assert(inverse@ =~= inverse_diagonal(diagonal@.take(row as int)));
    }
    assert(diagonal@.take(row as int) =~= diagonal@);
    Ok(inverse)
}

impl WgpuJacobi {
    /// The buffer of the inverse diagonal.
    pub(crate) fn buffer(&self) -> (r: usize)
        ensures
            r == self@.inverse_diagonal,
    {
        self.inverse_diagonal
    }

    /// Prepares the diagonal scaling of a square operator.
    pub fn from_csr(runtime: &mut WgpuRuntime, matrix: &WgpuCsrOp) -> (r: Result<Self, KError>)
        requires
            old(runtime)@.id == matrix@.runtime,
        ensures
            match r {
                Ok(jacobi) => {
                    &&& jacobi_error(matrix@) is None
                    &&& jacobi@ == next_jacobi(old(runtime)@, matrix@)
                    &&& final(runtime)@ == with_jacobi(old(runtime)@, matrix@)
                },
                Err(e) => {
                    &&& jacobi_error(matrix@) == Some(e@)
                    &&& final(runtime)@ == old(runtime)@
                },
            },
    {
        let (n, cols) = matrix.dims();
        if n != cols {
            let mut text = "WebGPU Jacobi requires a square operator, got ".to_owned();
            text.append(decimal_text(n).as_str());
            text.append("x");
            text.append(decimal_text(cols).as_str());
            return Err(KError::InvalidInput(text));
        }
        let inverse = match invert_diagonal(matrix.diagonal_host()) {
            Ok(inverse) => inverse,
            Err(error) => {
                return Err(error);
            },
        };
        let encoded = encode_words(runtime.byte_order(), inverse.as_slice());
        let inverse_diagonal: usize = runtime.create_storage_buffer(
            "kryst WebGPU inverse diagonal",
            encoded,
        );
        runtime.create_shader_module(ShaderModule::Jacobi, "kryst WebGPU Jacobi");
        runtime.create_pipeline(Kernel::JacobiApply, "kryst WebGPU Jacobi", "apply", None);
        Ok(WgpuJacobi { runtime: matrix.runtime(), inverse_diagonal, n })
    }

    /// Encodes the scaling of `x` into `y`.
    pub fn encode_apply(
        &self,
        encoder: &mut CommandEncoder,
        x: &WgpuVector,
        y: &WgpuVector,
    ) -> (r: Result<(), KError>)
        ensures
            match r {
                Ok(_) => {
                    &&& scaling_error(self@, x@, y@) is None
                    &&& final(encoder)@ == old(encoder)@.with(scaling_pass(self@, x@, y@))
                },
                Err(e) => {
                    &&& scaling_error(self@, x@, y@) == Some(e@)
                    &&& final(encoder)@ == old(encoder)@
                },
            },
    {
        if x.len() != self.n || y.len() != self.n {
            let mut text = "WebGPU Jacobi requires vectors of length ".to_owned();
            text.append(decimal_text(self.n).as_str());
            text.append("; got ");
            text.append(decimal_text(x.len()).as_str());
            text.append(" and ");
            text.append(decimal_text(y.len()).as_str());
            return Err(KError::InvalidInput(text));
        }
        if self.runtime != x.runtime() || self.runtime != y.runtime() {
            return Err(
                wgpu_error_message(
                    WgpuErrorKind::DeviceMismatch,
                    "apply WebGPU Jacobi",
                    "preconditioner and vectors belong to different WebGPU runtimes".to_owned(),
                ),
            );
        }
        let groups: u32 = match group_count(self.n, 128) {
            Some(groups) => groups,
            None => {
                return Err(invalid_input("WebGPU Jacobi size exceeds dispatch range"));
            },
        };
        let buffers = [self.inverse_diagonal, x.buffer(), y.buffer()];
        let bindings = bind(&buffers);
        let dispatches = vec![Dispatch { kernel: Kernel::JacobiApply, groups }];
        assert(bindings@ =~= crate::command::bound(
            seq![self@.inverse_diagonal, x@.buffer, y@.buffer],
        ));
        assert(dispatches@ =~= seq![Dispatch { kernel: Kernel::JacobiApply, groups }]);
        encoder.compute_pass("kryst WebGPU Jacobi", bindings, dispatches);
        Ok(())
    }

    /// Records the scaling of `x` into `y` in a submission of its own.
    pub fn apply(&self, runtime: &mut WgpuRuntime, x: &WgpuVector, y: &WgpuVector) -> (r: Result<
        (),
        KError,
    >)
        requires
            old(runtime)@.id == self@.runtime,
        ensures
            match r {
                Ok(_) => {
                    &&& scaling_error(self@, x@, y@) is None
                    &&& final(runtime)@ == old(runtime)@.submit(
                        crate::command::EncoderView::empty("kryst WebGPU Jacobi"@).with(
                            scaling_pass(self@, x@, y@),
                        ),
                    )
                },
                Err(e) => {
                    &&& scaling_error(self@, x@, y@) == Some(e@)
                    &&& final(runtime)@ == old(runtime)@
                },
            },
    {
        let mut encoder = CommandEncoder::new("kryst WebGPU Jacobi");
        match self.encode_apply(&mut encoder, x, y) {
            Ok(_) => {
                runtime.submit(encoder);
                Ok(())
            },
            Err(error) => Err(error),
        }
    }
}

/// The inverse diagonal that a scaling uploads consists of finite numbers.
pub proof fn law_inverse_diagonal_finite(diagonal: Seq<u64>, from: nat)
    requires
        diagonal_error(diagonal, from) is None,
    ensures
        forall|row: int|
            from <= row < diagonal.len() ==> crate::portable::finite32(
                #[trigger] inverse_diagonal(diagonal)[row],
            ),
    decreases diagonal.len() - from,
{
    if from < diagonal.len() {
        law_inverse_diagonal_finite(diagonal, from + 1);
    }
}

proof fn lemma_no_pivot_error(diagonal: Seq<u64>, from: nat, row: int)
    requires
        diagonal_error(diagonal, from) is None,
        from <= row < diagonal.len(),
    ensures
        pivot_error(diagonal[row], row as nat) is None,
    decreases row - from,
{
    if from < row {
        lemma_no_pivot_error(diagonal, from + 1, row);
    }
}

/// The inverse diagonal of an accepted diagonal holds, for each row, the single nearest to the
/// double nearest to the reciprocal of the entry; it has the sign of the entry.
pub proof fn law_inverse_is_rounded_reciprocal(diagonal: Seq<u64>, row: int) -> (reciprocal: u64)
    requires
        diagonal_error(diagonal, 0) is None,
        0 <= row < diagonal.len(),
    ensures
        inverse_diagonal(diagonal).len() == diagonal.len(),
        crate::portable::inverts_to(diagonal[row], reciprocal),
        crate::portable::narrows_to(reciprocal, inverse_diagonal(diagonal)[row]),
        (inverse_diagonal(diagonal)[row] >= 0x8000_0000) == (diagonal[row]
            >= 0x8000_0000_0000_0000),
{
    let reciprocal = crate::portable::inverted(diagonal[row]);
    crate::portable::lemma_inverts(diagonal[row]);
    crate::portable::lemma_narrows(reciprocal);
    reciprocal
}

/// Whether a diagonal entry can be inverted: it is finite and larger than `10^-30`, whatever its
/// sign.
pub open spec fn invertible(value: u64) -> bool {
    ||| 0x39b4_484b_feeb_c2a0 < value < 0x7ff0_0000_0000_0000
    ||| 0xb9b4_484b_feeb_c2a0 < value < 0xfff0_0000_0000_0000
}

/// The reciprocal of an entry that can be inverted is no larger than `2^100`.
proof fn lemma_inverse_is_finite(value: u64)
    requires
        invertible(value),
    ensures
        crate::portable::finite32(inverse_entry(value)),
{
    let double = crate::portable::inverted(value);
    let single = inverse_entry(value);
    crate::portable::lemma_inverts(value);
    crate::portable::lemma_narrows(double);
    vstd::arithmetic::power2::lemma2_to64();
    vstd::arithmetic::power2::lemma2_to64_rest();
    // the entry is larger than 2^-100, the double of 0x39b0_0000_0000_0000
    let low = 0x39b0_0000_0000_0000nat;
    let mag = crate::portable::magnitude64(value) as nat;
    crate::rounding::lemma_units_of_parts(52, 922, 0x10_0000_0000_0000);
    assert(922 * 0x10_0000_0000_0000 + 0x10_0000_0000_0000 == low);
    vstd::arithmetic::power2::lemma_pow2_adds(52, 922);
    crate::rounding::lemma_units_increase(52, low, mag);
    let units = crate::portable::units64(value);
    assert(units > vstd::arithmetic::power2::pow2(974));
    // its reciprocal is at most 2^100, the double of 0x4630_0000_0000_0000
    let high = 0x4630_0000_0000_0000nat;
    crate::rounding::lemma_units_of_parts(52, 1122, 0x10_0000_0000_0000);
    assert(1122 * 0x10_0000_0000_0000 + 0x10_0000_0000_0000 == high);
    vstd::arithmetic::power2::lemma_pow2_adds(52, 1122);
    vstd::arithmetic::power2::lemma_pow2_adds(974, 1174);
    let top = crate::rounding::units(52, high);
    assert(vstd::arithmetic::power2::pow2(2148) <= units * top) by (nonlinear_arith)
        requires
            units > vstd::arithmetic::power2::pow2(974),
            top == vstd::arithmetic::power2::pow2(1174),
            vstd::arithmetic::power2::pow2(2148) == vstd::arithmetic::power2::pow2(974)
                * vstd::arithmetic::power2::pow2(1174),
    ;
    crate::rounding::law_rounding_is_bounded(
        52,
        crate::portable::INF64 as nat,
        vstd::arithmetic::power2::pow2(2148),
        units,
        crate::portable::magnitude64(double) as nat,
        high,
    );
    crate::portable::law_narrow_overflows(double, single);
}

/// A diagonal is accepted exactly where each of its entries can be inverted.
pub proof fn law_diagonal_accepted(diagonal: Seq<u64>)
    ensures
        diagonal_error(diagonal, 0) is None <==> forall|row: int|
            0 <= row < diagonal.len() ==> invertible(#[trigger] diagonal[row]),
{
    if diagonal_error(diagonal, 0) is None {
        assert forall|row: int| 0 <= row < diagonal.len() implies invertible(
            #[trigger] diagonal[row],
        ) by {
            lemma_no_pivot_error(diagonal, 0, row);
        }
    }
    if forall|row: int| 0 <= row < diagonal.len() ==> invertible(#[trigger] diagonal[row]) {
        lemma_invertible_rows(diagonal, 0);
    }
}

proof fn lemma_invertible_rows(diagonal: Seq<u64>, from: nat)
    requires
        forall|row: int| from <= row < diagonal.len() ==> invertible(#[trigger] diagonal[row]),
    ensures
        diagonal_error(diagonal, from) is None,
    decreases diagonal.len() - from,
{
    if from < diagonal.len() {
        lemma_inverse_is_finite(diagonal[from as int]);
        lemma_invertible_rows(diagonal, from + 1);
    }
}

proof fn lemma_first_pivot(diagonal: Seq<u64>, from: nat, row: int)
    requires
        from <= row < diagonal.len(),
        !invertible(diagonal[row]),
        forall|earlier: int| from <= earlier < row ==> invertible(#[trigger] diagonal[earlier]),
    ensures
        diagonal_error(diagonal, from) == Some(crate::error::ErrorView::ZeroPivot(row as usize)),
    decreases row - from,
{
    if from < row {
        lemma_inverse_is_finite(diagonal[from as int]);
        lemma_first_pivot(diagonal, from + 1, row);
    }
}

/// A diagonal is refused for the first row whose entry cannot be inverted; the error names the row.
pub proof fn law_diagonal_refused(diagonal: Seq<u64>, row: int)
    requires
        0 <= row < diagonal.len(),
        !invertible(diagonal[row]),
        forall|earlier: int| 0 <= earlier < row ==> invertible(#[trigger] diagonal[earlier]),
    ensures
        diagonal_error(diagonal, 0) == Some(crate::error::ErrorView::ZeroPivot(row as usize)),
{
    lemma_first_pivot(diagonal, 0, row);
}

/// Diagonal scaling is prepared exactly for square operators whose diagonal can be inverted.
pub proof fn law_scaling_prepared(operator: crate::operator::OperatorView)
    ensures
        jacobi_error(operator) is None <==> {
            &&& operator.nrows == operator.ncols
            &&& forall|row: int|
                0 <= row < operator.diagonal.len() ==> invertible(
                    #[trigger] operator.diagonal[row],
                )
        },
        operator.nrows != operator.ncols ==> jacobi_error(operator) == Some(
            crate::error::ErrorView::InvalidInput(
                "WebGPU Jacobi requires a square operator, got "@ + crate::text::decimal(
                    operator.nrows as nat,
                ) + "x"@ + crate::text::decimal(operator.ncols as nat),
            ),
        ),
        operator.nrows == operator.ncols ==> jacobi_error(operator) == diagonal_error(
            operator.diagonal,
            0,
        ),
{
    law_diagonal_accepted(operator.diagonal);
}

/// Whether a word is the single nearest to the double nearest to the reciprocal of a value.
pub open spec fn rounded_reciprocal(value: u64, word: u32) -> bool {
    exists|reciprocal: u64| #[trigger]
        crate::portable::inverts_to(value, reciprocal) && crate::portable::narrows_to(
            reciprocal,
            word,
        )
}

/// What the preparation of a diagonal scaling uploads: one new buffer with a word for each row, the
/// single nearest to the reciprocal of the diagonal entry. The scaling names that buffer.
pub proof fn law_scaling_uploaded(
    runtime: crate::runtime::RuntimeView,
    operator: crate::operator::OperatorView,
)
    requires
        runtime.sizes.len() <= usize::MAX,
        jacobi_error(operator) is None,
    ensures
        ({
            let after = with_jacobi(runtime, operator);
            let scaling = next_jacobi(runtime, operator);
            let k = runtime.commands.len() as int;
            let words = |contents: Seq<u8>| crate::bytes::bytes_words(runtime.order, contents);
            &&& scaling.runtime == operator.runtime
            &&& scaling.inverse_diagonal == runtime.sizes.len()
            &&& scaling.n == operator.nrows
            &&& after.commands.len() == k + 3
            &&& after.commands.take(k) == runtime.commands
            &&& after.commands[k] matches crate::command::CommandView::CreateBufferInit {
                buffer,
                contents,
                usage,
                ..
            } && buffer == scaling.inverse_diagonal && usage == 140 && words(contents).len()
                == operator.diagonal.len() && contents.len() == 4 * operator.diagonal.len()
                && forall|row: int|
                0 <= row < operator.diagonal.len() ==> rounded_reciprocal(
                    operator.diagonal[row],
                    #[trigger] words(contents)[row],
                )
            &&& after.commands[k + 1] matches crate::command::CommandView::CreateShaderModule {
                module,
                ..
            } && module is Jacobi
            &&& after.commands[k + 2] matches crate::command::CommandView::CreatePipeline {
                kernel,
                module,
                entry_point,
                layout,
                ..
            } && kernel is JacobiApply && module is Jacobi && entry_point == "apply"@
                && layout is None
            &&& after.id == runtime.id && after.order == runtime.order
        }),
{
    let after = with_jacobi(runtime, operator);
    let k = runtime.commands.len() as int;
    let inverse = inverse_diagonal(operator.diagonal);
    assert(after.commands.take(k) =~= runtime.commands);
    crate::bytes::law_decode_undoes_encode(runtime.order, inverse);
    let contents = crate::bytes::words_bytes(runtime.order, inverse);
    assert forall|row: int| 0 <= row < operator.diagonal.len() implies rounded_reciprocal(
        operator.diagonal[row],
        #[trigger] crate::bytes::bytes_words(runtime.order, contents)[row],
    ) by {
        let reciprocal = law_inverse_is_rounded_reciprocal(operator.diagonal, row);
        assert(crate::portable::inverts_to(operator.diagonal[row], reciprocal));
    }
}

/// A scaling is accepted exactly where the vectors have its length, all belong to one runtime, and
/// the rows take no more workgroups of 128 than a dispatch holds.
pub proof fn law_scaling_accepted(
    jacobi: JacobiView,
    x: crate::vector::VectorView,
    y: crate::vector::VectorView,
)
    ensures
        scaling_error(jacobi, x, y) is None <==> {
            &&& x.len == jacobi.n
            &&& y.len == jacobi.n
            &&& x.runtime == jacobi.runtime
            &&& y.runtime == jacobi.runtime
            &&& jacobi.n <= 128 * 0xffff_ffff
        },
        x.len != jacobi.n || y.len != jacobi.n ==> scaling_error(jacobi, x, y) == Some(
            crate::error::ErrorView::InvalidInput(
                "WebGPU Jacobi requires vectors of length "@ + crate::text::decimal(
                    jacobi.n as nat,
                ) + "; got "@ + crate::text::decimal(x.len as nat) + " and "@
                    + crate::text::decimal(y.len as nat),
            ),
        ),
        x.len == jacobi.n && y.len == jacobi.n && (x.runtime != jacobi.runtime || y.runtime
            != jacobi.runtime) ==> scaling_error(jacobi, x, y) == Some(
            crate::error::ErrorView::Wgpu {
                kind: WgpuErrorKind::DeviceMismatch,
                operation: "apply WebGPU Jacobi"@,
                message: "preconditioner and vectors belong to different WebGPU runtimes"@,
            },
        ),
{
    crate::runtime::law_groups_cover(jacobi.n as nat, 128);
}

} // verus!
