//! Sparse matrices that stay on the device.
use crate::bytes::encode_words;
use crate::command::{bind, CommandEncoder, Dispatch, Kernel, ShaderModule};
use crate::error::{invalid_input, wgpu_error_message, KError, WgpuErrorKind};
use crate::portable::is_finite64;
use crate::runtime::{group_count, WgpuRuntime};
use crate::text::decimal_text;
use crate::vector::{is_too_large, narrow_all, WgpuVector};
use vstd::prelude::*;
use vstd::string::StringExecFns;

verus! {

/// A sparse matrix on the host, by rows; the values are bit patterns of doubles.
#[derive(Debug)]
pub struct CsrMatrix {
    pub nrows: usize,
    pub ncols: usize,
    pub row_ptr: Vec<usize>,
    pub col_idx: Vec<usize>,
    pub values: Vec<u64>,
}

impl CsrMatrix {
    /// A matrix of these parts.
    pub fn from_csr(
        nrows: usize,
        ncols: usize,
        row_ptr: Vec<usize>,
        col_idx: Vec<usize>,
        values: Vec<u64>,
    ) -> (r: CsrMatrix)
        ensures
            r == (CsrMatrix { nrows, ncols, row_ptr, col_idx, values }),
    {
        CsrMatrix { nrows, ncols, row_ptr, col_idx, values }
    }
}

/// Whether the offsets and lists of a sparse matrix belong together.
pub open spec fn lengths_fit(
    nrows: usize,
    rows: Seq<usize>,
    columns: Seq<usize>,
    values: Seq<u64>,
) -> bool {
    &&& rows.len() == nrows + 1
    &&& rows[0] == 0
    &&& rows[nrows as int] == values.len()
    &&& columns.len() == values.len()
}

/// Whether offsets never go down.
pub open spec fn monotone(rows: Seq<usize>) -> bool {
    forall|i: int, j: int| 0 <= i <= j < rows.len() ==> rows[i] <= rows[j]
}

/// Whether the device can hold a value as a finite number.
pub open spec fn portable_value(bits: u64) -> bool {
    crate::portable::finite64(bits) && !crate::vector::exceeds_single(bits)
}

/// The error with which the parts of a sparse matrix are refused, if they are.
pub open spec fn csr_error(
    nrows: usize,
    ncols: usize,
    rows: Seq<usize>,
    columns: Seq<usize>,
    values: Seq<u64>,
) -> Option<crate::error::ErrorView> {
    if !lengths_fit(nrows, rows, columns, values) {
        Some(
            crate::error::ErrorView::InvalidInput(
                "invalid WebGPU CSR offsets or value/index lengths"@,
            ),
        )
    } else if !monotone(rows) {
        Some(crate::error::ErrorView::InvalidInput("WebGPU CSR row offsets are not monotone"@))
    } else if exists|i: int| 0 <= i < columns.len() && columns[i] >= ncols {
        Some(crate::error::ErrorView::InvalidInput("WebGPU CSR column index is out of bounds"@))
    } else if exists|i: int| 0 <= i < values.len() && !portable_value(values[i]) {
        Some(
            crate::error::ErrorView::InvalidInput(
                "WebGPU CSR value is non-finite or exceeds portable f32 range"@,
            ),
        )
    } else {
        None
    }
}

/// The error with which the parts of a sparse matrix are refused for upload, if they are.
pub open spec fn upload_error(
    nrows: usize,
    ncols: usize,
    rows: Seq<usize>,
    columns: Seq<usize>,
    values: Seq<u64>,
) -> Option<crate::error::ErrorView> {
    if csr_error(nrows, ncols, rows, columns, values) is Some {
        csr_error(nrows, ncols, rows, columns, values)
    } else if exists|i: int| 0 <= i < rows.len() && rows[i] > u32::MAX {
        Some(crate::error::ErrorView::InvalidInput("WebGPU CSR row offset exceeds u32"@))
    } else if exists|i: int| 0 <= i < columns.len() && columns[i] > u32::MAX {
        Some(crate::error::ErrorView::InvalidInput("WebGPU CSR column index exceeds u32"@))
    } else {
        None
    }
}

/// The first entry from `entry` up to `end` that stands in `column`; `end` where there is none.
pub open spec fn first_in_column(
    columns: Seq<usize>,
    column: int,
    entry: int,
    end: int,
) -> int
    decreases end - entry,
{
    if entry >= end {
        end
    } else if columns[entry] == column {
        entry
    } else {
        first_in_column(columns, column, entry + 1, end)
    }
}

/// The diagonal entry of a row: the first one that is stored, or zero.
pub open spec fn diagonal_entry(
    rows: Seq<usize>,
    columns: Seq<usize>,
    values: Seq<u64>,
    row: int,
) -> u64 {
    let end = rows[row + 1] as int;
    let entry = first_in_column(columns, row, rows[row] as int, end);
    if entry < end {
        values[entry]
    } else {
        0
    }
}

/// The diagonal of a sparse matrix.
pub open spec fn diagonal(
    nrows: usize,
    rows: Seq<usize>,
    columns: Seq<usize>,
    values: Seq<u64>,
) -> Seq<u64> {
    Seq::new(nrows as nat, |row: int| diagonal_entry(rows, columns, values, row))
}

/// Indices as device words.
pub open spec fn index_words(indices: Seq<usize>) -> Seq<u32> {
    Seq::new(indices.len(), |i: int| indices[i] as u32)
}

/// Refuses the parts of a sparse matrix that do not make one the device can hold.
fn validate_csr(
    nrows: usize,
    ncols: usize,
    row_offsets: &[usize],
    column_indices: &[usize],
    values: &[u64],
) -> (r: Result<(), KError>)
    ensures
        match r {
            Ok(_) => csr_error(nrows, ncols, row_offsets@, column_indices@, values@) is None,
            Err(e) => csr_error(nrows, ncols, row_offsets@, column_indices@, values@) == Some(e@),
        },
{
    let offsets: usize = row_offsets.len();
    if offsets == 0 || offsets - 1 != nrows || row_offsets[0] != 0 || row_offsets[offsets - 1]
        != values.len() || column_indices.len() != values.len() {
        return Err(invalid_input("invalid WebGPU CSR offsets or value/index lengths"));
    }
    let mut i: usize = 1;
    while i < offsets
        invariant
            1 <= i <= offsets,
            offsets == row_offsets@.len(),
            lengths_fit(nrows, row_offsets@, column_indices@, values@),
            monotone(row_offsets@.take(i as int)),
        decreases offsets - i,
    {
        if row_offsets[i - 1] > row_offsets[i] {
            assert(!monotone(row_offsets@)) by {
                assert(row_offsets@[i - 1] > row_offsets@[i as int]);
            }
            return Err(invalid_input("WebGPU CSR row offsets are not monotone"));
        }
        assert(monotone(row_offsets@.take(i + 1))) by {
            let longer = row_offsets@.take(i + 1);
            let shorter = row_offsets@.take(i as int);
            assert forall|a: int, b: int| 0 <= a <= b < longer.len() implies longer[a]
                <= longer[b] by {
                if b < i {
                    assert(shorter[a] <= shorter[b]);
                } else if a < i {
                    assert(shorter[a] <= shorter[i - 1]);
                }
            }
        }
        i = i + 1;
    }
    assert(row_offsets@.take(i as int) =~= row_offsets@);
    let mut i: usize = 0;
    while i < column_indices.len()
        invariant
            i <= column_indices@.len(),
            lengths_fit(nrows, row_offsets@, column_indices@, values@),
            monotone(row_offsets@),
            forall|j: int| 0 <= j < i ==> column_indices@[j] < ncols,
        decreases column_indices.len() - i,
    {
        if column_indices[i] >= ncols {
            assert(column_indices@[i as int] >= ncols);
            return Err(invalid_input("WebGPU CSR column index is out of bounds"));
        }
        i = i + 1;
    }
    let mut i: usize = 0;
    while i < values.len()
        invariant
            i <= values@.len(),
            lengths_fit(nrows, row_offsets@, column_indices@, values@),
            monotone(row_offsets@),
            forall|j: int| 0 <= j < column_indices@.len() ==> column_indices@[j] < ncols,
            forall|j: int| 0 <= j < i ==> portable_value(values@[j]),
        decreases values.len() - i,
    {
        if !is_finite64(values[i]) || is_too_large(values[i]) {
            assert(!portable_value(values@[i as int]));
            return Err(
                invalid_input("WebGPU CSR value is non-finite or exceeds portable f32 range"),
            );
        }
        i = i + 1;
    }
    Ok(())
}

/// The diagonal of a validated sparse matrix.
fn extract_diagonal(
    nrows: usize,
    row_offsets: &[usize],
    column_indices: &[usize],
    values: &[u64],
) -> (r: Vec<u64>)
    requires
        lengths_fit(nrows, row_offsets@, column_indices@, values@),
        monotone(row_offsets@),
    ensures
        r@ == diagonal(nrows, row_offsets@, column_indices@, values@),
{
    let mut found: Vec<u64> = Vec::new();
    let mut row: usize = 0;
    while row < nrows
        invariant
            row <= nrows,
            lengths_fit(nrows, row_offsets@, column_indices@, values@),
            monotone(row_offsets@),
            found@.len() == row,
            forall|j: int|
                0 <= j < row ==> found@[j] == diagonal_entry(
                    row_offsets@,
                    column_indices@,
                    values@,
                    j,
                ),
        decreases nrows - row,
    {
        let start: usize = row_offsets[row];
        let end: usize = row_offsets[row + 1];
        assert(row_offsets@[row as int] <= row_offsets@[row + 1] <= row_offsets@[nrows as int]);
        let mut entry: usize = start;
        while entry < end && column_indices[entry] != row
            invariant
                start <= entry <= end,
                end <= column_indices@.len(),
                first_in_column(column_indices@, row as int, start as int, end as int)
                    == first_in_column(column_indices@, row as int, entry as int, end as int),
            decreases end - entry,
        {
            entry = entry + 1;
        }
        found.push(
            if entry < end {
                values[entry]
            } else {
                0
            },
        );
        row = row + 1;
    }
    assert(found@ =~= diagonal(nrows, row_offsets@, column_indices@, values@));
    found
}

/// Indices as device words, where each of them fits in one.
fn to_words(indices: &[usize]) -> (r: Option<Vec<u32>>)
    ensures
        match r {
            Some(words) => {
                &&& words@ == index_words(indices@)
                &&& forall|i: int| 0 <= i < indices@.len() ==> indices@[i] <= u32::MAX
            },
            None => exists|i: int| 0 <= i < indices@.len() && indices@[i] > u32::MAX,
        },
{
    let mut words: Vec<u32> = Vec::new();
    let mut i: usize = 0;
    while i < indices.len()
        invariant
            i <= indices@.len(),
            words@ == index_words(indices@.take(i as int)),
            forall|j: int| 0 <= j < i ==> indices@[j] <= u32::MAX,
        decreases indices.len() - i,
    {
        if indices[i] > u32::MAX as usize {
            assert(indices@[i as int] > u32::MAX);
            return None;
        }
        words.push(indices[i] as u32);
        i = i + 1;
        assert(words@ =~= index_words(indices@.take(i as int)));
    }
    assert(indices@.take(i as int) =~= indices@);
    Some(words)
}

/// A validated real sparse operator retained on one portable device.
#[derive(Debug)]
pub struct WgpuCsrOp {
    runtime: u64,
    nrows: usize,
    ncols: usize,
    nnz: usize,
    row_offsets: usize,
    column_indices: usize,
    values: usize,
    diagonal_host: Vec<u64>,
}

/// An operator as its contracts see it.
pub ghost struct OperatorView {
    /// The runtime that the operator belongs to.
    pub runtime: u64,
    pub nrows: usize,
    pub ncols: usize,
    /// Number of stored entries.
    pub nnz: usize,
    /// Buffer of the row offsets.
    pub row_offsets: usize,
    /// Buffer of the column indices.
    pub column_indices: usize,
    /// Buffer of the values.
    pub values: usize,
    /// The diagonal, kept on the host.
    pub diagonal: Seq<u64>,
}

impl View for WgpuCsrOp {
    type V = OperatorView;

    closed spec fn view(&self) -> OperatorView {
        OperatorView {
            runtime: self.runtime,
            nrows: self.nrows,
            ncols: self.ncols,
            nnz: self.nnz,
            row_offsets: self.row_offsets,
            column_indices: self.column_indices,
            values: self.values,
            diagonal: self.diagonal_host@,
        }
    }
}

/// The runtime after the upload of a sparse matrix.
pub open spec fn with_operator(
    runtime: crate::runtime::RuntimeView,
    rows: Seq<usize>,
    columns: Seq<usize>,
    values: Seq<u64>,
) -> crate::runtime::RuntimeView {
    let usage = crate::runtime::STORAGE_USAGE;
    runtime.create_init(
        "WebGPU CSR row offsets"@,
        crate::bytes::words_bytes(runtime.order, index_words(rows)),
        usage,
    ).create_init(
        "WebGPU CSR column indices"@,
        crate::bytes::words_bytes(runtime.order, index_words(columns)),
        usage,
    ).create_init(
        "WebGPU CSR values"@,
        crate::vector::upload(runtime.order, values),
        usage,
    ).shader(ShaderModule::CsrSpmv, "kryst WebGPU CSR SpMV"@).pipeline(
        Kernel::Spmv,
        "kryst WebGPU CSR SpMV"@,
        "spmv"@,
        None,
    )
}

/// The operator that an upload gives.
pub open spec fn next_operator(
    runtime: crate::runtime::RuntimeView,
    nrows: usize,
    ncols: usize,
    rows: Seq<usize>,
    columns: Seq<usize>,
    values: Seq<u64>,
) -> OperatorView {
    OperatorView {
        runtime: runtime.id,
        nrows,
        ncols,
        nnz: values.len() as usize,
        row_offsets: runtime.sizes.len() as usize,
        column_indices: (runtime.sizes.len() + 1) as usize,
        values: (runtime.sizes.len() + 2) as usize,
        diagonal: diagonal(nrows, rows, columns, values),
    }
}

/// The error with which a product `y = A x` is refused, if it is.
pub open spec fn product_error(
    operator: OperatorView,
    x: crate::vector::VectorView,
    y: crate::vector::VectorView,
) -> Option<crate::error::ErrorView> {
    if x.len != operator.ncols || y.len != operator.nrows {
        Some(
            crate::error::ErrorView::InvalidInput(
                "WebGPU CSR product requires x="@ + crate::text::decimal(operator.ncols as nat)
                    + ", y="@ + crate::text::decimal(operator.nrows as nat) + "; got x="@
                    + crate::text::decimal(x.len as nat) + ", y="@ + crate::text::decimal(
                    y.len as nat,
                ),
            ),
        )
    } else if operator.runtime != x.runtime || operator.runtime != y.runtime {
        Some(
            crate::error::ErrorView::Wgpu {
                kind: WgpuErrorKind::DeviceMismatch,
                operation: "apply WebGPU CSR operator"@,
                message: "operator and vectors belong to different WebGPU runtimes"@,
            },
        )
    } else if crate::runtime::groups(operator.nrows as nat, 128) > u32::MAX {
        Some(
            crate::error::ErrorView::InvalidInput(
                "WebGPU CSR row count exceeds dispatch range"@,
            ),
        )
    } else {
        None
    }
}

/// The pass that computes `y = A x`.
pub open spec fn product_pass(
    operator: OperatorView,
    x: crate::vector::VectorView,
    y: crate::vector::VectorView,
) -> crate::command::EncodedView {
    crate::command::EncodedView::ComputePass {
        label: "kryst WebGPU CSR SpMV"@,
        bindings: crate::command::bound(
            seq![
                operator.row_offsets,
                operator.column_indices,
                operator.values,
                x.buffer,
                y.buffer,
            ],
        ),
        dispatches: seq![
            Dispatch {
                kernel: Kernel::Spmv,
                groups: crate::runtime::groups(operator.nrows as nat, 128) as u32,
            },
        ],
    }
}

/// The runtime after the product `y = A x` in a submission of its own.
pub open spec fn with_product(
    runtime: crate::runtime::RuntimeView,
    operator: OperatorView,
    x: crate::vector::VectorView,
    y: crate::vector::VectorView,
) -> crate::runtime::RuntimeView {
    runtime.submit(
        crate::command::EncoderView::empty("kryst WebGPU CSR SpMV"@).with(
            product_pass(operator, x, y),
        ),
    )
}

impl WgpuCsrOp {
    /// Uploads one host matrix into single precision device storage.
    pub fn from_host(runtime: &mut WgpuRuntime, matrix: &CsrMatrix) -> (r: Result<Self, KError>)
        ensures
            match r {
                Ok(operator) => {
                    &&& upload_error(
                        matrix.nrows,
                        matrix.ncols,
                        matrix.row_ptr@,
                        matrix.col_idx@,
                        matrix.values@,
                    ) is None
                    &&& operator@ == next_operator(
                        old(runtime)@,
                        matrix.nrows,
                        matrix.ncols,
                        matrix.row_ptr@,
                        matrix.col_idx@,
                        matrix.values@,
                    )
                    &&& final(runtime)@ == with_operator(
                        old(runtime)@,
                        matrix.row_ptr@,
                        matrix.col_idx@,
                        matrix.values@,
                    )
                },
                Err(e) => {
                    &&& upload_error(
                        matrix.nrows,
                        matrix.ncols,
                        matrix.row_ptr@,
                        matrix.col_idx@,
                        matrix.values@,
                    ) == Some(e@)
                    &&& final(runtime)@ == old(runtime)@
                },
            },
    {
        Self::from_csr_parts(
            runtime,
            matrix.nrows,
            matrix.ncols,
            matrix.row_ptr.as_slice(),
            matrix.col_idx.as_slice(),
            matrix.values.as_slice(),
        )
    }

    /// Validates and uploads explicit parts.
    pub fn from_csr_parts(
        runtime: &mut WgpuRuntime,
        nrows: usize,
        ncols: usize,
        row_offsets: &[usize],
        column_indices: &[usize],
        values: &[u64],
    ) -> (r: Result<Self, KError>)
        ensures
            match r {
                Ok(operator) => {
                    &&& upload_error(nrows, ncols, row_offsets@, column_indices@, values@) is None
                    &&& operator@ == next_operator(
                        old(runtime)@,
                        nrows,
                        ncols,
                        row_offsets@,
                        column_indices@,
                        values@,
                    )
                    &&& final(runtime)@ == with_operator(
                        old(runtime)@,
                        row_offsets@,
                        column_indices@,
                        values@,
                    )
                },
                Err(e) => {
                    &&& upload_error(nrows, ncols, row_offsets@, column_indices@, values@) == Some(
                        e@,
                    )
                    &&& final(runtime)@ == old(runtime)@
                },
            },
    {
        match validate_csr(nrows, ncols, row_offsets, column_indices, values) {
            Ok(_) => {},
            Err(error) => {
                return Err(error);
            },
        }
        let order = runtime.byte_order();
        let encoded_rows = match to_words(row_offsets) {
            Some(words) => encode_words(order, words.as_slice()),
            None => {
                return Err(invalid_input("WebGPU CSR row offset exceeds u32"));
            },
        };
        let encoded_columns = match to_words(column_indices) {
            Some(words) => encode_words(order, words.as_slice()),
            None => {
                return Err(invalid_input("WebGPU CSR column index exceeds u32"));
            },
        };
        assert forall|i: int| 0 <= i < values@.len() implies #[trigger] crate::portable::finite64(
            values@[i],
        ) by {
            assert(portable_value(values@[i]));
        }
        let encoded_values = encode_words(order, narrow_all(values).as_slice());
        let row_buffer: usize = runtime.create_storage_buffer(
            "WebGPU CSR row offsets",
            encoded_rows,
        );
        let column_buffer: usize = runtime.create_storage_buffer(
            "WebGPU CSR column indices",
            encoded_columns,
        );
        let value_buffer: usize = runtime.create_storage_buffer(
            "WebGPU CSR values",
            encoded_values,
        );
        runtime.create_shader_module(ShaderModule::CsrSpmv, "kryst WebGPU CSR SpMV");
        runtime.create_pipeline(Kernel::Spmv, "kryst WebGPU CSR SpMV", "spmv", None);
        Ok(
            WgpuCsrOp {
                runtime: runtime.id(),
                nrows,
                ncols,
                nnz: values.len(),
                row_offsets: row_buffer,
                column_indices: column_buffer,
                values: value_buffer,
                diagonal_host: extract_diagonal(nrows, row_offsets, column_indices, values),
            },
        )
    }

    /// The buffers that hold this operator.
    pub fn device_buffers(&self) -> (r: Vec<usize>)
        ensures
            r@ == seq![self@.row_offsets, self@.column_indices, self@.values],
    {
        let r: Vec<usize> = vec![self.row_offsets, self.column_indices, self.values];
        assert(r@ =~= seq![self@.row_offsets, self@.column_indices, self@.values]);
        r
    }

    /// Matrix dimensions `(rows, columns)`.
    pub fn dims(&self) -> (r: (usize, usize))
        ensures
            r == (self@.nrows, self@.ncols),
    {
        (self.nrows, self.ncols)
    }

    /// Number of stored nonzero entries.
    pub fn nnz(&self) -> (r: usize)
        ensures
            r == self@.nnz,
    {
        self.nnz
    }

    /// The runtime that this operator belongs to.
    pub fn runtime(&self) -> (r: u64)
        ensures
            r == self@.runtime,
    {
        self.runtime
    }

    /// The diagonal, as host doubles.
    pub(crate) fn diagonal_host(&self) -> (r: &[u64])
        ensures
            r@ == self@.diagonal,
    {
        self.diagonal_host.as_slice()
    }

    /// Encodes `y = A x`.
    pub fn encode_apply(
        &self,
        encoder: &mut CommandEncoder,
        x: &WgpuVector,
        y: &WgpuVector,
    ) -> (r: Result<(), KError>)
        ensures
            match r {
                Ok(_) => {
                    &&& product_error(self@, x@, y@) is None
                    &&& final(encoder)@ == old(encoder)@.with(product_pass(self@, x@, y@))
                },
                Err(e) => {
                    &&& product_error(self@, x@, y@) == Some(e@)
                    &&& final(encoder)@ == old(encoder)@
                },
            },
    {
        if x.len() != self.ncols || y.len() != self.nrows {
            let mut text = "WebGPU CSR product requires x=".to_owned();
            text.append(decimal_text(self.ncols).as_str());
            text.append(", y=");
            text.append(decimal_text(self.nrows).as_str());
            text.append("; got x=");
            text.append(decimal_text(x.len()).as_str());
            text.append(", y=");
            text.append(decimal_text(y.len()).as_str());
            return Err(KError::InvalidInput(text));
        }
        if self.runtime != x.runtime() || self.runtime != y.runtime() {
            return Err(
                wgpu_error_message(
                    WgpuErrorKind::DeviceMismatch,
                    "apply WebGPU CSR operator",
                    "operator and vectors belong to different WebGPU runtimes".to_owned(),
                ),
            );
        }
        let groups: u32 = match group_count(self.nrows, 128) {
            Some(groups) => groups,
            None => {
                return Err(invalid_input("WebGPU CSR row count exceeds dispatch range"));
            },
        };
        let buffers = [
            self.row_offsets,
            self.column_indices,
            self.values,
            x.buffer(),
            y.buffer(),
        ];
        let bindings = bind(&buffers);
        let dispatches = vec![Dispatch { kernel: Kernel::Spmv, groups }];
        assert(bindings@ =~= crate::command::bound(
            seq![self@.row_offsets, self@.column_indices, self@.values, x@.buffer, y@.buffer],
        ));
        assert(dispatches@ =~= seq![Dispatch { kernel: Kernel::Spmv, groups }]);
        encoder.compute_pass("kryst WebGPU CSR SpMV", bindings, dispatches);
        Ok(())
    }

    /// Records `y = A x` in a submission of its own.
    pub fn apply(&self, runtime: &mut WgpuRuntime, x: &WgpuVector, y: &WgpuVector) -> (r: Result<
        (),
        KError,
    >)
        requires
            old(runtime)@.id == self@.runtime,
        ensures
            match r {
                Ok(_) => {
                    &&& product_error(self@, x@, y@) is None
                    &&& final(runtime)@ == with_product(old(runtime)@, self@, x@, y@)
                },
                Err(e) => {
                    &&& product_error(self@, x@, y@) == Some(e@)
                    &&& final(runtime)@ == old(runtime)@
                },
            },
    {
        let mut encoder = CommandEncoder::new("kryst WebGPU CSR SpMV");
        match self.encode_apply(&mut encoder, x, y) {
            Ok(_) => {
                runtime.submit(encoder);
                Ok(())
            },
            Err(error) => Err(error),
        }
    }
}

/// The words of an uploaded matrix keep the product in bounds: the entries of each row lie within
/// the stored ones, and each of them names a column of the matrix.
pub proof fn law_product_in_bounds(
    nrows: usize,
    ncols: usize,
    rows: Seq<usize>,
    columns: Seq<usize>,
    values: Seq<u64>,
    row: int,
    entry: int,
)
    requires
        upload_error(nrows, ncols, rows, columns, values) is None,
        0 <= row < nrows,
        index_words(rows)[row] <= entry < index_words(rows)[row + 1],
    ensures
        index_words(rows).len() == nrows + 1,
        0 <= entry < index_words(columns).len(),
        entry < crate::vector::narrowed_all(values).len(),
        index_words(columns)[entry] == columns[entry],
        index_words(columns)[entry] < ncols,
        crate::portable::finite32(crate::vector::narrowed_all(values)[entry]),
{
    assert(rows[row] <= u32::MAX && rows[row + 1] <= u32::MAX);
    assert(rows[row + 1] <= rows[nrows as int]);
    assert(columns[entry] < ncols && columns[entry] <= u32::MAX);
    assert(portable_value(values[entry]));
    crate::portable::lemma_narrows(values[entry]);
}

proof fn lemma_first_in_column(columns: Seq<usize>, column: int, entry: int, end: int)
    requires
        entry <= end,
    ensures
        entry <= first_in_column(columns, column, entry, end) <= end,
        forall|k: int|
            entry <= k < first_in_column(columns, column, entry, end) ==> #[trigger] columns[k]
                != column,
        first_in_column(columns, column, entry, end) < end ==> columns[first_in_column(
            columns,
            column,
            entry,
            end,
        )] == column,
    decreases end - entry,
{
    if entry < end && columns[entry] != column {
        lemma_first_in_column(columns, column, entry + 1, end);
    }
}

/// The diagonal that is kept of a matrix holds, for each row, the value of the first stored entry
/// of that row that stands in its diagonal column, and zero for a row without one.
pub proof fn law_diagonal_is_first_stored(
    nrows: usize,
    rows: Seq<usize>,
    columns: Seq<usize>,
    values: Seq<u64>,
    row: int,
)
    requires
        0 <= row < nrows,
        rows[row] <= rows[row + 1],
    ensures
        diagonal(nrows, rows, columns, values).len() == nrows,
        forall|entry: int|
            rows[row] <= entry < rows[row + 1] && #[trigger] columns[entry] == row && (forall|
                earlier: int,
            |
                rows[row] <= earlier < entry ==> #[trigger] columns[earlier] != row) ==> diagonal(
                nrows,
                rows,
                columns,
                values,
            )[row] == values[entry],
        (forall|entry: int| rows[row] <= entry < rows[row + 1] ==> #[trigger] columns[entry] != row)
            ==> diagonal(nrows, rows, columns, values)[row] == 0,
{
    lemma_first_in_column(columns, row, rows[row] as int, rows[row + 1] as int);
}

/// Whether parts make a sparse matrix: one offset more than rows, from zero up to the number of
/// entries without going down, a column for each value, columns within the matrix, and values that
/// single precision holds.
pub open spec fn is_a_matrix(
    nrows: usize,
    ncols: usize,
    rows: Seq<usize>,
    columns: Seq<usize>,
    values: Seq<u64>,
) -> bool {
    &&& rows.len() == nrows + 1
    &&& rows[0] == 0
    &&& rows[nrows as int] == values.len()
    &&& columns.len() == values.len()
    &&& forall|i: int| 0 <= i < nrows ==> #[trigger] rows[i] <= rows[i + 1]
    &&& forall|i: int| 0 <= i < columns.len() ==> #[trigger] columns[i] < ncols
    &&& forall|i: int| 0 <= i < values.len() ==> crate::vector::fits_single(#[trigger] values[i])
}

proof fn lemma_monotone(rows: Seq<usize>, i: int, j: int)
    requires
        0 <= i <= j < rows.len(),
        forall|k: int| 0 <= k < rows.len() - 1 ==> #[trigger] rows[k] <= rows[k + 1],
    ensures
        rows[i] <= rows[j],
    decreases j - i,
{
    if i < j {
        lemma_monotone(rows, i, j - 1);
        assert(rows[j - 1] <= rows[j - 1 + 1]);
    }
}

proof fn lemma_portable_value(bits: u64)
    ensures
        portable_value(bits) <==> crate::vector::fits_single(bits),
{
    crate::vector::law_too_large(bits);
}

/// The parts of a matrix are accepted for upload exactly where they make a sparse matrix whose
/// offsets and columns fit in device words.
pub proof fn law_matrix_accepted(
    nrows: usize,
    ncols: usize,
    rows: Seq<usize>,
    columns: Seq<usize>,
    values: Seq<u64>,
)
    ensures
        upload_error(nrows, ncols, rows, columns, values) is None <==> {
            &&& is_a_matrix(nrows, ncols, rows, columns, values)
            &&& forall|i: int| 0 <= i < rows.len() ==> #[trigger] rows[i] <= 0xffff_ffff
            &&& forall|i: int| 0 <= i < columns.len() ==> #[trigger] columns[i] <= 0xffff_ffff
        },
{
    if upload_error(nrows, ncols, rows, columns, values) is None {
        assert forall|i: int| 0 <= i < values.len() implies crate::vector::fits_single(
            #[trigger] values[i],
        ) by {
            assert(portable_value(values[i]));
            lemma_portable_value(values[i]);
        }
    }
    if is_a_matrix(nrows, ncols, rows, columns, values) {
        assert forall|i: int, j: int| 0 <= i <= j < rows.len() implies rows[i] <= rows[j] by {
            lemma_monotone(rows, i, j);
        }
        assert forall|i: int| 0 <= i < values.len() implies portable_value(
            #[trigger] values[i],
        ) by {
            assert(crate::vector::fits_single(values[i]));
            lemma_portable_value(values[i]);
        }
    }
}

/// Why the parts of a matrix are refused: the first of these that holds is what the error says.
pub proof fn law_matrix_refused(
    nrows: usize,
    ncols: usize,
    rows: Seq<usize>,
    columns: Seq<usize>,
    values: Seq<u64>,
    i: int,
)
    ensures
        ({
            let error = upload_error(nrows, ncols, rows, columns, values);
            let says = |text: Seq<char>| error == Some(crate::error::ErrorView::InvalidInput(text));
            let fit = rows.len() == nrows + 1 && rows[0] == 0 && rows[nrows as int] == values.len()
                && columns.len() == values.len();
            let rise = forall|k: int| 0 <= k < nrows ==> #[trigger] rows[k] <= rows[k + 1];
            let inside = forall|k: int| 0 <= k < columns.len() ==> #[trigger] columns[k] < ncols;
            let held = forall|k: int|
                0 <= k < values.len() ==> crate::vector::fits_single(#[trigger] values[k]);
            let short = forall|k: int| 0 <= k < rows.len() ==> #[trigger] rows[k] <= 0xffff_ffff;
            &&& !fit ==> says("invalid WebGPU CSR offsets or value/index lengths"@)
            &&& fit && 0 <= i < nrows && rows[i] > rows[i + 1] ==> says(
                "WebGPU CSR row offsets are not monotone"@,
            )
            &&& fit && rise && 0 <= i < columns.len() && columns[i] >= ncols ==> says(
                "WebGPU CSR column index is out of bounds"@,
            )
            &&& fit && rise && inside && 0 <= i < values.len() && !crate::vector::fits_single(
                values[i],
            ) ==> says("WebGPU CSR value is non-finite or exceeds portable f32 range"@)
            &&& fit && rise && inside && held && 0 <= i < rows.len() && rows[i] > 0xffff_ffff
                ==> says("WebGPU CSR row offset exceeds u32"@)
            &&& fit && rise && inside && held && short && 0 <= i < columns.len() && columns[i]
                > 0xffff_ffff ==> says("WebGPU CSR column index exceeds u32"@)
        }),
{
    let fit = rows.len() == nrows + 1 && rows[0] == 0 && rows[nrows as int] == values.len()
        && columns.len() == values.len();
    let rise = forall|k: int| 0 <= k < nrows ==> #[trigger] rows[k] <= rows[k + 1];
    if fit && rise {
        assert forall|x: int, y: int| 0 <= x <= y < rows.len() implies rows[x] <= rows[y] by {
            lemma_monotone(rows, x, y);
        }
    }
    assert forall|k: int| 0 <= k < values.len() implies #[trigger] portable_value(values[k])
        == crate::vector::fits_single(values[k]) by {
        lemma_portable_value(values[k]);
    }
    if 0 <= i < values.len() {
        assert(portable_value(values[i]) == crate::vector::fits_single(values[i]));
    }
}

/// What is uploaded of an accepted matrix: three new buffers, one after the other, with the offsets
/// and the columns as they are and with the single nearest to each value. The operator names those
/// buffers, the dimensions and the number of entries, and keeps the diagonal of the doubles.
pub proof fn law_matrix_uploaded(
    runtime: crate::runtime::RuntimeView,
    nrows: usize,
    ncols: usize,
    rows: Seq<usize>,
    columns: Seq<usize>,
    values: Seq<u64>,
)
    requires
        runtime.sizes.len() + 2 <= usize::MAX,
        values.len() <= usize::MAX,
        upload_error(nrows, ncols, rows, columns, values) is None,
    ensures
        ({
            let after = with_operator(runtime, rows, columns, values);
            let operator = next_operator(runtime, nrows, ncols, rows, columns, values);
            let k = runtime.commands.len() as int;
            let words = |contents: Seq<u8>| crate::bytes::bytes_words(runtime.order, contents);
            &&& operator.runtime == runtime.id
            &&& operator.nrows == nrows && operator.ncols == ncols
            &&& operator.nnz == values.len()
            &&& operator.diagonal == diagonal(nrows, rows, columns, values)
            &&& operator.row_offsets == runtime.sizes.len()
            &&& operator.column_indices == runtime.sizes.len() + 1
            &&& operator.values == runtime.sizes.len() + 2
            &&& after.commands.len() == k + 5
            &&& after.commands.take(k) == runtime.commands
            &&& after.commands[k] matches crate::command::CommandView::CreateBufferInit {
                buffer,
                contents,
                usage,
                ..
            } && buffer == operator.row_offsets && usage == 140 && contents.len() == 4 * rows.len()
                && words(contents).len() == rows.len() && forall|i: int|
                0 <= i < rows.len() ==> #[trigger] words(contents)[i] == rows[i]
            &&& after.commands[k + 1] matches crate::command::CommandView::CreateBufferInit {
                buffer,
                contents,
                usage,
                ..
            } && buffer == operator.column_indices && usage == 140 && contents.len() == 4
                * columns.len() && words(contents).len() == columns.len() && forall|i: int|
                0 <= i < columns.len() ==> #[trigger] words(contents)[i] == columns[i]
            &&& after.commands[k + 2] matches crate::command::CommandView::CreateBufferInit {
                buffer,
                contents,
                usage,
                ..
            } && buffer == operator.values && usage == 140 && contents.len() == 4 * values.len()
                && words(contents).len() == values.len() && forall|i: int|
                0 <= i < values.len() ==> crate::portable::narrows_to(
                    values[i],
                    #[trigger] words(contents)[i],
                )
            &&& after.commands[k + 3] matches crate::command::CommandView::CreateShaderModule {
                module,
                ..
            } && module is CsrSpmv
            &&& after.commands[k + 4] matches crate::command::CommandView::CreatePipeline {
                kernel,
                module,
                entry_point,
                layout,
                ..
            } && kernel is Spmv && module is CsrSpmv && entry_point == "spmv"@ && layout is None
            &&& after.id == runtime.id && after.order == runtime.order
        }),
{
    let after = with_operator(runtime, rows, columns, values);
    let k = runtime.commands.len() as int;
    assert(after.commands.take(k) =~= runtime.commands);
    law_matrix_accepted(nrows, ncols, rows, columns, values);
    crate::bytes::law_decode_undoes_encode(runtime.order, index_words(rows));
    crate::bytes::law_decode_undoes_encode(runtime.order, index_words(columns));
    crate::bytes::law_decode_undoes_encode(
        runtime.order,
        crate::vector::narrowed_all(values),
    );
    assert forall|i: int| 0 <= i < values.len() implies crate::portable::narrows_to(
        values[i],
        #[trigger] crate::vector::narrowed_all(values)[i],
    ) by {
        crate::portable::lemma_narrows(values[i]);
    }
}

/// A product is accepted exactly where the vectors have the dimensions of the matrix, all belong to
/// one runtime, and the rows take no more workgroups of 128 than a dispatch holds.
pub proof fn law_product_accepted(
    operator: OperatorView,
    x: crate::vector::VectorView,
    y: crate::vector::VectorView,
)
    ensures
        product_error(operator, x, y) is None <==> {
            &&& x.len == operator.ncols
            &&& y.len == operator.nrows
            &&& x.runtime == operator.runtime
            &&& y.runtime == operator.runtime
            &&& operator.nrows <= 128 * 0xffff_ffff
        },
        x.len != operator.ncols || y.len != operator.nrows ==> product_error(operator, x, y)
            == Some(
            crate::error::ErrorView::InvalidInput(
                "WebGPU CSR product requires x="@ + crate::text::decimal(operator.ncols as nat)
                    + ", y="@ + crate::text::decimal(operator.nrows as nat) + "; got x="@
                    + crate::text::decimal(x.len as nat) + ", y="@ + crate::text::decimal(
                    y.len as nat,
                ),
            ),
        ),
        x.len == operator.ncols && y.len == operator.nrows && (x.runtime != operator.runtime
            || y.runtime != operator.runtime) ==> product_error(operator, x, y) == Some(
            crate::error::ErrorView::Wgpu {
                kind: WgpuErrorKind::DeviceMismatch,
                operation: "apply WebGPU CSR operator"@,
                message: "operator and vectors belong to different WebGPU runtimes"@,
            },
        ),
{
    crate::runtime::law_groups_cover(operator.nrows as nat, 128);
}

} // verus!
