//! Sources of the shaders.
use crate::command::ShaderModule;
use vstd::prelude::*;

verus! {

/// `y = alpha x + beta y`.
pub const VECTOR_SHADER: &'static str = r"
struct VectorParams {
    alpha: f32,
    beta: f32,
    n: u32,
    padding: u32,
};

@group(0) @binding(0) var<storage, read> input_values: array<f32>;
@group(0) @binding(1) var<storage, read_write> output_values: array<f32>;
@group(0) @binding(2) var<uniform> params: VectorParams;

@compute @workgroup_size(128)
fn axpby(@builtin(global_invocation_id) id: vec3<u32>) {
    if (id.x < params.n) {
        output_values[id.x] = fma(params.alpha, input_values[id.x],
                                    params.beta * output_values[id.x]);
    }
}
";

/// Three dot products at a time, in two stages.
pub const REDUCTION_SHADER: &'static str = r"
struct ReductionParams {
    n: u32,
    partial_count: u32,
    padding0: u32,
    padding1: u32,
};

@group(0) @binding(0) var<storage, read> x0: array<f32>;
@group(0) @binding(1) var<storage, read> y0: array<f32>;
@group(0) @binding(2) var<storage, read> x1: array<f32>;
@group(0) @binding(3) var<storage, read> y1: array<f32>;
@group(0) @binding(4) var<storage, read_write> partials: array<vec4<f32>>;
@group(0) @binding(5) var<storage, read_write> result: array<vec4<f32>>;
@group(0) @binding(6) var<uniform> params: ReductionParams;
@group(0) @binding(7) var<storage, read> x2: array<f32>;
@group(0) @binding(8) var<storage, read> y2: array<f32>;

var<workgroup> scratch: array<vec4<f32>, 256>;

@compute @workgroup_size(256)
fn reduce_stage(@builtin(global_invocation_id) global_id: vec3<u32>,
                @builtin(local_invocation_id) local_id: vec3<u32>,
                @builtin(workgroup_id) group_id: vec3<u32>) {
    var value = vec4(0.0f, 0.0f, 0.0f, 0.0f);
    if (global_id.x < params.n) {
        value = vec4(x0[global_id.x] * y0[global_id.x],
                     x1[global_id.x] * y1[global_id.x],
                     x2[global_id.x] * y2[global_id.x],
                     0.0f);
    }
    scratch[local_id.x] = value;
    workgroupBarrier();
    var stride = 128u;
    loop {
        if (local_id.x < stride) {
            scratch[local_id.x] = scratch[local_id.x] + scratch[local_id.x + stride];
        }
        workgroupBarrier();
        if (stride == 1u) {
            break;
        }
        stride = stride / 2u;
    }
    if (local_id.x == 0u) {
        partials[group_id.x] = scratch[0];
    }
}

@compute @workgroup_size(256)
fn reduce_final(@builtin(local_invocation_id) local_id: vec3<u32>) {
    var value = vec4(0.0f, 0.0f, 0.0f, 0.0f);
    var index = local_id.x;
    loop {
        if (index >= params.partial_count) {
            break;
        }
        value = value + partials[index];
        index = index + 256u;
    }
    scratch[local_id.x] = value;
    workgroupBarrier();
    var stride = 128u;
    loop {
        if (local_id.x < stride) {
            scratch[local_id.x] = scratch[local_id.x] + scratch[local_id.x + stride];
        }
        workgroupBarrier();
        if (stride == 1u) {
            break;
        }
        stride = stride / 2u;
    }
    if (local_id.x == 0u) {
        result[0] = scratch[0];
    }
}
";

/// The vector updates of an iteration.
pub const RESIDENT_VECTOR_SHADER: &'static str = r"
struct SolverState {
    rho_previous: f32,
    rho: f32,
    alpha_hi: f32,
    alpha_lo: f32,
    omega_hi: f32,
    omega_lo: f32,
    beta: f32,
    bnorm_squared: f32,
    residual_squared: f32,
    rtol_squared: f32,
    atol_squared: f32,
    dtol_squared: f32,
    running: f32,
    iterations: f32,
    reason: f32,
    max_iterations: f32,
};

fn alpha_value() -> f32 {
    return state.alpha_hi + state.alpha_lo;
}

fn omega_value() -> f32 {
    return state.omega_hi + state.omega_lo;
}

@group(0) @binding(0) var<storage, read> state: SolverState;
@group(0) @binding(1) var<storage, read> input_a: array<f32>;
@group(0) @binding(2) var<storage, read_write> output: array<f32>;
@group(0) @binding(3) var<storage, read> input_c: array<f32>;

@compute @workgroup_size(128)
fn update_p_omega(@builtin(global_invocation_id) id: vec3<u32>) {
    if (id.x < arrayLength(&output) && state.running > 0.5f && state.iterations >= 1.5f) {
        output[id.x] = fma(-omega_value(), input_c[id.x], output[id.x]);
    }
}

@compute @workgroup_size(128)
fn prepare_p(@builtin(global_invocation_id) id: vec3<u32>) {
    if (id.x < arrayLength(&output) && state.running > 0.5f) {
        if (state.iterations < 1.5f) {
            output[id.x] = input_a[id.x];
        } else {
            output[id.x] = fma(state.beta, output[id.x], input_a[id.x]);
        }
    }
}

@compute @workgroup_size(128)
fn make_s(@builtin(global_invocation_id) id: vec3<u32>) {
    if (id.x < arrayLength(&output) && state.running > 0.5f) {
        output[id.x] = fma(-alpha_value(), input_c[id.x], input_a[id.x]);
    }
}

@compute @workgroup_size(128)
fn update_x_alpha(@builtin(global_invocation_id) id: vec3<u32>) {
    if (id.x < arrayLength(&output) && state.running > 0.5f) {
        output[id.x] = fma(alpha_value(), input_a[id.x], output[id.x]);
    }
}

@compute @workgroup_size(128)
fn update_x_omega(@builtin(global_invocation_id) id: vec3<u32>) {
    if (id.x < arrayLength(&output) && state.running > 0.5f) {
        output[id.x] = fma(omega_value(), input_a[id.x], output[id.x]);
    }
}

@compute @workgroup_size(128)
fn make_r(@builtin(global_invocation_id) id: vec3<u32>) {
    if (id.x < arrayLength(&output) && state.running > 0.5f) {
        output[id.x] = fma(-omega_value(), input_c[id.x], input_a[id.x]);
    }
}
";

/// The scalar recurrence of an iteration.
pub const RESIDENT_SCALAR_SHADER: &'static str = r"
struct SolverState {
    rho_previous: f32,
    rho: f32,
    alpha_hi: f32,
    alpha_lo: f32,
    omega_hi: f32,
    omega_lo: f32,
    beta: f32,
    bnorm_squared: f32,
    residual_squared: f32,
    rtol_squared: f32,
    atol_squared: f32,
    dtol_squared: f32,
    running: f32,
    iterations: f32,
    reason: f32,
    max_iterations: f32,
};

struct DoubleSingle {
    hi: f32,
    lo: f32,
};

const CONTINUED: f32 = 0.0f;
const CONVERGED_RTOL: f32 = 1.0f;
const CONVERGED_ATOL: f32 = 2.0f;
const DIVERGED_DTOL: f32 = 3.0f;
const DIVERGED_MAX_ITERS: f32 = 4.0f;
const DIVERGED_BREAKDOWN: f32 = 5.0f;
const DIVERGED_NAN: f32 = 6.0f;
const DIVERGED_INF: f32 = 7.0f;
const MIN_NORMAL: f32 = 1.17549435e-38f;

@group(0) @binding(0) var<storage, read_write> state: SolverState;
@group(0) @binding(1) var<storage, read> reduction: array<vec4<f32>>;

fn invalid_reason(value: f32) -> f32 {
    let bits = bitcast<u32>(value);
    if ((bits & 0x7f800000u) == 0x7f800000u) {
        if ((bits & 0x007fffffu) != 0u) {
            return DIVERGED_NAN;
        }
        return DIVERGED_INF;
    }
    return CONTINUED;
}

fn ds_from(value: f32) -> DoubleSingle {
    return DoubleSingle(value, 0.0f);
}

fn ds_value(value: DoubleSingle) -> f32 {
    return value.hi + value.lo;
}

fn ds_quick_sum(a: f32, b: f32) -> DoubleSingle {
    let sum = a + b;
    return DoubleSingle(sum, b - (sum - a));
}

fn ds_add(a: DoubleSingle, b: DoubleSingle) -> DoubleSingle {
    let sum = a.hi + b.hi;
    let virtual_b = sum - a.hi;
    let error = ((b.hi - virtual_b) + (a.hi - (sum - virtual_b))) + a.lo + b.lo;
    return ds_quick_sum(sum, error);
}

fn ds_negate(value: DoubleSingle) -> DoubleSingle {
    return DoubleSingle(-value.hi, -value.lo);
}

fn ds_multiply(a: DoubleSingle, b: DoubleSingle) -> DoubleSingle {
    let product = a.hi * b.hi;
    let error = fma(a.hi, b.hi, -product) + a.hi * b.lo + a.lo * b.hi;
    return ds_quick_sum(product, error);
}

fn ds_divide(a: DoubleSingle, b: DoubleSingle) -> DoubleSingle {
    let estimate = a.hi / b.hi;
    let remainder = ds_add(a, ds_negate(ds_multiply(b, ds_from(estimate))));
    let correction = ds_value(remainder) / b.hi;
    return ds_quick_sum(estimate, correction);
}

fn alpha_value() -> DoubleSingle {
    return DoubleSingle(state.alpha_hi, state.alpha_lo);
}

fn omega_value() -> DoubleSingle {
    return DoubleSingle(state.omega_hi, state.omega_lo);
}

fn norm_reason(norm_squared: f32) -> f32 {
    let invalid = invalid_reason(norm_squared);
    if (invalid != CONTINUED) {
        return invalid;
    }
    if (norm_squared < 0.0f) {
        return DIVERGED_BREAKDOWN;
    }
    if (norm_squared <= state.atol_squared) {
        return CONVERGED_ATOL;
    }
    if (norm_squared <= state.rtol_squared * state.bnorm_squared) {
        return CONVERGED_RTOL;
    }
    if (norm_squared >= state.dtol_squared * state.bnorm_squared) {
        return DIVERGED_DTOL;
    }
    return CONTINUED;
}

fn stop(reason: f32) {
    state.reason = reason;
    state.running = 0.0f;
}

@compute @workgroup_size(1)
fn begin_iteration() {
    if (state.running < 0.5f) {
        return;
    }
    let rho = reduction[0].x;
    let invalid = invalid_reason(rho);
    if (invalid != CONTINUED) {
        stop(invalid);
        return;
    }
    if (abs(rho) <= MIN_NORMAL) {
        stop(DIVERGED_BREAKDOWN);
        return;
    }
    state.iterations = state.iterations + 1.0f;
    state.rho = rho;
    if (state.iterations < 1.5f) {
        state.beta = 0.0f;
        return;
    }
    if (abs(state.rho_previous) <= MIN_NORMAL || abs(ds_value(omega_value())) <= MIN_NORMAL) {
        stop(DIVERGED_BREAKDOWN);
        return;
    }
    let rho_ratio = ds_divide(ds_from(rho), ds_from(state.rho_previous));
    let alpha_omega_ratio = ds_divide(alpha_value(), omega_value());
    let beta = ds_value(ds_multiply(rho_ratio, alpha_omega_ratio));
    let beta_invalid = invalid_reason(beta);
    if (beta_invalid != CONTINUED) {
        stop(beta_invalid);
        return;
    }
    state.beta = beta;
}

@compute @workgroup_size(1)
fn finish_alpha() {
    if (state.running < 0.5f) {
        return;
    }
    let denominator = reduction[0].x;
    let invalid = invalid_reason(denominator);
    if (invalid != CONTINUED) {
        stop(invalid);
        return;
    }
    if (abs(denominator) <= MIN_NORMAL) {
        stop(DIVERGED_BREAKDOWN);
        return;
    }
    let alpha = ds_divide(ds_from(state.rho), ds_from(denominator));
    let alpha_rounded = ds_value(alpha);
    let alpha_invalid = invalid_reason(alpha_rounded);
    if (alpha_invalid != CONTINUED || abs(alpha_rounded) <= MIN_NORMAL) {
        stop(select(DIVERGED_BREAKDOWN, alpha_invalid, alpha_invalid != CONTINUED));
        return;
    }
    state.alpha_hi = alpha.hi;
    state.alpha_lo = alpha.lo;
}

@compute @workgroup_size(1)
fn check_s() {
    if (state.running < 0.5f) {
        return;
    }
    state.residual_squared = reduction[0].x;
    let reason = norm_reason(state.residual_squared);
    if (reason != CONTINUED) {
        stop(reason);
    }
}

@compute @workgroup_size(1)
fn finish_omega() {
    if (state.running < 0.5f) {
        return;
    }
    let t_dot_t = reduction[0].y;
    let t_dot_s = reduction[0].z;
    let invalid_tt = invalid_reason(t_dot_t);
    let invalid_ts = invalid_reason(t_dot_s);
    if (invalid_tt != CONTINUED || invalid_ts != CONTINUED) {
        stop(select(invalid_tt, invalid_ts, invalid_ts != CONTINUED));
        return;
    }
    if (t_dot_t <= MIN_NORMAL) {
        stop(DIVERGED_BREAKDOWN);
        return;
    }
    let omega = ds_divide(ds_from(t_dot_s), ds_from(t_dot_t));
    let omega_rounded = ds_value(omega);
    let invalid = invalid_reason(omega_rounded);
    if (invalid != CONTINUED || abs(omega_rounded) <= MIN_NORMAL) {
        stop(select(DIVERGED_BREAKDOWN, invalid, invalid != CONTINUED));
        return;
    }
    state.omega_hi = omega.hi;
    state.omega_lo = omega.lo;
}

@compute @workgroup_size(1)
fn check_r() {
    if (state.running < 0.5f) {
        return;
    }
    state.residual_squared = reduction[0].y;
    state.rho_previous = state.rho;
    let reason = norm_reason(state.residual_squared);
    if (reason != CONTINUED) {
        stop(reason);
        return;
    }
    if (state.iterations >= state.max_iterations) {
        stop(DIVERGED_MAX_ITERS);
    }
}
";

/// The product of a sparse matrix with a vector.
pub const CSR_SPMV_SHADER: &'static str = r"
@group(0) @binding(0) var<storage, read> row_offsets: array<u32>;
@group(0) @binding(1) var<storage, read> column_indices: array<u32>;
@group(0) @binding(2) var<storage, read> matrix_values: array<f32>;
@group(0) @binding(3) var<storage, read> input_values: array<f32>;
@group(0) @binding(4) var<storage, read_write> output_values: array<f32>;

@compute @workgroup_size(128)
fn spmv(@builtin(global_invocation_id) id: vec3<u32>) {
    let row = id.x;
    if (row + 1u >= arrayLength(&row_offsets)) {
        return;
    }
    var sum = 0.0f;
    let start = row_offsets[row];
    let end = row_offsets[row + 1u];
    for (var entry = start; entry < end; entry = entry + 1u) {
        sum = fma(matrix_values[entry], input_values[column_indices[entry]], sum);
    }
    output_values[row] = sum;
}
";

/// Diagonal scaling.
pub const JACOBI_SHADER: &'static str = r"
@group(0) @binding(0) var<storage, read> inverse_diagonal: array<f32>;
@group(0) @binding(1) var<storage, read> input_values: array<f32>;
@group(0) @binding(2) var<storage, read_write> output_values: array<f32>;

@compute @workgroup_size(128)
fn apply(@builtin(global_invocation_id) id: vec3<u32>) {
    if (id.x < arrayLength(&input_values)) {
        output_values[id.x] = inverse_diagonal[id.x] * input_values[id.x];
    }
}
";

/// The source of a shader.
pub open spec fn source_text(module: ShaderModule) -> Seq<char> {
    match module {
        ShaderModule::Vector => VECTOR_SHADER@,
        ShaderModule::Reduction => REDUCTION_SHADER@,
        ShaderModule::ResidentVector => RESIDENT_VECTOR_SHADER@,
        ShaderModule::ResidentScalar => RESIDENT_SCALAR_SHADER@,
        ShaderModule::CsrSpmv => CSR_SPMV_SHADER@,
        ShaderModule::Jacobi => JACOBI_SHADER@,
    }
}

/// The source of a shader.
pub fn source(module: ShaderModule) -> (r: &'static str)
    ensures
        r@ == source_text(module),
{
    match module {
        ShaderModule::Vector => VECTOR_SHADER,
        ShaderModule::Reduction => REDUCTION_SHADER,
        ShaderModule::ResidentVector => RESIDENT_VECTOR_SHADER,
        ShaderModule::ResidentScalar => RESIDENT_SCALAR_SHADER,
        ShaderModule::CsrSpmv => CSR_SPMV_SHADER,
        ShaderModule::Jacobi => JACOBI_SHADER,
    }
}

/// Each shader has its own source.
pub proof fn law_sources(module: ShaderModule)
    ensures
        module is Vector ==> source_text(module) == VECTOR_SHADER@,
        module is Reduction ==> source_text(module) == REDUCTION_SHADER@,
        module is ResidentVector ==> source_text(module) == RESIDENT_VECTOR_SHADER@,
        module is ResidentScalar ==> source_text(module) == RESIDENT_SCALAR_SHADER@,
        module is CsrSpmv ==> source_text(module) == CSR_SPMV_SHADER@,
        module is Jacobi ==> source_text(module) == JACOBI_SHADER@,
{
}

} // verus!
