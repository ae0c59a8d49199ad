use kryst_wgpu::command::{Binding, Command, Encoded, Kernel};
use kryst_wgpu::convergence::{ConvergedReason, PcType, SolveStats, SolverType};
use kryst_wgpu::error::{KError, NonFiniteKind, SolveFailure, WgpuErrorKind};
use kryst_wgpu::operator::{CsrMatrix, WgpuCsrOp};
use kryst_wgpu::preconditioner::WgpuPreconditioner;
use kryst_wgpu::runtime::{AdapterInfo, ReadRequest, Readback, WgpuRuntime};
use kryst_wgpu::solver::session::{finish_host, CheckRequest, Progress};
use kryst_wgpu::solver::WgpuKspContext;
use kryst_wgpu::vector::WgpuVector;
use std::sync::{Arc, Mutex};

const MIN_NORMAL: f32 = f32::MIN_POSITIVE;

/// A device that carries recorded commands out on the host, in single precision.
struct HostDevice {
    buffers: Vec<Vec<u8>>,
    log: Vec<String>,
    written: Vec<usize>,
}

/// The bindings that a kernel writes.
fn written_slots(kernel: Kernel) -> Vec<usize> {
    match kernel {
        Kernel::Axpby => vec![1],
        Kernel::ReduceStage | Kernel::ReduceFinal => vec![4, 5],
        Kernel::Spmv => vec![4],
        Kernel::JacobiApply => vec![2],
        Kernel::UpdatePOmega
        | Kernel::PrepareP
        | Kernel::MakeS
        | Kernel::UpdateXAlpha
        | Kernel::UpdateXOmega
        | Kernel::MakeR => vec![2],
        _ => vec![0],
    }
}

#[derive(Clone, Copy)]
struct DoubleSingle {
    hi: f32,
    lo: f32,
}

fn ds(value: f32) -> DoubleSingle {
    DoubleSingle { hi: value, lo: 0.0 }
}

fn ds_value(value: DoubleSingle) -> f32 {
    value.hi + value.lo
}

fn ds_quick_sum(a: f32, b: f32) -> DoubleSingle {
    let sum = a + b;
    DoubleSingle { hi: sum, lo: b - (sum - a) }
}

fn ds_plus(a: DoubleSingle, b: DoubleSingle) -> DoubleSingle {
    let sum = a.hi + b.hi;
    let virtual_b = sum - a.hi;
    let error = ((b.hi - virtual_b) + (a.hi - (sum - virtual_b))) + a.lo + b.lo;
    ds_quick_sum(sum, error)
}

fn ds_times(a: DoubleSingle, b: DoubleSingle) -> DoubleSingle {
    let product = a.hi * b.hi;
    let error = a.hi.mul_add(b.hi, -product) + a.hi * b.lo + a.lo * b.hi;
    ds_quick_sum(product, error)
}

fn ds_divide(a: DoubleSingle, b: DoubleSingle) -> DoubleSingle {
    let estimate = a.hi / b.hi;
    let back = ds_times(b, ds(estimate));
    let remainder = ds_plus(a, DoubleSingle { hi: -back.hi, lo: -back.lo });
    ds_quick_sum(estimate, ds_value(remainder) / b.hi)
}

fn invalid_reason(value: f32) -> f32 {
    if value.is_nan() {
        6.0
    } else if value.is_infinite() {
        7.0
    } else {
        0.0
    }
}

fn norm_reason(state: &[f32], norm_squared: f32) -> f32 {
    let invalid = invalid_reason(norm_squared);
    if invalid != 0.0 {
        invalid
    } else if norm_squared < 0.0 {
        5.0
    } else if norm_squared <= state[10] {
        2.0
    } else if norm_squared <= state[9] * state[7] {
        1.0
    } else if norm_squared >= state[11] * state[7] {
        3.0
    } else {
        0.0
    }
}

fn stop(state: &mut [f32], reason: f32) {
    state[14] = reason;
    state[12] = 0.0;
}

impl HostDevice {
    fn new() -> HostDevice {
        HostDevice { buffers: Vec::new(), log: Vec::new(), written: Vec::new() }
    }

    fn singles(&self, buffer: usize) -> Vec<f32> {
        self.buffers[buffer]
            .chunks_exact(4)
            .map(|four| f32::from_ne_bytes(four.try_into().unwrap()))
            .collect()
    }

    fn words(&self, buffer: usize) -> Vec<u32> {
        self.buffers[buffer]
            .chunks_exact(4)
            .map(|four| u32::from_ne_bytes(four.try_into().unwrap()))
            .collect()
    }

    fn store(&mut self, buffer: usize, values: &[f32]) {
        let mut bytes = Vec::new();
        for value in values {
            bytes.extend_from_slice(&value.to_ne_bytes());
        }
        self.buffers[buffer][..bytes.len()].copy_from_slice(&bytes);
    }

    fn run(&mut self, command: Command) {
        match command {
            Command::CreateBuffer { buffer, size, .. } => {
                assert_eq!(buffer, self.buffers.len());
                self.buffers.push(vec![0; size as usize]);
            }
            Command::CreateBufferInit { buffer, contents, .. } => {
                assert_eq!(buffer, self.buffers.len());
                self.buffers.push(contents);
            }
            Command::WriteBuffer { buffer, contents } => {
                self.written.push(buffer);
                self.buffers[buffer][..contents.len()].copy_from_slice(&contents);
            }
            Command::Submit { label, encoded } => {
                self.log.push(label.to_string());
                for work in encoded {
                    self.encoded(work);
                }
            }
            Command::Precondition { .. } => panic!("the device has no preconditioner"),
            _ => {}
        }
    }

    fn encoded(&mut self, work: Encoded) {
        match work {
            Encoded::ClearBuffer { buffer } => {
                for byte in self.buffers[buffer].iter_mut() {
                    *byte = 0;
                }
            }
            Encoded::CopyBuffer { source, destination, bytes } => {
                assert_ne!(source, destination);
                self.written.push(destination);
                let copy = self.buffers[source][..bytes as usize].to_vec();
                self.buffers[destination][..bytes as usize].copy_from_slice(&copy);
            }
            Encoded::ComputePass { bindings, dispatches, .. } => {
                for (index, binding) in bindings.iter().enumerate() {
                    assert_eq!(binding.binding as usize, index);
                }
                for written in written_slots(dispatches[0].kernel) {
                    let buffer = bindings[written].buffer;
                    assert_eq!(bindings.iter().filter(|b| b.buffer == buffer).count(), 1);
                    self.written.push(buffer);
                }
                for dispatch in dispatches {
                    self.kernel(dispatch.kernel, dispatch.groups, &bindings);
                }
            }
        }
    }

    fn kernel(&mut self, kernel: Kernel, groups: u32, bindings: &[Binding]) {
        let at = |index: usize| bindings[index].buffer;
        match kernel {
            Kernel::Axpby => {
                let params = self.singles(at(2));
                let n = self.words(at(2))[2] as usize;
                assert!(groups as usize * 128 >= n);
                let x = self.singles(at(0));
                let mut y = self.singles(at(1));
                for i in 0..n {
                    y[i] = params[0].mul_add(x[i], params[1] * y[i]);
                }
                self.store(at(1), &y);
            }
            Kernel::Spmv => {
                let rows = self.words(at(0));
                let columns = self.words(at(1));
                let values = self.singles(at(2));
                let x = self.singles(at(3));
                let mut y = self.singles(at(4));
                for row in 0..rows.len() - 1 {
                    let mut sum = 0.0f32;
                    for entry in rows[row] as usize..rows[row + 1] as usize {
                        sum = values[entry].mul_add(x[columns[entry] as usize], sum);
                    }
                    y[row] = sum;
                }
                self.store(at(4), &y);
            }
            Kernel::JacobiApply => {
                let inverse = self.singles(at(0));
                let x = self.singles(at(1));
                let y: Vec<f32> = x.iter().zip(inverse).map(|(x, inverse)| inverse * x).collect();
                self.store(at(2), &y);
            }
            Kernel::ReduceStage => {
                let n = self.words(at(6))[0] as usize;
                let mut partials = self.singles(at(4));
                let pairs = [(at(0), at(1)), (at(2), at(3)), (at(7), at(8))];
                for (lane, (x, y)) in pairs.into_iter().enumerate() {
                    let x = self.singles(x);
                    let y = self.singles(y);
                    for group in 0..groups as usize {
                        let mut scratch = vec![0.0f32; 256];
                        for local in 0..256 {
                            let global = group * 256 + local;
                            if global < n {
                                scratch[local] = x[global] * y[global];
                            }
                        }
                        partials[group * 4 + lane] = fold(scratch);
                    }
                }
                self.store(at(4), &partials);
            }
            Kernel::ReduceFinal => {
                let count = self.words(at(6))[1] as usize;
                let partials = self.singles(at(4));
                let mut result = vec![0.0f32; 4];
                for lane in 0..3 {
                    let mut scratch = vec![0.0f32; 256];
                    for local in 0..256 {
                        let mut index = local;
                        while index < count {
                            scratch[local] += partials[index * 4 + lane];
                            index += 256;
                        }
                    }
                    result[lane] = fold(scratch);
                }
                self.store(at(5), &result);
            }
            Kernel::UpdatePOmega
            | Kernel::PrepareP
            | Kernel::MakeS
            | Kernel::UpdateXAlpha
            | Kernel::UpdateXOmega
            | Kernel::MakeR => {
                let state = self.singles(at(0));
                let a = self.singles(at(1));
                let mut output = self.singles(at(2));
                let c = self.singles(at(3));
                if state[12] > 0.5 {
                    let alpha = state[2] + state[3];
                    let omega = state[4] + state[5];
                    for i in 0..output.len() {
                        output[i] = match kernel {
                            Kernel::UpdatePOmega if state[13] >= 1.5 => {
                                (-omega).mul_add(c[i], output[i])
                            }
                            Kernel::UpdatePOmega => output[i],
                            Kernel::PrepareP if state[13] < 1.5 => a[i],
                            Kernel::PrepareP => state[6].mul_add(output[i], a[i]),
                            Kernel::MakeS => (-alpha).mul_add(c[i], a[i]),
                            Kernel::UpdateXAlpha => alpha.mul_add(a[i], output[i]),
                            Kernel::UpdateXOmega => omega.mul_add(a[i], output[i]),
                            _ => (-omega).mul_add(c[i], a[i]),
                        };
                    }
                    self.store(at(2), &output);
                }
            }
            _ => {
                let mut state = self.singles(at(0));
                let reduction = self.singles(at(1));
                if state[12] >= 0.5 {
                    scalar(kernel, &mut state, &reduction);
                    self.store(at(0), &state);
                }
            }
        }
    }
}

fn fold(mut scratch: Vec<f32>) -> f32 {
    let mut stride = 128;
    loop {
        for i in 0..stride {
            scratch[i] += scratch[i + stride];
        }
        if stride == 1 {
            return scratch[0];
        }
        stride /= 2;
    }
}

fn scalar(kernel: Kernel, state: &mut [f32], reduction: &[f32]) {
    let alpha = DoubleSingle { hi: state[2], lo: state[3] };
    let omega = DoubleSingle { hi: state[4], lo: state[5] };
    match kernel {
        Kernel::BeginIteration => {
            let rho = reduction[0];
            if invalid_reason(rho) != 0.0 {
                return stop(state, invalid_reason(rho));
            }
            if rho.abs() <= MIN_NORMAL {
                return stop(state, 5.0);
            }
            state[13] += 1.0;
            state[1] = rho;
            if state[13] < 1.5 {
                state[6] = 0.0;
                return;
            }
            if state[0].abs() <= MIN_NORMAL || ds_value(omega).abs() <= MIN_NORMAL {
                return stop(state, 5.0);
            }
            let ratio = ds_divide(ds(rho), ds(state[0]));
            let beta = ds_value(ds_times(ratio, ds_divide(alpha, omega)));
            if invalid_reason(beta) != 0.0 {
                return stop(state, invalid_reason(beta));
            }
            state[6] = beta;
        }
        Kernel::FinishAlpha => {
            let denominator = reduction[0];
            if invalid_reason(denominator) != 0.0 {
                return stop(state, invalid_reason(denominator));
            }
            if denominator.abs() <= MIN_NORMAL {
                return stop(state, 5.0);
            }
            let alpha = ds_divide(ds(state[1]), ds(denominator));
            let rounded = ds_value(alpha);
            if invalid_reason(rounded) != 0.0 || rounded.abs() <= MIN_NORMAL {
                let invalid = invalid_reason(rounded);
                return stop(state, if invalid != 0.0 { invalid } else { 5.0 });
            }
            state[2] = alpha.hi;
            state[3] = alpha.lo;
        }
        Kernel::CheckS => {
            state[8] = reduction[0];
            let reason = norm_reason(state, state[8]);
            if reason != 0.0 {
                stop(state, reason);
            }
        }
        Kernel::FinishOmega => {
            let (tt, ts) = (reduction[1], reduction[2]);
            if invalid_reason(tt) != 0.0 || invalid_reason(ts) != 0.0 {
                let last = invalid_reason(ts);
                return stop(state, if last != 0.0 { last } else { invalid_reason(tt) });
            }
            if tt <= MIN_NORMAL {
                return stop(state, 5.0);
            }
            let omega = ds_divide(ds(ts), ds(tt));
            let rounded = ds_value(omega);
            if invalid_reason(rounded) != 0.0 || rounded.abs() <= MIN_NORMAL {
                let invalid = invalid_reason(rounded);
                return stop(state, if invalid != 0.0 { invalid } else { 5.0 });
            }
            state[4] = omega.hi;
            state[5] = omega.lo;
        }
        _ => {
            state[8] = reduction[1];
            state[0] = state[1];
            let reason = norm_reason(state, state[8]);
            if reason != 0.0 {
                return stop(state, reason);
            }
            if state[13] >= state[15] {
                stop(state, 4.0);
            }
        }
    }
}

/// The solver together with a device that runs on the host.
struct Session {
    runtime: WgpuRuntime,
    device: Arc<Mutex<HostDevice>>,
    context: WgpuKspContext,
    tolerances: (f64, f64, f64, usize),
    reads: Vec<u64>,
}

fn adapter() -> AdapterInfo {
    AdapterInfo {
        name: "host".to_string(),
        backend: "Noop".to_string(),
        device_type: "Cpu".to_string(),
    }
}

fn new_runtime(id: u64) -> WgpuRuntime {
    WgpuRuntime::request::<String>(id, &adapter(), Ok(())).expect("request a device")
}

fn bits(values: &[f64]) -> Vec<u64> {
    values.iter().map(|value| value.to_bits()).collect()
}

fn doubles(values: &[u64]) -> Vec<f64> {
    values.iter().map(|&value| f64::from_bits(value)).collect()
}

fn tridiagonal() -> CsrMatrix {
    CsrMatrix::from_csr(
        3,
        3,
        vec![0, 2, 5, 7],
        vec![0, 1, 0, 1, 2, 1, 2],
        bits(&[4.0, -1.0, -1.0, 4.0, -1.0, -1.0, 3.0]),
    )
}

impl Session {
    fn new() -> Session {
        let mut runtime = new_runtime(1);
        let context = WgpuKspContext::new(&mut runtime);
        Session {
            runtime,
            device: Arc::new(Mutex::new(HostDevice::new())),
            context,
            tolerances: (1.0e-5, 1.0e-30, 1.0e5, 10_000),
            reads: Vec::new(),
        }
    }

    fn upload(&mut self, matrix: &CsrMatrix) -> Arc<WgpuCsrOp> {
        Arc::new(WgpuCsrOp::from_host(&mut self.runtime, matrix).expect("upload CSR"))
    }

    fn set_tolerances(&mut self, rtol: f64, atol: f64, dtol: f64, max_iters: usize) {
        let answer =
            self.context.set_tolerances(rtol.to_bits(), atol.to_bits(), dtol.to_bits(), max_iters);
        assert!(answer.is_ok());
        self.tolerances = (rtol, atol, dtol, max_iters);
    }

    fn flush(&mut self) -> Result<(), KError> {
        for command in self.runtime.take_commands() {
            match command {
                Command::Precondition { input, output } => {
                    self.context.apply_preconditioner(&input, &output).expect("a preconditioner")?;
                }
                other => self.device.lock().unwrap().run(other),
            }
        }
        Ok(())
    }

    fn read(&mut self, request: &ReadRequest) -> Result<Vec<u32>, KError> {
        self.flush()?;
        self.reads.push(request.byte_count);
        let device = self.device.lock().unwrap();
        let bytes = device.buffers[request.source][..request.byte_count as usize].to_vec();
        self.runtime.finish_read(request, Readback::<String, String, String>::Mapped(bytes))
    }

    fn judge(&self, request: CheckRequest) -> ConvergedReason {
        let residual = f64::from_bits(request.residual);
        let rhs = f64::from_bits(request.rhs);
        let (rtol, atol, dtol, max_iters) = self.tolerances;
        if residual <= atol {
            ConvergedReason::ConvergedAtol
        } else if residual <= rtol * rhs {
            ConvergedReason::ConvergedRtol
        } else if residual >= dtol * rhs {
            ConvergedReason::DivergedDtol
        } else if request.iterations >= max_iters {
            ConvergedReason::DivergedMaxIts
        } else {
            ConvergedReason::Continued
        }
    }

    fn solve_host(&mut self, b: &[f64], x: &mut Vec<f64>) -> Result<SolveStats, KError> {
        let mut host = bits(x);
        let (phase, solution) =
            self.context.solve_host(&mut self.runtime, &bits(b), &host)?;
        let reply = self.read(phase.request());
        let phase = self.context.startup_reduced(phase, reply)?;
        let reason = self.judge(phase.check());
        let mut progress = self.context.startup_checked(&mut self.runtime, phase, reason)?;
        let stats = loop {
            progress = match progress {
                Progress::Batch(phase) => {
                    let reply = self.read(phase.request());
                    self.context.batch_read(&mut self.runtime, phase, reply)?
                }
                Progress::Tail(phase) => {
                    let reply = self.read(phase.request());
                    self.context.tail_reduced(phase, reply)?
                }
                Progress::Check(phase) => {
                    let reason = self.judge(phase.check());
                    break self.context.tail_checked(phase, reason);
                }
                Progress::Done(stats) => break stats,
            };
        };
        let downloaded = if stats.reason.is_converged() {
            Some(self.read(&solution.download()))
        } else {
            None
        };
        let result = finish_host(stats, &solution, downloaded, &mut host);
        *x = doubles(&host);
        result
    }
}

struct CopyPreconditioner {
    runtime: u64,
    device: Arc<Mutex<HostDevice>>,
    dimension: usize,
}

impl WgpuPreconditioner for CopyPreconditioner {
    fn dims(&self) -> (usize, usize) {
        (self.dimension, self.dimension)
    }

    fn apply(&self, input: &WgpuVector, output: &WgpuVector) -> Result<(), KError> {
        if self.runtime != input.runtime()
            || self.runtime != output.runtime()
            || input.len() != self.dimension
            || output.len() != self.dimension
        {
            return Err(KError::InvalidInput(
                "copy preconditioner received an incompatible vector".to_string(),
            ));
        }
        let mut device = self.device.lock().unwrap();
        device.log.push("test caller-owned WebGPU preconditioner".to_string());
        device.encoded(Encoded::CopyBuffer {
            source: input.buffer(),
            destination: output.buffer(),
            bytes: (self.dimension * 4) as u64,
        });
        Ok(())
    }
}

struct FailingPreconditioner {
    dimension: usize,
}

impl WgpuPreconditioner for FailingPreconditioner {
    fn dims(&self) -> (usize, usize) {
        (self.dimension, self.dimension + 1)
    }

    fn apply(&self, _input: &WgpuVector, _output: &WgpuVector) -> Result<(), KError> {
        Err(KError::ZeroPivot(2))
    }
}

/// Notes the buffers that it is handed and answers with the next of its answers.
struct NotingPreconditioner {
    calls: Arc<Mutex<Vec<(usize, usize)>>>,
}

impl WgpuPreconditioner for NotingPreconditioner {
    fn dims(&self) -> (usize, usize) {
        (3, 3)
    }

    fn apply(&self, input: &WgpuVector, output: &WgpuVector) -> Result<(), KError> {
        let mut calls = self.calls.lock().unwrap();
        calls.push((input.buffer(), output.buffer()));
        if calls.len() == 1 {
            Ok(())
        } else {
            Err(KError::ZeroPivot(calls.len()))
        }
    }
}

/// Counts how often it is asked for its dimensions.
struct CountingPreconditioner {
    asked: Arc<Mutex<usize>>,
}

impl WgpuPreconditioner for CountingPreconditioner {
    fn dims(&self) -> (usize, usize) {
        *self.asked.lock().unwrap() += 1;
        (3, 3)
    }

    fn apply(&self, _input: &WgpuVector, _output: &WgpuVector) -> Result<(), KError> {
        Ok(())
    }
}

struct RefusingPreconditioner;

impl WgpuPreconditioner for RefusingPreconditioner {
    fn dims(&self) -> (usize, usize) {
        (3, 3)
    }

    fn apply(&self, _input: &WgpuVector, _output: &WgpuVector) -> Result<(), KError> {
        Err(KError::ZeroPivot(2))
    }
}

#[test]
fn resident_bicgstab_jacobi_matches_a_known_solution() {
    let mut session = Session::new();
    let operator = session.upload(&tridiagonal());
    assert!(session.context.set_type(SolverType::BiCgStab).is_ok());
    assert!(session.context.set_pc_type(PcType::Jacobi).is_ok());
    session.set_tolerances(1.0e-5, 1.0e-7, 1.0e5, 100);
    assert!(session.context.set_operator(operator).is_ok());
    let mut solution = vec![0.0; 3];
    let stats =
        session.solve_host(&[2.0, 4.0, 7.0], &mut solution).expect("solve known system");
    assert!(stats.reason.is_converged(), "{stats:?}");
    for (actual, expected) in solution.iter().zip([1.0, 2.0, 3.0]) {
        assert!((actual - expected).abs() < 5.0e-4);
    }
    assert!(f64::from_bits(stats.final_true_residual.unwrap()) < 1.0e-4);
}

#[test]
fn nonconverged_host_solve_is_atomic() {
    let mut session = Session::new();
    let operator = session.upload(&tridiagonal());
    assert!(session.context.set_pc_type(PcType::Identity).is_ok());
    session.set_tolerances(0.0, 0.0, 1.0e5, 1);
    assert!(session.context.set_operator(operator).is_ok());
    let mut solution = vec![0.25, 0.5, 0.75];
    let before = solution.clone();
    let stats = session
        .solve_host(&[2.0, 4.0, 7.0], &mut solution)
        .expect("nonconverged solve returns diagnostics");
    assert!(!stats.reason.is_converged());
    assert_eq!(solution, before);
}

#[test]
fn caller_owned_resident_preconditioner_participates_in_solve() {
    let mut session = Session::new();
    let operator = session.upload(&tridiagonal());
    let preconditioner = CopyPreconditioner {
        runtime: session.runtime.id(),
        device: session.device.clone(),
        dimension: 3,
    };
    assert!(session.context.set_operator(operator).is_ok());
    session.context.set_preconditioner(Box::new(preconditioner));
    session.set_tolerances(1.0e-5, 1.0e-7, 1.0e5, 100);

    let mut solution = vec![0.0; 3];
    let stats = session
        .solve_host(&[2.0, 4.0, 7.0], &mut solution)
        .expect("solve with caller-owned resident preconditioner");

    assert!(stats.reason.is_converged(), "{stats:?}");
    for (actual, expected) in solution.iter().zip([1.0, 2.0, 3.0]) {
        assert!((actual - expected).abs() < 5.0e-4);
    }
    let device = session.device.lock().unwrap();
    let applied = device.log.iter().filter(|label| label.starts_with("test caller-owned")).count();
    assert!(applied >= 2 * stats.iterations);
    assert_eq!(applied, 2 * 16);
}

#[test]
fn the_report_counts_reductions_as_its_model_does() {
    let mut session = Session::new();
    let operator = session.upload(&tridiagonal());
    session.set_tolerances(1.0e-5, 1.0e-7, 1.0e5, 100);
    assert!(session.context.set_operator(operator).is_ok());
    let mut solution = vec![0.0; 3];
    let stats = session.solve_host(&[2.0, 4.0, 7.0], &mut solution).expect("solve");
    let model = stats.reduction_model.expect("a model");
    assert_eq!(model.variant, "wgpu-resident-batched-three-reduction-bicgstab");
    assert_eq!((model.startup, model.per_iteration, model.tail), (1, 3, 1));
    assert_eq!(stats.counters.num_global_reductions, 2 + 3 * stats.iterations);
    assert_eq!(
        stats.effective_variant.as_deref(),
        Some("wgpu-resident-right-bicgstab-batch-16-readbacks-1")
    );
    assert!(stats.iterations >= 1 && stats.iterations <= 16);
    assert_eq!(stats.final_true_residual, Some(stats.final_residual));
    assert_eq!(session.reads, vec![16, 64, 16, 12]);
}

#[test]
fn only_compact_state_crosses_to_the_host_during_a_solve() {
    let n: usize = 300;
    let mut rows = vec![0];
    let mut columns = Vec::new();
    let mut values = Vec::new();
    for row in 0..n {
        for (column, value) in
            [(row.wrapping_sub(1), -1.0), (row, 2.0 + 0.25 * (row % 3) as f64), (row + 1, -1.0)]
        {
            if column < n {
                columns.push(column);
                values.push(value);
            }
        }
        rows.push(columns.len());
    }
    let matrix = CsrMatrix::from_csr(n, n, rows, columns, bits(&values));
    let mut session = Session::new();
    let operator = session.upload(&matrix);
    session.set_tolerances(1.0e-4, 0.0, 1.0e5, 200);
    assert!(session.context.set_operator(operator).is_ok());
    let mut solution = vec![0.0; n];
    let stats = session.solve_host(&vec![1.0; n], &mut solution).expect("solve");
    assert!(stats.reason.is_converged(), "{stats:?}");
    let reads = session.reads.clone();
    assert_eq!(reads[0], 16);
    assert_eq!(reads[reads.len() - 1], 4 * n as u64);
    assert_eq!(reads[reads.len() - 2], 16);
    for &bytes in &reads[1..reads.len() - 2] {
        assert_eq!(bytes, 64);
    }
    assert_eq!(reads.len() - 3, (stats.iterations + 15) / 16);
}

#[test]
fn a_solve_leaves_the_right_hand_side_and_the_matrix_alone() {
    for pc_type in [PcType::Identity, PcType::Jacobi] {
        let mut session = Session::new();
        let operator = session.upload(&tridiagonal());
        let matrix = operator.device_buffers();
        assert!(session.context.set_pc_type(pc_type).is_ok());
        assert!(session.context.set_operator(operator).is_ok());
        session.set_tolerances(1.0e-5, 1.0e-7, 1.0e5, 100);
        let mut solution = vec![0.0; 3];
        let stats = session.solve_host(&[2.0, 4.0, 7.0], &mut solution).expect("solve");
        assert!(stats.reason.is_converged(), "{stats:?}");
        let held = session.context.device_buffers();
        let device = session.device.lock().unwrap();
        let uploaded: Vec<usize> =
            (0..device.buffers.len()).filter(|b| !held.contains(b) && !matrix.contains(b)).collect();
        assert_eq!(uploaded.len(), 2);
        assert!(!device.written.contains(&uploaded[0]));
        assert!(device.written.contains(&uploaded[1]));
        assert_eq!(device.singles(uploaded[0]), vec![2.0, 4.0, 7.0]);
        for buffer in matrix {
            assert!(!device.written.contains(&buffer));
        }
    }
}

#[test]
fn the_first_state_is_written_word_for_word() {
    let mut session = Session::new();
    let operator = session.upload(&tridiagonal());
    assert!(session.context.set_operator(operator).is_ok());
    session.set_tolerances(1.0e-3, 1.0e-7, 1.0e5, 250);
    let b = WgpuVector::zeros(&mut session.runtime, 3).expect("b");
    let x = WgpuVector::zeros(&mut session.runtime, 3).expect("x");
    let phase = session.context.solve(&mut session.runtime, &b, &x).expect("start");
    let words = vec![4.0f32.to_bits(), 9.0f32.to_bits(), 9.0f32.to_bits(), 0];
    let phase = session.context.startup_reduced(phase, Ok(words)).expect("sums");
    session.runtime.take_commands();
    let go_on = ConvergedReason::Continued;
    session.context.startup_checked(&mut session.runtime, phase, go_on).expect("begin");
    let commands = session.runtime.take_commands();
    let expected: [f32; 16] = [
        9.0,
        9.0,
        1.0,
        0.0,
        1.0,
        0.0,
        0.0,
        4.0,
        9.0,
        (1.0e-3f64 * 1.0e-3) as f32,
        (1.0e-7f64 * 1.0e-7) as f32,
        (1.0e5f64 * 1.0e5) as f32,
        1.0,
        0.0,
        0.0,
        250.0,
    ];
    let mut bytes = Vec::new();
    for value in expected {
        bytes.extend_from_slice(&value.to_ne_bytes());
    }
    match &commands[0] {
        Command::WriteBuffer { contents, .. } => assert_eq!(*contents, bytes),
        other => panic!("{other:?}"),
    }
    match &commands[1] {
        Command::WriteBuffer { contents, .. } => {
            let words = [3u32, 1, 0, 0];
            let bytes: Vec<u8> = words.iter().flat_map(|word| word.to_ne_bytes()).collect();
            assert_eq!(*contents, bytes);
        }
        other => panic!("{other:?}"),
    }
    assert_eq!(commands.len(), 3);
}

#[test]
fn a_zero_residual_ends_the_solve_before_an_iteration() {
    let mut session = Session::new();
    let operator = session.upload(&tridiagonal());
    assert!(session.context.set_operator(operator).is_ok());
    let mut solution = vec![1.0, 2.0, 3.0];
    let stats = session.solve_host(&[2.0, 4.0, 7.0], &mut solution).expect("solve");
    assert_eq!(stats.reason, ConvergedReason::ConvergedAtol);
    assert_eq!(stats.iterations, 0);
    assert_eq!(stats.final_residual, 0.0f64.to_bits());
    assert_eq!(stats.counters.num_global_reductions, 1);
    assert!(stats.reduction_model.is_none() && stats.effective_variant.is_none());
    assert_eq!(session.reads, vec![16, 12]);
    assert_eq!(solution, vec![1.0, 2.0, 3.0]);
}

#[test]
fn repeated_solves_reuse_the_workspace_and_the_preconditioner() {
    let mut session = Session::new();
    let operator = session.upload(&tridiagonal());
    assert!(session.context.set_pc_type(PcType::Jacobi).is_ok());
    assert!(session.context.set_operator(operator).is_ok());
    session.set_tolerances(1.0e-5, 1.0e-7, 1.0e5, 100);
    let mut first = vec![0.0; 3];
    session.solve_host(&[2.0, 4.0, 7.0], &mut first).expect("first solve");
    let held = session.context.device_buffers();
    assert_eq!(held.len(), 15);
    let before = session.device.lock().unwrap().buffers.len();
    let mut second = vec![0.0; 3];
    session.solve_host(&[2.0, 4.0, 7.0], &mut second).expect("second solve");
    assert_eq!(first, second);
    assert_eq!(session.context.device_buffers(), held);
    assert_eq!(session.device.lock().unwrap().buffers.len(), before + 2);
    assert!(session.context.setup(&mut session.runtime).is_ok());
    assert!(session.runtime.take_commands().is_empty());
}

#[test]
fn a_new_operator_keeps_the_callers_preconditioner() {
    let mut session = Session::new();
    let operator = session.upload(&tridiagonal());
    let other = session.upload(&tridiagonal());
    let preconditioner = CopyPreconditioner {
        runtime: session.runtime.id(),
        device: session.device.clone(),
        dimension: 3,
    };
    assert!(session.context.set_operator(operator).is_ok());
    session.context.set_preconditioner(Box::new(preconditioner));
    session.set_tolerances(1.0e-5, 1.0e-7, 1.0e5, 100);
    let mut solution = vec![0.0; 3];
    session.solve_host(&[2.0, 4.0, 7.0], &mut solution).expect("solve");
    assert!(session.context.set_operator(other).is_ok());
    session.device.lock().unwrap().log.clear();
    let mut solution = vec![0.0; 3];
    session.solve_host(&[2.0, 4.0, 7.0], &mut solution).expect("solve again");
    let device = session.device.lock().unwrap();
    assert!(device.log.iter().any(|label| label.starts_with("test caller-owned")));
}

#[test]
fn a_preconditioner_of_the_wrong_size_is_refused() {
    let mut session = Session::new();
    let operator = session.upload(&tridiagonal());
    assert!(session.context.set_operator(operator).is_ok());
    session.context.set_preconditioner(Box::new(FailingPreconditioner { dimension: 3 }));
    let mut solution = vec![0.5; 3];
    match session.solve_host(&[2.0, 4.0, 7.0], &mut solution) {
        Err(KError::InvalidInput(text)) => assert_eq!(
            text,
            "custom WebGPU preconditioner dimensions (3, 4) do not match operator dimensions (3, 3)"
        ),
        other => panic!("{other:?}"),
    }
    assert_eq!(solution, vec![0.5; 3]);
}

#[test]
fn a_preconditioner_that_fails_ends_the_solve() {
    let mut session = Session::new();
    let operator = session.upload(&tridiagonal());
    assert!(session.context.set_operator(operator).is_ok());
    session.context.set_preconditioner(Box::new(RefusingPreconditioner));
    let mut solution = vec![0.5; 3];
    match session.solve_host(&[2.0, 4.0, 7.0], &mut solution) {
        Err(KError::ZeroPivot(row)) => assert_eq!(row, 2),
        other => panic!("{other:?}"),
    }
    assert_eq!(solution, vec![0.5; 3]);
    assert_eq!(session.context.device_buffers().len(), 14);
}

#[test]
fn a_preconditioner_gets_the_vectors_in_order_and_its_answer_is_handed_on() {
    let mut session = Session::new();
    let input = WgpuVector::zeros(&mut session.runtime, 3).expect("input");
    let output = WgpuVector::zeros(&mut session.runtime, 3).expect("output");
    assert!(session.context.apply_preconditioner(&input, &output).is_none());
    let calls = Arc::new(Mutex::new(Vec::new()));
    session.context.set_preconditioner(Box::new(NotingPreconditioner { calls: calls.clone() }));
    assert!(matches!(session.context.apply_preconditioner(&input, &output), Some(Ok(()))));
    assert_eq!(*calls.lock().unwrap(), vec![(input.buffer(), output.buffer())]);
    assert!(matches!(
        session.context.apply_preconditioner(&output, &input),
        Some(Err(KError::ZeroPivot(2)))
    ));
    assert_eq!(calls.lock().unwrap()[1], (output.buffer(), input.buffer()));
}

#[test]
fn a_second_solve_asks_the_same_of_the_device() {
    let mut session = Session::new();
    let operator = session.upload(&tridiagonal());
    assert!(session.context.set_operator(operator).is_ok());
    let b = WgpuVector::zeros(&mut session.runtime, 3).expect("b");
    let x = WgpuVector::zeros(&mut session.runtime, 3).expect("x");
    assert!(session.context.setup(&mut session.runtime).is_ok());
    let one = 1.0f32.to_bits();
    let mut asked = Vec::new();
    for _ in 0..2 {
        session.runtime.take_commands();
        let phase = session.context.solve(&mut session.runtime, &b, &x).expect("start");
        assert_eq!(phase.device_buffers().len(), 12);
        let sums = Ok(vec![one, one, one, 0]);
        let phase = session.context.startup_reduced(phase, sums).expect("sums");
        let go_on = ConvergedReason::Continued;
        let progress = session.context.startup_checked(&mut session.runtime, phase, go_on);
        match progress {
            Ok(Progress::Batch(phase)) => {
                let failed = Err(KError::Unsupported("no state"));
                let ended = session.context.batch_read(&mut session.runtime, phase, failed);
                assert!(ended.is_err());
            }
            other => panic!("{other:?}"),
        }
        asked.push(format!("{:?}", session.runtime.take_commands()));
    }
    assert_eq!(asked[0], asked[1]);
}

#[test]
fn a_solved_system_ends_at_once_with_the_same_residual() {
    let mut session = Session::new();
    let operator = session.upload(&tridiagonal());
    assert!(session.context.set_pc_type(PcType::Jacobi).is_ok());
    assert!(session.context.set_operator(operator).is_ok());
    session.set_tolerances(1.0e-4, 1.0e-7, 1.0e5, 100);
    let mut solution = vec![0.0; 3];
    let first = session.solve_host(&[2.0, 4.0, 7.5], &mut solution).expect("first solve");
    assert!(first.reason.is_converged() && first.iterations > 0, "{first:?}");
    let before = solution.clone();
    let second = session.solve_host(&[2.0, 4.0, 7.5], &mut solution).expect("second solve");
    assert!(second.reason.is_converged(), "{second:?}");
    assert_eq!(second.iterations, 0);
    assert_eq!(second.final_true_residual, first.final_true_residual);
    assert_eq!(solution, before);
}

#[test]
fn every_reduction_runs_both_stages_on_the_buffers_of_the_sums() {
    let mut session = Session::new();
    let operator = session.upload(&tridiagonal());
    assert!(session.context.set_operator(operator).is_ok());
    let b = WgpuVector::zeros(&mut session.runtime, 3).expect("b");
    let x = WgpuVector::zeros(&mut session.runtime, 3).expect("x");
    let phase = session.context.solve(&mut session.runtime, &b, &x).expect("start");
    let one = 1.0f32.to_bits();
    let phase = session.context.startup_reduced(phase, Ok(vec![one, one, one, 0])).expect("sums");
    let go_on = ConvergedReason::Continued;
    assert!(session.context.startup_checked(&mut session.runtime, phase, go_on).is_ok());
    let mut shared = Vec::new();
    let mut labels = Vec::new();
    for command in session.runtime.take_commands() {
        if let Command::Submit { encoded, .. } = command {
            for work in encoded {
                if let Encoded::ComputePass { label, bindings, dispatches } = work {
                    if dispatches[0].kernel == Kernel::ReduceStage {
                        assert_eq!(dispatches[1].kernel, Kernel::ReduceFinal);
                        assert_eq!((dispatches[0].groups, dispatches[1].groups), (1, 1));
                        shared.push((
                            bindings[4].buffer,
                            bindings[5].buffer,
                            bindings[6].buffer,
                        ));
                        labels.push(label);
                    }
                }
            }
        }
    }
    assert_eq!(shared.len(), 1 + 4 * 16);
    assert!(shared.iter().all(|buffers| *buffers == shared[0]));
    assert_eq!((labels[0], labels[1]), ("kryst WebGPU dot3", "kryst resident WebGPU dot2"));
}

#[test]
fn a_failed_read_hands_the_workspace_back() {
    let mut session = Session::new();
    let operator = session.upload(&tridiagonal());
    assert!(session.context.set_operator(operator).is_ok());
    let b = WgpuVector::from_host(&mut session.runtime, &bits(&[2.0, 4.0, 7.0])).expect("b");
    let x = WgpuVector::zeros(&mut session.runtime, 3).expect("x");
    let phase = session.context.solve(&mut session.runtime, &b, &x).expect("start");
    assert_eq!(session.context.device_buffers().len(), 2);
    let failed: Readback<String, String, String> = Readback::Dropped;
    let reply = session.runtime.finish_read(phase.request(), failed);
    match session.context.startup_reduced(phase, reply) {
        Err(KError::Wgpu { kind, operation, message }) => {
            assert_eq!(kind, WgpuErrorKind::Synchronization);
            assert_eq!(operation, "read WebGPU dot3");
            assert_eq!(message, "readback callback was dropped");
        }
        other => panic!("{other:?}"),
    }
    assert_eq!(session.context.device_buffers().len(), 14);
}

#[test]
fn sums_that_are_not_numbers_are_refused() {
    for (words, expected) in [
        ([f32::NAN.to_bits(), f32::INFINITY.to_bits(), 0, 0], NonFiniteKind::Nan),
        ([0, f32::INFINITY.to_bits(), 0, 0], NonFiniteKind::Inf),
        ([0, 0, f32::NEG_INFINITY.to_bits(), 0], NonFiniteKind::Inf),
    ] {
        let mut session = Session::new();
        let operator = session.upload(&tridiagonal());
        assert!(session.context.set_operator(operator).is_ok());
        let b = WgpuVector::zeros(&mut session.runtime, 3).expect("b");
        let x = WgpuVector::zeros(&mut session.runtime, 3).expect("x");
        let phase = session.context.solve(&mut session.runtime, &b, &x).expect("start");
        match session.context.startup_reduced(phase, Ok(words.to_vec())) {
            Err(KError::NonFiniteReduction { kind, context }) => {
                assert_eq!(kind, expected);
                assert_eq!(context, "WebGPU dot3");
            }
            other => panic!("{other:?}"),
        }
    }
}

#[test]
fn a_negative_squared_norm_is_refused() {
    let mut session = Session::new();
    let operator = session.upload(&tridiagonal());
    assert!(session.context.set_operator(operator).is_ok());
    let b = WgpuVector::zeros(&mut session.runtime, 3).expect("b");
    let x = WgpuVector::zeros(&mut session.runtime, 3).expect("x");
    let phase = session.context.solve(&mut session.runtime, &b, &x).expect("start");
    let words = vec![1.0f32.to_bits(), (-2.0f32).to_bits(), 0, 0];
    match session.context.startup_reduced(phase, Ok(words)) {
        Err(KError::SolveError(SolveFailure::NegativeNorm { context, square })) => {
            assert_eq!(context, "WebGPU BiCGStab residual norm");
            assert_eq!(square, (-2.0f64).to_bits());
        }
        other => panic!("{other:?}"),
    }
}

#[test]
fn the_state_decides_how_a_solve_goes_on() {
    let mut session = Session::new();
    let operator = session.upload(&tridiagonal());
    assert!(session.context.set_operator(operator).is_ok());
    session.set_tolerances(0.0, 0.0, 1.0e5, 40);
    let b = WgpuVector::zeros(&mut session.runtime, 3).expect("b");
    let x = WgpuVector::zeros(&mut session.runtime, 3).expect("x");
    let phase = session.context.solve(&mut session.runtime, &b, &x).expect("start");
    let words = vec![4.0f32.to_bits(), 9.0f32.to_bits(), 9.0f32.to_bits(), 0];
    let phase = session.context.startup_reduced(phase, Ok(words)).expect("sums");
    assert_eq!(
        phase.check(),
        CheckRequest { residual: 3.0f64.to_bits(), rhs: 2.0f64.to_bits(), iterations: 0 }
    );
    session.runtime.take_commands();
    let go_on = ConvergedReason::Continued;
    let progress =
        session.context.startup_checked(&mut session.runtime, phase, go_on).expect("begin");
    assert_eq!(batch_passes(&mut session.runtime), 16);
    let mut state = vec![0u32; 16];
    state[8] = 16.0f32.to_bits();
    state[12] = 1.0f32.to_bits();
    state[13] = 32.0f32.to_bits();
    let phase = match progress {
        Progress::Batch(phase) => phase,
        other => panic!("{other:?}"),
    };
    let progress =
        session.context.batch_read(&mut session.runtime, phase, Ok(state.clone())).expect("more");
    assert_eq!(batch_passes(&mut session.runtime), 8);
    state[13] = 40.0f32.to_bits();
    let phase = match progress {
        Progress::Batch(phase) => phase,
        other => panic!("{other:?}"),
    };
    let progress =
        session.context.batch_read(&mut session.runtime, phase, Ok(state)).expect("enough");
    let phase = match progress {
        Progress::Tail(phase) => phase,
        other => panic!("{other:?}"),
    };
    let words = vec![25.0f32.to_bits(), 0, 0, 0];
    let phase = match session.context.tail_reduced(phase, Ok(words)).expect("tail") {
        Progress::Check(phase) => phase,
        other => panic!("{other:?}"),
    };
    assert_eq!(
        phase.check(),
        CheckRequest { residual: 5.0f64.to_bits(), rhs: 2.0f64.to_bits(), iterations: 40 }
    );
    let stats = session.context.tail_checked(phase, ConvergedReason::ConvergedRtol);
    assert_eq!(stats.reason, ConvergedReason::ConvergedRtol);
    assert_eq!(stats.iterations, 40);
    assert_eq!(stats.final_recurrence_residual, Some(4.0f64.to_bits()));
    assert_eq!(stats.final_true_residual, Some(5.0f64.to_bits()));
    assert_eq!(stats.counters.num_global_reductions, 122);
    assert_eq!(
        stats.effective_variant.as_deref(),
        Some("wgpu-resident-right-bicgstab-batch-16-readbacks-2")
    );
}

/// Iterations in the batch that has been recorded.
fn batch_passes(runtime: &mut WgpuRuntime) -> usize {
    let mut found = 0;
    for command in runtime.take_commands() {
        if let Command::Submit { label, encoded } = command {
            if label == "kryst resident BiCGSTAB batch" {
                for work in encoded {
                    if let Encoded::ComputePass { dispatches, .. } = work {
                        found +=
                            dispatches.iter().filter(|d| d.kernel == Kernel::CheckR).count();
                    }
                }
            }
        }
    }
    found
}

#[test]
fn a_state_that_is_not_finite_is_refused() {
    for (word, expected) in
        [(f32::NAN.to_bits(), NonFiniteKind::Nan), (f32::INFINITY.to_bits(), NonFiniteKind::Inf)]
    {
        let mut session = Session::new();
        let operator = session.upload(&tridiagonal());
        assert!(session.context.set_operator(operator).is_ok());
        let b = WgpuVector::zeros(&mut session.runtime, 3).expect("b");
        let x = WgpuVector::zeros(&mut session.runtime, 3).expect("x");
        let phase = session.context.solve(&mut session.runtime, &b, &x).expect("start");
        let one = 1.0f32.to_bits();
        let phase =
            session.context.startup_reduced(phase, Ok(vec![one, one, one, 0])).expect("sums");
        let go_on = ConvergedReason::Continued;
        let phase =
            match session.context.startup_checked(&mut session.runtime, phase, go_on) {
                Ok(Progress::Batch(phase)) => phase,
                other => panic!("{other:?}"),
            };
        let mut state = vec![0u32; 16];
        state[3] = word;
        match session.context.batch_read(&mut session.runtime, phase, Ok(state)) {
            Err(KError::NonFiniteReduction { kind, context }) => {
                assert_eq!(kind, expected);
                assert_eq!(context, "resident WebGPU BiCGSTAB state");
            }
            other => panic!("{other:?}"),
        }
    }
}

#[test]
fn a_stop_reported_by_the_device_is_the_reason() {
    let cases = [
        (1.0f32, ConvergedReason::ConvergedRtol),
        (2.0, ConvergedReason::ConvergedAtol),
        (3.0, ConvergedReason::DivergedDtol),
        (5.0, ConvergedReason::DivergedBreakdownBiCG),
        (6.0, ConvergedReason::DivergedNan),
        (7.0, ConvergedReason::DivergedInf),
    ];
    for (code, expected) in cases {
        let mut session = Session::new();
        let operator = session.upload(&tridiagonal());
        assert!(session.context.set_operator(operator).is_ok());
        let b = WgpuVector::zeros(&mut session.runtime, 3).expect("b");
        let x = WgpuVector::zeros(&mut session.runtime, 3).expect("x");
        let phase = session.context.solve(&mut session.runtime, &b, &x).expect("start");
        let one = 1.0f32.to_bits();
        let phase =
            session.context.startup_reduced(phase, Ok(vec![one, one, one, 0])).expect("sums");
        let go_on = ConvergedReason::Continued;
        let phase =
            match session.context.startup_checked(&mut session.runtime, phase, go_on) {
                Ok(Progress::Batch(phase)) => phase,
                other => panic!("{other:?}"),
            };
        let mut state = vec![0u32; 16];
        state[8] = 0.25f32.to_bits();
        state[13] = 7.0f32.to_bits();
        state[14] = code.to_bits();
        let phase = match session.context.batch_read(&mut session.runtime, phase, Ok(state)) {
            Ok(Progress::Tail(phase)) => phase,
            other => panic!("{other:?}"),
        };
        match session.context.tail_reduced(phase, Ok(vec![one, 0, 0, 0])) {
            Ok(Progress::Done(stats)) => {
                assert_eq!(stats.reason, expected);
                assert_eq!(stats.iterations, 7);
                assert_eq!(stats.final_recurrence_residual, Some(0.5f64.to_bits()));
                assert_eq!(stats.final_residual, 1.0f64.to_bits());
            }
            other => panic!("{other:?}"),
        }
    }
}

#[test]
fn too_many_iterations_cannot_be_counted_by_the_device() {
    let mut session = Session::new();
    let operator = session.upload(&tridiagonal());
    assert!(session.context.set_operator(operator).is_ok());
    session.set_tolerances(1.0e-5, 0.0, 1.0e5, (1 << 24) + 1);
    let mut solution = vec![0.0; 3];
    match session.solve_host(&[2.0, 4.0, 7.0], &mut solution) {
        Err(KError::InvalidInput(text)) => assert_eq!(
            text,
            "WebGPU resident iteration limit 16777217 exceeds exact f32 control range"
        ),
        other => panic!("{other:?}"),
    }
}

#[test]
fn tolerances_whose_squares_overflow_are_refused() {
    let mut session = Session::new();
    let operator = session.upload(&tridiagonal());
    assert!(session.context.set_operator(operator).is_ok());
    session.set_tolerances(1.0e-5, 0.0, 1.0e20, 10);
    let mut solution = vec![0.0; 3];
    match session.solve_host(&[2.0, 4.0, 7.0], &mut solution) {
        Err(KError::InvalidInput(text)) => {
            assert_eq!(text, "WebGPU squared solver tolerances exceed portable f32 range")
        }
        other => panic!("{other:?}"),
    }
}

#[test]
fn vectors_of_the_wrong_length_or_runtime_are_refused() {
    let mut session = Session::new();
    let operator = session.upload(&tridiagonal());
    assert!(session.context.set_operator(operator).is_ok());
    let mut solution = vec![0.0; 2];
    match session.solve_host(&[2.0, 4.0, 7.0], &mut solution) {
        Err(KError::InvalidInput(text)) => {
            assert_eq!(text, "WebGPU solve dimensions require b=3, x=3; got b=3, x=2")
        }
        other => panic!("{other:?}"),
    }
    let mut elsewhere = new_runtime(2);
    let b = WgpuVector::zeros(&mut session.runtime, 3).expect("b");
    let x = WgpuVector::zeros(&mut elsewhere, 3).expect("x");
    match session.context.solve(&mut session.runtime, &b, &x) {
        Err(KError::Wgpu { kind, operation, message }) => {
            assert_eq!(kind, WgpuErrorKind::DeviceMismatch);
            assert_eq!(operation, "validate WebGPU vectors");
            assert_eq!(message, "vectors belong to different WebGPU runtimes");
        }
        other => panic!("{other:?}"),
    }
    let b = WgpuVector::zeros(&mut elsewhere, 3).expect("b");
    match session.context.solve(&mut session.runtime, &b, &x) {
        Err(KError::Wgpu { kind, operation, message }) => {
            assert_eq!(kind, WgpuErrorKind::DeviceMismatch);
            assert_eq!(operation, "apply WebGPU CSR operator");
            assert_eq!(message, "operator and vectors belong to different WebGPU runtimes");
        }
        other => panic!("{other:?}"),
    }
    assert_eq!(session.context.device_buffers().len(), 14);
}

#[test]
fn a_solve_without_an_operator_is_refused() {
    let mut session = Session::new();
    let mut solution = vec![0.0; 1];
    match session.solve_host(&[1.0], &mut solution) {
        Err(KError::InvalidInput(text)) => assert_eq!(text, "WebGPU operator is not set"),
        other => panic!("{other:?}"),
    }
}

#[test]
fn a_failed_download_leaves_the_host_solution() {
    let mut runtime = new_runtime(1);
    let solution = WgpuVector::zeros(&mut runtime, 2).expect("solution");
    let stats = SolveStats {
        iterations: 3,
        final_residual: 0,
        reason: ConvergedReason::ConvergedRtol,
        final_recurrence_residual: None,
        final_true_residual: None,
        counters: kryst_wgpu::convergence::SolverCounters { num_global_reductions: 11 },
        reduction_model: None,
        effective_variant: None,
    };
    let mut x = bits(&[0.5, 0.25]);
    let failed = Some(Err(KError::Unsupported("no download")));
    match finish_host(stats, &solution, failed, &mut x) {
        Err(KError::Unsupported(text)) => assert_eq!(text, "no download"),
        other => panic!("{other:?}"),
    }
    assert_eq!(doubles(&x), vec![0.5, 0.25]);
}

#[test]
fn a_preconditioner_is_asked_for_its_dimensions_only_where_they_are_compared() {
    let asked = Arc::new(Mutex::new(0));
    let mut session = Session::new();
    session
        .context
        .set_preconditioner(Box::new(CountingPreconditioner { asked: asked.clone() }));
    assert!(session.context.setup(&mut session.runtime).is_err());
    assert!(session.solve_host(&[1.0; 3], &mut vec![0.0; 3]).is_err());
    assert_eq!(*asked.lock().unwrap(), 0);
    let operator = session.upload(&tridiagonal());
    assert!(session.context.set_operator(operator).is_ok());
    assert_eq!(*asked.lock().unwrap(), 0);
    assert!(session.solve_host(&[f64::NAN, 1.0, 1.0], &mut vec![0.0; 3]).is_err());
    assert!(session.solve_host(&[1.0; 3], &mut vec![0.0, f64::INFINITY, 0.0]).is_err());
    assert_eq!(*asked.lock().unwrap(), 0);
    assert!(session.context.setup(&mut session.runtime).is_ok());
    assert_eq!(*asked.lock().unwrap(), 1);
}

/// A matrix whose products and sums take more than one workgroup.
fn long_tridiagonal(n: usize) -> CsrMatrix {
    let mut offsets = vec![0];
    let mut columns = Vec::new();
    let mut values = Vec::new();
    for row in 0..n {
        if row > 0 {
            columns.push(row - 1);
            values.push(-1.0);
        }
        columns.push(row);
        values.push(4.0 + (row % 7) as f64);
        if row + 1 < n {
            columns.push(row + 1);
            values.push(-1.5);
        }
        offsets.push(columns.len());
    }
    CsrMatrix::from_csr(n, n, offsets, columns, bits(&values))
}

#[test]
fn a_used_context_solves_as_a_fresh_one() {
    let n = 600;
    let rhs: Vec<f64> = (0..n).map(|i| ((i * 37) % 11) as f64 - 5.0).collect();
    let other: Vec<f64> = (0..n).map(|i| ((i * 13) % 17) as f64 - 8.0).collect();
    let mut outcomes = Vec::new();
    for used in [false, true] {
        let mut session = Session::new();
        let operator = session.upload(&long_tridiagonal(n));
        assert!(session.context.set_pc_type(PcType::Jacobi).is_ok());
        assert!(session.context.set_operator(operator).is_ok());
        if used {
            let mut solution = vec![1.0; n];
            session.set_tolerances(1.0e-30, 0.0, 1.0e5, 3);
            let stats = session.solve_host(&other, &mut solution).expect("an earlier solve");
            assert!(stats.iterations > 0);
        }
        session.set_tolerances(1.0e-5, 1.0e-30, 1.0e5, 100);
        let mut solution = vec![0.0; n];
        let stats = session.solve_host(&rhs, &mut solution).expect("the solve");
        assert!(stats.reason.is_converged() && stats.iterations > 0, "{stats:?}");
        outcomes.push((bits(&solution), format!("{stats:?}")));
    }
    assert_eq!(outcomes[0], outcomes[1]);
}

#[test]
fn the_recurrence_follows_the_true_residual() {
    let n = 600;
    let rhs: Vec<f64> = (0..n).map(|i| ((i * 37) % 11) as f64 - 5.0).collect();
    let mut session = Session::new();
    let operator = session.upload(&long_tridiagonal(n));
    assert!(session.context.set_operator(operator).is_ok());
    session.set_tolerances(1.0e-4, 1.0e-30, 1.0e5, 100);
    let mut solution = vec![0.0; n];
    let stats = session.solve_host(&rhs, &mut solution).expect("the solve");
    assert!(stats.reason.is_converged(), "{stats:?}");
    let recurrence = f64::from_bits(stats.final_recurrence_residual.expect("recurrence"));
    let truth = f64::from_bits(stats.final_true_residual.expect("residual"));
    let norm = rhs.iter().map(|value| value * value).sum::<f64>().sqrt();
    assert!((recurrence - truth).abs() <= 1.0e-5 * norm, "{recurrence} {truth}");
}

/// The buffers of recorded commands in the order of their appearance, and the commands without
/// them.
fn buffers_and_shape(commands: &[Command]) -> (Vec<usize>, Vec<String>) {
    let mut buffers = Vec::new();
    let mut shape = Vec::new();
    for command in commands {
        match command {
            Command::WriteBuffer { buffer, contents } => {
                buffers.push(*buffer);
                shape.push(format!("write {contents:?}"));
            }
            Command::Precondition { input, output } => {
                buffers.push(input.buffer());
                buffers.push(output.buffer());
                shape.push("precondition".to_string());
            }
            Command::Submit { label, encoded } => {
                shape.push(format!("submit {label}"));
                for work in encoded {
                    match work {
                        Encoded::ClearBuffer { buffer } => {
                            buffers.push(*buffer);
                            shape.push("clear".to_string());
                        }
                        Encoded::CopyBuffer { source, destination, bytes } => {
                            buffers.push(*source);
                            buffers.push(*destination);
                            shape.push(format!("copy {bytes}"));
                        }
                        Encoded::ComputePass { label, bindings, dispatches } => {
                            for binding in bindings {
                                buffers.push(binding.buffer);
                            }
                            shape.push(format!("{label} {dispatches:?}"));
                        }
                    }
                }
            }
            other => panic!("{other:?}"),
        }
    }
    (buffers, shape)
}

#[test]
fn two_contexts_ask_the_same_in_buffers_of_their_own() {
    let mut runtime = new_runtime(1);
    let mut recorded = Vec::new();
    for _ in 0..2 {
        let mut context = WgpuKspContext::new(&mut runtime);
        let operator = WgpuCsrOp::from_host(&mut runtime, &tridiagonal()).expect("upload CSR");
        assert!(context.set_pc_type(PcType::Jacobi).is_ok());
        assert!(context.set_operator(Arc::new(operator)).is_ok());
        assert!(context.setup(&mut runtime).is_ok());
        let b = WgpuVector::from_host(&mut runtime, &bits(&[1.0, 2.0, 3.0])).expect("b");
        let x = WgpuVector::zeros(&mut runtime, 3).expect("x");
        runtime.take_commands();
        let phase = context.solve(&mut runtime, &b, &x).expect("start");
        let sums: Vec<u32> = [14.0f32, 14.0, 14.0, 0.0].iter().map(|sum| sum.to_bits()).collect();
        let phase = context.startup_reduced(phase, Ok(sums)).expect("first sums");
        let next = context
            .startup_checked(&mut runtime, phase, ConvergedReason::Continued)
            .expect("first batch");
        assert!(matches!(next, Progress::Batch(_)));
        recorded.push(buffers_and_shape(&runtime.take_commands()));
    }
    let (first, second) = (&recorded[0], &recorded[1]);
    assert_eq!(first.1, second.1);
    assert_eq!(first.0.len(), second.0.len());
    for (i, buffer) in first.0.iter().enumerate() {
        assert_ne!(*buffer, second.0[i]);
        for (j, other) in first.0.iter().enumerate() {
            assert_eq!(buffer == other, second.0[i] == second.0[j]);
        }
    }
}

#[test]
fn a_reduction_over_many_workgroups_sums_every_entry() {
    let n = 600;
    let rhs: Vec<f64> = (0..n).map(|i| ((i * 37) % 11) as f64 - 5.0).collect();
    let mut session = Session::new();
    let operator = session.upload(&long_tridiagonal(n));
    assert!(session.context.set_operator(operator).is_ok());
    let b = WgpuVector::from_host(&mut session.runtime, &bits(&rhs)).expect("b");
    let x = WgpuVector::zeros(&mut session.runtime, n).expect("x");
    let phase = session.context.solve(&mut session.runtime, &b, &x).expect("start");
    let reply = session.read(phase.request());
    let phase = session.context.startup_reduced(phase, reply).expect("first sums");
    let check = phase.check();
    let norm = rhs.iter().map(|value| value * value).sum::<f64>().sqrt();
    assert_eq!(f64::from_bits(check.rhs), norm);
    assert_eq!(f64::from_bits(check.residual), norm);
    assert_eq!(check.iterations, 0);
}
