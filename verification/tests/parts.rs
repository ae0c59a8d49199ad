use kryst_wgpu::bytes::{decode_words, encode_u32, encode_words, native_byte_order, ByteOrder};
use kryst_wgpu::command::{Command, CommandEncoder, Encoded, Kernel, Layout, ShaderModule, SlotKind};
use kryst_wgpu::convergence::{
    checked_norm, resident_reason, ConvergedReason, Convergence, PcType, SolverType,
};
use kryst_wgpu::error::{
    wgpu_error, wgpu_error_message, KError, NonFiniteKind, SolveFailure, WgpuErrorKind,
};
use kryst_wgpu::operator::{CsrMatrix, WgpuCsrOp};
use kryst_wgpu::portable::{
    count_from_single, is_below_half, is_finite32, is_finite64, is_nan32, is_nan64, narrow,
    reciprocal, single_from_count, square, square_root, widen,
};
use kryst_wgpu::preconditioner::{WgpuJacobi, SMALLEST_PIVOT};
use kryst_wgpu::runtime::{
    byte_count, group_count, readback_usage, storage_usage, uniform_usage, AdapterInfo, Readback,
    WgpuRuntime,
};
use kryst_wgpu::shader::{source, REDUCTION_SHADER, VECTOR_SHADER};
use kryst_wgpu::solver::encode::{MINUS_ONE, ONE};
use kryst_wgpu::solver::{WgpuKspContext, DEFAULT_ATOL, DEFAULT_DTOL, DEFAULT_RTOL};
use kryst_wgpu::text::{decimal_text, pair_text};
use kryst_wgpu::vector::WgpuVector;
use std::sync::Arc;

fn adapter() -> AdapterInfo {
    AdapterInfo {
        name: "Adapter".to_string(),
        backend: "Vulkan".to_string(),
        device_type: "DiscreteGpu".to_string(),
    }
}

fn new_runtime(id: u64) -> WgpuRuntime {
    WgpuRuntime::request::<String>(id, &adapter(), Ok(())).expect("request a device")
}

fn bits(values: &[f64]) -> Vec<u64> {
    values.iter().map(|value| value.to_bits()).collect()
}

/// Bit patterns of doubles that are spread over all sizes, with the edges of single precision.
fn samples() -> Vec<u64> {
    let mut found = vec![
        0,
        1,
        2,
        f64::MIN_POSITIVE.to_bits(),
        f64::MIN_POSITIVE.to_bits() - 1,
        f64::MAX.to_bits(),
        f64::INFINITY.to_bits(),
        1.0f64.to_bits(),
        (1.0 + f64::EPSILON).to_bits(),
        (f32::MAX as f64).to_bits(),
        (f32::MAX as f64).to_bits() + 1,
        ((f32::MAX as f64) + 2.0f64.powi(103)).to_bits(),
        ((f32::MAX as f64) + 2.0f64.powi(103)).to_bits() - 1,
        (f32::MIN_POSITIVE as f64).to_bits(),
        (f32::from_bits(1) as f64).to_bits(),
        (f32::from_bits(1) as f64 / 2.0).to_bits(),
        (f32::from_bits(1) as f64 / 2.0).to_bits() + 1,
        (f32::from_bits(3) as f64 / 2.0).to_bits(),
        (1.0 + 2.0f64.powi(-24)).to_bits(),
        (1.0 + 3.0 * 2.0f64.powi(-24)).to_bits(),
        (1.0 + 2.0f64.powi(-24)).to_bits() + 1,
        (1.0 + 2.0f64.powi(-24)).to_bits() - 1,
    ];
    let mut seed: u64 = 0x9e37_79b9_7f4a_7c15;
    for _ in 0..20_000 {
        seed ^= seed << 13;
        seed ^= seed >> 7;
        seed ^= seed << 17;
        found.push(seed & 0x7fff_ffff_ffff_ffff);
        let exponent = 1023 - 160 + (seed >> 52) % 320;
        found.push((exponent << 52) | (seed & 0x000f_ffff_ffff_ffff));
        found.push((exponent << 52) | (seed & 0x000f_ffff_f000_0000));
    }
    found
}

#[test]
fn narrowing_agrees_with_the_machine() {
    for word in samples() {
        for value in [word, word | 1 << 63] {
            if !f64::from_bits(value).is_nan() {
                assert_eq!(narrow(value), (f64::from_bits(value) as f32).to_bits());
            }
        }
    }
}

#[test]
fn widening_agrees_with_the_machine() {
    for word in samples() {
        let single = (word >> 29) as u32 ^ word as u32;
        let value = f32::from_bits(single);
        if value.is_nan() {
            assert!(f64::from_bits(widen(single)).is_nan());
        } else {
            assert_eq!(widen(single), f64::from(value).to_bits());
            if value.is_finite() {
                assert_eq!(narrow(widen(single)), single);
            }
        }
    }
}

#[test]
fn squares_roots_and_reciprocals_agree_with_the_machine() {
    for word in samples() {
        let value = f64::from_bits(word);
        if value.is_finite() {
            assert_eq!(square(word), (value * value).to_bits());
            assert_eq!(square_root(word), value.sqrt().to_bits());
            if value.abs() > 1.0e-30 {
                assert_eq!(reciprocal(word), (1.0 / value).to_bits());
                assert_eq!(reciprocal(word | 1 << 63), (1.0 / -value).to_bits());
            }
        }
    }
}

#[test]
fn kinds_of_numbers_agree_with_the_machine() {
    for word in samples() {
        assert_eq!(is_finite64(word), f64::from_bits(word).is_finite());
        assert_eq!(is_nan64(word), f64::from_bits(word).is_nan());
        let single = word as u32;
        assert_eq!(is_finite32(single), f32::from_bits(single).is_finite());
        assert_eq!(is_nan32(single), f32::from_bits(single).is_nan());
        if f32::from_bits(single).is_finite() {
            assert_eq!(is_below_half(single), f32::from_bits(single) < 0.5);
        }
    }
}

#[test]
fn counts_agree_with_the_machine() {
    for word in samples() {
        let single = (word >> 31) as u32 & 0x7fff_ffff;
        let value = f32::from_bits(single);
        if value.is_finite() {
            assert_eq!(count_from_single(single), value.max(0.0).round() as usize);
            assert_eq!(count_from_single(single | 1 << 31), (-value).max(0.0).round() as usize);
        }
    }
    for value in [0.49999997f32, 0.5, 1.5, 2.5, 8388607.5, 8388608.0, 16777216.0] {
        assert_eq!(count_from_single(value.to_bits()), value.round() as usize);
    }
    for count in [0u32, 1, 2, 3, 16, 10_000, 8_388_607, 8_388_608, 16_777_215, 16_777_216] {
        assert_eq!(single_from_count(count), (count as f32).to_bits());
        assert_eq!(count_from_single(single_from_count(count)), count as usize);
    }
}

#[test]
fn constants_are_the_doubles_that_they_stand_for() {
    assert_eq!(ONE, 1.0f64.to_bits());
    assert_eq!(MINUS_ONE, (-1.0f64).to_bits());
    assert_eq!(DEFAULT_RTOL, 1.0e-5f64.to_bits());
    assert_eq!(DEFAULT_ATOL, 1.0e-30f64.to_bits());
    assert_eq!(DEFAULT_DTOL, 1.0e5f64.to_bits());
    assert_eq!(SMALLEST_PIVOT, 1.0e-30f64.to_bits());
}

#[test]
fn buffer_usages_are_those_of_the_graphics_layer() {
    let (source, destination) = (wgpu::BufferUsages::COPY_SRC, wgpu::BufferUsages::COPY_DST);
    assert_eq!(storage_usage(), (wgpu::BufferUsages::STORAGE | source | destination).bits());
    assert_eq!(uniform_usage(), (wgpu::BufferUsages::UNIFORM | destination).bits());
    assert_eq!(readback_usage(), (destination | wgpu::BufferUsages::MAP_READ).bits());
}

#[test]
fn words_are_encoded_as_the_machine_holds_them() {
    let words = [0x0102_0304u32, 0, 0xffff_fffe];
    let mut expected = Vec::new();
    for word in words {
        expected.extend_from_slice(&word.to_ne_bytes());
    }
    assert_eq!(encode_u32(&words), expected);
    assert_eq!(encode_words(native_byte_order(), &words), expected);
    assert_eq!(encode_words(ByteOrder::Little, &words[..1]), vec![4, 3, 2, 1]);
    assert_eq!(encode_words(ByteOrder::Big, &words[..1]), vec![1, 2, 3, 4]);
    assert_eq!(encode_u32(&[]), Vec::<u8>::new());
}

#[test]
fn decoding_undoes_encoding() {
    let words: Vec<u32> = (0..50u32).map(|i| i.wrapping_mul(0x9e37_79b9)).collect();
    for order in [ByteOrder::Little, ByteOrder::Big] {
        let mut bytes = encode_words(order, &words);
        assert_eq!(decode_words(order, &bytes), words);
        bytes.push(7);
        assert_eq!(decode_words(order, &bytes), words);
    }
}

#[test]
fn texts_are_written_as_usual() {
    for n in [0usize, 7, 10, 99, 100, 12345, usize::MAX] {
        assert_eq!(decimal_text(n), n.to_string());
    }
    assert_eq!(pair_text(3, 40), "(3, 40)");
}

#[test]
fn sizes_are_bounded() {
    assert_eq!(byte_count(3), 12);
    assert_eq!(byte_count(usize::MAX), usize::MAX as u64);
    assert_eq!(group_count(0, 128), Some(0));
    assert_eq!(group_count(128, 128), Some(1));
    assert_eq!(group_count(129, 128), Some(2));
    assert_eq!(group_count(usize::MAX, 128), None);
}

#[test]
fn failures_of_the_graphics_layer_are_wrapped() {
    match wgpu_error(WgpuErrorKind::Unavailable, "request", 42) {
        KError::Wgpu { kind, operation, message } => {
            assert_eq!((kind, operation), (WgpuErrorKind::Unavailable, "request"));
            assert_eq!(message, "42");
        }
        other => panic!("{other:?}"),
    }
    match wgpu_error_message(WgpuErrorKind::DeviceMismatch, "apply", "text".to_string()) {
        KError::Wgpu { kind, operation, message } => {
            assert_eq!((kind, operation), (WgpuErrorKind::DeviceMismatch, "apply"));
            assert_eq!(message, "text");
        }
        other => panic!("{other:?}"),
    }
}

#[test]
fn a_runtime_is_named_after_its_adapter() {
    let runtime = new_runtime(7);
    assert_eq!(runtime.id(), 7);
    assert_eq!(runtime.adapter_name(), "Adapter (Vulkan, DiscreteGpu)");
    match WgpuRuntime::request_adapter(Err::<AdapterInfo, &str>("no adapter")) {
        Err(KError::Wgpu { kind, operation, message }) => {
            assert_eq!(kind, WgpuErrorKind::Unavailable);
            assert_eq!((operation, message.as_str()), ("request WebGPU adapter", "no adapter"));
        }
        other => panic!("{other:?}"),
    }
    match WgpuRuntime::request(7, &adapter(), Err("no device")) {
        Err(KError::Wgpu { kind, operation, message }) => {
            assert_eq!(kind, WgpuErrorKind::Unavailable);
            assert_eq!((operation, message.as_str()), ("request WebGPU device", "no device"));
        }
        other => panic!("{other:?}"),
    }
}

#[test]
fn each_failed_readback_has_its_message() {
    let mut runtime = new_runtime(1);
    let vector = WgpuVector::zeros(&mut runtime, 2).expect("vector");
    let request = vector.download();
    assert_eq!((request.source, request.byte_count, request.staging_size), (0, 8, 8));
    assert_eq!(request.staging_usage, readback_usage());
    let replies: Vec<(Readback<&str, &str, &str>, &str)> = vec![
        (Readback::PollFailed("poll"), "poll"),
        (Readback::Dropped, "readback callback was dropped"),
        (Readback::MapFailed("map"), "map"),
        (Readback::RangeFailed("range"), "range"),
    ];
    for (reply, expected) in replies {
        match runtime.finish_read(&request, reply) {
            Err(KError::Wgpu { kind, operation, message }) => {
                assert_eq!(kind, WgpuErrorKind::Synchronization);
                assert_eq!(operation, "download WebGPU vector");
                assert_eq!(message, expected);
            }
            other => panic!("{other:?}"),
        }
    }
    let mut bytes = 1.5f32.to_ne_bytes().to_vec();
    bytes.extend_from_slice(&(-2.0f32).to_ne_bytes());
    let reply = Readback::<&str, &str, &str>::Mapped(bytes);
    let words = runtime.finish_read(&request, reply).expect("mapped");
    let host = vector.to_host(Ok(words)).expect("widened");
    assert_eq!(host, bits(&[1.5, -2.0]));
}

#[test]
fn an_empty_vector_is_read_through_a_word() {
    let mut runtime = new_runtime(1);
    let vector = WgpuVector::zeros(&mut runtime, 0).expect("vector");
    assert!(vector.is_empty());
    let request = vector.download();
    assert_eq!((request.byte_count, request.staging_size), (0, 4));
    match &runtime.take_commands()[0] {
        Command::CreateBuffer { size, usage, label, .. } => {
            assert_eq!((*size, *usage), (4, storage_usage()));
            assert_eq!(*label, "kryst WebGPU vector");
        }
        other => panic!("{other:?}"),
    }
}

#[test]
fn uploads_round_once_to_single_precision() {
    let mut runtime = new_runtime(1);
    let host = [0.1, -0.0, 1.0e-50, 3.0e38, 1.0 / 3.0];
    let mut vector = WgpuVector::from_host(&mut runtime, &bits(&host)).expect("upload");
    assert_eq!(vector.len(), 5);
    let mut expected = Vec::new();
    for value in host {
        expected.extend_from_slice(&(value as f32).to_ne_bytes());
    }
    match runtime.take_commands().pop() {
        Some(Command::CreateBufferInit { contents, usage, .. }) => {
            assert_eq!(usage, storage_usage());
            assert_eq!(contents, expected);
            let words = decode_words(native_byte_order(), &contents);
            let back = vector.to_host(Ok(words)).expect("widen");
            let rounded: Vec<f64> = host.iter().map(|&value| f64::from(value as f32)).collect();
            assert_eq!(back, bits(&rounded));
        }
        other => panic!("{other:?}"),
    }
    vector.copy_from_host(&mut runtime, &bits(&[1.0; 5])).expect("replace");
    match runtime.take_commands().pop() {
        Some(Command::WriteBuffer { buffer, contents }) => {
            assert_eq!(buffer, vector.buffer());
            assert_eq!(contents, [1.0f32.to_ne_bytes(); 5].concat());
        }
        other => panic!("{other:?}"),
    }
}

fn text_of(error: KError) -> String {
    match error {
        KError::InvalidInput(text) => text,
        other => panic!("{other:?}"),
    }
}

#[test]
fn host_values_outside_the_portable_range_are_refused() {
    let mut runtime = new_runtime(1);
    let refused = WgpuVector::from_host(&mut runtime, &bits(&[0.0, f64::NAN, 1.0e39]));
    assert_eq!(text_of(refused.unwrap_err()), "WebGPU vector host value 1 is non-finite");
    let refused = WgpuVector::from_host(&mut runtime, &bits(&[0.0, 1.0, 1.0e39]));
    assert_eq!(
        text_of(refused.unwrap_err()),
        "WebGPU vector host value 2 exceeds portable f32 range"
    );
    let mut vector = WgpuVector::zeros(&mut runtime, 2).expect("zeros");
    runtime.take_commands();
    let refused = vector.copy_from_host(&mut runtime, &bits(&[1.0; 3]));
    assert_eq!(text_of(refused.unwrap_err()), "WebGPU vector upload length mismatch: 3 vs 2");
    let refused = vector.copy_from_host(&mut runtime, &bits(&[f64::INFINITY, 0.0]));
    assert_eq!(text_of(refused.unwrap_err()), "WebGPU vector host value 0 is non-finite");
    assert!(runtime.take_commands().is_empty());
}

#[test]
fn vectors_go_together_only_with_the_same_length_and_runtime() {
    let mut runtime = new_runtime(1);
    let mut other = new_runtime(2);
    let a = WgpuVector::zeros(&mut runtime, 2).expect("a");
    let b = WgpuVector::zeros(&mut runtime, 3).expect("b");
    let c = WgpuVector::zeros(&mut other, 2).expect("c");
    assert!(a.ensure_compatible(&a).is_ok());
    assert_eq!(
        text_of(a.ensure_compatible(&b).unwrap_err()),
        "WebGPU vector length mismatch: 2 vs 3"
    );
    match a.ensure_compatible(&c) {
        Err(KError::Wgpu { kind, .. }) => assert_eq!(kind, WgpuErrorKind::DeviceMismatch),
        other => panic!("{other:?}"),
    }
}

fn refused_parts(
    nrows: usize,
    ncols: usize,
    rows: &[usize],
    columns: &[usize],
    values: &[f64],
) -> String {
    let mut runtime = new_runtime(1);
    let answer =
        WgpuCsrOp::from_csr_parts(&mut runtime, nrows, ncols, rows, columns, &bits(values));
    assert!(runtime.take_commands().is_empty());
    text_of(answer.unwrap_err())
}

#[test]
fn malformed_matrices_are_refused() {
    let lengths = "invalid WebGPU CSR offsets or value/index lengths";
    assert_eq!(refused_parts(1, 1, &[0], &[], &[]), lengths);
    assert_eq!(refused_parts(1, 1, &[1, 1], &[0], &[1.0]), lengths);
    assert_eq!(refused_parts(1, 1, &[0, 2], &[0], &[1.0]), lengths);
    assert_eq!(refused_parts(1, 1, &[0, 1], &[0, 0], &[1.0]), lengths);
    assert_eq!(refused_parts(usize::MAX, 1, &[], &[], &[]), lengths);
    assert_eq!(
        refused_parts(3, 3, &[0, 2, 1, 2], &[0, 1], &[1.0, 1.0]),
        "WebGPU CSR row offsets are not monotone"
    );
    assert_eq!(
        refused_parts(1, 2, &[0, 1], &[2], &[1.0]),
        "WebGPU CSR column index is out of bounds"
    );
    for value in [f64::NAN, f64::INFINITY, 1.0e39] {
        assert_eq!(
            refused_parts(1, 1, &[0, 1], &[0], &[value]),
            "WebGPU CSR value is non-finite or exceeds portable f32 range"
        );
    }
    let wide = u32::MAX as usize + 1;
    assert_eq!(
        refused_parts(1, wide + 1, &[0, 1], &[wide], &[1.0]),
        "WebGPU CSR column index exceeds u32"
    );
}

#[test]
fn a_matrix_is_uploaded_in_three_buffers() {
    let mut runtime = new_runtime(1);
    let matrix = CsrMatrix::from_csr(
        2,
        3,
        vec![0, 1, 3],
        vec![2, 0, 1],
        bits(&[0.5, 1.5, -2.0]),
    );
    let operator = WgpuCsrOp::from_host(&mut runtime, &matrix).expect("upload");
    assert_eq!(operator.dims(), (2, 3));
    assert_eq!(operator.nnz(), 3);
    assert_eq!(operator.device_buffers(), vec![0, 1, 2]);
    let commands = runtime.take_commands();
    assert_eq!(commands.len(), 5);
    let expected = [
        encode_u32(&[0, 1, 3]),
        encode_u32(&[2, 0, 1]),
        encode_u32(&[0.5f32.to_bits(), 1.5f32.to_bits(), (-2.0f32).to_bits()]),
    ];
    for (command, expected) in commands.iter().zip(expected) {
        match command {
            Command::CreateBufferInit { contents, .. } => assert_eq!(*contents, expected),
            other => panic!("{other:?}"),
        }
    }
    let x = WgpuVector::zeros(&mut runtime, 3).expect("x");
    let y = WgpuVector::zeros(&mut runtime, 2).expect("y");
    runtime.take_commands();
    operator.apply(&mut runtime, &x, &y).expect("apply");
    match runtime.take_commands().pop() {
        Some(Command::Submit { label, mut encoded }) => {
            assert_eq!(label, "kryst WebGPU CSR SpMV");
            match encoded.pop() {
                Some(Encoded::ComputePass { bindings, dispatches, .. }) => {
                    let buffers: Vec<usize> = bindings.iter().map(|b| b.buffer).collect();
                    assert_eq!(buffers, vec![0, 1, 2, x.buffer(), y.buffer()]);
                    assert_eq!((dispatches[0].kernel, dispatches[0].groups), (Kernel::Spmv, 1));
                }
                other => panic!("{other:?}"),
            }
        }
        other => panic!("{other:?}"),
    }
    assert_eq!(
        text_of(operator.apply(&mut runtime, &y, &x).unwrap_err()),
        "WebGPU CSR product requires x=3, y=2; got x=2, y=3"
    );
}

fn diagonal_matrix(values: &[f64]) -> CsrMatrix {
    let n = values.len();
    CsrMatrix::from_csr(n, n, (0..=n).collect(), (0..n).collect(), bits(values))
}

#[test]
fn jacobi_inverts_the_first_diagonal_entry_of_each_row() {
    let mut runtime = new_runtime(1);
    let matrix = CsrMatrix::from_csr(
        2,
        2,
        vec![0, 3, 5],
        vec![0, 0, 1, 0, 1],
        bits(&[4.0, 9.0, 1.0, 1.0, 3.0]),
    );
    let operator = WgpuCsrOp::from_host(&mut runtime, &matrix).expect("upload");
    runtime.take_commands();
    let jacobi = WgpuJacobi::from_csr(&mut runtime, &operator).expect("jacobi");
    match runtime.take_commands().remove(0) {
        Command::CreateBufferInit { contents, label, .. } => {
            assert_eq!(label, "kryst WebGPU inverse diagonal");
            let third = (1.0f64 / 3.0) as f32;
            assert_eq!(contents, encode_u32(&[0.25f32.to_bits(), third.to_bits()]));
        }
        other => panic!("{other:?}"),
    }
    let x = WgpuVector::zeros(&mut runtime, 2).expect("x");
    let short = WgpuVector::zeros(&mut runtime, 1).expect("short");
    let mut encoder = CommandEncoder::new("test");
    assert_eq!(
        text_of(jacobi.encode_apply(&mut encoder, &x, &short).unwrap_err()),
        "WebGPU Jacobi requires vectors of length 2; got 2 and 1"
    );
    let mut elsewhere = new_runtime(2);
    let far = WgpuVector::zeros(&mut elsewhere, 2).expect("far");
    match jacobi.encode_apply(&mut encoder, &x, &far) {
        Err(KError::Wgpu { kind, operation, .. }) => {
            assert_eq!(kind, WgpuErrorKind::DeviceMismatch);
            assert_eq!(operation, "apply WebGPU Jacobi");
        }
        other => panic!("{other:?}"),
    }
}

#[test]
fn diagonals_that_cannot_be_inverted_are_refused() {
    let mut runtime = new_runtime(1);
    for (values, row) in [(vec![1.0, 0.0], 1), (vec![1.0e-30, 1.0], 0), (vec![-1.0e-31], 0)] {
        let operator =
            WgpuCsrOp::from_host(&mut runtime, &diagonal_matrix(&values)).expect("upload");
        match WgpuJacobi::from_csr(&mut runtime, &operator) {
            Err(KError::ZeroPivot(found)) => assert_eq!(found, row),
            other => panic!("{other:?}"),
        }
    }
    let missing = CsrMatrix::from_csr(2, 2, vec![0, 1, 2], vec![1, 0], bits(&[1.0, 1.0]));
    let operator = WgpuCsrOp::from_host(&mut runtime, &missing).expect("upload");
    assert!(matches!(
        WgpuJacobi::from_csr(&mut runtime, &operator),
        Err(KError::ZeroPivot(0))
    ));
    let wide = CsrMatrix::from_csr(1, 2, vec![0, 1], vec![0], bits(&[1.0]));
    let operator = WgpuCsrOp::from_host(&mut runtime, &wide).expect("upload");
    assert_eq!(
        text_of(WgpuJacobi::from_csr(&mut runtime, &operator).unwrap_err()),
        "WebGPU Jacobi requires a square operator, got 1x2"
    );
}

#[test]
fn a_diagonal_whose_inverse_is_too_large_cannot_occur_above_the_pivot_bound() {
    let mut runtime = new_runtime(1);
    let operator =
        WgpuCsrOp::from_host(&mut runtime, &diagonal_matrix(&[1.1e-30])).expect("upload");
    assert!(WgpuJacobi::from_csr(&mut runtime, &operator).is_ok());
}

#[test]
fn a_context_refuses_what_it_does_not_serve() {
    let mut runtime = new_runtime(1);
    let mut context = WgpuKspContext::new(&mut runtime);
    match context.set_type(SolverType::Gmres) {
        Err(KError::Unsupported(text)) => {
            assert_eq!(text, "WebGPU currently supports only BiCGStab")
        }
        _ => panic!("accepted"),
    }
    match context.set_pc_type(PcType::Ilu0) {
        Err(KError::Unsupported(text)) => {
            assert_eq!(text, "WebGPU currently supports only None and Jacobi preconditioners")
        }
        _ => panic!("accepted"),
    }
    let wide = CsrMatrix::from_csr(1, 2, vec![0, 1], vec![0], bits(&[1.0]));
    let operator = Arc::new(WgpuCsrOp::from_host(&mut runtime, &wide).expect("upload"));
    match context.set_operator(operator) {
        Err(error) => {
            assert_eq!(text_of(error), "WebGPU BiCGStab requires a square operator, got 1x2")
        }
        Ok(_) => panic!("accepted"),
    }
    let mut elsewhere = new_runtime(2);
    let foreign = WgpuCsrOp::from_host(&mut elsewhere, &diagonal_matrix(&[1.0])).expect("upload");
    match context.set_operator(Arc::new(foreign)) {
        Err(error) => assert_eq!(
            text_of(error),
            "WebGPU context and operator belong to different runtimes"
        ),
        Ok(_) => panic!("accepted"),
    }
    match context.setup(&mut runtime) {
        Err(error) => assert_eq!(text_of(error), "WebGPU operator is not set"),
        Ok(_) => panic!("accepted"),
    }
}

#[test]
fn tolerances_must_be_finite_and_not_negative() {
    let mut runtime = new_runtime(1);
    let mut context = WgpuKspContext::new(&mut runtime);
    let cases = [
        (f64::NAN, 0.0, 1.0, 1),
        (-1.0e-5, 0.0, 1.0, 1),
        (0.0, f64::INFINITY, 1.0, 1),
        (0.0, -1.0, 1.0, 1),
        (0.0, 0.0, 0.0, 1),
        (0.0, 0.0, -0.0, 1),
        (0.0, 0.0, -1.0, 1),
        (0.0, 0.0, f64::INFINITY, 1),
        (0.0, 0.0, 1.0, 0),
    ];
    for (rtol, atol, dtol, max_iters) in cases {
        let answer =
            context.set_tolerances(rtol.to_bits(), atol.to_bits(), dtol.to_bits(), max_iters);
        match answer {
            Err(error) => assert_eq!(
                text_of(error),
                "WebGPU solver tolerances must be finite/non-negative, dtol positive, and max_iters nonzero"
            ),
            Ok(_) => panic!("accepted"),
        }
    }
    let zero = (-0.0f64).to_bits();
    assert!(context.set_tolerances(zero, zero, 1.0f64.to_bits(), 1).is_ok());
    assert!(Convergence::new(DEFAULT_RTOL, DEFAULT_ATOL, DEFAULT_DTOL, 10_000).is_usable());
}

#[test]
fn a_setup_prepares_each_part_once() {
    let mut runtime = new_runtime(1);
    let mut context = WgpuKspContext::new(&mut runtime);
    let operator =
        WgpuCsrOp::from_host(&mut runtime, &diagonal_matrix(&[2.0, 4.0])).expect("upload");
    assert!(context.set_pc_type(PcType::Jacobi).is_ok());
    assert!(context.set_operator(Arc::new(operator)).is_ok());
    runtime.take_commands();
    assert!(context.setup(&mut runtime).is_ok());
    let created = |commands: &[Command]| {
        commands
            .iter()
            .filter(|c| {
                matches!(c, Command::CreateBuffer { .. } | Command::CreateBufferInit { .. })
            })
            .count()
    };
    assert_eq!(created(&runtime.take_commands()), 13);
    assert!(context.is_set_up());
    assert_eq!(context.pc_type(), PcType::Jacobi);
    assert!(context.setup(&mut runtime).is_ok());
    assert!(runtime.take_commands().is_empty());
    let mut held = context.device_buffers();
    held.sort();
    held.dedup();
    assert_eq!(held.len(), 15);
    assert!(context.set_pc_type(PcType::Identity).is_ok());
    assert_eq!(context.device_buffers().len(), 2);
}

#[test]
fn a_context_creates_its_kernels() {
    let mut runtime = new_runtime(1);
    let context = WgpuKspContext::new(&mut runtime);
    assert_eq!(context.runtime(), 1);
    let commands = runtime.take_commands();
    let mut kernels = Vec::new();
    for command in &commands {
        match command {
            Command::CreatePipeline { kernel, entry_point, module, .. } => {
                kernels.push((*entry_point, *kernel, *module));
            }
            Command::CreateBindGroupLayout { layout: Layout::Reduction, slots, .. } => {
                assert_eq!(slots.len(), 9);
                let written: Vec<u32> = slots
                    .iter()
                    .filter(|slot| slot.kind == SlotKind::ReadWrite)
                    .map(|slot| slot.binding)
                    .collect();
                assert_eq!(written, vec![4, 5]);
                assert_eq!(slots[6].kind, SlotKind::Uniform);
            }
            _ => {}
        }
    }
    assert_eq!(kernels.len(), 14);
    assert_eq!(kernels[0], ("axpby", Kernel::Axpby, ShaderModule::Vector));
    assert_eq!(kernels[1], ("reduce_stage", Kernel::ReduceStage, ShaderModule::Reduction));
    assert_eq!(kernels[2], ("reduce_final", Kernel::ReduceFinal, ShaderModule::Reduction));
    let last = ("check_r", Kernel::CheckR, ShaderModule::ResidentScalar);
    assert_eq!(kernels[13], last);
}

#[test]
fn norms_are_roots_of_squares_that_are_numbers() {
    assert_eq!(checked_norm(2.0f64.to_bits(), "norm").unwrap(), 2.0f64.sqrt().to_bits());
    assert_eq!(checked_norm(0, "norm").unwrap(), 0);
    assert_eq!(checked_norm((-0.0f64).to_bits(), "norm").unwrap(), (-0.0f64).to_bits());
    match checked_norm(f64::NAN.to_bits(), "norm") {
        Err(KError::NonFiniteReduction { kind, context }) => {
            assert_eq!((kind, context), (NonFiniteKind::Nan, "norm"))
        }
        other => panic!("{other:?}"),
    }
    match checked_norm(f64::NEG_INFINITY.to_bits(), "norm") {
        Err(KError::NonFiniteReduction { kind, context }) => {
            assert_eq!((kind, context), (NonFiniteKind::Inf, "norm"))
        }
        other => panic!("{other:?}"),
    }
    match checked_norm((-4.0f64).to_bits(), "norm") {
        Err(KError::SolveError(SolveFailure::NegativeNorm { context, square })) => {
            assert_eq!((context, square), ("norm", (-4.0f64).to_bits()))
        }
        other => panic!("{other:?}"),
    }
}

#[test]
fn reasons_are_read_from_rounded_codes() {
    let reasons = [
        ConvergedReason::Continued,
        ConvergedReason::ConvergedRtol,
        ConvergedReason::ConvergedAtol,
        ConvergedReason::DivergedDtol,
        ConvergedReason::DivergedMaxIts,
        ConvergedReason::DivergedBreakdownBiCG,
        ConvergedReason::DivergedNan,
        ConvergedReason::DivergedInf,
        ConvergedReason::Continued,
    ];
    for (code, reason) in reasons.into_iter().enumerate() {
        assert_eq!(resident_reason((code as f32).to_bits()), reason);
        assert_eq!(resident_reason((code as f32 + 0.25).to_bits()), reason);
        assert_eq!(resident_reason((-(code as f32)).to_bits()), ConvergedReason::Continued);
    }
    assert_eq!(resident_reason(f32::MAX.to_bits()), ConvergedReason::Continued);
    for code in [f32::NAN, f32::INFINITY, f32::NEG_INFINITY] {
        assert_eq!(resident_reason(code.to_bits()), ConvergedReason::Continued);
    }
}

#[test]
fn every_kernel_stands_in_the_text_of_its_module() {
    let mut runtime = new_runtime(1);
    let mut context = WgpuKspContext::new(&mut runtime);
    let matrix = diagonal_matrix(&[2.0, 4.0]);
    let operator = WgpuCsrOp::from_host(&mut runtime, &matrix).expect("upload CSR");
    assert!(context.set_pc_type(PcType::Jacobi).is_ok());
    assert!(context.set_operator(Arc::new(operator)).is_ok());
    assert!(context.setup(&mut runtime).is_ok());
    let mut kernels = 0;
    for command in runtime.take_commands() {
        if let Command::CreatePipeline { module, entry_point, .. } = command {
            let text = source(module);
            assert!(text.contains("@compute @workgroup_size("));
            assert!(text.is_ascii() && !text.contains("pub "));
            assert_eq!(text.matches('{').count(), text.matches('}').count());
            assert_eq!(text.matches(&format!("fn {entry_point}(")).count(), 1, "{entry_point}");
            kernels += 1;
        }
    }
    assert_eq!(kernels, 16);
    assert_eq!(source(ShaderModule::Vector), VECTOR_SHADER);
    assert_eq!(source(ShaderModule::Reduction), REDUCTION_SHADER);
    let codes = source(ShaderModule::ResidentScalar);
    assert!(codes.contains("\nconst CONVERGED_RTOL: f32 = 1.0f;\n"));
    assert!(codes.contains("\nconst DIVERGED_INF: f32 = 7.0f;\n"));
    assert!(VECTOR_SHADER.contains("output_values[id.x] = fma("));
}
