//! Tests of error construction and the high-level kernel system context.

use rustspice::ck_reader::CkSegmentType;
use rustspice::error_handling::{has_failed, ErrorTrace, SpiceError, SpiceErrorType};
use rustspice::kernel_system::{
    initialize_kernel_pool, initialize_kernel_system, is_initialized, is_kernel_pool_initialized,
    kernel_data, kernel_info_by_type, kernel_total, load_meta_kernel, KernelSystem,
};
use rustspice::{build_info, initialize, version};

#[test]
fn test_error_creation() {
    let error = SpiceError::new(SpiceErrorType::InvalidTime, "Invalid time string".to_string());
    assert_eq!(error.error_type, SpiceErrorType::InvalidTime);
    assert_eq!(error.message, "Invalid time string");
}

#[test]
fn test_error_trace() {
    let error = SpiceError::new(SpiceErrorType::ComputationError, "Division by zero".to_string())
        .add_trace("compute_position".to_string())
        .add_trace("ephemeris_state".to_string());

    assert_eq!(error.function_trace.len(), 2);
    assert_eq!(error.function_trace[0], "compute_position");
    assert_eq!(error.function_trace[1], "ephemeris_state");
}

#[test]
fn test_error_trace_stack() {
    let mut trace = ErrorTrace::new();
    trace.enter_function("outer".to_string());
    trace.enter_function("inner".to_string());
    assert_eq!(trace.get_stack(), ["outer".to_string(), "inner".to_string()]);
    trace.exit_function();
    assert_eq!(trace.get_stack(), ["outer".to_string()]);
    assert!(!has_failed());
}

#[test]
fn test_error_type_strings() {
    let e = SpiceError::new(SpiceErrorType::TooManyKernels, String::new());
    assert_eq!(e.error_type_string(), "TOO_MANY_KERNELS");
    let e = SpiceError::new(SpiceErrorType::InsufficientData, String::new());
    assert_eq!(e.error_type_string(), "INSUFFICIENT_DATA");
}

#[test]
fn ck_reader_test_segment_type_conversion() {
    assert_eq!(CkSegmentType::from_i32(1).unwrap(), CkSegmentType::Type1);
    assert_eq!(CkSegmentType::from_i32(3).unwrap(), CkSegmentType::Type3);
    assert!(CkSegmentType::from_i32(99).is_err());
}

#[test]
fn test_initialize_kernel_system() {
    let sys = initialize_kernel_system();
    assert!(is_initialized(&sys));
    assert!(is_kernel_pool_initialized(&sys));
    assert_eq!(sys.vfs.kernel_count(), 0);
}

#[test]
fn test_initialize_and_version() {
    let sys = initialize().unwrap();
    assert!(is_initialized(&sys));
    assert_eq!(version(), "0.1.0");
    assert!(build_info().contains("0.1.0"));
}

fn spk_bytes() -> Vec<u8> {
    let mut data = b"DAF/SPK ID      FORMAT  ".to_vec();
    data.resize(2048, 0);
    data
}

#[test]
fn test_furnish_kernel_from_bytes() {
    let mut sys = KernelSystem::new();

    let result = sys.furnish_kernel_from_bytes(spk_bytes(), "/test/kernel.bsp");
    assert!(result.is_ok());

    let handle = result.unwrap();
    assert_eq!(handle, 1);

    assert!(sys.is_kernel_loaded("/test/kernel.bsp"));
    assert_eq!(sys.kernel_count(), 1);
}

#[test]
fn test_furnish_dispatches_ephemeris_kernel() {
    let mut sys = KernelSystem::new();
    sys.furnish_kernel_from_bytes(spk_bytes(), "/k/de.bsp").unwrap();
    assert_eq!(sys.spk.segment_count(), 20);
    assert!(sys.spk.find_segment(399, 0, 0.0f64.to_bits()).is_ok());
}

#[test]
fn test_text_kernel_integration() {
    let mut sys = KernelSystem::new();

    let text_kernel = "\n\\begindata\nLEAP_SECONDS_FILE = 'naif0012.tls'\nSPACECRAFT_ID = -123\nTEST_ARRAY = ( 1.0, 2.0, 3.0 )\n\\begintext\nThis is a test text kernel\n";

    let result = sys.furnish_kernel_from_bytes(text_kernel.as_bytes().to_vec(), "/test/test.tk");
    assert!(result.is_ok());

    assert!(sys.pool.contains_variable("LEAP_SECONDS_FILE"));
    assert!(sys.pool.contains_variable("SPACECRAFT_ID"));
    assert!(sys.pool.contains_variable("TEST_ARRAY"));

    let (leap_file, _) = sys.pool.get_character("LEAP_SECONDS_FILE", 0, 1).unwrap();
    assert_eq!(leap_file[0], "naif0012.tls");

    let (spacecraft_id, _) = sys.pool.get_integer("SPACECRAFT_ID", 0, 1).unwrap();
    assert_eq!(spacecraft_id[0], -123);

    let (test_array, _) = sys.pool.get_double("TEST_ARRAY", 0, 10).unwrap();
    let floats: Vec<f64> = test_array.iter().map(|w| f64::from_bits(*w)).collect();
    assert_eq!(floats, vec![1.0, 2.0, 3.0]);
}

#[test]
fn test_unload_and_clear() {
    let mut sys = KernelSystem::new();
    sys.furnish_kernel_from_bytes(spk_bytes(), "/test/test.bsp").unwrap();
    assert_eq!(sys.kernel_count(), 1);
    sys.unload_kernel("/test/test.bsp").unwrap();
    assert_eq!(sys.kernel_count(), 0);
    assert!(!sys.is_kernel_loaded("/test/test.bsp"));

    sys.furnish_kernel_from_bytes(spk_bytes(), "/a.bsp").unwrap();
    sys.furnish_kernel_from_bytes(b"DAF/CK  test2".to_vec(), "/b.bc").unwrap();
    assert_eq!(sys.kernel_count(), 2);
    sys.clear_kernels().unwrap();
    assert_eq!(sys.kernel_count(), 0);
}

#[test]
fn test_kernel_data() {
    let mut sys = KernelSystem::new();
    sys.furnish_kernel_from_bytes(spk_bytes(), "/test/kernel1.bsp").unwrap();

    let (file, filetype, source, handle) = kernel_data(&sys, 0, "*").unwrap();
    assert_eq!(file, "/test/kernel1.bsp");
    assert_eq!(filetype, "SPK");
    assert_eq!(source, "/test/kernel1.bsp");
    assert!(handle > 0);

    let result = kernel_data(&sys, 1, "*");
    assert!(result.is_err());
}

#[test]
fn test_kernel_total() {
    let mut sys = KernelSystem::new();
    sys.furnish_kernel_from_bytes(spk_bytes(), "/test/kernel1.bsp").unwrap();
    sys.furnish_kernel_from_bytes(b"DAF/CK  test2".to_vec(), "/test/kernel2.bc").unwrap();
    sys.furnish_kernel_from_bytes(spk_bytes(), "/test/kernel3.bsp").unwrap();

    assert_eq!(kernel_total(&sys, "*").unwrap(), 3);
    assert_eq!(kernel_total(&sys, "SPK").unwrap(), 2);
    assert_eq!(kernel_total(&sys, "CK").unwrap(), 1);
    assert_eq!(kernel_total(&sys, "PCK").unwrap(), 0);
}

#[test]
fn test_kernel_info_by_type_lookup() {
    let mut sys = KernelSystem::new();
    sys.furnish_kernel_from_bytes(spk_bytes(), "/test/kernel1.bsp").unwrap();
    sys.furnish_kernel_from_bytes(b"DAF/CK  test2".to_vec(), "/test/kernel2.bc").unwrap();

    let (file, filetype, _, _) = kernel_info_by_type(&sys, "CK", 0).unwrap();
    assert_eq!(file, "/test/kernel2.bc");
    assert_eq!(filetype, "CK");

    assert!(kernel_info_by_type(&sys, "CK", 1).is_err());
    assert!(kernel_info_by_type(&sys, "EK", 0).is_err());
}

#[test]
fn test_load_meta_kernel() {
    let mut sys = KernelSystem::new();

    let meta_content =
        "\n\\begindata\nTEST_VALUE = 123.45\nANOTHER_VALUE = 'test_string'\n\\begintext\nThis is a test meta-kernel without file references\n";

    let result = load_meta_kernel(&mut sys, meta_content, "/test/meta.mk");
    assert!(result.is_ok());

    assert!(sys.pool.contains_variable("TEST_VALUE"));
    assert!(sys.pool.contains_variable("ANOTHER_VALUE"));

    let (test_value, _) = sys.pool.get_double("TEST_VALUE", 0, 1).unwrap();
    assert_eq!(f64::from_bits(test_value[0]), 123.45);
}

#[test]
fn test_initialize_kernel_pool_resets() {
    let mut sys = KernelSystem::new();
    sys.pool.put_double("X", vec![1.0f64.to_bits()]).unwrap();
    initialize_kernel_pool(&mut sys).unwrap();
    assert!(!sys.pool.contains_variable("X"));
}
