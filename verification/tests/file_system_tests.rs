//! Tests of the virtual file store: classification, ingestion, release,
//! capacity, and byte decoding.

use rustspice::error_handling::{SpiceError, SpiceErrorType};
use rustspice::file_system::{
    detect_file_architecture, detect_kernel_type, file_exists, read_doubles_from_data, read_file,
    read_integers_from_data, FileArchitecture, KernelType, VirtualFileSystem, MAX_KERNELS,
};

#[test]
fn test_virtual_file_system_creation() {
    let vfs = VirtualFileSystem::new();
    assert_eq!(vfs.kernel_count(), 0);
    assert!(vfs.list_loaded_kernels().is_empty());
}

#[test]
fn test_kernel_type_detection() {
    // Ephemeris array-file detection
    let spk_data = b"DAF/SPK      test";
    assert_eq!(detect_kernel_type(spk_data), KernelType::SPK);

    // Pointing array-file detection
    let ck_data = b"DAF/CK       test";
    assert_eq!(detect_kernel_type(ck_data), KernelType::CK);

    // Constants text kernel detection
    let pck_data = b"\nBODY399_RADII = ( 6378.1366 6378.1366 6356.7519 )\n";
    assert_eq!(detect_kernel_type(pck_data), KernelType::PCK);

    // Leapseconds kernel detection
    let lsk_data = b"\nDELTET/DELTA_T_A = 32.184\n";
    assert_eq!(detect_kernel_type(lsk_data), KernelType::LSK);

    // Segregated events file detection
    let ek_data = b"DAS/EK       test";
    assert_eq!(detect_kernel_type(ek_data), KernelType::EK);

    // Binary constants kernel detection
    let binary_pck_data = b"DAF/PCK      test";
    assert_eq!(detect_kernel_type(binary_pck_data), KernelType::PCK);

    // Unknown data
    let unknown_data = b"some random data";
    assert_eq!(detect_kernel_type(unknown_data), KernelType::Unknown);
}

#[test]
fn test_file_architecture_detection() {
    let daf_data = b"DAF/SPK      test";
    assert_eq!(detect_file_architecture(daf_data), FileArchitecture::DAF);

    let das_data = b"DAS/EK       test";
    assert_eq!(detect_file_architecture(das_data), FileArchitecture::DAS);

    let text_data = b"This is a text kernel\nKERNELS_TO_LOAD = ( )";
    assert_eq!(detect_file_architecture(text_data), FileArchitecture::Text);

    let unknown_data = b"random binary data";
    assert_eq!(detect_file_architecture(unknown_data), FileArchitecture::Unknown);
}

#[test]
fn test_load_kernel_from_bytes() {
    let mut vfs = VirtualFileSystem::new();

    let test_data = b"DAF/SPK      test kernel data".to_vec();
    let path = "/test/kernel.bsp";

    let handle = vfs.load_kernel_from_bytes(test_data, path).unwrap();
    assert_eq!(handle, 1);
    assert_eq!(vfs.kernel_count(), 1);
    assert!(vfs.is_kernel_loaded(path));

    let loaded_kernels = vfs.list_loaded_kernels();
    assert_eq!(loaded_kernels.len(), 1);
    assert_eq!(loaded_kernels[0], path);
}

#[test]
fn test_load_multiple_kernels() {
    let mut vfs = VirtualFileSystem::new();

    let spk_data = b"DAF/SPK      spk test".to_vec();
    let spk_handle = vfs.load_kernel_from_bytes(spk_data, "/test/planets.bsp").unwrap();

    let ck_data = b"DAF/CK       ck test".to_vec();
    let ck_handle = vfs.load_kernel_from_bytes(ck_data, "/test/attitude.bc").unwrap();

    assert_eq!(spk_handle, 1);
    assert_eq!(ck_handle, 2);
    assert_eq!(vfs.kernel_count(), 2);

    assert!(vfs.is_kernel_loaded("/test/planets.bsp"));
    assert!(vfs.is_kernel_loaded("/test/attitude.bc"));

    let loaded_kernels = vfs.list_loaded_kernels();
    assert_eq!(loaded_kernels.len(), 2);
    assert!(loaded_kernels.contains(&"/test/planets.bsp".to_string()));
    assert!(loaded_kernels.contains(&"/test/attitude.bc".to_string()));
}

#[test]
fn test_duplicate_kernel_loading() {
    let mut vfs = VirtualFileSystem::new();

    let test_data = b"DAF/SPK      test".to_vec();
    let path = "/test/kernel.bsp";

    let handle1 = vfs.load_kernel_from_bytes(test_data.clone(), path).unwrap();
    assert_eq!(handle1, 1);

    let result = vfs.load_kernel_from_bytes(test_data, path);
    assert!(result.is_err());

    if let Err(err) = result {
        assert_eq!(err.error_type, SpiceErrorType::KernelAlreadyLoaded);
    }

    assert_eq!(vfs.kernel_count(), 1);
}

#[test]
fn test_unload_kernel() {
    let mut vfs = VirtualFileSystem::new();

    let test_data = b"DAF/SPK      test".to_vec();
    let path = "/test/kernel.bsp";

    vfs.load_kernel_from_bytes(test_data, path).unwrap();
    assert_eq!(vfs.kernel_count(), 1);
    assert!(vfs.is_kernel_loaded(path));

    vfs.unload_kernel(path).unwrap();
    assert_eq!(vfs.kernel_count(), 0);
    assert!(!vfs.is_kernel_loaded(path));

    let loaded_kernels = vfs.list_loaded_kernels();
    assert!(loaded_kernels.is_empty());
}

#[test]
fn test_unload_nonexistent_kernel() {
    let mut vfs = VirtualFileSystem::new();

    let result = vfs.unload_kernel("/nonexistent/kernel.bsp");
    assert!(result.is_err());

    if let Err(err) = result {
        assert_eq!(err.error_type, SpiceErrorType::KernelNotFound);
    }
}

#[test]
fn test_repeated_release_and_clear() {
    // Releasing a path, then releasing it again, fails the second time;
    // clearing afterwards always leaves the store empty.
    let mut vfs = VirtualFileSystem::new();
    vfs.load_kernel_from_bytes(b"DAF/SPK      x".to_vec(), "/k.bsp").unwrap();
    assert!(vfs.unload_kernel("/k.bsp").is_ok());
    let again = vfs.unload_kernel("/k.bsp");
    assert!(again.is_err());
    assert_eq!(again.unwrap_err().error_type, SpiceErrorType::KernelNotFound);
    vfs.clear_all_kernels();
    assert_eq!(vfs.kernel_count(), 0);
}

#[test]
fn test_clear_all_kernels() {
    let mut vfs = VirtualFileSystem::new();

    vfs.load_kernel_from_bytes(b"DAF/SPK test1".to_vec(), "/test/kernel1.bsp").unwrap();
    vfs.load_kernel_from_bytes(b"DAF/CK  test2".to_vec(), "/test/kernel2.bc").unwrap();
    vfs.load_kernel_from_bytes(b"DAS/EK  test3".to_vec(), "/test/kernel3.ek").unwrap();

    assert_eq!(vfs.kernel_count(), 3);

    vfs.clear_all_kernels();
    assert_eq!(vfs.kernel_count(), 0);
    assert!(vfs.list_loaded_kernels().is_empty());
}

#[test]
fn test_get_kernel_data() {
    let mut vfs = VirtualFileSystem::new();

    let test_data = b"DAF/SPK      test kernel data".to_vec();
    let path = "/test/kernel.bsp";

    vfs.load_kernel_from_bytes(test_data.clone(), path).unwrap();

    let retrieved_data = vfs.get_kernel_data(path).unwrap();
    assert_eq!(retrieved_data, test_data);
}

#[test]
fn test_get_kernel_info() {
    let mut vfs = VirtualFileSystem::new();

    let test_data = b"DAF/CK       test ck kernel".to_vec();
    let path = "/test/attitude.bc";

    vfs.load_kernel_from_bytes(test_data, path).unwrap();

    let info = vfs.get_kernel_info(path).unwrap();
    assert_eq!(info.path, path);
    assert_eq!(info.kernel_type, KernelType::CK);
    assert_eq!(info.architecture, FileArchitecture::DAF);
    assert!(info.loaded);
    assert!(info.size_bytes > 0);
}

#[test]
fn test_max_kernels_limit() {
    let mut vfs = VirtualFileSystem::new();

    for i in 0..MAX_KERNELS {
        let data = format!("DAF/SPK      test{}", i).into_bytes();
        let path = format!("/test/kernel{}.bsp", i);
        let result = vfs.load_kernel_from_bytes(data, &path);
        assert!(result.is_ok(), "Failed to load kernel {}", i);
    }

    let extra_data = b"DAF/SPK      extra".to_vec();
    let extra_path = "/test/extra.bsp";
    let result = vfs.load_kernel_from_bytes(extra_data, extra_path);
    assert!(result.is_err());

    if let Err(err) = result {
        assert_eq!(err.error_type, SpiceErrorType::TooManyKernels);
    }

    // releasing one kernel frees exactly one slot
    vfs.unload_kernel("/test/kernel0.bsp").unwrap();
    assert_eq!(vfs.kernel_count(), MAX_KERNELS - 1);
    assert!(vfs.load_kernel_from_bytes(b"DAF/SPK      extra".to_vec(), extra_path).is_ok());
    assert_eq!(vfs.kernel_count(), MAX_KERNELS);
}

#[test]
fn test_read_doubles_from_data() {
    let mut data = Vec::new();
    let test_doubles = [1.0_f64, 2.5_f64, -3.14159_f64];

    for &val in &test_doubles {
        data.extend_from_slice(&val.to_le_bytes());
    }

    let result = read_doubles_from_data(&data, 0, 3).unwrap();
    assert_eq!(result.len(), 3);
    assert_eq!(f64::from_bits(result[0]), 1.0);
    assert_eq!(f64::from_bits(result[1]), 2.5);
    assert!((f64::from_bits(result[2]) + 3.14159).abs() < 1e-10);
}

#[test]
fn test_read_integers_from_data() {
    let mut data = Vec::new();
    let test_ints = [42_i32, -100_i32, 2147483647_i32];

    for &val in &test_ints {
        data.extend_from_slice(&val.to_le_bytes());
    }

    let result = read_integers_from_data(&data, 0, 3).unwrap();
    assert_eq!(result.len(), 3);
    assert_eq!(result[0], 42);
    assert_eq!(result[1], -100);
    assert_eq!(result[2], 2147483647);
}

#[test]
fn test_read_data_bounds_checking() {
    let data = vec![1, 2, 3, 4, 5, 6, 7, 8];

    let result = read_doubles_from_data(&data, 0, 2);
    assert!(result.is_err());

    let result = read_integers_from_data(&data, 0, 3);
    assert!(result.is_err());

    let result = read_doubles_from_data(&data, 10, 1);
    assert!(result.is_err());
}

#[test]
fn test_file_exists_stub() {
    assert!(!file_exists("nonexistent.txt"));
}

#[test]
fn test_read_file_stub() {
    let result = read_file("nonexistent.txt");
    assert!(result.is_err());
    match result {
        Err(SpiceError { error_type: SpiceErrorType::FileIOError, .. }) => (),
        _ => panic!("Expected FileIOError"),
    }
}
