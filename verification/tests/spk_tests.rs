//! Tests of the segment index: type tags, loading, lookup boundaries, the
//! same-body shortcut, and segment decoding.

use rustspice::dpword::{dw_from_i64, dw_le, dw_lt};
use rustspice::error_handling::SpiceErrorType;
use rustspice::file_system::VirtualFileSystem;
use rustspice::spk_reader::{
    load_spk_file_global, SpkReader, SpkSegmentType, StatePlan, CATALOGUE_END_SECONDS,
    CATALOGUE_START_SECONDS,
};

fn spk_bytes() -> Vec<u8> {
    let mut data = b"DAF/SPK ID      FORMAT  ".to_vec();
    data.resize(2048, 0);
    data
}

#[test]
fn spk_reader_test_segment_type_conversion() {
    assert_eq!(SpkSegmentType::from_i32(2).unwrap(), SpkSegmentType::Chebyshev);
    assert_eq!(SpkSegmentType::from_i32(5).unwrap(), SpkSegmentType::TwoBody);
    assert!(SpkSegmentType::from_i32(999).is_err());
}

#[test]
fn test_spk_reader_creation() {
    let reader = SpkReader::new();
    assert_eq!(reader.file_count(), 0);
    assert_eq!(reader.segment_count(), 0);
}

#[test]
fn test_load_spk_file() {
    let mut vfs = VirtualFileSystem::new();
    vfs.load_kernel_from_bytes(spk_bytes(), "/k/de.bsp").unwrap();

    let mut reader = SpkReader::new();
    load_spk_file_global(&mut reader, "/k/de.bsp", &vfs).unwrap();
    assert_eq!(reader.file_count(), 1);
    assert_eq!(reader.segment_count(), 20);

    // an unknown path is rejected
    let mut reader2 = SpkReader::new();
    let missing = load_spk_file_global(&mut reader2, "/missing.bsp", &vfs);
    assert_eq!(missing.unwrap_err().error_type, SpiceErrorType::KernelNotFound);

    // a too-small or non-ephemeris buffer is rejected
    let mut vfs2 = VirtualFileSystem::new();
    vfs2.load_kernel_from_bytes(b"DAF/SPK tiny".to_vec(), "/k/tiny.bsp").unwrap();
    let small = load_spk_file_global(&mut reader2, "/k/tiny.bsp", &vfs2);
    assert_eq!(small.unwrap_err().error_type, SpiceErrorType::InvalidFormat);
}

#[test]
fn test_find_segment_boundaries() {
    // Segment intervals are inclusive at both ends: the catalogue start
    // and end epochs match, epochs just outside do not.
    let mut vfs = VirtualFileSystem::new();
    vfs.load_kernel_from_bytes(spk_bytes(), "/k/de.bsp").unwrap();
    let mut reader = SpkReader::new();
    load_spk_file_global(&mut reader, "/k/de.bsp", &vfs).unwrap();

    let start = CATALOGUE_START_SECONDS as f64;
    let end = CATALOGUE_END_SECONDS as f64;

    assert!(reader.find_segment(399, 0, start.to_bits()).is_ok());
    assert!(reader.find_segment(399, 0, end.to_bits()).is_ok());
    assert!(reader.find_segment(399, 0, 0.0f64.to_bits()).is_ok());

    let before = (start - 0.001).to_bits();
    let after = (end + 0.001).to_bits();
    assert_eq!(
        reader.find_segment(399, 0, before).unwrap_err().error_type,
        SpiceErrorType::InsufficientData
    );
    assert_eq!(
        reader.find_segment(399, 0, after).unwrap_err().error_type,
        SpiceErrorType::InsufficientData
    );

    // an unindexed pair never matches
    assert_eq!(
        reader.find_segment(399, 499, 0.0f64.to_bits()).unwrap_err().error_type,
        SpiceErrorType::InsufficientData
    );

    let seg = reader.find_segment(301, 399, 0.0f64.to_bits()).unwrap();
    assert_eq!(seg.target_body, 301);
    assert_eq!(seg.center_body, 399);
    assert_eq!(f64::from_bits(seg.start_time), start);
    assert_eq!(f64::from_bits(seg.end_time), end);
}

#[test]
fn test_same_body_shortcut() {
    // The same-body state is prepared without consulting the index at
    // all: it works identically on an empty and on a populated reader.
    let empty = SpkReader::new();
    for et in [0.0f64, 12345.678, -9e9] {
        match empty.compute_state_plan(399, 399, et.to_bits()).unwrap() {
            StatePlan::SameBody => {},
            _ => panic!("expected the same-body shortcut"),
        }
    }

    let mut vfs = VirtualFileSystem::new();
    vfs.load_kernel_from_bytes(spk_bytes(), "/k/de.bsp").unwrap();
    let mut reader = SpkReader::new();
    load_spk_file_global(&mut reader, "/k/de.bsp", &vfs).unwrap();
    match reader.compute_state_plan(10, 10, 0.0f64.to_bits()).unwrap() {
        StatePlan::SameBody => {},
        _ => panic!("expected the same-body shortcut"),
    }
}

#[test]
fn test_compute_state_plan_decodes_placeholder() {
    let mut vfs = VirtualFileSystem::new();
    vfs.load_kernel_from_bytes(spk_bytes(), "/k/de.bsp").unwrap();
    let mut reader = SpkReader::new();
    load_spk_file_global(&mut reader, "/k/de.bsp", &vfs).unwrap();

    // the catalogue address ranges lie beyond the small test buffer, so
    // decoding yields the deterministic placeholder record set
    match reader.compute_state_plan(399, 0, 0.0f64.to_bits()).unwrap() {
        StatePlan::Chebyshev(data) => {
            assert_eq!(data.n_components, 3);
            assert_eq!(data.degree, 7);
            assert_eq!(data.coeffs_per_set, 24);
            assert_eq!(data.n_records, 10);
            assert_eq!(data.coefficients.len(), 242);
            assert_eq!(f64::from_bits(data.coefficients[240]), 24.0);
            assert_eq!(f64::from_bits(data.coefficients[241]), 10.0);
        },
        _ => panic!("expected decoded segment data"),
    }

    // a missing pair still fails
    assert!(reader.compute_state_plan(399, 301, 0.0f64.to_bits()).is_err());
}

#[test]
fn test_segment_interval_bounds_inclusive() {
    // The covering test of the index is the inclusive word-order interval
    // check: a segment with start 1000 and end 2000 covers both endpoints
    // and nothing outside them.
    let start = 1000.0f64.to_bits();
    let end = 2000.0f64.to_bits();
    let covers = |et: f64| dw_le(start, et.to_bits()) && dw_le(et.to_bits(), end);
    assert!(covers(1000.0));
    assert!(covers(2000.0));
    assert!(covers(1500.0));
    assert!(!covers(999.999));
    assert!(!covers(2000.001));
}

#[test]
fn test_word_order_matches_float_order() {
    let samples = [
        -2e12f64, -1000.5, -1.0, -0.0, 0.0, 1e-12, 999.999, 1000.0, 2000.0, 2000.001, 3.4e15,
    ];
    for &a in &samples {
        for &b in &samples {
            assert_eq!(dw_le(a.to_bits(), b.to_bits()), a <= b, "le {} {}", a, b);
            assert_eq!(dw_lt(a.to_bits(), b.to_bits()), a < b, "lt {} {}", a, b);
        }
    }
}

#[test]
fn test_integer_encoding_is_exact() {
    let samples: [i64; 9] =
        [0, 1, -1, 24, 86400, -1_261_440_000, 20_736_000_000, 4_503_599_627_370_495, -2];
    for &v in &samples {
        assert_eq!(dw_from_i64(v), (v as f64).to_bits(), "encode {}", v);
    }
}
