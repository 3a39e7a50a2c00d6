//! Tests of aberration corrections, the built-in body table, and the
//! resolver decision helpers.

use rustspice::ephemeris::{
    body_code_to_name, body_name_to_code, light_time_iteration_budget,
    observer_speed_within_limit, AberrationCorrection, REL_SPEED_LIMIT_WORD,
    SPEED_OF_LIGHT_WORD,
};

const EARTH: i32 = 399;
const MARS: i32 = 499;
const MOON: i32 = 301;
const SUN: i32 = 10;

#[test]
fn ephemeris_test_body_name_to_code() {
    assert_eq!(body_name_to_code("EARTH").unwrap(), EARTH);
    assert_eq!(body_name_to_code("earth").unwrap(), EARTH);
    assert_eq!(body_name_to_code("MARS").unwrap(), MARS);
    assert_eq!(body_name_to_code("MOON").unwrap(), MOON);
    assert_eq!(body_name_to_code("SUN").unwrap(), SUN);

    assert_eq!(body_name_to_code("399").unwrap(), EARTH);
    assert_eq!(body_name_to_code("499").unwrap(), MARS);

    assert!(body_name_to_code("UNKNOWN_BODY").is_err());
}

#[test]
fn ephemeris_test_body_code_to_name() {
    assert_eq!(body_code_to_name(EARTH).unwrap(), "EARTH");
    assert_eq!(body_code_to_name(MARS).unwrap(), "MARS");
    assert_eq!(body_code_to_name(MOON).unwrap(), "MOON");

    assert!(body_code_to_name(99999).is_err());
}

#[test]
fn test_aberration_correction_parsing() {
    assert_eq!(AberrationCorrection::from_str("NONE").unwrap(), AberrationCorrection::Geometric);
    assert_eq!(AberrationCorrection::from_str("LT").unwrap(), AberrationCorrection::LightTime);
    assert_eq!(
        AberrationCorrection::from_str("CN").unwrap(),
        AberrationCorrection::ConvergedNewtonian
    );
    assert_eq!(
        AberrationCorrection::from_str("LT+S").unwrap(),
        AberrationCorrection::LightTimeAndStellar
    );
    assert_eq!(
        AberrationCorrection::from_str("CN+S").unwrap(),
        AberrationCorrection::ConvergedNewtonianAndStellar
    );

    assert_eq!(AberrationCorrection::from_str("lt").unwrap(), AberrationCorrection::LightTime);
    assert_eq!(
        AberrationCorrection::from_str("cn+s").unwrap(),
        AberrationCorrection::ConvergedNewtonianAndStellar
    );

    assert_eq!(
        AberrationCorrection::from_str("XLT").unwrap(),
        AberrationCorrection::TransmissionLightTime
    );
    assert_eq!(
        AberrationCorrection::from_str("XCN+S").unwrap(),
        AberrationCorrection::TransmissionConvergedNewtonianAndStellar
    );

    assert!(AberrationCorrection::from_str("INVALID").is_err());
}

#[test]
fn test_aberration_correction_properties() {
    let none = AberrationCorrection::Geometric;
    let lt = AberrationCorrection::LightTime;
    let lt_s = AberrationCorrection::LightTimeAndStellar;
    let xlt = AberrationCorrection::TransmissionLightTime;

    assert!(!none.includes_light_time());
    assert!(lt.includes_light_time());
    assert!(lt_s.includes_light_time());
    assert!(xlt.includes_light_time());

    assert!(!none.includes_stellar_aberration());
    assert!(!lt.includes_stellar_aberration());
    assert!(lt_s.includes_stellar_aberration());

    assert!(!none.is_transmission());
    assert!(!lt.is_transmission());
    assert!(xlt.is_transmission());
}

#[test]
fn test_body_name_case_insensitive() {
    assert_eq!(body_name_to_code("earth").unwrap(), EARTH);
    assert_eq!(body_name_to_code("EARTH").unwrap(), EARTH);
    assert_eq!(body_name_to_code("Earth").unwrap(), EARTH);
    assert_eq!(body_name_to_code("mars").unwrap(), MARS);
    assert_eq!(body_name_to_code("MARS").unwrap(), MARS);
}

#[test]
fn test_iteration_budget() {
    assert_eq!(light_time_iteration_budget(&AberrationCorrection::LightTime), 3);
    assert_eq!(light_time_iteration_budget(&AberrationCorrection::ConvergedNewtonian), 3);
    assert_eq!(light_time_iteration_budget(&AberrationCorrection::LightTimeAndStellar), 5);
    assert_eq!(
        light_time_iteration_budget(&AberrationCorrection::TransmissionConvergedNewtonianAndStellar),
        5
    );
}

#[test]
fn test_stellar_speed_gate_boundary() {
    // the validity bound is one tenth of the speed of light
    let c = f64::from_bits(SPEED_OF_LIGHT_WORD);
    assert_eq!(c, 299792.458);
    let limit = 0.1 * c;
    assert_eq!(limit.to_bits(), REL_SPEED_LIMIT_WORD);

    // exactly at the bound: rejected
    assert!(!observer_speed_within_limit(limit.to_bits()));
    // just below: accepted
    assert!(observer_speed_within_limit(f64::from_bits(limit.to_bits() - 1).to_bits()));
    // above: rejected
    assert!(!observer_speed_within_limit((limit * 2.0).to_bits()));
    // ordinary speeds: accepted
    assert!(observer_speed_within_limit(30.0f64.to_bits()));
}
