//! Tests of pool-aware body name/code resolution, body centers, and the
//! built-in physical constants.

use rustspice::body_data::{
    body_center, body_code_to_name, body_data, body_found, body_name_to_code,
    EARTH, EARTH_MOON_BARYCENTER, ENCELADUS, EUROPA, GANYMEDE, IO, JUPITER, JUPITER_BARYCENTER,
    CALLISTO, MARS, MARS_BARYCENTER, MOON, SATURN_BARYCENTER, SOLAR_SYSTEM_BARYCENTER, SUN, TITAN,
};
use rustspice::kernel_pool::KernelPool;

fn floats(ws: &[u64]) -> Vec<f64> {
    ws.iter().map(|w| f64::from_bits(*w)).collect()
}

#[test]
fn body_data_test_body_name_to_code() {
    let pool = KernelPool::new();

    assert_eq!(body_name_to_code(&pool, "EARTH").unwrap(), EARTH);
    assert_eq!(body_name_to_code(&pool, "earth").unwrap(), EARTH);
    assert_eq!(body_name_to_code(&pool, "MARS").unwrap(), MARS);
    assert_eq!(body_name_to_code(&pool, "MOON").unwrap(), MOON);
    assert_eq!(body_name_to_code(&pool, "LUNA").unwrap(), MOON);
    assert_eq!(body_name_to_code(&pool, "SUN").unwrap(), SUN);
    assert_eq!(body_name_to_code(&pool, "SSB").unwrap(), SOLAR_SYSTEM_BARYCENTER);

    assert_eq!(body_name_to_code(&pool, "399").unwrap(), EARTH);
    assert_eq!(body_name_to_code(&pool, "499").unwrap(), MARS);

    assert_eq!(body_name_to_code(&pool, "IO").unwrap(), IO);
    assert_eq!(body_name_to_code(&pool, "EUROPA").unwrap(), EUROPA);
    assert_eq!(body_name_to_code(&pool, "GANYMEDE").unwrap(), GANYMEDE);
    assert_eq!(body_name_to_code(&pool, "CALLISTO").unwrap(), CALLISTO);

    assert_eq!(body_name_to_code(&pool, "TITAN").unwrap(), TITAN);
    assert_eq!(body_name_to_code(&pool, "ENCELADUS").unwrap(), ENCELADUS);

    assert!(body_name_to_code(&pool, "INVALID_BODY").is_err());
}

#[test]
fn body_data_test_body_code_to_name() {
    let pool = KernelPool::new();

    assert_eq!(body_code_to_name(&pool, EARTH).unwrap(), "EARTH");
    assert_eq!(body_code_to_name(&pool, MARS).unwrap(), "MARS");
    assert_eq!(body_code_to_name(&pool, MOON).unwrap(), "MOON");
    assert_eq!(body_code_to_name(&pool, SUN).unwrap(), "SUN");
    assert_eq!(
        body_code_to_name(&pool, SOLAR_SYSTEM_BARYCENTER).unwrap(),
        "SOLAR SYSTEM BARYCENTER"
    );

    assert_eq!(body_code_to_name(&pool, IO).unwrap(), "IO");
    assert_eq!(body_code_to_name(&pool, EUROPA).unwrap(), "EUROPA");

    assert_eq!(body_code_to_name(&pool, TITAN).unwrap(), "TITAN");

    assert!(body_code_to_name(&pool, 99999).is_err());
}

#[test]
fn test_body_found() {
    let pool = KernelPool::new();

    assert!(body_found(&pool, "EARTH"));
    assert!(body_found(&pool, "earth"));
    assert!(body_found(&pool, "MARS"));
    assert!(body_found(&pool, "MOON"));
    assert!(body_found(&pool, "SUN"));
    assert!(body_found(&pool, "399"));

    assert!(body_found(&pool, "IO"));
    assert!(body_found(&pool, "EUROPA"));
    assert!(body_found(&pool, "TITAN"));
    assert!(body_found(&pool, "ENCELADUS"));

    assert!(!body_found(&pool, "INVALID_BODY"));
    assert!(!body_found(&pool, "99999"));
}

#[test]
fn test_body_center() {
    let pool = KernelPool::new();

    assert_eq!(body_center(&pool, "EARTH").unwrap(), EARTH_MOON_BARYCENTER);
    assert_eq!(body_center(&pool, "MARS").unwrap(), MARS_BARYCENTER);
    assert_eq!(body_center(&pool, "JUPITER").unwrap(), JUPITER_BARYCENTER);

    assert_eq!(body_center(&pool, "MOON").unwrap(), EARTH_MOON_BARYCENTER);
    assert_eq!(body_center(&pool, "IO").unwrap(), JUPITER_BARYCENTER);
    assert_eq!(body_center(&pool, "EUROPA").unwrap(), JUPITER_BARYCENTER);
    assert_eq!(body_center(&pool, "TITAN").unwrap(), SATURN_BARYCENTER);

    assert_eq!(body_center(&pool, "EARTH BARYCENTER").unwrap(), SOLAR_SYSTEM_BARYCENTER);
    assert_eq!(body_center(&pool, "MARS BARYCENTER").unwrap(), SOLAR_SYSTEM_BARYCENTER);

    assert_eq!(body_center(&pool, "SUN").unwrap(), SOLAR_SYSTEM_BARYCENTER);

    assert_eq!(body_center(&pool, "399").unwrap(), EARTH_MOON_BARYCENTER);
    assert_eq!(body_center(&pool, "301").unwrap(), EARTH_MOON_BARYCENTER);

    assert!(body_center(&pool, "SOLAR SYSTEM BARYCENTER").is_err());
    assert!(body_center(&pool, "0").is_err());
}

#[test]
fn test_body_name_aliases() {
    let pool = KernelPool::new();

    assert_eq!(body_name_to_code(&pool, "LUNA").unwrap(), MOON);
    assert_eq!(body_name_to_code(&pool, "MOON").unwrap(), MOON);

    assert_eq!(
        body_name_to_code(&pool, "LUNA").unwrap(),
        body_name_to_code(&pool, "MOON").unwrap()
    );
}

#[test]
fn test_roundtrip_conversion() {
    let pool = KernelPool::new();
    let bodies = ["EARTH", "MARS", "MOON", "SUN", "JUPITER", "IO", "TITAN"];

    for &body in &bodies {
        let code = body_name_to_code(&pool, body).unwrap();
        let name_back = body_code_to_name(&pool, code).unwrap();

        assert!(body_name_to_code(&pool, &name_back).is_ok());
    }
}

#[test]
fn test_body_data_items() {
    let pool = KernelPool::new();

    let earth_radii = body_data(&pool, "EARTH", "RADII").unwrap();
    assert_eq!(earth_radii.len(), 3);
    let r = floats(&earth_radii);
    assert!((r[0] - 6378.1366).abs() < 1e-4);
    assert!((r[2] - 6356.7519).abs() < 1e-4);

    let earth_gm = body_data(&pool, "EARTH", "GM").unwrap();
    assert_eq!(earth_gm.len(), 1);
    assert!((floats(&earth_gm)[0] - 3.9860043543609598e5).abs() < 1e-6);

    let moon_radii = body_data(&pool, "MOON", "RADII").unwrap();
    assert!((floats(&moon_radii)[0] - 1737.4).abs() < 0.1);

    // numeric codes and case-insensitive items work the same
    let by_id = body_data(&pool, "399", "RADII").unwrap();
    assert_eq!(by_id, earth_radii);
    let lower = body_data(&pool, "earth", "radii").unwrap();
    assert_eq!(lower, earth_radii);

    assert!(body_data(&pool, "INVALID_BODY", "RADII").is_err());
    assert!(body_data(&pool, "EARTH", "INVALID_ITEM").is_err());
}

#[test]
fn test_pool_defined_aliases() {
    let mut pool = KernelPool::new();
    pool.put_integer("NAIF_BODY_NAME_VOYAGER", vec![-31]).unwrap();
    pool.put_character("NAIF_BODY_CODE_-31", vec!["VOYAGER".to_string()]).unwrap();
    pool.put_integer("BODY-31_CENTER", vec![10]).unwrap();

    assert_eq!(body_name_to_code(&pool, "Voyager").unwrap(), -31);
    assert_eq!(body_code_to_name(&pool, -31).unwrap(), "VOYAGER");
    assert!(body_found(&pool, "VOYAGER"));
    assert_eq!(body_center(&pool, "-31").unwrap(), 10);
}
