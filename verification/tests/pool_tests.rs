//! Tests of the variable pool: put/get round trips, coercion, text-kernel
//! parsing, pattern matching, and deletion.

use rustspice::kernel_pool::{load_text_kernel, KernelPool, PoolDataType};

fn bits(xs: &[f64]) -> Vec<u64> {
    xs.iter().map(|x| x.to_bits()).collect()
}

fn floats(ws: &[u64]) -> Vec<f64> {
    ws.iter().map(|w| f64::from_bits(*w)).collect()
}

#[test]
fn test_character_pool_operations() {
    let mut pool = KernelPool::new();

    let values = vec!["HELLO".to_string(), "WORLD".to_string()];
    pool.put_character("TEST_CHAR", values.clone()).unwrap();

    let (retrieved, found) = pool.get_character("TEST_CHAR", 0, 10).unwrap();
    assert!(found);
    assert_eq!(retrieved, values);

    assert!(pool.contains_variable("TEST_CHAR"));

    let (found, size, data_type) = pool.describe_variable("TEST_CHAR").unwrap();
    assert!(found);
    assert_eq!(size, 2);
    assert_eq!(data_type, PoolDataType::Character);
}

#[test]
fn test_double_pool_operations() {
    let mut pool = KernelPool::new();

    let values = vec![1.0, 2.5, 3.14159];
    pool.put_double("TEST_DOUBLE", bits(&values)).unwrap();

    let (retrieved, found) = pool.get_double("TEST_DOUBLE", 0, 10).unwrap();
    assert!(found);
    assert_eq!(floats(&retrieved), values);

    let (partial, found) = pool.get_double("TEST_DOUBLE", 1, 1).unwrap();
    assert!(found);
    assert_eq!(floats(&partial), vec![2.5]);
}

#[test]
fn test_pool_roundtrip_and_missing() {
    // Round trip: stored doubles read back exactly; a missing name reads
    // as an empty list with found == false.
    let mut pool = KernelPool::new();
    pool.put_double("X", bits(&[1.0, 2.5, 3.14159])).unwrap();
    let (vals, found) = pool.get_double("X", 0, 10).unwrap();
    assert!(found);
    assert_eq!(floats(&vals), vec![1.0, 2.5, 3.14159]);

    let (missing, found) = pool.get_double("MISSING", 0, 10).unwrap();
    assert!(!found);
    assert!(missing.is_empty());
}

#[test]
fn test_integer_pool_operations() {
    let mut pool = KernelPool::new();

    let values = vec![1, 2, 3, 4, 5];
    pool.put_integer("TEST_INT", values.clone()).unwrap();

    let (retrieved, found) = pool.get_integer("TEST_INT", 0, 10).unwrap();
    assert!(found);
    assert_eq!(retrieved, values);
}

#[test]
fn test_numeric_coercion() {
    let mut pool = KernelPool::new();
    pool.put_integer("N", vec![-7, 42]).unwrap();
    let (as_doubles, found) = pool.get_double("N", 0, 10).unwrap();
    assert!(found);
    assert_eq!(floats(&as_doubles), vec![-7.0, 42.0]);

    pool.put_double("D", bits(&[2.9, -2.9, 1e12])).unwrap();
    let (as_ints, found) = pool.get_integer("D", 0, 10).unwrap();
    assert!(found);
    assert_eq!(as_ints, vec![2, -2, i32::MAX]);

    // character values never coerce to numeric
    pool.put_character("C", vec!["1.5".to_string()]).unwrap();
    assert!(pool.get_double("C", 0, 10).is_err());
    assert!(pool.get_integer("C", 0, 10).is_err());
}

#[test]
fn test_text_kernel_parsing() {
    let mut pool = KernelPool::new();

    let kernel_content = "\n\\begindata\n\nTEST_STRING = 'Hello World'\nTEST_ARRAY = ( 1.0, 2.0, 3.0 )\nTEST_CHARS = ( 'A', 'B', 'C' )\n\n\\begintext\n\nThis is a comment section.\n";

    load_text_kernel(&mut pool, kernel_content).unwrap();

    let (string_val, found) = pool.get_character("TEST_STRING", 0, 1).unwrap();
    assert!(found);
    assert_eq!(string_val, vec!["Hello World"]);

    let (double_val, found) = pool.get_double("TEST_ARRAY", 0, 10).unwrap();
    assert!(found);
    assert_eq!(floats(&double_val), vec![1.0, 2.0, 3.0]);

    let (char_val, found) = pool.get_character("TEST_CHARS", 0, 10).unwrap();
    assert!(found);
    assert_eq!(char_val, vec!["A", "B", "C"]);
}

#[test]
fn test_text_parsing_simple_data_section() {
    // A minimal data section assigns one list variable.
    let mut pool = KernelPool::new();
    load_text_kernel(&mut pool, "\\begindata\nFOO = ( 1.0, 2.0, 3.0 )\n\\begintext").unwrap();
    let (vals, found) = pool.get_double("FOO", 0, 10).unwrap();
    assert!(found);
    assert_eq!(floats(&vals), vec![1.0, 2.0, 3.0]);
}

#[test]
fn test_text_parsing_details() {
    let mut pool = KernelPool::new();
    let content = "\\begindata\nA = 32.184\nB = 1D3\nC = -2.5e-2\nLONG = ( 1, +\n2, 3 )\nBAD = oops\nGOOD = 7\n\\begintext\nIGNORED = 9\n";
    load_text_kernel(&mut pool, content).unwrap();

    let (a, found) = pool.get_double("A", 0, 1).unwrap();
    assert!(found);
    assert_eq!(floats(&a), vec![32.184]);

    // the alternate exponent letter is accepted
    let (b, _) = pool.get_double("B", 0, 1).unwrap();
    assert_eq!(floats(&b), vec![1000.0]);

    let (c, _) = pool.get_double("C", 0, 1).unwrap();
    assert_eq!(floats(&c), vec![-0.025]);

    // trailing '+' continues the logical line
    let (long, _) = pool.get_double("LONG", 0, 10).unwrap();
    assert_eq!(floats(&long), vec![1.0, 2.0, 3.0]);

    // a malformed assignment is skipped without aborting the rest
    let (_, bad_found) = pool.get_double("BAD", 0, 1).unwrap();
    assert!(!bad_found);
    let (good, good_found) = pool.get_double("GOOD", 0, 1).unwrap();
    assert!(good_found);
    assert_eq!(floats(&good), vec![7.0]);

    // assignments outside a data section are ignored
    assert!(!pool.contains_variable("IGNORED"));
}

#[test]
fn test_quoted_tokens_force_character_type() {
    let mut pool = KernelPool::new();
    load_text_kernel(&mut pool, "\\begindata\nMIXED = ( '1.0', 2.0 )\n\\begintext").unwrap();
    let (vals, found) = pool.get_character("MIXED", 0, 10).unwrap();
    assert!(found);
    assert_eq!(vals, vec!["1.0", "2.0"]);
}

#[test]
fn test_variable_name_patterns() {
    let mut pool = KernelPool::new();

    pool.put_double("BODY399_GM", vec![398600.4415f64.to_bits()]).unwrap();
    pool.put_double("BODY301_GM", vec![4902.8f64.to_bits()]).unwrap();
    pool.put_character("FRAME_NAME", vec!["J2000".to_string()]).unwrap();

    let names = pool.get_variable_names("BODY*").unwrap();
    assert!(names.contains(&"BODY399_GM".to_string()));
    assert!(names.contains(&"BODY301_GM".to_string()));
    assert!(!names.contains(&"FRAME_NAME".to_string()));
    // ascending order
    assert_eq!(names, vec!["BODY301_GM".to_string(), "BODY399_GM".to_string()]);

    let all_names = pool.get_variable_names("*").unwrap();
    assert_eq!(all_names.len(), 3);
    assert_eq!(
        all_names,
        vec!["BODY301_GM".to_string(), "BODY399_GM".to_string(), "FRAME_NAME".to_string()]
    );

    // a leading wildcard asks for a suffix match
    let suffixed = pool.get_variable_names("*_GM").unwrap();
    assert_eq!(suffixed, vec!["BODY301_GM".to_string(), "BODY399_GM".to_string()]);

    // exact (case-folded) match without a wildcard
    let exact = pool.get_variable_names("frame_name").unwrap();
    assert_eq!(exact, vec!["FRAME_NAME".to_string()]);
    assert!(pool.get_variable_names("FRAME").unwrap().is_empty());
}

#[test]
fn test_delete_variable() {
    let mut pool = KernelPool::new();

    pool.put_double("TO_DELETE", vec![1.0f64.to_bits()]).unwrap();
    assert!(pool.contains_variable("TO_DELETE"));

    let deleted = pool.delete_variable("TO_DELETE").unwrap();
    assert!(deleted);
    assert!(!pool.contains_variable("TO_DELETE"));

    let deleted = pool.delete_variable("NONEXISTENT").unwrap();
    assert!(!deleted);
}

#[test]
fn test_clear_pool() {
    let mut pool = KernelPool::new();

    pool.put_double("VAR1", vec![1.0f64.to_bits()]).unwrap();
    pool.put_character("VAR2", vec!["test".to_string()]).unwrap();

    let all_names = pool.get_variable_names("*").unwrap();
    assert_eq!(all_names.len(), 2);

    pool.clear();

    let all_names = pool.get_variable_names("*").unwrap();
    assert_eq!(all_names.len(), 0);
}

#[test]
fn test_name_validation_errors() {
    let mut pool = KernelPool::new();
    assert!(pool.put_double("", vec![0]).is_err());
    let long_name = "A".repeat(33);
    assert!(pool.put_double(&long_name, vec![0]).is_err());
    let ok_name = "A".repeat(32);
    assert!(pool.put_double(&ok_name, vec![0]).is_ok());
}
