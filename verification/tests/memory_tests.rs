use slapaman::memory::{memory_value_coerced, parse_mem};
use slapaman::runtime_quiet_coerced;

#[test]
fn bare_numbers_are_mebibytes() {
    assert_eq!(parse_mem("2048").unwrap(), 2048);
    assert_eq!(parse_mem("1").unwrap(), 1);
}

#[test]
fn m_suffix_is_mebibytes_and_g_is_gibibytes() {
    assert_eq!(parse_mem("512m").unwrap(), 512);
    assert_eq!(parse_mem("512M").unwrap(), 512);
    assert_eq!(parse_mem("2g").unwrap(), 2048);
    assert_eq!(parse_mem("2G").unwrap(), 2048);
}

#[test]
fn malformed_values_are_rejected() {
    assert!(parse_mem("").is_err());
    assert!(parse_mem("g").is_err());
    assert!(parse_mem("1.5g").is_err());
    assert!(parse_mem("abc").is_err());
    assert!(parse_mem("-1").is_err());
}

#[test]
fn values_too_large_for_u32_are_rejected() {
    assert!(parse_mem("4294967295").is_ok());
    assert!(parse_mem("4294967296").is_err());
    assert_eq!(parse_mem("4194303g").unwrap(), 4194303 * 1024);
    assert!(parse_mem("4194304g").is_err());
}

#[test]
fn missing_memory_defaults_to_2048() {
    assert_eq!(memory_value_coerced(None), 2048);
    assert_eq!(memory_value_coerced(Some(512)), 512);
}

#[test]
fn quiet_defaults_to_false() {
    assert!(!runtime_quiet_coerced(None));
    assert!(!runtime_quiet_coerced(Some(false)));
    assert!(runtime_quiet_coerced(Some(true)));
}
