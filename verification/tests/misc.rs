use zyrkom::fields::m31::BaseField;
use zyrkom::fields::qm31::{SecureField, SECURE_EXTENSION_DEGREE};
use zyrkom::math::{gcd, simplify_ratio};
use zyrkom::zk::config::{build_info, version};

#[test]
fn test_base_field_size_estimate() {
    assert_eq!(BaseField::one().size_estimate(), 4);
}

#[test]
fn test_secure_field_size_estimate() {
    assert_eq!(
        SecureField::one().size_estimate(),
        4 * SECURE_EXTENSION_DEGREE
    );
}

#[test]
fn test_version_info() {
    assert!(!version().is_empty());
    assert!(build_info().contains("Zyrkom"));
}

#[test]
fn test_math_utilities() {
    // Test GCD
    assert_eq!(gcd(12, 8), 4);
    assert_eq!(gcd(3, 2), 1);
    assert_eq!(gcd(15, 5), 5);

    // Test ratio simplification
    assert_eq!(simplify_ratio(6, 4), (3, 2)); // Perfect fifth
    assert_eq!(simplify_ratio(5, 4), (5, 4)); // Major third (already simplified)
    assert_eq!(simplify_ratio(12, 8), (3, 2)); // Perfect fifth again
}
