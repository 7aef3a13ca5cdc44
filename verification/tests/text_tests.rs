use xfdr::fbits::{f32_lt, f64_bits_of_i32, f64_lt, f64_max, f64_min, widen_f32_bits};
use xfdr::text::{
    indexed_name, level_name_of, sanitize_error_message, type_name_of, u64_to_dec, SecurityError,
    MAX_FILE_SIZE,
};

#[test]
fn test_sanitize_error_message() {
    let error = "/home/user/secret/path/to/file.xdr: Permission denied";
    let sanitized = sanitize_error_message(error);
    assert!(!sanitized.contains("/home/user/secret"));
}

#[test]
fn test_sanitize_keeps_final_segment() {
    assert_eq!(
        sanitize_error_message("/a/b/c/file.xdr: oops"),
        "file.xdr: oops"
    );
    assert_eq!(
        sanitize_error_message("C:\\data\\flight.xdr missing"),
        "flight.xdr missing"
    );
    assert_eq!(sanitize_error_message("plain message"), "plain message");
    assert_eq!(sanitize_error_message("trailing/"), "");
    assert_eq!(sanitize_error_message(""), "");
}

#[test]
fn test_sanitize_caps_length() {
    let long = "x".repeat(250);
    let sanitized = sanitize_error_message(&long);
    assert_eq!(sanitized.len(), 203);
    assert!(sanitized.ends_with("..."));
    assert!(sanitized.starts_with("xxx"));
    let exactly = "y".repeat(200);
    assert_eq!(sanitize_error_message(&exactly), exactly);
}

#[test]
fn test_sanitize_caps_at_byte_boundary() {
    // Two-byte characters: the cap counts encoded bytes and lands on a
    // character boundary at or below 200 of them.
    let long = "\u{e9}".repeat(150); // 300 bytes, 150 characters
    let sanitized = sanitize_error_message(&long);
    assert_eq!(sanitized, format!("{}...", "\u{e9}".repeat(100))); // 200 bytes kept
    // A mix where byte 200 falls inside a character: the cut backs up to
    // the boundary at 199 bytes.
    let mixed = format!("{}a{}", "\u{e9}".repeat(99), "\u{e9}".repeat(50)); // 198 + 1 + 100 bytes
    let sanitized2 = sanitize_error_message(&mixed);
    assert_eq!(sanitized2, format!("{}a...", "\u{e9}".repeat(99)));
    // At most 200 bytes pass through untouched.
    let fits = format!("{}aa", "\u{e9}".repeat(99)); // exactly 200 bytes
    assert_eq!(sanitize_error_message(&fits), fits);
}

#[test]
fn test_u64_to_dec() {
    assert_eq!(u64_to_dec(0), "0");
    assert_eq!(u64_to_dec(7), "7");
    assert_eq!(u64_to_dec(10), "10");
    assert_eq!(u64_to_dec(524288000), "524288000");
    assert_eq!(u64_to_dec(u64::MAX), "18446744073709551615");
}

#[test]
fn test_indexed_name() {
    assert_eq!(indexed_name(&"EGT".to_string(), 0), "EGT[0]");
    assert_eq!(indexed_name(&"fuel".to_string(), 12), "fuel[12]");
}

#[test]
fn test_level_and_type_names() {
    assert_eq!(level_name_of(1), "Simple");
    assert_eq!(level_name_of(2), "Normal");
    assert_eq!(level_name_of(3), "Detailed");
    assert_eq!(level_name_of(0), "Unknown");
    assert_eq!(level_name_of(200), "Unknown");
    assert_eq!(type_name_of(0), "float");
    assert_eq!(type_name_of(1), "int");
    assert_eq!(type_name_of(2), "string");
    assert_eq!(type_name_of(3), "unknown");
}

#[test]
fn test_security_error_messages() {
    assert_eq!(
        SecurityError::InvalidPath("empty".to_string()).message(),
        "Invalid path: empty"
    );
    assert_eq!(
        SecurityError::PathTraversal("dots".to_string()).message(),
        "Path traversal detected: dots"
    );
    assert_eq!(
        SecurityError::FileTooBig(600_000_000).message(),
        "File too large: 600000000 bytes (max: 524288000 bytes)"
    );
    assert_eq!(MAX_FILE_SIZE, 524288000);
    assert_eq!(
        SecurityError::FileNotFound("gone.xdr".to_string()).message(),
        "File not found: gone.xdr"
    );
    assert_eq!(
        SecurityError::InvalidExtension("got .txt".to_string()).message(),
        "Invalid file extension: got .txt"
    );
    assert_eq!(
        SecurityError::PermissionDenied("no".to_string()).message(),
        "Permission denied: no"
    );
}

#[test]
fn test_widen_matches_hardware_cast() {
    let samples: Vec<f32> = vec![
        0.0,
        -0.0,
        1.0,
        -1.5,
        10.0,
        f32::MAX,
        f32::MIN_POSITIVE,
        1.0e-40, // subnormal
        -1.0e-42,
        f32::INFINITY,
        f32::NEG_INFINITY,
        3.1415927,
        -123.75,
    ];
    for v in samples {
        assert_eq!(
            widen_f32_bits(v.to_bits()),
            (v as f64).to_bits(),
            "widening {v}"
        );
    }
    assert!(f64::from_bits(widen_f32_bits(f32::NAN.to_bits())).is_nan());
}

#[test]
fn test_i32_widening_matches_hardware_cast() {
    for v in [0i32, 1, -1, 42, -42, i32::MAX, i32::MIN, 7_654_321] {
        assert_eq!(f64_bits_of_i32(v), (v as f64).to_bits(), "converting {v}");
    }
}

#[test]
fn test_bitwise_comparisons_match_ieee() {
    let pairs: Vec<(f64, f64)> = vec![
        (1.0, 2.0),
        (2.0, 1.0),
        (-1.0, 1.0),
        (-2.0, -1.0),
        (0.0, -0.0),
        (f64::NAN, 1.0),
        (1.0, f64::NAN),
        (f64::NEG_INFINITY, f64::MIN),
    ];
    for (a, b) in pairs {
        assert_eq!(f64_lt(a.to_bits(), b.to_bits()), a < b, "{a} < {b}");
    }
    assert_eq!(f32_lt(1.5f32.to_bits(), 2.5f32.to_bits()), true);
    assert_eq!(f32_lt(f32::NAN.to_bits(), 2.5f32.to_bits()), false);
}

#[test]
fn test_min_max_match_std() {
    let pairs: Vec<(f64, f64)> = vec![(1.0, 2.0), (-3.0, 2.0), (f64::NAN, 2.0), (2.0, f64::NAN)];
    for (a, b) in pairs {
        assert_eq!(f64::from_bits(f64_max(a.to_bits(), b.to_bits())), a.max(b));
        assert_eq!(f64::from_bits(f64_min(a.to_bits(), b.to_bits())), a.min(b));
    }
}
