use load_balancer::backend::{count_factors, is_health_request, parse_path_number};

#[test]
fn factors_of_zero() {
    assert_eq!(count_factors(0), 0);
}

#[test]
fn factors_of_small_numbers() {
    assert_eq!(count_factors(1), 1);
    assert_eq!(count_factors(12), 6);
    assert_eq!(count_factors(13), 2);
    assert_eq!(count_factors(36), 9);
    assert_eq!(count_factors(100), 9);
}


#[test]
fn health_request_line() {
    assert!(is_health_request(b"GET /health HTTP/1.1"));
    assert!(!is_health_request(b"GET /healthz HTTP/1.1"));
    assert!(!is_health_request(b"GET /health"));
    assert!(!is_health_request(b""));
}

#[test]
fn path_numbers() {
    assert_eq!(parse_path_number(b"/42"), 42);
    assert_eq!(parse_path_number(b"///7"), 7);
    assert_eq!(parse_path_number(b"/+9"), 9);
    assert_eq!(parse_path_number(b"18446744073709551615"), u64::MAX);
    assert_eq!(parse_path_number(b"/18446744073709551616"), 1);
    assert_eq!(parse_path_number(b"/"), 1);
    assert_eq!(parse_path_number(b"/+"), 1);
    assert_eq!(parse_path_number(b"/12a"), 1);
    assert_eq!(parse_path_number(b"/-3"), 1);
    assert_eq!(parse_path_number(b"/0"), 0);
}
