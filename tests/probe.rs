use load_balancer::probe::{check_connection_health, contains_bytes};

#[test]
fn healthy_reply_passes() {
    assert!(check_connection_health(b"HTTP/1.1 200 OK\r\nContent-Type: text/plain\r\n\r\nOK"));
}

#[test]
fn empty_reply_fails() {
    assert!(!check_connection_health(b""));
}

#[test]
fn error_status_fails() {
    assert!(!check_connection_health(b"HTTP/1.1 500 Internal Server Error\r\n\r\nOK"));
}

#[test]
fn partial_status_fails() {
    assert!(!check_connection_health(b"HTTP/1.1 200 O"));
}

#[test]
fn marker_after_invalid_utf8_still_found() {
    assert!(check_connection_health(b"\xff\xfe200 OK"));
}

#[test]
fn substring_search() {
    assert!(contains_bytes(b"abcabd", b"abd"));
    assert!(!contains_bytes(b"abcab", b"abd"));
    assert!(contains_bytes(b"abc", b""));
    assert!(!contains_bytes(b"ab", b"abc"));
    assert!(contains_bytes(b"abc", b"abc"));
}
