use blitz::route::{route, starts_with, Route};

fn root_prefix() -> Vec<u8> {
    b"GET / HTTP/1.1\r\n".to_vec()
}

fn sleep_prefix() -> Vec<u8> {
    b"GET /sleep HTTP/1.1\r\n".to_vec()
}

#[test]
fn starts_with_empty_prefix_matches() {
    assert!(starts_with(&b"anything".to_vec(), &Vec::new()));
    assert!(starts_with(&Vec::new(), &Vec::new()));
}

#[test]
fn starts_with_longer_prefix_fails() {
    assert!(!starts_with(&b"GET".to_vec(), &root_prefix()));
}

#[test]
fn starts_with_detects_mismatch() {
    assert!(!starts_with(&b"POST / HTTP/1.1\r\n".to_vec(), &root_prefix()));
    assert!(starts_with(&b"GET / HTTP/1.1\r\nHost: x".to_vec(), &root_prefix()));
}

#[test]
fn route_chooses_index_for_root_request() {
    let buf = b"GET / HTTP/1.1\r\nHost: localhost\r\n\r\n".to_vec();
    assert_eq!(route(&buf, &root_prefix(), &sleep_prefix()), Route::Index);
}

#[test]
fn route_chooses_sleep_for_sleep_request() {
    let buf = b"GET /sleep HTTP/1.1\r\nHost: localhost\r\n\r\n".to_vec();
    assert_eq!(route(&buf, &root_prefix(), &sleep_prefix()), Route::SleepThenIndex);
}

#[test]
fn route_rejects_anything_else() {
    let buf = b"GET /missing HTTP/1.1\r\n".to_vec();
    assert_eq!(route(&buf, &root_prefix(), &sleep_prefix()), Route::NotFound);
    assert_eq!(route(&Vec::new(), &root_prefix(), &sleep_prefix()), Route::NotFound);
}
