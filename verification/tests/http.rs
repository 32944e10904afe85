use workbench::http::{decimal_string, response, route, starts_with};

#[test]
fn front_page_request_is_served() {
    let mut request = [0u8; 1024];
    let line = b"GET / HTTP/1.1\r\nHost: localhost\r\n\r\n";
    request[..line.len()].copy_from_slice(line);
    assert_eq!(("HTTP/1.1 200 OK", "hello.html"), route(&request));
}

#[test]
fn other_requests_are_not_found() {
    let mut request = [0u8; 1024];
    let line = b"GET /other HTTP/1.1\r\n";
    request[..line.len()].copy_from_slice(line);
    assert_eq!(("HTTP/1.1 404 NOT FOUND", "404.html"), route(&request));
    assert_eq!(("HTTP/1.1 404 NOT FOUND", "404.html"), route(b"GET / HTTP/1.1\r"));
    assert_eq!(("HTTP/1.1 404 NOT FOUND", "404.html"), route(b""));
    assert_eq!(("HTTP/1.1 404 NOT FOUND", "404.html"), route(b"get / http/1.1\r\n"));
}

#[test]
fn exact_request_line_is_enough() {
    assert_eq!(("HTTP/1.1 200 OK", "hello.html"), route(b"GET / HTTP/1.1\r\n"));
}

#[test]
fn response_frames_the_body() {
    assert_eq!(
        "HTTP/1.1 200 OK\r\nContent-Length: 5\r\n\r\nhello",
        response("HTTP/1.1 200 OK", "hello")
    );
    assert_eq!(
        "HTTP/1.1 404 NOT FOUND\r\nContent-Length: 0\r\n\r\n",
        response("HTTP/1.1 404 NOT FOUND", "")
    );
}

#[test]
fn response_counts_bytes_not_characters() {
    let body = "grüße";
    assert_eq!(
        format!("HTTP/1.1 200 OK\r\nContent-Length: 7\r\n\r\n{}", body),
        response("HTTP/1.1 200 OK", body)
    );
    let long = "x".repeat(1234);
    assert_eq!(
        format!("S\r\nContent-Length: 1234\r\n\r\n{}", long),
        response("S", &long)
    );
}

#[test]
fn decimal_string_writes_numbers() {
    assert_eq!("0", decimal_string(0));
    assert_eq!("7", decimal_string(7));
    assert_eq!("10", decimal_string(10));
    assert_eq!("4096", decimal_string(4096));
    assert_eq!(format!("{}", usize::MAX), decimal_string(usize::MAX));
}

#[test]
fn starts_with_compares_the_first_bytes() {
    assert!(starts_with(b"abcdef", b"abc"));
    assert!(starts_with(b"abc", b"abc"));
    assert!(starts_with(b"abc", b""));
    assert!(!starts_with(b"ab", b"abc"));
    assert!(!starts_with(b"abd", b"abc"));
}
