use http_request::response::{plain_response, push_decimal, response};

#[test]
fn response_is_the_fixed_text() {
    let expected =
        "HTTP/1.0 200 OK\r\nContent-Type: text/plain\r\nContent-Length: 13\r\n\r\nHello, World!";
    assert_eq!(response(), expected);
    assert_eq!(response(), plain_response("Hello, World!"));
    assert!(response().ends_with("\r\n\r\nHello, World!"));
    assert_eq!("Hello, World!".len(), 13);
}

#[test]
fn plain_response_declares_the_length_in_bytes() {
    assert_eq!(
        plain_response(""),
        "HTTP/1.0 200 OK\r\nContent-Type: text/plain\r\nContent-Length: 0\r\n\r\n"
    );
    assert_eq!(
        plain_response("h\u{e9}llo"),
        "HTTP/1.0 200 OK\r\nContent-Type: text/plain\r\nContent-Length: 6\r\n\r\nh\u{e9}llo"
    );
    let long = "x".repeat(1205);
    assert_eq!(
        plain_response(&long),
        format!(
            "HTTP/1.0 200 OK\r\nContent-Type: text/plain\r\nContent-Length: 1205\r\n\r\n{}",
            long
        )
    );
}

#[test]
fn push_decimal_writes_decimal_digits() {
    for n in [0usize, 7, 9, 10, 13, 99, 100, 101, 1024, 90210, usize::MAX] {
        let mut out = String::from("n=");
        push_decimal(&mut out, n);
        assert_eq!(out, format!("n={}", n));
    }
}
