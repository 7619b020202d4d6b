use http_request::request::{HttpRequest, ParseError};

fn pairs(req: &HttpRequest) -> Vec<(&str, &str)> {
    req.headers().iter().map(|(k, v)| (k.as_str(), v.as_str())).collect()
}

fn error_of(input: &str) -> ParseError {
    match HttpRequest::parse(input) {
        Ok(req) => panic!("parsed: {:?}", req),
        Err(e) => e,
    }
}

/// The same grammar, written with the standard library's own splitting.
fn by_std(input: &str) -> Result<(String, String, String, Vec<(String, String)>), &'static str> {
    let mut lines = input.lines();
    let request_line = lines.next().ok_or("Empty request")?;
    let mut parts = request_line.split_whitespace();
    let method = parts.next().ok_or("No method")?.to_string();
    let path = parts.next().ok_or("No path")?.to_string();
    let version = parts.next().ok_or("No version")?.to_string();
    let mut headers = Vec::new();
    for line in lines {
        if line.is_empty() {
            break;
        }
        if let Some((key, value)) = line.split_once(':') {
            headers.push((key.trim().to_string(), value.trim().to_string()));
        }
    }
    Ok((method, path, version, headers))
}

fn same_as_std(input: &str) {
    match (HttpRequest::parse(input), by_std(input)) {
        (Ok(req), Ok((method, path, version, headers))) => {
            assert_eq!(req.method(), method, "{:?}", input);
            assert_eq!(req.path(), path, "{:?}", input);
            assert_eq!(req.version(), version, "{:?}", input);
            assert_eq!(req.headers(), &headers, "{:?}", input);
        }
        (Err(e), Err(words)) => assert_eq!(e.message(), words, "{:?}", input),
        (ours, theirs) => panic!("{:?}: {:?} against {:?}", input, ours, theirs),
    }
}

#[test]
fn parses_request_with_one_header() {
    let req = HttpRequest::parse("GET /foo HTTP/1.1\r\nHost: example.com\r\n\r\n").unwrap();
    assert_eq!(req.method(), "GET");
    assert_eq!(req.path(), "/foo");
    assert_eq!(req.version(), "HTTP/1.1");
    assert_eq!(pairs(&req), vec![("Host", "example.com")]);
}

#[test]
fn empty_input_is_empty() {
    assert_eq!(error_of(""), ParseError::Empty);
}

#[test]
fn two_tokens_miss_the_version() {
    assert_eq!(error_of("GET /only-two-tokens"), ParseError::MissingVersion);
}

#[test]
fn one_token_misses_the_path() {
    assert_eq!(error_of("GET"), ParseError::MissingPath);
    assert_eq!(error_of("GET  \r\nHost: a\r\n\r\n"), ParseError::MissingPath);
}

#[test]
fn blank_request_line_misses_the_method() {
    assert_eq!(error_of("\n"), ParseError::MissingMethod);
    assert_eq!(error_of("\r\n"), ParseError::MissingMethod);
    assert_eq!(error_of("   "), ParseError::MissingMethod);
    assert_eq!(error_of(" \t \r\nGET / HTTP/1.1\r\n"), ParseError::MissingMethod);
}

#[test]
fn tokens_of_the_second_line_do_not_count() {
    assert_eq!(error_of("GET /\nHTTP/1.1\n"), ParseError::MissingVersion);
}

#[test]
fn only_the_first_colon_splits() {
    let req = HttpRequest::parse("GET / HTTP/1.1\r\nX: : nested colon\r\n\r\n").unwrap();
    assert_eq!(pairs(&req), vec![("X", ": nested colon")]);
}

#[test]
fn header_with_empty_value() {
    let req = HttpRequest::parse("GET / HTTP/1.1\r\nX-Foo:\r\n\r\n").unwrap();
    assert_eq!(pairs(&req), vec![("X-Foo", "")]);
}

#[test]
fn header_with_empty_name() {
    let req = HttpRequest::parse("GET / HTTP/1.1\r\n: v\r\n\r\n").unwrap();
    assert_eq!(pairs(&req), vec![("", "v")]);
}

#[test]
fn extra_tokens_are_ignored() {
    let req = HttpRequest::parse("GET / HTTP/1.1 extra tokens here\r\n\r\n").unwrap();
    assert_eq!(req.method(), "GET");
    assert_eq!(req.path(), "/");
    assert_eq!(req.version(), "HTTP/1.1");
    assert!(req.headers().is_empty());
}

#[test]
fn headers_keep_order_and_duplicates() {
    let req = HttpRequest::parse(
        "POST /x HTTP/1.0\r\nB: 2\r\nA: 1\r\nB: 3\r\nA: 1\r\n\r\n",
    )
    .unwrap();
    assert_eq!(pairs(&req), vec![("B", "2"), ("A", "1"), ("B", "3"), ("A", "1")]);
}

#[test]
fn names_are_not_lower_cased_and_both_sides_are_trimmed() {
    let req = HttpRequest::parse("GET / HTTP/1.1\n  Content-TYPE \t:\t text/plain  \n\n").unwrap();
    assert_eq!(pairs(&req), vec![("Content-TYPE", "text/plain")]);
}

#[test]
fn line_without_colon_is_skipped() {
    let req = HttpRequest::parse("GET / HTTP/1.1\r\nA: 1\r\nno colon here\r\nB: 2\r\n").unwrap();
    assert_eq!(pairs(&req), vec![("A", "1"), ("B", "2")]);
}

#[test]
fn blank_line_ends_the_headers() {
    let req = HttpRequest::parse("GET / HTTP/1.1\r\nA: 1\r\n\r\nB: 2\r\nbody: text").unwrap();
    assert_eq!(pairs(&req), vec![("A", "1")]);
}

#[test]
fn bare_line_feeds_separate_lines() {
    let req = HttpRequest::parse("GET / HTTP/1.1\nA: 1\nB: 2\n\nC: 3").unwrap();
    assert_eq!(pairs(&req), vec![("A", "1"), ("B", "2")]);
}

#[test]
fn last_line_needs_no_terminator() {
    let req = HttpRequest::parse("GET / HTTP/1.1\r\nA: 1").unwrap();
    assert_eq!(pairs(&req), vec![("A", "1")]);
}

#[test]
fn lone_carriage_return_is_no_blank_line() {
    let req = HttpRequest::parse("GET / HTTP/1.1\nA: 1\n\r\r\nB:2\r\n").unwrap();
    assert_eq!(pairs(&req), vec![("A", "1"), ("B", "2")]);
}

#[test]
fn unicode_whitespace_separates_and_is_trimmed() {
    let req = HttpRequest::parse("GET\u{3000}/caf\u{e9}\u{a0}HTTP/1.1\nK\u{2003}:\u{2028}v\u{85}\n")
        .unwrap();
    assert_eq!(req.method(), "GET");
    assert_eq!(req.path(), "/caf\u{e9}");
    assert_eq!(req.version(), "HTTP/1.1");
    assert_eq!(pairs(&req), vec![("K", "v")]);
}

#[test]
fn agrees_with_the_standard_library() {
    let inputs = [
        "",
        "\n",
        "\r",
        "\r\n",
        "GET",
        "GET /",
        "GET / HTTP/1.1",
        "GET / HTTP/1.1\r",
        "GET / HTTP/1.1\r\n",
        " GET\t/\u{b}HTTP/1.1 \r\n\r\n",
        "GET / HTTP/1.1\r\r\nA:1\r\r\n\r\r\nB:2\n",
        "GET / HTTP/1.1\nA:1\n\r\nB:2\n",
        "GET / HTTP/1.1\n:\n::\n a : b : c \n\n",
        "GET / HTTP/1.1\nA\u{feff}: \u{200b}x\u{200a}\n",
        "G\u{0}T /\u{fffd} H\n\u{1680}K\u{1680}:\u{205f}V\u{202f}\n",
        "a b c\nX:1\nY\nZ:2\n\nW:3\n",
        "a b c\n\nX:1\n",
        "a\u{2029}b\u{2000}c d\nk:v\r",
    ];
    for input in inputs {
        same_as_std(input);
    }
}

#[test]
fn parse_errors_have_their_words() {
    assert_eq!(ParseError::Empty.message(), "Empty request");
    assert_eq!(ParseError::MissingMethod.message(), "No method");
    assert_eq!(ParseError::MissingPath.message(), "No path");
    assert_eq!(ParseError::MissingVersion.message(), "No version");
}
