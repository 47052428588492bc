use tinyproxy::error::ProxyError;
use tinyproxy::request::{find_host, is_host_header, parse_head, parse_text, Request};
use tinyproxy::text::Text;

fn text(s: &str) -> Text {
    Text::from_string(s.to_string())
}

fn request(line: &str, method: &str, target: &str, host: Option<&str>) -> Request {
    Request {
        line: line.to_string(),
        method: method.to_string(),
        target: target.to_string(),
        host: host.map(|h| h.to_string()),
    }
}

#[test]
fn head_with_absolute_url_is_parsed() {
    let parsed = parse_head(b"GET http://example.com/page HTTP/1.1\r\nHost: example.com");
    assert_eq!(
        parsed,
        Ok(request(
            "GET http://example.com/page HTTP/1.1",
            "GET",
            "http://example.com/page",
            Some("example.com"),
        ))
    );
}

#[test]
fn head_of_a_connect_is_parsed() {
    let parsed = parse_head(b"CONNECT example.com:443 HTTP/1.1");
    assert_eq!(
        parsed,
        Ok(request("CONNECT example.com:443 HTTP/1.1", "CONNECT", "example.com:443", None))
    );
}

#[test]
fn head_without_version_is_parsed() {
    let parsed = parse_head(b"GET /");
    assert_eq!(parsed, Ok(request("GET /", "GET", "/", None)));
}

#[test]
fn empty_head_has_no_request_line() {
    assert_eq!(parse_head(b""), Err(ProxyError::MissingRequestLine));
    assert_eq!(parse_text(&text("")), Err(ProxyError::MissingRequestLine));
}

#[test]
fn blank_request_line_has_no_method() {
    assert_eq!(parse_head(b"   "), Err(ProxyError::MissingMethod));
    assert_eq!(parse_head(b"\r\nGET / HTTP/1.1"), Err(ProxyError::MissingMethod));
    assert_eq!(parse_head(b"\n"), Err(ProxyError::MissingMethod));
    assert_eq!(parse_head(b" \t \r\nHost: a"), Err(ProxyError::MissingMethod));
}

#[test]
fn request_line_of_one_word_has_no_target() {
    assert_eq!(parse_head(b"GET"), Err(ProxyError::MissingTarget));
    assert_eq!(parse_head(b"  GET  \t"), Err(ProxyError::MissingTarget));
    assert_eq!(parse_head(b"GET\r\n/ HTTP/1.1"), Err(ProxyError::MissingTarget));
}

#[test]
fn words_are_split_as_std_splits_on_whitespace() {
    let lines = [
        "GET / HTTP/1.1",
        "  GET\t\t/index.html   HTTP/1.0  ",
        "GET\u{a0}/nbsp HTTP/1.1",
        "POST\u{3000}/wide\u{2003}x",
        "a b",
        "OPTIONS * HTTP/1.1\r",
        "GET\x0b/vt\x0cff",
    ];
    for line in lines {
        let mut words = line.split_whitespace();
        let method = words.next().unwrap();
        let target = words.next().unwrap();
        let parsed = parse_text(&text(line)).unwrap();
        assert_eq!(parsed.method, method, "{:?}", line);
        assert_eq!(parsed.target, target, "{:?}", line);
        assert_eq!(parsed.line, line);
    }
}

#[test]
fn bytes_that_are_no_utf8_are_replaced_in_the_head() {
    let parsed = parse_head(b"GET /\xff\xfe HTTP/1.1\r\nHost: ex\xc3.com").unwrap();
    assert_eq!(parsed.method, "GET");
    assert_eq!(parsed.target, "/\u{fffd}\u{fffd}");
    assert_eq!(parsed.host, Some("ex\u{fffd}.com".to_string()));
}

#[test]
fn host_header_is_found_among_the_header_lines() {
    let parsed = parse_head(
        b"GET /page HTTP/1.1\r\nAccept: */*\r\nHost: example.com:8080\r\nUser-Agent: x",
    )
    .unwrap();
    assert_eq!(parsed.host, Some("example.com:8080".to_string()));
    assert_eq!(parsed.target, "/page");
}

#[test]
fn host_header_value_loses_the_white_space_around_it() {
    assert_eq!(parse_head(b"GET / H\r\nHost:example.com").unwrap().host.unwrap(), "example.com");
    assert_eq!(
        parse_head(b"GET / H\r\nHost: \t example.com \t ").unwrap().host.unwrap(),
        "example.com"
    );
    assert_eq!(parse_head(b"GET / H\r\nHost: a b ").unwrap().host.unwrap(), "a b");
    assert_eq!(parse_head(b"GET / H\nHost: example.com\r").unwrap().host.unwrap(), "example.com");
}

#[test]
fn host_header_without_value_is_found_empty() {
    assert_eq!(parse_head(b"GET / H\r\nHost:").unwrap().host, Some(String::new()));
    assert_eq!(parse_head(b"GET / H\r\nHost:   \r\nHost: later").unwrap().host, Some(String::new()));
}

#[test]
fn host_header_key_is_matched_exactly() {
    assert_eq!(parse_head(b"GET / H\r\nhost: example.com").unwrap().host, None);
    assert_eq!(parse_head(b"GET / H\r\nHOST: example.com").unwrap().host, None);
    assert_eq!(parse_head(b"GET / H\r\n Host: example.com").unwrap().host, None);
    assert_eq!(parse_head(b"GET / H\r\nHost : example.com").unwrap().host, None);
    assert_eq!(parse_head(b"GET / H\r\nHosts: example.com").unwrap().host, None);
    assert_eq!(parse_head(b"GET / H\r\nX-Host: example.com").unwrap().host, None);
    assert_eq!(parse_head(b"GET / H\r\nHost example.com").unwrap().host, None);
    assert_eq!(parse_head(b"GET / H\r\nHost").unwrap().host, None);
}

#[test]
fn first_host_header_wins() {
    let parsed = parse_head(b"GET / H\r\nHost: first\r\nHost: second").unwrap();
    assert_eq!(parsed.host, Some("first".to_string()));
}

#[test]
fn request_line_is_no_header() {
    let parsed = parse_head(b"Host: example.com").unwrap();
    assert_eq!(parsed.method, "Host:");
    assert_eq!(parsed.target, "example.com");
    assert_eq!(parsed.host, None);
}

#[test]
fn is_host_header_tells_the_host_line() {
    assert!(is_host_header(&text("Host: example.com")));
    assert!(is_host_header(&text("Host:")));
    assert!(is_host_header(&text("Host::")));
    assert!(!is_host_header(&text("Host")));
    assert!(!is_host_header(&text("host: example.com")));
    assert!(!is_host_header(&text("Hos:t")));
    assert!(!is_host_header(&text("")));
    assert!(!is_host_header(&text(":Host")));
}

#[test]
fn find_host_skips_the_first_line() {
    let lines = vec![text("Host: zero"), text("Other: x"), text("Host: two")];
    assert_eq!(find_host(&lines), Some("two".to_string()));
    assert_eq!(find_host(&vec![text("Host: zero")]), None);
    assert_eq!(find_host(&Vec::new()), None);
}
