use brute_dispatch::head::{merge, parse_decimal, Header};
use brute_dispatch::request::{materialize, MaterializeError};
use brute_dispatch::run::materialize_all;
use brute_dispatch::template::{complete_head, substitute_placeholder, RequestTemplate};

fn template(text: &str) -> RequestTemplate {
    RequestTemplate::new(text.as_bytes().to_vec())
}

fn header<'a>(headers: &'a [Header], name: &str) -> Option<&'a [u8]> {
    headers
        .iter()
        .find(|h| h.name == name.as_bytes())
        .map(|h| h.value.as_slice())
}

#[test]
fn bare_request_line_resolves_entry_path() {
    let t = template("GET /FUZZ HTTP/1.1");
    let c = materialize(&t, "admin", "http://example.com").unwrap();
    assert_eq!(c.method, "GET");
    assert_eq!(c.url, "http://example.com/admin");
    assert!(c.body.is_empty());
    assert_eq!(c.tag, "admin");
}

#[test]
fn content_length_bounds_body() {
    let t = template("POST /login HTTP/1.1\r\nContent-Length: 4\r\n\r\nabcdGARBAGE\r\n\r\n");
    let c = materialize(&t, "x", "http://example.com").unwrap();
    assert_eq!(c.body, b"abcd".to_vec());
    assert_eq!(c.url, "http://example.com/login");
}

#[test]
fn placeholder_replaced_in_headers_and_body() {
    let t = template(
        "POST /api/FUZZ HTTP/1.1\r\nX-Token: key-FUZZ\r\nContent-Length: 9\r\n\r\nuser=FUZZ;",
    );
    let c = materialize(&t, "bob", "http://example.com").unwrap();
    assert_eq!(c.url, "http://example.com/api/bob");
    assert_eq!(header(&c.headers, "x-token"), Some(&b"key-bob"[..]));
    assert_eq!(c.body, b"user=bob;".to_vec());
}

#[test]
fn body_after_substitution_counts_declared_bytes() {
    let t = template("POST / HTTP/1.1\r\nContent-Length: 8\r\n\r\nuser=FUZZ");
    let c = materialize(&t, "bob", "http://example.com").unwrap();
    assert_eq!(c.body, b"user=bob".to_vec());
}

#[test]
fn entry_holding_placeholder_is_not_substituted_again() {
    let out = substitute_placeholder(b"a FUZZ b FUZZ", b"FUZZFUZZ");
    assert_eq!(out, b"a FUZZFUZZ b FUZZFUZZ".to_vec());
    let none = substitute_placeholder(b"FUZ FUZ", b"x");
    assert_eq!(none, b"FUZ FUZ".to_vec());
    assert_eq!(substitute_placeholder(b"FUZZ", b""), Vec::<u8>::new());
}

#[test]
fn missing_content_length_takes_remainder() {
    let t = template("PUT /f HTTP/1.1\r\nHost: h\r\n\r\nrest of it");
    let c = materialize(&t, "e", "http://example.com").unwrap();
    assert_eq!(c.body, b"rest of it".to_vec());
    assert_eq!(c.method, "PUT");
}

#[test]
fn duplicate_headers_last_wins_case_insensitively() {
    let t = template("GET / HTTP/1.1\r\nX-A: 1\r\nHost: h\r\nx-a: 2\r\n\r\n");
    let c = materialize(&t, "e", "http://example.com").unwrap();
    assert_eq!(c.headers.len(), 2);
    assert_eq!(c.headers[0].name, b"x-a".to_vec());
    assert_eq!(c.headers[0].value, b"2".to_vec());
    assert_eq!(c.headers[1].name, b"host".to_vec());
    assert_eq!(c.headers[1].value, b"h".to_vec());
}

#[test]
fn merge_keeps_first_position() {
    let hs = vec![
        Header { name: b"B".to_vec(), value: b"1".to_vec() },
        Header { name: b"a".to_vec(), value: b"2".to_vec() },
        Header { name: b"b".to_vec(), value: b"3".to_vec() },
    ];
    let m = merge(&hs);
    assert_eq!(m.len(), 2);
    assert_eq!(m[0].name, b"b".to_vec());
    assert_eq!(m[0].value, b"3".to_vec());
    assert_eq!(m[1].name, b"a".to_vec());
}

#[test]
fn malformed_head_is_rejected() {
    let t = template("GET /FUZZ\r\nBad Header Line\r\n\r\n");
    let r = materialize(&t, "x", "http://example.com");
    assert_eq!(r.err(), Some(MaterializeError::MalformedHead));
}

#[test]
fn invalid_content_length_is_rejected() {
    let t = template("POST / HTTP/1.1\r\nContent-Length: four\r\n\r\nabcd");
    let r = materialize(&t, "x", "http://example.com");
    assert_eq!(r.err(), Some(MaterializeError::InvalidContentLength));
}

#[test]
fn short_body_is_rejected() {
    let t = template("POST / HTTP/1.1\r\nContent-Length: 10\r\n\r\nabcd");
    let r = materialize(&t, "x", "http://example.com");
    assert_eq!(r.err(), Some(MaterializeError::TruncatedBody));
}

#[test]
fn unparsable_base_is_rejected() {
    let t = template("GET /FUZZ HTTP/1.1\r\n\r\n");
    let r = materialize(&t, "x", "not a url");
    assert_eq!(r.err(), Some(MaterializeError::UnresolvableUrl));
}

#[test]
fn relative_target_joins_under_base_directory() {
    let t = template("GET FUZZ HTTP/1.1\r\n\r\n");
    let c = materialize(&t, "login", "https://example.com/app/index").unwrap();
    assert_eq!(c.url, "https://example.com/app/login");
}

#[test]
fn materialize_all_keeps_wordlist_order() {
    let t = template("GET /FUZZ HTTP/1.1\r\n\r\n");
    let entries = vec!["a".to_string(), "".to_string(), "a".to_string(), "c%20d".to_string()];
    let all = materialize_all(&t, &entries, "http://h").unwrap();
    let tags: Vec<&str> = all.iter().map(|c| c.tag.as_str()).collect();
    assert_eq!(tags, vec!["a", "", "a", "c%20d"]);
    assert_eq!(all[1].url, "http://h/");
}

#[test]
fn materialize_all_reports_first_failing_entry() {
    let t = template("GET /FUZZ HTTP/1.1\r\n\r\n");
    let entries = vec!["ok".to_string(), "bad path".to_string(), "also bad".to_string()];
    let r = materialize_all(&t, &entries, "http://h");
    assert_eq!(r.err(), Some((1, MaterializeError::MalformedHead)));
}

#[test]
fn head_completion() {
    assert_eq!(complete_head(b"GET / HTTP/1.1".to_vec()), b"GET / HTTP/1.1\r\n\r\n".to_vec());
    assert_eq!(complete_head(b"GET / HTTP/1.1\n".to_vec()), b"GET / HTTP/1.1\r\n\r\n".to_vec());
    assert_eq!(
        complete_head(b"GET / HTTP/1.1\r\nA: b\r\n".to_vec()),
        b"GET / HTTP/1.1\r\nA: b\r\n\r\n".to_vec()
    );
    assert_eq!(complete_head(b"GET / HTTP/1.1\n\nx".to_vec()), b"GET / HTTP/1.1\n\nx".to_vec());
}

#[test]
fn decimal_parsing() {
    assert_eq!(parse_decimal(b"0"), Some(0));
    assert_eq!(parse_decimal(b"1234"), Some(1234));
    assert_eq!(parse_decimal(b""), None);
    assert_eq!(parse_decimal(b"12a"), None);
    assert_eq!(parse_decimal(b"-1"), None);
    assert_eq!(parse_decimal(b"99999999999999999999999"), None);
}
