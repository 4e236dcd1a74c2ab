use wgi::cgi::{CgiError, CgiResponse};
use wgi::cgi_env::{cgi_header_var, cgi_vars, server_protocol, to_cgi_http_header, HttpVersion};
use wgi::dispatch::{iter_path_splits, Dispatch};

fn pairs(v: &[(&str, &str)]) -> Vec<(Vec<u8>, Vec<u8>)> {
    v.iter().map(|(a, b)| (a.as_bytes().to_vec(), b.as_bytes().to_vec())).collect()
}

fn lookup<'a>(vars: &'a [(Vec<u8>, Vec<u8>)], name: &str) -> Option<&'a [u8]> {
    vars.iter().find(|(k, _)| k == name.as_bytes()).map(|(_, v)| v.as_slice())
}

#[test]
fn splits_at_every_slash_then_whole_path() {
    let splits = iter_path_splits(b"/a/b/extra");
    assert_eq!(
        splits,
        pairs(&[("a", "/b/extra"), ("a/b", "/extra"), ("a/b/extra", "")])
    );
}

#[test]
fn path_without_slash_is_one_split() {
    assert_eq!(iter_path_splits(b"/echo"), pairs(&[("echo", "")]));
    assert_eq!(iter_path_splits(b"echo"), pairs(&[("echo", "")]));
}

#[test]
fn empty_path_is_one_empty_split() {
    assert_eq!(iter_path_splits(b""), pairs(&[("", "")]));
    assert_eq!(iter_path_splits(b"/"), pairs(&[("", "")]));
}

#[test]
fn dispatcher_falls_through_to_the_file() {
    // Only `a/b` exists: `a` fails to open, `a/b` opens.
    let mut d = Dispatch::new(b"/a/b/extra");
    assert_eq!(d.candidate(), Some(b"a".to_vec()));
    d.reject();
    assert_eq!(d.candidate(), Some(b"a/b".to_vec()));
    let m = d.accept();
    assert_eq!(m.script_name, b"/a/b".to_vec());
    assert_eq!(m.path_info, b"/extra".to_vec());

    let vars = cgi_vars(b"GET", HttpVersion::Http11, None, Some(&m), b"/srv", &Vec::new());
    assert_eq!(lookup(&vars, "SCRIPT_NAME"), Some(&b"/a/b"[..]));
    assert_eq!(lookup(&vars, "PATH_INFO"), Some(&b"/extra"[..]));
    assert_eq!(lookup(&vars, "PATH_TRANSLATED"), Some(&b"/srv/extra"[..]));
}

#[test]
fn dispatcher_runs_out_of_candidates() {
    let mut d = Dispatch::new(b"/x/y");
    d.reject();
    d.reject();
    assert_eq!(d.candidate(), None);
}

#[test]
fn cgi_echo_response_and_environment() {
    let r = CgiResponse::parse("Content-Type: text/plain\n\nhello").unwrap();
    assert_eq!(r.status, 200);
    assert_eq!(r.headers, pairs(&[("content-type", "text/plain")]));
    assert_eq!(r.body, b"hello".to_vec());

    let mut d = Dispatch::new(b"/echo");
    let m = d.accept();
    let headers = pairs(&[("content-length", "2")]);
    let vars = cgi_vars(b"POST", HttpVersion::Http11, None, Some(&m), b"/srv", &headers);
    assert_eq!(lookup(&vars, "REQUEST_METHOD"), Some(&b"POST"[..]));
    assert_eq!(lookup(&vars, "CONTENT_LENGTH"), Some(&b"2"[..]));
    assert_eq!(lookup(&vars, "SCRIPT_NAME"), Some(&b"/echo"[..]));
    assert_eq!(lookup(&vars, "PATH_INFO"), None);
    assert_eq!(lookup(&vars, "HTTP_CONTENT_LENGTH"), None);
}

#[test]
fn cgi_fixed_variables_in_order() {
    let vars = cgi_vars(b"GET", HttpVersion::Http10, Some(b"a=1"), None, b"/srv", &Vec::new());
    assert_eq!(
        vars,
        pairs(&[
            ("GATEWAY_INTERFACE", "CGI/1.1"),
            ("SERVER_SOFTWARE", "wgi"),
            ("SERVER_NAME", "127.0.0.1"),
            ("SERVER_PORT", "9000"),
            ("SERVER_PROTOCOL", "HTTP/1.0"),
            ("REQUEST_METHOD", "GET"),
            ("QUERY_STRING", "a=1"),
        ])
    );
}

#[test]
fn cgi_status_redirect() {
    let r = CgiResponse::parse("Status: 301\nLocation: /new\n\n").unwrap();
    assert_eq!(r.status, 301);
    assert_eq!(r.headers, pairs(&[("location", "/new")]));
    assert!(r.body.is_empty());
}

#[test]
fn cgi_status_with_reason_phrase() {
    let r = CgiResponse::parse("Status: 418 I'm a teapot\n\nshort and stout").unwrap();
    assert_eq!(r.status, 418);
    assert!(r.headers.is_empty());
    assert_eq!(r.body, b"short and stout".to_vec());
}

#[test]
fn cgi_status_name_ignores_case() {
    let r = CgiResponse::parse("status: 404\n\n").unwrap();
    assert_eq!(r.status, 404);
    let r = CgiResponse::parse("STATUS: 500\r\n\n").unwrap();
    assert_eq!(r.status, 500);
}

#[test]
fn cgi_two_headers_and_body() {
    let r = CgiResponse::parse("K1: V1\nK2: V2\n\nBODY").unwrap();
    assert_eq!(r.status, 200);
    assert_eq!(r.headers, pairs(&[("k1", "V1"), ("k2", "V2")]));
    assert_eq!(r.body, b"BODY".to_vec());
}

#[test]
fn cgi_output_without_blank_line_is_body() {
    let r = CgiResponse::parse("Content-Type: text/plain\nhello").unwrap();
    assert_eq!(r.status, 200);
    assert!(r.headers.is_empty());
    assert_eq!(r.body, b"Content-Type: text/plain\nhello".to_vec());
}

#[test]
fn cgi_body_keeps_later_blank_lines() {
    let r = CgiResponse::parse("A: 1\n\nx\n\ny").unwrap();
    assert_eq!(r.body, b"x\n\ny".to_vec());
}

#[test]
fn cgi_empty_output() {
    let r = CgiResponse::parse("").unwrap();
    assert_eq!(r.status, 200);
    assert!(r.body.is_empty());
}

#[test]
fn cgi_repeated_header_keeps_last_value_in_place() {
    let r = CgiResponse::parse("X-A: 1\nX-B: 2\nx-a: 3\n\n").unwrap();
    assert_eq!(r.headers, pairs(&[("x-a", "3"), ("x-b", "2")]));
}

#[test]
fn cgi_line_without_colon_is_skipped() {
    let r = CgiResponse::parse("garbage\nA:    spaced\n\n").unwrap();
    assert_eq!(r.headers, pairs(&[("a", "spaced")]));
}

#[test]
fn cgi_malformed_status_fails() {
    assert_eq!(CgiResponse::parse("Status: abc\n\n").unwrap_err(), CgiError::InvalidStatus);
    assert_eq!(CgiResponse::parse("Status: 099\n\n").unwrap_err(), CgiError::InvalidStatus);
    assert_eq!(CgiResponse::parse("Status: 4040\n\n").unwrap_err(), CgiError::InvalidStatus);
}

#[test]
fn cgi_malformed_header_name_fails() {
    assert_eq!(
        CgiResponse::parse("Bad Name: x\n\nbody").unwrap_err(),
        CgiError::InvalidHeaderName
    );
    assert_eq!(CgiResponse::parse(": x\n\n").unwrap_err(), CgiError::InvalidHeaderName);
}

#[test]
fn cgi_malformed_header_value_fails() {
    assert_eq!(
        CgiResponse::parse("A: b\u{7f}c\n\n").unwrap_err(),
        CgiError::InvalidHeaderValue
    );
}

#[test]
fn header_names_become_http_variables() {
    assert_eq!(to_cgi_http_header(b"x-forwarded-for"), b"HTTP_X_FORWARDED_FOR".to_vec());
    assert_eq!(to_cgi_http_header(b"accept"), b"HTTP_ACCEPT".to_vec());
}

#[test]
fn content_headers_are_not_prefixed() {
    assert_eq!(
        cgi_header_var(b"content-type", b"text/html"),
        (b"CONTENT_TYPE".to_vec(), b"text/html".to_vec())
    );
    assert_eq!(
        cgi_header_var(b"Content-Length", b"12"),
        (b"CONTENT_LENGTH".to_vec(), b"12".to_vec())
    );
    assert_eq!(
        cgi_header_var(b"user-agent", b"t"),
        (b"HTTP_USER_AGENT".to_vec(), b"t".to_vec())
    );
}

#[test]
fn every_header_maps_to_one_variable() {
    let headers = pairs(&[("content-type", "a"), ("host", "h"), ("content-length", "3")]);
    let vars = cgi_vars(b"GET", HttpVersion::Http2, None, None, b"/", &headers);
    assert_eq!(vars.len(), 7 + 3);
    assert_eq!(
        &vars[7..],
        &pairs(&[("CONTENT_TYPE", "a"), ("HTTP_HOST", "h"), ("CONTENT_LENGTH", "3")])[..]
    );
    assert_eq!(lookup(&vars, "HTTP_CONTENT_TYPE"), None);
}

#[test]
fn protocol_names() {
    assert_eq!(server_protocol(HttpVersion::Http09), b"HTTP/0.9".to_vec());
    assert_eq!(server_protocol(HttpVersion::Http10), b"HTTP/1.0".to_vec());
    assert_eq!(server_protocol(HttpVersion::Http11), b"HTTP/1.1".to_vec());
    assert_eq!(server_protocol(HttpVersion::Http2), b"HTTP/2.0".to_vec());
    assert_eq!(server_protocol(HttpVersion::Http3), b"HTTP/3.0".to_vec());
}
