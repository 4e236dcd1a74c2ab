use wgi::lambda::{
    encode_body, first_query_values, group_headers, respond, LambdaError, LambdaRequest,
    LambdaResponse, LambdaState,
};

fn strs(v: &[(&str, &str)]) -> Vec<(String, String)> {
    v.iter().map(|(a, b)| (a.to_string(), b.to_string())).collect()
}

fn groups(v: &[(&str, &[&str])]) -> Vec<(String, Vec<String>)> {
    v.iter()
        .map(|(k, vs)| (k.to_string(), vs.iter().map(|s| s.to_string()).collect()))
        .collect()
}

fn response(status: u16, headers: &[(&str, &[&str])], body: Option<&str>, b64: bool) -> LambdaResponse {
    LambdaResponse {
        status_code: status,
        headers: groups(headers),
        body: body.map(|b| b.to_string()),
        is_base64_encoded: b64,
    }
}

#[test]
fn lambda_request_from_get_with_query() {
    let headers = strs(&[("host", "example"), ("accept", "a"), ("accept", "b")]);
    let req = LambdaRequest::from("GET", "/fn", Some("q=v"), &headers, b"").unwrap();
    assert_eq!(req.resource, "/fn");
    assert_eq!(req.path, "/fn");
    assert_eq!(req.http_method, "GET");
    assert_eq!(req.headers, groups(&[("host", &["example"]), ("accept", &["a", "b"])]));
    assert_eq!(req.query_string_parameters, groups(&[("q", &["v"])]));
    assert_eq!(req.path_parameters, None);
    assert_eq!(req.stage_variables, None);
    assert_eq!(req.body, Some(String::new()));
    assert!(!req.is_base64_encoded);
}

#[test]
fn lambda_request_without_query() {
    let req = LambdaRequest::from("POST", "/fn", None, &Vec::new(), b"hi").unwrap();
    assert!(req.query_string_parameters.is_empty());
    assert_eq!(req.body, Some("hi".to_string()));
    assert!(!req.is_base64_encoded);
}

#[test]
fn lambda_non_utf8_body_is_base64() {
    let req = LambdaRequest::from("POST", "/fn", None, &Vec::new(), &[0xFF]).unwrap();
    assert_eq!(req.body, Some("/w==".to_string()));
    assert!(req.is_base64_encoded);
}

#[test]
fn body_encoding_round_trips() {
    let (text, b64) = encode_body("héllo".as_bytes());
    assert!(!b64);
    assert_eq!(text.as_bytes(), "héllo".as_bytes());

    let raw = [0u8, 0xFF, 0xFE, 0x80, 7];
    let (text, b64) = encode_body(&raw);
    assert!(b64);
    assert_eq!(text, "AP/+gAc=");
    let back = response(200, &[], Some(&text), true).into_http().unwrap();
    assert_eq!(back.body, raw.to_vec());
}

#[test]
fn query_keeps_first_occurrence() {
    let req = LambdaRequest::from("GET", "/", Some("a=1&b=2&a=3"), &Vec::new(), b"").unwrap();
    assert_eq!(req.query_string_parameters, groups(&[("a", &["1"]), ("b", &["2"])]));
}

#[test]
fn query_is_percent_decoded() {
    let req = LambdaRequest::from("GET", "/", Some("a%20b=c+d"), &Vec::new(), b"").unwrap();
    assert_eq!(req.query_string_parameters, groups(&[("a b", &["c d"])]));
}

#[test]
fn first_values_by_key() {
    let got = first_query_values(strs(&[("x", "1"), ("y", "2"), ("x", "3"), ("y", "4")]));
    assert_eq!(got, groups(&[("x", &["1"]), ("y", &["2"])]));
    assert!(first_query_values(Vec::new()).is_empty());
}

#[test]
fn headers_grouped_by_name() {
    let got = group_headers(&strs(&[("a", "1"), ("b", "2"), ("a", "3")]));
    assert_eq!(got, groups(&[("a", &["1", "3"]), ("b", &["2"])]));
}

#[test]
fn lambda_response_to_http() {
    let r = response(200, &[("X-Ok", &["1"])], Some("yes"), false).into_http().unwrap();
    assert_eq!(r.status, 200);
    assert_eq!(r.headers, vec![(b"x-ok".to_vec(), b"1".to_vec())]);
    assert_eq!(r.body, b"yes".to_vec());
}

#[test]
fn lambda_response_base64_body() {
    let r = response(200, &[], Some("/w=="), true).into_http().unwrap();
    assert_eq!(r.body, vec![0xFF]);
}

#[test]
fn lambda_response_each_value_is_a_field() {
    let r = response(201, &[("Set-Cookie", &["a=1", "b=2"]), ("X", &[])], None, false)
        .into_http()
        .unwrap();
    assert_eq!(r.status, 201);
    assert_eq!(
        r.headers,
        vec![
            (b"set-cookie".to_vec(), b"a=1".to_vec()),
            (b"set-cookie".to_vec(), b"b=2".to_vec())
        ]
    );
    assert!(r.body.is_empty());
}

#[test]
fn lambda_response_errors() {
    assert_eq!(
        response(42, &[], None, false).into_http().unwrap_err(),
        LambdaError::InvalidStatus
    );
    assert_eq!(
        response(1000, &[], None, false).into_http().unwrap_err(),
        LambdaError::InvalidStatus
    );
    assert_eq!(
        response(200, &[("bad name", &["x"])], None, false).into_http().unwrap_err(),
        LambdaError::InvalidHeaderName
    );
    assert_eq!(
        response(200, &[("a", &["x\ny"])], None, false).into_http().unwrap_err(),
        LambdaError::InvalidHeaderValue
    );
    assert_eq!(
        response(200, &[], Some("!!"), true).into_http().unwrap_err(),
        LambdaError::InvalidBody
    );
}

#[test]
fn no_response_fails() {
    assert_eq!(respond(None).unwrap_err(), LambdaError::NoResponse);
    let r = respond(Some(response(204, &[], None, false))).unwrap();
    assert_eq!(r.status, 204);
}

#[test]
fn state_hands_out_the_event() {
    let state = LambdaState::new(b"{\"a\":1}".to_vec());
    assert_eq!(state.event_size(), Some(7));
    assert_eq!(state.event(100), b"{\"a\":1}".to_vec());
    assert_eq!(state.event(3), b"{\"a".to_vec());
    assert_eq!(state.event(0), Vec::<u8>::new());
}

#[test]
fn state_keeps_last_valid_response() {
    let mut state = LambdaState::new(Vec::new());
    assert_eq!(state.send_response(None), -1);
    assert!(state.take_response().is_none());
    assert_eq!(state.send_response(Some(response(200, &[], Some("one"), false))), 0);
    assert_eq!(state.send_response(Some(response(202, &[], Some("two"), false))), 0);
    assert_eq!(state.send_response(None), -1);
    let r = state.take_response().unwrap();
    assert_eq!(r.status_code, 202);
    assert!(state.take_response().is_none());
}
