use datadog_logs::health::{
    check_response, describe, probe_request, unauthorized, unexpected_status, HealthcheckError,
};
use datadog_logs::request::{Header, WireRequest};

#[test]
fn the_probe_is_an_empty_request_with_the_api_key() {
    let req = probe_request("https://http-intake.logs.datadoghq.com/v1/input", "atoken").unwrap();
    assert_eq!(
        req,
        WireRequest {
            uri: "https://http-intake.logs.datadoghq.com/v1/input".to_string(),
            headers: vec![
                Header { name: "content-type".to_string(), value: "application/json".to_string() },
                Header { name: "DD-API-KEY".to_string(), value: "atoken".to_string() },
            ],
            body: vec![],
        }
    );
}

#[test]
fn the_probe_is_refused_for_a_bad_endpoint_or_key() {
    assert_eq!(probe_request("not a uri", "atoken"), Err(HealthcheckError::InvalidUri));
    assert_eq!(probe_request("not a uri", "a\nb"), Err(HealthcheckError::InvalidUri));
    assert_eq!(probe_request("http://h/", "a\nb"), Err(HealthcheckError::InvalidApiKey));
}

#[test]
fn status_200_is_healthy() {
    assert_eq!(check_response(200, b""), Ok(()));
    assert_eq!(check_response(200, b"{\"error\":\"ignored\"}"), Ok(()));
}

#[test]
fn status_401_gives_the_reason_in_the_body() {
    assert_eq!(
        check_response(401, b"{\"error\": \"bad key\"}"),
        Err(HealthcheckError::Unauthorized("bad key".to_string()))
    );
    assert_eq!(
        describe(&check_response(401, b"{\"error\": \"bad key\"}").unwrap_err()),
        "bad key"
    );
}

#[test]
fn status_401_without_a_reason_gives_the_standard_text() {
    let standard = HealthcheckError::Unauthorized("Token is not valid, 401 returned.".to_string());
    assert_eq!(check_response(401, b"{}"), Err(standard.clone()));
    assert_eq!(check_response(401, b"{\"error\": 17}"), Err(standard.clone()));
    assert_eq!(check_response(401, b"{\"errors\": \"x\"}"), Err(standard.clone()));
    assert_eq!(check_response(401, b"[\"error\"]"), Err(standard.clone()));
    assert_eq!(check_response(401, b"\"error\""), Err(standard));
}

#[test]
fn status_401_with_a_body_that_is_no_json_gives_the_standard_text() {
    let standard = HealthcheckError::Unauthorized("Token is not valid, 401 returned.".to_string());
    assert_eq!(check_response(401, b"Unauthorized"), Err(standard.clone()));
    assert_eq!(check_response(401, b"oops"), Err(standard.clone()));
    assert_eq!(check_response(401, b"{\"error\": \"cut"), Err(standard.clone()));
    assert_eq!(check_response(401, b""), Err(standard.clone()));
    assert_eq!(
        describe(&check_response(401, b"Unauthorized").unwrap_err()),
        "Token is not valid, 401 returned."
    );
}

#[test]
fn other_statuses_echo_status_and_body() {
    assert_eq!(
        check_response(500, b"oops"),
        Err(HealthcheckError::UnexpectedStatus(
            "Server returned unexpected error status: 500 Internal Server Error body: oops"
                .to_string()
        ))
    );
    assert_eq!(
        check_response(403, b"{\"error\": \"bad key\"}"),
        Err(HealthcheckError::UnexpectedStatus(
            "Server returned unexpected error status: 403 Forbidden body: {\"error\": \"bad key\"}"
                .to_string()
        ))
    );
    assert_eq!(
        check_response(201, b""),
        Err(HealthcheckError::UnexpectedStatus(
            "Server returned unexpected error status: 201 Created body: ".to_string()
        ))
    );
}

#[test]
fn a_number_that_is_no_status_code_is_echoed_bare() {
    assert_eq!(
        check_response(99, b"x"),
        Err(HealthcheckError::UnexpectedStatus(
            "Server returned unexpected error status: 99 body: x".to_string()
        ))
    );
    assert_eq!(
        check_response(1000, b""),
        Err(HealthcheckError::UnexpectedStatus(
            "Server returned unexpected error status: 1000 body: ".to_string()
        ))
    );
}

#[test]
fn a_body_that_is_no_utf8_is_echoed_with_replacement_characters() {
    assert_eq!(
        check_response(502, &[b'a', 0xff, b'b']),
        Err(HealthcheckError::UnexpectedStatus(
            "Server returned unexpected error status: 502 Bad Gateway body: a\u{fffd}b".to_string()
        ))
    );
}

#[test]
fn errors_from_what_was_read() {
    assert_eq!(
        unauthorized(Ok(Some("why".to_string()))),
        HealthcheckError::Unauthorized("why".to_string())
    );
    assert_eq!(
        unauthorized(Ok(None)),
        HealthcheckError::Unauthorized("Token is not valid, 401 returned.".to_string())
    );
    assert_eq!(
        unauthorized(Err("expected value".to_string())),
        HealthcheckError::Unauthorized("Token is not valid, 401 returned.".to_string())
    );
    assert_eq!(
        unexpected_status("418 I'm a teapot", "short and stout"),
        HealthcheckError::UnexpectedStatus(
            "Server returned unexpected error status: 418 I'm a teapot body: short and stout"
                .to_string()
        )
    );
}

#[test]
fn every_error_has_a_message() {
    assert_eq!(describe(&HealthcheckError::InvalidUri), "The endpoint is not a valid URI.");
    assert_eq!(
        describe(&HealthcheckError::InvalidApiKey),
        "The API key is not a valid header value."
    );
    assert_eq!(describe(&HealthcheckError::Unauthorized("a".to_string())), "a");
    assert_eq!(describe(&HealthcheckError::UnexpectedStatus("c".to_string())), "c");
}
